use serde_alloc::{FieldTracker, KeyAction};

fn tracker(names: &[&str]) -> FieldTracker {
    FieldTracker::new(names.iter().map(|s| s.to_string()).collect())
}

#[test]
fn every_field_once_in_any_order() {
    let mut t = tracker(&["alpha", "beta", "gamma"]);
    assert_eq!(t.on_key(&"gamma".to_string()), KeyAction::Read(2));
    assert_eq!(t.on_key(&"alpha".to_string()), KeyAction::Read(0));
    assert_eq!(t.on_key(&"beta".to_string()), KeyAction::Read(1));
    assert_eq!(t.first_missing(), None);
}

#[test]
fn repeated_key_is_a_duplicate() {
    let mut t = tracker(&["alpha", "beta"]);
    assert_eq!(t.on_key(&"beta".to_string()), KeyAction::Read(1));
    assert_eq!(t.on_key(&"beta".to_string()), KeyAction::Duplicate(1));
}

#[test]
fn unknown_key_is_refused() {
    let mut t = tracker(&["alpha"]);
    assert_eq!(t.on_key(&"Alpha".to_string()), KeyAction::Unknown);
    assert_eq!(t.on_key(&"".to_string()), KeyAction::Unknown);
    assert_eq!(t.first_missing(), Some(0));
}

#[test]
fn first_missing_in_declaration_order() {
    let mut t = tracker(&["a", "b", "c", "d"]);
    assert_eq!(t.on_key(&"a".to_string()), KeyAction::Read(0));
    assert_eq!(t.on_key(&"c".to_string()), KeyAction::Read(2));
    assert_eq!(t.first_missing(), Some(1));
}

#[test]
fn struct_without_read_fields_is_complete() {
    let mut t = tracker(&[]);
    assert_eq!(t.first_missing(), None);
    assert_eq!(t.on_key(&"x".to_string()), KeyAction::Unknown);
}
