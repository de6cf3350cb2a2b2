use std::collections::hash_map::RandomState;
use std::collections::HashMap;

use serde_alloc::{MapCollector, SeqCollector, Step};

#[test]
fn sequence_keeps_elements_in_order() {
    let mut c: SeqCollector<i32, u8> = SeqCollector::new(Some(4), 1);
    for v in [1, 2, 3, 4] {
        assert_eq!(c.accept::<String>(Ok(Some(v))), Step::Continue);
    }
    assert_eq!(c.accept::<String>(Ok(None)), Step::Done);
    assert_eq!(c.finish(), vec![1, 2, 3, 4]);
}

#[test]
fn sequence_without_hint_starts_empty() {
    let c: SeqCollector<i32, u8> = SeqCollector::new(None, 1);
    assert_eq!(c.finish(), Vec::<i32>::new());
}

#[test]
fn sequence_failure_is_passed_on() {
    let mut c: SeqCollector<i32, u8> = SeqCollector::new(None, 1);
    assert_eq!(c.accept::<String>(Ok(Some(5))), Step::Continue);
    assert_eq!(c.accept(Err("broken".to_string())), Step::Failed("broken".to_string()));
    assert_eq!(c.finish(), vec![5]);
}

#[test]
fn sequence_seeds_share_the_allocator() {
    let c: SeqCollector<Vec<u8>, u32> = SeqCollector::new(None, 99);
    assert_eq!(*c.element_seed().handle(), 99);
    assert_eq!(*c.element_seed().handle(), 99);
}

#[test]
fn map_later_entry_wins() {
    let mut c: MapCollector<String, i32, RandomState, u8> = MapCollector::new(Some(3), 0);
    assert_eq!(c.accept::<String>(Ok(Some(("a".to_string(), 1)))), Step::Continue);
    assert_eq!(c.accept::<String>(Ok(Some(("b".to_string(), 2)))), Step::Continue);
    assert_eq!(c.accept::<String>(Ok(Some(("a".to_string(), 3)))), Step::Continue);
    assert_eq!(c.accept::<String>(Ok(None)), Step::Done);
    let m: HashMap<String, i32, RandomState> = c.finish();
    assert_eq!(m.len(), 2);
    assert_eq!(m["a"], 3);
    assert_eq!(m["b"], 2);
}

#[test]
fn map_failure_is_passed_on() {
    let mut c: MapCollector<u32, u32, RandomState, u8> = MapCollector::new(None, 0);
    assert_eq!(c.accept(Err(7u8)), Step::Failed(7u8));
    assert!(c.finish().is_empty());
}

#[test]
fn map_seeds_share_the_allocator() {
    let c: MapCollector<u32, u32, RandomState, u16> = MapCollector::new(None, 5);
    assert_eq!(*c.key_seed().handle(), 5);
    assert_eq!(*c.value_seed().handle(), 5);
}
