use serde_alloc::{
    default_in_outcomes, field_default_in_given, is_skipped_given, plan_derive_given,
    plan_fields_given, FieldTracker, KeyAction,
    contains_text, field_default_in, find_alloc_param, has_native_attr, is_native,
    is_serde_skipped, is_skipped, plan_derive, read_default_in, plan_fields, ActiveField, AttrModel, DeriveError,
    DerivePlan, FieldInit, FieldModel, MetaModel, MetaValue, ParamModel, ShapeModel,
};

fn meta(name: &str, value: MetaValue) -> MetaModel {
    MetaModel { ident: Some(name.to_string()), value }
}

fn own(metas: Vec<MetaModel>) -> AttrModel {
    AttrModel { ident: Some("deserialize_with_alloc".to_string()), metas, list_idents: None }
}

fn serde(idents: &[&str]) -> AttrModel {
    AttrModel {
        ident: Some("serde".to_string()),
        metas: vec![],
        list_idents: Some(idents.iter().map(|s| s.to_string()).collect()),
    }
}

fn field(name: &str, attrs: Vec<AttrModel>) -> FieldModel {
    FieldModel { name: name.to_string(), attrs }
}

fn default_in(path: &str) -> MetaModel {
    meta("default_in", MetaValue::Str(path.to_string()))
}

#[test]
fn native_marker_is_found() {
    assert!(has_native_attr(&vec![own(vec![meta("native", MetaValue::Absent)])]));
    assert!(has_native_attr(&vec![serde(&["skip"]), own(vec![default_in("f"), meta("native", MetaValue::Absent)])]));
    assert!(!has_native_attr(&vec![own(vec![default_in("f")])]));
    // `native` under another attribute does not count
    let other = AttrModel {
        ident: Some("other".to_string()),
        metas: vec![meta("native", MetaValue::Absent)],
        list_idents: None,
    };
    assert!(!has_native_attr(&vec![other]));
    assert!(!has_native_attr(&vec![]));
}

#[test]
fn last_default_in_wins() {
    let f = field("x", vec![own(vec![default_in("a::first")]), own(vec![default_in("b::second")])]);
    assert_eq!(field_default_in(&f), Some("b::second".to_string()));
    let g = field("y", vec![own(vec![default_in("a"), meta("native", MetaValue::Absent), default_in("c")])]);
    assert_eq!(field_default_in(&g), Some("c".to_string()));
}

#[test]
fn unreadable_default_in_stops_that_attribute() {
    let f = field(
        "x",
        vec![own(vec![default_in("a"), meta("default_in", MetaValue::Other), default_in("never")])],
    );
    assert_eq!(field_default_in(&f), Some("a".to_string()));
    let g = field("y", vec![own(vec![meta("default_in", MetaValue::Str("not a path!".to_string()))]), own(vec![default_in("z")])]);
    assert_eq!(field_default_in(&g), Some("z".to_string()));
    let k = field("v", vec![own(vec![default_in("ok::path"), default_in("not a path!")])]);
    assert_eq!(field_default_in(&k), Some("ok::path".to_string()));
    let l = field("u", vec![own(vec![default_in("1 +")])]);
    assert_eq!(field_default_in(&l), None);
    let h = field("w", vec![own(vec![meta("default_in", MetaValue::Absent)])]);
    assert_eq!(field_default_in(&h), None);
}

#[test]
fn default_in_value_needs_a_path() {
    assert_eq!(read_default_in(&MetaValue::Str("a::b".to_string()), true), Some("a::b".to_string()));
    assert_eq!(read_default_in(&MetaValue::Str("a::b".to_string()), false), None);
    assert_eq!(read_default_in(&MetaValue::Other, true), None);
    assert_eq!(read_default_in(&MetaValue::Absent, true), None);
}

#[test]
fn serde_skip_words() {
    assert!(is_serde_skipped(&field("a", vec![serde(&["rename", "skip"])])));
    assert!(is_serde_skipped(&field("a", vec![serde(&["skip_deserializing"])])));
    assert!(!is_serde_skipped(&field("a", vec![serde(&["skip_serializing"])])));
    assert!(!is_serde_skipped(&field("a", vec![own(vec![meta("skip", MetaValue::Absent)])])));
}

#[test]
fn skipped_means_serde_skip_or_default_in() {
    assert!(is_skipped(&field("a", vec![serde(&["skip"])])));
    assert!(is_skipped(&field("a", vec![own(vec![default_in("p")])])));
    assert!(!is_skipped(&field("a", vec![own(vec![meta("native", MetaValue::Absent)])])));
    assert!(is_native(&field("a", vec![own(vec![meta("native", MetaValue::Absent)])])));
}

#[test]
fn allocator_text_search() {
    assert!(contains_text("Allocator + Clone", "Allocator"));
    assert!(contains_text(":: std :: alloc :: Allocator", "Allocator"));
    assert!(!contains_text("Alloc + Clone", "Allocator"));
    assert!(contains_text("abc", ""));
    assert!(!contains_text("", "a"));
}

#[test]
fn allocator_param_is_first_type_param_with_such_bound() {
    let params = vec![
        ParamModel { type_ident: None, bounds: vec!["Allocator".to_string()] },
        ParamModel { type_ident: Some("T".to_string()), bounds: vec!["Clone".to_string()] },
        ParamModel { type_ident: Some("A".to_string()), bounds: vec!["Clone".to_string(), "Allocator".to_string()] },
        ParamModel { type_ident: Some("B".to_string()), bounds: vec!["Allocator".to_string()] },
    ];
    assert_eq!(find_alloc_param(&params), Some(2));
    assert_eq!(find_alloc_param(&vec![]), None);
}

#[test]
fn fields_are_split_and_initialized() {
    let fields = vec![
        field("a", vec![]),
        field("b", vec![serde(&["skip"])]),
        field("c", vec![own(vec![meta("native", MetaValue::Absent)])]),
        field("d", vec![own(vec![default_in("Vec::new_in")]), serde(&["skip"])]),
    ];
    let (active, inits) = plan_fields(&fields);
    assert_eq!(
        active,
        vec![ActiveField { field: 0, native: false }, ActiveField { field: 2, native: true }]
    );
    assert_eq!(
        inits,
        vec![
            FieldInit::FromMap(0),
            FieldInit::SerdeDefault,
            FieldInit::FromMap(1),
            FieldInit::DefaultIn("Vec::new_in".to_string()),
        ]
    );
}

#[test]
fn derive_plan_cases() {
    let alloc = vec![ParamModel { type_ident: Some("A".to_string()), bounds: vec!["Allocator + Clone".to_string()] }];
    let shape = ShapeModel::NamedStruct(vec![field("a", vec![])]);
    assert_eq!(
        plan_derive(&vec![own(vec![meta("native", MetaValue::Absent)])], &vec![], &ShapeModel::NotStruct),
        Ok(DerivePlan::Forward)
    );
    assert_eq!(plan_derive(&vec![], &vec![], &shape), Err(DeriveError::NoAllocatorParam));
    assert_eq!(plan_derive(&vec![], &alloc, &ShapeModel::NotStruct), Err(DeriveError::NotStruct));
    assert_eq!(plan_derive(&vec![], &alloc, &ShapeModel::UnnamedStruct), Err(DeriveError::NotNamedStruct));
    assert_eq!(
        plan_derive(&vec![], &alloc, &shape),
        Ok(DerivePlan::Visitor {
            alloc_param: 0,
            active: vec![ActiveField { field: 0, native: false }],
            inits: vec![FieldInit::FromMap(0)],
        })
    );
}

#[test]
fn key_of_left_out_field_is_unknown() {
    let fields = vec![
        field("a", vec![]),
        field("b", vec![serde(&["skip"])]),
        field("c", vec![own(vec![default_in("make")])]),
        field("d", vec![]),
    ];
    let (active, _) = plan_fields(&fields);
    let names: Vec<String> = active.iter().map(|a| fields[a.field].name.clone()).collect();
    let mut t = FieldTracker::new(names);
    assert_eq!(t.on_key(&"b".to_string()), KeyAction::Unknown);
    assert_eq!(t.on_key(&"c".to_string()), KeyAction::Unknown);
    assert_eq!(t.on_key(&"d".to_string()), KeyAction::Read(1));
    assert_eq!(t.on_key(&"a".to_string()), KeyAction::Read(0));
    assert_eq!(t.first_missing(), None);
}

#[test]
fn default_in_given_parse_outcomes() {
    let f = field("x", vec![own(vec![default_in("a"), default_in("b")])]);
    assert_eq!(field_default_in_given(&f, &vec![vec![true, false]]), Some("a".to_string()));
    assert_eq!(field_default_in_given(&f, &vec![vec![true, true]]), Some("b".to_string()));
    assert_eq!(field_default_in_given(&f, &vec![vec![false, true]]), None);
    let g = field("y", vec![serde(&["rename"]), own(vec![meta("native", MetaValue::Absent), default_in("c")])]);
    assert_eq!(field_default_in_given(&g, &vec![vec![], vec![false, true]]), Some("c".to_string()));
    assert!(is_skipped_given(&g, &vec![vec![], vec![false, true]]));
    assert!(!is_skipped_given(&g, &vec![vec![], vec![false, false]]));
    let h = field("z", vec![serde(&["skip"])]);
    assert!(is_skipped_given(&h, &vec![vec![]]));
}

#[test]
fn outcomes_ask_only_default_in_literals() {
    let attrs = vec![
        own(vec![default_in("a::b"), meta("native", MetaValue::Absent), meta("other", MetaValue::Str("x".to_string()))]),
        serde(&["skip"]),
    ];
    assert_eq!(default_in_outcomes(&attrs), vec![vec![true, false, false], vec![]]);
}

#[test]
fn plans_given_parse_outcomes() {
    let fields = vec![field("a", vec![own(vec![default_in("make")])]), field("b", vec![])];
    let (active, inits) = plan_fields_given(&fields, &vec![vec![vec![false]], vec![]]);
    assert_eq!(active, vec![ActiveField { field: 0, native: false }, ActiveField { field: 1, native: false }]);
    assert_eq!(inits, vec![FieldInit::FromMap(0), FieldInit::FromMap(1)]);
    let (active, inits) = plan_fields_given(&fields, &vec![vec![vec![true]], vec![]]);
    assert_eq!(active, vec![ActiveField { field: 1, native: false }]);
    assert_eq!(inits, vec![FieldInit::DefaultIn("make".to_string()), FieldInit::FromMap(0)]);
    let alloc = vec![ParamModel { type_ident: Some("A".to_string()), bounds: vec!["Allocator".to_string()] }];
    assert_eq!(
        plan_derive_given(&vec![], &alloc, &ShapeModel::NamedStruct(fields), &vec![vec![vec![true]], vec![]]),
        Ok(DerivePlan::Visitor {
            alloc_param: 0,
            active: vec![ActiveField { field: 1, native: false }],
            inits: vec![FieldInit::DefaultIn("make".to_string()), FieldInit::FromMap(0)],
        })
    );
    assert_eq!(
        plan_derive_given(&vec![], &vec![], &ShapeModel::NotStruct, &vec![]),
        Err(DeriveError::NoAllocatorParam)
    );
}

#[test]
fn simple_paths_always_read() {
    let attrs = vec![own(vec![
        default_in("alloc::vec::Vec::new_in"),
        default_in("Vec::new_in"),
        default_in("make_2"),
    ])];
    assert_eq!(default_in_outcomes(&attrs), vec![vec![true, true, true]]);
    let f = field("x", vec![own(vec![default_in("std::vec::Vec::new_in")])]);
    assert_eq!(field_default_in(&f), Some("std::vec::Vec::new_in".to_string()));
    assert!(is_skipped(&f));
    let (active, inits) = plan_fields(&vec![f, field("y", vec![])]);
    assert_eq!(active, vec![ActiveField { field: 1, native: false }]);
    assert_eq!(inits, vec![FieldInit::DefaultIn("std::vec::Vec::new_in".to_string()), FieldInit::FromMap(0)]);
}

#[test]
fn keywords_and_spaces_are_no_path() {
    let attrs = vec![own(vec![default_in("fn"), default_in("a b"), default_in("")])];
    assert_eq!(default_in_outcomes(&attrs), vec![vec![false, false, false]]);
}

#[test]
fn literal_followed_by_more_tokens_ends_its_attribute() {
    let then = |p: &str| meta("default_in", MetaValue::StrThen(p.to_string()));
    assert_eq!(read_default_in(&MetaValue::StrThen("a::b".to_string()), true), Some("a::b".to_string()));
    let f = field("x", vec![own(vec![then("a"), default_in("c")])]);
    assert_eq!(default_in_outcomes(&f.attrs), vec![vec![true, true]]);
    assert_eq!(field_default_in(&f), Some("a".to_string()));
    let g = field("y", vec![own(vec![then("a")]), own(vec![default_in("b")])]);
    assert_eq!(field_default_in(&g), Some("b".to_string()));
    let h = field("z", vec![own(vec![then("1"), default_in("c")])]);
    assert_eq!(field_default_in(&h), None);
    assert!(!is_skipped(&h));
}

#[test]
fn rooted_paths_read_and_digit_starts_do_not() {
    let attrs = vec![own(vec![
        default_in("::alloc::vec::Vec::new_in"),
        default_in(""),
        default_in("9lives"),
        default_in("1 +"),
    ])];
    assert_eq!(default_in_outcomes(&attrs), vec![vec![true, false, false, false]]);
    let f = field("x", vec![own(vec![default_in("::alloc::vec::Vec::new_in"), default_in("")])]);
    assert_eq!(field_default_in(&f), Some("::alloc::vec::Vec::new_in".to_string()));
    let g = field("y", vec![own(vec![default_in("1 +")])]);
    assert_eq!(field_default_in(&g), None);
    assert!(!is_skipped(&g));
    let (active, inits) = plan_fields(&vec![g]);
    assert_eq!(active, vec![ActiveField { field: 0, native: false }]);
    assert_eq!(inits, vec![FieldInit::FromMap(0)]);
}
