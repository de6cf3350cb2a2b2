//! Deserialization that threads an allocator handle through nested values.
//!
//! The library holds the decisions that the deserializers make: the seed
//! that carries the allocator handle, how optional and boxed values are
//! formed, how sequences and maps are collected, and how the map visitor
//! that the derive emits for a struct reads its fields. It also holds the
//! derive's reading of attributes and its plan for a struct.
mod attrs;
mod boxed;
mod fields;
mod map;
mod native;
mod option;
mod plan;
mod seed;
mod seq;

pub use attrs::{
    default_in_outcomes, field_default_in, field_default_in_given, has_native_attr, is_native,
    is_serde_skipped, is_skipped, is_skipped_given, law_last_readable_default_in_wins,
    law_left_out_iff_skip_or_default_in, law_rooted_paths_are_simple, lemma_decided_outcome,
    lemma_default_in_names_a_literal, lemma_simple_path_starts_well, read_default_in, AttrModel,
    FieldModel, MetaModel, MetaValue,
};
pub use boxed::boxed;
pub use fields::{
    law_struct_complete_iff_each_field_once, FieldTracker, KeyAction, StructOutcome,
};
pub use map::{law_map_last_entry_wins, MapCollector};
pub use native::Native;
pub use option::{option_absent, option_present};
pub use plan::{
    contains_text, find_alloc_param, law_key_selects_own_field, law_native_forwards_whatever_the_type,
    law_no_allocator_param_is_refused, plan_derive, plan_derive_given, plan_fields,
    plan_fields_given, ActiveField, DeriveError, DerivePlan, FieldInit, ParamModel, ShapeModel,
};
pub use seed::WithAllocSeed;
pub use seq::{SeqCollector, Step};
