use vstd::prelude::*;
use vstd::string::*;

use crate::fields::{find_name, lemma_find_name};
use crate::attrs::{
    is_ident, own_attr,
    decided_flags, default_in_outcomes, field_default_in_given, field_skipped, flag_views,
    has_native_attr, is_native, is_serde_skipped, is_skipped_given, literals_decided, reads_agree,
    reads_fit, spec_default_in, spec_has_native, spec_serde_skipped, AttrModel, FieldModel,
};

verus! {

/// A generic parameter of the type that the derive is applied to.
#[derive(Debug, Clone, PartialEq, Eq)]
pub struct ParamModel {
    /// The parameter's name when it is a type parameter.
    pub type_ident: Option<String>,
    /// The text of each of its bounds.
    pub bounds: Vec<String>,
}

/// The shape of the type that the derive is applied to.
#[derive(Debug, Clone, PartialEq, Eq)]
pub enum ShapeModel {
    /// A struct with named fields, in declaration order.
    NamedStruct(Vec<FieldModel>),
    /// A tuple struct or a unit struct.
    UnnamedStruct,
    /// An enum or a union.
    NotStruct,
}

/// How the derived code initializes a field of the struct.
#[derive(Debug, Clone, PartialEq, Eq)]
pub enum FieldInit {
    /// From the value read from the map for the deserialized field at this
    /// index; a missing value is a missing-field error.
    FromMap(usize),
    /// By calling this path with a clone of the allocator handle.
    DefaultIn(String),
    /// With `Default::default()`.
    SerdeDefault,
}

/// A field whose value is read from the map.
#[derive(Debug, Clone, Copy, PartialEq, Eq)]
pub struct ActiveField {
    /// Its index among all the fields.
    pub field: usize,
    /// Whether it is read as `Native<_>` and unwrapped.
    pub native: bool,
}

/// What the derive emits.
#[derive(Debug, Clone, PartialEq, Eq)]
pub enum DerivePlan {
    /// An impl that deserializes the type on its own and ignores the
    /// allocator handle.
    Forward,
    /// An impl with a map visitor.
    Visitor {
        /// Index of the generic parameter that is the allocator.
        alloc_param: usize,
        /// The deserialized fields, in declaration order.
        active: Vec<ActiveField>,
        /// How each field, in declaration order, is initialized.
        inits: Vec<FieldInit>,
    },
}

/// Why the derive refuses the type.
#[derive(Debug, Clone, Copy, PartialEq, Eq)]
pub enum DeriveError {
    /// No type parameter has a bound that mentions `Allocator`.
    NoAllocatorParam,
    /// The struct's fields are not named.
    NotNamedStruct,
    /// The type is not a struct.
    NotStruct,
}

/// `needle` occurs in `hay`.
pub open spec fn spec_contains(hay: Seq<char>, needle: Seq<char>) -> bool {
    exists|i: int| 0 <= i && i + needle.len() <= hay.len() && #[trigger] hay.subrange(i, i + needle.len()) == needle
}

/// The characters of `s`.
fn chars_of(s: &str) -> (r: Vec<char>)
    ensures
        r@ == s@,
{
    let n = s.unicode_len();
    let mut r: Vec<char> = Vec::with_capacity(n);
    let mut i: usize = 0;
    while i < n
        invariant
            i <= n == s@.len(),
            r@ == s@.take(i as int),
        decreases n - i,
    {
        r.push(s.get_char(i));
        proof {
            assert(s@.take(i + 1) =~= s@.take(i as int).push(s@[i as int]));
        }
        i += 1;
    }
    proof {
        assert(s@.take(n as int) =~= s@);
    }
    r
}

/// Whether `needle` occurs in `hay` at position `at`.
fn occurs_at(hay: &Vec<char>, needle: &Vec<char>, at: usize) -> (r: bool)
    requires
        at + needle@.len() <= hay@.len(),
    ensures
        r == (hay@.subrange(at as int, at + needle@.len()) == needle@),
{
    let m = needle.len();
    let hl = hay.len();
    let mut j: usize = 0;
    while j < m
        invariant
            j <= m == needle@.len(),
            hl == hay@.len(),
            at + m <= hay@.len(),
            forall|k: int| 0 <= k < j ==> hay@[at + k] == needle@[k],
        decreases m - j,
    {
        if hay[at + j] != needle[j] {
            proof {
                let sub = hay@.subrange(at as int, at + m);
                assert(sub[j as int] != needle@[j as int]);
            }
            return false;
        }
        j += 1;
    }
    proof {
        assert(hay@.subrange(at as int, at + m) =~= needle@);
    }
    true
}

/// Whether `needle` occurs in `hay`.
pub fn contains_text(hay: &str, needle: &str) -> (r: bool)
    ensures
        r == spec_contains(hay@, needle@),
{
    let h = chars_of(hay);
    let nd = chars_of(needle);
    let n = h.len();
    let m = nd.len();
    if m > n {
        return false;
    }
    let mut i: usize = 0;
    loop
        invariant
            m <= n,
            i <= n - m,
            n == h@.len() == hay@.len(),
            m == nd@.len() == needle@.len(),
            h@ == hay@,
            nd@ == needle@,
            forall|k: int| 0 <= k < i ==> #[trigger] h@.subrange(k, k + m) != nd@,
        decreases n - m - i,
    {
        if occurs_at(&h, &nd, i) {
            return true;
        }
        if i == n - m {
            return false;
        }
        i += 1;
    }
}

/// One of the bounds mentions `Allocator`.
pub open spec fn bounds_mention_allocator(bounds: Seq<String>) -> bool {
    exists|j: int| 0 <= j < bounds.len() && spec_contains(#[trigger] bounds[j]@, "Allocator"@)
}

/// The parameter is a type parameter bounded by something that mentions
/// `Allocator`.
pub open spec fn is_alloc_param(p: ParamModel) -> bool {
    p.type_ident is Some && bounds_mention_allocator(p.bounds@)
}

/// Index of the first generic parameter that is the allocator, if any.
pub open spec fn spec_alloc_param(params: Seq<ParamModel>) -> Option<usize> {
    if exists|i: int| 0 <= i < params.len() && is_alloc_param(#[trigger] params[i]) {
        let i = choose|i: int|
            0 <= i < params.len() && is_alloc_param(#[trigger] params[i]) && forall|j: int|
                0 <= j < i ==> !is_alloc_param(#[trigger] params[j]);
        Some(i as usize)
    } else {
        None
    }
}

/// Whether one of the bounds mentions `Allocator`.
fn mentions_allocator(bounds: &Vec<String>) -> (r: bool)
    ensures
        r == bounds_mention_allocator(bounds@),
{
    let n = bounds.len();
    let mut j: usize = 0;
    while j < n
        invariant
            j <= n == bounds@.len(),
            forall|k: int| 0 <= k < j ==> !spec_contains(#[trigger] bounds@[k]@, "Allocator"@),
        decreases n - j,
    {
        if contains_text(bounds[j].as_str(), "Allocator") {
            return true;
        }
        j += 1;
    }
    false
}

/// The generic parameter that the derived impl takes as the allocator: the
/// first type parameter with a bound that mentions `Allocator`.
pub fn find_alloc_param(params: &Vec<ParamModel>) -> (r: Option<usize>)
    ensures
        r == spec_alloc_param(params@),
{
    let n = params.len();
    let mut i: usize = 0;
    while i < n
        invariant
            i <= n == params@.len(),
            forall|k: int| 0 <= k < i ==> !is_alloc_param(#[trigger] params@[k]),
        decreases n - i,
    {
        if params[i].type_ident.is_some() && mentions_allocator(&params[i].bounds) {
            proof {
                assert(is_alloc_param(params@[i as int]));
                let c = choose|c: int|
                    0 <= c < params@.len() && is_alloc_param(#[trigger] params@[c]) && forall|j: int|
                        0 <= j < c ==> !is_alloc_param(#[trigger] params@[j]);
                assert(c == i) by {
                    if c < i {
                        assert(!is_alloc_param(params@[c]));
                    } else if c > i {
                        assert(!is_alloc_param(params@[i as int]));
                    }
                }
            }
            return Some(i);
        }
        i += 1;
    }
    None
}

/// The number of fields before index `i` that are read from the map.
pub open spec fn count_active(fields: Seq<FieldModel>, reads: Seq<Seq<Seq<bool>>>, i: int) -> nat
    decreases i,
{
    if i <= 0 {
        0
    } else if field_skipped(fields[i - 1].attrs@, reads[i - 1]) {
        count_active(fields, reads, i - 1)
    } else {
        count_active(fields, reads, i - 1) + 1
    }
}

/// How a field with these attributes is initialized, `reads` saying which
/// `default_in` values read as a path and `index` being the field's position
/// among the deserialized fields when it is one.
pub open spec fn spec_field_init(attrs: Seq<AttrModel>, reads: Seq<Seq<bool>>, index: nat) -> FieldInit {
    match spec_default_in(attrs, reads, None) {
        Some(p) => FieldInit::DefaultIn(p),
        None => if spec_serde_skipped(attrs) {
            FieldInit::SerdeDefault
        } else {
            FieldInit::FromMap(index as usize)
        },
    }
}

/// `reads` holds, for each field, the flags that say which of its
/// `default_in` values read as a path.
pub open spec fn fields_reads_fit(fields: Seq<FieldModel>, reads: Seq<Seq<Seq<bool>>>) -> bool {
    &&& reads.len() == fields.len()
    &&& forall|i: int| 0 <= i < fields.len() ==> reads_fit(fields[i].attrs@, #[trigger] reads[i])
}

/// The views of the flags of every field.
pub open spec fn field_flag_views(reads: Seq<Vec<Vec<bool>>>) -> Seq<Seq<Seq<bool>>> {
    reads.map_values(|v: Vec<Vec<bool>>| flag_views(v@))
}

/// The plan for the fields, `reads` saying which `default_in` values read as
/// a path: `active` lists the fields that are read from the map, in
/// declaration order, and `inits` says how each field is initialized.
pub open spec fn fields_planned(
    fields: Seq<FieldModel>,
    reads: Seq<Seq<Seq<bool>>>,
    active: Seq<ActiveField>,
    inits: Seq<FieldInit>,
) -> bool {
    &&& inits.len() == fields.len()
    &&& active.len() == count_active(fields, reads, fields.len() as int)
    &&& forall|i: int|
        0 <= i < fields.len() ==> #[trigger] inits[i] == spec_field_init(
            fields[i].attrs@,
            reads[i],
            count_active(fields, reads, i),
        )
    &&& forall|i: int|
        0 <= i < fields.len() && !field_skipped(fields[i].attrs@, reads[i]) ==> active[count_active(fields, reads, i) as int]
            == (ActiveField { field: i as usize, native: spec_has_native(#[trigger] fields[i].attrs@) })
}

proof fn lemma_count_active_bound(fields: Seq<FieldModel>, reads: Seq<Seq<Seq<bool>>>, i: int)
    requires
        0 <= i,
    ensures
        count_active(fields, reads, i) <= i,
    decreases i,
{
    if i > 0 {
        lemma_count_active_bound(fields, reads, i - 1);
    }
}

proof fn lemma_count_active_mono(fields: Seq<FieldModel>, reads: Seq<Seq<Seq<bool>>>, k: int, i: int)
    requires
        0 <= k < i,
        !field_skipped(fields[k].attrs@, reads[k]),
    ensures
        count_active(fields, reads, k) < count_active(fields, reads, i),
    decreases i,
{
    if k < i - 1 {
        lemma_count_active_mono(fields, reads, k, i - 1);
    }
}

/// Splits the fields into those read from the map and the others, and says
/// how each is initialized, `reads` saying which `default_in` values read as
/// a path.
pub fn plan_fields_given(fields: &Vec<FieldModel>, reads: &Vec<Vec<Vec<bool>>>) -> (r: (
    Vec<ActiveField>,
    Vec<FieldInit>,
))
    requires
        fields_reads_fit(fields@, field_flag_views(reads@)),
    ensures
        fields_planned(fields@, field_flag_views(reads@), r.0@, r.1@),
{
    let ghost rv = field_flag_views(reads@);
    let n = fields.len();
    let mut active: Vec<ActiveField> = Vec::new();
    let mut inits: Vec<FieldInit> = Vec::new();
    let mut i: usize = 0;
    while i < n
        invariant
            i <= n == fields@.len() == rv.len(),
            rv == field_flag_views(reads@),
            fields_reads_fit(fields@, rv),
            inits@.len() == i,
            active@.len() == count_active(fields@, rv, i as int),
            forall|k: int|
                0 <= k < i ==> #[trigger] inits@[k] == spec_field_init(
                    fields@[k].attrs@,
                    rv[k],
                    count_active(fields@, rv, k),
                ),
            forall|k: int|
                0 <= k < i && !field_skipped(fields@[k].attrs@, rv[k]) ==> active@[count_active(fields@, rv, k) as int]
                    == (ActiveField { field: k as usize, native: spec_has_native(#[trigger] fields@[k].attrs@) }),
        decreases n - i,
    {
        let field = &fields[i];
        let fr = &reads[i];
        proof {
            lemma_count_active_bound(fields@, rv, i as int);
            assert(rv[i as int] == flag_views(fr@));
            assert(reads_fit(fields@[i as int].attrs@, rv[i as int]));
            reveal(field_skipped);
        }
        let index = active.len();
        if !is_skipped_given(field, fr) {
            active.push(ActiveField { field: i, native: is_native(field) });
        }
        let init = match field_default_in_given(field, fr) {
            Some(p) => FieldInit::DefaultIn(p),
            None => if is_serde_skipped(field) {
                FieldInit::SerdeDefault
            } else {
                FieldInit::FromMap(index)
            },
        };
        inits.push(init);
        proof {
            assert forall|k: int|
                0 <= k < i + 1 && !field_skipped(fields@[k].attrs@, rv[k]) implies active@[count_active(fields@, rv, k) as int]
                    == (ActiveField { field: k as usize, native: spec_has_native(#[trigger] fields@[k].attrs@) }) by {
                if k < i {
                    lemma_count_active_mono(fields@, rv, k, i as int);
                }
            }
        }
        i += 1;
    }
    (active, inits)
}

/// `reads` is an outcome that the parses can give for each field
/// (`reads_agree`).
pub open spec fn fields_agree(fields: Seq<FieldModel>, reads: Seq<Seq<Seq<bool>>>) -> bool {
    &&& reads.len() == fields.len()
    &&& forall|i: int| 0 <= i < fields.len() ==> reads_agree(fields[i].attrs@, #[trigger] reads[i])
}

/// Every literal given to `default_in` on any of the fields is a simple
/// path, or empty, or starts with a digit.
pub open spec fn fields_decided(fields: Seq<FieldModel>) -> bool {
    forall|i: int| 0 <= i < fields.len() ==> literals_decided(#[trigger] fields[i].attrs@)
}

/// The parse outcome in which exactly the literals given to `default_in`
/// that are simple paths read, on every field.
pub open spec fn decided_field_flags(fields: Seq<FieldModel>) -> Seq<Seq<Seq<bool>>> {
    Seq::new(fields.len(), |i: int| decided_flags(fields[i].attrs@))
}

/// An outcome that agrees with the parses fits the fields.
proof fn lemma_agree_fits(fields: Seq<FieldModel>, reads: Seq<Seq<Seq<bool>>>)
    requires
        fields_agree(fields, reads),
    ensures
        fields_reads_fit(fields, reads),
{
    assert forall|i: int| 0 <= i < fields.len() implies reads_fit(fields[i].attrs@, #[trigger] reads[i]) by {
        assert(reads_agree(fields[i].attrs@, reads[i]));
    }
}

/// For each field, the flags that say which of its `default_in` values read
/// as a path, from the parse of each literal.
fn fields_outcomes(fields: &Vec<FieldModel>) -> (reads: Vec<Vec<Vec<bool>>>)
    ensures
        fields_agree(fields@, field_flag_views(reads@)),
        fields_reads_fit(fields@, field_flag_views(reads@)),
        fields_decided(fields@) ==> field_flag_views(reads@) == decided_field_flags(fields@),
{
    let n = fields.len();
    let mut reads: Vec<Vec<Vec<bool>>> = Vec::with_capacity(n);
    let mut i: usize = 0;
    while i < n
        invariant
            i <= n == fields@.len(),
            reads@.len() == i,
            forall|k: int|
                0 <= k < i ==> reads_agree(fields@[k].attrs@, flag_views((#[trigger] reads@[k])@)) && (
                literals_decided(fields@[k].attrs@) ==> flag_views(reads@[k]@) == decided_flags(
                    fields@[k].attrs@,
                )),
        decreases n - i,
    {
        reads.push(default_in_outcomes(&fields[i].attrs));
        i += 1;
    }
    proof {
        let rv = field_flag_views(reads@);
        assert forall|k: int| 0 <= k < fields@.len() implies reads_agree(fields@[k].attrs@, #[trigger] rv[k]) by {
            assert(rv[k] == flag_views(reads@[k]@));
        }
        lemma_agree_fits(fields@, rv);
        if fields_decided(fields@) {
            let d = decided_field_flags(fields@);
            assert forall|k: int| 0 <= k < fields@.len() implies #[trigger] rv[k] == d[k] by {
                assert(rv[k] == flag_views(reads@[k]@));
                assert(literals_decided(fields@[k].attrs@));
            }
            assert(rv =~= d);
        }
    }
    reads
}

/// Splits the fields into those read from the map and the others, and says
/// how each is initialized, with each `default_in` literal parsed as a path
/// once. A literal that is a simple path reads, and one that is empty or
/// starts with a digit does not; when every literal is one or the other, the
/// plan is the one for that outcome (`decided_field_flags`). Whatever the
/// parses give, the plan is what `plan_fields_given` gives for an outcome
/// that agrees with these.
pub fn plan_fields(fields: &Vec<FieldModel>) -> (r: (Vec<ActiveField>, Vec<FieldInit>))
    ensures
        fields_decided(fields@) ==> fields_planned(fields@, decided_field_flags(fields@), r.0@, r.1@),
        exists|reads: Seq<Seq<Seq<bool>>>|
            fields_agree(fields@, reads) && #[trigger] fields_planned(fields@, reads, r.0@, r.1@),
{
    let reads = fields_outcomes(fields);
    plan_fields_given(fields, &reads)
}

/// The plan when the type is a struct with named fields, or the error that
/// does not depend on its fields.
pub open spec fn spec_plan_head(attrs: Seq<AttrModel>, params: Seq<ParamModel>, shape: ShapeModel) -> Option<
    Result<DerivePlan, DeriveError>,
> {
    if spec_has_native(attrs) {
        Some(Ok(DerivePlan::Forward))
    } else {
        match spec_alloc_param(params) {
            None => Some(Err(DeriveError::NoAllocatorParam)),
            Some(a) => match shape {
                ShapeModel::NotStruct => Some(Err(DeriveError::NotStruct)),
                ShapeModel::UnnamedStruct => Some(Err(DeriveError::NotNamedStruct)),
                ShapeModel::NamedStruct(_) => None,
            },
        }
    }
}

/// `r` is a visitor plan with the allocator parameter `a` for these fields,
/// `reads` saying which `default_in` values read as a path.
pub open spec fn is_visitor_plan(
    r: Result<DerivePlan, DeriveError>,
    a: Option<usize>,
    fields: Seq<FieldModel>,
    reads: Seq<Seq<Seq<bool>>>,
) -> bool {
    r matches Ok(DerivePlan::Visitor { alloc_param, active, inits }) && a == Some(alloc_param)
        && fields_planned(fields, reads, active@, inits@)
}

/// What the derive emits for a type with these attributes, generic
/// parameters and shape, or why it refuses the type; `reads` says, for each
/// field of a struct with named fields, which `default_in` values read as a
/// path.
pub fn plan_derive_given(
    attrs: &Vec<AttrModel>,
    params: &Vec<ParamModel>,
    shape: &ShapeModel,
    reads: &Vec<Vec<Vec<bool>>>,
) -> (r: Result<DerivePlan, DeriveError>)
    requires
        shape matches ShapeModel::NamedStruct(fields) ==> fields_reads_fit(fields@, field_flag_views(reads@)),
    ensures
        spec_has_native(attrs@) ==> r == Ok::<DerivePlan, DeriveError>(DerivePlan::Forward),
        !spec_has_native(attrs@) && spec_alloc_param(params@) is None ==> r == Err::<DerivePlan, DeriveError>(
            DeriveError::NoAllocatorParam,
        ),
        spec_plan_head(attrs@, params@, *shape) matches Some(h) ==> r == h,
        spec_plan_head(attrs@, params@, *shape) is None ==> (shape matches ShapeModel::NamedStruct(fields)
            && is_visitor_plan(r, spec_alloc_param(params@), fields@, field_flag_views(reads@))),
{
    if has_native_attr(attrs) {
        return Ok(DerivePlan::Forward);
    }
    let alloc_param = match find_alloc_param(params) {
        Some(a) => a,
        None => return Err(DeriveError::NoAllocatorParam),
    };
    match shape {
        ShapeModel::NotStruct => Err(DeriveError::NotStruct),
        ShapeModel::UnnamedStruct => Err(DeriveError::NotNamedStruct),
        ShapeModel::NamedStruct(fields) => {
            let (active, inits) = plan_fields_given(fields, reads);
            Ok(DerivePlan::Visitor { alloc_param, active, inits })
        },
    }
}

/// What the derive emits for a type with these attributes, generic
/// parameters and shape, or why it refuses the type, with each `default_in`
/// literal parsed as a path once. Which of the outcomes comes does not depend
/// on the parses. A literal that is a simple path reads, and one that is
/// empty or starts with a digit does not; the plan for a struct's fields is
/// the one for that outcome when every literal is one or the other, and
/// whatever the parses give, it is what `plan_fields_given` gives for an
/// outcome that agrees with these.
pub fn plan_derive(attrs: &Vec<AttrModel>, params: &Vec<ParamModel>, shape: &ShapeModel) -> (r: Result<
    DerivePlan,
    DeriveError,
>)
    ensures
        spec_has_native(attrs@) ==> r == Ok::<DerivePlan, DeriveError>(DerivePlan::Forward),
        !spec_has_native(attrs@) && spec_alloc_param(params@) is None ==> r == Err::<DerivePlan, DeriveError>(
            DeriveError::NoAllocatorParam,
        ),
        spec_plan_head(attrs@, params@, *shape) matches Some(h) ==> r == h,
        spec_plan_head(attrs@, params@, *shape) is None ==> (shape matches ShapeModel::NamedStruct(fields)
            && exists|reads: Seq<Seq<Seq<bool>>>|
            fields_agree(fields@, reads) && #[trigger] is_visitor_plan(
                r,
                spec_alloc_param(params@),
                fields@,
                reads,
            )),
        spec_plan_head(attrs@, params@, *shape) is None ==> (shape matches ShapeModel::NamedStruct(fields)
            && (fields_decided(fields@) ==> is_visitor_plan(
            r,
            spec_alloc_param(params@),
            fields@,
            decided_field_flags(fields@),
        ))),
{
    let reads = match shape {
        ShapeModel::NamedStruct(fields) => fields_outcomes(fields),
        _ => Vec::new(),
    };
    plan_derive_given(attrs, params, shape, &reads)
}

/// A type with an attribute `deserialize_with_alloc(.., native, ..)` is
/// forwarded to serde, whatever its generic parameters and its shape (a
/// struct with named fields included); so two such types with the same
/// attributes get the same plan.
pub proof fn law_native_forwards_whatever_the_type(
    attrs: Seq<AttrModel>,
    params: Seq<ParamModel>,
    shape: ShapeModel,
    other_params: Seq<ParamModel>,
    other_shape: ShapeModel,
    i: int,
    j: int,
)
    requires
        0 <= i < attrs.len(),
        is_ident(attrs[i].ident, own_attr()),
        0 <= j < attrs[i].metas@.len(),
        is_ident(attrs[i].metas@[j].ident, "native"@),
    ensures
        spec_plan_head(attrs, params, shape) == Some(Ok::<DerivePlan, DeriveError>(DerivePlan::Forward)),
        spec_plan_head(attrs, params, shape) == spec_plan_head(attrs, other_params, other_shape),
{
    assert(spec_has_native(attrs));
}

/// A type without the `native` marker and with no type parameter that has a
/// bound mentioning `Allocator` is refused for that, whatever its shape.
pub proof fn law_no_allocator_param_is_refused(attrs: Seq<AttrModel>, params: Seq<ParamModel>, shape: ShapeModel)
    requires
        !spec_has_native(attrs),
        forall|k: int|
            0 <= k < params.len() ==> (#[trigger] params[k]).type_ident is None || !bounds_mention_allocator(
                params[k].bounds@,
            ),
    ensures
        spec_plan_head(attrs, params, shape) == Some(Err::<DerivePlan, DeriveError>(DeriveError::NoAllocatorParam)),
{
    assert(!(exists|k: int| 0 <= k < params.len() && is_alloc_param(#[trigger] params[k])));
}

/// The names of the fields read from the map, in order.
pub open spec fn active_names(fields: Seq<FieldModel>, active: Seq<ActiveField>) -> Seq<Seq<char>> {
    active.map_values(|a: ActiveField| fields[a.field as int].name@)
}

/// The names of all the fields.
pub open spec fn field_names(fields: Seq<FieldModel>) -> Seq<Seq<char>> {
    fields.map_values(|f: FieldModel| f.name@)
}

proof fn lemma_count_active_onto(fields: Seq<FieldModel>, reads: Seq<Seq<Seq<bool>>>, n: int, j: int)
    requires
        0 <= n,
        0 <= j < count_active(fields, reads, n),
    ensures
        exists|k: int|
            0 <= k < n && !field_skipped(fields[k].attrs@, reads[k]) && #[trigger] count_active(fields, reads, k) == j,
    decreases n,
{
    if j < count_active(fields, reads, n - 1) {
        lemma_count_active_onto(fields, reads, n - 1, j);
    } else {
        assert(!field_skipped(fields[n - 1].attrs@, reads[n - 1]) && count_active(fields, reads, n - 1) == j);
    }
}

/// Every slot of `active` holds a field read from the map, and the slot of
/// that field.
proof fn lemma_slots(fields: Seq<FieldModel>, reads: Seq<Seq<Seq<bool>>>, active: Seq<ActiveField>)
    requires
        fields.len() <= usize::MAX,
        active.len() == count_active(fields, reads, fields.len() as int),
        forall|i: int|
            0 <= i < fields.len() && !field_skipped(fields[i].attrs@, reads[i]) ==> active[count_active(fields, reads, i) as int]
                == (ActiveField { field: i as usize, native: spec_has_native(#[trigger] fields[i].attrs@) }),
    ensures
        forall|j: int|
            0 <= j < active.len() ==> {
                &&& 0 <= #[trigger] active[j].field < fields.len()
                &&& !field_skipped(fields[active[j].field as int].attrs@, reads[active[j].field as int])
                &&& count_active(fields, reads, active[j].field as int) == j
            },
{
    let n = fields.len() as int;
    assert forall|j: int| 0 <= j < active.len() implies {
        &&& 0 <= #[trigger] active[j].field < fields.len()
        &&& !field_skipped(fields[active[j].field as int].attrs@, reads[active[j].field as int])
        &&& count_active(fields, reads, active[j].field as int) == j
    } by {
        lemma_count_active_onto(fields, reads, n, j);
        let k = choose|k: int|
            0 <= k < n && !field_skipped(fields[k].attrs@, reads[k]) && #[trigger] count_active(fields, reads, k) == j;
        let nat_k = spec_has_native(fields[k].attrs@);
        assert(active[j] == ActiveField { field: k as usize, native: nat_k });
    }
}

/// In the map visitor that the derive emits, a key that names a field read
/// from the map selects that field's slot, and a key that names a field left
/// out (skipped by serde, or built with `default_in`) is an unknown field.
pub proof fn law_key_selects_own_field(
    fields: Seq<FieldModel>,
    reads: Seq<Seq<Seq<bool>>>,
    active: Seq<ActiveField>,
    inits: Seq<FieldInit>,
    i: int,
)
    requires
        fields_planned(fields, reads, active, inits),
        field_names(fields).no_duplicates(),
        fields.len() <= usize::MAX,
        0 <= i < fields.len(),
    ensures
        field_skipped(fields[i].attrs@, reads[i]) ==> find_name(active_names(fields, active), fields[i].name@) == -1,
        !field_skipped(fields[i].attrs@, reads[i]) ==> find_name(active_names(fields, active), fields[i].name@)
            == count_active(fields, reads, i),
{
    let names = active_names(fields, active);
    let n = fields.len() as int;
    lemma_find_name(names, fields[i].name@);
    lemma_slots(fields, reads, active);
    let f = find_name(names, fields[i].name@);
    if f >= 0 {
        let k = active[f].field as int;
        assert(names[f] == fields[k].name@);
        assert(k == i) by {
            if k != i {
                assert(field_names(fields)[k] == field_names(fields)[i]);
            }
        }
    } else if !field_skipped(fields[i].attrs@, reads[i]) {
        let c = count_active(fields, reads, i);
        lemma_count_active_mono(fields, reads, i, n);
        let nat_i = spec_has_native(fields[i].attrs@);
        assert(active[c as int].field == i);
        assert(names[c as int] == fields[i].name@);
    }
}

} // verus!
