use vstd::prelude::*;
use vstd::string::*;

verus! {

/// What follows the path of one nested meta item inside an attribute's
/// parentheses.
#[derive(Debug, Clone, PartialEq, Eq)]
pub enum MetaValue {
    /// Nothing: the item is a bare path, such as `native`.
    Absent,
    /// `= "..."`: the value is a string literal without a suffix; it holds
    /// the literal's value, such as `Vec::new_in` in
    /// `default_in = "Vec::new_in"`.
    Str(String),
    /// `= "..." <more>`: the value starts with a string literal without a
    /// suffix, and more tokens follow it before the next `,`; it holds the
    /// literal's value.
    StrThen(String),
    /// `= <expr>` with a value that does not start with such a literal.
    Other,
}

/// One nested meta item of an attribute, as `name` or `name = value`.
#[derive(Debug, Clone, PartialEq, Eq)]
pub struct MetaModel {
    /// The item's path when it is a single identifier.
    pub ident: Option<String>,
    pub value: MetaValue,
}

/// An attribute on a struct or a field.
#[derive(Debug, Clone, PartialEq, Eq)]
pub struct AttrModel {
    /// The attribute's path when it is a single identifier.
    pub ident: Option<String>,
    /// The nested meta items between its parentheses, in order, up to the
    /// first one that does not read.
    pub metas: Vec<MetaModel>,
    /// When the attribute is a list, such as `serde(skip)`, the identifiers
    /// among the top-level tokens inside the parentheses.
    pub list_idents: Option<Vec<String>>,
}

/// A named field of the struct that the derive is applied to.
#[derive(Debug, Clone, PartialEq, Eq)]
pub struct FieldModel {
    pub name: String,
    pub attrs: Vec<AttrModel>,
}

/// The attribute that this crate reads.
pub open spec fn own_attr() -> Seq<char> {
    seq!['d', 'e', 's', 'e', 'r', 'i', 'a', 'l', 'i', 'z', 'e', '_', 'w', 'i', 't', 'h', '_', 'a', 'l', 'l', 'o', 'c']
}

/// `o` is the identifier `name`.
pub open spec fn is_ident(o: Option<String>, name: Seq<char>) -> bool {
    o matches Some(s) && s@ == name
}

/// Some attribute of this crate lists `native`.
pub open spec fn spec_has_native(attrs: Seq<AttrModel>) -> bool {
    exists|i: int, j: int|
        0 <= i < attrs.len() && 0 <= j < attrs[i].metas@.len() && is_ident(attrs[i].ident, own_attr())
            && is_ident(#[trigger] attrs[i].metas@[j].ident, "native"@)
}

/// An ASCII letter or `_`: a character that can begin an identifier.
pub open spec fn ident_head(c: char) -> bool {
    ('a' <= c && c <= 'z') || ('A' <= c && c <= 'Z') || c == '_'
}

/// An ASCII letter, digit or `_`: a character that can continue an
/// identifier.
pub open spec fn ident_tail(c: char) -> bool {
    ident_head(c) || ('0' <= c && c <= '9')
}

/// A word that `syn` does not parse as an identifier: `_` and the keywords
/// on its list. Four of them still make a path segment (`path_keyword`).
pub open spec fn reserved_word(w: Seq<char>) -> bool {
    ||| w == seq!['_']
    ||| w == seq!['a', 'b', 's', 't', 'r', 'a', 'c', 't']
    ||| w == seq!['a', 's']
    ||| w == seq!['a', 's', 'y', 'n', 'c']
    ||| w == seq!['a', 'w', 'a', 'i', 't']
    ||| w == seq!['b', 'e', 'c', 'o', 'm', 'e']
    ||| w == seq!['b', 'o', 'x']
    ||| w == seq!['b', 'r', 'e', 'a', 'k']
    ||| w == seq!['c', 'o', 'n', 's', 't']
    ||| w == seq!['c', 'o', 'n', 't', 'i', 'n', 'u', 'e']
    ||| w == seq!['c', 'r', 'a', 't', 'e']
    ||| w == seq!['d', 'o']
    ||| w == seq!['d', 'y', 'n']
    ||| w == seq!['e', 'l', 's', 'e']
    ||| w == seq!['e', 'n', 'u', 'm']
    ||| w == seq!['e', 'x', 't', 'e', 'r', 'n']
    ||| w == seq!['f', 'a', 'l', 's', 'e']
    ||| w == seq!['f', 'i', 'n', 'a', 'l']
    ||| w == seq!['f', 'n']
    ||| w == seq!['f', 'o', 'r']
    ||| w == seq!['i', 'f']
    ||| w == seq!['i', 'm', 'p', 'l']
    ||| w == seq!['i', 'n']
    ||| w == seq!['l', 'e', 't']
    ||| w == seq!['l', 'o', 'o', 'p']
    ||| w == seq!['m', 'a', 'c', 'r', 'o']
    ||| w == seq!['m', 'a', 't', 'c', 'h']
    ||| w == seq!['m', 'o', 'd']
    ||| w == seq!['m', 'o', 'v', 'e']
    ||| w == seq!['m', 'u', 't']
    ||| w == seq!['o', 'v', 'e', 'r', 'r', 'i', 'd', 'e']
    ||| w == seq!['p', 'r', 'i', 'v']
    ||| w == seq!['p', 'u', 'b']
    ||| w == seq!['r', 'e', 'f']
    ||| w == seq!['r', 'e', 't', 'u', 'r', 'n']
    ||| w == seq!['S', 'e', 'l', 'f']
    ||| w == seq!['s', 'e', 'l', 'f']
    ||| w == seq!['s', 't', 'a', 't', 'i', 'c']
    ||| w == seq!['s', 't', 'r', 'u', 'c', 't']
    ||| w == seq!['s', 'u', 'p', 'e', 'r']
    ||| w == seq!['t', 'r', 'a', 'i', 't']
    ||| w == seq!['t', 'r', 'u', 'e']
    ||| w == seq!['t', 'r', 'y']
    ||| w == seq!['t', 'y', 'p', 'e']
    ||| w == seq!['t', 'y', 'p', 'e', 'o', 'f']
    ||| w == seq!['u', 'n', 's', 'a', 'f', 'e']
    ||| w == seq!['u', 'n', 's', 'i', 'z', 'e', 'd']
    ||| w == seq!['u', 's', 'e']
    ||| w == seq!['v', 'i', 'r', 't', 'u', 'a', 'l']
    ||| w == seq!['w', 'h', 'e', 'r', 'e']
    ||| w == seq!['w', 'h', 'i', 'l', 'e']
    ||| w == seq!['y', 'i', 'e', 'l', 'd']
}

/// A plain ASCII identifier that is not a reserved word.
pub open spec fn plain_segment(w: Seq<char>) -> bool {
    &&& w.len() > 0
    &&& ident_head(w[0])
    &&& forall|k: int| 0 <= k < w.len() ==> ident_tail(#[trigger] w[k])
    &&& !reserved_word(w)
}

/// `crate`, `self`, `super` or `Self`: keywords that `syn` takes as a path
/// segment all the same.
pub open spec fn path_keyword(w: Seq<char>) -> bool {
    ||| w == seq!['c', 'r', 'a', 't', 'e']
    ||| w == seq!['s', 'e', 'l', 'f']
    ||| w == seq!['s', 'u', 'p', 'e', 'r']
    ||| w == seq!['S', 'e', 'l', 'f']
}

/// A segment of a simple path: a plain identifier or one of the keywords
/// that make a segment.
pub open spec fn path_segment(w: Seq<char>) -> bool {
    plain_segment(w) || path_keyword(w)
}

/// The segments written one after the other with `::` between them.
pub open spec fn join_segments(segs: Seq<Seq<char>>) -> Seq<char>
    decreases segs.len(),
{
    if segs.len() == 0 {
        Seq::empty()
    } else if segs.len() == 1 {
        segs[0]
    } else {
        join_segments(segs.drop_last()) + seq![':', ':'] + segs.last()
    }
}

/// `path`, after a leading `::` when `leading` holds.
pub open spec fn rooted(leading: bool, path: Seq<char>) -> Seq<char> {
    if leading {
        seq![':', ':'] + path
    } else {
        path
    }
}

/// `text` is a path of one or more segments joined by `::`, such as
/// `Vec::new_in`, `::alloc::vec::Vec::new_in` or `crate::new_items`, with no
/// whitespace and no generic arguments; a segment is a plain identifier or
/// `crate`, `self`, `super` or `Self`.
pub open spec fn simple_path(text: Seq<char>) -> bool {
    exists|segs: Seq<Seq<char>>, leading: bool|
        segs.len() > 0 && (forall|k: int| 0 <= k < segs.len() ==> path_segment(#[trigger] segs[k]))
            && #[trigger] rooted(leading, join_segments(segs)) == text
}

proof fn lemma_two_segments(first: Seq<char>, second: Seq<char>)
    requires
        path_segment(first),
        path_segment(second),
    ensures
        simple_path(first + seq![':', ':'] + second),
{
    let segs = seq![first, second];
    assert(segs.drop_last() =~= seq![first]);
    assert(join_segments(seq![first]) == first);
    assert(rooted(false, join_segments(segs)) == first + seq![':', ':'] + second);
    assert(forall|k: int| 0 <= k < segs.len() ==> path_segment(#[trigger] segs[k]));
}

/// Paths that read: a plain identifier, and a plain identifier after
/// `crate::`, `self::`, `super::` or `Self::`, such as `crate::new_items`.
pub proof fn law_rooted_paths_are_simple(name: Seq<char>)
    requires
        plain_segment(name),
    ensures
        simple_path(name),
        simple_path(seq!['c', 'r', 'a', 't', 'e', ':', ':'] + name),
        simple_path(seq!['s', 'e', 'l', 'f', ':', ':'] + name),
        simple_path(seq!['s', 'u', 'p', 'e', 'r', ':', ':'] + name),
        simple_path(seq!['S', 'e', 'l', 'f', ':', ':'] + name),
{
    let one = seq![name];
    assert(rooted(false, join_segments(one)) == name);
    assert(forall|k: int| 0 <= k < one.len() ==> path_segment(#[trigger] one[k]));
    let c = seq!['c', 'r', 'a', 't', 'e'];
    let sf = seq!['s', 'e', 'l', 'f'];
    let su = seq!['s', 'u', 'p', 'e', 'r'];
    let st = seq!['S', 'e', 'l', 'f'];
    lemma_two_segments(c, name);
    lemma_two_segments(sf, name);
    lemma_two_segments(su, name);
    lemma_two_segments(st, name);
    assert(c + seq![':', ':'] + name =~= seq!['c', 'r', 'a', 't', 'e', ':', ':'] + name);
    assert(sf + seq![':', ':'] + name =~= seq!['s', 'e', 'l', 'f', ':', ':'] + name);
    assert(su + seq![':', ':'] + name =~= seq!['s', 'u', 'p', 'e', 'r', ':', ':'] + name);
    assert(st + seq![':', ':'] + name =~= seq!['S', 'e', 'l', 'f', ':', ':'] + name);
}

/// `text` is empty or starts with an ASCII digit: no path starts so.
pub open spec fn no_path_start(text: Seq<char>) -> bool {
    text.len() == 0 || ('0' <= text[0] && text[0] <= '9')
}

/// Whether `text` reads as a Rust path: calls `syn::parse_str::<syn::Path>`
/// and reports whether it succeeded. The lexer that `syn` goes through (the
/// compiler's inside a procedural macro, `proc-macro2`'s own otherwise, which
/// can also be switched at run time) decides some texts differently, so no
/// more is stated than what holds under both.
/// - A simple path (`simple_path`) reads. Both lexers make of it identifiers
///   separated by a joint `:` and a `:`; `syn` takes a leading `::`, then the
///   first identifier as a segment, each `::` with the identifier after it as
///   one more, and finds nothing left. A segment is parsed as an identifier
///   that is not on `syn`'s keyword list, except `crate`, `self`, `super` and
///   `Self`, which are taken whatever the list says.
/// - A text that is empty or starts with an ASCII digit (`no_path_start`)
///   does not read. `syn` asks for an optional `::` and then an identifier;
///   an empty text gives no token, and a leading digit lexes, if at all, to a
///   number literal.
/// Of any other text, whether it reads is left unsaid.
#[verifier::external_body]
fn path_reads(text: &String) -> (r: bool)
    ensures
        simple_path(text@) ==> r,
        no_path_start(text@) ==> !r,
{
    syn::parse_str::<syn::Path>(text.as_str()).is_ok()
}

/// The string literal that a value starts with, if it does.
pub open spec fn literal_of(value: MetaValue) -> Option<String> {
    match value {
        MetaValue::Str(t) => Some(t),
        MetaValue::StrThen(t) => Some(t),
        _ => None,
    }
}

/// The path that the value of a `default_in` item names, given whether the
/// value's text reads as a path: only a string literal that does names one.
pub open spec fn spec_read_default_in(value: MetaValue, path_reads: bool) -> Option<String> {
    match literal_of(value) {
        Some(t) => if path_reads {
            Some(t)
        } else {
            None
        },
        None => None,
    }
}

/// The path that the value of a `default_in` item names, `path_reads` being
/// whether its text reads as a path.
pub fn read_default_in(value: &MetaValue, path_reads: bool) -> (r: Option<String>)
    ensures
        r == spec_read_default_in(*value, path_reads),
{
    match value {
        MetaValue::Str(t) | MetaValue::StrThen(t) => if path_reads {
            Some(t.clone())
        } else {
            None
        },
        _ => None,
    }
}

/// The views of a list of flag lists.
pub open spec fn flag_views(reads: Seq<Vec<bool>>) -> Seq<Seq<bool>> {
    reads.map_values(|v: Vec<bool>| v@)
}

/// `reads` holds one flag for each nested item of each attribute: whether
/// that item's value read as a path.
pub open spec fn reads_fit(attrs: Seq<AttrModel>, reads: Seq<Seq<bool>>) -> bool {
    &&& reads.len() == attrs.len()
    &&& forall|i: int| 0 <= i < attrs.len() ==> (#[trigger] reads[i]).len() == attrs[i].metas@.len()
}

/// The `default_in` path read from the nested items `metas`, starting from
/// `acc`, `flags` saying which of their values read as a path: each
/// `default_in` item whose value is a string that reads replaces it, and any
/// other `default_in` item ends the reading of this attribute, as does one
/// whose literal is followed by more tokens, once it is read.
pub open spec fn scan_default(metas: Seq<MetaModel>, flags: Seq<bool>, acc: Option<String>) -> Option<String>
    decreases metas.len(),
{
    if metas.len() == 0 {
        acc
    } else if is_ident(metas[0].ident, "default_in"@) {
        match spec_read_default_in(metas[0].value, flags[0]) {
            Some(p) => if metas[0].value is StrThen {
                Some(p)
            } else {
                scan_default(metas.drop_first(), flags.drop_first(), Some(p))
            },
            None => acc,
        }
    } else {
        scan_default(metas.drop_first(), flags.drop_first(), acc)
    }
}

/// The `default_in` path of a field with these attributes, read in order from
/// `acc`, `reads` saying which values read as a path: the last one that reads
/// wins.
pub open spec fn spec_default_in(attrs: Seq<AttrModel>, reads: Seq<Seq<bool>>, acc: Option<String>) -> Option<String>
    decreases attrs.len(),
{
    if attrs.len() == 0 {
        acc
    } else if is_ident(attrs[0].ident, own_attr()) {
        spec_default_in(attrs.drop_first(), reads.drop_first(), scan_default(attrs[0].metas@, reads[0], acc))
    } else {
        spec_default_in(attrs.drop_first(), reads.drop_first(), acc)
    }
}

/// One of the nested items is `default_in = "p"`, with or without more
/// tokens after the literal.
pub open spec fn metas_name_default(metas: Seq<MetaModel>, p: String) -> bool {
    exists|j: int|
        0 <= j < metas.len() && is_ident(#[trigger] metas[j].ident, "default_in"@) && literal_of(
            metas[j].value,
        ) == Some(p)
}

/// One of this crate's attributes holds `default_in = "p"`.
pub open spec fn names_default(attrs: Seq<AttrModel>, p: String) -> bool {
    exists|i: int|
        0 <= i < attrs.len() && is_ident(attrs[i].ident, own_attr()) && metas_name_default(
            (#[trigger] attrs[i]).metas@,
            p,
        )
}

/// One of this crate's attributes holds `default_in` with a string literal.
pub open spec fn has_default_literal(attrs: Seq<AttrModel>) -> bool {
    exists|p: String| #[trigger] names_default(attrs, p)
}

/// The field is not read from the map: serde skips it, or it is built with
/// `default_in`.
#[verifier::opaque]
pub open spec fn field_skipped(attrs: Seq<AttrModel>, reads: Seq<Seq<bool>>) -> bool {
    spec_serde_skipped(attrs) || spec_default_in(attrs, reads, None) is Some
}

proof fn lemma_scan_no_default(metas: Seq<MetaModel>, flags: Seq<bool>, acc: Option<String>)
    requires
        forall|k: int| 0 <= k < metas.len() ==> !is_ident(#[trigger] metas[k].ident, "default_in"@),
    ensures
        scan_default(metas, flags, acc) == acc,
    decreases metas.len(),
{
    if metas.len() > 0 {
        let rest = metas.drop_first();
        assert(!is_ident(metas[0].ident, "default_in"@));
        assert forall|k: int| 0 <= k < rest.len() implies !is_ident(#[trigger] rest[k].ident, "default_in"@) by {
            assert(rest[k] == metas[k + 1]);
        }
        lemma_scan_no_default(rest, flags.drop_first(), acc);
    }
}

proof fn lemma_scan_takes(metas: Seq<MetaModel>, flags: Seq<bool>, acc: Option<String>, j: int)
    requires
        flags.len() == metas.len(),
        0 <= j < metas.len(),
        is_ident(metas[j].ident, "default_in"@),
        metas[j].value is Str,
        flags[j],
        forall|k: int|
            0 <= k < j && is_ident(#[trigger] metas[k].ident, "default_in"@) ==> metas[k].value is Str && flags[k],
        forall|k: int| j < k < metas.len() ==> !is_ident(#[trigger] metas[k].ident, "default_in"@),
    ensures
        scan_default(metas, flags, acc) == literal_of(metas[j].value),
    decreases j,
{
    let rest = metas.drop_first();
    let rf = flags.drop_first();
    if j == 0 {
        assert forall|k: int| 0 <= k < rest.len() implies !is_ident(#[trigger] rest[k].ident, "default_in"@) by {
            assert(rest[k] == metas[k + 1]);
        }
        lemma_scan_no_default(rest, rf, literal_of(metas[0].value));
    } else {
        let acc2 = if is_ident(metas[0].ident, "default_in"@) {
            literal_of(metas[0].value)
        } else {
            acc
        };
        assert(rest[j - 1] == metas[j]);
        assert(rf[j - 1] == flags[j]);
        assert forall|k: int|
            0 <= k < j - 1 && is_ident(#[trigger] rest[k].ident, "default_in"@) implies rest[k].value is Str
                && rf[k] by {
            assert(rest[k] == metas[k + 1]);
            assert(rf[k] == flags[k + 1]);
        }
        assert forall|k: int| j - 1 < k < rest.len() implies !is_ident(#[trigger] rest[k].ident, "default_in"@) by {
            assert(rest[k] == metas[k + 1]);
        }
        lemma_scan_takes(rest, rf, acc2, j - 1);
    }
}

proof fn lemma_default_in_no_more(attrs: Seq<AttrModel>, reads: Seq<Seq<bool>>, acc: Option<String>)
    requires
        reads.len() == attrs.len(),
        forall|i: int, k: int|
            0 <= i < attrs.len() && is_ident(attrs[i].ident, own_attr()) && 0 <= k < attrs[i].metas@.len()
                ==> !is_ident(#[trigger] attrs[i].metas@[k].ident, "default_in"@),
    ensures
        spec_default_in(attrs, reads, acc) == acc,
    decreases attrs.len(),
{
    if attrs.len() > 0 {
        let rest = attrs.drop_first();
        if is_ident(attrs[0].ident, own_attr()) {
            lemma_scan_no_default(attrs[0].metas@, reads[0], acc);
        }
        assert forall|i: int, k: int|
            0 <= i < rest.len() && is_ident(rest[i].ident, own_attr()) && 0 <= k < rest[i].metas@.len()
                implies !is_ident(#[trigger] rest[i].metas@[k].ident, "default_in"@) by {
            assert(rest[i] == attrs[i + 1]);
        }
        lemma_default_in_no_more(rest, reads.drop_first(), acc);
    }
}

proof fn lemma_default_in_takes(attrs: Seq<AttrModel>, reads: Seq<Seq<bool>>, acc: Option<String>, i: int, j: int)
    requires
        reads_fit(attrs, reads),
        0 <= i < attrs.len(),
        0 <= j < attrs[i].metas@.len(),
        is_ident(attrs[i].ident, own_attr()),
        is_ident(attrs[i].metas@[j].ident, "default_in"@),
        attrs[i].metas@[j].value is Str,
        reads[i][j],
        forall|k: int|
            0 <= k < j && is_ident(#[trigger] attrs[i].metas@[k].ident, "default_in"@) ==> attrs[i].metas@[k].value is Str
                && reads[i][k],
        forall|k: int|
            j < k < attrs[i].metas@.len() ==> !is_ident(#[trigger] attrs[i].metas@[k].ident, "default_in"@),
        forall|a: int, k: int|
            i < a < attrs.len() && is_ident(attrs[a].ident, own_attr()) && 0 <= k < attrs[a].metas@.len()
                ==> !is_ident(#[trigger] attrs[a].metas@[k].ident, "default_in"@),
    ensures
        spec_default_in(attrs, reads, acc) == literal_of(attrs[i].metas@[j].value),
    decreases i,
{
    let rest = attrs.drop_first();
    let rr = reads.drop_first();
    assert(reads[0].len() == attrs[0].metas@.len());
    let acc2 = if is_ident(attrs[0].ident, own_attr()) {
        scan_default(attrs[0].metas@, reads[0], acc)
    } else {
        acc
    };
    if i == 0 {
        lemma_scan_takes(attrs[0].metas@, reads[0], acc, j);
        assert forall|a: int, k: int|
            0 <= a < rest.len() && is_ident(rest[a].ident, own_attr()) && 0 <= k < rest[a].metas@.len()
                implies !is_ident(#[trigger] rest[a].metas@[k].ident, "default_in"@) by {
            assert(rest[a] == attrs[a + 1]);
        }
        lemma_default_in_no_more(rest, rr, acc2);
    } else {
        assert(reads_fit(rest, rr)) by {
            assert forall|a: int| 0 <= a < rest.len() implies (#[trigger] rr[a]).len() == rest[a].metas@.len() by {
                assert(rr[a] == reads[a + 1]);
                assert(rest[a] == attrs[a + 1]);
            }
        }
        assert(rest[i - 1] == attrs[i]);
        assert(rr[i - 1] == reads[i]);
        assert forall|a: int, k: int|
            i - 1 < a < rest.len() && is_ident(rest[a].ident, own_attr()) && 0 <= k < rest[a].metas@.len()
                implies !is_ident(#[trigger] rest[a].metas@[k].ident, "default_in"@) by {
            assert(rest[a] == attrs[a + 1]);
        }
        lemma_default_in_takes(rest, rr, acc2, i - 1, j);
    }
}

/// The last readable `default_in` wins. Take the last `default_in` item in
/// this crate's attributes of a field; when its value is a string literal
/// that is a simple path (such as `crate::new_items`), and every `default_in`
/// item before it in its attribute holds such a literal too, then for every
/// outcome that the parses can give, the field is built with that path and
/// is left out of the map, whatever the attributes before it hold.
pub proof fn law_last_readable_default_in_wins(attrs: Seq<AttrModel>, reads: Seq<Seq<bool>>, i: int, j: int)
    requires
        reads_agree(attrs, reads),
        0 <= i < attrs.len(),
        0 <= j < attrs[i].metas@.len(),
        is_ident(attrs[i].ident, own_attr()),
        is_ident(attrs[i].metas@[j].ident, "default_in"@),
        attrs[i].metas@[j].value is Str,
        simple_literal(attrs[i].metas@[j].value),
        forall|k: int|
            0 <= k < j && is_ident(#[trigger] attrs[i].metas@[k].ident, "default_in"@) ==> attrs[i].metas@[k].value is Str
                && simple_literal(attrs[i].metas@[k].value),
        forall|k: int|
            j < k < attrs[i].metas@.len() ==> !is_ident(#[trigger] attrs[i].metas@[k].ident, "default_in"@),
        forall|a: int, k: int|
            i < a < attrs.len() && is_ident(attrs[a].ident, own_attr()) && 0 <= k < attrs[a].metas@.len()
                ==> !is_ident(#[trigger] attrs[a].metas@[k].ident, "default_in"@),
    ensures
        spec_default_in(attrs, reads, None) == literal_of(attrs[i].metas@[j].value),
        spec_default_in(attrs, reads, None) is Some,
        field_skipped(attrs, reads),
{
    assert(asks_parse(attrs[i], j));
    assert(reads[i][j]);
    assert forall|k: int|
        0 <= k < j && is_ident(#[trigger] attrs[i].metas@[k].ident, "default_in"@) implies attrs[i].metas@[k].value is Str
            && reads[i][k] by {
        assert(asks_parse(attrs[i], k));
    }
    lemma_default_in_takes(attrs, reads, None, i, j);
    reveal(field_skipped);
}

/// A field is left out of the map that is read exactly when serde skips it
/// or `default_in` names a path for it, for every outcome of the path parses.
pub proof fn law_left_out_iff_skip_or_default_in(attrs: Seq<AttrModel>, reads: Seq<Seq<bool>>)
    ensures
        field_skipped(attrs, reads) == (spec_serde_skipped(attrs) || spec_default_in(attrs, reads, None) is Some),
{
    reveal(field_skipped);
}

proof fn lemma_scan_default(metas: Seq<MetaModel>, flags: Seq<bool>, acc: Option<String>)
    requires
        flags.len() == metas.len(),
    ensures
        scan_default(metas, flags, acc) == acc || (scan_default(metas, flags, acc) matches Some(p)
            && metas_name_default(metas, p)),
    decreases metas.len(),
{
    if metas.len() > 0 {
        let rest = metas.drop_first();
        let acc2 = if is_ident(metas[0].ident, "default_in"@) {
            spec_read_default_in(metas[0].value, flags[0])
        } else {
            acc
        };
        lemma_scan_default(rest, flags.drop_first(), acc2);
        let r = scan_default(metas, flags, acc);
        if is_ident(metas[0].ident, "default_in"@) && acc2 is Some {
            assert(metas_name_default(metas, acc2->0)) by {
                assert(is_ident(metas[0].ident, "default_in"@));
            }
        }
        if r != acc && r is Some && r != acc2 {
            let p = r->0;
            assert(metas_name_default(rest, p));
            let j = choose|j: int|
                0 <= j < rest.len() && is_ident(#[trigger] rest[j].ident, "default_in"@) && literal_of(
                    rest[j].value,
                ) == Some(p);
            assert(metas[j + 1] == rest[j]);
        }
    }
}

proof fn lemma_default_in(attrs: Seq<AttrModel>, reads: Seq<Seq<bool>>, acc: Option<String>)
    requires
        reads_fit(attrs, reads),
    ensures
        spec_default_in(attrs, reads, acc) == acc || (spec_default_in(attrs, reads, acc) matches Some(p)
            && names_default(attrs, p)),
    decreases attrs.len(),
{
    if attrs.len() > 0 {
        let rest = attrs.drop_first();
        let rr = reads.drop_first();
        assert(reads_fit(rest, rr)) by {
            assert forall|i: int| 0 <= i < rest.len() implies (#[trigger] rr[i]).len() == rest[i].metas@.len() by {
                assert(rr[i] == reads[i + 1]);
                assert(rest[i] == attrs[i + 1]);
            }
        }
        assert(reads[0].len() == attrs[0].metas@.len());
        let acc2 = if is_ident(attrs[0].ident, own_attr()) {
            scan_default(attrs[0].metas@, reads[0], acc)
        } else {
            acc
        };
        if is_ident(attrs[0].ident, own_attr()) {
            lemma_scan_default(attrs[0].metas@, reads[0], acc);
            if acc2 != acc && acc2 is Some {
                assert(names_default(attrs, acc2->0)) by {
                    assert(is_ident(attrs[0].ident, own_attr()) && metas_name_default(attrs[0].metas@, acc2->0));
                }
            }
        }
        lemma_default_in(rest, rr, acc2);
        let r = spec_default_in(attrs, reads, acc);
        if r != acc && r is Some && r != acc2 {
            let p = r->0;
            assert(names_default(rest, p));
            let i = choose|i: int|
                0 <= i < rest.len() && is_ident(rest[i].ident, own_attr()) && metas_name_default(
                    (#[trigger] rest[i]).metas@,
                    p,
                );
            assert(attrs[i + 1] == rest[i]);
        }
    }
}

/// Whatever the path parses give, the `default_in` path read from the
/// attributes is one of the string literals given to this crate's
/// `default_in` items, and there is none when no such item holds a literal.
pub proof fn lemma_default_in_names_a_literal(attrs: Seq<AttrModel>, reads: Seq<Seq<bool>>)
    requires
        reads_fit(attrs, reads),
    ensures
        spec_default_in(attrs, reads, None) matches Some(p) ==> names_default(attrs, p),
        !has_default_literal(attrs) ==> spec_default_in(attrs, reads, None) is None,
{
    lemma_default_in(attrs, reads, None);
    if spec_default_in(attrs, reads, None) is Some {
        let p = spec_default_in(attrs, reads, None)->0;
        assert(names_default(attrs, p));
    }
}

/// `skip` or `skip_deserializing`.
pub open spec fn is_skip_word(w: Seq<char>) -> bool {
    w == "skip"@ || w == "skip_deserializing"@
}

/// One of the identifiers is a skip word.
pub open spec fn idents_skip(ids: Seq<String>) -> bool {
    exists|j: int| 0 <= j < ids.len() && is_skip_word(#[trigger] ids[j]@)
}

/// The identifiers of a list attribute include `skip` or `skip_deserializing`.
pub open spec fn lists_skip(list_idents: Option<Vec<String>>) -> bool {
    match list_idents {
        Some(ids) => idents_skip(ids@),
        None => false,
    }
}

/// Some `serde(...)` attribute lists `skip` or `skip_deserializing`.
pub open spec fn spec_serde_skipped(attrs: Seq<AttrModel>) -> bool {
    exists|i: int|
        0 <= i < attrs.len() && is_ident(#[trigger] attrs[i].ident, "serde"@) && lists_skip(
            attrs[i].list_idents,
        )
}

/// Whether `s` is the string `name`.
fn same_str(s: &String, name: &str) -> (r: bool)
    ensures
        r == (s@ == name@),
{
    let n = name.to_owned();
    *s == n
}

/// Whether `o` is the identifier `name`.
fn ident_is(o: &Option<String>, name: &str) -> (r: bool)
    ensures
        r == is_ident(*o, name@),
{
    match o {
        Some(s) => same_str(s, name),
        None => false,
    }
}

/// Whether the attributes carry this crate's `native` marker.
pub fn has_native_attr(attrs: &Vec<AttrModel>) -> (r: bool)
    ensures
        r == spec_has_native(attrs@),
{
    proof {
        reveal_strlit("deserialize_with_alloc");
    }
    let n = attrs.len();
    let mut i: usize = 0;
    while i < n
        invariant
            i <= n == attrs@.len(),
            own_attr() == "deserialize_with_alloc"@,
            forall|a: int, b: int|
                0 <= a < i && 0 <= b < attrs@[a].metas@.len() && is_ident(attrs@[a].ident, own_attr())
                    ==> !is_ident(attrs@[a].metas@[b].ident, "native"@),
        decreases n - i,
    {
        if ident_is(&attrs[i].ident, "deserialize_with_alloc") {
            let metas = &attrs[i].metas;
            let m = metas.len();
            let mut j: usize = 0;
            while j < m
                invariant
                    i < n == attrs@.len(),
                    j <= m == attrs@[i as int].metas@.len(),
                    *metas == attrs@[i as int].metas,
                    is_ident(attrs@[i as int].ident, own_attr()),
                    forall|b: int| 0 <= b < j ==> !is_ident(attrs@[i as int].metas@[b].ident, "native"@),
                decreases m - j,
            {
                if ident_is(&metas[j].ident, "native") {
                    assert(is_ident(attrs@[i as int].ident, own_attr()));
                    assert(is_ident(attrs@[i as int].metas@[j as int].ident, "native"@));
                    return true;
                }
                j += 1;
            }
        }
        i += 1;
    }
    false
}

/// Reads the `default_in` items of one attribute, starting from `acc`.
fn scan_metas_default(metas: &Vec<MetaModel>, flags: &Vec<bool>, acc: Option<String>) -> (r: Option<String>)
    requires
        flags@.len() == metas@.len(),
    ensures
        r == scan_default(metas@, flags@, acc),
{
    let n = metas.len();
    let mut i: usize = 0;
    let mut cur = acc;
    proof {
        assert(metas@.skip(0) =~= metas@);
        assert(flags@.skip(0) =~= flags@);
    }
    while i < n
        invariant
            i <= n == metas@.len() == flags@.len(),
            scan_default(metas@.skip(i as int), flags@.skip(i as int), cur) == scan_default(metas@, flags@, acc),
        decreases n - i,
    {
        proof {
            assert(metas@.skip(i as int).drop_first() =~= metas@.skip(i + 1));
            assert(flags@.skip(i as int).drop_first() =~= flags@.skip(i + 1));
            assert(metas@.skip(i as int)[0] == metas@[i as int]);
            assert(flags@.skip(i as int)[0] == flags@[i as int]);
        }
        if ident_is(&metas[i].ident, "default_in") {
            match read_default_in(&metas[i].value, flags[i]) {
                Some(p) => {
                    if let MetaValue::StrThen(_) = &metas[i].value {
                        return Some(p);
                    }
                    cur = Some(p);
                },
                None => {
                    return cur;
                },
            }
        }
        i += 1;
    }
    proof {
        assert(metas@.skip(n as int).len() == 0);
    }
    cur
}

/// The `default_in` path read from all of the attributes.
fn attrs_default_in(attrs: &Vec<AttrModel>, reads: &Vec<Vec<bool>>) -> (r: Option<String>)
    requires
        reads_fit(attrs@, flag_views(reads@)),
    ensures
        r == spec_default_in(attrs@, flag_views(reads@), None),
{
    proof {
        reveal_strlit("deserialize_with_alloc");
    }
    let ghost rv = flag_views(reads@);
    let n = attrs.len();
    let mut i: usize = 0;
    let mut cur: Option<String> = None;
    proof {
        assert(attrs@.skip(0) =~= attrs@);
        assert(rv.skip(0) =~= rv);
    }
    while i < n
        invariant
            i <= n == attrs@.len() == rv.len(),
            rv == flag_views(reads@),
            reads_fit(attrs@, rv),
            own_attr() == "deserialize_with_alloc"@,
            spec_default_in(attrs@.skip(i as int), rv.skip(i as int), cur) == spec_default_in(attrs@, rv, None),
        decreases n - i,
    {
        proof {
            assert(attrs@.skip(i as int).drop_first() =~= attrs@.skip(i + 1));
            assert(rv.skip(i as int).drop_first() =~= rv.skip(i + 1));
            assert(attrs@.skip(i as int)[0] == attrs@[i as int]);
            assert(rv.skip(i as int)[0] == rv[i as int]);
            assert(rv[i as int] == reads@[i as int]@);
            assert(rv[i as int].len() == attrs@[i as int].metas@.len());
        }
        if ident_is(&attrs[i].ident, "deserialize_with_alloc") {
            cur = scan_metas_default(&attrs[i].metas, &reads[i], cur);
        }
        i += 1;
    }
    proof {
        assert(attrs@.skip(n as int).len() == 0);
    }
    cur
}

/// The parse is asked of the value of the nested item `j` of this attribute:
/// the attribute is this crate's, the item is `default_in`, and its value
/// starts with a string literal.
pub open spec fn asks_parse(attr: AttrModel, j: int) -> bool {
    &&& is_ident(attr.ident, own_attr())
    &&& is_ident(attr.metas@[j].ident, "default_in"@)
    &&& literal_of(attr.metas@[j].value) is Some
}

/// The value starts with a string literal whose text is a simple path.
pub open spec fn simple_literal(v: MetaValue) -> bool {
    literal_of(v) matches Some(t) && simple_path(t@)
}

/// The value starts with a string literal whose text is empty or starts with
/// an ASCII digit.
pub open spec fn dead_literal(v: MetaValue) -> bool {
    literal_of(v) matches Some(t) && no_path_start(t@)
}

/// `reads` is an outcome that the parses can give: it fits the attributes,
/// only a literal given to this crate's `default_in` can read, one that is a
/// simple path does, and one that is empty or starts with a digit does not.
pub open spec fn reads_agree(attrs: Seq<AttrModel>, reads: Seq<Seq<bool>>) -> bool {
    &&& reads_fit(attrs, reads)
    &&& forall|i: int, j: int|
        0 <= i < attrs.len() && 0 <= j < attrs[i].metas@.len() ==> {
            &&& #[trigger] reads[i][j] ==> asks_parse(attrs[i], j)
            &&& asks_parse(attrs[i], j) && simple_literal(attrs[i].metas@[j].value) ==> reads[i][j]
            &&& dead_literal(attrs[i].metas@[j].value) ==> !reads[i][j]
        }
}

/// Every literal given to this crate's `default_in` is a simple path, or
/// empty, or starts with a digit: the parses then have one outcome.
pub open spec fn literals_decided(attrs: Seq<AttrModel>) -> bool {
    forall|i: int, j: int|
        0 <= i < attrs.len() && 0 <= j < attrs[i].metas@.len() && #[trigger] asks_parse(attrs[i], j)
            ==> simple_literal(attrs[i].metas@[j].value) || dead_literal(attrs[i].metas@[j].value)
}

/// The parse outcome in which every literal given to this crate's
/// `default_in` reads but those that are empty or start with a digit.
pub open spec fn decided_flags(attrs: Seq<AttrModel>) -> Seq<Seq<bool>> {
    Seq::new(
        attrs.len(),
        |i: int|
            Seq::new(
                attrs[i].metas@.len(),
                |j: int| asks_parse(attrs[i], j) && !dead_literal(attrs[i].metas@[j].value),
            ),
    )
}

proof fn lemma_join_first(segs: Seq<Seq<char>>)
    requires
        segs.len() > 0,
        segs[0].len() > 0,
    ensures
        join_segments(segs).len() > 0,
        join_segments(segs)[0] == segs[0][0],
    decreases segs.len(),
{
    if segs.len() > 1 {
        let p = segs.drop_last();
        assert(p[0] == segs[0]);
        lemma_join_first(p);
    }
}

/// A simple path is not empty and does not start with a digit.
pub proof fn lemma_simple_path_starts_well(text: Seq<char>)
    requires
        simple_path(text),
    ensures
        !no_path_start(text),
{
    let (segs, leading) = choose|segs: Seq<Seq<char>>, leading: bool|
        segs.len() > 0 && (forall|k: int| 0 <= k < segs.len() ==> path_segment(#[trigger] segs[k]))
            && #[trigger] rooted(leading, join_segments(segs)) == text;
    assert(path_segment(segs[0]));
    lemma_join_first(segs);
    if leading {
        assert(text[0] == ':');
    } else {
        assert(text[0] == segs[0][0]);
    }
}

/// When every literal given to `default_in` is decided, the parses have only
/// the one outcome `decided_flags`.
pub proof fn lemma_decided_outcome(attrs: Seq<AttrModel>, reads: Seq<Seq<bool>>)
    requires
        reads_agree(attrs, reads),
        literals_decided(attrs),
    ensures
        reads == decided_flags(attrs),
{
    let d = decided_flags(attrs);
    assert forall|i: int| 0 <= i < attrs.len() implies #[trigger] reads[i] == d[i] by {
        assert forall|j: int| 0 <= j < reads[i].len() implies reads[i][j] == d[i][j] by {
            if asks_parse(attrs[i], j) {
                let v = attrs[i].metas@[j].value;
                assert(simple_literal(v) || dead_literal(v));
                if simple_literal(v) {
                    lemma_simple_path_starts_well(literal_of(v)->0@);
                }
            }
        }
        assert(reads[i] =~= d[i]);
    }
    assert(reads =~= d);
}

/// For each nested item of each attribute, whether its value reads as a
/// path: the parse is asked of each string literal given to this crate's
/// `default_in`; a literal that is a simple path reads, one that is empty or
/// starts with a digit does not, and every other flag is false.
pub fn default_in_outcomes(attrs: &Vec<AttrModel>) -> (reads: Vec<Vec<bool>>)
    ensures
        reads_agree(attrs@, flag_views(reads@)),
        literals_decided(attrs@) ==> flag_views(reads@) == decided_flags(attrs@),
{
    proof {
        reveal_strlit("deserialize_with_alloc");
    }
    let n = attrs.len();
    let mut reads: Vec<Vec<bool>> = Vec::with_capacity(n);
    let mut i: usize = 0;
    while i < n
        invariant
            i <= n == attrs@.len(),
            reads@.len() == i,
            own_attr() == "deserialize_with_alloc"@,
            forall|k: int| 0 <= k < i ==> (#[trigger] reads@[k])@.len() == attrs@[k].metas@.len(),
            forall|k: int, j: int|
                0 <= k < i && 0 <= j < attrs@[k].metas@.len() ==> {
                    &&& #[trigger] reads@[k]@[j] ==> asks_parse(attrs@[k], j)
                    &&& asks_parse(attrs@[k], j) && simple_literal(attrs@[k].metas@[j].value) ==> reads@[k]@[j]
                    &&& dead_literal(attrs@[k].metas@[j].value) ==> !reads@[k]@[j]
                },
        decreases n - i,
    {
        let own = ident_is(&attrs[i].ident, "deserialize_with_alloc");
        let metas = &attrs[i].metas;
        let m = metas.len();
        let mut flags: Vec<bool> = Vec::with_capacity(m);
        let mut j: usize = 0;
        while j < m
            invariant
                i < n == attrs@.len(),
                j <= m == metas@.len(),
                *metas == attrs@[i as int].metas,
                own == is_ident(attrs@[i as int].ident, own_attr()),
                flags@.len() == j,
                forall|b: int|
                    0 <= b < j ==> {
                        &&& #[trigger] flags@[b] ==> asks_parse(attrs@[i as int], b)
                        &&& asks_parse(attrs@[i as int], b) && simple_literal(attrs@[i as int].metas@[b].value)
                            ==> flags@[b]
                        &&& dead_literal(attrs@[i as int].metas@[b].value) ==> !flags@[b]
                    },
            decreases m - j,
        {
            let reads_path = if own && ident_is(&metas[j].ident, "default_in") {
                match &metas[j].value {
                    MetaValue::Str(t) | MetaValue::StrThen(t) => path_reads(t),
                    _ => false,
                }
            } else {
                false
            };
            flags.push(reads_path);
            j += 1;
        }
        reads.push(flags);
        i += 1;
    }
    proof {
        let rv = flag_views(reads@);
        assert forall|k: int| 0 <= k < attrs@.len() implies (#[trigger] rv[k]).len() == attrs@[k].metas@.len() by {
            assert(rv[k] == reads@[k]@);
        }
        assert forall|k: int, j: int| 0 <= k < attrs@.len() && 0 <= j < attrs@[k].metas@.len() implies {
            &&& #[trigger] rv[k][j] ==> asks_parse(attrs@[k], j)
            &&& asks_parse(attrs@[k], j) && simple_literal(attrs@[k].metas@[j].value) ==> rv[k][j]
            &&& dead_literal(attrs@[k].metas@[j].value) ==> !rv[k][j]
        } by {
            assert(rv[k] == reads@[k]@);
        }
        if literals_decided(attrs@) {
            lemma_decided_outcome(attrs@, rv);
        }
    }
    reads
}

/// Whether some `serde(...)` attribute lists `skip` or `skip_deserializing`.
fn attrs_serde_skipped(attrs: &Vec<AttrModel>) -> (r: bool)
    ensures
        r == spec_serde_skipped(attrs@),
{
    let n = attrs.len();
    let mut i: usize = 0;
    while i < n
        invariant
            i <= n == attrs@.len(),
            forall|a: int| 0 <= a < i ==> !(is_ident(#[trigger] attrs@[a].ident, "serde"@) && lists_skip(attrs@[a].list_idents)),
        decreases n - i,
    {
        if ident_is(&attrs[i].ident, "serde") {
            if let Some(ids) = &attrs[i].list_idents {
                let m = ids.len();
                let mut j: usize = 0;
                while j < m
                    invariant
                        j <= m == ids@.len(),
                        i < n == attrs@.len(),
                        attrs@[i as int].list_idents == Some(*ids),
                        is_ident(attrs@[i as int].ident, "serde"@),
                        forall|b: int| 0 <= b < j ==> !is_skip_word(#[trigger] ids@[b]@),
                    decreases m - j,
                {
                    if same_str(&ids[j], "skip") || same_str(&ids[j], "skip_deserializing") {
                        assert(is_skip_word(ids@[j as int]@));
                        assert(lists_skip(attrs@[i as int].list_idents));
                        return true;
                    }
                    j += 1;
                }
                assert(!lists_skip(attrs@[i as int].list_idents));
            }
        }
        i += 1;
    }
    false
}

/// The path named by `default_in = "path"` in this crate's attributes of the
/// field, `reads` saying which items' values read as a path: the field is
/// then built by calling that path with the allocator handle. The last such
/// item that reads wins, and an item that does not read ends its attribute.
pub fn field_default_in_given(field: &FieldModel, reads: &Vec<Vec<bool>>) -> (r: Option<String>)
    requires
        reads_fit(field.attrs@, flag_views(reads@)),
    ensures
        r == spec_default_in(field.attrs@, flag_views(reads@), None),
{
    attrs_default_in(&field.attrs, reads)
}

/// The path named by `default_in = "path"` in this crate's attributes of the
/// field, with each literal's text parsed as a path. A literal that is a
/// simple path reads; one that is empty or starts with a digit does not, so
/// it sets nothing and ends the reading of its attribute. When every literal
/// is one or the other, the result is the one for that outcome
/// (`decided_flags`). Whatever the parses give, the result is what
/// `field_default_in_given` gives for an outcome that agrees with these: one
/// of the literals given to `default_in`, or none, and none when no
/// `default_in` item holds a literal.
pub fn field_default_in(field: &FieldModel) -> (r: Option<String>)
    ensures
        literals_decided(field.attrs@) ==> r == spec_default_in(field.attrs@, decided_flags(field.attrs@), None),
        exists|reads: Seq<Seq<bool>>|
            reads_agree(field.attrs@, reads) && r == #[trigger] spec_default_in(field.attrs@, reads, None),
        r matches Some(p) ==> names_default(field.attrs@, p),
        !has_default_literal(field.attrs@) ==> r is None,
{
    let reads = default_in_outcomes(&field.attrs);
    let r = field_default_in_given(field, &reads);
    proof {
        lemma_default_in_names_a_literal(field.attrs@, flag_views(reads@));
    }
    r
}

/// Whether serde is told to skip the field when deserializing.
pub fn is_serde_skipped(field: &FieldModel) -> (r: bool)
    ensures
        r == spec_serde_skipped(field.attrs@),
{
    attrs_serde_skipped(&field.attrs)
}

/// Whether the field is read as `Native<_>`.
pub fn is_native(field: &FieldModel) -> (r: bool)
    ensures
        r == spec_has_native(field.attrs@),
{
    has_native_attr(&field.attrs)
}

/// Whether the field is left out of the map that is read, `reads` saying
/// which `default_in` values read as a path: serde skips it, or it is built
/// with `default_in`.
pub fn is_skipped_given(field: &FieldModel, reads: &Vec<Vec<bool>>) -> (r: bool)
    requires
        reads_fit(field.attrs@, flag_views(reads@)),
    ensures
        r == field_skipped(field.attrs@, flag_views(reads@)),
{
    proof {
        reveal(field_skipped);
    }
    is_serde_skipped(field) || field_default_in_given(field, reads).is_some()
}

/// Whether the field is left out of the map that is read, with each
/// `default_in` literal parsed as a path. A literal that is a simple path
/// reads, and one that is empty or starts with a digit does not; when every
/// literal is one or the other, the result is the one for that outcome
/// (`decided_flags`). Whatever the parses give, the result is what
/// `is_skipped_given` gives for an outcome that agrees with these: a field
/// that serde skips is always left out, and one that serde does not skip and
/// that has no `default_in` literal is always read.
pub fn is_skipped(field: &FieldModel) -> (r: bool)
    ensures
        literals_decided(field.attrs@) ==> r == field_skipped(field.attrs@, decided_flags(field.attrs@)),
        exists|reads: Seq<Seq<bool>>|
            reads_agree(field.attrs@, reads) && r == #[trigger] field_skipped(field.attrs@, reads),
        spec_serde_skipped(field.attrs@) ==> r,
        !spec_serde_skipped(field.attrs@) && !has_default_literal(field.attrs@) ==> !r,
{
    let reads = default_in_outcomes(&field.attrs);
    let r = is_skipped_given(field, &reads);
    proof {
        reveal(field_skipped);
        lemma_default_in_names_a_literal(field.attrs@, flag_views(reads@));
    }
    r
}

} // verus!
