use vstd::prelude::*;

verus! {

/// What the map visitor of a derived struct does with a key it has read.
#[derive(Debug, Clone, Copy, PartialEq, Eq)]
pub enum KeyAction {
    /// The key names the field at this index (among the deserialized
    /// fields): its value is to be read next.
    Read(usize),
    /// The key names the field at this index, whose value was read before:
    /// the visitor fails with a duplicate-field error.
    Duplicate(usize),
    /// The key names no deserialized field: the visitor fails with an
    /// unknown-field error.
    Unknown,
}

/// Index of the first name equal to `key`, or -1 if there is none.
pub open spec fn find_name(names: Seq<Seq<char>>, key: Seq<char>) -> int
    decreases names.len(),
{
    if names.len() == 0 {
        -1
    } else if names.last() == key && find_name(names.drop_last(), key) == -1 {
        names.len() - 1
    } else {
        find_name(names.drop_last(), key)
    }
}

/// The views of a list of strings.
pub open spec fn views(v: Seq<String>) -> Seq<Seq<char>> {
    v.map_values(|s: String| s@)
}

/// The action for `key` given the names of the deserialized fields and which
/// of them were read already.
pub open spec fn key_action(names: Seq<Seq<char>>, seen: Seq<bool>, key: Seq<char>) -> KeyAction {
    let i = find_name(names, key);
    if i < 0 {
        KeyAction::Unknown
    } else if seen[i] {
        KeyAction::Duplicate(i as usize)
    } else {
        KeyAction::Read(i as usize)
    }
}

/// The record of which fields of a struct a map visitor has read.
pub struct FieldTracker {
    names: Vec<String>,
    seen: Vec<bool>,
}

impl FieldTracker {
    /// The names of the deserialized fields, in declaration order.
    pub closed spec fn names(&self) -> Seq<Seq<char>> {
        views(self.names@)
    }

    /// For each deserialized field, whether its value was read.
    pub closed spec fn seen(&self) -> Seq<bool> {
        self.seen@
    }

    /// There is one flag per name.
    pub closed spec fn wf(&self) -> bool {
        self.names@.len() == self.seen@.len()
    }

    /// A tracker for a struct whose deserialized fields have these names;
    /// no field has been read.
    pub fn new(names: Vec<String>) -> (t: Self)
        ensures
            t.wf(),
            t.names() == views(names@),
            t.seen() == Seq::new(names@.len(), |i: int| false),
    {
        let n = names.len();
        let mut seen: Vec<bool> = Vec::with_capacity(n);
        let mut i: usize = 0;
        while i < n
            invariant
                i <= n,
                seen@ == Seq::new(i as nat, |j: int| false),
            decreases n - i,
        {
            seen.push(false);
            i += 1;
        }
        FieldTracker { names, seen }
    }

    /// Decides what to do with a key read from the map, and marks the field
    /// as read when its value is to be read next.
    pub fn on_key(&mut self, key: &String) -> (a: KeyAction)
        requires
            old(self).wf(),
        ensures
            final(self).wf(),
            final(self).names() == old(self).names(),
            a == key_action(old(self).names(), old(self).seen(), key@),
            final(self).seen() == (match a {
                KeyAction::Read(i) => old(self).seen().update(i as int, true),
                _ => old(self).seen(),
            }),
    {
        match self.lookup(key) {
            None => KeyAction::Unknown,
            Some(i) => {
                if self.seen[i] {
                    KeyAction::Duplicate(i)
                } else {
                    self.seen.set(i, true);
                    KeyAction::Read(i)
                }
            },
        }
    }

    /// The first deserialized field, in declaration order, whose value was
    /// never read; `None` when every one was.
    pub fn first_missing(&self) -> (r: Option<usize>)
        requires
            self.wf(),
        ensures
            r == first_unseen(self.seen()),
    {
        let n = self.seen.len();
        let mut i: usize = 0;
        while i < n
            invariant
                i <= n == self.seen@.len(),
                forall|j: int| 0 <= j < i ==> self.seen@[j],
            decreases n - i,
        {
            if !self.seen[i] {
                proof {
                    lemma_first_unseen(self.seen@, i as int);
                }
                return Some(i);
            }
            i += 1;
        }
        proof {
            lemma_first_unseen(self.seen@, n as int);
        }
        None
    }

    /// Index of the deserialized field named `key`.
    fn lookup(&self, key: &String) -> (r: Option<usize>)
        requires
            self.wf(),
        ensures
            match r {
                Some(i) => find_name(self.names(), key@) == i && i < self.names().len(),
                None => find_name(self.names(), key@) == -1,
            },
    {
        let n = self.names.len();
        let mut i: usize = 0;
        while i < n
            invariant
                i <= n == self.names@.len(),
                find_name(self.names().take(i as int), key@) == -1,
            decreases n - i,
        {
            proof {
                assert(self.names().take(i + 1).drop_last() =~= self.names().take(i as int));
            }
            if self.names[i] == *key {
                proof {
                    assert(self.names().take(i + 1).last() == key@);
                    lemma_find_prefix(self.names(), key@, i + 1);
                }
                return Some(i);
            }
            i += 1;
        }
        proof {
            assert(self.names().take(n as int) =~= self.names());
        }
        None
    }
}

/// The first index whose flag is false, if any.
pub open spec fn first_unseen(seen: Seq<bool>) -> Option<usize>
    decreases seen.len(),
{
    if seen.len() == 0 {
        None
    } else {
        match first_unseen(seen.drop_last()) {
            Some(i) => Some(i),
            None => if seen.last() {
                None
            } else {
                Some((seen.len() - 1) as usize)
            },
        }
    }
}

/// `first_unseen` gives the index `k` when every flag before it is set and
/// the flag at `k` is not, and nothing when every flag is set.
pub proof fn lemma_first_unseen(seen: Seq<bool>, k: int)
    requires
        0 <= k <= seen.len(),
        seen.len() <= usize::MAX,
        forall|j: int| 0 <= j < k ==> seen[j],
        k < seen.len() ==> !seen[k],
    ensures
        first_unseen(seen) == (if k < seen.len() { Some(k as usize) } else { None::<usize> }),
    decreases seen.len(),
{
    if seen.len() > 0 {
        let p = seen.drop_last();
        let n = seen.len() - 1;
        if k < n {
            lemma_first_unseen(p, k);
        } else {
            lemma_first_unseen(p, n);
        }
    }
}

/// When `first_unseen` gives nothing, every flag is set.
proof fn lemma_first_unseen_none(seen: Seq<bool>)
    ensures
        first_unseen(seen) is None ==> forall|j: int| 0 <= j < seen.len() ==> seen[j],
    decreases seen.len(),
{
    if seen.len() > 0 {
        let p = seen.drop_last();
        lemma_first_unseen_none(p);
        if first_unseen(seen) is None {
            assert forall|j: int| 0 <= j < seen.len() implies seen[j] by {
                if j < seen.len() - 1 {
                    assert(p[j] == seen[j]);
                }
            }
        }
    }
}

/// Finding in a prefix that already holds the key gives the same index.
proof fn lemma_find_prefix(names: Seq<Seq<char>>, key: Seq<char>, k: int)
    requires
        0 < k <= names.len(),
        find_name(names.take(k), key) >= 0,
    ensures
        find_name(names, key) == find_name(names.take(k), key),
    decreases names.len() - k,
{
    if k < names.len() {
        assert(names.take(k + 1).take(k) =~= names.take(k));
        assert(names.take(k + 1).drop_last() =~= names.take(k));
        lemma_find_prefix(names, key, k + 1);
    } else {
        assert(names.take(k) =~= names);
    }
}

} // verus!

verus! {

/// How a derived struct's map visitor ends, given the keys the map yields.
#[derive(Debug, Clone, Copy, PartialEq, Eq)]
pub enum StructOutcome {
    /// Every deserialized field was read exactly once.
    Complete,
    /// A key named a field whose value was already read.
    DuplicateField(usize),
    /// A key named no deserialized field.
    UnknownField,
    /// The map ended before this field (the first such, in declaration
    /// order) was read.
    MissingField(usize),
}

/// The keys processed in order from the flags `seen`: the flags at the end of
/// the map, or the action that stopped the visitor.
pub open spec fn visit_keys(names: Seq<Seq<char>>, seen: Seq<bool>, keys: Seq<Seq<char>>) -> Result<
    Seq<bool>,
    KeyAction,
>
    decreases keys.len(),
{
    if keys.len() == 0 {
        Ok(seen)
    } else {
        match key_action(names, seen, keys[0]) {
            KeyAction::Read(i) => visit_keys(names, seen.update(i as int, true), keys.drop_first()),
            a => Err(a),
        }
    }
}

/// No field read yet.
pub open spec fn none_seen(n: nat) -> Seq<bool> {
    Seq::new(n, |i: int| false)
}

/// The outcome of the map visitor of a struct whose deserialized fields are
/// named `names`, when the map yields `keys` and then ends.
pub open spec fn struct_outcome(names: Seq<Seq<char>>, keys: Seq<Seq<char>>) -> StructOutcome {
    match visit_keys(names, none_seen(names.len()), keys) {
        Err(KeyAction::Duplicate(i)) => StructOutcome::DuplicateField(i),
        Err(_) => StructOutcome::UnknownField,
        Ok(seen) => match first_unseen(seen) {
            Some(i) => StructOutcome::MissingField(i),
            None => StructOutcome::Complete,
        },
    }
}

/// `find_name` gives the first index of the key, or -1 when it is absent.
pub proof fn lemma_find_name(names: Seq<Seq<char>>, key: Seq<char>)
    ensures
        -1 <= find_name(names, key) < names.len(),
        find_name(names, key) >= 0 ==> names[find_name(names, key)] == key,
        forall|j: int| 0 <= j < find_name(names, key) ==> names[j] != key,
        find_name(names, key) == -1 <==> !names.contains(key),
    decreases names.len(),
{
    if names.len() > 0 {
        let p = names.drop_last();
        lemma_find_name(p, key);
        if find_name(p, key) == -1 {
            if names.last() != key {
                assert forall|j: int| 0 <= j < names.len() implies names[j] != key by {
                    if j < names.len() - 1 {
                        assert(names[j] == p[j]);
                        assert(!p.contains(key));
                    }
                }
            } else {
                assert forall|j: int| 0 <= j < names.len() - 1 implies names[j] != key by {
                    assert(names[j] == p[j]);
                }
                assert(names[names.len() - 1] == key);
            }
        } else {
            let f = find_name(p, key);
            assert(names[f] == p[f]);
            assert forall|j: int| 0 <= j < f implies names[j] != key by {
                assert(names[j] == p[j]);
            }
            assert(p.contains(key));
            assert(names.contains(key)) by {
                assert(names[f] == key);
            }
        }
    }
}

/// Processing `keys` from `seen` succeeds exactly when every key names a
/// field, no key repeats, and no key names a field already read; the flags
/// at the end mark the fields read before or named by a key.
proof fn lemma_visit_keys(names: Seq<Seq<char>>, seen: Seq<bool>, keys: Seq<Seq<char>>)
    requires
        names.no_duplicates(),
        seen.len() == names.len(),
        names.len() <= usize::MAX,
    ensures
        visit_keys(names, seen, keys) is Ok <==> {
            &&& keys.no_duplicates()
            &&& forall|k: Seq<char>| keys.contains(k) ==> names.contains(k)
            &&& forall|i: int| 0 <= i < names.len() && seen[i] ==> !keys.contains(names[i])
        },
        visit_keys(names, seen, keys) matches Ok(s) ==> {
            &&& s.len() == names.len()
            &&& forall|i: int| 0 <= i < names.len() ==> (s[i] <==> seen[i] || keys.contains(names[i]))
        },
    decreases keys.len(),
{
    if keys.len() > 0 {
        let k = keys[0];
        let rest = keys.drop_first();
        lemma_find_name(names, k);
        let f = find_name(names, k);
        assert(keys.contains(k));
        assert forall|x: Seq<char>| keys.contains(x) <==> (x == k || rest.contains(x)) by {
            if keys.contains(x) {
                let j = choose|j: int| 0 <= j < keys.len() && keys[j] == x;
                if j > 0 {
                    assert(rest[j - 1] == x);
                }
            }
            if rest.contains(x) {
                let j = choose|j: int| 0 <= j < rest.len() && rest[j] == x;
                assert(keys[j + 1] == x);
            }
        }
        if f >= 0 {
            assert forall|j: int| 0 <= j < names.len() && names[j] == k implies j == f by {
                if j != f {
                    assert(names[j] == names[f]);
                }
            }
            if !seen[f] {
                let seen2 = seen.update(f, true);
                lemma_visit_keys(names, seen2, rest);
                // distinctness of the whole from distinctness of the rest
                if keys.no_duplicates() {
                    assert(!rest.contains(k)) by {
                        if rest.contains(k) {
                            let j = choose|j: int| 0 <= j < rest.len() && rest[j] == k;
                            assert(keys[j + 1] == keys[0]);
                        }
                    }
                    assert(rest.no_duplicates()) by {
                        assert forall|a: int, b: int|
                            0 <= a < rest.len() && 0 <= b < rest.len() && a != b implies rest[a]
                            != rest[b] by {
                            assert(keys[a + 1] != keys[b + 1]);
                        }
                    }
                }
                if rest.no_duplicates() && !rest.contains(k) {
                    assert(keys.no_duplicates()) by {
                        assert forall|a: int, b: int|
                            0 <= a < keys.len() && 0 <= b < keys.len() && a != b implies keys[a]
                            != keys[b] by {
                            if a > 0 && b > 0 {
                                assert(rest[a - 1] != rest[b - 1]);
                            } else if a == 0 {
                                assert(rest[b - 1] == keys[b]);
                            } else {
                                assert(rest[a - 1] == keys[a]);
                            }
                        }
                    }
                }
                if visit_keys(names, seen2, rest) is Ok {
                    assert(!rest.contains(k)) by {
                        assert(seen2[f]);
                    }
                }
                let p_seen2 = forall|i: int| 0 <= i < names.len() && seen2[i] ==> !rest.contains(names[i]);
                let p_seen = forall|i: int| 0 <= i < names.len() && seen[i] ==> !keys.contains(names[i]);
                if p_seen2 {
                    assert forall|i: int| 0 <= i < names.len() && seen[i] implies !keys.contains(names[i]) by {
                        assert(seen2[i]);
                        assert(i != f);
                        assert(names[i] != k);
                    }
                }
                if p_seen && !rest.contains(k) {
                    assert forall|i: int| 0 <= i < names.len() && seen2[i] implies !rest.contains(names[i]) by {
                        if i != f {
                            assert(seen[i]);
                        }
                    }
                }
                if visit_keys(names, seen2, rest) is Ok {
                    let s = visit_keys(names, seen2, rest)->Ok_0;
                    assert forall|i: int| 0 <= i < names.len() implies (s[i] <==> seen[i] || keys.contains(names[i])) by {
                        if i == f {
                        } else {
                            assert(names[i] != k);
                        }
                    }
                }
            } else {
                assert(!(forall|i: int| 0 <= i < names.len() && seen[i] ==> !keys.contains(names[i]))) by {
                    assert(seen[f] && keys.contains(names[f]));
                }
            }
        } else {
            assert(!(forall|x: Seq<char>| keys.contains(x) ==> names.contains(x)));
        }
    }
}

/// The map visitor of a derived struct succeeds exactly when the keys the map
/// yields name the struct's deserialized fields, each of them once.
pub proof fn law_struct_complete_iff_each_field_once(names: Seq<Seq<char>>, keys: Seq<Seq<char>>)
    requires
        names.no_duplicates(),
        names.len() <= usize::MAX,
    ensures
        struct_outcome(names, keys) == StructOutcome::Complete <==> {
            &&& keys.no_duplicates()
            &&& forall|k: Seq<char>| keys.contains(k) ==> names.contains(k)
            &&& forall|k: Seq<char>| names.contains(k) ==> keys.contains(k)
        },
{
    let seen0 = none_seen(names.len());
    lemma_visit_keys(names, seen0, keys);
    if let Ok(s) = visit_keys(names, seen0, keys) {
        if forall|k: Seq<char>| names.contains(k) ==> keys.contains(k) {
            assert forall|i: int| 0 <= i < s.len() implies s[i] by {
                assert(names.contains(names[i]));
            }
            lemma_first_unseen(s, s.len() as int);
        }
        lemma_first_unseen_none(s);
        if first_unseen(s) is None {
            assert forall|k: Seq<char>| names.contains(k) implies keys.contains(k) by {
                let i = choose|i: int| 0 <= i < names.len() && names[i] == k;
                assert(s[i]);
            }
        }
    }
}

} // verus!
