//! A header mapping: name/value pairs with unique names, insertion order
//! preserved, last insertion winning on a repeated name.

use vstd::prelude::*;

verus! {

/// One header entry: a name and a value.
#[derive(Debug)]
pub struct HeaderPair {
    pub name: String,
    pub value: String,
}

/// The abstract content of a header map: name/value pairs in order.
pub type HeaderSeq = Seq<(Seq<char>, Seq<char>)>;

/// Index of the first entry named `name`, if any.
pub open spec fn spec_find(m: HeaderSeq, name: Seq<char>) -> Option<int>
    decreases m.len(),
{
    if m.len() == 0 {
        None
    } else if m[0].0 == name {
        Some(0)
    } else {
        match spec_find(m.drop_first(), name) {
            None => None,
            Some(i) => Some(i + 1),
        }
    }
}

/// The value of the first entry named `name`, if any.
pub open spec fn spec_lookup(m: HeaderSeq, name: Seq<char>) -> Option<Seq<char>> {
    match spec_find(m, name) {
        None => None,
        Some(i) => Some(m[i].1),
    }
}

/// Insertion: overwrite in place when the name is present, append otherwise.
pub open spec fn spec_insert(m: HeaderSeq, name: Seq<char>, value: Seq<char>) -> HeaderSeq
    decreases m.len(),
{
    if m.len() == 0 {
        seq![(name, value)]
    } else if m[0].0 == name {
        seq![(name, value)] + m.drop_first()
    } else {
        seq![m[0]] + spec_insert(m.drop_first(), name, value)
    }
}

/// Folds a list of entries into a map, in order: a later entry with an
/// already-present name overwrites it in place.
pub open spec fn spec_insert_all(m: HeaderSeq, hs: HeaderSeq) -> HeaderSeq
    decreases hs.len(),
{
    if hs.len() == 0 {
        m
    } else {
        spec_insert_all(spec_insert(m, hs[0].0, hs[0].1), hs.drop_first())
    }
}

/// Names are pairwise distinct.
pub open spec fn names_unique(m: HeaderSeq) -> bool {
    forall|i: int, j: int| 0 <= i < j < m.len() ==> m[i].0 != m[j].0
}

/// `spec_find` returns exactly the position of the first matching name.
pub proof fn lemma_spec_find(m: HeaderSeq, name: Seq<char>)
    ensures
        match spec_find(m, name) {
            Some(i) => 0 <= i < m.len() && m[i].0 == name
                && forall|j: int| 0 <= j < i ==> m[j].0 != name,
            None => forall|j: int| 0 <= j < m.len() ==> m[j].0 != name,
        },
    decreases m.len(),
{
    if m.len() == 0 {
    } else if m[0].0 == name {
    } else {
        lemma_spec_find(m.drop_first(), name);
        match spec_find(m.drop_first(), name) {
            None => {
                assert(spec_find(m, name) is None);
                assert forall|j: int| 0 <= j < m.len() implies m[j].0 != name by {
                    if j > 0 {
                        assert(m.drop_first()[j - 1] == m[j]);
                    }
                }
            },
            Some(i) => {
                assert(spec_find(m, name) == Some(i + 1));
                assert(m.drop_first()[i] == m[i + 1]);
                assert forall|j: int| 0 <= j < i + 1 implies m[j].0 != name by {
                    if j > 0 {
                        assert(m.drop_first()[j - 1] == m[j]);
                    }
                }
            },
        }
    }
}

/// A first match at `i` pins `spec_find` down to `Some(i)`.
pub proof fn lemma_find_at(m: HeaderSeq, name: Seq<char>, i: int)
    requires
        0 <= i < m.len(),
        m[i].0 == name,
        forall|j: int| 0 <= j < i ==> m[j].0 != name,
    ensures
        spec_find(m, name) == Some(i),
    decreases m.len(),
{
    if i == 0 {
    } else {
        assert(m[0].0 != name);
        assert forall|j: int| 0 <= j < i - 1 implies m.drop_first()[j].0 != name by {
            assert(m.drop_first()[j] == m[j + 1]);
        }
        assert(m.drop_first()[i - 1] == m[i]);
        lemma_find_at(m.drop_first(), name, i - 1);
    }
}

/// With no match anywhere, `spec_find` is `None`.
pub proof fn lemma_find_none(m: HeaderSeq, name: Seq<char>)
    requires
        forall|j: int| 0 <= j < m.len() ==> m[j].0 != name,
    ensures
        spec_find(m, name) is None,
    decreases m.len(),
{
    if m.len() == 0 {
    } else {
        assert forall|j: int| 0 <= j < m.drop_first().len() implies m.drop_first()[j].0 != name by {
            assert(m.drop_first()[j] == m[j + 1]);
        }
        lemma_find_none(m.drop_first(), name);
    }
}

/// Inserting updates in place when the name is found, appends otherwise.
pub proof fn lemma_spec_insert_shape(m: HeaderSeq, name: Seq<char>, value: Seq<char>)
    ensures
        match spec_find(m, name) {
            Some(i) => spec_insert(m, name, value) =~= m.update(i, (name, value)),
            None => spec_insert(m, name, value) =~= m.push((name, value)),
        },
    decreases m.len(),
{
    if m.len() == 0 {
    } else if m[0].0 == name {
        assert(seq![(name, value)] + m.drop_first() =~= m.update(0, (name, value)));
    } else {
        lemma_spec_insert_shape(m.drop_first(), name, value);
        lemma_spec_find(m.drop_first(), name);
        match spec_find(m.drop_first(), name) {
            Some(i) => {
                assert(seq![m[0]] + m.drop_first().update(i, (name, value))
                    =~= m.update(i + 1, (name, value)));
            },
            None => {
                assert(seq![m[0]] + m.drop_first().push((name, value))
                    =~= m.push((name, value)));
            },
        }
    }
}

/// Insertion preserves uniqueness of names.
pub proof fn lemma_spec_insert_unique(m: HeaderSeq, name: Seq<char>, value: Seq<char>)
    requires
        names_unique(m),
    ensures
        names_unique(spec_insert(m, name, value)),
{
    lemma_spec_find(m, name);
    lemma_spec_insert_shape(m, name, value);
}

/// After inserting, looking the name up yields the inserted value, and every
/// other name is untouched.
pub proof fn lemma_insert_lookup(m: HeaderSeq, name: Seq<char>, value: Seq<char>)
    ensures
        spec_lookup(spec_insert(m, name, value), name) == Some(value),
        forall|other: Seq<char>| other != name
            ==> spec_lookup(spec_insert(m, name, value), other) == spec_lookup(m, other),
{
    let r = spec_insert(m, name, value);
    lemma_spec_find(m, name);
    lemma_spec_insert_shape(m, name, value);
    match spec_find(m, name) {
        Some(i) => {
            lemma_find_at(r, name, i);
        },
        None => {
            lemma_find_at(r, name, m.len() as int);
        },
    }
    assert forall|other: Seq<char>| other != name
        implies spec_lookup(r, other) == spec_lookup(m, other) by {
        lemma_spec_find(m, other);
        match spec_find(m, other) {
            Some(k) => {
                assert(r[k].0 == other);
                lemma_find_at(r, other, k);
            },
            None => {
                assert(forall|j: int| 0 <= j < r.len() ==> #[trigger] r[j].0 != other);
                lemma_find_none(r, other);
            },
        }
    }
}

/// Folding entries whose names are distinct and all new just appends them.
pub proof fn lemma_insert_all_fresh(m: HeaderSeq, hs: HeaderSeq)
    requires
        names_unique(hs),
        forall|k: int, j: int|
            0 <= k < hs.len() && 0 <= j < m.len() ==> m[j].0 != hs[k].0,
    ensures
        spec_insert_all(m, hs) == m + hs,
    decreases hs.len(),
{
    if hs.len() == 0 {
        assert(m + hs =~= m);
    } else {
        let h = hs[0];
        assert(forall|j: int| 0 <= j < m.len() ==> m[j].0 != h.0);
        lemma_find_none(m, h.0);
        lemma_spec_insert_shape(m, h.0, h.1);
        let m2 = m.push(h);
        let hs2 = hs.drop_first();
        assert(spec_insert(m, h.0, h.1) == m2);
        assert forall|k: int, j: int|
            0 <= k < hs2.len() && 0 <= j < m2.len() implies m2[j].0 != hs2[k].0 by {
            assert(hs2[k] == hs[k + 1]);
            if j < m.len() {
                assert(m2[j] == m[j]);
            } else {
                assert(m2[j] == h);
            }
        }
        assert forall|k: int, j: int| 0 <= k < j < hs2.len() implies hs2[k].0 != hs2[j].0 by {
            assert(hs2[k] == hs[k + 1]);
            assert(hs2[j] == hs[j + 1]);
        }
        lemma_insert_all_fresh(m2, hs2);
        assert(m2 + hs2 =~= m + hs);
    }
}

/// Folding a distinct-named list into an empty map reproduces the list.
pub proof fn lemma_insert_all_distinct(hs: HeaderSeq)
    requires
        names_unique(hs),
    ensures
        spec_insert_all(Seq::empty(), hs) == hs,
{
    lemma_insert_all_fresh(Seq::empty(), hs);
    assert(Seq::empty() + hs =~= hs);
}

/// In a map with unique names, looking up the name of entry `k` yields
/// exactly that entry's value.
pub proof fn lemma_lookup_present(m: HeaderSeq, k: int)
    requires
        names_unique(m),
        0 <= k < m.len(),
    ensures
        spec_lookup(m, m[k].0) == Some(m[k].1),
{
    lemma_find_at(m, m[k].0, k);
}

/// A name held by no entry looks up to absence.
pub proof fn lemma_lookup_absent(m: HeaderSeq, name: Seq<char>)
    requires
        forall|j: int| 0 <= j < m.len() ==> m[j].0 != name,
    ensures
        spec_lookup(m, name) is None,
{
    lemma_find_none(m, name);
}

/// Inserting under the same name twice keeps only the last value.
pub proof fn lemma_insert_overwrite(m: HeaderSeq, name: Seq<char>, v1: Seq<char>, v2: Seq<char>)
    ensures
        spec_insert(spec_insert(m, name, v1), name, v2) == spec_insert(m, name, v2),
{
    lemma_spec_find(m, name);
    lemma_spec_insert_shape(m, name, v1);
    lemma_spec_insert_shape(m, name, v2);
    let first = spec_insert(m, name, v1);
    match spec_find(m, name) {
        Some(i) => {
            assert(first[i].0 == name);
            assert forall|j: int| 0 <= j < i implies first[j].0 != name by {
                assert(first[j] == m[j]);
            }
            lemma_find_at(first, name, i);
            lemma_spec_insert_shape(first, name, v2);
            assert(first.update(i, (name, v2)) =~= m.update(i, (name, v2)));
        },
        None => {
            let i = m.len() as int;
            assert(first[i].0 == name);
            assert forall|j: int| 0 <= j < i implies first[j].0 != name by {
                assert(first[j] == m[j]);
            }
            lemma_find_at(first, name, i);
            lemma_spec_insert_shape(first, name, v2);
            assert(first.update(i, (name, v2)) =~= m.push((name, v2)));
        },
    }
}

/// A header mapping with unique names and remembered insertion order.
#[derive(Debug)]
pub struct HeaderMap {
    entries: Vec<HeaderPair>,
}

impl View for HeaderMap {
    type V = HeaderSeq;

    closed spec fn view(&self) -> HeaderSeq {
        Seq::new(self.entries@.len(), |i: int| (self.entries@[i].name@, self.entries@[i].value@))
    }
}

impl HeaderMap {
    /// The map's names are pairwise distinct.
    pub open spec fn wf(&self) -> bool {
        names_unique(self@)
    }

    /// An empty header map.
    pub fn new() -> (r: HeaderMap)
        ensures
            r@ =~= Seq::<(Seq<char>, Seq<char>)>::empty(),
            r.wf(),
    {
        HeaderMap { entries: Vec::new() }
    }

    /// The number of entries.
    pub fn len(&self) -> (r: usize)
        ensures
            r == self@.len(),
    {
        self.entries.len()
    }

    /// The entry at position `i`, in insertion order.
    pub fn index(&self, i: usize) -> (r: &HeaderPair)
        requires
            i < self@.len(),
        ensures
            (r.name@, r.value@) == self@[i as int],
    {
        &self.entries[i]
    }

    /// Inserts `value` under `name`, overwriting in place when the name is
    /// already present, appending otherwise.
    pub fn insert(&mut self, name: String, value: String)
        requires
            old(self).wf(),
        ensures
            final(self)@ == spec_insert(old(self)@, name@, value@),
            final(self).wf(),
    {
        proof {
            lemma_spec_insert_unique(old(self)@, name@, value@);
        }
        let n: usize = self.entries.len();
        let mut i: usize = 0;
        while i < n
            invariant
                self == old(self),
                old(self).wf(),
                n == self@.len(),
                i <= n,
                forall|j: int| 0 <= j < i ==> self@[j].0 != name@,
            decreases n - i,
        {
            if crate::text::str_eq(self.entries[i].name.as_str(), name.as_str()) {
                proof {
                    assert(self@[i as int].0 == name@);
                    lemma_find_at(old(self)@, name@, i as int);
                    lemma_spec_insert_shape(old(self)@, name@, value@);
                }
                let ghost pre = self@;
                self.entries[i].value = value;
                proof {
                    assert(self@ =~= pre.update(i as int, (name@, value@)));
                    lemma_spec_insert_unique(old(self)@, name@, value@);
                }
                return;
            }
            i = i + 1;
        }
        proof {
            lemma_find_none(old(self)@, name@);
            lemma_spec_insert_shape(old(self)@, name@, value@);
        }
        let ghost pre = self@;
        self.entries.push(HeaderPair { name, value });
        proof {
            assert(self@ =~= pre.push((name@, value@)));
        }
    }

    /// Looks a name up; returns the value of the entry with exactly that name.
    pub fn get(&self, name: &str) -> (r: Option<&String>)
        ensures
            match r {
                Some(v) => spec_lookup(self@, name@) == Some(v@),
                None => spec_lookup(self@, name@) is None,
            },
    {
        let n: usize = self.entries.len();
        let mut i: usize = 0;
        while i < n
            invariant
                n == self@.len(),
                i <= n,
                forall|j: int| 0 <= j < i ==> self@[j].0 != name@,
            decreases n - i,
        {
            if crate::text::str_eq(self.entries[i].name.as_str(), name) {
                proof {
                    assert(self@[i as int].0 == name@);
                    lemma_find_at(self@, name@, i as int);
                }
                return Some(&self.entries[i].value);
            }
            i = i + 1;
        }
        proof {
            lemma_find_none(self@, name@);
        }
        None
    }
}

} // verus!
