//! An insertion-ordered string-keyed map.
//!
//! Machine inventories, resource declarations and lock entries are ordered
//! mappings whose key order is part of the observable contract, so the map
//! is kept as an association vector: lookups scan, inserts replace in place
//! or append, and the key sequence is exactly the insertion sequence.

use vstd::prelude::*;

verus! {

/// The value bound to the first occurrence of `k`, scanning from the front.
pub open spec fn assoc_find<V>(s: Seq<(Seq<char>, V)>, k: Seq<char>) -> Option<V>
    decreases s.len(),
{
    if s.len() == 0 {
        None
    } else if s[0].0 == k {
        Some(s[0].1)
    } else {
        assoc_find(s.drop_first(), k)
    }
}

/// Whether some entry binds `k`.
pub open spec fn assoc_has<V>(s: Seq<(Seq<char>, V)>, k: Seq<char>) -> bool {
    assoc_find(s, k) is Some
}

/// `s` with `k` bound to `v`: the first entry for `k` is replaced in place,
/// or a fresh entry is appended when none exists.
pub open spec fn assoc_upsert<V>(s: Seq<(Seq<char>, V)>, k: Seq<char>, v: V) -> Seq<
    (Seq<char>, V),
>
    decreases s.len(),
{
    if s.len() == 0 {
        seq![(k, v)]
    } else if s[0].0 == k {
        seq![(k, v)] + s.drop_first()
    } else {
        seq![s[0]] + assoc_upsert(s.drop_first(), k, v)
    }
}

/// Every key occurs at most once.
pub open spec fn distinct_keys<V>(s: Seq<(Seq<char>, V)>) -> bool {
    forall|i: int, j: int| 0 <= i < j < s.len() ==> s[i].0 != s[j].0
}

pub proof fn lemma_assoc_find_at<V>(s: Seq<(Seq<char>, V)>, k: Seq<char>, i: int)
    requires
        0 <= i < s.len(),
        s[i].0 == k,
        forall|j: int| 0 <= j < i ==> s[j].0 != k,
    ensures
        assoc_find(s, k) == Some(s[i].1),
    decreases i,
{
    if i == 0 {
    } else {
        lemma_assoc_find_at(s.drop_first(), k, i - 1);
    }
}

pub proof fn lemma_assoc_find_none<V>(s: Seq<(Seq<char>, V)>, k: Seq<char>)
    requires
        forall|j: int| 0 <= j < s.len() ==> s[j].0 != k,
    ensures
        assoc_find(s, k) is None,
    decreases s.len(),
{
    if s.len() > 0 {
        lemma_assoc_find_none(s.drop_first(), k);
    }
}

/// An ordered map from strings to values of type `V`.
#[derive(Debug, Clone, PartialEq)]
pub struct OMap<V> {
    entries: Vec<(String, V)>,
}

impl<V> View for OMap<V> {
    type V = Seq<(Seq<char>, V)>;

    closed spec fn view(&self) -> Seq<(Seq<char>, V)> {
        self.entries@.map_values(|p: (String, V)| (p.0@, p.1))
    }
}

impl<V> OMap<V> {
    /// All keys distinct; holds for every map built through this interface.
    pub open spec fn wf(&self) -> bool {
        distinct_keys(self@)
    }

    pub fn new() -> (r: OMap<V>)
        ensures
            r@ == Seq::<(Seq<char>, V)>::empty(),
            r.wf(),
    {
        let r = OMap { entries: Vec::new() };
        proof {
            assert(r@ =~= Seq::<(Seq<char>, V)>::empty());
        }
        r
    }

    pub fn len(&self) -> (n: usize)
        ensures
            n == self@.len(),
    {
        self.entries.len()
    }

    /// The key of the `i`th entry in insertion order.
    pub fn key_at(&self, i: usize) -> (k: &String)
        requires
            i < self@.len(),
        ensures
            k@ == self@[i as int].0,
    {
        &self.entries[i].0
    }

    /// The value of the `i`th entry in insertion order.
    pub fn val_at(&self, i: usize) -> (v: &V)
        requires
            i < self@.len(),
        ensures
            *v == self@[i as int].1,
    {
        &self.entries[i].1
    }

    pub fn contains_key(&self, k: &str) -> (r: bool)
        ensures
            r == assoc_has(self@, k@),
    {
        self.get(k).is_some()
    }

    pub fn get(&self, k: &str) -> (r: Option<&V>)
        ensures
            match r {
                Some(v) => assoc_find(self@, k@) == Some(*v),
                None => assoc_find(self@, k@) is None,
            },
    {
        let n = self.entries.len();
        let mut i: usize = 0;
        while i < n
            invariant
                n == self@.len(),
                i <= n,
                forall|j: int| 0 <= j < i ==> self@[j].0 != k@,
            decreases n - i,
        {
            if crate::strutil::str_eq(self.entries[i].0.as_str(), k) {
                proof {
                    lemma_assoc_find_at(self@, k@, i as int);
                }
                return Some(&self.entries[i].1);
            }
            i += 1;
        }
        proof {
            lemma_assoc_find_none(self@, k@);
        }
        None
    }

    /// Bind `k` to `v`: replace the first entry for `k` in place, or append.
    pub fn insert(&mut self, k: String, v: V)
        requires
            old(self).wf(),
        ensures
            final(self)@ == assoc_upsert(old(self)@, k@, v),
            final(self).wf(),
    {
        let n = self.entries.len();
        let mut i: usize = 0;
        while i < n
            invariant
                self == old(self),
                old(self).wf(),
                n == self@.len(),
                i <= n,
                forall|j: int| 0 <= j < i ==> self@[j].0 != k@,
            decreases n - i,
        {
            if crate::strutil::str_eq(self.entries[i].0.as_str(), k.as_str()) {
                proof {
                    lemma_assoc_upsert_at(self@, k@, i as int);
                }
                self.entries.set(i, (k, v));
                proof {
                    assert(final(self)@ =~= old(self)@.update(i as int, (k@, v)));
                    lemma_distinct_update(old(self)@, k@, v, i as int);
                }
                return ;
            }
            i += 1;
        }
        proof {
            lemma_assoc_upsert_missing(self@, k@, v);
        }
        self.entries.push((k, v));
        proof {
            assert(final(self)@ =~= old(self)@.push((k@, v)));
            assert(final(self)@ =~= old(self)@ + seq![(k@, v)]);
        }
    }
}

/// When entry `i` is the first with key `k`, upserting `k` updates slot `i`.
pub proof fn lemma_assoc_upsert_at<V>(s: Seq<(Seq<char>, V)>, k: Seq<char>, i: int)
    requires
        0 <= i < s.len(),
        s[i].0 == k,
        forall|j: int| 0 <= j < i ==> s[j].0 != k,
    ensures
        forall|v: V| #[trigger] assoc_upsert(s, k, v) =~= s.update(i, (k, v)),
    decreases i,
{
    if i == 0 {
        assert forall|v: V| #[trigger] assoc_upsert(s, k, v) =~= s.update(0, (k, v)) by {
            assert(assoc_upsert(s, k, v) == seq![(k, v)] + s.drop_first());
        }
    } else {
        lemma_assoc_upsert_at(s.drop_first(), k, i - 1);
        assert forall|v: V| #[trigger] assoc_upsert(s, k, v) =~= s.update(i, (k, v)) by {
            assert(assoc_upsert(s, k, v) == seq![s[0]] + assoc_upsert(s.drop_first(), k, v));
            assert(assoc_upsert(s.drop_first(), k, v) =~= s.drop_first().update(i - 1, (k, v)));
        }
    }
}

/// A key that finds nothing occurs nowhere.
pub proof fn lemma_assoc_none_keys<V>(s: Seq<(Seq<char>, V)>, k: Seq<char>)
    requires
        assoc_find(s, k) is None,
    ensures
        forall|j: int| 0 <= j < s.len() ==> (#[trigger] s[j]).0 != k,
    decreases s.len(),
{
    if s.len() > 0 {
        lemma_assoc_none_keys(s.drop_first(), k);
        assert forall|j: int| 0 <= j < s.len() implies (#[trigger] s[j]).0 != k by {
            if j > 0 {
                assert(s.drop_first()[j - 1] == s[j]);
            }
        }
    }
}

/// A key that finds something occurs somewhere.
pub proof fn lemma_assoc_some_index<V>(s: Seq<(Seq<char>, V)>, k: Seq<char>)
    requires
        assoc_find(s, k) is Some,
    ensures
        exists|j: int| 0 <= j < s.len() && (#[trigger] s[j]).0 == k,
    decreases s.len(),
{
    if s.len() > 0 {
        if s[0].0 == k {
            assert(s[0].0 == k);
        } else {
            lemma_assoc_some_index(s.drop_first(), k);
            let j = choose|j: int| 0 <= j < s.drop_first().len() && (#[trigger] s.drop_first()[j]).0
                == k;
            assert(s[j + 1].0 == k);
        }
    }
}

/// Upserting one key leaves every other binding as it was, and binds the
/// key itself to the new value.
pub proof fn lemma_assoc_upsert_frame<V>(s: Seq<(Seq<char>, V)>, k: Seq<char>, v: V)
    ensures
        assoc_find(assoc_upsert(s, k, v), k) == Some(v),
        forall|k2: Seq<char>|
            k2 != k ==> #[trigger] assoc_find(assoc_upsert(s, k, v), k2) == assoc_find(s, k2),
    decreases s.len(),
{
    let u = assoc_upsert(s, k, v);
    if s.len() == 0 {
        assert(u == seq![(k, v)]);
        assert(u[0].0 == k);
        assert(assoc_find(u, k) == Some(v));
        assert forall|k2: Seq<char>| k2 != k implies #[trigger] assoc_find(u, k2) == assoc_find(
            s,
            k2,
        ) by {
            assert(assoc_find(u, k2) == assoc_find(u.drop_first(), k2));
            assert(u.drop_first() =~= Seq::<(Seq<char>, V)>::empty());
            assert(assoc_find(u.drop_first(), k2) is None);
            assert(assoc_find(s, k2) is None);
        }
    } else if s[0].0 == k {
        assert(u == seq![(k, v)] + s.drop_first());
        assert(u[0] == (k, v));
        assert(assoc_find(u, k) == Some(v));
        assert forall|k2: Seq<char>| k2 != k implies #[trigger] assoc_find(u, k2) == assoc_find(
            s,
            k2,
        ) by {
            assert(u.drop_first() =~= s.drop_first());
            assert(assoc_find(u, k2) == assoc_find(u.drop_first(), k2));
            assert(assoc_find(s, k2) == assoc_find(s.drop_first(), k2));
        }
    } else {
        lemma_assoc_upsert_frame(s.drop_first(), k, v);
        assert(u == seq![s[0]] + assoc_upsert(s.drop_first(), k, v));
        assert(u[0] == s[0]);
        assert(u.drop_first() =~= assoc_upsert(s.drop_first(), k, v));
        assert(assoc_find(u, k) == assoc_find(u.drop_first(), k));
        assert forall|k2: Seq<char>| k2 != k implies #[trigger] assoc_find(u, k2) == assoc_find(
            s,
            k2,
        ) by {
            if s[0].0 == k2 {
                assert(assoc_find(u, k2) == Some(u[0].1));
                assert(assoc_find(s, k2) == Some(s[0].1));
            } else {
                assert(assoc_find(u, k2) == assoc_find(u.drop_first(), k2));
                assert(assoc_find(s, k2) == assoc_find(s.drop_first(), k2));
            }
        }
    }
}

/// Upserting an absent key appends.
pub proof fn lemma_assoc_upsert_missing<V>(s: Seq<(Seq<char>, V)>, k: Seq<char>, v: V)
    requires
        forall|j: int| 0 <= j < s.len() ==> s[j].0 != k,
    ensures
        assoc_upsert(s, k, v) =~= s + seq![(k, v)],
    decreases s.len(),
{
    if s.len() > 0 {
        lemma_assoc_upsert_missing(s.drop_first(), k, v);
        assert(assoc_upsert(s, k, v) == seq![s[0]] + assoc_upsert(s.drop_first(), k, v));
        assert(assoc_upsert(s, k, v) =~= s + seq![(k, v)]);
    }
}

proof fn lemma_distinct_update<V>(s: Seq<(Seq<char>, V)>, k: Seq<char>, v: V, i: int)
    requires
        distinct_keys(s),
        0 <= i < s.len(),
        s[i].0 == k,
    ensures
        distinct_keys(s.update(i, (k, v))),
{
}

} // verus!
