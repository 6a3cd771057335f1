//! A map from handles to values that keeps its entries in insertion order.
//!
//! Every manager of the display server keeps its objects in one of these,
//! keyed by the object's handle. Lookups are linear; the entry sequence is
//! the model that the managers' contracts speak of.

use vstd::prelude::*;
use crate::common::ObjectId;

verus! {

/// No two entries of `s` carry the same handle.
pub open spec fn unique_keys<V>(s: Seq<(ObjectId, V)>) -> bool {
    forall|i: int, j: int|
        0 <= i < s.len() && 0 <= j < s.len() && i != j ==> #[trigger] s[i].0 != #[trigger] s[j].0
}

/// Some entry of `s` carries handle `k`.
pub open spec fn has_key<V>(s: Seq<(ObjectId, V)>, k: ObjectId) -> bool {
    exists|i: int| 0 <= i < s.len() && #[trigger] s[i].0 == k
}

/// The position of the entry of `s` that carries `k` (meaningful when
/// `has_key(s, k)`).
pub open spec fn key_index<V>(s: Seq<(ObjectId, V)>, k: ObjectId) -> int {
    choose|i: int| 0 <= i < s.len() && #[trigger] s[i].0 == k
}

/// The value stored under `k` (meaningful when `has_key(s, k)`).
pub open spec fn lookup<V>(s: Seq<(ObjectId, V)>, k: ObjectId) -> V {
    s[key_index(s, k)].1
}

/// What `s` maps each of its handles to.
pub open spec fn as_map<V>(s: Seq<(ObjectId, V)>) -> Map<ObjectId, V> {
    Map::new(|k: ObjectId| has_key(s, k), |k: ObjectId| lookup(s, k))
}

/// `s` with the value under `k` replaced by `v` (meaningful when
/// `has_key(s, k)`).
pub open spec fn set_value<V>(s: Seq<(ObjectId, V)>, k: ObjectId, v: V) -> Seq<(ObjectId, V)> {
    s.update(key_index(s, k), (k, v))
}

/// `s` without the entry under `k` (meaningful when `has_key(s, k)`).
pub open spec fn without_key<V>(s: Seq<(ObjectId, V)>, k: ObjectId) -> Seq<(ObjectId, V)> {
    s.remove(key_index(s, k))
}

/// The values of `s`, in order.
pub open spec fn values_of<V>(s: Seq<(ObjectId, V)>) -> Seq<V> {
    s.map_values(|e: (ObjectId, V)| e.1)
}

/// The references in `s`, followed.
pub open spec fn derefs<V>(s: Seq<&V>) -> Seq<V> {
    s.map_values(|r: &V| *r)
}

/// Every handle of `s` is below `bound`.
pub open spec fn keys_below<V>(s: Seq<(ObjectId, V)>, bound: u64) -> bool {
    forall|i: int| 0 <= i < s.len() ==> (#[trigger] s[i]).0.0 < bound
}

/// A handle at or above `bound` is not in `s` when all of its handles are below.
pub proof fn lemma_fresh_key<V>(s: Seq<(ObjectId, V)>, bound: u64, k: ObjectId)
    requires
        keys_below(s, bound),
        k.0 >= bound,
    ensures
        !has_key(s, k),
{
    if has_key(s, k) {
        let i = choose|i: int| 0 <= i < s.len() && #[trigger] s[i].0 == k;
        assert(s[i].0.0 < bound);
    }
}

/// Removing or replacing entries keeps all handles below a bound.
pub proof fn lemma_keys_below_remove<V>(s: Seq<(ObjectId, V)>, bound: u64, i: int)
    requires
        keys_below(s, bound),
        0 <= i < s.len(),
    ensures
        keys_below(s.remove(i), bound),
{
    assert forall|j: int| 0 <= j < s.remove(i).len() implies (#[trigger] s.remove(i)[j]).0.0 < bound by {
        if j < i {
            assert(s.remove(i)[j] == s[j]);
        } else {
            assert(s.remove(i)[j] == s[j + 1]);
        }
    }
}

/// Filtering two sequences that agree on the predicate everywhere, and on
/// the elements wherever the predicate holds, gives the same result.
pub proof fn lemma_filter_agree<A>(a: Seq<A>, b: Seq<A>, pred: spec_fn(A) -> bool)
    requires
        a.len() == b.len(),
        forall|i: int| 0 <= i < a.len() ==> pred(#[trigger] a[i]) == pred(b[i]),
        forall|i: int| 0 <= i < a.len() && pred(#[trigger] a[i]) ==> a[i] == b[i],
    ensures
        a.filter(pred) == b.filter(pred),
    decreases a.len(),
{
    reveal_with_fuel(Seq::<_>::filter, 1);
    if a.len() > 0 {
        lemma_filter_agree(a.drop_last(), b.drop_last(), pred);
        assert(pred(a[a.len() - 1]) == pred(b[b.len() - 1]));
    }
}

/// In a sequence with distinct handles, the entry at position `i` is the one
/// that `lookup` finds for its handle.
pub proof fn lemma_index_unique<V>(s: Seq<(ObjectId, V)>, i: int)
    requires
        unique_keys(s),
        0 <= i < s.len(),
    ensures
        has_key(s, s[i].0),
        key_index(s, s[i].0) == i,
        lookup(s, s[i].0) == s[i].1,
{
    assert(has_key(s, s[i].0));
}

/// Removing one entry keeps the handles distinct and removes exactly that
/// entry's handle.
pub proof fn lemma_remove<V>(s: Seq<(ObjectId, V)>, i: int)
    requires
        unique_keys(s),
        0 <= i < s.len(),
    ensures
        unique_keys(s.remove(i)),
        forall|k: ObjectId| #[trigger] has_key(s.remove(i), k) <==> (has_key(s, k) && k != s[i].0),
        forall|k: ObjectId| #[trigger] has_key(s.remove(i), k) ==> lookup(s.remove(i), k) == lookup(s, k),
{
    let r = s.remove(i);
    assert forall|k: ObjectId| #[trigger] has_key(r, k) <==> (has_key(s, k) && k != s[i].0) by {
        if has_key(r, k) {
            let j = choose|j: int| 0 <= j < r.len() && #[trigger] r[j].0 == k;
            if j < i {
                assert(s[j] == r[j]);
            } else {
                assert(s[j + 1] == r[j]);
            }
        }
        if has_key(s, k) && k != s[i].0 {
            let j = choose|j: int| 0 <= j < s.len() && #[trigger] s[j].0 == k;
            if j < i {
                assert(r[j] == s[j]);
            } else {
                assert(r[j - 1] == s[j]);
            }
        }
    }
    assert forall|k: ObjectId| #[trigger] has_key(r, k) implies lookup(r, k) == lookup(s, k) by {
        let j = key_index(r, k);
        if j < i {
            assert(r[j] == s[j]);
            lemma_index_unique(s, j);
        } else {
            assert(r[j] == s[j + 1]);
            lemma_index_unique(s, j + 1);
        }
    }
}

/// Appending an entry under a new handle keeps the handles distinct.
pub proof fn lemma_push<V>(s: Seq<(ObjectId, V)>, k: ObjectId, v: V)
    requires
        unique_keys(s),
        !has_key(s, k),
    ensures
        unique_keys(s.push((k, v))),
        forall|k2: ObjectId| #[trigger] has_key(s.push((k, v)), k2) <==> (has_key(s, k2) || k2 == k),
        forall|k2: ObjectId| #[trigger] has_key(s, k2) ==> lookup(s.push((k, v)), k2) == lookup(s, k2),
        lookup(s.push((k, v)), k) == v,
        key_index(s.push((k, v)), k) == s.len(),
{
    let r = s.push((k, v));
    assert forall|i: int, j: int|
        0 <= i < r.len() && 0 <= j < r.len() && i != j implies #[trigger] r[i].0 != #[trigger] r[j].0 by {
        if i == s.len() as int {
            assert(r[j] == s[j]);
        } else if j == s.len() as int {
            assert(r[i] == s[i]);
        } else {
            assert(r[i] == s[i] && r[j] == s[j]);
        }
    }
    assert forall|k2: ObjectId| #[trigger] has_key(r, k2) <==> (has_key(s, k2) || k2 == k) by {
        if has_key(s, k2) {
            let j = choose|j: int| 0 <= j < s.len() && #[trigger] s[j].0 == k2;
            assert(r[j] == s[j]);
        }
        if k2 == k {
            assert(r[s.len() as int].0 == k);
        }
        if has_key(r, k2) {
            let j = choose|j: int| 0 <= j < r.len() && #[trigger] r[j].0 == k2;
            if j < s.len() {
                assert(r[j] == s[j]);
            }
        }
    }
    assert forall|k2: ObjectId| #[trigger] has_key(s, k2) implies lookup(r, k2) == lookup(s, k2) by {
        let j = key_index(s, k2);
        assert(r[j] == s[j]);
        lemma_index_unique(r, j);
    }
    lemma_index_unique(r, s.len() as int);
}

/// Replacing the value at position `i` keeps the handles distinct and
/// changes only what `lookup` finds for that entry's handle.
pub proof fn lemma_update<V>(s: Seq<(ObjectId, V)>, i: int, v: V)
    requires
        unique_keys(s),
        0 <= i < s.len(),
    ensures
        unique_keys(s.update(i, (s[i].0, v))),
        forall|k: ObjectId| #[trigger] has_key(s.update(i, (s[i].0, v)), k) <==> has_key(s, k),
        forall|k: ObjectId|
            #[trigger] has_key(s, k) && k != s[i].0 ==> lookup(s.update(i, (s[i].0, v)), k) == lookup(s, k),
        lookup(s.update(i, (s[i].0, v)), s[i].0) == v,
        key_index(s.update(i, (s[i].0, v)), s[i].0) == i,
{
    let r = s.update(i, (s[i].0, v));
    assert forall|a: int, b: int|
        0 <= a < r.len() && 0 <= b < r.len() && a != b implies #[trigger] r[a].0 != #[trigger] r[b].0 by {
        assert(r[a].0 == s[a].0);
        assert(r[b].0 == s[b].0);
    }
    assert forall|k: ObjectId| #[trigger] has_key(r, k) <==> has_key(s, k) by {
        if has_key(s, k) {
            let j = choose|j: int| 0 <= j < s.len() && #[trigger] s[j].0 == k;
            assert(r[j].0 == s[j].0);
        }
        if has_key(r, k) {
            let j = choose|j: int| 0 <= j < r.len() && #[trigger] r[j].0 == k;
            assert(r[j].0 == s[j].0);
        }
    }
    assert forall|k: ObjectId| #[trigger] has_key(s, k) && k != s[i].0 implies lookup(r, k) == lookup(s, k) by {
        let j = key_index(s, k);
        assert(r[j] == s[j]);
        lemma_index_unique(r, j);
    }
    lemma_index_unique(r, i);
}

/// Appending an entry under a new handle adds exactly that handle to the
/// map the sequence stands for.
pub proof fn lemma_as_map_push<V>(s: Seq<(ObjectId, V)>, k: ObjectId, v: V)
    requires
        unique_keys(s),
        !has_key(s, k),
    ensures
        as_map(s.push((k, v))) == as_map(s).insert(k, v),
{
    lemma_push(s, k, v);
    assert(as_map(s.push((k, v))) =~= as_map(s).insert(k, v));
}

/// Replacing the value of the entry at position `i` rebinds exactly that
/// entry's handle in the map the sequence stands for.
pub proof fn lemma_as_map_update<V>(s: Seq<(ObjectId, V)>, i: int, v: V)
    requires
        unique_keys(s),
        0 <= i < s.len(),
    ensures
        as_map(s.update(i, (s[i].0, v))) == as_map(s).insert(s[i].0, v),
{
    lemma_update(s, i, v);
    assert(has_key(s, s[i].0));
    assert(as_map(s.update(i, (s[i].0, v))) =~= as_map(s).insert(s[i].0, v));
}

/// Removing the entry at position `i` removes exactly that entry's handle
/// from the map the sequence stands for.
pub proof fn lemma_as_map_remove<V>(s: Seq<(ObjectId, V)>, i: int)
    requires
        unique_keys(s),
        0 <= i < s.len(),
    ensures
        as_map(s.remove(i)) == as_map(s).remove(s[i].0),
{
    lemma_remove(s, i);
    assert(as_map(s.remove(i)) =~= as_map(s).remove(s[i].0));
}

/// The position of `k` in `order` (meaningful when `order` contains `k`).
pub open spec fn position_in(order: Seq<ObjectId>, k: ObjectId) -> int {
    choose|p: int| 0 <= p < order.len() && order[p] == k
}

/// True when `v` holds `x`.
pub(crate) fn contains_id(v: &Vec<ObjectId>, x: ObjectId) -> (b: bool)
    ensures
        b == v@.contains(x),
{
    find_id(v, x).is_some()
}

/// The position of `x` in `v`, if it is there (the first one).
pub(crate) fn find_id(v: &Vec<ObjectId>, x: ObjectId) -> (r: Option<usize>)
    ensures
        r is None <==> !v@.contains(x),
        r matches Some(p) ==> p < v@.len() && v@[p as int] == x && (v@.no_duplicates() ==> position_in(v@, x) == p),
{
    let mut i: usize = 0;
    while i < v.len()
        invariant
            i <= v@.len(),
            forall|j: int| 0 <= j < i ==> v@[j] != x,
        decreases v@.len() - i,
    {
        if v[i] == x {
            return Some(i);
        }
        i = i + 1;
    }
    None
}

/// Removing an element keeps a sequence free of duplicates.
pub proof fn lemma_remove_no_dup<A>(s: Seq<A>, p: int)
    requires
        s.no_duplicates(),
        0 <= p < s.len(),
    ensures
        s.remove(p).no_duplicates(),
        forall|q: int| 0 <= q < s.remove(p).len() ==> #[trigger] s.remove(p)[q] != s[p],
{
    let r = s.remove(p);
    assert forall|a: int, b: int| 0 <= a < r.len() && 0 <= b < r.len() && a != b implies r[a] != r[b] by {
        let a0 = if a < p { a } else { a + 1 };
        let b0 = if b < p { b } else { b + 1 };
        assert(r[a] == s[a0] && r[b] == s[b0]);
    }
    assert forall|q: int| 0 <= q < r.len() implies #[trigger] r[q] != s[p] by {
        let q0 = if q < p { q } else { q + 1 };
        assert(r[q] == s[q0]);
    }
}

/// A map from handles to values, in insertion order.
pub struct IdMap<V> {
    entries: Vec<(ObjectId, V)>,
}

impl<V> IdMap<V> {
    /// The entries, in insertion order.
    pub closed spec fn view(&self) -> Seq<(ObjectId, V)> {
        self.entries@
    }

    /// The handles are distinct.
    pub open spec fn wf(&self) -> bool {
        unique_keys(self@)
    }

    /// An empty map.
    pub fn new() -> (m: Self)
        ensures
            m.wf(),
            m@ == Seq::<(ObjectId, V)>::empty(),
    {
        IdMap { entries: Vec::new() }
    }

    /// The number of entries.
    pub fn len(&self) -> (n: usize)
        ensures
            n == self@.len(),
    {
        self.entries.len()
    }

    /// True when there is no entry.
    pub fn is_empty(&self) -> (b: bool)
        ensures
            b == (self@.len() == 0),
    {
        self.entries.len() == 0
    }

    /// The position of the entry under `k`.
    pub fn position(&self, k: ObjectId) -> (r: Option<usize>)
        requires
            self.wf(),
        ensures
            r is None <==> !has_key(self@, k),
            r matches Some(i) ==> i < self@.len() && self@[i as int].0 == k && key_index(self@, k) == i
                && lookup(self@, k) == self@[i as int].1,
    {
        let mut i: usize = 0;
        while i < self.entries.len()
            invariant
                i <= self.entries@.len(),
                unique_keys(self.entries@),
                forall|j: int| 0 <= j < i ==> #[trigger] self.entries@[j].0 != k,
            decreases self.entries@.len() - i,
        {
            if self.entries[i].0 == k {
                proof {
                    lemma_index_unique(self.entries@, i as int);
                }
                return Some(i);
            }
            i = i + 1;
        }
        None
    }

    /// True when there is an entry under `k`.
    pub fn contains_key(&self, k: ObjectId) -> (b: bool)
        requires
            self.wf(),
        ensures
            b == has_key(self@, k),
    {
        self.position(k).is_some()
    }

    /// The value under `k`.
    pub fn get(&self, k: ObjectId) -> (r: Option<&V>)
        requires
            self.wf(),
        ensures
            r is None <==> !has_key(self@, k),
            r matches Some(v) ==> *v == lookup(self@, k),
    {
        match self.position(k) {
            Some(i) => Some(&self.entries[i].1),
            None => None,
        }
    }

    /// The value under `k`, for update in place.
    pub fn get_mut(&mut self, k: ObjectId) -> (r: Option<&mut V>)
        requires
            old(self).wf(),
        ensures
            r is None <==> !has_key(old(self)@, k),
            r is None ==> final(self)@ == old(self)@,
            r matches Some(v) ==> *v == lookup(old(self)@, k) && final(self)@ == old(self)@.update(
                key_index(old(self)@, k),
                (k, *final(v)),
            ),
            final(self).wf(),
    {
        match self.position(k) {
            Some(i) => {
                proof {
                    lemma_update(self.entries@, i as int, self.entries@[i as int].1);
                }
                Some(&mut self.entries[i].1)
            },
            None => None,
        }
    }

    /// The key of the entry at position `i`.
    pub fn key_at(&self, i: usize) -> (k: ObjectId)
        requires
            i < self@.len(),
        ensures
            k == self@[i as int].0,
    {
        self.entries[i].0
    }

    /// The value of the entry at position `i`.
    pub fn value_at(&self, i: usize) -> (v: &V)
        requires
            i < self@.len(),
        ensures
            *v == self@[i as int].1,
    {
        &self.entries[i].1
    }

    /// The value of the entry at position `i`, for update in place.
    pub fn value_at_mut(&mut self, i: usize) -> (v: &mut V)
        requires
            i < old(self)@.len(),
            old(self).wf(),
        ensures
            *v == old(self)@[i as int].1,
            final(self)@ == old(self)@.update(i as int, (old(self)@[i as int].0, *final(v))),
            final(self).wf(),
    {
        proof {
            lemma_update(self.entries@, i as int, self.entries@[i as int].1);
        }
        &mut self.entries[i].1
    }

    /// Stores `v` under `k`: in place of the old value if there is one, else
    /// as a new last entry. Returns the old value.
    pub fn insert(&mut self, k: ObjectId, v: V) -> (r: Option<V>)
        requires
            old(self).wf(),
        ensures
            final(self).wf(),
            r is None <==> !has_key(old(self)@, k),
            r is None ==> final(self)@ == old(self)@.push((k, v)),
            r matches Some(o) ==> o == lookup(old(self)@, k) && final(self)@ == old(self)@.update(
                key_index(old(self)@, k),
                (k, v),
            ),
    {
        match self.position(k) {
            Some(i) => {
                proof {
                    lemma_update(self.entries@, i as int, v);
                }
                let mut entry = (k, v);
                std::mem::swap(&mut self.entries[i], &mut entry);
                Some(entry.1)
            },
            None => {
                proof {
                    lemma_push(self.entries@, k, v);
                }
                self.entries.push((k, v));
                None
            },
        }
    }

    /// Removes the entry under `k`, keeping the order of the others.
    pub fn remove(&mut self, k: ObjectId) -> (r: Option<V>)
        requires
            old(self).wf(),
        ensures
            final(self).wf(),
            r is None <==> !has_key(old(self)@, k),
            r is None ==> final(self)@ == old(self)@,
            r matches Some(o) ==> o == lookup(old(self)@, k) && final(self)@ == old(self)@.remove(
                key_index(old(self)@, k),
            ),
    {
        match self.position(k) {
            Some(i) => {
                proof {
                    lemma_remove(self.entries@, i as int);
                }
                let old_entry = self.entries.remove(i);
                Some(old_entry.1)
            },
            None => None,
        }
    }

    /// Removes the entry at position `i`, keeping the order of the others.
    pub fn remove_at(&mut self, i: usize) -> (r: (ObjectId, V))
        requires
            old(self).wf(),
            i < old(self)@.len(),
        ensures
            final(self).wf(),
            r == old(self)@[i as int],
            final(self)@ == old(self)@.remove(i as int),
    {
        proof {
            lemma_remove(self.entries@, i as int);
        }
        self.entries.remove(i)
    }
}

} // verus!
