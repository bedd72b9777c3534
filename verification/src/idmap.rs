//! Maps and sets keyed by [`Id`].
//!
//! Both keep each key once and make no promise about order: contracts speak of
//! the mathematical map or set alone.
use vstd::prelude::*;

use crate::ids::{copy_ids, same_id, Id};

verus! {

/// Says which entries of an [`IdMap`] survive [`IdMap::retain`].
pub trait Keep<V: View> {
    /// The entry stays.
    spec fn keeps(&self, key: Id, value: V::V) -> bool;

    /// Decides [`Keep::keeps`].
    fn keep(&self, key: &Id, value: &V) -> (r: bool)
        ensures
            r == self.keeps(*key, value@),
    ;
}

/// Ranks the values of an [`IdMap`] for [`IdMap::least`].
pub trait Rank<V: View> {
    /// The value's rank.
    spec fn rank(&self, value: V::V) -> u64;

    /// Computes [`Rank::rank`].
    fn rank_of(&self, value: &V) -> (r: u64)
        ensures
            r == self.rank(value@),
    ;
}

/// Changes or drops each entry of an [`IdMap`], for [`IdMap::update_each`].
pub trait Update<V: View> {
    /// What becomes of the entry; nothing if it is dropped.
    spec fn updated(&self, key: Id, value: V::V) -> Option<V::V>;

    /// Computes [`Update::updated`].
    fn update(&self, key: &Id, value: V) -> (r: Option<V>)
        ensures
            match r {
                Some(v) => self.updated(*key, value@) == Some(v@),
                None => self.updated(*key, value@) is None,
            },
    ;
}

/// Derives values from some entries of an [`IdMap`], for [`IdMap::derive_map`].
pub trait Derive<V: View, W: View> {
    /// What the entry gives, if anything.
    spec fn derived(&self, key: Id, value: V::V) -> Option<W::V>;

    /// Computes [`Derive::derived`].
    fn derive_from(&self, key: &Id, value: &V) -> (r: Option<W>)
        ensures
            match r {
                Some(w) => self.derived(*key, value@) == Some(w@),
                None => self.derived(*key, value@) is None,
            },
    ;
}

/// A map from ids to `V`. Its view maps each id to the view of its value.
pub struct IdMap<V> {
    keys: Vec<Id>,
    vals: Vec<V>,
}

/// The map that two parallel sequences stand for.
spec fn zipped<V: View>(keys: Seq<Id>, vals: Seq<V>) -> Map<Id, V::V> {
    Map::new(|k: Id| keys.contains(k), |k: Id| vals[keys.index_of(k)]@)
}

/// The entries of `m` that `rule` keeps.
pub open spec fn kept<V: View, K: Keep<V>>(m: Map<Id, V::V>, rule: K) -> Map<Id, V::V> {
    Map::new(|k: Id| m.contains_key(k) && rule.keeps(k, m[k]), |k: Id| m[k])
}

/// The entries of `m` that `rule` does not keep.
pub open spec fn not_kept<V: View, K: Keep<V>>(m: Map<Id, V::V>, rule: K) -> Map<Id, V::V> {
    Map::new(|k: Id| m.contains_key(k) && !rule.keeps(k, m[k]), |k: Id| m[k])
}

/// The entries of `m` as `rule` changes them.
pub open spec fn updated_map<V: View, U: Update<V>>(m: Map<Id, V::V>, rule: U) -> Map<Id, V::V> {
    Map::new(
        |k: Id| m.contains_key(k) && rule.updated(k, m[k]) is Some,
        |k: Id| rule.updated(k, m[k])->0,
    )
}

/// What `rule` derives from the entries of `m`.
pub open spec fn derived_map<V: View, W: View, D: Derive<V, W>>(
    m: Map<Id, V::V>,
    rule: D,
) -> Map<Id, W::V> {
    Map::new(
        |k: Id| m.contains_key(k) && rule.derived(k, m[k]) is Some,
        |k: Id| rule.derived(k, m[k])->0,
    )
}

/// `k` is a key of `m` whose value has the least rank in `m`.
pub open spec fn is_least<V: View, R: Rank<V>>(m: Map<Id, V::V>, by: R, k: Id) -> bool {
    &&& m.contains_key(k)
    &&& forall|j: Id| #[trigger] m.contains_key(j) ==> by.rank(m[k]) <= by.rank(m[j])
}

impl<V: View> View for IdMap<V> {
    type V = Map<Id, V::V>;

    closed spec fn view(&self) -> Map<Id, V::V> {
        zipped(self.keys@, self.vals@)
    }
}

proof fn lemma_index<V: View>(keys: Seq<Id>, vals: Seq<V>, i: int)
    requires
        keys.no_duplicates(),
        keys.len() == vals.len(),
        0 <= i < keys.len(),
    ensures
        zipped(keys, vals).contains_key(keys[i]),
        zipped(keys, vals)[keys[i]] == vals[i]@,
        keys.index_of(keys[i]) == i,
{
    assert(keys.contains(keys[i]));
}

proof fn lemma_dom<V: View>(keys: Seq<Id>, vals: Seq<V>)
    requires
        keys.no_duplicates(),
        keys.len() == vals.len(),
    ensures
        zipped(keys, vals).dom() =~= keys.to_set(),
        zipped(keys, vals).dom().finite(),
        zipped(keys, vals).dom().len() == keys.len(),
{
    keys.unique_seq_to_set();
    assert(zipped(keys, vals).dom() =~= keys.to_set());
}

proof fn lemma_push<V: View>(keys: Seq<Id>, vals: Seq<V>, k: Id, v: V)
    requires
        keys.no_duplicates(),
        keys.len() == vals.len(),
        !keys.contains(k),
    ensures
        keys.push(k).no_duplicates(),
        zipped(keys.push(k), vals.push(v)) =~= zipped(keys, vals).insert(k, v@),
{
    let ks = keys.push(k);
    let vs = vals.push(v);
    assert(ks.no_duplicates());
    assert forall|j: Id| ks.contains(j) <==> (keys.contains(j) || j == k) by {
        if keys.contains(j) {
            let i = keys.index_of(j);
            assert(ks[i] == j);
        }
        if j == k {
            assert(ks[keys.len() as int] == k);
        }
    }
    assert forall|j: Id| #[trigger] keys.contains(j) implies ks.index_of(j) == keys.index_of(j) by {
        let i = keys.index_of(j);
        assert(ks[i] == j);
        assert(ks.contains(j));
    }
    assert(ks.index_of(k) == keys.len());
}

impl<V> IdMap<V> {
    #[verifier::type_invariant]
    spec fn distinct(self) -> bool {
        &&& self.keys@.no_duplicates()
        &&& self.keys@.len() == self.vals@.len()
    }
}

impl<V: View> IdMap<V> {
    /// An empty map.
    pub fn new() -> (m: Self)
        ensures
            m@ == Map::<Id, V::V>::empty(),
    {
        let m = IdMap { keys: Vec::new(), vals: Vec::new() };
        assert(m@ =~= Map::<Id, V::V>::empty());
        m
    }

    /// The number of entries.
    pub fn len(&self) -> (n: usize)
        ensures
            n == self@.dom().len(),
            self@.dom().finite(),
    {
        proof {
            use_type_invariant(self);
            lemma_dom(self.keys@, self.vals@);
        }
        self.keys.len()
    }

    /// True iff there is no entry.
    pub fn is_empty(&self) -> (r: bool)
        ensures
            r == (self@ == Map::<Id, V::V>::empty()),
    {
        proof {
            use_type_invariant(self);
            lemma_dom(self.keys@, self.vals@);
            if self.keys@.len() == 0 {
                assert(self@ =~= Map::<Id, V::V>::empty());
            } else {
                lemma_index(self.keys@, self.vals@, 0);
                assert(self@.contains_key(self.keys@[0]));
            }
        }
        self.keys.len() == 0
    }

    fn find(&self, k: &Id) -> (r: Option<usize>)
        ensures
            match r {
                Some(i) => i < self.keys@.len() && self.keys@[i as int] == *k,
                None => !self.keys@.contains(*k),
            },
    {
        let mut i: usize = 0;
        while i < self.keys.len()
            invariant
                i <= self.keys@.len(),
                forall|j: int| 0 <= j < i ==> self.keys@[j] != *k,
            decreases self.keys@.len() - i,
        {
            if same_id(&self.keys[i], k) {
                return Some(i);
            }
            i = i + 1;
        }
        None
    }

    /// True iff `k` has an entry.
    pub fn contains_key(&self, k: &Id) -> (r: bool)
        ensures
            r == self@.contains_key(*k),
    {
        self.find(k).is_some()
    }

    /// The value at `k`.
    pub fn get(&self, k: &Id) -> (r: Option<&V>)
        ensures
            match r {
                Some(v) => self@.contains_key(*k) && v@ == self@[*k],
                None => !self@.contains_key(*k),
            },
    {
        proof {
            use_type_invariant(self);
        }
        match self.find(k) {
            Some(i) => {
                proof {
                    lemma_index(self.keys@, self.vals@, i as int);
                }
                Some(&self.vals[i])
            },
            None => None,
        }
    }

    /// Every key, each once, in no particular order.
    pub fn keys(&self) -> (r: Vec<Id>)
        ensures
            r@.no_duplicates(),
            r@.to_set() == self@.dom(),
            forall|k: Id| #[trigger] r@.contains(k) <==> self@.contains_key(k),
    {
        proof {
            use_type_invariant(self);
            lemma_dom(self.keys@, self.vals@);
        }
        copy_ids(&self.keys)
    }

    /// Sets the value at `k`.
    pub fn insert(&mut self, k: Id, v: V)
        ensures
            final(self)@ == old(self)@.insert(k, v@),
    {
        proof {
            use_type_invariant(&*self);
        }
        let found = self.find(&k);
        let ghost ks = self.keys@;
        let ghost vs = self.vals@;
        let mut taken = IdMap { keys: Vec::new(), vals: Vec::new() };
        std::mem::swap(self, &mut taken);
        let IdMap { mut keys, mut vals } = taken;
        match found {
            Some(i) => {
                vals[i] = v;
                proof {
                    lemma_index(ks, vs, i as int);
                    assert forall|j: Id| #[trigger] ks.contains(j) && j != k implies ks.index_of(j) != i by {
                        assert(ks[ks.index_of(j)] == j);
                    }
                    assert(zipped(ks, vals@) =~= zipped(ks, vs).insert(k, v@));
                }
            },
            None => {
                proof {
                    lemma_push(ks, vs, k, v);
                }
                keys.push(k);
                vals.push(v);
            },
        }
        *self = IdMap { keys, vals };
    }

    /// Takes the entry at `k` out.
    pub fn remove(&mut self, k: &Id) -> (r: Option<V>)
        ensures
            final(self)@ == old(self)@.remove(*k),
            match r {
                Some(v) => old(self)@.contains_key(*k) && v@ == old(self)@[*k],
                None => !old(self)@.contains_key(*k),
            },
    {
        proof {
            use_type_invariant(&*self);
        }
        let found = self.find(k);
        let ghost ks = self.keys@;
        let ghost vs = self.vals@;
        let mut taken = IdMap { keys: Vec::new(), vals: Vec::new() };
        std::mem::swap(self, &mut taken);
        let IdMap { mut keys, mut vals } = taken;
        let r = match found {
            Some(i) => {
                proof {
                    lemma_index(ks, vs, i as int);
                }
                let _ = keys.remove(i);
                let v = vals.remove(i);
                proof {
                    lemma_removed(ks, vs, i as int);
                    assert(keys@ =~= ks.remove(i as int));
                    assert(vals@ =~= vs.remove(i as int));
                }
                Some(v)
            },
            None => {
                assert(zipped(ks, vs).remove(*k) =~= zipped(ks, vs));
                None
            },
        };
        *self = IdMap { keys, vals };
        r
    }

    /// Drops every entry.
    pub fn clear(&mut self)
        ensures
            final(self)@ == Map::<Id, V::V>::empty(),
    {
        *self = IdMap::new();
    }

    /// Drops the entries that `rule` does not keep.
    pub fn retain<K: Keep<V>>(&mut self, rule: &K)
        ensures
            final(self)@ == kept::<V, K>(old(self)@, *rule),
    {
        let _dropped = self.split_off(rule);
    }

    /// Takes out the entries that `rule` does not keep.
    pub fn split_off<K: Keep<V>>(&mut self, rule: &K) -> (dropped: IdMap<V>)
        ensures
            final(self)@ == kept::<V, K>(old(self)@, *rule),
            dropped@ == not_kept::<V, K>(old(self)@, *rule),
    {
        proof {
            use_type_invariant(&*self);
        }
        let ghost ks = self.keys@;
        let ghost vs = self.vals@;
        let ghost all = zipped(ks, vs);
        let mut taken = IdMap { keys: Vec::new(), vals: Vec::new() };
        std::mem::swap(self, &mut taken);
        let IdMap { mut keys, mut vals } = taken;
        let mut out: IdMap<V> = IdMap::new();
        let mut rest: IdMap<V> = IdMap::new();
        proof {
            assert(out@ =~= tail_where::<V>(ks, vs, |k: Id| rule.keeps(k, all[k]), ks.len() as int));
            assert(rest@ =~= tail_where::<V>(ks, vs, |k: Id| !rule.keeps(k, all[k]), ks.len() as int));
        }
        while keys.len() > 0
            invariant
                keys@.len() == vals@.len(),
                keys@.len() <= ks.len(),
                ks.len() == vs.len(),
                ks.no_duplicates(),
                all == zipped(ks, vs),
                keys@ == ks.subrange(0, keys@.len() as int),
                vals@ == vs.subrange(0, vals@.len() as int),
                out@ == tail_where::<V>(ks, vs, |k: Id| rule.keeps(k, all[k]), keys@.len() as int),
                rest@ == tail_where::<V>(ks, vs, |k: Id| !rule.keeps(k, all[k]), keys@.len() as int),
            decreases keys@.len(),
        {
            let ghost n = keys@.len() as int;
            let popped = keys.pop();
            let value = vals.pop();
            if let (Some(k), Some(v)) = (popped, value) {
                proof {
                    assert(k == ks[n - 1]);
                    assert(v == vs[n - 1]);
                    lemma_index(ks, vs, n - 1);
                    lemma_tail_step::<V>(ks, vs, |k: Id| rule.keeps(k, all[k]), n - 1);
                    lemma_tail_step::<V>(ks, vs, |k: Id| !rule.keeps(k, all[k]), n - 1);
                }
                if rule.keep(&k, &v) {
                    out.insert(k, v);
                } else {
                    rest.insert(k, v);
                }
                assert(keys@ =~= ks.subrange(0, n - 1));
                assert(vals@ =~= vs.subrange(0, n - 1));
            }
        }
        proof {
            lemma_tail_all::<V>(ks, vs, |k: Id| rule.keeps(k, all[k]));
            lemma_tail_all::<V>(ks, vs, |k: Id| !rule.keeps(k, all[k]));
            assert(out@ =~= kept::<V, K>(all, *rule));
            assert(rest@ =~= not_kept::<V, K>(all, *rule));
        }
        *self = out;
        rest
    }

    /// Takes over every entry of `other`; where both have a key, `other`'s value wins.
    pub fn absorb(&mut self, other: IdMap<V>)
        ensures
            final(self)@ == old(self)@.union_prefer_right(other@),
    {
        proof {
            use_type_invariant(&other);
        }
        let ghost before = self@;
        let ghost ks = other.keys@;
        let ghost vs = other.vals@;
        let IdMap { mut keys, mut vals } = other;
        proof {
            assert(before =~= before.union_prefer_right(
                tail_where::<V>(ks, vs, |k: Id| true, ks.len() as int),
            ));
        }
        while keys.len() > 0
            invariant
                keys@.len() == vals@.len(),
                keys@.len() <= ks.len(),
                ks.len() == vs.len(),
                ks.no_duplicates(),
                keys@ == ks.subrange(0, keys@.len() as int),
                vals@ == vs.subrange(0, vals@.len() as int),
                self@ == before.union_prefer_right(
                    tail_where::<V>(ks, vs, |k: Id| true, keys@.len() as int),
                ),
            decreases keys@.len(),
        {
            let ghost n = keys@.len() as int;
            let popped = keys.pop();
            let value = vals.pop();
            if let (Some(k), Some(v)) = (popped, value) {
                proof {
                    assert(k == ks[n - 1]);
                    assert(v == vs[n - 1]);
                    lemma_tail_step::<V>(ks, vs, |k: Id| true, n - 1);
                }
                self.insert(k, v);
                proof {
                    assert(self@ =~= before.union_prefer_right(
                        tail_where::<V>(ks, vs, |k: Id| true, n - 1),
                    ));
                    assert(keys@ =~= ks.subrange(0, n - 1));
                    assert(vals@ =~= vs.subrange(0, n - 1));
                }
            }
        }
        proof {
            lemma_tail_all::<V>(ks, vs, |k: Id| true);
            assert(tail_where::<V>(ks, vs, |k: Id| true, 0) =~= zipped(ks, vs));
        }
    }

    /// Takes over the entries of `other` whose keys are not here yet.
    pub fn fill_in(&mut self, other: IdMap<V>)
        ensures
            final(self)@ == other@.union_prefer_right(old(self)@),
    {
        let mut base = other;
        let mut taken = IdMap::new();
        std::mem::swap(self, &mut taken);
        base.absorb(taken);
        *self = base;
    }

    /// Changes or drops each entry as `rule` says.
    pub fn update_each<U: Update<V>>(&mut self, rule: &U)
        ensures
            final(self)@ == updated_map::<V, U>(old(self)@, *rule),
    {
        proof {
            use_type_invariant(&*self);
        }
        let ghost ks = self.keys@;
        let ghost vs = self.vals@;
        let ghost all = zipped(ks, vs);
        let mut taken = IdMap { keys: Vec::new(), vals: Vec::new() };
        std::mem::swap(self, &mut taken);
        let IdMap { mut keys, mut vals } = taken;
        let mut out: IdMap<V> = IdMap::new();
        proof {
            assert(out@ =~= updated_map::<V, U>(
                tail_where::<V>(ks, vs, |k: Id| true, ks.len() as int),
                *rule,
            ));
        }
        while keys.len() > 0
            invariant
                keys@.len() == vals@.len(),
                keys@.len() <= ks.len(),
                ks.len() == vs.len(),
                ks.no_duplicates(),
                keys@ == ks.subrange(0, keys@.len() as int),
                vals@ == vs.subrange(0, vals@.len() as int),
                out@ == updated_map::<V, U>(
                    tail_where::<V>(ks, vs, |k: Id| true, keys@.len() as int),
                    *rule,
                ),
            decreases keys@.len(),
        {
            let ghost n = keys@.len() as int;
            let popped = keys.pop();
            let value = vals.pop();
            if let (Some(k), Some(v)) = (popped, value) {
                let ghost later = tail_where::<V>(ks, vs, |k: Id| true, n);
                proof {
                    assert(k == ks[n - 1]);
                    assert(v == vs[n - 1]);
                    lemma_tail_step::<V>(ks, vs, |k: Id| true, n - 1);
                    lemma_index(ks, vs, n - 1);
                    assert(!later.contains_key(k));
                }
                let ghost before = v@;
                if let Some(w) = rule.update(&k, v) {
                    out.insert(k, w);
                }
                proof {
                    let now = tail_where::<V>(ks, vs, |k: Id| true, n - 1);
                    assert(now == later.insert(k, before));
                    assert(out@ =~= updated_map::<V, U>(now, *rule));
                    assert(keys@ =~= ks.subrange(0, n - 1));
                    assert(vals@ =~= vs.subrange(0, n - 1));
                }
            }
        }
        proof {
            lemma_tail_all::<V>(ks, vs, |k: Id| true);
            assert(tail_where::<V>(ks, vs, |k: Id| true, 0) =~= all);
        }
        *self = out;
    }

    /// The map of what `rule` derives from the entries.
    pub fn derive_map<W: View, D: Derive<V, W>>(&self, rule: &D) -> (r: IdMap<W>)
        ensures
            r@ == derived_map::<V, W, D>(self@, *rule),
    {
        proof {
            use_type_invariant(self);
        }
        let ghost ks = self.keys@;
        let ghost vs = self.vals@;
        let mut out: IdMap<W> = IdMap::new();
        let mut i: usize = self.keys.len();
        proof {
            assert(out@ =~= derived_map::<V, W, D>(
                tail_where::<V>(ks, vs, |k: Id| true, ks.len() as int),
                *rule,
            ));
        }
        while i > 0
            invariant
                i <= ks.len(),
                ks == self.keys@,
                vs == self.vals@,
                ks.len() == vs.len(),
                ks.no_duplicates(),
                out@ == derived_map::<V, W, D>(
                    tail_where::<V>(ks, vs, |k: Id| true, i as int),
                    *rule,
                ),
            decreases i,
        {
            let ghost n = i as int;
            i = i - 1;
            let k = self.keys[i];
            let ghost later = tail_where::<V>(ks, vs, |k: Id| true, n);
            proof {
                lemma_tail_step::<V>(ks, vs, |k: Id| true, n - 1);
                lemma_index(ks, vs, n - 1);
                assert(!later.contains_key(k));
            }
            if let Some(w) = rule.derive_from(&k, &self.vals[i]) {
                out.insert(k, w);
            }
            proof {
                let now = tail_where::<V>(ks, vs, |k: Id| true, n - 1);
                assert(now == later.insert(k, vs[n - 1]@));
                assert(out@ =~= derived_map::<V, W, D>(now, *rule));
            }
        }
        proof {
            lemma_tail_all::<V>(ks, vs, |k: Id| true);
            assert(tail_where::<V>(ks, vs, |k: Id| true, 0) =~= self@);
        }
        out
    }

    /// A key whose value has the least rank.
    pub fn least<R: Rank<V>>(&self, by: &R) -> (r: Option<Id>)
        ensures
            match r {
                Some(k) => is_least::<V, R>(self@, *by, k),
                None => self@ == Map::<Id, V::V>::empty(),
            },
    {
        proof {
            use_type_invariant(self);
        }
        if self.keys.len() == 0 {
            assert(self@ =~= Map::<Id, V::V>::empty());
            return None;
        }
        let mut best: usize = 0;
        let mut low: u64 = by.rank_of(&self.vals[0]);
        let mut i: usize = 1;
        while i < self.keys.len()
            invariant
                1 <= i <= self.keys@.len(),
                self.keys@.len() == self.vals@.len(),
                best < i,
                low == by.rank(self.vals@[best as int]@),
                forall|j: int| 0 <= j < i ==> low <= by.rank((#[trigger] self.vals@[j])@),
            decreases self.keys@.len() - i,
        {
            let r: u64 = by.rank_of(&self.vals[i]);
            if r < low {
                low = r;
                best = i;
            }
            i = i + 1;
        }
        proof {
            lemma_index(self.keys@, self.vals@, best as int);
            assert forall|j: Id| #[trigger] self@.contains_key(j) implies by.rank(
                self@[self.keys@[best as int]],
            ) <= by.rank(self@[j]) by {
                let x = self.keys@.index_of(j);
                assert(self.keys@[x] == j);
                lemma_index(self.keys@, self.vals@, x);
            }
        }
        Some(self.keys[best])
    }
}

proof fn lemma_removed<V: View>(ks: Seq<Id>, vs: Seq<V>, i: int)
    requires
        ks.no_duplicates(),
        ks.len() == vs.len(),
        0 <= i < ks.len(),
    ensures
        ks.remove(i).no_duplicates(),
        zipped(ks.remove(i), vs.remove(i)) =~= zipped(ks, vs).remove(ks[i]),
{
    let k2 = ks.remove(i);
    let v2 = vs.remove(i);
    assert forall|j: Id| k2.contains(j) <==> (ks.contains(j) && j != ks[i]) by {
        if k2.contains(j) {
            let x = k2.index_of(j);
            if x < i {
                assert(ks[x] == j);
            } else {
                assert(ks[x + 1] == j);
            }
        }
        if ks.contains(j) && j != ks[i] {
            let x = ks.index_of(j);
            if x < i {
                assert(k2[x] == j);
            } else {
                assert(k2[x - 1] == j);
            }
        }
    }
    assert forall|j: Id| #[trigger] k2.contains(j) implies v2[k2.index_of(j)] == vs[ks.index_of(j)] by {
        let x = k2.index_of(j);
        let y = if x < i { x } else { x + 1 };
        assert(ks[y] == j);
        assert(ks.contains(j));
        assert(ks.index_of(j) == y);
    }
}

/// The entries from position `from` on whose keys satisfy `p`.
spec fn tail_where<V: View>(ks: Seq<Id>, vs: Seq<V>, p: spec_fn(Id) -> bool, from: int) -> Map<Id, V::V> {
    Map::new(
        |k: Id| ks.contains(k) && ks.index_of(k) >= from && p(k),
        |k: Id| zipped(ks, vs)[k],
    )
}

proof fn lemma_tail_step<V: View>(ks: Seq<Id>, vs: Seq<V>, p: spec_fn(Id) -> bool, at: int)
    requires
        ks.no_duplicates(),
        ks.len() == vs.len(),
        0 <= at < ks.len(),
    ensures
        p(ks[at]) ==> tail_where::<V>(ks, vs, p, at) =~= tail_where::<V>(ks, vs, p, at + 1).insert(
            ks[at],
            vs[at]@,
        ),
        !p(ks[at]) ==> tail_where::<V>(ks, vs, p, at) =~= tail_where::<V>(ks, vs, p, at + 1),
{
    lemma_index(ks, vs, at);
    assert forall|k: Id| #[trigger] ks.contains(k) && ks.index_of(k) == at implies k == ks[at] by {}
}

proof fn lemma_tail_all<V: View>(ks: Seq<Id>, vs: Seq<V>, p: spec_fn(Id) -> bool)
    requires
        ks.no_duplicates(),
        ks.len() == vs.len(),
    ensures
        forall|k: Id| #[trigger]
            tail_where::<V>(ks, vs, p, 0).contains_key(k) <==> (zipped(ks, vs).contains_key(k) && p(k)),
{
    assert forall|k: Id| #[trigger]
        tail_where::<V>(ks, vs, p, 0).contains_key(k) <==> (zipped(ks, vs).contains_key(k) && p(k)) by {
        if ks.contains(k) {
            assert(0 <= ks.index_of(k) < ks.len());
        }
    }
}

/// A set of ids.
pub struct IdSet {
    items: Vec<Id>,
}

impl View for IdSet {
    type V = Set<Id>;

    closed spec fn view(&self) -> Set<Id> {
        self.items@.to_set()
    }
}

impl IdSet {
    #[verifier::type_invariant]
    spec fn distinct(self) -> bool {
        self.items@.no_duplicates()
    }

    /// An empty set.
    pub fn new() -> (s: Self)
        ensures
            s@ == Set::<Id>::empty(),
    {
        let s = IdSet { items: Vec::new() };
        assert(s@ =~= Set::<Id>::empty());
        s
    }

    /// The number of members.
    pub fn len(&self) -> (n: usize)
        ensures
            n == self@.len(),
            self@.finite(),
    {
        proof {
            use_type_invariant(self);
            self.items@.unique_seq_to_set();
        }
        self.items.len()
    }

    /// True iff the set has no member.
    pub fn is_empty(&self) -> (r: bool)
        ensures
            r == (self@ == Set::<Id>::empty()),
    {
        proof {
            if self.items@.len() == 0 {
                assert(self@ =~= Set::<Id>::empty());
            } else {
                assert(self.items@.contains(self.items@[0]));
                assert(self@.contains(self.items@[0]));
            }
        }
        self.items.len() == 0
    }

    fn find(&self, k: &Id) -> (r: Option<usize>)
        ensures
            match r {
                Some(i) => i < self.items@.len() && self.items@[i as int] == *k,
                None => !self.items@.contains(*k),
            },
    {
        let mut i: usize = 0;
        while i < self.items.len()
            invariant
                i <= self.items@.len(),
                forall|j: int| 0 <= j < i ==> self.items@[j] != *k,
            decreases self.items@.len() - i,
        {
            if same_id(&self.items[i], k) {
                return Some(i);
            }
            i = i + 1;
        }
        None
    }

    /// True iff `k` is a member.
    pub fn contains(&self, k: &Id) -> (r: bool)
        ensures
            r == self@.contains(*k),
    {
        self.find(k).is_some()
    }

    /// Every member, each once, in no particular order.
    pub fn to_vec(&self) -> (r: Vec<Id>)
        ensures
            r@.no_duplicates(),
            r@.to_set() == self@,
    {
        proof {
            use_type_invariant(self);
        }
        copy_ids(&self.items)
    }

    /// Adds `k`; true iff it was not a member.
    pub fn insert(&mut self, k: Id) -> (fresh: bool)
        ensures
            final(self)@ == old(self)@.insert(k),
            fresh == !old(self)@.contains(k),
    {
        proof {
            use_type_invariant(&*self);
        }
        if self.find(&k).is_some() {
            assert(self@.insert(k) =~= self@);
            return false;
        }
        let ghost before = self.items@;
        let mut taken = IdSet { items: Vec::new() };
        std::mem::swap(self, &mut taken);
        let IdSet { mut items } = taken;
        items.push(k);
        proof {
            assert(items@.no_duplicates());
            assert forall|j: Id| items@.contains(j) <==> (before.contains(j) || j == k) by {
                if before.contains(j) {
                    assert(items@[before.index_of(j)] == j);
                }
                assert(items@[before.len() as int] == k);
            }
            assert(items@.to_set() =~= before.to_set().insert(k));
        }
        *self = IdSet { items };
        true
    }

    /// Takes `k` out; true iff it was a member.
    pub fn remove(&mut self, k: &Id) -> (had: bool)
        ensures
            final(self)@ == old(self)@.remove(*k),
            had == old(self)@.contains(*k),
    {
        proof {
            use_type_invariant(&*self);
        }
        let found = self.find(k);
        let ghost before = self.items@;
        let mut taken = IdSet { items: Vec::new() };
        std::mem::swap(self, &mut taken);
        let IdSet { mut items } = taken;
        let had = match found {
            Some(i) => {
                let _ = items.remove(i);
                proof {
                    let ks = before;
                    let k2 = items@;
                    assert(k2 =~= ks.remove(i as int));
                    assert forall|j: Id| k2.contains(j) <==> (ks.contains(j) && j != *k) by {
                        if k2.contains(j) {
                            let x = k2.index_of(j);
                            if x < i {
                                assert(ks[x] == j);
                            } else {
                                assert(ks[x + 1] == j);
                            }
                        }
                        if ks.contains(j) && j != *k {
                            let x = ks.index_of(j);
                            if x < i {
                                assert(k2[x] == j);
                            } else {
                                assert(k2[x - 1] == j);
                            }
                        }
                    }
                    assert(k2.to_set() =~= ks.to_set().remove(*k));
                    assert(ks.contains(ks[i as int]));
                }
                true
            },
            None => {
                assert(before.to_set().remove(*k) =~= before.to_set());
                false
            },
        };
        *self = IdSet { items };
        had
    }
}

} // verus!
