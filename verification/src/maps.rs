//! Association maps over addresses, backed by vectors with distinct keys.
//!
//! The harness and the classifiers key their state by account address (or
//! by a token/owner address pair). A plain vector of pairs with a
//! distinct-key invariant gives these maps a fully specified `Map` view.

use vstd::prelude::*;

use crate::types::Address;

verus! {

/// A token/owner address pair, the key of the balance ledger.
#[derive(Clone, Copy, Debug, PartialEq, Eq, Structural)]
pub struct AddrPair {
    pub token: Address,
    pub owner: Address,
}

/// The finite map a sequence of key/value pairs denotes; later entries win.
pub open spec fn map_of_pairs<V>(s: Seq<(Address, V)>) -> Map<Address, V>
    decreases s.len(),
{
    if s.len() == 0 {
        Map::empty()
    } else {
        map_of_pairs(s.drop_last()).insert(s.last().0, s.last().1)
    }
}

pub open spec fn distinct_keys<V>(s: Seq<(Address, V)>) -> bool {
    forall|i: int, j: int| 0 <= i < j < s.len() ==> s[i].0 != s[j].0
}

proof fn lemma_map_of_pairs_contains<V>(s: Seq<(Address, V)>, a: Address)
    ensures
        map_of_pairs(s).contains_key(a) <==> exists|i: int| 0 <= i < s.len() && s[i].0 == a,
    decreases s.len(),
{
    if s.len() > 0 {
        lemma_map_of_pairs_contains(s.drop_last(), a);
        if map_of_pairs(s).contains_key(a) {
            if a == s.last().0 {
                assert(s[s.len() - 1].0 == a);
            } else {
                let i = choose|i: int| 0 <= i < s.drop_last().len() && s.drop_last()[i].0 == a;
                assert(s[i].0 == a);
            }
        }
        if exists|i: int| 0 <= i < s.len() && s[i].0 == a {
            let i = choose|i: int| 0 <= i < s.len() && s[i].0 == a;
            if i < s.len() - 1 {
                assert(s.drop_last()[i].0 == a);
            }
        }
    }
}

proof fn lemma_map_of_pairs_get<V>(s: Seq<(Address, V)>, i: int)
    requires
        distinct_keys(s),
        0 <= i < s.len(),
    ensures
        map_of_pairs(s).contains_key(s[i].0),
        map_of_pairs(s)[s[i].0] == s[i].1,
    decreases s.len(),
{
    if i == s.len() - 1 {
    } else {
        assert(s.drop_last()[i] == s[i]);
        lemma_map_of_pairs_get(s.drop_last(), i);
        assert(s[i].0 != s.last().0);
    }
}

proof fn lemma_map_of_pairs_push<V>(s: Seq<(Address, V)>, a: Address, v: V)
    ensures
        map_of_pairs(s.push((a, v))) == map_of_pairs(s).insert(a, v),
{
    assert(s.push((a, v)).drop_last() =~= s);
    assert(s.push((a, v)).last() == (a, v));
}

proof fn lemma_map_of_pairs_update<V>(s: Seq<(Address, V)>, i: int, a: Address, v: V)
    requires
        distinct_keys(s),
        0 <= i < s.len(),
        s[i].0 == a,
    ensures
        map_of_pairs(s.update(i, (a, v))) =~= map_of_pairs(s).insert(a, v),
    decreases s.len(),
{
    let t = s.update(i, (a, v));
    if i == s.len() - 1 {
        assert(t.drop_last() =~= s.drop_last());
        assert(t.last() == (a, v));
        assert(map_of_pairs(t) == map_of_pairs(s.drop_last()).insert(a, v));
        assert(map_of_pairs(s.drop_last()).insert(s.last().0, s.last().1).insert(a, v)
            =~= map_of_pairs(s.drop_last()).insert(a, v));
    } else {
        assert(t.drop_last() =~= s.drop_last().update(i, (a, v)));
        assert(t.last() == s.last());
        assert(s.drop_last()[i] == s[i]);
        lemma_map_of_pairs_update(s.drop_last(), i, a, v);
        assert(s[i].0 != s.last().0);
        assert(map_of_pairs(s.drop_last()).insert(a, v).insert(s.last().0, s.last().1)
            =~= map_of_pairs(s.drop_last()).insert(s.last().0, s.last().1).insert(a, v));
    }
}

/// A map from addresses to `V`, with a `Map` view.
#[derive(Clone, Debug)]
pub struct AddrMap<V> {
    entries: Vec<(Address, V)>,
}

impl<V> View for AddrMap<V> {
    type V = Map<Address, V>;

    closed spec fn view(&self) -> Map<Address, V> {
        map_of_pairs(self.entries@)
    }
}

impl<V> AddrMap<V> {
    /// The key/value pairs in insertion order.
    pub closed spec fn pairs(&self) -> Seq<(Address, V)> {
        self.entries@
    }

    pub closed spec fn wf(&self) -> bool {
        distinct_keys(self.entries@)
    }

    /// Every stored pair agrees with the map view.
    pub proof fn lemma_pairs_agree(&self, i: int)
        requires
            self.wf(),
            0 <= i < self.pairs().len(),
        ensures
            self@.contains_key(self.pairs()[i].0),
            self@[self.pairs()[i].0] == self.pairs()[i].1,
    {
        lemma_map_of_pairs_get(self.entries@, i);
    }

    /// Every key of the map view is stored in some pair.
    pub proof fn lemma_key_has_pair(&self, a: Address)
        requires
            self@.contains_key(a),
        ensures
            exists|i: int| 0 <= i < self.pairs().len() && self.pairs()[i].0 == a,
    {
        lemma_map_of_pairs_contains(self.entries@, a);
        let i = choose|i: int| 0 <= i < self.entries@.len() && self.entries@[i].0 == a;
        assert(self.pairs()[i].0 == a);
    }

    pub fn new() -> (r: Self)
        ensures
            r@ == Map::<Address, V>::empty(),
            r.pairs() == Seq::<(Address, V)>::empty(),
            r.wf(),
    {
        AddrMap { entries: Vec::new() }
    }

    pub fn num_entries(&self) -> (n: usize)
        ensures
            n == self.pairs().len(),
    {
        self.entries.len()
    }

    pub fn pair_at(&self, i: usize) -> (r: &(Address, V))
        requires
            i < self.pairs().len(),
        ensures
            *r == self.pairs()[i as int],
    {
        &self.entries[i]
    }

    pub fn get(&self, a: &Address) -> (r: Option<&V>)
        requires
            self.wf(),
        ensures
            match r {
                Some(v) => self@.contains_key(*a) && *v == self@[*a],
                None => !self@.contains_key(*a),
            },
    {
        let n = self.entries.len();
        let mut j: usize = 0;
        while j < n
            invariant
                n == self.entries@.len(),
                j <= n,
                self.wf(),
                forall|k: int| 0 <= k < j ==> self.entries@[k].0 != *a,
            decreases n - j,
        {
            if self.entries[j].0 == *a {
                proof {
                    lemma_map_of_pairs_get(self.entries@, j as int);
                }
                return Some(&self.entries[j].1);
            }
            j = j + 1;
        }
        proof {
            lemma_map_of_pairs_contains(self.entries@, *a);
        }
        None
    }

    pub fn contains_key(&self, a: &Address) -> (r: bool)
        requires
            self.wf(),
        ensures
            r == self@.contains_key(*a),
    {
        self.get(a).is_some()
    }

    pub fn insert(&mut self, a: Address, v: V)
        requires
            old(self).wf(),
        ensures
            final(self).wf(),
            final(self)@ == old(self)@.insert(a, v),
    {
        let n = self.entries.len();
        let mut j: usize = 0;
        while j < n
            invariant
                n == self.entries@.len(),
                j <= n,
                self.wf(),
                self.entries@ == old(self).entries@,
                forall|k: int| 0 <= k < j ==> self.entries@[k].0 != a,
            decreases n - j,
        {
            if self.entries[j].0 == a {
                let ghost s0 = self.entries@;
                let e = &mut self.entries[j];
                *e = (a, v);
                proof {
                    lemma_map_of_pairs_update(s0, j as int, a, v);
                    assert(distinct_keys(self.entries@));
                }
                return;
            }
            j = j + 1;
        }
        let ghost s0 = self.entries@;
        self.entries.push((a, v));
        proof {
            lemma_map_of_pairs_push(s0, a, v);
            assert forall|i: int, k: int| 0 <= i < k < self.entries@.len() implies self.entries@[i].0
                != self.entries@[k].0 by {
                if k == self.entries@.len() - 1 {
                    assert(self.entries@[i].0 != a);
                }
            }
        }
    }
}

/// The finite map a sequence of pair-keyed entries denotes; later entries win.
pub open spec fn map_of_kv<V>(s: Seq<(AddrPair, V)>) -> Map<AddrPair, V>
    decreases s.len(),
{
    if s.len() == 0 {
        Map::empty()
    } else {
        map_of_kv(s.drop_last()).insert(s.last().0, s.last().1)
    }
}

pub open spec fn distinct_kv_keys<V>(s: Seq<(AddrPair, V)>) -> bool {
    forall|i: int, j: int| 0 <= i < j < s.len() ==> s[i].0 != s[j].0
}

proof fn lemma_map_of_kv_contains<V>(s: Seq<(AddrPair, V)>, a: AddrPair)
    ensures
        map_of_kv(s).contains_key(a) <==> exists|i: int| 0 <= i < s.len() && s[i].0 == a,
    decreases s.len(),
{
    if s.len() > 0 {
        lemma_map_of_kv_contains(s.drop_last(), a);
        if map_of_kv(s).contains_key(a) {
            if a == s.last().0 {
                assert(s[s.len() - 1].0 == a);
            } else {
                let i = choose|i: int| 0 <= i < s.drop_last().len() && s.drop_last()[i].0 == a;
                assert(s[i].0 == a);
            }
        }
        if exists|i: int| 0 <= i < s.len() && s[i].0 == a {
            let i = choose|i: int| 0 <= i < s.len() && s[i].0 == a;
            if i < s.len() - 1 {
                assert(s.drop_last()[i].0 == a);
            }
        }
    }
}

proof fn lemma_map_of_kv_get<V>(s: Seq<(AddrPair, V)>, i: int)
    requires
        distinct_kv_keys(s),
        0 <= i < s.len(),
    ensures
        map_of_kv(s).contains_key(s[i].0),
        map_of_kv(s)[s[i].0] == s[i].1,
    decreases s.len(),
{
    if i == s.len() - 1 {
    } else {
        assert(s.drop_last()[i] == s[i]);
        lemma_map_of_kv_get(s.drop_last(), i);
        assert(s[i].0 != s.last().0);
    }
}

proof fn lemma_map_of_kv_push<V>(s: Seq<(AddrPair, V)>, a: AddrPair, v: V)
    ensures
        map_of_kv(s.push((a, v))) == map_of_kv(s).insert(a, v),
{
    assert(s.push((a, v)).drop_last() =~= s);
    assert(s.push((a, v)).last() == (a, v));
}

proof fn lemma_map_of_kv_update<V>(s: Seq<(AddrPair, V)>, i: int, a: AddrPair, v: V)
    requires
        distinct_kv_keys(s),
        0 <= i < s.len(),
        s[i].0 == a,
    ensures
        map_of_kv(s.update(i, (a, v))) =~= map_of_kv(s).insert(a, v),
    decreases s.len(),
{
    let t = s.update(i, (a, v));
    if i == s.len() - 1 {
        assert(t.drop_last() =~= s.drop_last());
        assert(t.last() == (a, v));
        assert(map_of_kv(t) == map_of_kv(s.drop_last()).insert(a, v));
        assert(map_of_kv(s.drop_last()).insert(s.last().0, s.last().1).insert(a, v)
            =~= map_of_kv(s.drop_last()).insert(a, v));
    } else {
        assert(t.drop_last() =~= s.drop_last().update(i, (a, v)));
        assert(t.last() == s.last());
        assert(s.drop_last()[i] == s[i]);
        lemma_map_of_kv_update(s.drop_last(), i, a, v);
        assert(s[i].0 != s.last().0);
        assert(map_of_kv(s.drop_last()).insert(a, v).insert(s.last().0, s.last().1)
            =~= map_of_kv(s.drop_last()).insert(s.last().0, s.last().1).insert(a, v));
    }
}

/// A map from token/owner pairs to `V`, with a `Map` view.
#[derive(Clone, Debug)]
pub struct PairMap<V> {
    entries: Vec<(AddrPair, V)>,
}

impl<V> View for PairMap<V> {
    type V = Map<AddrPair, V>;

    closed spec fn view(&self) -> Map<AddrPair, V> {
        map_of_kv(self.entries@)
    }
}

impl<V> PairMap<V> {
    /// The key/value pairs in insertion order.
    pub closed spec fn pairs(&self) -> Seq<(AddrPair, V)> {
        self.entries@
    }

    pub closed spec fn wf(&self) -> bool {
        distinct_kv_keys(self.entries@)
    }

    /// Every stored pair agrees with the map view.
    pub proof fn lemma_pairs_agree(&self, i: int)
        requires
            self.wf(),
            0 <= i < self.pairs().len(),
        ensures
            self@.contains_key(self.pairs()[i].0),
            self@[self.pairs()[i].0] == self.pairs()[i].1,
    {
        lemma_map_of_kv_get(self.entries@, i);
    }

    /// Every key of the map view is stored in some pair.
    pub proof fn lemma_key_has_pair(&self, a: AddrPair)
        requires
            self@.contains_key(a),
        ensures
            exists|i: int| 0 <= i < self.pairs().len() && self.pairs()[i].0 == a,
    {
        lemma_map_of_kv_contains(self.entries@, a);
        let i = choose|i: int| 0 <= i < self.entries@.len() && self.entries@[i].0 == a;
        assert(self.pairs()[i].0 == a);
    }

    pub fn new() -> (r: Self)
        ensures
            r@ == Map::<AddrPair, V>::empty(),
            r.pairs() == Seq::<(AddrPair, V)>::empty(),
            r.wf(),
    {
        PairMap { entries: Vec::new() }
    }

    pub fn num_entries(&self) -> (n: usize)
        ensures
            n == self.pairs().len(),
    {
        self.entries.len()
    }

    pub fn pair_at(&self, i: usize) -> (r: &(AddrPair, V))
        requires
            i < self.pairs().len(),
        ensures
            *r == self.pairs()[i as int],
    {
        &self.entries[i]
    }

    pub fn get(&self, a: &AddrPair) -> (r: Option<&V>)
        requires
            self.wf(),
        ensures
            match r {
                Some(v) => self@.contains_key(*a) && *v == self@[*a],
                None => !self@.contains_key(*a),
            },
    {
        let n = self.entries.len();
        let mut j: usize = 0;
        while j < n
            invariant
                n == self.entries@.len(),
                j <= n,
                self.wf(),
                forall|k: int| 0 <= k < j ==> self.entries@[k].0 != *a,
            decreases n - j,
        {
            if self.entries[j].0 == *a {
                proof {
                    lemma_map_of_kv_get(self.entries@, j as int);
                }
                return Some(&self.entries[j].1);
            }
            j = j + 1;
        }
        proof {
            lemma_map_of_kv_contains(self.entries@, *a);
        }
        None
    }

    pub fn contains_key(&self, a: &AddrPair) -> (r: bool)
        requires
            self.wf(),
        ensures
            r == self@.contains_key(*a),
    {
        self.get(a).is_some()
    }

    pub fn insert(&mut self, a: AddrPair, v: V)
        requires
            old(self).wf(),
        ensures
            final(self).wf(),
            final(self)@ == old(self)@.insert(a, v),
    {
        let n = self.entries.len();
        let mut j: usize = 0;
        while j < n
            invariant
                n == self.entries@.len(),
                j <= n,
                self.wf(),
                self.entries@ == old(self).entries@,
                forall|k: int| 0 <= k < j ==> self.entries@[k].0 != a,
            decreases n - j,
        {
            if self.entries[j].0 == a {
                let ghost s0 = self.entries@;
                let e = &mut self.entries[j];
                *e = (a, v);
                proof {
                    lemma_map_of_kv_update(s0, j as int, a, v);
                    assert(distinct_kv_keys(self.entries@));
                }
                return;
            }
            j = j + 1;
        }
        let ghost s0 = self.entries@;
        self.entries.push((a, v));
        proof {
            lemma_map_of_kv_push(s0, a, v);
            assert forall|i: int, k: int| 0 <= i < k < self.entries@.len() implies self.entries@[i].0
                != self.entries@[k].0 by {
                if k == self.entries@.len() - 1 {
                    assert(self.entries@[i].0 != a);
                }
            }
        }
    }
}


impl<V: Copy> AddrMap<V> {
    /// A detached copy with the same entries; the snapshot primitive.
    pub fn dup(&self) -> (r: Self)
        ensures
            r.pairs() == self.pairs(),
            r@ == self@,
            r.wf() == self.wf(),
    {
        let mut entries: Vec<(Address, V)> = Vec::new();
        let n = self.entries.len();
        let mut i: usize = 0;
        while i < n
            invariant
                i <= n,
                n == self.entries@.len(),
                entries@ == self.entries@.take(i as int),
            decreases n - i,
        {
            entries.push(self.entries[i]);
            proof {
                assert(entries@ =~= self.entries@.take(i + 1));
            }
            i = i + 1;
        }
        proof {
            assert(self.entries@.take(n as int) =~= self.entries@);
        }
        AddrMap { entries }
    }
}

impl<V: Copy> PairMap<V> {
    /// A detached copy with the same entries; the snapshot primitive.
    pub fn dup(&self) -> (r: Self)
        ensures
            r.pairs() == self.pairs(),
            r@ == self@,
            r.wf() == self.wf(),
    {
        let mut entries: Vec<(AddrPair, V)> = Vec::new();
        let n = self.entries.len();
        let mut i: usize = 0;
        while i < n
            invariant
                i <= n,
                n == self.entries@.len(),
                entries@ == self.entries@.take(i as int),
            decreases n - i,
        {
            entries.push(self.entries[i]);
            proof {
                assert(entries@ =~= self.entries@.take(i + 1));
            }
            i = i + 1;
        }
        proof {
            assert(self.entries@.take(n as int) =~= self.entries@);
        }
        PairMap { entries }
    }
}

} // verus!
