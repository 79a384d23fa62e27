//! Ordered maps whose keys are small copyable types of this crate.

use std::collections::BTreeMap;
use vstd::laws_cmp::obeys_cmp;
use vstd::prelude::*;
use vstd::std_specs::btree::increasing_seq;
use vstd::std_specs::cmp::OrdSpec;
use vstd::std_specs::iter::IteratorSpec;

verus! {

/// A key that is in one-to-one correspondence with an integer or a tuple of integers, by which it
/// is ordered.
pub trait MapKey: Copy + Sized {
    type Raw: Ord + std::fmt::Debug;

    /// The integers that the key stands for.
    spec fn raw_spec(self) -> Self::Raw;

    /// The key that the integers stand for.
    spec fn from_raw_spec(raw: Self::Raw) -> Self;

    /// Whether `self` comes strictly before `other`.
    spec fn before(self, other: Self) -> bool;

    /// The correspondence is one-to-one, and `before` is the strict total order of the integers.
    proof fn raw_is_an_ordered_copy(a: Self, b: Self, c: Self)
        ensures
            obeys_cmp::<Self::Raw>(),
            Self::from_raw_spec(a.raw_spec()) == a,
            a.raw_spec().cmp_spec(&b.raw_spec()) is Less <==> a.before(b),
            !a.before(a),
            a.before(b) && b.before(c) ==> a.before(c),
            a.before(b) || a == b || b.before(a),
    ;

    /// Every tuple of integers is the copy of its key.
    proof fn every_raw_is_a_copy(raw: Self::Raw)
        ensures
            Self::from_raw_spec(raw).raw_spec() == raw,
    ;

    fn raw(&self) -> (r: Self::Raw)
        ensures
            r == self.raw_spec(),
    ;

    fn from_raw(raw: &Self::Raw) -> (r: Self)
        ensures
            r == Self::from_raw_spec(*raw),
    ;
}

/// Every key comes strictly before all later ones.
pub open spec fn ascending<K: MapKey>(keys: Seq<K>) -> bool {
    forall|i: int, j: int|
        #![trigger keys[i], keys[j]]
        0 <= i < j < keys.len() ==> keys[i].before(keys[j])
}

/// The first components of a sequence of pairs.
pub open spec fn firsts<K, V>(entries: Seq<(K, V)>) -> Seq<K> {
    Seq::new(entries.len(), |i: int| entries[i].0)
}

/// `key` stands at a position of `keys` before `end`.
pub open spec fn occurs_before<K>(keys: Seq<K>, end: int, key: K) -> bool {
    exists|i: int| 0 <= i < end && #[trigger] keys[i] == key
}

/// The keys before position `end` are pairwise different.
pub open spec fn distinct_up_to<K>(keys: Seq<K>, end: int) -> bool {
    forall|i: int, j: int|
        #![trigger keys[i], keys[j]]
        0 <= i < j < end ==> keys[i] != keys[j]
}

/// `at` is the first position whose key repeats an earlier one.
pub open spec fn first_repeat<K>(keys: Seq<K>, at: int) -> bool {
    &&& 0 <= at < keys.len()
    &&& distinct_up_to(keys, at)
    &&& occurs_before(keys, at, keys[at])
}

/// The map that a sequence of pairs with distinct keys stands for.
pub open spec fn pairs_map<K, V>(entries: Seq<(K, V)>) -> Map<K, V>
    decreases entries.len(),
{
    if entries.len() == 0 {
        Map::empty()
    } else {
        pairs_map(entries.drop_last()).insert(entries.last().0, entries.last().1)
    }
}

/// The keys of the map of a sequence of pairs are the first components.
pub proof fn pairs_map_holds_the_pairs<K, V>(entries: Seq<(K, V)>)
    ensures
        forall|k: K|
            pairs_map(entries).contains_key(k) <==> #[trigger] occurs_before(
                firsts(entries),
                entries.len() as int,
                k,
            ),
        pairs_map(entries).dom() == firsts(entries).to_set(),
        distinct_up_to(firsts(entries), entries.len() as int) ==> forall|i: int|
            0 <= i < entries.len() ==> pairs_map(entries)[(#[trigger] entries[i]).0]
                == entries[i].1,
    decreases entries.len(),
{
    let keys = firsts(entries);
    if entries.len() > 0 {
        let rest = entries.drop_last();
        pairs_map_holds_the_pairs(rest);
        let n = rest.len() as int;
        assert forall|k: K|
            pairs_map(entries).contains_key(k) <==> #[trigger] occurs_before(
                keys,
                entries.len() as int,
                k,
            ) by {
            if occurs_before(firsts(rest), n, k) {
                let i = choose|i: int| 0 <= i < n && #[trigger] firsts(rest)[i] == k;
                assert(keys[i] == k);
            }
            if occurs_before(keys, entries.len() as int, k) {
                let i = choose|i: int| 0 <= i < entries.len() && #[trigger] keys[i] == k;
                if i < n {
                    assert(firsts(rest)[i] == k);
                }
            }
            assert(keys[n] == entries.last().0);
            assert(pairs_map(entries).contains_key(k) <==> pairs_map(rest).contains_key(k) || k
                == entries.last().0);
            assert(pairs_map(rest).contains_key(k) <==> occurs_before(firsts(rest), n, k));
        }
        if distinct_up_to(keys, entries.len() as int) {
            assert forall|i: int| 0 <= i < entries.len() implies pairs_map(entries)[(
            #[trigger] entries[i]).0] == entries[i].1 by {
                if i < n {
                    assert(keys[i] != keys[n]);
                    assert(rest[i] == entries[i]);
                    assert(distinct_up_to(firsts(rest), n)) by {
                        assert forall|x: int, y: int|
                            #![trigger firsts(rest)[x], firsts(rest)[y]]
                            0 <= x < y < n implies firsts(rest)[x] != firsts(rest)[y] by {
                            assert(keys[x] != keys[y]);
                        }
                    }
                }
            }
        }
    }
    assert forall|k: K| pairs_map(entries).dom().contains(k) <==> keys.to_set().contains(k) by {
        assert(pairs_map(entries).contains_key(k) <==> occurs_before(
            keys,
            entries.len() as int,
            k,
        ));
    }
    assert(pairs_map(entries).dom() =~= keys.to_set());
}

/// Ascending keys are pairwise different.
pub proof fn ascending_keys_are_distinct<K: MapKey>(keys: Seq<K>)
    requires
        ascending(keys),
    ensures
        keys.no_duplicates(),
        distinct_up_to(keys, keys.len() as int),
{
    assert forall|i: int, j: int| 0 <= i < j < keys.len() implies keys[i] != keys[j] by {
        K::raw_is_an_ordered_copy(keys[i], keys[j], keys[i]);
    }
}

/// Two ascending sequences over the same keys are equal.
pub proof fn ascending_sequences_with_equal_keys_are_equal<K: MapKey>(a: Seq<K>, b: Seq<K>)
    requires
        ascending(a),
        ascending(b),
        a.to_set() == b.to_set(),
    ensures
        a == b,
    decreases a.len(),
{
    assert forall|k: K| a.contains(k) <==> b.contains(k) by {
        assert(a.contains(k) <==> a.to_set().contains(k));
        assert(b.contains(k) <==> b.to_set().contains(k));
    }
    if a.len() == 0 {
        if b.len() > 0 {
            assert(b.contains(b[0]));
        }
        assert(a =~= b);
    } else {
        assert(a.contains(a[0]));
        assert(b.contains(a[0]));
        assert(b.contains(b[0]));
        assert(a.contains(b[0]));
        let i = choose|i: int| 0 <= i < b.len() && b[i] == a[0];
        let j = choose|j: int| 0 <= j < a.len() && a[j] == b[0];
        K::raw_is_an_ordered_copy(a[0], b[0], a[0]);
        assert(a[0] == b[0]);
        let ta = a.subrange(1, a.len() as int);
        let tb = b.subrange(1, b.len() as int);
        assert forall|k: K| ta.to_set().contains(k) <==> tb.to_set().contains(k) by {
            if ta.contains(k) {
                let x = choose|x: int| 0 <= x < ta.len() && ta[x] == k;
                assert(a[x + 1] == k);
                assert(a.contains(k));
                let y = choose|y: int| 0 <= y < b.len() && b[y] == k;
                K::raw_is_an_ordered_copy(a[0], a[x + 1], a[0]);
                assert(y != 0);
                assert(tb[y - 1] == k);
            }
            if tb.contains(k) {
                let x = choose|x: int| 0 <= x < tb.len() && tb[x] == k;
                assert(b[x + 1] == k);
                assert(b.contains(k));
                let y = choose|y: int| 0 <= y < a.len() && a[y] == k;
                K::raw_is_an_ordered_copy(b[0], b[x + 1], b[0]);
                assert(y != 0);
                assert(ta[y - 1] == k);
            }
        }
        assert(ta.to_set() =~= tb.to_set());
        ascending_sequences_with_equal_keys_are_equal(ta, tb);
        assert(a =~= seq![a[0]] + ta);
        assert(b =~= seq![b[0]] + tb);
    }
}

/// Some keys in ascending order.
pub open spec fn key_order<K: MapKey>(keys: Set<K>) -> Seq<K> {
    choose|order: Seq<K>| ascending(order) && order.to_set() == keys
}

/// There is one ascending order of some keys.
pub proof fn key_order_is_unique<K: MapKey>(order: Seq<K>)
    requires
        ascending(order),
    ensures
        key_order(order.to_set()) == order,
{
    let other = key_order(order.to_set());
    ascending_sequences_with_equal_keys_are_equal(order, other);
}

/// A map in ascending key order.
#[derive(Debug, PartialEq)]
pub struct KeyMap<K: MapKey, V> {
    tree: BTreeMap<K::Raw, V>,
}

impl<K: MapKey, V> View for KeyMap<K, V> {
    type V = Map<K, V>;

    closed spec fn view(&self) -> Map<K, V> {
        Map::new(|k: K| self.tree@.contains_key(k.raw_spec()), |k: K| self.tree@[k.raw_spec()])
    }
}

impl<K: MapKey, V> KeyMap<K, V> {
    spec fn from_raws(raws: Seq<K::Raw>) -> Seq<K> {
        Seq::new(raws.len(), |i: int| K::from_raw_spec(raws[i]))
    }

    /// An empty map.
    pub fn new() -> (r: Self)
        ensures
            r@ == Map::<K, V>::empty(),
    {
        let r = KeyMap { tree: BTreeMap::new() };
        assert(r@ =~= Map::<K, V>::empty());
        r
    }

    pub fn contains_key(&self, key: &K) -> (r: bool)
        ensures
            r == self@.contains_key(*key),
    {
        proof {
            K::raw_is_an_ordered_copy(*key, *key, *key);
        }
        self.tree.contains_key(&key.raw())
    }

    pub fn get(&self, key: &K) -> (r: Option<&V>)
        ensures
            r is Some <==> self@.contains_key(*key),
            r is Some ==> *r->Some_0 == self@[*key],
    {
        proof {
            K::raw_is_an_ordered_copy(*key, *key, *key);
        }
        self.tree.get(&key.raw())
    }

    /// Puts a value under a key and hands back the value it replaces.
    pub fn insert(&mut self, key: K, value: V) -> (r: Option<V>)
        ensures
            final(self)@ == old(self)@.insert(key, value),
            r is Some <==> old(self)@.contains_key(key),
            r is Some ==> r->Some_0 == old(self)@[key],
    {
        proof {
            K::raw_is_an_ordered_copy(key, key, key);
        }
        let r = self.tree.insert(key.raw(), value);
        proof {
            assert forall|k: K| #[trigger] k.raw_spec() == key.raw_spec() implies k == key by {
                K::raw_is_an_ordered_copy(k, k, k);
            }
            assert(self@ =~= old(self)@.insert(key, value));
        }
        r
    }

    /// Takes the value under a key out of the map.
    pub fn remove(&mut self, key: &K) -> (r: Option<V>)
        ensures
            final(self)@ == old(self)@.remove(*key),
            r is Some <==> old(self)@.contains_key(*key),
            r is Some ==> r->Some_0 == old(self)@[*key],
    {
        proof {
            K::raw_is_an_ordered_copy(*key, *key, *key);
        }
        let r = self.tree.remove(&key.raw());
        proof {
            assert forall|k: K| #[trigger] k.raw_spec() == key.raw_spec() implies k == *key by {
                K::raw_is_an_ordered_copy(k, k, k);
            }
            assert(self@ =~= old(self)@.remove(*key));
        }
        r
    }

    /// The keys, in ascending order.
    pub fn keys(&self) -> (r: Vec<K>)
        ensures
            ascending(r@),
            r@.to_set() == self@.dom(),
    {
        proof {
            let k: K = arbitrary();
            K::raw_is_an_ordered_copy(k, k, k);
        }
        let mut out: Vec<K> = Vec::new();
        let it = self.tree.iter();
        let ghost pairs = it.remaining();
        let ghost raws = pairs.map_values(|kv: (&K::Raw, &V)| *kv.0);
        for entry in iter: it
            invariant
                iter.seq() == pairs,
                raws == pairs.map_values(|kv: (&K::Raw, &V)| *kv.0),
                out@ == Self::from_raws(raws.subrange(0, iter.index())),
                0 <= iter.index() <= raws.len(),
        {
            out.push(K::from_raw(entry.0));
            assert(out@ =~= Self::from_raws(raws.subrange(0, iter.index() + 1)));
        }
        proof {
            assert(out@.len() == raws.len());
            assert(increasing_seq(raws));
            assert forall|raw: K::Raw| raws.contains(raw) <==> self.tree@.contains_key(raw) by {
                if raws.contains(raw) {
                    let i = choose|i: int| 0 <= i < raws.len() && raws[i] == raw;
                    assert(self.tree@.contains_key(*pairs[i].0));
                }
                if self.tree@.contains_key(raw) {
                    assert(pairs.contains((&raw, &self.tree@[raw])));
                    let i = choose|i: int|
                        0 <= i < pairs.len() && pairs[i] == (&raw, &self.tree@[raw]);
                    assert(raws[i] == raw);
                }
            }
            assert forall|i: int| 0 <= i < raws.len() implies (#[trigger] out@[i]).raw_spec()
                == raws[i] by {
                K::every_raw_is_a_copy(raws[i]);
            }
            assert forall|i: int, j: int|
                #![trigger out@[i], out@[j]]
                0 <= i < j < out@.len() implies out@[i].before(out@[j]) by {
                K::raw_is_an_ordered_copy(out@[i], out@[j], out@[i]);
                assert(raws[i].cmp_spec(&raws[j]) is Less);
            }
            assert forall|k: K| out@.to_set().contains(k) <==> self@.dom().contains(k) by {
                if out@.contains(k) {
                    let i = choose|i: int| 0 <= i < out@.len() && out@[i] == k;
                    assert(raws.contains(raws[i]));
                }
                if self.tree@.contains_key(k.raw_spec()) {
                    assert(raws.contains(k.raw_spec()));
                    let i = choose|i: int| 0 <= i < raws.len() && raws[i] == k.raw_spec();
                    K::raw_is_an_ordered_copy(k, k, k);
                    assert(out@[i] == k);
                }
            }
            assert(out@.to_set() =~= self@.dom());
        }
        out
    }

    /// Those of some ascending keys that the map does not have, in ascending order.
    pub fn missing_of(&self, keys: &[K]) -> (r: Vec<K>)
        requires
            ascending(keys@),
        ensures
            ascending(r@),
            r@.to_set() == keys@.to_set().difference(self@.dom()),
    {
        let mut missing: Vec<K> = Vec::new();
        let mut at: usize = 0;
        while at < keys.len()
            invariant
                at <= keys@.len(),
                ascending(keys@),
                ascending(missing@),
                forall|k: K|
                    missing@.contains(k) <==> occurs_before(keys@, at as int, k)
                        && !self@.contains_key(k),
            decreases keys@.len() - at,
        {
            let key = keys[at];
            let ghost before = missing@;
            if !self.contains_key(&key) {
                missing.push(key);
            }
            proof {
                assert forall|i: int, j: int|
                    #![trigger missing@[i], missing@[j]]
                    0 <= i < j < missing@.len() implies missing@[i].before(missing@[j]) by {
                    assert(before[i] == missing@[i]);
                    if j < before.len() {
                        assert(before[j] == missing@[j]);
                    } else {
                        assert(before.contains(before[i]));
                        let x = choose|x: int| 0 <= x < at && #[trigger] keys@[x] == before[i];
                        assert(keys@[x].before(keys@[at as int]));
                    }
                }
                assert forall|k: K|
                    missing@.contains(k) <==> occurs_before(keys@, at + 1, k)
                        && !self@.contains_key(k) by {
                    if missing@.contains(k) {
                        let i = choose|i: int| 0 <= i < missing@.len() && missing@[i] == k;
                        if i < before.len() {
                            assert(before[i] == k);
                            assert(before.contains(k));
                            let x = choose|x: int| 0 <= x < at && #[trigger] keys@[x] == k;
                            assert(keys@[x] == k);
                        } else {
                            assert(keys@[at as int] == k);
                        }
                    }
                    if occurs_before(keys@, at + 1, k) && !self@.contains_key(k) {
                        let x = choose|x: int| 0 <= x < at + 1 && #[trigger] keys@[x] == k;
                        if x < at {
                            assert(occurs_before(keys@, at as int, k));
                            assert(before.contains(k));
                            let i = choose|i: int| 0 <= i < before.len() && before[i] == k;
                            assert(missing@[i] == k);
                        } else {
                            assert(missing@[before.len() as int] == k);
                        }
                    }
                }
            }
            at = at + 1;
        }
        proof {
            assert forall|k: K|
                missing@.to_set().contains(k) <==> keys@.to_set().difference(
                    self@.dom(),
                ).contains(k) by {
                assert(missing@.contains(k) <==> missing@.to_set().contains(k));
                assert(keys@.contains(k) <==> occurs_before(keys@, at as int, k));
            }
            assert(missing@.to_set() =~= keys@.to_set().difference(self@.dom()));
        }
        missing
    }

    /// The number of entries.
    pub fn len(&self) -> (r: usize)
        ensures
            r == self@.len(),
            self@.dom().finite(),
    {
        proof {
            let k: K = arbitrary();
            K::raw_is_an_ordered_copy(k, k, k);
            let f = |raw: K::Raw| K::from_raw_spec(raw);
            assert forall|a: K::Raw, b: K::Raw|
                self.tree@.dom().contains(a) && self.tree@.dom().contains(b) && #[trigger] f(a)
                    == #[trigger] f(b) implies a == b by {
                K::every_raw_is_a_copy(a);
                K::every_raw_is_a_copy(b);
            }
            assert forall|k: K| self.tree@.dom().map(f).contains(k) <==> self@.dom().contains(k) by {
                if self.tree@.dom().map(f).contains(k) {
                    let a = choose|a: K::Raw| self.tree@.dom().contains(a) && f(a) == k;
                    K::every_raw_is_a_copy(a);
                }
                if self@.dom().contains(k) {
                    K::raw_is_an_ordered_copy(k, k, k);
                    assert(self.tree@.dom().contains(k.raw_spec()) && f(k.raw_spec()) == k);
                }
            }
            assert(self.tree@.dom().map(f) =~= self@.dom());
            vstd::set_lib::lemma_map_size(self.tree@.dom(), self@.dom(), f);
        }
        self.tree.len()
    }

    pub fn is_empty(&self) -> (r: bool)
        ensures
            r == (self@ == Map::<K, V>::empty()),
    {
        let r = self.tree.is_empty();
        proof {
            if r {
                assert(self@ =~= Map::<K, V>::empty());
            } else {
                assert(!(self.tree@ =~= Map::<K::Raw, V>::empty()));
                let raw = choose|raw: K::Raw| self.tree@.contains_key(raw);
                K::every_raw_is_a_copy(raw);
                assert(self@.contains_key(K::from_raw_spec(raw)));
            }
        }
        r
    }

    /// Builds a map from pairs, or gives back the first key that repeats an earlier one.
    pub fn from_entries(entries: Vec<(K, V)>) -> (r: Result<Self, K>)
        ensures
            match r {
                Ok(map) => {
                    &&& distinct_up_to(firsts(entries@), entries@.len() as int)
                    &&& map@ == pairs_map(entries@)
                },
                Err(key) => exists|at: int| #[trigger]
                    first_repeat(firsts(entries@), at) && entries@[at].0 == key,
            },
    {
        let ghost all = entries@;
        let ghost keys = firsts(all);
        let mut map: KeyMap<K, V> = KeyMap::new();
        let ghost mut at: int = 0;
        proof {
            assert(all.subrange(0, 0) =~= Seq::<(K, V)>::empty());
        }
        for entry in iter: entries.into_iter()
            invariant
                iter.seq() == all,
                0 <= at <= all.len(),
                at == iter.index(),
                keys == firsts(all),
                distinct_up_to(keys, at),
                map@ == pairs_map(all.subrange(0, at)),
        {
            proof {
                let done = all.subrange(0, at);
                pairs_map_holds_the_pairs(done);
                assert(occurs_before(firsts(done), at, keys[at]) <==> occurs_before(
                    keys,
                    at,
                    keys[at],
                )) by {
                    if occurs_before(firsts(done), at, keys[at]) {
                        let i = choose|i: int|
                            0 <= i < at && #[trigger] firsts(done)[i] == keys[at];
                        assert(keys[i] == keys[at]);
                    }
                    if occurs_before(keys, at, keys[at]) {
                        let i = choose|i: int| 0 <= i < at && #[trigger] keys[i] == keys[at];
                        assert(firsts(done)[i] == keys[at]);
                    }
                }
                assert(all.subrange(0, at + 1).drop_last() =~= done);
            }
            if map.contains_key(&entry.0) {
                assert(first_repeat(keys, at));
                return Err(entry.0);
            }
            map.insert(entry.0, entry.1);
            proof {
                assert(distinct_up_to(keys, at + 1)) by {
                    assert forall|i: int, j: int|
                        #![trigger keys[i], keys[j]]
                        0 <= i < j < at + 1 implies keys[i] != keys[j] by {
                        if j == at && keys[i] == keys[j] {
                            assert(occurs_before(keys, at, keys[at]));
                        }
                    }
                }
                at = at + 1;
            }
        }
        assert(all.subrange(0, at) =~= all);
        Ok(map)
    }

    /// Builds a map from pairs; of pairs with one key the last counts.
    pub fn collect(entries: Vec<(K, V)>) -> (r: Self)
        ensures
            r@ == pairs_map(entries@),
    {
        let ghost all = entries@;
        let mut map: KeyMap<K, V> = KeyMap::new();
        proof {
            assert(all.subrange(0, 0) =~= Seq::<(K, V)>::empty());
        }
        for entry in iter: entries.into_iter()
            invariant
                iter.seq() == all,
                map@ == pairs_map(all.subrange(0, iter.index() as int)),
        {
            proof {
                assert(all.subrange(0, iter.index() + 1).drop_last() =~= all.subrange(
                    0,
                    iter.index() as int,
                ));
            }
            map.insert(entry.0, entry.1);
        }
        assert(all.subrange(0, all.len() as int) =~= all);
        map
    }

    /// The entries, in ascending key order.
    pub fn into_entries(self) -> (r: Vec<(K, V)>)
        ensures
            ascending(firsts(r@)),
            firsts(r@).to_set() == self@.dom(),
            forall|i: int| 0 <= i < r@.len() ==> self@[(#[trigger] r@[i]).0] == r@[i].1,
            pairs_map(r@) == self@,
    {
        let keys = self.keys();
        proof {
            ascending_keys_are_distinct(keys@);
        }
        let ghost whole = self@;
        let mut rest = self;
        let mut out: Vec<(K, V)> = Vec::new();
        let mut at: usize = 0;
        while at < keys.len()
            invariant
                at <= keys@.len(),
                keys@.no_duplicates(),
                keys@.to_set() == whole.dom(),
                firsts(out@) == keys@.subrange(0, at as int),
                out@.len() == at,
                forall|i: int| 0 <= i < at ==> whole[(#[trigger] out@[i]).0] == out@[i].1,
                forall|i: int|
                    at <= i < keys@.len() ==> #[trigger] rest@.contains_key(keys@[i])
                        && rest@[keys@[i]] == whole[keys@[i]],
            decreases keys@.len() - at,
        {
            let ghost before = rest@;
            let key = keys[at];
            assert(before.contains_key(keys@[at as int]));
            if let Some(value) = rest.remove(&key) {
                out.push((key, value));
            }
            proof {
                assert(firsts(out@) =~= keys@.subrange(0, at + 1));
                assert forall|i: int|
                    at + 1 <= i < keys@.len() implies #[trigger] rest@.contains_key(keys@[i])
                    && rest@[keys@[i]] == whole[keys@[i]] by {
                    assert(before.contains_key(keys@[i]));
                    assert(keys@[i] != keys@[at as int]);
                }
            }
            at = at + 1;
        }
        proof {
            assert(firsts(out@) =~= keys@);
            pairs_map_holds_the_pairs(out@);
            assert forall|k: K| #[trigger] whole.contains_key(k) implies pairs_map(out@)[k]
                == whole[k] by {
                assert(firsts(out@).to_set().contains(k));
                let i = choose|i: int| 0 <= i < out@.len() && firsts(out@)[i] == k;
                assert(out@[i].0 == k);
            }
            assert(pairs_map(out@) =~= whole);
        }
        out
    }
}

impl<K: MapKey, V: Copy> KeyMap<K, V> {
    /// A copy of a map with copyable values.
    pub fn copied(&self) -> (r: Self)
        ensures
            r@ == self@,
    {
        let keys = self.keys();
        let mut copy: KeyMap<K, V> = KeyMap::new();
        let mut at: usize = 0;
        while at < keys.len()
            invariant
                at <= keys@.len(),
                keys@.to_set() == self@.dom(),
                forall|k: K| #[trigger]
                    copy@.contains_key(k) <==> occurs_before(keys@, at as int, k),
                forall|k: K| #[trigger] copy@.contains_key(k) ==> copy@[k] == self@[k],
            decreases keys@.len() - at,
        {
            let key = keys[at];
            let ghost before = copy@;
            assert(keys@.to_set().contains(key));
            copy.insert(key, *self.get(&key).unwrap());
            proof {
                assert forall|k: K| #[trigger]
                    copy@.contains_key(k) <==> occurs_before(keys@, at + 1, k) by {
                    assert(copy@.contains_key(k) <==> before.contains_key(k) || k == key);
                    if occurs_before(keys@, at as int, k) {
                        let i = choose|i: int| 0 <= i < at && #[trigger] keys@[i] == k;
                        assert(keys@[i] == k);
                    }
                    if occurs_before(keys@, at + 1, k) {
                        let i = choose|i: int| 0 <= i < at + 1 && #[trigger] keys@[i] == k;
                        if i < at {
                            assert(occurs_before(keys@, at as int, k));
                        }
                    }
                    assert(keys@[at as int] == key);
                }
                assert forall|k: K| #[trigger] copy@.contains_key(k) implies copy@[k]
                    == self@[k] by {
                    if k != key {
                        assert(before.contains_key(k));
                    }
                }
            }
            at = at + 1;
        }
        proof {
            assert forall|k: K| copy@.dom().contains(k) <==> self@.dom().contains(k) by {
                assert(copy@.contains_key(k) <==> occurs_before(keys@, at as int, k));
                assert(keys@.contains(k) <==> keys@.to_set().contains(k));
            }
            assert(copy@ =~= self@);
        }
        copy
    }
}

/// A set in ascending key order.
#[derive(Debug)]
pub struct KeySet<K: MapKey> {
    map: KeyMap<K, ()>,
}

impl<K: MapKey> View for KeySet<K> {
    type V = Set<K>;

    closed spec fn view(&self) -> Set<K> {
        self.map@.dom()
    }
}

impl<K: MapKey> KeySet<K> {
    /// An empty set.
    pub fn new() -> (r: Self)
        ensures
            r@ == Set::<K>::empty(),
    {
        let r = KeySet { map: KeyMap::new() };
        assert(r@ =~= Set::<K>::empty());
        r
    }

    pub fn contains(&self, key: &K) -> (r: bool)
        ensures
            r == self@.contains(*key),
    {
        self.map.contains_key(key)
    }

    /// Adds a key; whether it was missing before.
    pub fn insert(&mut self, key: K) -> (r: bool)
        ensures
            final(self)@ == old(self)@.insert(key),
            r == !old(self)@.contains(key),
    {
        let r = self.map.insert(key, ());
        assert(self@ =~= old(self)@.insert(key));
        r.is_none()
    }

    /// Takes a key out; whether it was there.
    pub fn remove(&mut self, key: &K) -> (r: bool)
        ensures
            final(self)@ == old(self)@.remove(*key),
            r == old(self)@.contains(*key),
    {
        let r = self.map.remove(key);
        assert(self@ =~= old(self)@.remove(*key));
        r.is_some()
    }

    /// The number of keys.
    pub fn len(&self) -> (r: usize)
        ensures
            r == self@.len(),
            self@.finite(),
    {
        self.map.len()
    }

    pub fn is_empty(&self) -> (r: bool)
        ensures
            r == (self@ == Set::<K>::empty()),
    {
        let r = self.map.is_empty();
        proof {
            if self@ == Set::<K>::empty() {
                assert(self.map@ =~= Map::<K, ()>::empty());
            }
        }
        r
    }

    /// The keys, in ascending order.
    pub fn keys(&self) -> (r: Vec<K>)
        ensures
            ascending(r@),
            r@.to_set() == self@,
    {
        self.map.keys()
    }

    /// The set of the keys of a slice; whether no key repeats an earlier one.
    pub fn from_keys(keys: &[K]) -> (r: (Self, bool))
        ensures
            r.0@ == keys@.to_set(),
            r.1 == distinct_up_to(keys@, keys@.len() as int),
    {
        let mut set: KeySet<K> = KeySet::new();
        let mut distinct = true;
        let mut at: usize = 0;
        while at < keys.len()
            invariant
                at <= keys@.len(),
                forall|k: K| set@.contains(k) <==> occurs_before(keys@, at as int, k),
                distinct == distinct_up_to(keys@, at as int),
            decreases keys@.len() - at,
        {
            let ghost before = set@;
            let ghost was = distinct;
            let fresh = set.insert(keys[at]);
            distinct = distinct && fresh;
            proof {
                let key = keys@[at as int];
                assert forall|k: K| set@.contains(k) <==> occurs_before(keys@, at + 1, k) by {
                    if before.contains(k) {
                        let i = choose|i: int| 0 <= i < at && #[trigger] keys@[i] == k;
                        assert(keys@[i] == k);
                    }
                    assert(keys@[at as int] == key);
                    if occurs_before(keys@, at + 1, k) {
                        let i = choose|i: int| 0 <= i < at + 1 && #[trigger] keys@[i] == k;
                        if i < at {
                            assert(occurs_before(keys@, at as int, k));
                        }
                    }
                }
                if was && fresh {
                    assert forall|i: int, j: int|
                        #![trigger keys@[i], keys@[j]]
                        0 <= i < j < at + 1 implies keys@[i] != keys@[j] by {
                        if j == at && keys@[i] == key {
                            assert(occurs_before(keys@, at as int, key));
                        }
                    }
                } else if was {
                    let i = choose|i: int| 0 <= i < at && #[trigger] keys@[i] == key;
                    assert(keys@[i] == keys@[at as int]);
                    assert(!distinct_up_to(keys@, at + 1));
                }
            }
            at = at + 1;
        }
        proof {
            assert forall|k: K| set@.contains(k) <==> keys@.to_set().contains(k) by {
                assert(occurs_before(keys@, keys@.len() as int, k) <==> keys@.contains(k));
            }
            assert(set@ =~= keys@.to_set());
        }
        (set, distinct)
    }
}

} // verus!
