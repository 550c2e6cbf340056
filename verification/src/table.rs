//! Hash tables: `rustc_hash::FxHashMap` seen as a mathematical map.
use crate::addr::FlowKey;
use crate::small::StreamId;
use core::hash::Hash;
use rustc_hash::FxHashMap;
use vstd::prelude::*;

verus! {

/// The hash builder that `FxHashMap` carries.
#[verifier::external_type_specification]
#[verifier::external_body]
pub struct ExFxBuildHasher(rustc_hash::FxBuildHasher);

/// The types that key a [`Table`]: no other crate can add to them.
pub(crate) trait Known {

}

impl Known for String {

}

impl Known for u16 {

}

impl Known for u32 {

}

impl Known for u64 {

}

impl Known for (bool, u128) {

}

impl Known for (bool, u128, u16) {

}

impl Known for StreamId {

}

impl Known for (String, u32, Option<FlowKey>) {

}

/// A type that keys a [`Table`]. `id` is the mathematical value that two keys
/// share exactly when `==` holds of them, and that a clone keeps.
#[allow(private_bounds)]
pub trait Key: Known + Eq + Hash {
    /// What a key stands for.
    type Id;

    /// The value of a key.
    spec fn id(&self) -> Self::Id;
}

impl Key for String {
    type Id = Seq<char>;

    open spec fn id(&self) -> Seq<char> {
        self@
    }
}

impl Key for u16 {
    type Id = u16;

    open spec fn id(&self) -> u16 {
        *self
    }
}

impl Key for u32 {
    type Id = u32;

    open spec fn id(&self) -> u32 {
        *self
    }
}

impl Key for u64 {
    type Id = u64;

    open spec fn id(&self) -> u64 {
        *self
    }
}

impl Key for (bool, u128) {
    type Id = (bool, u128);

    open spec fn id(&self) -> (bool, u128) {
        *self
    }
}

impl Key for (bool, u128, u16) {
    type Id = (bool, u128, u16);

    open spec fn id(&self) -> (bool, u128, u16) {
        *self
    }
}

impl Key for StreamId {
    type Id = StreamId;

    open spec fn id(&self) -> StreamId {
        *self
    }
}

impl Key for (String, u32, Option<FlowKey>) {
    type Id = (Seq<char>, u32, Option<FlowKey>);

    open spec fn id(&self) -> (Seq<char>, u32, Option<FlowKey>) {
        (self.0@, self.1, self.2)
    }
}

/// The contents of a hash map, by the values of its keys.
pub open spec fn by_id<K: Key, V>(m: Map<K, V>) -> Map<K::Id, V> {
    Map::new(
        |i: K::Id| exists|k: K| #[trigger] m.contains_key(k) && k.id() == i,
        |i: K::Id| m[choose|k: K| #[trigger] m.contains_key(k) && k.id() == i],
    )
}

/// Whether a list holds the keys of a map, each once.
pub open spec fn lists<K: Key, V>(keys: Seq<K>, m: Map<K::Id, V>) -> bool {
    &&& forall|i: int| 0 <= i < keys.len() ==> m.contains_key((#[trigger] keys[i]).id())
    &&& forall|id: K::Id| #[trigger]
        m.contains_key(id) ==> exists|i: int| 0 <= i < keys.len() && #[trigger] keys[i].id() == id
    &&& forall|i: int, j: int|
        0 <= i < j < keys.len() ==> (#[trigger] keys[i]).id() != (#[trigger] keys[j]).id()
}

/// Whether a map has `n` keys.
pub open spec fn counts<I, V>(m: Map<I, V>, n: nat) -> bool {
    m.dom().finite() && m.dom().len() == n
}

/// A hash table.
#[verifier::reject_recursive_types(K)]
#[verifier::reject_recursive_types(V)]
pub struct Table<K: Key, V> {
    map: FxHashMap<K, V>,
}

impl<K: Key, V> View for Table<K, V> {
    type V = Map<K::Id, V>;

    closed spec fn view(&self) -> Map<K::Id, V> {
        by_id(self.map@)
    }
}

impl<K: Key, V> Table<K, V> {
    /// `FxHashMap::default`: an empty table.
    #[verifier::external_body]
    pub(crate) fn new() -> (t: Self)
        ensures
            (t@ == Map::<K::Id, V>::empty()),
    {
        Table { map: FxHashMap::default() }
    }

    /// `FxHashMap::insert`: puts a value under a key and returns the one that
    /// was there.
    #[verifier::external_body]
    pub(crate) fn insert(&mut self, k: K, v: V) -> (r: Option<V>)
        ensures
            final(self)@ == old(self)@.insert(k.id(), v),
            r == (if old(self)@.contains_key(k.id()) { Some(old(self)@[k.id()]) } else { None }),
    {
        self.map.insert(k, v)
    }

    /// `FxHashMap::get`: the value under a key.
    #[verifier::external_body]
    pub(crate) fn get(&self, k: &K) -> (r: Option<&V>)
        ensures
            r == (if self@.contains_key(k.id()) { Some(&self@[k.id()]) } else { None }),
    {
        self.map.get(k)
    }

    /// `FxHashMap::get_mut`: the value under a key, to be changed in place.
    #[verifier::external_body]
    pub(crate) fn get_mut(&mut self, k: &K) -> (r: Option<&mut V>)
        ensures
            match r {
                Some(v) => {
                    &&& old(self)@.contains_key(k.id())
                    &&& *v == old(self)@[k.id()]
                    &&& final(self)@ == old(self)@.insert(k.id(), *final(v))
                },
                None => !old(self)@.contains_key(k.id()) && final(self)@ == old(self)@,
            },
    {
        self.map.get_mut(k)
    }

    /// `FxHashMap::contains_key`: whether there is a value under a key.
    #[verifier::external_body]
    pub(crate) fn contains_key(&self, k: &K) -> (r: bool)
        ensures
            r == self@.contains_key(k.id()),
    {
        self.map.contains_key(k)
    }

    /// `FxHashMap::remove`: takes the value under a key out.
    #[verifier::external_body]
    pub(crate) fn remove(&mut self, k: &K) -> (r: Option<V>)
        ensures
            final(self)@ == old(self)@.remove(k.id()),
            r == (if old(self)@.contains_key(k.id()) { Some(old(self)@[k.id()]) } else { None }),
    {
        self.map.remove(k)
    }

    /// `FxHashMap::len`: the number of keys.
    #[verifier::external_body]
    pub(crate) fn len(&self) -> (r: usize)
        ensures
            counts(self@, r as nat),
    {
        self.map.len()
    }

    /// `FxHashMap::clear`: empties the table.
    #[verifier::external_body]
    pub(crate) fn clear(&mut self)
        ensures
            (final(self)@ == Map::<K::Id, V>::empty()),
    {
        self.map.clear()
    }

    /// `FxHashMap::keys`: the keys, each once, in an order of which nothing is
    /// known.
    #[verifier::external_body]
    pub(crate) fn keys(&self) -> (r: Vec<K>) where K: Clone
        ensures
            lists(r@, self@),
    {
        self.map.keys().cloned().collect()
    }
}

/// Whether a list that holds the keys of a map tells how many there are.
pub proof fn lemma_listed_len<K: Key, V>(keys: Seq<K>, m: Map<K::Id, V>)
    requires
        lists(keys, m),
    ensures
        m.dom().finite(),
        m.dom().len() == keys.len(),
{
    let ids = Seq::new(keys.len(), |i: int| keys[i].id());
    assert(ids.no_duplicates());
    assert(ids.to_set() =~= m.dom()) by {
        assert forall|id: K::Id| m.dom().contains(id) implies ids.to_set().contains(id) by {
            let i = choose|i: int| 0 <= i < keys.len() && #[trigger] keys[i].id() == id;
            assert(ids[i] == id);
        }
        assert forall|id: K::Id| ids.to_set().contains(id) implies m.dom().contains(id) by {
            let i = choose|i: int| 0 <= i < ids.len() && ids[i] == id;
            assert(keys[i].id() == id);
        }
    }
    ids.unique_seq_to_set();
    vstd::seq_lib::seq_to_set_is_finite(ids);
}

/// Whether `kept` is what is left of a set that is cut down to `max` members.
pub open spec fn cut_down<I>(all: Set<I>, kept: Set<I>, max: nat) -> bool {
    &&& kept.subset_of(all)
    &&& kept.finite()
    &&& all.finite()
    &&& if all.len() <= max {
        kept == all
    } else {
        kept.len() == max
    }
}

/// Cuts a set of keys down to `max`. Which keys stay is not said.
pub(crate) fn shrink<K: Key + Clone>(t: &mut Table<K, ()>, max: usize)
    ensures
        cut_down(old(t)@.dom(), final(t)@.dom(), max as nat),
{
    let keys = t.keys();
    proof {
        lemma_listed_len(keys@, t@);
    }
    let mut i: usize = max;
    while i < keys.len()
        invariant
            lists(keys@, old(t)@),
            old(t)@.dom().finite(),
            old(t)@.dom().len() == keys@.len(),
            max <= i,
            t@.dom().subset_of(old(t)@.dom()),
            t@.dom().finite(),
            i <= keys@.len() || t@.dom() == old(t)@.dom(),
            max <= keys@.len() ==> i <= keys@.len() && t@.dom().len() == keys@.len() - (i - max),
            max <= keys@.len() && i == max ==> t@.dom() == old(t)@.dom(),
            forall|j: int| i <= j < keys@.len() ==> t@.contains_key((#[trigger] keys@[j]).id()),
        decreases keys@.len() - i,
    {
        assert(t@.contains_key(keys@[i as int].id()));
        t.remove(&keys[i]);
        i += 1;
    }
}

} // verus!
