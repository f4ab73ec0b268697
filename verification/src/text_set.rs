//! The hash set of one shard of a string interner.
use crate::capacity;
use ahash::{AHashMap, RandomState};
use std::hash::{BuildHasher, Hash, Hasher};
use std::sync::Arc;
use vstd::prelude::*;

verus! {

/// The keys of a hasher.
#[verifier::external_type_specification]
#[verifier::external_body]
pub struct ExRandomState(ahash::RandomState);

/// A hash map that hashes with [`ahash::RandomState`].
#[verifier::external_type_specification]
#[verifier::external_body]
#[verifier::reject_recursive_types(K)]
#[verifier::reject_recursive_types(V)]
#[verifier::reject_recursive_types(S)]
pub struct ExAHashMap<K, V, S>(ahash::AHashMap<K, V, S>);

/// The hash of every text under the keys of a hasher. The keys are drawn at
/// random when the hasher is made; the hashes follow from the keys.
pub uninterp spec fn hash_function(state: RandomState) -> Map<Seq<char>, u64>;

/// The keys of a map, by their texts.
pub uninterp spec fn map_texts(map: AHashMap<Arc<str>, ()>) -> Map<Seq<char>, Arc<str>>;

/// [`ahash::RandomState::new`]: keys that differ from call to call.
#[verifier::external_body]
pub(crate) fn random_state() -> RandomState {
    RandomState::new()
}

/// A hasher of [`ahash::RandomState`], fed with `value`: the hash depends on the
/// keys and the text alone.
#[verifier::external_body]
pub(crate) fn hash_with(state: &RandomState, value: &str) -> (hash: u64)
    ensures
        hash == hash_function(*state)[value@],
{
    let mut hasher = state.build_hasher();
    value.hash(&mut hasher);
    hasher.finish()
}

/// [`ahash::AHashMap::new`]: a map without keys.
#[verifier::external_body]
pub(crate) fn new_map() -> (map: AHashMap<Arc<str>, ()>)
    ensures
        map_texts(map).dom() == Set::<Seq<char>>::empty(),
{
    AHashMap::new()
}

/// [`ahash::AHashMap::with_capacity`]: a map without keys. How much it has
/// allocated is left unsaid.
#[verifier::external_body]
pub(crate) fn map_with_capacity(capacity: usize) -> (map: AHashMap<Arc<str>, ()>)
    requires
        capacity::table_capacity_fits(capacity as int),
    ensures
        map_texts(map).dom() == Set::<Seq<char>>::empty(),
{
    AHashMap::with_capacity(capacity)
}

/// [`ahash::AHashMap::get_key_value`]: the key of the map that is equal to
/// `value`, if there is one.
#[verifier::external_body]
pub(crate) fn find_key<'a>(map: &'a AHashMap<Arc<str>, ()>, value: &str) -> (key: Option<
    &'a Arc<str>,
>)
    ensures
        match key {
            Some(k) => {
                &&& map_texts(*map).contains_key(value@)
                &&& *k == map_texts(*map)[value@]
                &&& (**k)@ == value@
            },
            None => !map_texts(*map).contains_key(value@),
        },
{
    map.get_key_value(value).map(|entry| entry.0)
}

/// [`ahash::AHashMap::insert`]: adds a key, unless the map holds an equal one,
/// which it then keeps.
#[verifier::external_body]
pub(crate) fn insert_key(map: &mut AHashMap<Arc<str>, ()>, key: Arc<str>)
    requires
        capacity::table_capacity_fits(map_texts(*old(map)).dom().len() + 1int),
    ensures
        map_texts(*final(map)) == if map_texts(*old(map)).contains_key((*key)@) {
            map_texts(*old(map))
        } else {
            map_texts(*old(map)).insert((*key)@, key)
        },
{
    map.insert(key, ());
}

/// `len` of the map: how many keys there are.
#[verifier::external_body]
pub(crate) fn key_count(map: &AHashMap<Arc<str>, ()>) -> (count: usize)
    ensures
        count == map_texts(*map).dom().len(),
{
    map.len()
}

/// `is_empty` of the map: whether there are no keys.
#[verifier::external_body]
pub(crate) fn has_no_keys(map: &AHashMap<Arc<str>, ()>) -> (empty: bool)
    ensures
        empty <==> map_texts(*map).dom() == Set::<Seq<char>>::empty(),
{
    map.is_empty()
}

/// `reserve` of the map: room for more keys; the keys stay the same. How much
/// it has allocated is left unsaid.
#[verifier::external_body]
pub(crate) fn reserve_keys(map: &mut AHashMap<Arc<str>, ()>, additional: usize)
    requires
        capacity::table_capacity_fits(map_texts(*old(map)).dom().len() + additional),
    ensures
        map_texts(*final(map)) == map_texts(*old(map)),
{
    map.reserve(additional)
}

/// `clear` of the map: removes all keys.
#[verifier::external_body]
pub(crate) fn clear_keys(map: &mut AHashMap<Arc<str>, ()>)
    ensures
        map_texts(*final(map)).dom() == Set::<Seq<char>>::empty(),
{
    map.clear()
}

} // verus!
