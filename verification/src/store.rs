//! The hash collections of `bevy` that back the spatial index, and what this
//! crate takes for granted about them. Nothing in this file is proved: each
//! contract restates the documented behaviour of the function that the body calls.

use crate::coords::CellKey;
use bevy::ecs::entity::{Entity, EntityHash, EntityHashMap};
use bevy::platform::collections::{HashMap, HashSet};
use bevy::platform::hash::FixedHasher;
use vstd::prelude::*;

verus! {

/// `bevy::ecs::entity::Entity`: an opaque handle. Two handles are equal when they
/// hold the same bits, which is also how they compare and hash at run time.
#[verifier::external_type_specification]
#[verifier::external_body]
pub struct ExEntity(Entity);

/// `bevy::platform::hash::FixedHasher`, the default hasher of `bevy`'s collections.
#[verifier::external_type_specification]
#[verifier::external_body]
pub struct ExFixedHasher(FixedHasher);

/// `bevy::ecs::entity::EntityHash`, the hasher of [`EntityHashMap`].
#[verifier::external_type_specification]
#[verifier::external_body]
pub struct ExEntityHash(EntityHash);

/// `bevy::platform::collections::HashMap`.
#[verifier::external_type_specification]
#[verifier::external_body]
#[verifier::reject_recursive_types(K)]
#[verifier::reject_recursive_types(V)]
#[verifier::reject_recursive_types(S)]
pub struct ExHashMap<K, V, S>(HashMap<K, V, S>);

/// `bevy::platform::collections::HashSet`.
#[verifier::external_type_specification]
#[verifier::external_body]
#[verifier::reject_recursive_types(T)]
#[verifier::reject_recursive_types(S)]
pub struct ExHashSet<T, S>(HashSet<T, S>);

/// `bevy::ecs::entity::EntityHashMap`.
#[verifier::external_type_specification]
#[verifier::external_body]
#[verifier::reject_recursive_types(V)]
pub struct ExEntityHashMap<V>(EntityHashMap<V>);

/// From a cell to the entities that stand on it.
pub type Cells = HashMap<CellKey, HashSet<Entity>>;

/// From an entity to the cell it stands on.
pub type Homes = EntityHashMap<CellKey>;

/// What a [`Cells`] map holds: its keys, and for each key the members of its set.
pub uninterp spec fn cells_of(m: Cells) -> Map<CellKey, Set<Entity>>;

/// What a [`Homes`] map holds: its keys and their values.
pub uninterp spec fn homes_of(m: Homes) -> Map<Entity, CellKey>;

/// The entities on cell `k`: none where the map has no such key.
pub open spec fn members_at(cells: Map<CellKey, Set<Entity>>, k: CellKey) -> Set<Entity> {
    if cells.contains_key(k) {
        cells[k]
    } else {
        Set::empty()
    }
}

/// The cell of entity `e`, if the map has one for it.
pub open spec fn home_at(homes: Map<Entity, CellKey>, e: Entity) -> Option<CellKey> {
    if homes.contains_key(e) {
        Some(homes[e])
    } else {
        None
    }
}

/// `HashMap::default`: a map without keys.
#[verifier::external_body]
pub(crate) fn cells_new() -> (fresh: Cells)
    ensures
        forall|k: CellKey| !cells_of(fresh).contains_key(k),
{
    HashMap::default()
}

/// `HashMap::entry`, `Entry::or_default` and `HashSet::insert`: afterwards the set
/// under `k` is the one that was there, or the empty set where `k` was no key, with
/// `e` added. Other keys keep their sets.
#[verifier::external_body]
pub(crate) fn cells_put(m: &mut Cells, k: CellKey, e: Entity)
    ensures
        cells_of(*final(m)) == cells_of(*old(m)).insert(
            k,
            members_at(cells_of(*old(m)), k).insert(e),
        ),
{
    m.entry(k).or_default().insert(e);
}

/// `HashMap::get_mut` and `HashSet::remove`: where `k` is a key, its set loses `e`
/// and the key stays, even if the set is left empty; where it is none, nothing changes.
#[verifier::external_body]
pub(crate) fn cells_take(m: &mut Cells, k: CellKey, e: Entity)
    ensures
        cells_of(*final(m)) == if cells_of(*old(m)).contains_key(k) {
            cells_of(*old(m)).insert(k, cells_of(*old(m))[k].remove(e))
        } else {
            cells_of(*old(m))
        },
{
    if let Some(members) = m.get_mut(&k) {
        members.remove(&e);
    }
}

/// `HashMap::get` and `HashSet::is_empty`: whether no entity stands under `k`,
/// be it that `k` is no key or that its set is empty.
#[verifier::external_body]
pub(crate) fn cells_vacant(m: &Cells, k: CellKey) -> (b: bool)
    ensures
        b == members_at(cells_of(*m), k).is_empty(),
{
    m.get(&k).is_none_or(HashSet::is_empty)
}

/// `HashMap::remove`: the key `k` leaves the map, with its set.
#[verifier::external_body]
pub(crate) fn cells_drop(m: &mut Cells, k: CellKey)
    ensures
        cells_of(*final(m)) == cells_of(*old(m)).remove(k),
{
    m.remove(&k);
}

/// `HashMap::get` and the iterator of `&HashSet`: the members of the set under `k`, each once,
/// in the order in which the set hands them out, which is left open.
#[verifier::external_body]
pub(crate) fn cells_members(m: &Cells, k: CellKey) -> (out: Vec<Entity>)
    ensures
        out@.no_duplicates(),
        forall|e: Entity| #[trigger] out@.contains(e) <==> members_at(cells_of(*m), k).contains(e),
{
    m.get(&k).into_iter().flatten().copied().collect()
}

/// `HashMap::keys`: the keys of the map, each once, in an order that is left open.
#[verifier::external_body]
pub(crate) fn cells_keys(m: &Cells) -> (out: Vec<CellKey>)
    ensures
        out@.no_duplicates(),
        forall|k: CellKey| #[trigger] out@.contains(k) <==> cells_of(*m).contains_key(k),
{
    m.keys().copied().collect()
}

/// `HashMap::clear`: no key is left.
#[verifier::external_body]
pub(crate) fn cells_clear(m: &mut Cells)
    ensures
        forall|k: CellKey| !cells_of(*final(m)).contains_key(k),
{
    m.clear();
}

/// `EntityHashMap::default`: a map without keys.
#[verifier::external_body]
pub(crate) fn homes_new() -> (fresh: Homes)
    ensures
        forall|e: Entity| !homes_of(fresh).contains_key(e),
{
    EntityHashMap::default()
}

/// `HashMap::insert`: `e` is mapped to `k`, whatever it was mapped to before.
#[verifier::external_body]
pub(crate) fn homes_put(m: &mut Homes, e: Entity, k: CellKey)
    ensures
        homes_of(*final(m)) == homes_of(*old(m)).insert(e, k),
{
    m.insert(e, k);
}

/// `HashMap::remove`: the key `e` leaves the map, and the value it had is returned.
#[verifier::external_body]
pub(crate) fn homes_take(m: &mut Homes, e: Entity) -> (was: Option<CellKey>)
    ensures
        homes_of(*final(m)) == homes_of(*old(m)).remove(e),
        was == home_at(homes_of(*old(m)), e),
{
    m.remove(&e)
}

/// `HashMap::get`: the value under `e`, if it is a key.
#[verifier::external_body]
pub(crate) fn homes_get(m: &Homes, e: Entity) -> (k: Option<CellKey>)
    ensures
        k == home_at(homes_of(*m), e),
{
    m.get(&e).copied()
}

/// `HashMap::len`: the number of keys.
#[verifier::external_body]
pub(crate) fn homes_len(m: &Homes) -> (n: usize)
    ensures
        n == homes_of(*m).dom().len(),
{
    m.len()
}

/// `HashMap::clear`: no key is left.
#[verifier::external_body]
pub(crate) fn homes_clear(m: &mut Homes)
    ensures
        forall|e: Entity| !homes_of(*final(m)).contains_key(e),
{
    m.clear();
}

} // verus!
