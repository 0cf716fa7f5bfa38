//! The two ordered maps the simulation keeps its state in, and everything
//! that is taken on trust about them.
//!
//! Both maps are `indexmap::IndexMap`s. Verus cannot look inside one, so each
//! map is described by two uninterpreted functions: the key-value pairs it
//! holds and the order in which it walks its keys. The functions in this file
//! are the only code that touches a map; their contracts restate the
//! behaviour documented by `indexmap` and are not proved.

use crate::area::Area;
use crate::creature::Creature;
use indexmap::IndexMap;
use nohash_hasher::NoHashHasher;
use seahash::SeaHasher;
use std::hash::BuildHasherDefault;
use vstd::prelude::*;

verus! {

/// `indexmap::IndexMap`, carried about but never looked into.
#[verifier::external_type_specification]
#[verifier::external_body]
#[verifier::reject_recursive_types(K)]
#[verifier::reject_recursive_types(V)]
#[verifier::reject_recursive_types(S)]
pub struct ExIndexMap<K, V, S>(IndexMap<K, V, S>);

/// `std::hash::BuildHasherDefault`, which only names the hasher of a map.
#[verifier::external_type_specification]
#[verifier::external_body]
#[verifier::reject_recursive_types(H)]
pub struct ExBuildHasherDefault<H>(BuildHasherDefault<H>);

/// `seahash::SeaHasher`, the hasher of the area map.
#[verifier::external_type_specification]
#[verifier::external_body]
pub struct ExSeaHasher(SeaHasher);

/// `nohash_hasher::NoHashHasher`, the hasher of the creature map; it takes a
/// handle as its own hash.
#[verifier::external_type_specification]
#[verifier::external_body]
#[verifier::reject_recursive_types(T)]
pub struct ExNoHashHasher<T>(NoHashHasher<T>);

/// Areas by coordinate.
pub type TAreas = IndexMap<(usize, usize), Area, BuildHasherDefault<SeaHasher>>;

/// Creatures by handle.
pub type TCreatures = IndexMap<usize, Creature, BuildHasherDefault<NoHashHasher<usize>>>;

/// The coordinate-area pairs held by an area map.
pub uninterp spec fn area_entries(m: TAreas) -> Map<(usize, usize), Area>;

/// The coordinates of an area map in the order the map walks them.
pub uninterp spec fn area_order(m: TAreas) -> Seq<(usize, usize)>;

/// The handle-creature pairs held by a creature map.
pub uninterp spec fn creature_entries(m: TCreatures) -> Map<usize, Creature>;

/// The handles of a creature map in the order the map walks them.
pub uninterp spec fn creature_order(m: TCreatures) -> Seq<usize>;

/// `IndexMap::default`: a map that holds nothing.
#[verifier::external_body]
pub(crate) fn areas_empty() -> (m: TAreas)
    ensures
        area_entries(m).dom().is_empty(),
        area_order(m).len() == 0,
{
    IndexMap::default()
}

/// `IndexMap::keys`: every key once, in the map's order. The keys walked are
/// exactly the keys that lookups find.
#[verifier::external_body]
pub(crate) fn areas_keys(m: &TAreas) -> (keys: Vec<(usize, usize)>)
    ensures
        keys@ == area_order(*m),
        keys@.no_duplicates(),
        forall|k: (usize, usize)| keys@.contains(k) <==> area_entries(*m).dom().contains(k),
{
    m.keys().copied().collect()
}

/// `IndexMap::get`: the value stored under `k`, if any.
#[verifier::external_body]
pub(crate) fn areas_get(m: &TAreas, k: (usize, usize)) -> (found: Option<Area>)
    ensures
        found == if area_entries(*m).dom().contains(k) {
            Some(area_entries(*m)[k])
        } else {
            None
        },
{
    m.get(&k).copied()
}

/// `IndexMap::insert`: a present key keeps its place and gets the new value,
/// an absent key is appended; the value replaced is handed back.
#[verifier::external_body]
pub(crate) fn areas_insert(m: &mut TAreas, k: (usize, usize), v: Area) -> (replaced: Option<Area>)
    ensures
        area_entries(*final(m)) == area_entries(*old(m)).insert(k, v),
        area_order(*final(m)) == if area_entries(*old(m)).dom().contains(k) {
            area_order(*old(m))
        } else {
            area_order(*old(m)).push(k)
        },
        replaced == if area_entries(*old(m)).dom().contains(k) {
            Some(area_entries(*old(m))[k])
        } else {
            None
        },
{
    m.insert(k, v)
}

/// `IndexMap::default`: a map that holds nothing.
#[verifier::external_body]
pub(crate) fn creatures_empty() -> (m: TCreatures)
    ensures
        creature_entries(m).dom().is_empty(),
        creature_order(m).len() == 0,
{
    IndexMap::default()
}

/// `IndexMap::len`: the number of keys the map walks.
#[verifier::external_body]
pub(crate) fn creatures_len(m: &TCreatures) -> (n: usize)
    ensures
        n == creature_order(*m).len(),
{
    m.len()
}

/// `IndexMap::keys`: every key once, in the map's order. The keys walked are
/// exactly the keys that lookups find.
#[verifier::external_body]
pub(crate) fn creatures_keys(m: &TCreatures) -> (keys: Vec<usize>)
    ensures
        keys@ == creature_order(*m),
        keys@.no_duplicates(),
        forall|k: usize| keys@.contains(k) <==> creature_entries(*m).dom().contains(k),
{
    m.keys().copied().collect()
}

/// `IndexMap::get`: the value stored under `k`, if any.
#[verifier::external_body]
pub(crate) fn creatures_get(m: &TCreatures, k: usize) -> (found: Option<Creature>)
    ensures
        found == if creature_entries(*m).dom().contains(k) {
            Some(creature_entries(*m)[k])
        } else {
            None
        },
{
    m.get(&k).copied()
}

/// `IndexMap::insert`: a present key keeps its place and gets the new value,
/// an absent key is appended; the value replaced is handed back.
#[verifier::external_body]
pub(crate) fn creatures_insert(m: &mut TCreatures, k: usize, v: Creature) -> (replaced: Option<Creature>)
    ensures
        creature_entries(*final(m)) == creature_entries(*old(m)).insert(k, v),
        creature_order(*final(m)) == if creature_entries(*old(m)).dom().contains(k) {
            creature_order(*old(m))
        } else {
            creature_order(*old(m)).push(k)
        },
        replaced == if creature_entries(*old(m)).dom().contains(k) {
            Some(creature_entries(*old(m))[k])
        } else {
            None
        },
{
    m.insert(k, v)
}

/// `IndexMap::retain` with `Creature::is_live` as the test: the live
/// creatures stay, unchanged and in their order; the others are dropped.
#[verifier::external_body]
pub(crate) fn creatures_retain_live(m: &mut TCreatures)
    ensures
        creature_entries(*final(m)) == creature_entries(*old(m)).remove_keys(
            marked_handles(creature_entries(*old(m))),
        ),
        creature_order(*final(m)) == creature_order(*old(m)).filter(
            live_in(creature_entries(*old(m))),
        ),
{
    m.retain(|_, c| c.is_live())
}

/// The handles whose creature has died during the running tick.
pub open spec fn marked_handles(creatures: Map<usize, Creature>) -> Set<usize> {
    Set::new(|k: usize| creatures.dom().contains(k) && creatures[k].to_remove)
}

/// The test "this handle's creature has died".
pub open spec fn marked_in(creatures: Map<usize, Creature>) -> spec_fn(usize) -> bool {
    |k: usize| creatures[k].to_remove
}

/// The test "this handle's creature is alive".
pub open spec fn live_in(creatures: Map<usize, Creature>) -> spec_fn(usize) -> bool {
    |k: usize| !creatures[k].to_remove
}

} // verus!
