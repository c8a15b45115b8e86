//! Hash-backed slot storage for the dynamically sized lattice.
//!
//! The dynamically sized container keys its write-once slots by an encoded
//! canonical address in a `hashbrown` hash map. The map type is opaque
//! here: what it holds is named by [`slot_map_contents`], and each
//! operation the container needs is a small trusted wrapper around one
//! `hashbrown` call whose contract states what that call does to the
//! contents.

use vstd::prelude::*;

verus! {

/// The backing store: a `hashbrown` map from an encoded node address to
/// its slot, which holds a value once written and nothing before.
#[verifier::external_body]
pub struct SlotMap {
    map: hashbrown::HashMap<u64, Option<u32>>,
}

/// What a [`SlotMap`] holds: the slot of each registered address. The
/// map's view goes through this name.
pub uninterp spec fn slot_map_contents(m: SlotMap) -> Map<u64, Option<u32>>;

impl View for SlotMap {
    type V = Map<u64, Option<u32>>;

    open spec fn view(&self) -> Map<u64, Option<u32>> {
        slot_map_contents(*self)
    }
}

/// The contents of a store with nothing registered.
pub open spec fn no_slots() -> Map<u64, Option<u32>> {
    Map::empty()
}

/// Relies on `hashbrown::HashMap::with_capacity`: the new map is empty.
#[verifier::external_body]
pub fn slot_map_with_capacity(capacity: usize) -> (r: SlotMap)
    ensures
        r@ == no_slots(),
{
    SlotMap { map: hashbrown::HashMap::with_capacity(capacity) }
}

/// Relies on `hashbrown::HashMap::insert`: after the call the key maps to
/// the given value and every other key is unchanged.
#[verifier::external_body]
pub fn slot_map_insert(m: &mut SlotMap, key: u64, value: Option<u32>)
    ensures
        slot_map_contents(*final(m)) == slot_map_contents(*old(m)).insert(key, value),
{
    m.map.insert(key, value);
}

/// Relies on `hashbrown::HashMap::get`: returns the value the key maps
/// to, or nothing when the key is absent.
#[verifier::external_body]
pub fn slot_map_get(m: &SlotMap, key: u64) -> (r: Option<Option<u32>>)
    ensures
        r == if m@.dom().contains(key) {
            Some(m@[key])
        } else {
            None::<Option<u32>>
        },
{
    m.map.get(&key).copied()
}

/// Relies on `hashbrown::HashMap::len`: the number of keys the map holds.
#[verifier::external_body]
pub fn slot_map_len(m: &SlotMap) -> (r: usize)
    ensures
        r == m@.dom().len(),
{
    m.map.len()
}

} // verus!
