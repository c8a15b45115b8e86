//! The lattice container interface.
//!
//! A container owns one write-once slot per node of a lattice of a fixed
//! depth. Its model is a slot table: one level per depth `0..=n`, and at
//! depth `d` one slot per distinct node, indexed by the up-move count of
//! the node's address. The backward induction engine and the Greeks
//! extraction are written once against this interface; the dynamically
//! sized and the statically sized backings implement it.

use vstd::prelude::*;

use crate::nodes::{NodeName2, canonical_name};

verus! {

/// The slot table shape of a lattice `n` steps deep: one level per depth,
/// and `d + 1` slots at depth `d`.
pub open spec fn slots_shape(s: Seq<Seq<Option<u32>>>, n: nat) -> bool {
    s.len() == n + 1 && (forall|d: int| 0 <= d < s.len() ==> (#[trigger] s[d]).len() == d + 1)
}

/// No slot of the table has been written yet.
pub open spec fn all_unset(s: Seq<Seq<Option<u32>>>) -> bool {
    forall|d: int, u: int| 0 <= d < s.len() && 0 <= u < s[d].len() ==> s[d][u] is None
}

/// What a lookup at the canonical address (depth `d`, `u` ups) returns
/// from the table of a lattice `n` deep: the slot when the depth is in
/// range, nothing when the address lies deeper than the table.
pub open spec fn spec_get(s: Seq<Seq<Option<u32>>>, n: nat, d: nat, u: nat) -> Option<Option<u32>> {
    if d <= n {
        Some(s[d as int][u as int])
    } else {
        None
    }
}

/// The table with the slot at (depth `d`, `u` ups) written.
pub open spec fn set_slot(s: Seq<Seq<Option<u32>>>, d: nat, u: nat, value: u32) -> Seq<
    Seq<Option<u32>>,
> {
    s.update(d as int, s[d as int].update(u as int, Some(value)))
}

/// One write-once slot per lattice node, addressed canonically: lookups
/// and writes see only the depth and the up-move count of an address, so
/// addresses that recombine share their slot.
pub trait BinomialTreeMap: Sized {
    /// The deepest level this container holds slots for.
    spec fn depth(&self) -> nat;

    /// The slot table: level `d` holds the slots of depth `d`, indexed by
    /// up-move count.
    spec fn slots(&self) -> Seq<Seq<Option<u32>>>;

    /// The container's internal consistency.
    spec fn wf(&self) -> bool;

    /// A well-formed container's table has one level per depth `0..=n`
    /// and `d + 1` slots at depth `d`.
    proof fn lemma_wf_shape(&self)
        requires
            self.wf(),
        ensures
            slots_shape(self.slots(), self.depth()),
    ;

    /// The slot of the given address, or nothing when the address lies
    /// deeper than this container.
    fn get(&self, node_name: &NodeName2) -> (r: Option<Option<u32>>)
        requires
            self.wf(),
            node_name.wf(),
            node_name.name@.len() < usize::MAX,
        ensures
            r == spec_get(self.slots(), self.depth(), node_name.depth(), node_name.ups()),
    ;

    /// The slot of the address one up move and one down move deeper: the
    /// node two steps ahead that recombines back onto this address's
    /// price.
    fn get_next_step(&self, node_name: &NodeName2) -> (r: Option<Option<u32>>)
        requires
            self.wf(),
            node_name.wf(),
            node_name.name@.len() < usize::MAX,
            node_name.depth() + 2 <= self.depth(),
        ensures
            r == Some(self.slots()[node_name.depth() as int + 2][node_name.ups() as int + 1]),
    ;

    /// Writes the slot of the given address, which must not have been
    /// written before: each slot is written at most once.
    fn set(&mut self, node_name: &NodeName2, value: u32)
        requires
            old(self).wf(),
            node_name.wf(),
            node_name.name@.len() < usize::MAX,
            node_name.depth() <= old(self).depth(),
            old(self).slots()[node_name.depth() as int][node_name.ups() as int] is None,
        ensures
            final(self).wf(),
            final(self).depth() == old(self).depth(),
            final(self).slots() == set_slot(
                old(self).slots(),
                node_name.depth(),
                node_name.ups(),
                value,
            ),
    ;
}

/// The address table of a lattice: every node address for the depths
/// `0..=n`, level by level, plus a fresh container to evaluate into.
pub trait BinomialTreeStack: Sized {
    /// The container backing that goes with this address table.
    type Container: BinomialTreeMap;

    /// The stack's internal consistency.
    spec fn wf(&self) -> bool;

    /// The number of steps of the lattice this stack addresses.
    spec fn depth(&self) -> nat;

    /// The number of steps, as a run-time value.
    fn max_depth(&self) -> (r: usize)
        requires
            self.wf(),
        ensures
            r == self.depth(),
    ;

    /// The address of the node at the given depth reached by the given
    /// number of up moves, in canonical sorted form with no pending move.
    fn node_at(&self, level: usize, ups: usize) -> (r: NodeName2)
        requires
            self.wf(),
            level <= self.depth(),
            ups <= level,
        ensures
            r.name@ == canonical_name(ups as nat, (level - ups) as nat),
            r.direction is None,
            r.wf(),
            r.depth() == level,
            r.ups() == ups,
    ;

    /// A fresh, all-unset container sized for this stack's lattice.
    fn fresh_container(&self) -> (c: Self::Container)
        requires
            self.wf(),
        ensures
            c.wf(),
            c.depth() == self.depth(),
            all_unset(c.slots()),
    ;
}

} // verus!
