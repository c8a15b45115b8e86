//! The dynamically sized lattice backing.
//!
//! For an arbitrary step count the slots live in a hash map keyed by the
//! canonical address, encoded as depth and up-move count packed into one
//! integer. Every address of the lattice is registered up front with an
//! unwritten slot, so a lookup distinguishes an address outside the
//! lattice (absent) from a slot not yet written (registered, empty).

use vstd::prelude::*;

use crate::binomial_tree_map::{BinomialTreeMap, BinomialTreeStack, all_unset, set_slot};
use crate::capacity::{calculate_capacity, total_nodes};
use crate::nodes::NodeName2;
use crate::slot_map::{SlotMap, slot_map_get, slot_map_insert, slot_map_len, slot_map_with_capacity};

verus! {

/// The hash key of the canonical address at depth `d` with `u` ups: the
/// depth in the high half, the up-move count in the low half.
pub open spec fn addr_key(d: nat, u: nat) -> u64 {
    (d * 0x1_0000_0000 + u) as u64
}

/// Distinct canonical addresses have distinct keys.
proof fn lemma_addr_key_injective(d1: nat, u1: nat, d2: nat, u2: nat)
    requires
        d1 < 0x1_0000_0000,
        u1 < 0x1_0000_0000,
        d2 < 0x1_0000_0000,
        u2 < 0x1_0000_0000,
        addr_key(d1, u1) == addr_key(d2, u2),
    ensures
        d1 == d2 && u1 == u2,
{
    assert(d1 * 0x1_0000_0000 + u1 < 0x1_0000_0000_0000_0000) by (nonlinear_arith)
        requires
            d1 < 0x1_0000_0000,
            u1 < 0x1_0000_0000,
    ;
    assert(d2 * 0x1_0000_0000 + u2 < 0x1_0000_0000_0000_0000) by (nonlinear_arith)
        requires
            d2 < 0x1_0000_0000,
            u2 < 0x1_0000_0000,
    ;
    assert(d1 * 0x1_0000_0000 + u1 == d2 * 0x1_0000_0000 + u2);
    assert(d1 == d2 && u1 == u2) by (nonlinear_arith)
        requires
            u1 < 0x1_0000_0000,
            u2 < 0x1_0000_0000,
            d1 * 0x1_0000_0000 + u1 == d2 * 0x1_0000_0000 + u2,
    ;
}

/// Keys of addresses no deeper than `d` stay below the key block of depth
/// `d + 1`.
proof fn lemma_addr_key_bound(d: nat, u: nat, bound: nat)
    requires
        u <= d,
        d < bound,
        d < 0x1_0000_0000,
    ensures
        (addr_key(d, u) as int) < bound * 0x1_0000_0000,
{
    assert(d * 0x1_0000_0000 + u < (d + 1) * 0x1_0000_0000) by (nonlinear_arith)
        requires
            u <= d,
            d < 0x1_0000_0000,
    ;
    assert((d + 1) * 0x1_0000_0000 <= bound * 0x1_0000_0000) by (nonlinear_arith)
        requires
            d < bound,
    ;
}

/// The key of an address, as a run-time value.
fn make_key(d: usize, u: usize) -> (r: u64)
    requires
        d < 0x1_0000_0000,
        u < 0x1_0000_0000,
    ensures
        r == addr_key(d as nat, u as nat),
{
    proof {
        assert((d as u64) * 0x1_0000_0000 <= 0xFFFF_FFFF_0000_0000) by (nonlinear_arith)
            requires
                d < 0x1_0000_0000,
        ;
    }
    (d as u64) * 0x1_0000_0000 + (u as u64)
}

/// A lattice container for an arbitrary step count: a hash map from the
/// encoded canonical address to its write-once slot, with every address of
/// the lattice registered when the container is made.
pub struct DynamicBinomialTreeMap {
    pub map: SlotMap,
    pub depth: usize,
}

impl DynamicBinomialTreeMap {
    /// Every address of the lattice is registered and nothing else is:
    /// the key count is exactly the lattice's node count, no key reaches
    /// past the lattice's deepest key block, and the depth leaves room to
    /// pack every address into a key and to size the map by the
    /// closed-form capacity.
    pub open spec fn inv(self) -> bool {
        self.depth < 0xFFFF_FFFF && (self.depth + 1) * (self.depth + 2) <= usize::MAX && (forall|
            d: int,
            u: int,
        |
            0 <= d <= self.depth && 0 <= u <= d ==> self.map@.dom().contains(
                #[trigger] addr_key(d as nat, u as nat),
            )) && (forall|k: u64|
            self.map@.dom().contains(k) ==> (k as int) < (self.depth + 1) * 0x1_0000_0000)
            && self.map@.dom().finite() && self.map@.dom().len() == total_nodes(self.depth as nat)
    }

    /// Builds the container of a lattice `number_of_steps` deep: every
    /// address of the depths `0..=n` registered, every slot unwritten.
    pub fn new(number_of_steps: usize) -> (r: DynamicBinomialTreeMap)
        requires
            number_of_steps < 0xFFFF_FFFF,
            (number_of_steps + 1) * (number_of_steps + 2) <= usize::MAX,
        ensures
            r.inv(),
            r.depth == number_of_steps,
            forall|d: int, u: int|
                0 <= d <= number_of_steps && 0 <= u <= d ==> r.map@[#[trigger] addr_key(
                    d as nat,
                    u as nat,
                )] is None,
    {
        let capacity = calculate_capacity(number_of_steps);
        let mut map = slot_map_with_capacity(capacity);
        let mut d: usize = 0;
        while d <= number_of_steps
            invariant
                d <= number_of_steps + 1,
                number_of_steps < 0xFFFF_FFFF,
                forall|i: int, u: int|
                    0 <= i < d && 0 <= u <= i ==> map@.dom().contains(
                        #[trigger] addr_key(i as nat, u as nat),
                    ) && map@[addr_key(i as nat, u as nat)] is None,
                map@.dom().finite(),
                map@.dom().len() == (if d == 0 {
                    0nat
                } else {
                    total_nodes((d - 1) as nat)
                }),
                forall|k: u64|
                    map@.dom().contains(k) ==> (k as int) < (d as int) * 0x1_0000_0000,
            decreases number_of_steps + 1 - d,
        {
            let mut u: usize = 0;
            while u <= d
                invariant
                    u <= d + 1,
                    d <= number_of_steps,
                    number_of_steps < 0xFFFF_FFFF,
                    forall|i: int, j: int|
                        0 <= i < d && 0 <= j <= i ==> map@.dom().contains(
                            #[trigger] addr_key(i as nat, j as nat),
                        ) && map@[addr_key(i as nat, j as nat)] is None,
                    forall|j: int|
                        0 <= j < u ==> map@.dom().contains(#[trigger] addr_key(d as nat, j as nat))
                            && map@[addr_key(d as nat, j as nat)] is None,
                    map@.dom().finite(),
                    map@.dom().len() == (if d == 0 {
                        0nat
                    } else {
                        total_nodes((d - 1) as nat)
                    }) + u,
                    forall|k: u64|
                        map@.dom().contains(k) ==> (k as int) < (d as int) * 0x1_0000_0000 + u,
                decreases d + 1 - u,
            {
                let key = make_key(d, u);
                proof {
                    assert((d as int) * 0x1_0000_0000 + u < 0x1_0000_0000_0000_0000)
                        by (nonlinear_arith)
                        requires
                            d < 0x1_0000_0000,
                            u <= d,
                    ;
                    assert((key as int) == (d as int) * 0x1_0000_0000 + u);
                    assert(!map@.dom().contains(key));
                    vstd::set::axiom_set_insert_len(map@.dom(), key);
                }
                slot_map_insert(&mut map, key, None);
                u = u + 1;
            }
            d = d + 1;
        }
        DynamicBinomialTreeMap { map, depth: number_of_steps }
    }

    /// How many addresses the container has registered: one per node of
    /// the lattice, `(n + 1)(n + 2) / 2` in all.
    pub fn len(&self) -> (r: usize)
        ensures
            r == self.map@.dom().len(),
            self.inv() ==> r == total_nodes(self.depth as nat),
    {
        slot_map_len(&self.map)
    }
}

impl BinomialTreeMap for DynamicBinomialTreeMap {
    open spec fn depth(&self) -> nat {
        self.depth as nat
    }

    open spec fn slots(&self) -> Seq<Seq<Option<u32>>> {
        Seq::new(
            (self.depth + 1) as nat,
            |d: int| Seq::new((d + 1) as nat, |u: int| self.map@[addr_key(d as nat, u as nat)]),
        )
    }

    open spec fn wf(&self) -> bool {
        self.inv()
    }

    proof fn lemma_wf_shape(&self) {
    }

    fn get(&self, node_name: &NodeName2) -> (r: Option<Option<u32>>) {
        let (d, u) = node_name.counts();
        if d <= self.depth {
            let key = make_key(d, u);
            let slot = slot_map_get(&self.map, key);
            proof {
                assert(self.map@.dom().contains(addr_key(d as nat, u as nat)));
            }
            Some(slot.unwrap())
        } else {
            None
        }
    }

    fn get_next_step(&self, node_name: &NodeName2) -> (r: Option<Option<u32>>) {
        let (d, u) = node_name.counts();
        let key = make_key(d + 2, u + 1);
        let slot = slot_map_get(&self.map, key);
        proof {
            assert(self.map@.dom().contains(addr_key((d + 2) as nat, (u + 1) as nat)));
        }
        Some(slot.unwrap())
    }

    fn set(&mut self, node_name: &NodeName2, value: u32) {
        let (d, u) = node_name.counts();
        let key = make_key(d, u);
        proof {
            lemma_addr_key_bound(d as nat, u as nat, (self.depth + 1) as nat);
        }
        slot_map_insert(&mut self.map, key, Some(value));
        proof {
            let ghost dn = node_name.depth();
            let ghost un = node_name.ups();
            assert(old(self).map@.dom().contains(addr_key(dn, un)));
            assert(self.map@.dom() =~= old(self).map@.dom());
            assert forall|di: int, ui: int| 0 <= di <= self.depth && 0 <= ui <= di implies #[trigger] self.slots()[di][ui] == set_slot(
                old(self).slots(),
                dn,
                un,
                value,
            )[di][ui] by {
                if !(di == dn && ui == un) && addr_key(di as nat, ui as nat) == addr_key(dn, un) {
                    lemma_addr_key_injective(di as nat, ui as nat, dn, un);
                }
            }
            assert forall|di: int| 0 <= di <= self.depth implies #[trigger] self.slots()[di]
                =~= set_slot(old(self).slots(), dn, un, value)[di] by {
            }
            assert(self.slots() =~~= set_slot(old(self).slots(), dn, un, value));
        }
    }
}

impl BinomialTreeStack for DynamicBinomialTreeMap {
    type Container = DynamicBinomialTreeMap;

    open spec fn wf(&self) -> bool {
        self.inv()
    }

    open spec fn depth(&self) -> nat {
        self.depth as nat
    }

    fn max_depth(&self) -> (r: usize) {
        self.depth
    }

    fn node_at(&self, level: usize, ups: usize) -> (r: NodeName2) {
        NodeName2::canonical(ups, level - ups)
    }

    fn fresh_container(&self) -> (c: DynamicBinomialTreeMap) {
        let c = DynamicBinomialTreeMap::new(self.depth);
        proof {
            assert(all_unset(BinomialTreeMap::slots(&c)));
        }
        c
    }
}

} // verus!
