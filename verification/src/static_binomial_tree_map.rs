//! The statically sized lattice backing.
//!
//! For lattices up to a fixed ceiling the address table is built once, in
//! full, when the stack is made: every canonical node name for the depths
//! `0..=n`, level by level, each level listing its nodes from the most ups
//! to the fewest, as [`crate::nodes::NodeName2`] values. The slots live in
//! a dense arena with one level of slots per depth, so a lookup is plain
//! indexing.

use vstd::prelude::*;

use crate::binomial_tree_map::{BinomialTreeMap, BinomialTreeStack, set_slot};
use crate::nodes::{NodeName2, canonical_name};

verus! {

/// The deepest lattice the statically sized backing is built for.
pub const MAX_TREE_SIZE: usize = 128;

/// The address table of a statically sized lattice: level `d` lists the
/// canonical names of the depth-`d` nodes, most ups first.
#[derive(Debug)]
pub struct StaticBinomialTreeMap {
    pub stack: Vec<Vec<NodeName2>>,
}

impl StaticBinomialTreeMap {
    /// Builds the table for a lattice `capacity` steps deep.
    pub fn with_capacity(capacity: usize) -> (r: StaticBinomialTreeMap)
        requires
            capacity <= MAX_TREE_SIZE,
        ensures
            r.wf(),
            r.stack@.len() == capacity + 1,
    {
        let mut stack: Vec<Vec<NodeName2>> = Vec::new();
        let mut i: usize = 0;
        while i <= capacity
            invariant
                i <= capacity + 1,
                capacity <= MAX_TREE_SIZE,
                stack@.len() == i,
                forall|d: int| 0 <= d < i ==> (#[trigger] stack@[d])@.len() == d + 1,
                forall|d: int, k: int|
                    0 <= d < i && 0 <= k <= d ==> (#[trigger] stack@[d]@[k]).name@
                        == canonical_name((d - k) as nat, k as nat) && stack@[d]@[k].direction
                        is None,
            decreases capacity + 1 - i,
        {
            let mut level: Vec<NodeName2> = Vec::new();
            let mut k: usize = 0;
            while k <= i
                invariant
                    k <= i + 1,
                    i <= MAX_TREE_SIZE,
                    level@.len() == k,
                    forall|j: int|
                        0 <= j < k ==> (#[trigger] level@[j]).name@ == canonical_name(
                            (i - j) as nat,
                            j as nat,
                        ) && level@[j].direction is None,
                decreases i + 1 - k,
            {
                level.push(NodeName2::canonical(i - k, k));
                k = k + 1;
            }
            stack.push(level);
            i = i + 1;
        }
        StaticBinomialTreeMap { stack }
    }

    /// Builds the table with `N` levels: the depths `0..N`.
    pub fn new<const N: usize>() -> (r: StaticBinomialTreeMap)
        requires
            1 <= N <= MAX_TREE_SIZE + 1,
        ensures
            r.wf(),
            r.stack@.len() == N,
    {
        StaticBinomialTreeMap::with_capacity(N - 1)
    }
}

impl BinomialTreeStack for StaticBinomialTreeMap {
    type Container = StaticContainer;

    /// The table lists each level `0..=n` in full, most ups first.
    open spec fn wf(&self) -> bool {
        self.stack@.len() >= 1 && (forall|i: int|
            0 <= i < self.stack@.len() ==> (#[trigger] self.stack@[i])@.len() == i + 1) && (forall|
            i: int,
            k: int,
        |
            0 <= i < self.stack@.len() && 0 <= k <= i ==> (#[trigger] self.stack@[i]@[k]).name@
                == canonical_name((i - k) as nat, k as nat) && self.stack@[i]@[k].direction
                is None)
    }

    open spec fn depth(&self) -> nat {
        (self.stack@.len() - 1) as nat
    }

    fn max_depth(&self) -> (r: usize) {
        self.stack.len() - 1
    }

    fn node_at(&self, level: usize, ups: usize) -> (r: NodeName2) {
        let entry = &self.stack[level][level - ups];
        let name = entry.iter();
        proof {
            crate::nodes::lemma_counts_of_canonical(ups as nat, (level - ups) as nat);
        }
        NodeName2 { name, direction: None }
    }

    fn fresh_container(&self) -> (c: StaticContainer) {
        let n = self.stack.len() - 1;
        let mut levels: Vec<Vec<Option<u32>>> = Vec::new();
        let mut d: usize = 0;
        while d <= n
            invariant
                d <= n + 1,
                n < usize::MAX,
                levels@.len() == d,
                forall|i: int| 0 <= i < d ==> (#[trigger] levels@[i])@.len() == i + 1,
                forall|i: int, u: int|
                    0 <= i < d && 0 <= u <= i ==> (#[trigger] levels@[i]@[u]) is None,
            decreases n + 1 - d,
        {
            let mut level: Vec<Option<u32>> = Vec::new();
            let mut u: usize = 0;
            while u <= d
                invariant
                    u <= d + 1,
                    d < usize::MAX,
                    level@.len() == u,
                    forall|j: int| 0 <= j < u ==> (#[trigger] level@[j]) is None,
                decreases d + 1 - u,
            {
                level.push(None);
                u = u + 1;
            }
            levels.push(level);
            d = d + 1;
        }
        StaticContainer { depth: n, levels }
    }
}

/// The dense slot arena of a statically sized lattice: one level of
/// write-once slots per depth, each level indexed by up-move count.
#[derive(Debug)]
pub struct StaticContainer {
    pub depth: usize,
    pub levels: Vec<Vec<Option<u32>>>,
}

impl BinomialTreeMap for StaticContainer {
    open spec fn depth(&self) -> nat {
        self.depth as nat
    }

    open spec fn slots(&self) -> Seq<Seq<Option<u32>>> {
        Seq::new(self.levels@.len(), |d: int| self.levels@[d]@)
    }

    open spec fn wf(&self) -> bool {
        self.levels@.len() == self.depth + 1 && (forall|d: int|
            0 <= d < self.levels@.len() ==> (#[trigger] self.levels@[d])@.len() == d + 1)
    }

    proof fn lemma_wf_shape(&self) {
    }

    fn get(&self, node_name: &NodeName2) -> (r: Option<Option<u32>>) {
        let (d, u) = node_name.counts();
        if d <= self.depth {
            Some(self.levels[d][u])
        } else {
            None
        }
    }

    fn get_next_step(&self, node_name: &NodeName2) -> (r: Option<Option<u32>>) {
        let (d, u) = node_name.counts();
        Some(self.levels[d + 2][u + 1])
    }

    fn set(&mut self, node_name: &NodeName2, value: u32) {
        let (d, u) = node_name.counts();
        self.levels[d][u] = Some(value);
        proof {
            assert(self.slots() =~~= set_slot(
                old(self).slots(),
                node_name.depth(),
                node_name.ups(),
                value,
            ));
        }
    }
}

} // verus!
