//! A verified Cox-Ross-Rubenstein binomial lattice engine for vanilla
//! options.
//!
//! The lattice recombines, so a node is addressed by its depth and its
//! up-move count alone ([`nodes`]); a container owns one write-once slot
//! per node ([`binomial_tree_map`]), backed either by a hash map keyed by
//! the canonical address ([`dynamic`]) or by a precomputed address table
//! with a dense slot arena ([`static_binomial_tree_map`]); and the
//! backward induction ([`model`]) fills a fresh container from the leaves
//! to the root, then reads value, delta, gamma and theta back out by
//! finite differences. Node values are single-precision bit patterns, and
//! all single-precision arithmetic is supplied by the caller as kernels
//! ([`kernel`]): the proofs pin the addressing, the write-once wavefront
//! order, and exactly which operands each kernel was folded over.

pub mod binomial_tree_map;
pub mod capacity;
pub mod dynamic;
pub mod float_bits;
pub mod instruments;
pub mod kernel;
pub mod model;
pub mod nodes;
pub mod slot_map;
pub mod static_binomial_tree_map;
