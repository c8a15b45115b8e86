//! Caller-supplied arithmetic kernels.
//!
//! The library's verified code cannot perform single-precision arithmetic
//! itself, so every function that needs it takes the operations as
//! closures over bit patterns: a multiplication, a subtraction, a
//! division, a maximum, or a whole per-node rule. Contracts never assume
//! what such a kernel computes; they state that a result is one the
//! kernel's own postcondition admits, through `call_ensures`. A caller
//! that hands in real single-precision arithmetic therefore gets exactly
//! the lattice recurrence evaluated with that arithmetic.

use vstd::prelude::*;

use crate::nodes::UpDown;

verus! {

/// The kernel accepts any pair of bit patterns.
pub open spec fn binary_kernel_total<F: Fn(u32, u32) -> u32>(f: F) -> bool {
    forall|a: u32, b: u32| #[trigger] call_requires(f, (a, b))
}

/// The kernel accepts any bit pattern.
pub open spec fn unary_kernel_total<F: Fn(u32) -> u32>(f: F) -> bool {
    forall|a: u32| #[trigger] call_requires(f, (a,))
}

/// The kernel's postcondition admits at most one result per argument
/// pair: the kernel computes a function.
pub open spec fn binary_kernel_deterministic<F: Fn(u32, u32) -> u32>(f: F) -> bool {
    forall|a: u32, b: u32, r1: u32, r2: u32|
        #[trigger] call_ensures(f, (a, b), r1) && #[trigger] call_ensures(f, (a, b), r2) ==> r1
            == r2
}

/// The kernel's postcondition admits at most one result per argument:
/// the kernel computes a function.
pub open spec fn unary_kernel_deterministic<F: Fn(u32) -> u32>(f: F) -> bool {
    forall|a: u32, r1: u32, r2: u32|
        #[trigger] call_ensures(f, (a,), r1) && #[trigger] call_ensures(f, (a,), r2) ==> r1 == r2
}

/// Whether `r` is a price the multiplication kernel can reach from
/// `initial` by multiplying one factor in per move, in order: the up
/// factor for an up move, the down factor for a down move; a root mark
/// multiplies nothing in.
pub open spec fn price_fold_rel<F: Fn(u32, u32) -> u32>(
    mul: F,
    initial: u32,
    up_factor: u32,
    down_factor: u32,
    moves: Seq<UpDown>,
    r: u32,
) -> bool
    decreases moves.len(),
{
    if moves.len() == 0 {
        r == initial
    } else {
        match moves.last() {
            UpDown::Initial => price_fold_rel(mul, initial, up_factor, down_factor, moves.drop_last(), r),
            UpDown::Up => exists|m: u32|
                price_fold_rel(mul, initial, up_factor, down_factor, moves.drop_last(), m)
                    && #[trigger] call_ensures(mul, (m, up_factor), r),
            UpDown::Down => exists|m: u32|
                price_fold_rel(mul, initial, up_factor, down_factor, moves.drop_last(), m)
                    && #[trigger] call_ensures(mul, (m, down_factor), r),
        }
    }
}

/// A multiplication kernel that computes a function folds each move list
/// to at most one price.
pub proof fn lemma_price_fold_deterministic<F: Fn(u32, u32) -> u32>(
    multiply: F,
    initial: u32,
    up_factor: u32,
    down_factor: u32,
    moves: Seq<UpDown>,
    r1: u32,
    r2: u32,
)
    requires
        binary_kernel_deterministic(multiply),
        price_fold_rel(multiply, initial, up_factor, down_factor, moves, r1),
        price_fold_rel(multiply, initial, up_factor, down_factor, moves, r2),
    ensures
        r1 == r2,
    decreases moves.len(),
{
    if moves.len() == 0 {
    } else {
        match moves.last() {
            UpDown::Initial => {
                lemma_price_fold_deterministic(
                    multiply,
                    initial,
                    up_factor,
                    down_factor,
                    moves.drop_last(),
                    r1,
                    r2,
                );
            },
            UpDown::Up => {
                let m1 = choose|m: u32|
                    price_fold_rel(multiply, initial, up_factor, down_factor, moves.drop_last(), m)
                        && #[trigger] call_ensures(multiply, (m, up_factor), r1);
                let m2 = choose|m: u32|
                    price_fold_rel(multiply, initial, up_factor, down_factor, moves.drop_last(), m)
                        && #[trigger] call_ensures(multiply, (m, up_factor), r2);
                lemma_price_fold_deterministic(
                    multiply,
                    initial,
                    up_factor,
                    down_factor,
                    moves.drop_last(),
                    m1,
                    m2,
                );
            },
            UpDown::Down => {
                let m1 = choose|m: u32|
                    price_fold_rel(multiply, initial, up_factor, down_factor, moves.drop_last(), m)
                        && #[trigger] call_ensures(multiply, (m, down_factor), r1);
                let m2 = choose|m: u32|
                    price_fold_rel(multiply, initial, up_factor, down_factor, moves.drop_last(), m)
                        && #[trigger] call_ensures(multiply, (m, down_factor), r2);
                lemma_price_fold_deterministic(
                    multiply,
                    initial,
                    up_factor,
                    down_factor,
                    moves.drop_last(),
                    m1,
                    m2,
                );
            },
        }
    }
}

} // verus!
