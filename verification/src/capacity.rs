//! Closed-form size of a recombining lattice.
//!
//! A lattice with `n` steps has `d + 1` distinct nodes at depth `d`, so
//! `1 + 2 + ... + (n + 1) = (n + 1)(n + 2) / 2` nodes in all. The
//! containers pre-size their storage with this formula.

use vstd::prelude::*;

verus! {

/// How many distinct nodes the depths `0..=n` hold: `d + 1` of them at
/// depth `d`.
pub open spec fn total_nodes(n: nat) -> nat
    decreases n,
{
    if n == 0 {
        1
    } else {
        total_nodes((n - 1) as nat) + n + 1
    }
}

/// Twice the node count is the product form, with no division in sight.
proof fn lemma_node_count_doubled(n: nat)
    ensures
        total_nodes(n) * 2 == (n + 1) * (n + 2),
    decreases n,
{
    if n > 0 {
        lemma_node_count_doubled((n - 1) as nat);
        assert(n * (n + 1) + 2 * (n + 1) == (n + 1) * (n + 2)) by (nonlinear_arith);
    }
}

/// The node count of a lattice in closed form: the depths `0..=n` hold
/// `(n + 1)(n + 2) / 2` distinct nodes between them.
pub proof fn lemma_node_count_closed_form(n: nat)
    ensures
        total_nodes(n) == (n + 1) * (n + 2) / 2,
{
    lemma_node_count_doubled(n);
    assert(total_nodes(n) * 2 / 2 == total_nodes(n));
}

/// The number of slots a container for `number_of_steps` steps needs:
/// `(n + 1)(n + 2) / 2`.
pub fn calculate_capacity(number_of_steps: usize) -> (r: usize)
    requires
        (number_of_steps + 1) * (number_of_steps + 2) <= usize::MAX,
    ensures
        r == (number_of_steps + 1) * (number_of_steps + 2) / 2,
        r == total_nodes(number_of_steps as nat),
{
    proof {
        lemma_node_count_closed_form(number_of_steps as nat);
        assert((number_of_steps + 2) * (number_of_steps + 1) == (number_of_steps + 1) * (
        number_of_steps + 2)) by (nonlinear_arith);
    }
    (number_of_steps + 2) * (number_of_steps + 1) / 2
}

/// How many new slots the step to depth `step_number` adds over a
/// container one depth shallower; a container for depth zero or one is
/// simply given one slot's worth of headroom.
pub fn calculate_step_capacity(step_number: usize) -> (r: usize)
    requires
        (step_number + 1) * (step_number + 2) <= usize::MAX,
    ensures
        r == if step_number > 1 {
            step_number + 1
        } else {
            1
        },
{
    if step_number > 1 {
        proof {
            lemma_node_count_closed_form(step_number as nat);
            lemma_node_count_closed_form((step_number - 1) as nat);
        }
        let a = calculate_capacity(step_number);
        let b = calculate_capacity(step_number - 1);
        proof {
            assert(total_nodes(step_number as nat) == total_nodes((step_number - 1) as nat)
                + step_number + 1);
        }
        a - b
    } else {
        1
    }
}

} // verus!
