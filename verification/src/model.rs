//! The Cox-Ross-Rubenstein evaluation engine and the Greeks extraction.
//!
//! [`CoxRossRubenstein::eval`] runs the backward induction: it fills a
//! fresh container level by level from the deepest to the root, giving
//! each leaf its payoff and each interior node the per-node rule applied
//! to the discounted expectation of its two children, which are always one
//! level deeper and therefore already filled. The arithmetic comes from
//! the caller as kernels (see [`crate::kernel`]); what the engine proves
//! is that every slot is written exactly once, in wavefront order, and
//! that each written value is one the kernels admit for exactly the
//! prescribed operands. [`EvaluatedBinomialTreeModelImpl`] then reads the
//! filled container: the root value, and delta, gamma and theta by finite
//! differences over fixed nearby addresses.

use vstd::prelude::*;

use crate::binomial_tree_map::{BinomialTreeMap, BinomialTreeStack, slots_shape};
use crate::float_bits::{F32_TWO_BITS, F32_ZERO_BITS, is_zero_bits};
use crate::kernel::{
    binary_kernel_deterministic, binary_kernel_total, price_fold_rel, unary_kernel_deterministic,
    unary_kernel_total,
};
use crate::nodes::{NodeName2, UpDown, canonical_name};

verus! {

/// The spot price of the underlying, as a single-precision bit pattern.
#[derive(Clone, Copy, Debug)]
pub struct Spot(pub u32);

/// An expiry in years, as a single-precision bit pattern.
#[derive(Clone, Copy, Debug)]
pub struct Expiry(pub u32);

/// The per-step factors of the lattice, derived once by the caller from
/// volatility, rates and the time step: the growth factor `a`, the up
/// factor `u` and the down factor `d`.
#[derive(Clone, Copy, Debug)]
pub struct VolatilityParameters {
    pub a: u32,
    pub u: u32,
    pub d: u32,
}

/// Whether `r` is a risk-neutral up-probability the kernels admit:
/// `(a - d) / (u - d)`.
pub open spec fn p_rel<FS: Fn(u32, u32) -> u32, FD: Fn(u32, u32) -> u32>(
    params: VolatilityParameters,
    subtract: FS,
    divide: FD,
    r: u32,
) -> bool {
    exists|num: u32, den: u32|
        #[trigger] call_ensures(subtract, (params.a, params.d), num) && #[trigger] call_ensures(
            subtract,
            (params.u, params.d),
            den,
        ) && #[trigger] call_ensures(divide, (num, den), r)
}

impl VolatilityParameters {
    /// Bundles already-derived factors.
    pub fn new(a: u32, u: u32, d: u32) -> (r: VolatilityParameters)
        ensures
            r.a == a,
            r.u == u,
            r.d == d,
    {
        VolatilityParameters { a, u, d }
    }

    /// The risk-neutral up-probability `(a - d) / (u - d)`.
    pub fn p<FS: Fn(u32, u32) -> u32 + Copy, FD: Fn(u32, u32) -> u32 + Copy>(
        &self,
        subtract: FS,
        divide: FD,
    ) -> (r: u32)
        requires
            binary_kernel_total(subtract),
            binary_kernel_total(divide),
        ensures
            p_rel(*self, subtract, divide, r),
    {
        let num = subtract(self.a, self.d);
        let den = subtract(self.u, self.d);
        divide(num, den)
    }
}

/// The price table as a sequence of levels.
pub open spec fn price_table_view(prices: &Vec<Vec<u32>>) -> Seq<Seq<u32>> {
    Seq::new(prices@.len(), |i: int| prices@[i]@)
}

/// One price per node of the depths `0..=n`.
pub open spec fn price_table_shape(prices: Seq<Seq<u32>>, n: int) -> bool {
    prices.len() == n + 1 && (forall|i: int| 0 <= i <= n ==> (#[trigger] prices[i]).len() == i + 1)
}

/// Every slot of the table has been written.
pub open spec fn all_set(s: Seq<Seq<Option<u32>>>) -> bool {
    forall|d: int, u: int| 0 <= d < s.len() && 0 <= u < s[d].len() ==> s[d][u] is Some
}

/// Whether `r` is a node value the kernels admit for children `up_val`
/// and `down_val` at `price`: the per-node rule applied to a continuation
/// the combine kernel can produce from the children.
pub open spec fn node_rel<FC: Fn(u32, u32) -> u32, FV: Fn(u32, u32) -> u32>(
    combine: FC,
    node_value: FV,
    up_val: u32,
    down_val: u32,
    price: u32,
    r: u32,
) -> bool {
    exists|c: u32|
        #[trigger] call_ensures(combine, (up_val, down_val), c) && call_ensures(
            node_value,
            (c, price),
            r,
        )
}

/// Every slot holds a value the kernels admit: at the deepest level a
/// payoff of the node's price, above it a per-node value built on a
/// continuation combined from the node's two children one level deeper.
pub open spec fn evaluated_rel<
    FC: Fn(u32, u32) -> u32,
    FV: Fn(u32, u32) -> u32,
    FP: Fn(u32) -> u32,
>(
    combine: FC,
    node_value: FV,
    payoff: FP,
    prices: Seq<Seq<u32>>,
    slots: Seq<Seq<Option<u32>>>,
    n: int,
) -> bool {
    (forall|u: int|
        0 <= u <= n ==> #[trigger] call_ensures(payoff, (prices[n][u],), slots[n][u].unwrap()))
        && (forall|d: int, u: int|
        0 <= d < n && 0 <= u <= d ==> #[trigger] node_rel(
            combine,
            node_value,
            slots[d + 1][u + 1].unwrap(),
            slots[d + 1][u].unwrap(),
            prices[d][u],
            slots[d][u].unwrap(),
        ))
}

/// A lattice model ready to evaluate: the address stack, the per-step
/// factors, the spot price, and the per-step discount factor and time
/// step, all derived by the caller.
pub struct CoxRossRubenstein<Stack> {
    pub stack: Stack,
    pub params: VolatilityParameters,
    pub spot: Spot,
    pub discount_factor: u32,
    pub time_step: u32,
}

impl<Stack: BinomialTreeStack> CoxRossRubenstein<Stack> {
    pub fn new(
        stack: Stack,
        initial_price: Spot,
        params: VolatilityParameters,
        discount_factor: u32,
        time_step: u32,
    ) -> (r: CoxRossRubenstein<Stack>)
        ensures
            r.stack == stack,
            r.params == params,
            r.spot == initial_price,
            r.discount_factor == discount_factor,
            r.time_step == time_step,
    {
        CoxRossRubenstein { stack, params, spot: initial_price, discount_factor, time_step }
    }

    /// The backward induction sweep. Level by level from the leaves to the
    /// root, each node gets exactly one value: a payoff of its price at
    /// the deepest level, elsewhere the per-node rule applied to the
    /// continuation combined from its two children one level deeper,
    /// which the sweep order guarantees are already set. The price of the
    /// node at depth `d` with `u` up moves is read from `prices[d][u]`.
    pub fn eval<
        FC: Fn(u32, u32) -> u32 + Copy,
        FV: Fn(u32, u32) -> u32 + Copy,
        FP: Fn(u32) -> u32 + Copy,
    >(
        self,
        prices: &Vec<Vec<u32>>,
        combine: FC,
        node_value: FV,
        payoff: FP,
    ) -> (r: EvaluatedBinomialTreeModelImpl<Stack>)
        requires
            self.stack.wf(),
            self.stack.depth() < usize::MAX - 1,
            price_table_shape(price_table_view(prices), self.stack.depth() as int),
            binary_kernel_total(combine),
            binary_kernel_total(node_value),
            unary_kernel_total(payoff),
        ensures
            r.wf(),
            r.model == self,
            evaluated_rel(
                combine,
                node_value,
                payoff,
                price_table_view(prices),
                r.map.slots(),
                self.stack.depth() as int,
            ),
    {
        let ghost pt = price_table_view(prices);
        let n = self.stack.max_depth();
        let mut tree_map = self.stack.fresh_container();
        proof {
            tree_map.lemma_wf_shape();
        }
        let mut lvl: usize = n + 1;
        while lvl > 0
            invariant
                lvl <= n + 1,
                n < usize::MAX - 1,
                self.stack.wf(),
                self.stack.depth() == n,
                tree_map.wf(),
                tree_map.depth() == n,
                slots_shape(tree_map.slots(), n as nat),
                binary_kernel_total(combine),
                binary_kernel_total(node_value),
                unary_kernel_total(payoff),
                pt == price_table_view(prices),
                price_table_shape(pt, n as int),
                forall|u: int|
                    lvl <= n && 0 <= u <= n ==> #[trigger] call_ensures(
                        payoff,
                        (pt[n as int][u],),
                        tree_map.slots()[n as int][u].unwrap(),
                    ),
                forall|d: int, u: int|
                    lvl <= d <= n && 0 <= u <= d ==> tree_map.slots()[d][u] is Some,
                forall|d: int, u: int|
                    lvl <= d < n && 0 <= u <= d ==> #[trigger] node_rel(
                        combine,
                        node_value,
                        tree_map.slots()[d + 1][u + 1].unwrap(),
                        tree_map.slots()[d + 1][u].unwrap(),
                        pt[d][u],
                        tree_map.slots()[d][u].unwrap(),
                    ),
                forall|d: int, u: int|
                    0 <= d < lvl && d <= n && 0 <= u <= d ==> tree_map.slots()[d][u] is None,
            decreases lvl,
        {
            lvl = lvl - 1;
            let mut j: usize = 0;
            while j <= lvl
                invariant
                    j <= lvl + 1,
                    lvl <= n,
                    n < usize::MAX - 1,
                    self.stack.wf(),
                    self.stack.depth() == n,
                    tree_map.wf(),
                    tree_map.depth() == n,
                    slots_shape(tree_map.slots(), n as nat),
                    binary_kernel_total(combine),
                    binary_kernel_total(node_value),
                    unary_kernel_total(payoff),
                    pt == price_table_view(prices),
                    price_table_shape(pt, n as int),
                    forall|u: int|
                        (lvl < n || (lvl == n && u < j)) && 0 <= u <= n ==> #[trigger] call_ensures(
                            payoff,
                            (pt[n as int][u],),
                            tree_map.slots()[n as int][u].unwrap(),
                        ),
                    forall|d: int, u: int|
                        lvl < d <= n && 0 <= u <= d ==> tree_map.slots()[d][u] is Some,
                    forall|u: int| 0 <= u < j ==> tree_map.slots()[lvl as int][u] is Some,
                    forall|d: int, u: int|
                        lvl <= d < n && 0 <= u <= d && (d > lvl || u < j) ==> #[trigger] node_rel(
                            combine,
                            node_value,
                            tree_map.slots()[d + 1][u + 1].unwrap(),
                            tree_map.slots()[d + 1][u].unwrap(),
                            pt[d][u],
                            tree_map.slots()[d][u].unwrap(),
                        ),
                    forall|u: int| j <= u <= lvl ==> tree_map.slots()[lvl as int][u] is None,
                    forall|d: int, u: int|
                        0 <= d < lvl && 0 <= u <= d ==> tree_map.slots()[d][u] is None,
                decreases lvl + 1 - j,
            {
                let node = self.stack.node_at(lvl, j);
                let up_value = tree_map.get(&node.up());
                let down_value = tree_map.get(&node.down());
                proof {
                    assert(pt.len() == prices@.len());
                    assert(pt[lvl as int] == prices@[lvl as int]@);
                }
                let price = prices[lvl][j];
                proof {
                    assert(pt[lvl as int][j as int] == price);
                }
                match (up_value, down_value) {
                    (Some(up_slot), Some(down_slot)) => {
                        let up_val = up_slot.unwrap();
                        let down_val = down_slot.unwrap();
                        let continuation = combine(up_val, down_val);
                        let value = node_value(continuation, price);
                        proof {
                            assert(node_rel(combine, node_value, up_val, down_val, price, value));
                        }
                        tree_map.set(&node, value);
                    },
                    _ => {
                        proof {
                            assert(lvl == n);
                        }
                        let value = payoff(price);
                        tree_map.set(&node, value);
                    },
                }
                j = j + 1;
            }
            proof {
                assert(j == lvl + 1);
            }
        }
        proof {
            assert(all_set(tree_map.slots()));
        }
        EvaluatedBinomialTreeModelImpl { model: self, map: tree_map }
    }
}

/// A model whose container has been filled by one full sweep: every slot
/// set, ready for any number of reads.
pub struct EvaluatedBinomialTreeModelImpl<Stack: BinomialTreeStack> {
    pub model: CoxRossRubenstein<Stack>,
    pub map: Stack::Container,
}

/// A value/delta/gamma/theta bundle read out of an evaluated lattice.
#[derive(Debug, PartialEq, Eq, Structural)]
pub struct Greeks {
    pub value: Value,
    pub delta: Delta,
    pub gamma: Gamma,
    pub theta: Theta,
}

/// The option value at the root, as a single-precision bit pattern.
#[derive(Clone, Copy, Debug, PartialEq, Eq, Structural)]
pub struct Value(pub u32);

/// The first-order price sensitivity, as a single-precision bit pattern.
#[derive(Clone, Copy, Debug, PartialEq, Eq, Structural)]
pub struct Delta(pub u32);

/// The second-order price sensitivity, as a single-precision bit pattern.
#[derive(Clone, Copy, Debug, PartialEq, Eq, Structural)]
pub struct Gamma(pub u32);

/// The time sensitivity, as a single-precision bit pattern.
#[derive(Clone, Copy, Debug, PartialEq, Eq, Structural)]
pub struct Theta(pub u32);

/// Whether `r` is a delta the kernels admit at the node with the given
/// moves: the difference of the child slot values `vu` and `vd` over the
/// difference `h` of the child prices, both children priced by the
/// multiplication kernel from the spot; zero when `h` is a zero (the
/// degenerate-volatility guard).
pub open spec fn delta_rel<
    FM: Fn(u32, u32) -> u32,
    FS: Fn(u32, u32) -> u32,
    FD: Fn(u32, u32) -> u32,
>(
    spot: u32,
    up_factor: u32,
    down_factor: u32,
    moves: Seq<UpDown>,
    vu: u32,
    vd: u32,
    multiply: FM,
    subtract: FS,
    divide: FD,
    r: Delta,
) -> bool {
    exists|pu: u32, pd: u32, h: u32|
        price_fold_rel(multiply, spot, up_factor, down_factor, moves.push(UpDown::Up), pu)
            && price_fold_rel(multiply, spot, up_factor, down_factor, moves.push(UpDown::Down), pd)
            && #[trigger] call_ensures(subtract, (pu, pd), h) && (if is_zero_bits(h) {
            r == Delta(F32_ZERO_BITS)
        } else {
            exists|num: u32, q: u32|
                #[trigger] call_ensures(subtract, (vu, vd), num) && #[trigger] call_ensures(
                    divide,
                    (num, h),
                    q,
                ) && r == Delta(q)
        })
}

/// The quotient part of gamma: the difference of the two given deltas
/// over the difference of the prices at the two depth-one nodes; zero
/// when that price difference is a zero (the degenerate-volatility guard,
/// the same one delta has).
pub open spec fn gamma_quotient_rel<
    FM: Fn(u32, u32) -> u32,
    FS: Fn(u32, u32) -> u32,
    FD: Fn(u32, u32) -> u32,
>(
    spot: u32,
    up_factor: u32,
    down_factor: u32,
    multiply: FM,
    subtract: FS,
    divide: FD,
    du: Delta,
    dd: Delta,
    r: Gamma,
) -> bool {
    exists|pu: u32, pd: u32, h: u32|
        price_fold_rel(multiply, spot, up_factor, down_factor, canonical_name(1, 0), pu)
            && price_fold_rel(multiply, spot, up_factor, down_factor, canonical_name(0, 1), pd)
            && #[trigger] call_ensures(subtract, (pu, pd), h) && (if is_zero_bits(h) {
            r == Gamma(F32_ZERO_BITS)
        } else {
            exists|num: u32, q: u32|
                #[trigger] call_ensures(subtract, (du.0, dd.0), num) && #[trigger] call_ensures(
                    divide,
                    (num, h),
                    q,
                ) && r == Gamma(q)
        })
}

/// Whether `r` is a gamma the kernels admit: the difference of the deltas
/// at the two depth-one nodes, each taken over its own depth-two
/// sub-lattice, over the difference of the prices at those nodes.
pub open spec fn gamma_rel<
    FM: Fn(u32, u32) -> u32,
    FS: Fn(u32, u32) -> u32,
    FD: Fn(u32, u32) -> u32,
>(
    spot: u32,
    up_factor: u32,
    down_factor: u32,
    slots: Seq<Seq<Option<u32>>>,
    multiply: FM,
    subtract: FS,
    divide: FD,
    r: Gamma,
) -> bool {
    exists|du: Delta, dd: Delta|
        #[trigger] delta_rel(
            spot,
            up_factor,
            down_factor,
            canonical_name(1, 0),
            slots[2][2].unwrap(),
            slots[2][1].unwrap(),
            multiply,
            subtract,
            divide,
            du,
        ) && #[trigger] delta_rel(
            spot,
            up_factor,
            down_factor,
            canonical_name(0, 1),
            slots[2][1].unwrap(),
            slots[2][0].unwrap(),
            multiply,
            subtract,
            divide,
            dd,
        ) && gamma_quotient_rel(spot, up_factor, down_factor, multiply, subtract, divide, du, dd, r)
}

/// Whether `r` is a theta the kernels admit: the value two steps ahead on
/// the recombined price, less the root value, over twice the time step.
pub open spec fn theta_rel<FM: Fn(u32, u32) -> u32, FS: Fn(u32, u32) -> u32, FD: Fn(
    u32,
    u32,
) -> u32>(
    time_step: u32,
    slots: Seq<Seq<Option<u32>>>,
    multiply: FM,
    subtract: FS,
    divide: FD,
    r: Theta,
) -> bool {
    exists|num: u32, den: u32, q: u32|
        #[trigger] call_ensures(subtract, (slots[2][1].unwrap(), slots[0][0].unwrap()), num)
            && #[trigger] call_ensures(multiply, (F32_TWO_BITS, time_step), den) && #[trigger] call_ensures(
            divide,
            (num, den),
            q,
        ) && r == Theta(q)
}

impl<Stack: BinomialTreeStack> EvaluatedBinomialTreeModelImpl<Stack> {
    /// The container is consistent, sized for the model's stack, and
    /// fully evaluated.
    pub open spec fn wf(self) -> bool {
        self.map.wf() && self.map.depth() == self.model.stack.depth() && all_set(self.map.slots())
            && self.model.stack.wf() && self.model.stack.depth() < usize::MAX - 1
    }

    /// The option value: the root slot. Reading mutates nothing, so any
    /// number of reads return this same value.
    pub fn value(&self) -> (r: Value)
        requires
            self.wf(),
        ensures
            r == Value(self.map.slots()[0][0].unwrap()),
    {
        let initial_node = NodeName2::default();
        proof {
            self.map.lemma_wf_shape();
            assert(initial_node.moves() =~= Seq::<UpDown>::empty());
        }
        let slot = self.map.get(&initial_node);
        Value(slot.unwrap().unwrap())
    }

    /// Delta at the root: finite difference over the two depth-one nodes.
    pub fn delta<
        FM: Fn(u32, u32) -> u32 + Copy,
        FS: Fn(u32, u32) -> u32 + Copy,
        FD: Fn(u32, u32) -> u32 + Copy,
    >(&self, multiply: FM, subtract: FS, divide: FD) -> (r: Delta)
        requires
            self.wf(),
            self.map.depth() >= 1,
            binary_kernel_total(multiply),
            binary_kernel_total(subtract),
            binary_kernel_total(divide),
        ensures
            delta_rel(
                self.model.spot.0,
                self.model.params.u,
                self.model.params.d,
                Seq::<UpDown>::empty(),
                self.map.slots()[1][1].unwrap(),
                self.map.slots()[1][0].unwrap(),
                multiply,
                subtract,
                divide,
                r,
            ),
    {
        let initial_node = NodeName2::default();
        proof {
            assert(initial_node.moves() =~= Seq::<UpDown>::empty());
        }
        self.delta_from(&initial_node, multiply, subtract, divide)
    }

    /// Delta at any interior node, from the two nodes one level deeper:
    /// the difference of their values over the difference of their
    /// prices, zero when the price difference is a zero.
    fn delta_from<
        FM: Fn(u32, u32) -> u32 + Copy,
        FS: Fn(u32, u32) -> u32 + Copy,
        FD: Fn(u32, u32) -> u32 + Copy,
    >(&self, from_node: &NodeName2, multiply: FM, subtract: FS, divide: FD) -> (r: Delta)
        requires
            self.wf(),
            from_node.wf(),
            from_node.direction is None,
            from_node.depth() + 1 <= self.map.depth(),
            from_node.name@.len() < usize::MAX - 1,
            binary_kernel_total(multiply),
            binary_kernel_total(subtract),
            binary_kernel_total(divide),
        ensures
            delta_rel(
                self.model.spot.0,
                self.model.params.u,
                self.model.params.d,
                from_node.moves(),
                self.map.slots()[from_node.depth() as int + 1][from_node.ups() as int + 1].unwrap(),
                self.map.slots()[from_node.depth() as int + 1][from_node.ups() as int].unwrap(),
                multiply,
                subtract,
                divide,
                r,
            ),
    {
        proof {
            self.map.lemma_wf_shape();
        }
        let last_up = from_node.up();
        let last_up_value = self.map.get(&last_up).unwrap().unwrap();
        let last_down = from_node.down();
        let last_down_value = self.map.get(&last_down).unwrap().unwrap();
        let pu = last_up.value(self.model.spot.0, self.model.params.u, self.model.params.d, multiply);
        let pd = last_down.value(
            self.model.spot.0,
            self.model.params.u,
            self.model.params.d,
            multiply,
        );
        let h = subtract(pu, pd);
        if !crate::float_bits::eq_zero_bits(h) {
            let num = subtract(last_up_value, last_down_value);
            let q = divide(num, h);
            Delta(q)
        } else {
            Delta(F32_ZERO_BITS)
        }
    }

    /// Gamma at the root: the finite difference of the deltas at the two
    /// depth-one nodes over the difference of their prices, zero when the
    /// price difference is a zero.
    pub fn gamma<
        FM: Fn(u32, u32) -> u32 + Copy,
        FS: Fn(u32, u32) -> u32 + Copy,
        FD: Fn(u32, u32) -> u32 + Copy,
    >(&self, multiply: FM, subtract: FS, divide: FD) -> (r: Gamma)
        requires
            self.wf(),
            self.map.depth() >= 2,
            binary_kernel_total(multiply),
            binary_kernel_total(subtract),
            binary_kernel_total(divide),
        ensures
            gamma_rel(
                self.model.spot.0,
                self.model.params.u,
                self.model.params.d,
                self.map.slots(),
                multiply,
                subtract,
                divide,
                r,
            ),
    {
        proof {
            self.map.lemma_wf_shape();
        }
        let node_u = NodeName2::canonical(1, 0);
        let node_d = NodeName2::canonical(0, 1);
        let delta_u = self.delta_from(&node_u, multiply, subtract, divide);
        let delta_d = self.delta_from(&node_d, multiply, subtract, divide);
        let price_u = node_u.value(
            self.model.spot.0,
            self.model.params.u,
            self.model.params.d,
            multiply,
        );
        let price_d = node_d.value(
            self.model.spot.0,
            self.model.params.u,
            self.model.params.d,
            multiply,
        );
        let h = subtract(price_u, price_d);
        if !crate::float_bits::eq_zero_bits(h) {
            let num = subtract(delta_u.0, delta_d.0);
            let q = divide(num, h);
            Gamma(q)
        } else {
            Gamma(F32_ZERO_BITS)
        }
    }

    /// Theta at the root: the value two steps ahead at the node that
    /// recombines back onto the root's price, less the root value, over
    /// twice the time step. The time step must not be a zero.
    pub fn theta<
        FM: Fn(u32, u32) -> u32 + Copy,
        FS: Fn(u32, u32) -> u32 + Copy,
        FD: Fn(u32, u32) -> u32 + Copy,
    >(&self, multiply: FM, subtract: FS, divide: FD) -> (r: Theta)
        requires
            self.wf(),
            self.map.depth() >= 2,
            !is_zero_bits(self.model.time_step),
            binary_kernel_total(multiply),
            binary_kernel_total(subtract),
            binary_kernel_total(divide),
        ensures
            theta_rel(
                self.model.time_step,
                self.map.slots(),
                multiply,
                subtract,
                divide,
                r,
            ),
    {
        proof {
            self.map.lemma_wf_shape();
        }
        let initial_node = NodeName2::default();
        proof {
            assert(initial_node.moves() =~= Seq::<UpDown>::empty());
        }
        let val_0 = self.map.get(&initial_node).unwrap().unwrap();
        let val_2 = self.map.get_next_step(&initial_node).unwrap().unwrap();
        let num = subtract(val_2, val_0);
        let den = multiply(F32_TWO_BITS, self.model.time_step);
        let q = divide(num, den);
        Theta(q)
    }

    /// The whole bundle: value, delta, gamma and theta of one evaluated
    /// lattice. Reading mutates nothing, so repeated reads see the same
    /// container.
    pub fn greeks<
        FM: Fn(u32, u32) -> u32 + Copy,
        FS: Fn(u32, u32) -> u32 + Copy,
        FD: Fn(u32, u32) -> u32 + Copy,
    >(&self, multiply: FM, subtract: FS, divide: FD) -> (r: Greeks)
        requires
            self.wf(),
            self.map.depth() >= 2,
            !is_zero_bits(self.model.time_step),
            binary_kernel_total(multiply),
            binary_kernel_total(subtract),
            binary_kernel_total(divide),
        ensures
            r.value == Value(self.map.slots()[0][0].unwrap()),
            delta_rel(
                self.model.spot.0,
                self.model.params.u,
                self.model.params.d,
                Seq::<UpDown>::empty(),
                self.map.slots()[1][1].unwrap(),
                self.map.slots()[1][0].unwrap(),
                multiply,
                subtract,
                divide,
                r.delta,
            ),
            gamma_rel(
                self.model.spot.0,
                self.model.params.u,
                self.model.params.d,
                self.map.slots(),
                multiply,
                subtract,
                divide,
                r.gamma,
            ),
            theta_rel(
                self.model.time_step,
                self.map.slots(),
                multiply,
                subtract,
                divide,
                r.theta,
            ),
    {
        Greeks {
            value: self.value(),
            delta: self.delta(multiply, subtract, divide),
            gamma: self.gamma(multiply, subtract, divide),
            theta: self.theta(multiply, subtract, divide),
        }
    }
}

/// One level of the agreement proof behind
/// [`lemma_evaluation_deterministic`]: from the deepest level down to
/// level `d`, two evaluated tables agree slot for slot.
proof fn lemma_levels_agree<FC: Fn(u32, u32) -> u32, FV: Fn(u32, u32) -> u32, FP: Fn(u32) -> u32>(
    combine: FC,
    node_value: FV,
    payoff: FP,
    prices: Seq<Seq<u32>>,
    s1: Seq<Seq<Option<u32>>>,
    s2: Seq<Seq<Option<u32>>>,
    n: int,
    d: int,
)
    requires
        binary_kernel_deterministic(combine),
        binary_kernel_deterministic(node_value),
        unary_kernel_deterministic(payoff),
        evaluated_rel(combine, node_value, payoff, prices, s1, n),
        evaluated_rel(combine, node_value, payoff, prices, s2, n),
        0 <= d <= n,
    ensures
        forall|u: int| 0 <= u <= d ==> s1[d][u].unwrap() == #[trigger] s2[d][u].unwrap(),
    decreases n - d,
{
    if d == n {
        assert forall|u: int| 0 <= u <= d implies s1[d][u].unwrap() == #[trigger] s2[d][u].unwrap() by {
            assert(call_ensures(payoff, (prices[n][u],), s1[n][u].unwrap()));
            assert(call_ensures(payoff, (prices[n][u],), s2[n][u].unwrap()));
        }
    } else {
        lemma_levels_agree(combine, node_value, payoff, prices, s1, s2, n, d + 1);
        assert forall|u: int| 0 <= u <= d implies s1[d][u].unwrap() == #[trigger] s2[d][u].unwrap() by {
            assert(node_rel(
                combine,
                node_value,
                s1[d + 1][u + 1].unwrap(),
                s1[d + 1][u].unwrap(),
                prices[d][u],
                s1[d][u].unwrap(),
            ));
            assert(node_rel(
                combine,
                node_value,
                s2[d + 1][u + 1].unwrap(),
                s2[d + 1][u].unwrap(),
                prices[d][u],
                s2[d][u].unwrap(),
            ));
            let c1 = choose|c: u32|
                #[trigger] call_ensures(
                    combine,
                    (s1[d + 1][u + 1].unwrap(), s1[d + 1][u].unwrap()),
                    c,
                ) && call_ensures(node_value, (c, prices[d][u]), s1[d][u].unwrap());
            let c2 = choose|c: u32|
                #[trigger] call_ensures(
                    combine,
                    (s2[d + 1][u + 1].unwrap(), s2[d + 1][u].unwrap()),
                    c,
                ) && call_ensures(node_value, (c, prices[d][u]), s2[d][u].unwrap());
            assert(s1[d + 1][u + 1].unwrap() == s2[d + 1][u + 1].unwrap());
            assert(s1[d + 1][u].unwrap() == s2[d + 1][u].unwrap());
            assert(c1 == c2);
        }
    }
}

/// The backward induction has exactly one outcome when the kernels
/// compute functions: two fully evaluated slot tables over the same price
/// table and the same kernels agree slot for slot. Interchangeable
/// container backings therefore return identical bits for identical
/// inputs, however their storage differs.
pub proof fn lemma_evaluation_deterministic<
    FC: Fn(u32, u32) -> u32,
    FV: Fn(u32, u32) -> u32,
    FP: Fn(u32) -> u32,
>(
    combine: FC,
    node_value: FV,
    payoff: FP,
    prices: Seq<Seq<u32>>,
    s1: Seq<Seq<Option<u32>>>,
    s2: Seq<Seq<Option<u32>>>,
    n: int,
)
    requires
        binary_kernel_deterministic(combine),
        binary_kernel_deterministic(node_value),
        unary_kernel_deterministic(payoff),
        evaluated_rel(combine, node_value, payoff, prices, s1, n),
        evaluated_rel(combine, node_value, payoff, prices, s2, n),
        n >= 0,
    ensures
        forall|d: int, u: int|
            0 <= d <= n && 0 <= u <= d ==> s1[d][u].unwrap() == #[trigger] s2[d][u].unwrap(),
{
    assert forall|d: int, u: int|
        0 <= d <= n && 0 <= u <= d implies s1[d][u].unwrap() == #[trigger] s2[d][u].unwrap() by {
        lemma_levels_agree(combine, node_value, payoff, prices, s1, s2, n, d);
    }
}

/// The order holds between every value and itself.
pub open spec fn leq_reflexive(leq: spec_fn(u32, u32) -> bool) -> bool {
    forall|x: u32| #[trigger] leq(x, x)
}

/// The order chains.
pub open spec fn leq_transitive(leq: spec_fn(u32, u32) -> bool) -> bool {
    forall|x: u32, y: u32, z: u32| #[trigger] leq(x, y) && #[trigger] leq(y, z) ==> leq(x, z)
}

/// Raising either child value can only raise what the combine kernel
/// returns: the discounted expectation is monotone when the probability
/// weights and the discount are non-negative.
pub open spec fn combine_monotone<FC: Fn(u32, u32) -> u32>(
    combine: FC,
    leq: spec_fn(u32, u32) -> bool,
) -> bool {
    forall|a1: u32, b1: u32, r1: u32, a2: u32, b2: u32, r2: u32|
        #[trigger] call_ensures(combine, (a1, b1), r1) && #[trigger] call_ensures(
            combine,
            (a2, b2),
            r2,
        ) && leq(a1, a2) && leq(b1, b2) ==> leq(r1, r2)
}

/// The per-node rule never returns less than the continuation it was
/// given: taking a maximum with the intrinsic value has this shape.
pub open spec fn rule_dominates_continuation<FV: Fn(u32, u32) -> u32>(
    node_value: FV,
    leq: spec_fn(u32, u32) -> bool,
) -> bool {
    forall|c: u32, p: u32, r: u32| #[trigger] call_ensures(node_value, (c, p), r) ==> leq(c, r)
}

/// The per-node rule returns the continuation unchanged: the European
/// rule has this shape.
pub open spec fn rule_passes_continuation<FV: Fn(u32, u32) -> u32>(node_value: FV) -> bool {
    forall|c: u32, p: u32, r: u32| #[trigger] call_ensures(node_value, (c, p), r) ==> r == c
}

/// One level of the domination proof behind
/// [`lemma_early_exercise_dominates`]: from the deepest level down to
/// level `d`, every slot of the early-exercise table dominates the
/// matching slot of the hold-to-expiry table.
proof fn lemma_levels_dominate<
    FC: Fn(u32, u32) -> u32,
    FVA: Fn(u32, u32) -> u32,
    FVE: Fn(u32, u32) -> u32,
    FP: Fn(u32) -> u32,
>(
    combine: FC,
    rule_am: FVA,
    rule_eu: FVE,
    payoff: FP,
    prices: Seq<Seq<u32>>,
    s_am: Seq<Seq<Option<u32>>>,
    s_eu: Seq<Seq<Option<u32>>>,
    n: int,
    d: int,
    leq: spec_fn(u32, u32) -> bool,
)
    requires
        leq_reflexive(leq),
        leq_transitive(leq),
        unary_kernel_deterministic(payoff),
        combine_monotone(combine, leq),
        rule_dominates_continuation(rule_am, leq),
        rule_passes_continuation(rule_eu),
        evaluated_rel(combine, rule_am, payoff, prices, s_am, n),
        evaluated_rel(combine, rule_eu, payoff, prices, s_eu, n),
        0 <= d <= n,
    ensures
        forall|u: int| 0 <= u <= d ==> #[trigger] leq(s_eu[d][u].unwrap(), s_am[d][u].unwrap()),
    decreases n - d,
{
    if d == n {
        assert forall|u: int| 0 <= u <= d implies #[trigger] leq(
            s_eu[d][u].unwrap(),
            s_am[d][u].unwrap(),
        ) by {
            assert(call_ensures(payoff, (prices[n][u],), s_am[n][u].unwrap()));
            assert(call_ensures(payoff, (prices[n][u],), s_eu[n][u].unwrap()));
            assert(s_am[n][u].unwrap() == s_eu[n][u].unwrap());
        }
    } else {
        lemma_levels_dominate(
            combine,
            rule_am,
            rule_eu,
            payoff,
            prices,
            s_am,
            s_eu,
            n,
            d + 1,
            leq,
        );
        assert forall|u: int| 0 <= u <= d implies #[trigger] leq(
            s_eu[d][u].unwrap(),
            s_am[d][u].unwrap(),
        ) by {
            assert(node_rel(
                combine,
                rule_am,
                s_am[d + 1][u + 1].unwrap(),
                s_am[d + 1][u].unwrap(),
                prices[d][u],
                s_am[d][u].unwrap(),
            ));
            assert(node_rel(
                combine,
                rule_eu,
                s_eu[d + 1][u + 1].unwrap(),
                s_eu[d + 1][u].unwrap(),
                prices[d][u],
                s_eu[d][u].unwrap(),
            ));
            let c_am = choose|c: u32|
                #[trigger] call_ensures(
                    combine,
                    (s_am[d + 1][u + 1].unwrap(), s_am[d + 1][u].unwrap()),
                    c,
                ) && call_ensures(rule_am, (c, prices[d][u]), s_am[d][u].unwrap());
            let c_eu = choose|c: u32|
                #[trigger] call_ensures(
                    combine,
                    (s_eu[d + 1][u + 1].unwrap(), s_eu[d + 1][u].unwrap()),
                    c,
                ) && call_ensures(rule_eu, (c, prices[d][u]), s_eu[d][u].unwrap());
            assert(leq(s_eu[d + 1][u + 1].unwrap(), s_am[d + 1][u + 1].unwrap()));
            assert(leq(s_eu[d + 1][u].unwrap(), s_am[d + 1][u].unwrap()));
            assert(leq(c_eu, c_am));
            assert(s_eu[d][u].unwrap() == c_eu);
            assert(leq(c_am, s_am[d][u].unwrap()));
        }
    }
}

/// An early-exercise option is never worth less than its hold-to-expiry
/// twin on identical parameters. Stated over any order on the value bits:
/// if the combine kernel is monotone under the order, the early-exercise
/// rule never returns less than its continuation, and the hold-to-expiry
/// rule returns its continuation unchanged, then slot for slot — the root
/// value included — the early-exercise table dominates.
pub proof fn lemma_early_exercise_dominates<
    FC: Fn(u32, u32) -> u32,
    FVA: Fn(u32, u32) -> u32,
    FVE: Fn(u32, u32) -> u32,
    FP: Fn(u32) -> u32,
>(
    combine: FC,
    rule_am: FVA,
    rule_eu: FVE,
    payoff: FP,
    prices: Seq<Seq<u32>>,
    s_am: Seq<Seq<Option<u32>>>,
    s_eu: Seq<Seq<Option<u32>>>,
    n: int,
    leq: spec_fn(u32, u32) -> bool,
)
    requires
        leq_reflexive(leq),
        leq_transitive(leq),
        unary_kernel_deterministic(payoff),
        combine_monotone(combine, leq),
        rule_dominates_continuation(rule_am, leq),
        rule_passes_continuation(rule_eu),
        evaluated_rel(combine, rule_am, payoff, prices, s_am, n),
        evaluated_rel(combine, rule_eu, payoff, prices, s_eu, n),
        n >= 0,
    ensures
        forall|d: int, u: int|
            0 <= d <= n && 0 <= u <= d ==> #[trigger] leq(s_eu[d][u].unwrap(), s_am[d][u].unwrap()),
{
    assert forall|d: int, u: int| 0 <= d <= n && 0 <= u <= d implies #[trigger] leq(
        s_eu[d][u].unwrap(),
        s_am[d][u].unwrap(),
    ) by {
        lemma_levels_dominate(combine, rule_am, rule_eu, payoff, prices, s_am, s_eu, n, d, leq);
    }
}

/// Kernels that compute functions admit exactly one delta for a node:
/// any two results the delta contract allows are equal.
pub proof fn lemma_delta_deterministic<
    FM: Fn(u32, u32) -> u32,
    FS: Fn(u32, u32) -> u32,
    FD: Fn(u32, u32) -> u32,
>(
    spot: u32,
    up_factor: u32,
    down_factor: u32,
    moves: Seq<UpDown>,
    vu: u32,
    vd: u32,
    multiply: FM,
    subtract: FS,
    divide: FD,
    r1: Delta,
    r2: Delta,
)
    requires
        binary_kernel_deterministic(multiply),
        binary_kernel_deterministic(subtract),
        binary_kernel_deterministic(divide),
        delta_rel(spot, up_factor, down_factor, moves, vu, vd, multiply, subtract, divide, r1),
        delta_rel(spot, up_factor, down_factor, moves, vu, vd, multiply, subtract, divide, r2),
    ensures
        r1 == r2,
{
    let (pu1, pd1, h1) = choose|pu: u32, pd: u32, h: u32|
        price_fold_rel(multiply, spot, up_factor, down_factor, moves.push(UpDown::Up), pu)
            && price_fold_rel(multiply, spot, up_factor, down_factor, moves.push(UpDown::Down), pd)
            && #[trigger] call_ensures(subtract, (pu, pd), h) && (if is_zero_bits(h) {
            r1 == Delta(F32_ZERO_BITS)
        } else {
            exists|num: u32, q: u32|
                #[trigger] call_ensures(subtract, (vu, vd), num) && #[trigger] call_ensures(
                    divide,
                    (num, h),
                    q,
                ) && r1 == Delta(q)
        });
    let (pu2, pd2, h2) = choose|pu: u32, pd: u32, h: u32|
        price_fold_rel(multiply, spot, up_factor, down_factor, moves.push(UpDown::Up), pu)
            && price_fold_rel(multiply, spot, up_factor, down_factor, moves.push(UpDown::Down), pd)
            && #[trigger] call_ensures(subtract, (pu, pd), h) && (if is_zero_bits(h) {
            r2 == Delta(F32_ZERO_BITS)
        } else {
            exists|num: u32, q: u32|
                #[trigger] call_ensures(subtract, (vu, vd), num) && #[trigger] call_ensures(
                    divide,
                    (num, h),
                    q,
                ) && r2 == Delta(q)
        });
    crate::kernel::lemma_price_fold_deterministic(
        multiply,
        spot,
        up_factor,
        down_factor,
        moves.push(UpDown::Up),
        pu1,
        pu2,
    );
    crate::kernel::lemma_price_fold_deterministic(
        multiply,
        spot,
        up_factor,
        down_factor,
        moves.push(UpDown::Down),
        pd1,
        pd2,
    );
    assert(h1 == h2);
    if !is_zero_bits(h1) {
        let (num1, q1) = choose|num: u32, q: u32|
            #[trigger] call_ensures(subtract, (vu, vd), num) && #[trigger] call_ensures(
                divide,
                (num, h1),
                q,
            ) && r1 == Delta(q);
        let (num2, q2) = choose|num: u32, q: u32|
            #[trigger] call_ensures(subtract, (vu, vd), num) && #[trigger] call_ensures(
                divide,
                (num, h2),
                q,
            ) && r2 == Delta(q);
        assert(num1 == num2);
        assert(q1 == q2);
    }
}

/// Kernels that compute functions admit exactly one gamma: any two
/// results the gamma contract allows are equal.
pub proof fn lemma_gamma_deterministic<
    FM: Fn(u32, u32) -> u32,
    FS: Fn(u32, u32) -> u32,
    FD: Fn(u32, u32) -> u32,
>(
    spot: u32,
    up_factor: u32,
    down_factor: u32,
    slots: Seq<Seq<Option<u32>>>,
    multiply: FM,
    subtract: FS,
    divide: FD,
    r1: Gamma,
    r2: Gamma,
)
    requires
        binary_kernel_deterministic(multiply),
        binary_kernel_deterministic(subtract),
        binary_kernel_deterministic(divide),
        gamma_rel(spot, up_factor, down_factor, slots, multiply, subtract, divide, r1),
        gamma_rel(spot, up_factor, down_factor, slots, multiply, subtract, divide, r2),
    ensures
        r1 == r2,
{
    let (du1, dd1) = choose|du: Delta, dd: Delta|
        #[trigger] delta_rel(
            spot,
            up_factor,
            down_factor,
            canonical_name(1, 0),
            slots[2][2].unwrap(),
            slots[2][1].unwrap(),
            multiply,
            subtract,
            divide,
            du,
        ) && #[trigger] delta_rel(
            spot,
            up_factor,
            down_factor,
            canonical_name(0, 1),
            slots[2][1].unwrap(),
            slots[2][0].unwrap(),
            multiply,
            subtract,
            divide,
            dd,
        ) && gamma_quotient_rel(spot, up_factor, down_factor, multiply, subtract, divide, du, dd, r1);
    let (du2, dd2) = choose|du: Delta, dd: Delta|
        #[trigger] delta_rel(
            spot,
            up_factor,
            down_factor,
            canonical_name(1, 0),
            slots[2][2].unwrap(),
            slots[2][1].unwrap(),
            multiply,
            subtract,
            divide,
            du,
        ) && #[trigger] delta_rel(
            spot,
            up_factor,
            down_factor,
            canonical_name(0, 1),
            slots[2][1].unwrap(),
            slots[2][0].unwrap(),
            multiply,
            subtract,
            divide,
            dd,
        ) && gamma_quotient_rel(spot, up_factor, down_factor, multiply, subtract, divide, du, dd, r2);
    lemma_delta_deterministic(
        spot,
        up_factor,
        down_factor,
        canonical_name(1, 0),
        slots[2][2].unwrap(),
        slots[2][1].unwrap(),
        multiply,
        subtract,
        divide,
        du1,
        du2,
    );
    lemma_delta_deterministic(
        spot,
        up_factor,
        down_factor,
        canonical_name(0, 1),
        slots[2][1].unwrap(),
        slots[2][0].unwrap(),
        multiply,
        subtract,
        divide,
        dd1,
        dd2,
    );
    let (pu1, pd1, h1) = choose|pu: u32, pd: u32, h: u32|
        price_fold_rel(multiply, spot, up_factor, down_factor, canonical_name(1, 0), pu)
            && price_fold_rel(multiply, spot, up_factor, down_factor, canonical_name(0, 1), pd)
            && #[trigger] call_ensures(subtract, (pu, pd), h) && (if is_zero_bits(h) {
            r1 == Gamma(F32_ZERO_BITS)
        } else {
            exists|num: u32, q: u32|
                #[trigger] call_ensures(subtract, (du1.0, dd1.0), num) && #[trigger] call_ensures(
                    divide,
                    (num, h),
                    q,
                ) && r1 == Gamma(q)
        });
    let (pu2, pd2, h2) = choose|pu: u32, pd: u32, h: u32|
        price_fold_rel(multiply, spot, up_factor, down_factor, canonical_name(1, 0), pu)
            && price_fold_rel(multiply, spot, up_factor, down_factor, canonical_name(0, 1), pd)
            && #[trigger] call_ensures(subtract, (pu, pd), h) && (if is_zero_bits(h) {
            r2 == Gamma(F32_ZERO_BITS)
        } else {
            exists|num: u32, q: u32|
                #[trigger] call_ensures(subtract, (du2.0, dd2.0), num) && #[trigger] call_ensures(
                    divide,
                    (num, h),
                    q,
                ) && r2 == Gamma(q)
        });
    crate::kernel::lemma_price_fold_deterministic(
        multiply,
        spot,
        up_factor,
        down_factor,
        canonical_name(1, 0),
        pu1,
        pu2,
    );
    crate::kernel::lemma_price_fold_deterministic(
        multiply,
        spot,
        up_factor,
        down_factor,
        canonical_name(0, 1),
        pd1,
        pd2,
    );
    assert(h1 == h2);
    if !is_zero_bits(h1) {
        let (num1, q1) = choose|num: u32, q: u32|
            #[trigger] call_ensures(subtract, (du1.0, dd1.0), num) && #[trigger] call_ensures(
                divide,
                (num, h1),
                q,
            ) && r1 == Gamma(q);
        let (num2, q2) = choose|num: u32, q: u32|
            #[trigger] call_ensures(subtract, (du2.0, dd2.0), num) && #[trigger] call_ensures(
                divide,
                (num, h2),
                q,
            ) && r2 == Gamma(q);
        assert(num1 == num2);
        assert(q1 == q2);
    }
}

/// Kernels that compute functions admit exactly one theta: any two
/// results the theta contract allows are equal.
pub proof fn lemma_theta_deterministic<
    FM: Fn(u32, u32) -> u32,
    FS: Fn(u32, u32) -> u32,
    FD: Fn(u32, u32) -> u32,
>(
    time_step: u32,
    slots: Seq<Seq<Option<u32>>>,
    multiply: FM,
    subtract: FS,
    divide: FD,
    r1: Theta,
    r2: Theta,
)
    requires
        binary_kernel_deterministic(multiply),
        binary_kernel_deterministic(subtract),
        binary_kernel_deterministic(divide),
        theta_rel(time_step, slots, multiply, subtract, divide, r1),
        theta_rel(time_step, slots, multiply, subtract, divide, r2),
    ensures
        r1 == r2,
{
    let (num1, den1, q1) = choose|num: u32, den: u32, q: u32|
        #[trigger] call_ensures(subtract, (slots[2][1].unwrap(), slots[0][0].unwrap()), num)
            && #[trigger] call_ensures(multiply, (F32_TWO_BITS, time_step), den)
            && #[trigger] call_ensures(divide, (num, den), q) && r1 == Theta(q);
    let (num2, den2, q2) = choose|num: u32, den: u32, q: u32|
        #[trigger] call_ensures(subtract, (slots[2][1].unwrap(), slots[0][0].unwrap()), num)
            && #[trigger] call_ensures(multiply, (F32_TWO_BITS, time_step), den)
            && #[trigger] call_ensures(divide, (num, den), q) && r2 == Theta(q);
    assert(num1 == num2);
    assert(den1 == den2);
    assert(q1 == q2);
}

/// Reading is idempotent: `greeks` pins the value exactly, and once the
/// kernels compute functions its contract admits exactly one delta, one
/// gamma and one theta, so any two bundles read from the same evaluated
/// lattice with the same kernels are identical.
pub proof fn lemma_greeks_deterministic<
    FM: Fn(u32, u32) -> u32,
    FS: Fn(u32, u32) -> u32,
    FD: Fn(u32, u32) -> u32,
>(
    spot: u32,
    up_factor: u32,
    down_factor: u32,
    time_step: u32,
    slots: Seq<Seq<Option<u32>>>,
    multiply: FM,
    subtract: FS,
    divide: FD,
    g1: Greeks,
    g2: Greeks,
)
    requires
        binary_kernel_deterministic(multiply),
        binary_kernel_deterministic(subtract),
        binary_kernel_deterministic(divide),
        g1.value == g2.value,
        delta_rel(
            spot,
            up_factor,
            down_factor,
            Seq::<UpDown>::empty(),
            slots[1][1].unwrap(),
            slots[1][0].unwrap(),
            multiply,
            subtract,
            divide,
            g1.delta,
        ),
        delta_rel(
            spot,
            up_factor,
            down_factor,
            Seq::<UpDown>::empty(),
            slots[1][1].unwrap(),
            slots[1][0].unwrap(),
            multiply,
            subtract,
            divide,
            g2.delta,
        ),
        gamma_rel(spot, up_factor, down_factor, slots, multiply, subtract, divide, g1.gamma),
        gamma_rel(spot, up_factor, down_factor, slots, multiply, subtract, divide, g2.gamma),
        theta_rel(time_step, slots, multiply, subtract, divide, g1.theta),
        theta_rel(time_step, slots, multiply, subtract, divide, g2.theta),
    ensures
        g1 == g2,
{
    lemma_delta_deterministic(
        spot,
        up_factor,
        down_factor,
        Seq::<UpDown>::empty(),
        slots[1][1].unwrap(),
        slots[1][0].unwrap(),
        multiply,
        subtract,
        divide,
        g1.delta,
        g2.delta,
    );
    lemma_gamma_deterministic(
        spot,
        up_factor,
        down_factor,
        slots,
        multiply,
        subtract,
        divide,
        g1.gamma,
        g2.gamma,
    );
    lemma_theta_deterministic(time_step, slots, multiply, subtract, divide, g1.theta, g2.theta);
}

/// With no steps at all the lattice has one node, and an evaluated
/// container holds at its root a payoff of the root price: over zero
/// steps the value is the instrument's intrinsic value at the spot, with
/// no induction step run.
pub proof fn lemma_zero_steps_value<
    FC: Fn(u32, u32) -> u32,
    FV: Fn(u32, u32) -> u32,
    FP: Fn(u32) -> u32,
>(
    combine: FC,
    node_value: FV,
    payoff: FP,
    prices: Seq<Seq<u32>>,
    slots: Seq<Seq<Option<u32>>>,
)
    requires
        evaluated_rel(combine, node_value, payoff, prices, slots, 0),
    ensures
        call_ensures(payoff, (prices[0][0],), slots[0][0].unwrap()),
{
}

} // verus!

