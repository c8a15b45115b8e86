//! Node addressing for the recombining binomial lattice.
//!
//! A node is reached from the root by a sequence of up and down moves, and
//! the lattice recombines: two sequences with the same number of ups and
//! the same number of downs land on the same node. An address is therefore
//! canonically the pair (number of ups, number of downs); the sequence
//! forms kept here preserve that: [`NodeName`] keeps its move list sorted
//! (ups in front, downs behind) by prepending on `up` and appending on
//! `down`, and [`NodeName2`] shares a sorted list and carries at most one
//! pending move beside it, so deriving a child address never reorders the
//! parent's list.

use vstd::prelude::*;

use crate::kernel::{binary_kernel_total, price_fold_rel};

verus! {

/// One step in the lattice. `Initial` marks the root in parsed move
/// strings and contributes nothing to an address.
#[derive(Clone, Copy, Debug, PartialEq, Eq, Structural)]
pub enum UpDown {
    Initial,
    Up,
    Down,
}

/// How many `Up` moves a sequence holds.
pub open spec fn ups_in(s: Seq<UpDown>) -> nat
    decreases s.len(),
{
    if s.len() == 0 {
        0
    } else {
        ups_in(s.drop_last()) + (if s.last() == UpDown::Up {
            1nat
        } else {
            0nat
        })
    }
}

/// How many `Down` moves a sequence holds.
pub open spec fn downs_in(s: Seq<UpDown>) -> nat
    decreases s.len(),
{
    if s.len() == 0 {
        0
    } else {
        downs_in(s.drop_last()) + (if s.last() == UpDown::Down {
            1nat
        } else {
            0nat
        })
    }
}

/// The depth a sequence of moves reaches: `Initial` does not count.
pub open spec fn depth_of(s: Seq<UpDown>) -> nat {
    ups_in(s) + downs_in(s)
}

/// The sorted move list with `u` ups followed by `d` downs: the canonical
/// name of the node at depth `u + d` reached by `u` up moves.
pub open spec fn canonical_name(u: nat, d: nat) -> Seq<UpDown> {
    Seq::new(u + d, |i: int| if i < u { UpDown::Up } else { UpDown::Down })
}

/// The move list `up` produces: the new move in front keeps a sorted list
/// sorted.
pub open spec fn up_spec(s: Seq<UpDown>) -> Seq<UpDown> {
    seq![UpDown::Up].add(s)
}

/// The move list `down` produces: the new move behind keeps a sorted list
/// sorted.
pub open spec fn down_spec(s: Seq<UpDown>) -> Seq<UpDown> {
    s.push(UpDown::Down)
}

impl UpDown {
    /// The move a one-letter form stands for: `I`, `U` or `D`; any other
    /// letter stands for none.
    pub open spec fn try_from_spec(value: char) -> Option<UpDown> {
        if value == 'I' {
            Some(UpDown::Initial)
        } else if value == 'U' {
            Some(UpDown::Up)
        } else if value == 'D' {
            Some(UpDown::Down)
        } else {
            None
        }
    }

    /// Parses the one-letter form of a move.
    pub fn try_from(value: char) -> (r: Result<UpDown, ()>)
        ensures
            r == match UpDown::try_from_spec(value) {
                Some(m) => Ok::<UpDown, ()>(m),
                None => Err::<UpDown, ()>(()),
            },
    {
        match value {
            'I' => Ok(UpDown::Initial),
            'U' => Ok(UpDown::Up),
            'D' => Ok(UpDown::Down),
            _ => Err(()),
        }
    }
}

/// An element-by-element copy of a move list.
fn copy_updowns(src: &Vec<UpDown>) -> (r: Vec<UpDown>)
    ensures
        r@ == src@,
{
    let mut r: Vec<UpDown> = Vec::new();
    let mut i: usize = 0;
    while i < src.len()
        invariant
            i <= src.len(),
            r@ == src@.take(i as int),
        decreases src.len() - i,
    {
        r.push(src[i]);
        i = i + 1;
        proof {
            assert(src@.take(i as int) == src@.take(i - 1).push(src@[i - 1]));
        }
    }
    proof {
        assert(src@.take(src@.len() as int) == src@);
    }
    r
}

/// Whether two move lists hold the same moves in the same order.
fn updown_vecs_eq(a: &Vec<UpDown>, b: &Vec<UpDown>) -> (r: bool)
    ensures
        r == (a@ == b@),
{
    if a.len() != b.len() {
        proof {
            assert(a@ != b@);
        }
        return false;
    }
    let mut i: usize = 0;
    while i < a.len()
        invariant
            i <= a.len(),
            a@.len() == b@.len(),
            forall|k: int| 0 <= k < i ==> a@[k] == b@[k],
        decreases a.len() - i,
    {
        if a[i] != b[i] {
            proof {
                assert(a@ != b@);
            }
            return false;
        }
        i = i + 1;
    }
    proof {
        assert(a@ =~= b@);
    }
    true
}

/// Folds the given moves into a price: starting from `initial_value`, one
/// multiplication per move, by the up factor for an up move and the down
/// factor for a down move; root marks multiply nothing in.
fn fold_prices<F: Fn(u32, u32) -> u32 + Copy>(
    moves: &Vec<UpDown>,
    initial_value: u32,
    up_value: u32,
    down_value: u32,
    multiply: F,
) -> (r: u32)
    requires
        binary_kernel_total(multiply),
    ensures
        price_fold_rel(multiply, initial_value, up_value, down_value, moves@, r),
{
    let mut value = initial_value;
    let mut i: usize = 0;
    while i < moves.len()
        invariant
            i <= moves@.len(),
            binary_kernel_total(multiply),
            price_fold_rel(multiply, initial_value, up_value, down_value, moves@.take(i as int), value),
        decreases moves@.len() - i,
    {
        proof {
            assert(moves@.take(i + 1).drop_last() =~= moves@.take(i as int));
            assert(moves@.take(i + 1).last() == moves@[i as int]);
        }
        match moves[i] {
            UpDown::Initial => {
            },
            UpDown::Up => {
                let next = multiply(value, up_value);
                proof {
                    assert(price_fold_rel(
                        multiply,
                        initial_value,
                        up_value,
                        down_value,
                        moves@.take(i + 1),
                        next,
                    ));
                }
                value = next;
            },
            UpDown::Down => {
                let next = multiply(value, down_value);
                proof {
                    assert(price_fold_rel(
                        multiply,
                        initial_value,
                        up_value,
                        down_value,
                        moves@.take(i + 1),
                        next,
                    ));
                }
                value = next;
            },
        }
        i = i + 1;
    }
    proof {
        assert(moves@.take(moves@.len() as int) =~= moves@);
    }
    value
}

/// A node address held as a whole move list, the form the dynamically
/// sized lattice works with. `up` prepends and `down` appends, so a list
/// that starts sorted stays sorted, and two addresses built that way from
/// the root are equal exactly when they agree on the counts of ups and
/// downs.
#[derive(Debug, Clone)]
pub struct NodeName {
    pub name: Vec<UpDown>,
}

impl NodeName {
    pub fn new(name: Vec<UpDown>) -> (r: NodeName)
        ensures
            r.name@ == name@,
    {
        NodeName { name }
    }

    /// The address one level deeper by an up move; the new move goes in
    /// front, which keeps a sorted list sorted.
    pub fn up(&self) -> (r: NodeName)
        ensures
            r.name@ == up_spec(self.name@),
    {
        let mut v: Vec<UpDown> = Vec::new();
        v.push(UpDown::Up);
        let mut i: usize = 0;
        while i < self.name.len()
            invariant
                i <= self.name.len(),
                v@ == seq![UpDown::Up].add(self.name@.take(i as int)),
            decreases self.name.len() - i,
        {
            v.push(self.name[i]);
            i = i + 1;
            proof {
                assert(self.name@.take(i as int) == self.name@.take(i - 1).push(
                    self.name@[i - 1],
                ));
                assert(seq![UpDown::Up].add(self.name@.take(i - 1)).push(self.name@[i - 1])
                    =~= seq![UpDown::Up].add(self.name@.take(i as int)));
            }
        }
        proof {
            assert(self.name@.take(self.name@.len() as int) == self.name@);
        }
        NodeName { name: v }
    }

    /// The address one level deeper by a down move; the new move goes at
    /// the back, which keeps a sorted list sorted.
    pub fn down(&self) -> (r: NodeName)
        ensures
            r.name@ == down_spec(self.name@),
    {
        let mut v = copy_updowns(&self.name);
        v.push(UpDown::Down);
        NodeName { name: v }
    }

    /// The moves of this address, in order.
    pub fn iter(&self) -> (r: Vec<UpDown>)
        ensures
            r@ == self.name@,
    {
        copy_updowns(&self.name)
    }

    /// The price at this address: the initial value with one factor
    /// multiplied in per move, using the caller's multiplication.
    pub fn value<F: Fn(u32, u32) -> u32 + Copy>(
        &self,
        initial_value: u32,
        up_probability: u32,
        down_probability: u32,
        multiply: F,
    ) -> (r: u32)
        requires
            binary_kernel_total(multiply),
        ensures
            price_fold_rel(multiply, initial_value, up_probability, down_probability, self.name@, r),
    {
        fold_prices(&self.name, initial_value, up_probability, down_probability, multiply)
    }

    /// Parses a move string such as `"IUD"`; rejects any other letter.
    pub fn try_from(value: &str) -> (r: Result<NodeName, ()>)
        ensures
            match r {
                Ok(n) => n.name@.len() == value@.len() && forall|i: int|
                    0 <= i < value@.len() ==> UpDown::try_from_spec(value@[i]) == Some(
                        #[trigger] n.name@[i],
                    ),
                Err(()) => exists|i: int|
                    0 <= i < value@.len() && UpDown::try_from_spec(#[trigger] value@[i]) is None,
            },
    {
        let len = value.unicode_len();
        let mut v: Vec<UpDown> = Vec::new();
        let mut i: usize = 0;
        while i < len
            invariant
                i <= len,
                len == value@.len(),
                v@.len() == i,
                forall|k: int|
                    0 <= k < i ==> UpDown::try_from_spec(value@[k]) == Some(#[trigger] v@[k]),
            decreases len - i,
        {
            let c = value.get_char(i);
            match UpDown::try_from(c) {
                Ok(m) => v.push(m),
                Err(()) => {
                    return Err(());
                },
            }
            i = i + 1;
        }
        Ok(NodeName { name: v })
    }
}

impl PartialEq for NodeName {
    /// Two addresses in list form are equal when the lists agree move for
    /// move.
    fn eq(&self, other: &NodeName) -> (r: bool) {
        updown_vecs_eq(&self.name, &other.name)
    }
}

impl vstd::std_specs::cmp::PartialEqSpecImpl for NodeName {
    open spec fn obeys_eq_spec() -> bool {
        true
    }

    open spec fn eq_spec(&self, other: &NodeName) -> bool {
        self.name@ == other.name@
    }
}

impl Eq for NodeName {

}

/// A node address held as a move list plus at most one pending move, the
/// form the statically sized lattice works with. Deriving a child address
/// only records the pending move and leaves the parent's list untouched,
/// and equality compares the node the address denotes: pending moves are
/// folded in and only the counts of ups and downs matter, so any two
/// spellings of one recombined node compare equal.
#[derive(Debug, Clone)]
pub struct NodeName2 {
    pub name: Vec<UpDown>,
    pub direction: Option<UpDown>,
}

impl NodeName2 {
    /// The whole move sequence this address denotes, pending move folded
    /// in at the back.
    pub open spec fn moves(self) -> Seq<UpDown> {
        match self.direction {
            Option::None => self.name@,
            Option::Some(m) => self.name@.push(m),
        }
    }

    /// How many up moves the address holds.
    pub open spec fn ups(self) -> nat {
        ups_in(self.moves())
    }

    /// How many down moves the address holds.
    pub open spec fn downs(self) -> nat {
        downs_in(self.moves())
    }

    /// The depth of the node: its distance from the root.
    pub open spec fn depth(self) -> nat {
        depth_of(self.moves())
    }

    /// A well-formed address holds no `Initial` marks.
    pub open spec fn wf(self) -> bool {
        (forall|i: int| 0 <= i < self.name@.len() ==> self.name@[i] != UpDown::Initial)
            && self.direction != Some(UpDown::Initial)
    }

    pub fn new(name: Vec<UpDown>) -> (r: NodeName2)
        ensures
            r.name@ == name@,
            r.direction is None,
    {
        NodeName2 { name, direction: None }
    }

    /// The address one level deeper by an up move, recorded beside the
    /// list rather than inside it.
    pub fn up(&self) -> (r: NodeName2)
        requires
            self.direction is None,
        ensures
            r.name@ == self.name@,
            r.direction == Some(UpDown::Up),
            r.moves() == self.moves().push(UpDown::Up),
            r.depth() == self.depth() + 1,
            r.ups() == self.ups() + 1,
            r.downs() == self.downs(),
            self.wf() ==> r.wf(),
    {
        proof {
            assert(self.moves().push(UpDown::Up).drop_last() =~= self.moves());
        }
        NodeName2 { name: copy_updowns(&self.name), direction: Some(UpDown::Up) }
    }

    /// The address one level deeper by a down move, recorded beside the
    /// list rather than inside it.
    pub fn down(&self) -> (r: NodeName2)
        requires
            self.direction is None,
        ensures
            r.name@ == self.name@,
            r.direction == Some(UpDown::Down),
            r.moves() == self.moves().push(UpDown::Down),
            r.depth() == self.depth() + 1,
            r.ups() == self.ups(),
            r.downs() == self.downs() + 1,
            self.wf() ==> r.wf(),
    {
        proof {
            assert(self.moves().push(UpDown::Down).drop_last() =~= self.moves());
        }
        NodeName2 { name: copy_updowns(&self.name), direction: Some(UpDown::Down) }
    }

    /// The moves of this address in order, pending move at the back.
    pub fn iter(&self) -> (r: Vec<UpDown>)
        ensures
            r@ == self.moves(),
    {
        let mut v = copy_updowns(&self.name);
        match self.direction {
            Some(m) => v.push(m),
            None => (),
        }
        v
    }

    /// The price at this address: the initial value with one factor
    /// multiplied in per move, pending move included, using the caller's
    /// multiplication.
    pub fn value<F: Fn(u32, u32) -> u32 + Copy>(
        &self,
        initial_value: u32,
        up_value: u32,
        down_value: u32,
        multiply: F,
    ) -> (r: u32)
        requires
            binary_kernel_total(multiply),
        ensures
            price_fold_rel(multiply, initial_value, up_value, down_value, self.moves(), r),
    {
        let moves = self.iter();
        fold_prices(&moves, initial_value, up_value, down_value, multiply)
    }

    /// The depth and the up-move count of this address, as run-time
    /// values.
    pub fn counts(&self) -> (r: (usize, usize))
        requires
            self.name@.len() < usize::MAX,
        ensures
            r.0 == self.depth(),
            r.1 == self.ups(),
    {
        let ghost m = self.moves();
        let mut depth: usize = 0;
        let mut ups: usize = 0;
        let mut i: usize = 0;
        while i < self.name.len()
            invariant
                i <= self.name@.len(),
                self.name@.len() < usize::MAX,
                m == self.moves(),
                self.name@ == m || self.name@ =~= m.drop_last(),
                self.name@.len() <= m.len(),
                depth == depth_of(self.name@.take(i as int)),
                ups == ups_in(self.name@.take(i as int)),
                depth <= i,
                ups <= depth,
            decreases self.name@.len() - i,
        {
            proof {
                assert(self.name@.take(i + 1).drop_last() =~= self.name@.take(i as int));
                assert(self.name@.take(i + 1).last() == self.name@[i as int]);
            }
            match self.name[i] {
                UpDown::Initial => (),
                UpDown::Up => {
                    ups = ups + 1;
                    depth = depth + 1;
                },
                UpDown::Down => {
                    depth = depth + 1;
                },
            }
            i = i + 1;
        }
        proof {
            assert(self.name@.take(self.name@.len() as int) == self.name@);
        }
        match self.direction {
            None => (depth, ups),
            Some(UpDown::Initial) => (depth, ups),
            Some(UpDown::Up) => {
                proof {
                    assert(self.moves().drop_last() =~= self.name@);
                }
                (depth + 1, ups + 1)
            },
            Some(UpDown::Down) => {
                proof {
                    assert(self.moves().drop_last() =~= self.name@);
                }
                (depth + 1, ups)
            },
        }
    }
}

/// Counts the up and the down moves of a list; root marks count for
/// nothing.
fn count_moves(name: &Vec<UpDown>) -> (r: (usize, usize))
    ensures
        r.0 == ups_in(name@),
        r.1 == downs_in(name@),
{
    let mut ups: usize = 0;
    let mut downs: usize = 0;
    let mut i: usize = 0;
    while i < name.len()
        invariant
            i <= name@.len(),
            ups == ups_in(name@.take(i as int)),
            downs == downs_in(name@.take(i as int)),
            ups <= i,
            downs <= i,
        decreases name@.len() - i,
    {
        proof {
            assert(name@.take(i + 1).drop_last() =~= name@.take(i as int));
            assert(name@.take(i + 1).last() == name@[i as int]);
        }
        match name[i] {
            UpDown::Initial => (),
            UpDown::Up => {
                ups = ups + 1;
            },
            UpDown::Down => {
                downs = downs + 1;
            },
        }
        i = i + 1;
    }
    proof {
        assert(name@.take(name@.len() as int) =~= name@);
    }
    (ups, downs)
}

/// Whether `a`, raised by one when `x` holds, equals `b`, raised by one
/// when `y` holds — computed without the additions, so a count at the
/// machine limit cannot overflow.
fn shifted_counts_eq(a: usize, x: bool, b: usize, y: bool) -> (r: bool)
    ensures
        r == (a + (if x {
            1int
        } else {
            0int
        }) == b + (if y {
            1int
        } else {
            0int
        })),
{
    if x == y {
        a == b
    } else if x {
        b > 0 && a == b - 1
    } else {
        a > 0 && a - 1 == b
    }
}

/// What equality of two [`NodeName2`] values means: the two addresses
/// denote the same node — the same number of ups and the same number of
/// downs, pending moves folded in. The lattice recombines, so the order
/// the moves were recorded in, and whether a move is still pending or
/// already in the list, never matters.
pub open spec fn node_name2_eq_spec(a: NodeName2, b: NodeName2) -> bool {
    a.ups() == b.ups() && a.downs() == b.downs()
}

impl PartialEq for NodeName2 {
    /// Two addresses are equal when they denote the same node: the same
    /// number of ups and the same number of downs, pending moves folded
    /// in, whatever order they were recorded in.
    fn eq(&self, other: &NodeName2) -> (r: bool) {
        let (ua, da) = count_moves(&self.name);
        let (ub, db) = count_moves(&other.name);
        let (a_up, a_down) = match self.direction {
            Some(UpDown::Up) => (true, false),
            Some(UpDown::Down) => (false, true),
            _ => (false, false),
        };
        let (b_up, b_down) = match other.direction {
            Some(UpDown::Up) => (true, false),
            Some(UpDown::Down) => (false, true),
            _ => (false, false),
        };
        proof {
            match self.direction {
                Some(m) => {
                    assert(self.moves().drop_last() =~= self.name@);
                    assert(self.moves().last() == m);
                },
                None => {
                },
            }
            match other.direction {
                Some(m) => {
                    assert(other.moves().drop_last() =~= other.name@);
                    assert(other.moves().last() == m);
                },
                None => {
                },
            }
        }
        shifted_counts_eq(ua, a_up, ub, b_up) && shifted_counts_eq(da, a_down, db, b_down)
    }
}

impl vstd::std_specs::cmp::PartialEqSpecImpl for NodeName2 {
    open spec fn obeys_eq_spec() -> bool {
        true
    }

    open spec fn eq_spec(&self, other: &NodeName2) -> bool {
        node_name2_eq_spec(*self, *other)
    }
}

impl Eq for NodeName2 {

}

impl Default for NodeName2 {
    /// The root address: no moves, no pending move.
    fn default() -> (r: NodeName2)
        ensures
            r.name@.len() == 0,
            r.direction is None,
    {
        NodeName2 { name: Vec::new(), direction: None }
    }
}

impl NodeName2 {
    /// Builds the canonical address with the given counts: `ups` up moves
    /// in front of `downs` down moves, no pending move.
    pub fn canonical(ups: usize, downs: usize) -> (r: NodeName2)
        requires
            ups + downs < usize::MAX,
        ensures
            r.name@ == canonical_name(ups as nat, downs as nat),
            r.direction is None,
            r.wf(),
            r.depth() == ups + downs,
            r.ups() == ups,
            r.downs() == downs,
    {
        let mut v: Vec<UpDown> = Vec::new();
        let mut i: usize = 0;
        while i < ups
            invariant
                i <= ups,
                v@ =~= canonical_name(ups as nat, downs as nat).take(i as int),
            decreases ups - i,
        {
            v.push(UpDown::Up);
            proof {
                assert(canonical_name(ups as nat, downs as nat).take(i + 1)
                    =~= canonical_name(ups as nat, downs as nat).take(i as int).push(UpDown::Up));
            }
            i = i + 1;
        }
        let mut j: usize = 0;
        while j < downs
            invariant
                j <= downs,
                v@ =~= canonical_name(ups as nat, downs as nat).take(ups + j),
            decreases downs - j,
        {
            v.push(UpDown::Down);
            proof {
                assert(canonical_name(ups as nat, downs as nat).take(ups + j + 1)
                    =~= canonical_name(ups as nat, downs as nat).take(ups + j).push(UpDown::Down));
            }
            j = j + 1;
        }
        proof {
            assert(canonical_name(ups as nat, downs as nat).take(ups + downs) =~= canonical_name(
                ups as nat,
                downs as nat,
            ));
            lemma_counts_of_canonical(ups as nat, downs as nat);
        }
        NodeName2 { name: v, direction: None }
    }
}

/// The address a sequence of raw moves reaches when applied to the root
/// through `up` and `down`, one move at a time; `Initial` marks are
/// skipped.
pub open spec fn apply_moves(s: Seq<UpDown>) -> Seq<UpDown>
    decreases s.len(),
{
    if s.len() == 0 {
        Seq::<UpDown>::empty()
    } else {
        match s.last() {
            UpDown::Initial => apply_moves(s.drop_last()),
            UpDown::Up => up_spec(apply_moves(s.drop_last())),
            UpDown::Down => down_spec(apply_moves(s.drop_last())),
        }
    }
}

/// The sorted list with `u` ups and `d` downs holds exactly `u` ups and
/// `d` downs.
pub proof fn lemma_counts_of_canonical(u: nat, d: nat)
    ensures
        ups_in(canonical_name(u, d)) == u,
        downs_in(canonical_name(u, d)) == d,
    decreases u + d,
{
    if d > 0 {
        assert(canonical_name(u, d).drop_last() =~= canonical_name(u, (d - 1) as nat));
        assert(canonical_name(u, d).last() == UpDown::Down);
        lemma_counts_of_canonical(u, (d - 1) as nat);
    } else if u > 0 {
        assert(canonical_name(u, 0).drop_last() =~= canonical_name((u - 1) as nat, 0));
        assert(canonical_name(u, 0).last() == UpDown::Up);
        lemma_counts_of_canonical((u - 1) as nat, 0);
    } else {
        assert(canonical_name(0, 0) =~= Seq::<UpDown>::empty());
    }
}

/// Distinct count pairs give distinct canonical names: each node of the
/// lattice has exactly one stored address, so a table with the names of
/// every (ups, downs) pair for the depths `0..=n` holds `d + 1` distinct
/// addresses at depth `d` and `(n + 1)(n + 2) / 2` in all (see
/// [`crate::capacity::lemma_node_count_closed_form`]).
pub proof fn lemma_canonical_name_injective(u1: nat, d1: nat, u2: nat, d2: nat)
    requires
        canonical_name(u1, d1) == canonical_name(u2, d2),
    ensures
        u1 == u2 && d1 == d2,
{
    lemma_counts_of_canonical(u1, d1);
    lemma_counts_of_canonical(u2, d2);
}

/// Recombination: the address a sequence of moves reaches depends only on
/// how many ups and how many downs the sequence holds, never on their
/// order. In particular, an up move then a down move and a down move then
/// an up move land on the same node.
pub proof fn lemma_recombination(s: Seq<UpDown>)
    ensures
        apply_moves(s) == canonical_name(ups_in(s), downs_in(s)),
    decreases s.len(),
{
    if s.len() == 0 {
        assert(canonical_name(0, 0) =~= Seq::<UpDown>::empty());
    } else {
        lemma_recombination(s.drop_last());
        let u = ups_in(s.drop_last());
        let d = downs_in(s.drop_last());
        match s.last() {
            UpDown::Initial => {
            },
            UpDown::Up => {
                assert(up_spec(canonical_name(u, d)) =~= canonical_name(u + 1, d));
            },
            UpDown::Down => {
                assert(down_spec(canonical_name(u, d)) =~= canonical_name(u, d + 1));
            },
        }
    }
}

/// A down move after an up move reaches the same address as an up move
/// after a down move, on the nose: the two lists are identical.
pub proof fn lemma_up_down_commute(s: Seq<UpDown>)
    ensures
        down_spec(up_spec(s)) == up_spec(down_spec(s)),
{
    assert(down_spec(up_spec(s)) =~= up_spec(down_spec(s)));
}

/// The equality recombines: two addresses compare equal exactly when
/// they hold the same number of ups and the same number of downs, pending
/// moves folded in — appending a down move to an address reached by an up
/// move and appending an up move to one reached by a down move give equal
/// addresses, and the order of construction never matters.
pub proof fn lemma_eq_recombines(a: NodeName2, b: NodeName2)
    ensures
        node_name2_eq_spec(a, b) <==> (a.ups() == b.ups() && a.downs() == b.downs()),
{
}

} // verus!
