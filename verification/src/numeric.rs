//! Sums, averages and joint weights over numbers of any copyable type.
//!
//! The caller supplies the arithmetic as functions. Each of them is taken to
//! accept every argument and to make one thing of it, so that what a sum or
//! a product is can be said once and for all.

use crate::hands::{board_mask, compatible, hands_compatible, is_mask_of};
use crate::vectors::{copy_of, filled};
use vstd::prelude::*;

verus! {

/// What the operation `op` makes of `a` and `b`.
pub open spec fn made_of<T, F: Fn(T, T) -> T>(op: F, a: T, b: T) -> T {
    choose|r: T| op.ensures((a, b), r)
}

/// Whether `op` accepts every pair and makes one thing of each.
pub open spec fn is_operation<T, F: Fn(T, T) -> T>(op: F) -> bool {
    &&& forall|a: T, b: T| #[trigger] op.requires((a, b))
    &&& forall|a: T, b: T, r: T| #[trigger] op.ensures((a, b), r) ==> r == made_of(op, a, b)
}

/// What the test `test` says of `a`.
pub open spec fn holds_of<T, P: Fn(T) -> bool>(test: P, a: T) -> bool {
    choose|r: bool| test.ensures((a,), r)
}

/// Whether `test` accepts every value and says one thing of each.
pub open spec fn is_test<T, P: Fn(T) -> bool>(test: P) -> bool {
    &&& forall|a: T| #[trigger] test.requires((a,))
    &&& forall|a: T, r: bool| #[trigger] test.ensures((a,), r) ==> r == holds_of(test, a)
}

/// The sum of `values`, added up from `zero` in their order.
pub open spec fn total_spec<T, S: Fn(T, T) -> T>(sum_of: S, zero: T, values: Seq<T>) -> T
    decreases values.len(),
{
    if values.len() == 0 {
        zero
    } else {
        made_of(sum_of, total_spec(sum_of, zero, values.drop_last()), values.last())
    }
}

/// The sum of `values`, added up from `zero` in their order.
pub fn total<T: Copy, S: Fn(T, T) -> T>(values: &Vec<T>, zero: T, sum_of: &S) -> (sum: T)
    requires
        is_operation(*sum_of),
    ensures
        sum == total_spec(*sum_of, zero, values@),
{
    let mut sum = zero;
    let mut i: usize = 0;
    while i < values.len()
        invariant
            i <= values@.len(),
            is_operation(*sum_of),
            sum == total_spec(*sum_of, zero, values@.take(i as int)),
        decreases values@.len() - i,
    {
        proof {
            assert(values@.take(i + 1).drop_last() =~= values@.take(i as int));
            assert(values@.take(i + 1).last() == values@[i as int]);
        }
        sum = sum_of(sum, values[i]);
        i += 1;
    }
    proof {
        assert(values@.take(values@.len() as int) =~= values@);
    }
    sum
}

/// Whether `test` holds of every one of `values`.
pub open spec fn all_hold<T, P: Fn(T) -> bool>(test: P, values: Seq<T>) -> bool {
    forall|i: int| 0 <= i < values.len() ==> holds_of(test, #[trigger] values[i])
}

/// Whether a player has no hand left: every weight is zero by the test
/// `is_zero`.
pub fn is_empty<T: Copy, P: Fn(T) -> bool>(weights: &Vec<T>, is_zero: &P) -> (empty: bool)
    requires
        is_test(*is_zero),
    ensures
        empty == all_hold(*is_zero, weights@),
{
    let mut i: usize = 0;
    while i < weights.len()
        invariant
            i <= weights@.len(),
            is_test(*is_zero),
            forall|k: int| 0 <= k < i ==> holds_of(*is_zero, #[trigger] weights@[k]),
        decreases weights@.len() - i,
    {
        if !is_zero(weights[i]) {
            assert(!holds_of(*is_zero, weights@[i as int]));
            return false;
        }
        i += 1;
    }
    true
}

/// The sum of the products of the first `n` values and their weights.
pub open spec fn weighted_sum_spec<T, M: Fn(T, T) -> T, S: Fn(T, T) -> T>(
    product_of: M,
    sum_of: S,
    zero: T,
    values: Seq<T>,
    weights: Seq<T>,
    n: nat,
) -> T
    decreases n,
{
    if n == 0 {
        zero
    } else {
        made_of(
            sum_of,
            weighted_sum_spec(product_of, sum_of, zero, values, weights, (n - 1) as nat),
            made_of(product_of, values[n - 1], weights[n - 1]),
        )
    }
}

/// The smaller of two lengths.
pub open spec fn shorter(a: nat, b: nat) -> nat {
    if a <= b {
        a
    } else {
        b
    }
}

/// The weighted average of `values`: the sum of the products of each value
/// and its weight, divided by the sum of the weights. Where one list is
/// longer than the other, what it holds beyond the other's end is left out.
pub open spec fn weighted_average_spec<
    T,
    M: Fn(T, T) -> T,
    S: Fn(T, T) -> T,
    Q: Fn(T, T) -> T,
>(product_of: M, sum_of: S, quotient_of: Q, zero: T, values: Seq<T>, weights: Seq<T>) -> T {
    let n = shorter(values.len(), weights.len());
    made_of(
        quotient_of,
        weighted_sum_spec(product_of, sum_of, zero, values, weights, n),
        total_spec(sum_of, zero, weights.take(n as int)),
    )
}

/// The weighted average of `slice` over `weights`.
pub fn weighted_average<T: Copy, M: Fn(T, T) -> T, S: Fn(T, T) -> T, Q: Fn(T, T) -> T>(
    slice: &Vec<T>,
    weights: &Vec<T>,
    zero: T,
    product_of: &M,
    sum_of: &S,
    quotient_of: &Q,
) -> (average: T)
    requires
        is_operation(*product_of),
        is_operation(*sum_of),
        is_operation(*quotient_of),
    ensures
        average == weighted_average_spec(
            *product_of,
            *sum_of,
            *quotient_of,
            zero,
            slice@,
            weights@,
        ),
{
    let n = if slice.len() <= weights.len() {
        slice.len()
    } else {
        weights.len()
    };
    let mut sum = zero;
    let mut weight_sum = zero;
    let mut i: usize = 0;
    while i < n
        invariant
            i <= n,
            n == shorter(slice@.len(), weights@.len()),
            is_operation(*product_of),
            is_operation(*sum_of),
            sum == weighted_sum_spec(*product_of, *sum_of, zero, slice@, weights@, i as nat),
            weight_sum == total_spec(*sum_of, zero, weights@.take(i as int)),
        decreases n - i,
    {
        proof {
            assert(weights@.take(i + 1).drop_last() =~= weights@.take(i as int));
            assert(weights@.take(i + 1).last() == weights@[i as int]);
        }
        let term = product_of(slice[i], weights[i]);
        sum = sum_of(sum, term);
        weight_sum = sum_of(weight_sum, weights[i]);
        i += 1;
    }
    quotient_of(sum, weight_sum)
}

/// Two players' weights and hands on a board, with the arithmetic that
/// joins them.
pub struct Joint<T, P, M, S> {
    pub weights_oop: Seq<T>,
    pub weights_ip: Seq<T>,
    pub hands_oop: Seq<(u8, u8)>,
    pub hands_ip: Seq<(u8, u8)>,
    pub board: Seq<u8>,
    pub zero: T,
    pub is_positive: P,
    pub product_of: M,
    pub sum_of: S,
}

impl<T, P: Fn(T) -> bool, M: Fn(T, T) -> T, S: Fn(T, T) -> T> Joint<T, P, M, S> {
    /// Each player has a weight per hand.
    pub open spec fn wf(self) -> bool {
        &&& self.weights_oop.len() == self.hands_oop.len()
        &&& self.weights_ip.len() == self.hands_ip.len()
    }

    /// Whether hand `i` of the player out of position and hand `j` of the
    /// player in position count together: they share no card with each other
    /// or the board, and both have a positive weight.
    pub open spec fn counts(self, i: int, j: int) -> bool {
        &&& compatible(self.hands_oop[i], self.hands_ip[j], self.board)
        &&& holds_of(self.is_positive, self.weights_oop[i])
        &&& holds_of(self.is_positive, self.weights_ip[j])
    }

    /// The product of the weights of hand `i` out of position and hand `j`
    /// in position.
    pub open spec fn term(self, i: int, j: int) -> T {
        made_of(self.product_of, self.weights_oop[i], self.weights_ip[j])
    }

    /// The joint weight of hand `i` out of position against the first `n`
    /// hands in position: the sum of the products with those that count.
    pub open spec fn joint_oop(self, i: int, n: nat) -> T
        decreases n,
    {
        if n == 0 {
            self.zero
        } else if self.counts(i, n - 1) {
            made_of(self.sum_of, self.joint_oop(i, (n - 1) as nat), self.term(i, n - 1))
        } else {
            self.joint_oop(i, (n - 1) as nat)
        }
    }

    /// The joint weight of hand `j` in position against the first `m` hands
    /// out of position.
    pub open spec fn joint_ip(self, j: int, m: nat) -> T
        decreases m,
    {
        if m == 0 {
            self.zero
        } else if self.counts(m - 1, j) {
            made_of(self.sum_of, self.joint_ip(j, (m - 1) as nat), self.term(m - 1, j))
        } else {
            self.joint_ip(j, (m - 1) as nat)
        }
    }

    /// The normalized weights of the player out of position: the joint
    /// weight of each hand against all of the opponent's.
    pub open spec fn normalized_oop(self) -> Seq<T> {
        Seq::new(self.weights_oop.len(), |i: int| self.joint_oop(i, self.weights_ip.len()))
    }

    /// The normalized weights of the player in position.
    pub open spec fn normalized_ip(self) -> Seq<T> {
        Seq::new(self.weights_ip.len(), |j: int| self.joint_ip(j, self.weights_oop.len()))
    }
}

/// Whether every card of every hand is below 64.
pub open spec fn cards_fit(hands: Seq<(u8, u8)>) -> bool {
    forall|i: int| 0 <= i < hands.len() ==> (#[trigger] hands[i]).0 < 64 && hands[i].1 < 64
}

/// The two players' normalized weights: for each hand, the sum of the
/// products of its weight and the weight of each hand of the opponent that
/// it can be held together with, both weights being positive.
pub fn normalized_weights<
    T: Copy,
    P: Fn(T) -> bool,
    M: Fn(T, T) -> T,
    S: Fn(T, T) -> T,
>(
    weights_oop: &Vec<T>,
    weights_ip: &Vec<T>,
    hands_oop: &Vec<(u8, u8)>,
    hands_ip: &Vec<(u8, u8)>,
    board: &Vec<u8>,
    zero: T,
    is_positive: &P,
    product_of: &M,
    sum_of: &S,
) -> (normalized: (Vec<T>, Vec<T>))
    requires
        weights_oop@.len() == hands_oop@.len(),
        weights_ip@.len() == hands_ip@.len(),
        cards_fit(hands_oop@),
        cards_fit(hands_ip@),
        forall|i: int| 0 <= i < board@.len() ==> board@[i] < 64,
        is_test(*is_positive),
        is_operation(*product_of),
        is_operation(*sum_of),
    ensures
        normalized.0@ == (Joint {
            weights_oop: weights_oop@,
            weights_ip: weights_ip@,
            hands_oop: hands_oop@,
            hands_ip: hands_ip@,
            board: board@,
            zero,
            is_positive: *is_positive,
            product_of: *product_of,
            sum_of: *sum_of,
        }).normalized_oop(),
        normalized.1@ == (Joint {
            weights_oop: weights_oop@,
            weights_ip: weights_ip@,
            hands_oop: hands_oop@,
            hands_ip: hands_ip@,
            board: board@,
            zero,
            is_positive: *is_positive,
            product_of: *product_of,
            sum_of: *sum_of,
        }).normalized_ip(),
{
    let ghost joint = Joint {
        weights_oop: weights_oop@,
        weights_ip: weights_ip@,
        hands_oop: hands_oop@,
        hands_ip: hands_ip@,
        board: board@,
        zero,
        is_positive: *is_positive,
        product_of: *product_of,
        sum_of: *sum_of,
    };
    let mask = board_mask(board);
    let len_oop = weights_oop.len();
    let len_ip = weights_ip.len();
    let mut oop: Vec<T> = filled(len_oop, zero);
    let mut ip: Vec<T> = filled(len_ip, zero);
    let mut i: usize = 0;
    while i < len_oop
        invariant
            i <= len_oop,
            len_oop == weights_oop@.len(),
            len_ip == weights_ip@.len(),
            joint.weights_oop == weights_oop@,
            joint.weights_ip == weights_ip@,
            joint.hands_oop == hands_oop@,
            joint.hands_ip == hands_ip@,
            joint.board == board@,
            joint.zero == zero,
            joint.is_positive == *is_positive,
            joint.product_of == *product_of,
            joint.sum_of == *sum_of,
            joint.wf(),
            cards_fit(hands_oop@),
            cards_fit(hands_ip@),
            is_mask_of(mask, board@),
            is_test(*is_positive),
            is_operation(*product_of),
            is_operation(*sum_of),
            oop@.len() == len_oop,
            ip@.len() == len_ip,
            forall|a: int| 0 <= a < i ==> oop@[a] == joint.joint_oop(a, len_ip as nat),
            forall|a: int| i <= a < len_oop ==> oop@[a] == zero,
            forall|b: int| 0 <= b < len_ip ==> ip@[b] == joint.joint_ip(b, i as nat),
        decreases len_oop - i,
    {
        let first = weights_oop[i];
        let first_hand = hands_oop[i];
        let first_counts = is_positive(first);
        let mut j: usize = 0;
        while j < len_ip
            invariant
                i < len_oop,
                j <= len_ip,
                len_oop == weights_oop@.len(),
                len_ip == weights_ip@.len(),
                joint.weights_oop == weights_oop@,
                joint.weights_ip == weights_ip@,
                joint.hands_oop == hands_oop@,
                joint.hands_ip == hands_ip@,
                joint.board == board@,
                joint.zero == zero,
                joint.is_positive == *is_positive,
                joint.product_of == *product_of,
                joint.sum_of == *sum_of,
                joint.wf(),
                cards_fit(hands_oop@),
                cards_fit(hands_ip@),
                is_mask_of(mask, board@),
                is_test(*is_positive),
                is_operation(*product_of),
                is_operation(*sum_of),
                first == weights_oop@[i as int],
                first_hand == hands_oop@[i as int],
                first_counts == holds_of(*is_positive, first),
                oop@.len() == len_oop,
                ip@.len() == len_ip,
                forall|a: int| 0 <= a < i ==> oop@[a] == joint.joint_oop(a, len_ip as nat),
                oop@[i as int] == joint.joint_oop(i as int, j as nat),
                forall|a: int| i < a < len_oop ==> oop@[a] == zero,
                forall|b: int| 0 <= b < j ==> ip@[b] == joint.joint_ip(b, (i + 1) as nat),
                forall|b: int| j <= b < len_ip ==> ip@[b] == joint.joint_ip(b, i as nat),
            decreases len_ip - j,
        {
            let second = weights_ip[j];
            let second_hand = hands_ip[j];
            let together = hands_compatible(first_hand, second_hand, mask);
            let second_counts = is_positive(second);
            assert(together == compatible(first_hand, second_hand, board@));
            assert((together && first_counts && second_counts) == joint.counts(i as int, j as int));
            if together && first_counts && second_counts {
                let term = product_of(first, second);
                assert(term == joint.term(i as int, j as int));
                let grown_oop = sum_of(oop[i], term);
                oop[i] = grown_oop;
                let grown_ip = sum_of(ip[j], term);
                ip[j] = grown_ip;
            }
            j += 1;
        }
        i += 1;
    }
    proof {
        assert(oop@ =~= joint.normalized_oop());
        assert(ip@ =~= joint.normalized_ip());
    }
    (oop, ip)
}

/// Whether `sum_of` adds exactly: in any order and any grouping the sum is
/// the same, and adding to `zero` changes nothing. Sums of whole numbers and
/// of fractions are such; sums that round on the way are not.
pub open spec fn adds_exactly<T, S: Fn(T, T) -> T>(sum_of: S, zero: T) -> bool {
    &&& forall|a: T, b: T| #[trigger] made_of(sum_of, a, b) == made_of(sum_of, b, a)
    &&& forall|a: T, b: T, c: T| #[trigger]
        made_of(sum_of, made_of(sum_of, a, b), c) == made_of(sum_of, a, made_of(sum_of, b, c))
    &&& forall|a: T| #[trigger] made_of(sum_of, zero, a) == a
}

/// With exact addition, `(a + b) + c` is `(a + c) + b`.
proof fn lemma_swap_last<T, S: Fn(T, T) -> T>(sum_of: S, zero: T, a: T, b: T, c: T)
    requires
        adds_exactly(sum_of, zero),
    ensures
        made_of(sum_of, made_of(sum_of, a, b), c) == made_of(sum_of, made_of(sum_of, a, c), b),
{
    assert(made_of(sum_of, made_of(sum_of, a, b), c) == made_of(sum_of, a, made_of(sum_of, b, c)));
    assert(made_of(sum_of, b, c) == made_of(sum_of, c, b));
    assert(made_of(sum_of, made_of(sum_of, a, c), b) == made_of(sum_of, a, made_of(sum_of, c, b)));
}

/// With exact addition, `(a + b) + (c + d)` is `(a + c) + (b + d)`.
proof fn lemma_swap_middle<T, S: Fn(T, T) -> T>(sum_of: S, zero: T, a: T, b: T, c: T, d: T)
    requires
        adds_exactly(sum_of, zero),
    ensures
        made_of(sum_of, made_of(sum_of, a, b), made_of(sum_of, c, d)) == made_of(
            sum_of,
            made_of(sum_of, a, c),
            made_of(sum_of, b, d),
        ),
{
    let ab = made_of(sum_of, a, b);
    let ac = made_of(sum_of, a, c);
    // (a + b) + (c + d) == ((a + b) + c) + d
    assert(made_of(sum_of, made_of(sum_of, ab, c), d) == made_of(sum_of, ab, made_of(sum_of, c, d)));
    // ((a + b) + c) == ((a + c) + b)
    lemma_swap_last(sum_of, zero, a, b, c);
    // ((a + c) + b) + d == (a + c) + (b + d)
    assert(made_of(sum_of, made_of(sum_of, ac, b), d) == made_of(sum_of, ac, made_of(sum_of, b, d)));
}

impl<T, P: Fn(T) -> bool, M: Fn(T, T) -> T, S: Fn(T, T) -> T> Joint<T, P, M, S> {
    /// The sum of the joint weights of the first `m` hands out of position,
    /// each against the first `n` hands in position.
    pub open spec fn mass_oop(self, m: nat, n: nat) -> T
        decreases m,
    {
        if m == 0 {
            self.zero
        } else {
            made_of(self.sum_of, self.mass_oop((m - 1) as nat, n), self.joint_oop(m - 1, n))
        }
    }

    /// The sum of the joint weights of the first `n` hands in position, each
    /// against the first `m` hands out of position.
    pub open spec fn mass_ip(self, m: nat, n: nat) -> T
        decreases n,
    {
        if n == 0 {
            self.zero
        } else {
            made_of(self.sum_of, self.mass_ip(m, (n - 1) as nat), self.joint_ip(n - 1, m))
        }
    }

    /// Against no hand at all, the hands in position have no mass.
    proof fn lemma_mass_ip_of_none(self, n: nat)
        requires
            adds_exactly(self.sum_of, self.zero),
        ensures
            self.mass_ip(0, n) == self.zero,
        decreases n,
    {
        if n > 0 {
            self.lemma_mass_ip_of_none((n - 1) as nat);
            assert(self.joint_ip(n - 1, 0) == self.zero);
        }
    }

    /// One more hand out of position adds its joint weight to the mass of
    /// the hands in position.
    proof fn lemma_mass_ip_grows(self, m: nat, n: nat)
        requires
            adds_exactly(self.sum_of, self.zero),
        ensures
            self.mass_ip(m + 1, n) == made_of(
                self.sum_of,
                self.mass_ip(m, n),
                self.joint_oop(m as int, n),
            ),
        decreases n,
    {
        if n == 0 {
            assert(made_of(self.sum_of, self.zero, self.zero) == self.zero);
        } else {
            let k = (n - 1) as nat;
            self.lemma_mass_ip_grows(m, k);
            let g = self.mass_ip(m, k);
            let r = self.joint_oop(m as int, k);
            let c = self.joint_ip(k as int, m);
            if self.counts(m as int, k as int) {
                let t = self.term(m as int, k as int);
                assert(self.joint_ip(k as int, m + 1) == made_of(self.sum_of, c, t));
                assert(self.joint_oop(m as int, n) == made_of(self.sum_of, r, t));
                lemma_swap_middle(self.sum_of, self.zero, g, r, c, t);
            } else {
                assert(self.joint_ip(k as int, m + 1) == c);
                assert(self.joint_oop(m as int, n) == r);
                lemma_swap_last(self.sum_of, self.zero, g, r, c);
            }
        }
    }

    /// With exact addition, the two players' masses are the same.
    proof fn lemma_masses_agree(self, m: nat, n: nat)
        requires
            adds_exactly(self.sum_of, self.zero),
        ensures
            self.mass_oop(m, n) == self.mass_ip(m, n),
        decreases m,
    {
        if m == 0 {
            self.lemma_mass_ip_of_none(n);
        } else {
            self.lemma_masses_agree((m - 1) as nat, n);
            self.lemma_mass_ip_grows((m - 1) as nat, n);
        }
    }

    /// The sum of the first `m` normalized weights out of position is the
    /// mass of those hands.
    proof fn lemma_total_oop(self, m: nat)
        requires
            m <= self.weights_oop.len(),
        ensures
            total_spec(self.sum_of, self.zero, self.normalized_oop().take(m as int))
                == self.mass_oop(m, self.weights_ip.len()),
        decreases m,
    {
        if m > 0 {
            self.lemma_total_oop((m - 1) as nat);
            assert(self.normalized_oop().take(m as int).drop_last() =~= self.normalized_oop().take(
                m - 1,
            ));
        }
    }

    /// The sum of the first `n` normalized weights in position is the mass
    /// of those hands.
    proof fn lemma_total_ip(self, n: nat)
        requires
            n <= self.weights_ip.len(),
        ensures
            total_spec(self.sum_of, self.zero, self.normalized_ip().take(n as int))
                == self.mass_ip(self.weights_oop.len(), n),
        decreases n,
    {
        if n > 0 {
            self.lemma_total_ip((n - 1) as nat);
            assert(self.normalized_ip().take(n as int).drop_last() =~= self.normalized_ip().take(
                n - 1,
            ));
        }
    }

    /// Where addition is exact, the normalized weights of the two players
    /// add up to the same: each sum is the whole of the products of the
    /// pairs of hands that count together.
    pub proof fn lemma_normalization_symmetry(self)
        requires
            adds_exactly(self.sum_of, self.zero),
        ensures
            total_spec(self.sum_of, self.zero, self.normalized_oop()) == total_spec(
                self.sum_of,
                self.zero,
                self.normalized_ip(),
            ),
    {
        let m = self.weights_oop.len();
        let n = self.weights_ip.len();
        self.lemma_total_oop(m);
        self.lemma_total_ip(n);
        self.lemma_masses_agree(m, n);
        assert(self.normalized_oop().take(m as int) =~= self.normalized_oop());
        assert(self.normalized_ip().take(n as int) =~= self.normalized_ip());
    }
}

/// The number that `number_of` makes of the whole number `raw`.
pub open spec fn number_of_spec<T, C: Fn(i32) -> T>(number_of: C, raw: i32) -> T {
    choose|r: T| number_of.ensures((raw,), r)
}

/// Whether `number_of` accepts every whole number and makes one number of
/// each.
pub open spec fn is_conversion<T, C: Fn(i32) -> T>(number_of: C) -> bool {
    &&& forall|raw: i32| #[trigger] number_of.requires((raw,))
    &&& forall|raw: i32, r: T| #[trigger]
        number_of.ensures((raw,), r) ==> r == number_of_spec(number_of, raw)
}

/// A table of statistics as it is stored: the numbers themselves, or whole
/// numbers that stand for so many parts of `scale`, the largest whole number
/// of the format standing for `scale` itself.
pub enum Stored<T> {
    Dense(Vec<T>),
    Compressed { raw: Vec<i32>, scale: T },
}

/// The number that a stored whole number stands for: the number times the
/// scale, divided by the largest whole number of the format.
pub open spec fn decoded_value<T, C: Fn(i32) -> T, M: Fn(T, T) -> T, Q: Fn(T, T) -> T>(
    number_of: C,
    product_of: M,
    quotient_of: Q,
    raw: i32,
    scale: T,
    limit: i32,
) -> T {
    made_of(
        quotient_of,
        made_of(product_of, number_of_spec(number_of, raw), scale),
        number_of_spec(number_of, limit),
    )
}

/// The numbers of a stored table.
pub open spec fn decode_spec<T, C: Fn(i32) -> T, M: Fn(T, T) -> T, Q: Fn(T, T) -> T>(
    stored: Stored<T>,
    limit: i32,
    number_of: C,
    product_of: M,
    quotient_of: Q,
) -> Seq<T> {
    match stored {
        Stored::Dense(values) => values@,
        Stored::Compressed { raw, scale } => Seq::new(
            raw@.len(),
            |i: int| decoded_value(number_of, product_of, quotient_of, raw@[i], scale, limit),
        ),
    }
}

/// Reads the numbers of a stored table, where `limit` is the largest whole
/// number of the compressed format.
pub fn decode<T: Copy, C: Fn(i32) -> T, M: Fn(T, T) -> T, Q: Fn(T, T) -> T>(
    stored: &Stored<T>,
    limit: i32,
    number_of: &C,
    product_of: &M,
    quotient_of: &Q,
) -> (values: Vec<T>)
    requires
        is_conversion(*number_of),
        is_operation(*product_of),
        is_operation(*quotient_of),
    ensures
        values@ == decode_spec(*stored, limit, *number_of, *product_of, *quotient_of),
{
    let mut values: Vec<T> = Vec::new();
    match stored {
        Stored::Dense(dense) => {
            values = copy_of(dense);
        },
        Stored::Compressed { raw, scale } => {
            let whole = number_of(limit);
            let mut i: usize = 0;
            while i < raw.len()
                invariant
                    i <= raw@.len(),
                    is_conversion(*number_of),
                    is_operation(*product_of),
                    is_operation(*quotient_of),
                    whole == number_of_spec(*number_of, limit),
                    values@.len() == i,
                    forall|k: int|
                        0 <= k < i ==> #[trigger] values@[k] == decoded_value(
                            *number_of,
                            *product_of,
                            *quotient_of,
                            raw@[k],
                            *scale,
                            limit,
                        ),
                decreases raw@.len() - i,
            {
                let parts = number_of(raw[i]);
                let scaled = product_of(parts, *scale);
                values.push(quotient_of(scaled, whole));
                i += 1;
            }
            assert(values@ =~= decode_spec(
                *stored,
                limit,
                *number_of,
                *product_of,
                *quotient_of,
            ));
        },
    }
    values
}

/// The ratio of a hand's expected value to its share of the pot by equity:
/// the expected value divided by the product of the pot and the equity, or
/// divided by zero where the equity is negligible.
pub open spec fn eqr_spec<T, P: Fn(T) -> bool, M: Fn(T, T) -> T, Q: Fn(T, T) -> T>(
    is_negligible: P,
    product_of: M,
    quotient_of: Q,
    ev: T,
    equity: T,
    pot: T,
    zero: T,
) -> T {
    if holds_of(is_negligible, equity) {
        made_of(quotient_of, ev, zero)
    } else {
        made_of(quotient_of, ev, made_of(product_of, pot, equity))
    }
}

/// The ratio of expected value to equity's share of the pot, hand by hand.
/// Where one list is longer than the other, what it holds beyond the other's
/// end is left out.
pub fn equity_to_reward<T: Copy, P: Fn(T) -> bool, M: Fn(T, T) -> T, Q: Fn(T, T) -> T>(
    ev: &Vec<T>,
    equity: &Vec<T>,
    pot: T,
    zero: T,
    is_negligible: &P,
    product_of: &M,
    quotient_of: &Q,
) -> (eqr: Vec<T>)
    requires
        is_test(*is_negligible),
        is_operation(*product_of),
        is_operation(*quotient_of),
    ensures
        eqr@.len() == shorter(ev@.len(), equity@.len()),
        forall|k: int|
            0 <= k < eqr@.len() ==> #[trigger] eqr@[k] == eqr_spec(
                *is_negligible,
                *product_of,
                *quotient_of,
                ev@[k],
                equity@[k],
                pot,
                zero,
            ),
{
    let n = if ev.len() <= equity.len() {
        ev.len()
    } else {
        equity.len()
    };
    let mut eqr: Vec<T> = Vec::new();
    let mut i: usize = 0;
    while i < n
        invariant
            i <= n,
            n == shorter(ev@.len(), equity@.len()),
            is_test(*is_negligible),
            is_operation(*product_of),
            is_operation(*quotient_of),
            eqr@.len() == i,
            forall|k: int|
                0 <= k < i ==> #[trigger] eqr@[k] == eqr_spec(
                    *is_negligible,
                    *product_of,
                    *quotient_of,
                    ev@[k],
                    equity@[k],
                    pot,
                    zero,
                ),
        decreases n - i,
    {
        let value = if is_negligible(equity[i]) {
            quotient_of(ev[i], zero)
        } else {
            let share = product_of(pot, equity[i]);
            quotient_of(ev[i], share)
        };
        eqr.push(value);
        i += 1;
    }
    eqr
}

} // verus!
