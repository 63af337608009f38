//! Swap lists: which hand slots trade places when a dealt card stands in for
//! the card of an isomorphic branch.

use crate::vectors::copy_range;
use vstd::prelude::*;

verus! {

/// The slot that `k` trades places with under `pairs`, or `k` itself where no
/// pair holds it. A later pair wins over an earlier one.
pub open spec fn partner(pairs: Seq<(u16, u16)>, k: int) -> int
    decreases pairs.len(),
{
    if pairs.len() == 0 {
        k
    } else if pairs.last().0 == k {
        pairs.last().1 as int
    } else if pairs.last().1 == k {
        pairs.last().0 as int
    } else {
        partner(pairs.drop_last(), k)
    }
}

/// Whether the slot `k` stands in one of the pairs.
pub open spec fn holds_slot(pairs: Seq<(u16, u16)>, k: int) -> bool {
    exists|i: int| 0 <= i < pairs.len() && (#[trigger] pairs[i].0 == k || pairs[i].1 == k)
}

/// Whether `pairs` is a swap list over `slots` slots: every slot it names
/// exists, and no slot stands in two pairs.
pub open spec fn valid_pairs(pairs: Seq<(u16, u16)>, slots: int) -> bool {
    &&& forall|i: int| 0 <= i < pairs.len() ==> (#[trigger] pairs[i]).0 < slots && pairs[i].1 < slots
    &&& forall|i: int, j: int|
        0 <= i < j < pairs.len() ==> {
            &&& (#[trigger] pairs[i]).0 != (#[trigger] pairs[j]).0
            &&& pairs[i].0 != pairs[j].1
            &&& pairs[i].1 != pairs[j].0
            &&& pairs[i].1 != pairs[j].1
        }
}

/// What `values` becomes when the pairs are exchanged one after the other.
pub open spec fn apply_swaps<T>(values: Seq<T>, pairs: Seq<(u16, u16)>) -> Seq<T>
    decreases pairs.len(),
{
    if pairs.len() == 0 {
        values
    } else {
        let before = apply_swaps(values, pairs.drop_last());
        let (i, j) = pairs.last();
        before.update(i as int, before[j as int]).update(j as int, before[i as int])
    }
}

/// A slot that no pair holds is its own partner, and a slot's partner is
/// either the slot itself or a slot of the list.
pub proof fn lemma_partner_range(pairs: Seq<(u16, u16)>, slots: int, k: int)
    requires
        valid_pairs(pairs, slots),
        0 <= k < slots,
    ensures
        0 <= partner(pairs, k) < slots,
        !holds_slot(pairs, k) ==> partner(pairs, k) == k,
        partner(pairs, k) != k ==> holds_slot(pairs, partner(pairs, k)),
    decreases pairs.len(),
{
    if pairs.len() > 0 {
        let head = pairs.drop_last();
        let last = pairs.len() - 1;
        assert(pairs[last] == pairs.last());
        assert forall|i: int| 0 <= i < head.len() implies head[i] == pairs[i] by {}
        lemma_partner_range(head, slots, k);
        if pairs.last().0 == k || pairs.last().1 == k {
            assert(pairs[last].0 == k || pairs[last].1 == k);
        } else {
            if holds_slot(head, partner(head, k)) {
                let i = choose|i: int|
                    0 <= i < head.len() && (#[trigger] head[i].0 == partner(head, k) || head[i].1
                        == partner(head, k));
                assert(pairs[i].0 == partner(head, k) || pairs[i].1 == partner(head, k));
            }
            if holds_slot(pairs, k) {
                let i = choose|i: int|
                    0 <= i < pairs.len() && (#[trigger] pairs[i].0 == k || pairs[i].1 == k);
                assert(i < last);
                assert(head[i].0 == k || head[i].1 == k);
            }
        }
    }
}

/// Exchanging the pairs of a swap list moves into each slot what its partner
/// held.
pub proof fn lemma_apply_swaps_pointwise<T>(values: Seq<T>, pairs: Seq<(u16, u16)>)
    requires
        valid_pairs(pairs, values.len() as int),
    ensures
        apply_swaps(values, pairs).len() == values.len(),
        forall|k: int|
            0 <= k < values.len() ==> #[trigger] apply_swaps(values, pairs)[k] == values[partner(
                pairs,
                k,
            )],
    decreases pairs.len(),
{
    if pairs.len() > 0 {
        let head = pairs.drop_last();
        let last = pairs.len() - 1;
        let slots = values.len() as int;
        assert(pairs[last] == pairs.last());
        assert forall|i: int| 0 <= i < head.len() implies head[i] == pairs[i] by {}
        lemma_apply_swaps_pointwise(values, head);
        let before = apply_swaps(values, head);
        let (i, j) = pairs.last();
        assert(!holds_slot(head, i as int)) by {
            if holds_slot(head, i as int) {
                let a = choose|a: int|
                    0 <= a < head.len() && (#[trigger] head[a].0 == i || head[a].1 == i);
                assert(pairs[a].0 == i || pairs[a].1 == i);
            }
        }
        assert(!holds_slot(head, j as int)) by {
            if holds_slot(head, j as int) {
                let a = choose|a: int|
                    0 <= a < head.len() && (#[trigger] head[a].0 == j || head[a].1 == j);
                assert(pairs[a].0 == j || pairs[a].1 == j);
            }
        }
        lemma_partner_range(head, slots, i as int);
        lemma_partner_range(head, slots, j as int);
        assert forall|k: int| 0 <= k < values.len() implies #[trigger] apply_swaps(
            values,
            pairs,
        )[k] == values[partner(pairs, k)] by {
            lemma_partner_range(head, slots, k);
        }
    }
}

/// The partner of a slot's partner is the slot.
pub proof fn lemma_partner_involution(pairs: Seq<(u16, u16)>, slots: int, k: int)
    requires
        valid_pairs(pairs, slots),
        0 <= k < slots,
    ensures
        partner(pairs, partner(pairs, k)) == k,
    decreases pairs.len(),
{
    if pairs.len() > 0 {
        let head = pairs.drop_last();
        let last = pairs.len() - 1;
        assert(pairs[last] == pairs.last());
        assert forall|i: int| 0 <= i < head.len() implies head[i] == pairs[i] by {}
        if pairs.last().0 == k || pairs.last().1 == k {
        } else {
            lemma_partner_involution(head, slots, k);
            lemma_partner_range(head, slots, k);
            let m = partner(head, k);
            if m != k {
                let a = choose|a: int|
                    0 <= a < head.len() && (#[trigger] head[a].0 == m || head[a].1 == m);
                assert(pairs[a].0 == m || pairs[a].1 == m);
            }
        }
    }
}

/// Applying one swap list twice gives back the values it began with.
pub proof fn lemma_swap_involution<T>(values: Seq<T>, pairs: Seq<(u16, u16)>)
    requires
        valid_pairs(pairs, values.len() as int),
    ensures
        apply_swaps(apply_swaps(values, pairs), pairs) == values,
{
    let once = apply_swaps(values, pairs);
    lemma_apply_swaps_pointwise(values, pairs);
    lemma_apply_swaps_pointwise(once, pairs);
    let twice = apply_swaps(once, pairs);
    assert forall|k: int| 0 <= k < values.len() implies twice[k] == values[k] by {
        lemma_partner_range(pairs, values.len() as int, k);
        lemma_partner_involution(pairs, values.len() as int, k);
        assert(twice[k] == once[partner(pairs, k)]);
    }
    assert(twice =~= values);
}

/// Whether `pairs` is a swap list over `slots` slots.
pub fn check_pairs(pairs: &Vec<(u16, u16)>, slots: usize) -> (valid: bool)
    ensures
        valid == valid_pairs(pairs@, slots as int),
{
    let mut seen: Vec<bool> = Vec::new();
    let mut k: usize = 0;
    while k < slots
        invariant
            k <= slots,
            seen@.len() == k,
            forall|s: int| 0 <= s < k ==> !(#[trigger] seen@[s]),
        decreases slots - k,
    {
        seen.push(false);
        k += 1;
    }
    let mut i: usize = 0;
    while i < pairs.len()
        invariant
            i <= pairs@.len(),
            seen@.len() == slots,
            valid_pairs(pairs@.take(i as int), slots as int),
            forall|s: int|
                0 <= s < slots ==> (#[trigger] seen@[s] <==> holds_slot(
                    pairs@.take(i as int),
                    s,
                )),
        decreases pairs@.len() - i,
    {
        let (a, b) = pairs[i];
        let ghost done = pairs@.take(i as int);
        let ghost next = pairs@.take(i + 1);
        if a as usize >= slots || b as usize >= slots {
            assert(!valid_pairs(pairs@, slots as int)) by {
                assert(pairs@[i as int].0 == a && pairs@[i as int].1 == b);
            }
            return false;
        }
        if seen[a as usize] || seen[b as usize] {
            assert(!valid_pairs(pairs@, slots as int)) by {
                let s = if seen@[a as int] {
                    a as int
                } else {
                    b as int
                };
                assert(holds_slot(done, s));
                let e = choose|e: int|
                    0 <= e < done.len() && (#[trigger] done[e].0 == s || done[e].1 == s);
                assert(done[e] == pairs@[e]);
                assert(pairs@[i as int].0 == a && pairs@[i as int].1 == b);
            }
            return false;
        }
        seen[a as usize] = true;
        seen[b as usize] = true;
        proof {
            assert(next.drop_last() =~= done);
            assert(next.last() == (a, b));
            assert forall|x: int, y: int| 0 <= x < y < next.len() implies {
                &&& (#[trigger] next[x]).0 != (#[trigger] next[y]).0
                &&& next[x].0 != next[y].1
                &&& next[x].1 != next[y].0
                &&& next[x].1 != next[y].1
            } by {
                if y < i {
                    assert(done[x] == next[x] && done[y] == next[y]);
                } else {
                    assert(done[x] == next[x]);
                    assert(!holds_slot(done, a as int));
                    assert(!holds_slot(done, b as int));
                }
            }
            assert forall|x: int| 0 <= x < next.len() implies (#[trigger] next[x]).0 < slots
                && next[x].1 < slots by {
                if x < i {
                    assert(done[x] == next[x]);
                }
            }
            assert forall|s: int| 0 <= s < slots implies (#[trigger] seen@[s] <==> holds_slot(
                next,
                s,
            )) by {
                if s == a || s == b {
                    assert(next[i as int].0 == s || next[i as int].1 == s);
                } else {
                    if holds_slot(done, s) {
                        let e = choose|e: int|
                            0 <= e < done.len() && (#[trigger] done[e].0 == s || done[e].1
                                == s);
                        assert(next[e].0 == s || next[e].1 == s);
                    }
                    if holds_slot(next, s) {
                        let e = choose|e: int|
                            0 <= e < next.len() && (#[trigger] next[e].0 == s || next[e].1
                                == s);
                        assert(e < i);
                        assert(done[e].0 == s || done[e].1 == s);
                    }
                }
            }
        }
        i += 1;
    }
    proof {
        assert(pairs@.take(pairs@.len() as int) =~= pairs@);
    }
    true
}

/// The row `r` of a table that is stored row after row, `slots` entries to
/// the row.
pub open spec fn row_of<T>(values: Seq<T>, r: int, slots: int) -> Seq<T> {
    values.subrange(r * slots, (r + 1) * slots)
}

/// Where the rows of a table begin and end.
proof fn lemma_row_bounds(q: int, r: int, slots: int)
    by (nonlinear_arith)
    requires
        0 <= q < r,
        0 <= slots,
    ensures
        0 <= q * slots,
        (q + 1) * slots == q * slots + slots,
        (q + 1) * slots <= r * slots,
{
}

/// Puts `row` in place of the entries `values[base..base + row.len()]`.
fn write_row<T: Copy>(values: &mut Vec<T>, base: usize, row: &Vec<T>)
    requires
        base + row@.len() <= old(values)@.len(),
    ensures
        final(values)@.len() == old(values)@.len(),
        final(values)@.subrange(base as int, base + row@.len()) == row@,
        forall|i: int|
            0 <= i < base || base + row@.len() <= i < old(values)@.len() ==> final(values)@[i]
                == old(values)@[i],
{
    let n = values.len();
    let mut k: usize = 0;
    while k < row.len()
        invariant
            k <= row@.len(),
            n == values@.len(),
            values@.len() == old(values)@.len(),
            base + row@.len() <= values@.len(),
            forall|i: int| 0 <= i < k ==> values@[base + i] == row@[i],
            forall|i: int|
                0 <= i < base || base + k <= i < old(values)@.len() ==> values@[i] == old(
                    values,
                )@[i],
        decreases row@.len() - k,
    {
        values[base + k] = row[k];
        k += 1;
    }
    assert(values@.subrange(base as int, base + row@.len()) =~= row@);
}

/// One player's swap list for one street: pairs of hand slots, over a fixed
/// number of slots.
#[derive(Clone, Debug)]
pub struct SwapList {
    pub pairs: Vec<(u16, u16)>,
    pub slots: usize,
}

impl SwapList {
    /// The list names existing slots only, and each at most once.
    pub open spec fn wf(&self) -> bool {
        valid_pairs(self.pairs@, self.slots as int)
    }

    /// The list over `slots` slots that exchanges nothing.
    pub fn empty(slots: usize) -> (list: SwapList)
        ensures
            list.wf(),
            list.pairs@.len() == 0,
            list.slots == slots,
    {
        SwapList { pairs: Vec::new(), slots }
    }

    /// Makes a swap list of `pairs`, unless a pair names a slot that does not
    /// exist or a slot stands in two pairs.
    pub fn new(pairs: Vec<(u16, u16)>, slots: usize) -> (list: Option<SwapList>)
        ensures
            list is Some <==> valid_pairs(pairs@, slots as int),
            list matches Some(made) ==> made.pairs@ == pairs@ && made.slots == slots && made.wf(),
    {
        if check_pairs(&pairs, slots) {
            Some(SwapList { pairs, slots })
        } else {
            None
        }
    }

    /// A second list with the same pairs over the same slots.
    pub fn copy(&self) -> (list: SwapList)
        ensures
            list.pairs@ == self.pairs@,
            list.slots == self.slots,
            list.wf() == self.wf(),
    {
        let pairs = crate::vectors::copy_of(&self.pairs);
        SwapList { pairs, slots: self.slots }
    }

    /// Whether the list names existing slots only, and each at most once.
    pub fn is_valid(&self) -> (valid: bool)
        ensures
            valid == self.wf(),
    {
        check_pairs(&self.pairs, self.slots)
    }

    /// Exchanges the values of each pair of slots. Each slot then holds what
    /// its partner held.
    pub fn apply<T: Copy>(&self, values: &mut Vec<T>)
        requires
            self.wf(),
            old(values)@.len() == self.slots,
        ensures
            final(values)@ == apply_swaps(old(values)@, self.pairs@),
            final(values)@.len() == old(values)@.len(),
            forall|k: int|
                0 <= k < self.slots ==> #[trigger] final(values)@[k] == old(values)@[partner(
                    self.pairs@,
                    k,
                )],
    {
        let mut i: usize = 0;
        while i < self.pairs.len()
            invariant
                i <= self.pairs@.len(),
                self.wf(),
                values@.len() == self.slots,
                values@ == apply_swaps(old(values)@, self.pairs@.take(i as int)),
            decreases self.pairs@.len() - i,
        {
            let (a, b) = self.pairs[i];
            proof {
                assert(self.pairs@.take(i + 1).drop_last() =~= self.pairs@.take(i as int));
                assert(self.pairs@.take(i + 1).last() == (a, b));
                assert(self.pairs@[i as int] == (a, b));
            }
            let left = values[a as usize];
            let right = values[b as usize];
            values[a as usize] = right;
            values[b as usize] = left;
            i += 1;
        }
        proof {
            assert(self.pairs@.take(self.pairs@.len() as int) =~= self.pairs@);
            lemma_apply_swaps_pointwise(old(values)@, self.pairs@);
        }
    }
    /// Exchanges the values of each pair of slots in every row of a table
    /// that is stored row after row, one slot to the hand.
    pub fn apply_to_rows<T: Copy>(&self, values: &mut Vec<T>, rows: usize)
        requires
            self.wf(),
            old(values)@.len() == rows * self.slots,
        ensures
            final(values)@.len() == old(values)@.len(),
            forall|r: int|
                0 <= r < rows ==> #[trigger] row_of(final(values)@, r, self.slots as int)
                    == apply_swaps(row_of(old(values)@, r, self.slots as int), self.pairs@),
    {
        let slots = self.slots;
        let n = values.len();
        let mut r: usize = 0;
        let mut base: usize = 0;
        while r < rows
            invariant
                r <= rows,
                n == values@.len(),
                slots == self.slots,
                self.wf(),
                base == r * slots,
                values@.len() == rows * slots,
                values@.len() == old(values)@.len(),
                forall|q: int|
                    0 <= q < r ==> #[trigger] row_of(values@, q, slots as int) == apply_swaps(
                        row_of(old(values)@, q, slots as int),
                        self.pairs@,
                    ),
                forall|i: int| base <= i < values@.len() ==> values@[i] == old(values)@[i],
            decreases rows - r,
        {
            proof {
                lemma_row_bounds(r as int, rows as int, slots as int);
            }
            let ghost before = values@;
            let mut row = copy_range(values, base, base + slots);
            assert(row@ =~= row_of(old(values)@, r as int, slots as int));
            self.apply(&mut row);
            write_row(values, base, &row);
            proof {
                assert(row_of(values@, r as int, slots as int) =~= row@);
                assert forall|q: int| 0 <= q < r implies #[trigger] row_of(
                    values@,
                    q,
                    slots as int,
                ) == apply_swaps(row_of(old(values)@, q, slots as int), self.pairs@) by {
                    lemma_row_bounds(q, r as int, slots as int);
                    assert(row_of(values@, q, slots as int) =~= row_of(before, q, slots as int));
                }
            }
            base += slots;
            r += 1;
        }
    }
}

} // verus!
