//! The tables that a query hands out, for values of any copyable type.

use crate::action::DECK_SIZE;
use crate::numeric::{is_operation, total, total_spec, weighted_average, weighted_average_spec};
use crate::report::{ReportStatus, ResultsPlan};
use crate::swap::row_of;
use crate::vectors::{copy_of, copy_range, filled};
use vstd::prelude::*;

verus! {

/// One card's row of a chance report, but for the numbers of combinations.
/// Of each pair, the first value is of the player out of position.
pub struct ChanceRow<T> {
    pub status: ReportStatus,
    pub equity: [T; 2],
    pub ev: [T; 2],
    pub eqr: [T; 2],
    /// The summed-up strategy, a value per action, or nothing.
    pub strategy: Vec<T>,
}

/// A report over the 52 cards that a chance node may deal. The values of a
/// player stand card by card; the strategy stands action by action, 52 cards
/// to the action.
pub struct GameChanceReportsResponse<T> {
    pub status: Vec<i32>,
    pub combos: [Vec<T>; 2],
    pub equity: [Vec<T>; 2],
    pub ev: [Vec<T>; 2],
    pub eqr: [Vec<T>; 2],
    pub strategy: Vec<T>,
    pub num_actions: usize,
    pub zero: T,
}

/// The place of an action's value for a card in the strategy of a report.
pub open spec fn strategy_slot(action: int, card: int) -> int {
    action * 52 + card
}

/// What a report holds of a row in a place that the row's status fills, and
/// zero in a place that it leaves out.
pub open spec fn kept<T>(fills: bool, value: T, zero: T) -> T {
    if fills {
        value
    } else {
        zero
    }
}

/// Whether both lists of a pair have 52 entries.
pub open spec fn by_card<T>(pair: [Vec<T>; 2]) -> bool {
    pair@[0]@.len() == 52 && pair@[1]@.len() == 52
}

/// Whether both lists of a pair hold `value` for `card`.
pub open spec fn both_at<T>(pair: [Vec<T>; 2], card: int, value: T) -> bool {
    pair@[0]@[card] == value && pair@[1]@[card] == value
}

/// Whether two pairs of lists hold the same for `card`.
pub open spec fn alike_at<T>(pair: [Vec<T>; 2], other: [Vec<T>; 2], card: int) -> bool {
    pair@[0]@[card] == other@[0]@[card] && pair@[1]@[card] == other@[1]@[card]
}

/// Whether a pair of lists holds the two values for `card` where `fills`
/// holds, and zero where it does not.
pub open spec fn holds_at<T>(pair: [Vec<T>; 2], card: int, fills: bool, values: [T; 2], zero: T) -> bool {
    &&& pair@[0]@[card] == kept(fills, values@[0], zero)
    &&& pair@[1]@[card] == kept(fills, values@[1], zero)
}

/// Writes the two values of a card into a pair of lists.
fn put_pair<T: Copy>(pair: &mut [Vec<T>; 2], card: usize, first: T, second: T)
    requires
        by_card(*old(pair)),
        card < 52,
    ensures
        by_card(*final(pair)),
        final(pair)@[0]@ == old(pair)@[0]@.update(card as int, first),
        final(pair)@[1]@ == old(pair)@[1]@.update(card as int, second),
{
    pair[0][card] = first;
    pair[1][card] = second;
}

impl<T: Copy> GameChanceReportsResponse<T> {
    /// Every list has its length.
    pub open spec fn sized(&self) -> bool {
        &&& self.status@.len() == 52
        &&& by_card(self.combos)
        &&& by_card(self.equity)
        &&& by_card(self.ev)
        &&& by_card(self.eqr)
        &&& self.strategy@.len() == self.num_actions * 52
    }

    /// Whether every value of `card` but its status is zero.
    pub open spec fn blank_at(&self, card: int) -> bool {
        &&& both_at(self.combos, card, self.zero)
        &&& self.values_blank_at(card)
        &&& forall|action: int|
            0 <= action < self.num_actions ==> self.strategy@[#[trigger] strategy_slot(
                action,
                card,
            )] == self.zero
    }

    /// Whether equity, expected value and their ratio are zero for `card`.
    pub open spec fn values_blank_at(&self, card: int) -> bool {
        &&& both_at(self.equity, card, self.zero)
        &&& both_at(self.ev, card, self.zero)
        &&& both_at(self.eqr, card, self.zero)
    }

    /// Every list has its length, every status is one of the three, a card
    /// that cannot come has zero in every place, and a card that leaves a
    /// player without hands has zero for equity, expected value and their
    /// ratio.
    pub open spec fn wf(&self) -> bool {
        &&& self.sized()
        &&& forall|card: int|
            0 <= card < 52 ==> {
                &&& 0 <= #[trigger] self.status@[card] <= 2
                &&& self.status@[card] == 0 ==> self.blank_at(card)
                &&& self.status@[card] == 1 ==> self.values_blank_at(card)
            }
    }

    /// Whether the report holds `row` and the numbers of combinations
    /// `combos` for `card`: the status, and each value where the status
    /// fills the place, zero elsewhere.
    pub open spec fn holds_row(&self, card: int, row: ChanceRow<T>, combos: [T; 2]) -> bool {
        let some = !(row.status is NotPossible);
        let all = row.status is Normal;
        &&& self.status@[card] == row.status.code_spec()
        &&& holds_at(self.combos, card, some, combos, self.zero)
        &&& holds_at(self.equity, card, all, row.equity, self.zero)
        &&& holds_at(self.ev, card, all, row.ev, self.zero)
        &&& holds_at(self.eqr, card, all, row.eqr, self.zero)
        &&& forall|action: int|
            0 <= action < self.num_actions ==> self.strategy@[#[trigger] strategy_slot(
                action,
                card,
            )] == if some && action < row.strategy@.len() {
                row.strategy@[action]
            } else {
                self.zero
            }
    }

    /// Whether the report holds for `card` what `before` held for it.
    pub open spec fn same_at(&self, before: &Self, card: int) -> bool {
        &&& self.status@[card] == before.status@[card]
        &&& alike_at(self.combos, before.combos, card)
        &&& alike_at(self.equity, before.equity, card)
        &&& alike_at(self.ev, before.ev, card)
        &&& alike_at(self.eqr, before.eqr, card)
        &&& forall|action: int|
            0 <= action < self.num_actions ==> self.strategy@[#[trigger] strategy_slot(
                action,
                card,
            )] == before.strategy@[strategy_slot(action, card)]
    }

    /// A report in which no card can come: every status is 0 and every value
    /// is `zero`. Nothing is made where 52 values to the action are more
    /// than a list can hold.
    pub fn new(num_actions: usize, zero: T) -> (report: Option<Self>)
        ensures
            report is Some <==> num_actions * 52 <= usize::MAX,
            report matches Some(made) ==> {
                &&& made.wf()
                &&& made.num_actions == num_actions
                &&& made.zero == zero
                &&& forall|card: int|
                    0 <= card < 52 ==> #[trigger] made.status@[card] == 0 && made.blank_at(card)
            },
    {
        if num_actions > usize::MAX / 52 {
            return None;
        }
        let report = GameChanceReportsResponse {
            status: filled(52, 0i32),
            combos: [filled(52, zero), filled(52, zero)],
            equity: [filled(52, zero), filled(52, zero)],
            ev: [filled(52, zero), filled(52, zero)],
            eqr: [filled(52, zero), filled(52, zero)],
            strategy: filled(num_actions * 52, zero),
            num_actions,
            zero,
        };
        Some(report)
    }

    /// Writes the row of one card, and leaves every other card as it is.
    /// Each player's number of combinations is the sum of the player's
    /// weights once the card is dealt. What the row's status leaves out is
    /// written as zero.
    pub fn record<S: Fn(T, T) -> T>(
        &mut self,
        card: u8,
        row: &ChanceRow<T>,
        weights: &[Vec<T>; 2],
        sum_of: &S,
    )
        requires
            old(self).wf(),
            card < DECK_SIZE,
            is_operation(*sum_of),
        ensures
            final(self).wf(),
            final(self).num_actions == old(self).num_actions,
            final(self).zero == old(self).zero,
            final(self).holds_row(
                card as int,
                *row,
                [
                    total_spec(*sum_of, old(self).zero, weights@[0]@),
                    total_spec(*sum_of, old(self).zero, weights@[1]@),
                ],
            ),
            forall|other: int|
                0 <= other < 52 && other != card ==> #[trigger] final(self).same_at(
                    old(self),
                    other,
                ),
    {
        let c = card as usize;
        let zero = self.zero;
        let (some, all) = match row.status {
            ReportStatus::NotPossible => (false, false),
            ReportStatus::Empty => (true, false),
            ReportStatus::Normal => (true, true),
        };
        self.status[c] = row.status.code();
        if some {
            let first = total(&weights[0], zero, sum_of);
            let second = total(&weights[1], zero, sum_of);
            put_pair(&mut self.combos, c, first, second);
        } else {
            put_pair(&mut self.combos, c, zero, zero);
        }
        if all {
            put_pair(&mut self.equity, c, row.equity[0], row.equity[1]);
            put_pair(&mut self.ev, c, row.ev[0], row.ev[1]);
            put_pair(&mut self.eqr, c, row.eqr[0], row.eqr[1]);
        } else {
            put_pair(&mut self.equity, c, zero, zero);
            put_pair(&mut self.ev, c, zero, zero);
            put_pair(&mut self.eqr, c, zero, zero);
        }
        let ghost middle = *self;
        let total_len = self.strategy.len();
        let mut action: usize = 0;
        while action < self.num_actions
            invariant
                action <= self.num_actions,
                total_len == self.strategy@.len(),
                middle.sized(),
                c == card,
                card < DECK_SIZE,
                zero == self.zero,
                self.sized(),
                self.num_actions == middle.num_actions,
                self.zero == middle.zero,
                self.status == middle.status,
                self.combos == middle.combos,
                self.equity == middle.equity,
                self.ev == middle.ev,
                self.eqr == middle.eqr,
                some == !(row.status is NotPossible),
                forall|a: int|
                    0 <= a < action ==> self.strategy@[#[trigger] strategy_slot(a, card as int)]
                        == if some && a < row.strategy@.len() {
                        row.strategy@[a]
                    } else {
                        zero
                    },
                forall|a: int, other: int|
                    0 <= a < self.num_actions && 0 <= other < 52 && (other != card || a >= action)
                        ==> self.strategy@[#[trigger] strategy_slot(a, other)]
                        == middle.strategy@[strategy_slot(a, other)],
            decreases self.num_actions - action,
        {
            let value = if some && action < row.strategy.len() {
                row.strategy[action]
            } else {
                zero
            };
            let slot = action * 52 + c;
            assert(slot == strategy_slot(action as int, card as int));
            let ghost before = self.strategy@;
            self.strategy[slot] = value;
            proof {
                assert forall|a: int, other: int|
                    0 <= a < self.num_actions && 0 <= other < 52 && (other != card || a >= action
                        + 1) implies self.strategy@[#[trigger] strategy_slot(a, other)]
                    == middle.strategy@[strategy_slot(a, other)] by {
                    assert(strategy_slot(a, other) != slot);
                    assert(before[strategy_slot(a, other)] == middle.strategy@[strategy_slot(
                        a,
                        other,
                    )]);
                }
                assert forall|a: int| 0 <= a < action + 1 implies self.strategy@[#[trigger] strategy_slot(
                    a,
                    card as int,
                )] == if some && a < row.strategy@.len() {
                    row.strategy@[a]
                } else {
                    zero
                } by {
                    if a < action {
                        assert(strategy_slot(a, card as int) != slot);
                        assert(before[strategy_slot(a, card as int)] == if some && a
                            < row.strategy@.len() {
                            row.strategy@[a]
                        } else {
                            zero
                        });
                    }
                }
            }
            action += 1;
        }
        proof {
            assert forall|other: int| 0 <= other < 52 && other != card implies #[trigger] self.same_at(
                old(self),
                other,
            ) by {
                assert forall|a: int| 0 <= a < self.num_actions implies self.strategy@[#[trigger] strategy_slot(
                    a,
                    other,
                )] == old(self).strategy@[strategy_slot(a, other)] by {}
            }
            assert forall|k: int| 0 <= k < 52 implies {
                &&& 0 <= #[trigger] self.status@[k] <= 2
                &&& self.status@[k] == 0 ==> self.blank_at(k)
                &&& self.status@[k] == 1 ==> self.values_blank_at(k)
            } by {
                if k != card {
                    assert(self.same_at(old(self), k));
                    assert(0 <= old(self).status@[k] <= 2);
                    if old(self).status@[k] == 0 {
                        assert(old(self).blank_at(k));
                        assert forall|a: int| 0 <= a < self.num_actions implies self.strategy@[#[trigger] strategy_slot(
                            a,
                            k,
                        )] == self.zero by {
                            assert(old(self).strategy@[strategy_slot(a, k)] == old(self).zero);
                        }
                    }
                }
            }
        }
    }
}

/// The results of the node under the cursor. Of each pair, the first value
/// or list is of the player out of position.
pub struct GameResultsResponse<T> {
    pub current_player: String,
    pub num_actions: usize,
    pub is_empty: i32,
    pub eqr_base: [i32; 2],
    pub weights: [Vec<T>; 2],
    pub normalizer: [Vec<T>; 2],
    pub equity: [Vec<T>; 2],
    pub ev: [Vec<T>; 2],
    pub eqr: [Vec<T>; 2],
    pub strategy: Vec<T>,
    pub action_ev: Vec<T>,
}

/// The values that a player's hands are reported with, a value per hand.
pub struct PlayerValues<T> {
    pub normalizer: Vec<T>,
    pub equity: Vec<T>,
    pub ev: Vec<T>,
    pub eqr: Vec<T>,
}

/// What a list of results holds: the list that was worked out where the
/// plan asks for it, and nothing where it does not.
pub open spec fn listed<T>(asked: bool, values: Seq<T>) -> Seq<T> {
    if asked {
        values
    } else {
        Seq::empty()
    }
}

/// The list that was worked out where the plan asks for it, else an empty
/// one.
fn list_of<T>(asked: bool, values: Vec<T>) -> (list: Vec<T>)
    ensures
        list@ == listed(asked, values@),
{
    if asked {
        values
    } else {
        Vec::new()
    }
}

impl<T: Copy> GameResultsResponse<T> {
    /// Puts the results together as the plan has it. Where the plan asks for
    /// no values, the weights stand for the normalized weights and equity,
    /// expected value and their ratio are left out. The strategy and the
    /// expected value of each action are left out where the plan asks for
    /// none.
    pub fn assemble(
        plan: ResultsPlan,
        current_player: String,
        num_actions: usize,
        eqr_base: [i32; 2],
        weights: [Vec<T>; 2],
        oop: PlayerValues<T>,
        ip: PlayerValues<T>,
        strategy: Vec<T>,
        action_ev: Vec<T>,
    ) -> (results: Self)
        ensures
            results.current_player@ == current_player@,
            results.num_actions == num_actions,
            results.is_empty == plan.is_empty,
            results.eqr_base == eqr_base,
            results.weights@[0]@ == weights@[0]@,
            results.weights@[1]@ == weights@[1]@,
            results.normalizer@[0]@ == if plan.values {
                oop.normalizer@
            } else {
                weights@[0]@
            },
            results.normalizer@[1]@ == if plan.values {
                ip.normalizer@
            } else {
                weights@[1]@
            },
            results.equity@[0]@ == listed(plan.values, oop.equity@),
            results.equity@[1]@ == listed(plan.values, ip.equity@),
            results.ev@[0]@ == listed(plan.values, oop.ev@),
            results.ev@[1]@ == listed(plan.values, ip.ev@),
            results.eqr@[0]@ == listed(plan.values, oop.eqr@),
            results.eqr@[1]@ == listed(plan.values, ip.eqr@),
            results.strategy@ == listed(plan.strategy, strategy@),
            results.action_ev@ == listed(plan.action_ev, action_ev@),
    {
        let normalizer = if plan.values {
            [oop.normalizer, ip.normalizer]
        } else {
            [copy_of(&weights[0]), copy_of(&weights[1])]
        };
        GameResultsResponse {
            current_player,
            num_actions,
            is_empty: plan.is_empty,
            eqr_base,
            weights,
            normalizer,
            equity: [list_of(plan.values, oop.equity), list_of(plan.values, ip.equity)],
            ev: [list_of(plan.values, oop.ev), list_of(plan.values, ip.ev)],
            eqr: [list_of(plan.values, oop.eqr), list_of(plan.values, ip.eqr)],
            strategy: list_of(plan.strategy, strategy),
            action_ev: list_of(plan.action_ev, action_ev),
        }
    }
}

/// The strategy of a node summed up: for each action, the weighted average
/// over `weights` of the probabilities with which the hands take it. The
/// strategy stands action by action, `num_hands` hands to the action.
pub fn strategy_summary<T: Copy, M: Fn(T, T) -> T, S: Fn(T, T) -> T, Q: Fn(T, T) -> T>(
    strategy: &Vec<T>,
    num_hands: usize,
    num_actions: usize,
    weights: &Vec<T>,
    zero: T,
    product_of: &M,
    sum_of: &S,
    quotient_of: &Q,
) -> (summary: Vec<T>)
    requires
        num_actions * num_hands <= strategy@.len(),
        is_operation(*product_of),
        is_operation(*sum_of),
        is_operation(*quotient_of),
    ensures
        summary@.len() == num_actions,
        forall|action: int|
            0 <= action < num_actions ==> #[trigger] summary@[action] == weighted_average_spec(
                *product_of,
                *sum_of,
                *quotient_of,
                zero,
                row_of(strategy@, action, num_hands as int),
                weights@,
            ),
{
    let total_len = strategy.len();
    let mut summary: Vec<T> = Vec::new();
    let mut action: usize = 0;
    let mut base: usize = 0;
    while action < num_actions
        invariant
            action <= num_actions,
            total_len == strategy@.len(),
            num_actions * num_hands <= strategy@.len(),
            base == action * num_hands,
            is_operation(*product_of),
            is_operation(*sum_of),
            is_operation(*quotient_of),
            summary@.len() == action,
            forall|a: int|
                0 <= a < action ==> #[trigger] summary@[a] == weighted_average_spec(
                    *product_of,
                    *sum_of,
                    *quotient_of,
                    zero,
                    row_of(strategy@, a, num_hands as int),
                    weights@,
                ),
        decreases num_actions - action,
    {
        proof {
            lemma_row_within(action as int, num_actions as int, num_hands as int);
        }
        let row = copy_range(strategy, base, base + num_hands);
        assert(row@ =~= row_of(strategy@, action as int, num_hands as int));
        summary.push(weighted_average(&row, weights, zero, product_of, sum_of, quotient_of));
        base += num_hands;
        action += 1;
    }
    summary
}

/// A row that is among the rows of a table ends within the table.
proof fn lemma_row_within(row: int, rows: int, width: int)
    by (nonlinear_arith)
    requires
        0 <= row < rows,
        0 <= width,
    ensures
        (row + 1) * width == row * width + width,
        (row + 1) * width <= rows * width,
        0 <= row * width,
{
}

} // verus!
