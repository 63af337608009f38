//! The order of work of a chance report: each card that can come is dealt
//! on its own, and the cursor is put back before anything else is done.

use crate::action::DECK_SIZE;
use crate::error::Error;
use crate::hands::{card_possible, has_bit};
use vstd::prelude::*;

verus! {

/// What the caller does next.
#[derive(Clone, Copy, Debug, PartialEq, Eq, Structural)]
pub enum SweepStep {
    /// Deal this card from the node of the report, and work out its row.
    Deal(u8),
    /// Put the cursor and the weights back where they were before the
    /// report began.
    Restore,
    /// The report is complete, and the cursor is where it was.
    Finished,
}

/// The state of a sweep as a mathematical value.
pub struct SweepState {
    /// The cards that can come, as a mask.
    pub possible: u64,
    /// The first card that has not been looked at.
    pub next: u8,
    /// Whether the cursor has left the node of the report.
    pub displaced: bool,
}

/// The first card from `from` on that can come, or the size of the deck
/// where there is none.
pub open spec fn next_possible(possible: u64, from: u8) -> u8
    decreases DECK_SIZE - from,
{
    if from >= DECK_SIZE {
        DECK_SIZE
    } else if has_bit(possible, from) {
        from
    } else {
        next_possible(possible, (from + 1) as u8)
    }
}

/// One step of a sweep: a displaced cursor is put back first; else the next
/// card that can come is dealt; else the sweep is finished.
pub open spec fn sweep_step_spec(state: SweepState) -> (SweepState, SweepStep) {
    if state.displaced {
        (
            SweepState { possible: state.possible, next: state.next, displaced: false },
            SweepStep::Restore,
        )
    } else {
        let card = next_possible(state.possible, state.next);
        if card < DECK_SIZE {
            (
                SweepState { possible: state.possible, next: (card + 1) as u8, displaced: true },
                SweepStep::Deal(card),
            )
        } else {
            (
                SweepState { possible: state.possible, next: DECK_SIZE, displaced: false },
                SweepStep::Finished,
            )
        }
    }
}

/// The next card that can come lies at or after `from`, can come indeed,
/// and no card between the two can.
pub proof fn lemma_next_possible(possible: u64, from: u8)
    requires
        from <= DECK_SIZE,
    ensures
        from <= next_possible(possible, from) <= DECK_SIZE,
        next_possible(possible, from) < DECK_SIZE ==> has_bit(
            possible,
            next_possible(possible, from),
        ),
        forall|c: u8| from <= c < next_possible(possible, from) ==> !has_bit(possible, c),
    decreases DECK_SIZE - from,
{
    if from < DECK_SIZE && !has_bit(possible, from) {
        lemma_next_possible(possible, (from + 1) as u8);
    }
}

/// The first card from `from` on that can come, or the size of the deck
/// where there is none.
pub fn next_possible_card(possible: u64, from: u8) -> (card: u8)
    requires
        from <= DECK_SIZE,
    ensures
        card == next_possible(possible, from),
        from <= card <= DECK_SIZE,
{
    let mut card: u8 = from;
    while card < DECK_SIZE && !card_possible(possible, card)
        invariant
            from <= card <= DECK_SIZE,
            next_possible(possible, card) == next_possible(possible, from),
        decreases DECK_SIZE - card,
    {
        card += 1;
    }
    card
}

/// A sweep over the cards that can come at a chance node.
#[derive(Clone, Copy, Debug, PartialEq, Eq, Structural)]
pub struct ChanceSweep {
    pub possible: u64,
    pub next: u8,
    pub displaced: bool,
}

impl View for ChanceSweep {
    type V = SweepState;

    open spec fn view(&self) -> SweepState {
        SweepState { possible: self.possible, next: self.next, displaced: self.displaced }
    }
}

impl ChanceSweep {
    /// No card beyond the deck has been looked at.
    pub open spec fn wf(&self) -> bool {
        self.next <= DECK_SIZE
    }

    /// A sweep that has looked at no card yet.
    pub fn new(possible: u64) -> (sweep: ChanceSweep)
        ensures
            sweep.wf(),
            sweep@ == (SweepState { possible, next: 0, displaced: false }),
    {
        ChanceSweep { possible, next: 0, displaced: false }
    }

    /// What the caller does next.
    pub fn step(&mut self) -> (step: SweepStep)
        requires
            old(self).wf(),
        ensures
            final(self).wf(),
            (final(self)@, step) == sweep_step_spec(old(self)@),
    {
        if self.displaced {
            self.displaced = false;
            return SweepStep::Restore;
        }
        let card = next_possible_card(self.possible, self.next);
        if card < DECK_SIZE {
            self.next = card + 1;
            self.displaced = true;
            SweepStep::Deal(card)
        } else {
            self.next = DECK_SIZE;
            SweepStep::Finished
        }
    }

    /// Takes note that a card's row failed with `error`. A card that is not
    /// reachable only loses its own row, and the sweep goes on. Any other
    /// error says that history and tree do not fit: the cards that are left
    /// are given up. Either way the cursor is put back next. Says whether
    /// the sweep goes on.
    pub fn fail(&mut self, error: Error) -> (goes_on: bool)
        ensures
            old(self).wf() ==> final(self).wf(),
            goes_on == (error == Error::CardNotReachable),
            goes_on ==> *final(self) == *old(self),
            !goes_on ==> final(self)@ == (SweepState {
                possible: old(self).possible,
                next: DECK_SIZE,
                displaced: old(self).displaced,
            }),
    {
        match error {
            Error::CardNotReachable => true,
            _ => {
                self.abort();
                false
            },
        }
    }

    /// Gives up the cards that are left: the cursor is still put back where
    /// it is displaced, and then the sweep is finished.
    pub fn abort(&mut self)
        ensures
            final(self).wf(),
            final(self)@ == (SweepState {
                possible: old(self).possible,
                next: DECK_SIZE,
                displaced: old(self).displaced,
            }),
    {
        self.next = DECK_SIZE;
    }
}

/// A sweep never deals a card while the cursor is displaced, and never
/// finishes before it is put back: after a card is dealt the very next step
/// puts the cursor back, whatever became of the card.
pub proof fn lemma_restore_follows_deal(state: SweepState)
    requires
        state.next <= DECK_SIZE,
    ensures
        state.displaced ==> sweep_step_spec(state).1 == SweepStep::Restore,
        sweep_step_spec(state).1 is Deal ==> {
            &&& !state.displaced
            &&& sweep_step_spec(state).0.displaced
            &&& sweep_step_spec(sweep_step_spec(state).0).1 == SweepStep::Restore
            &&& !sweep_step_spec(sweep_step_spec(state).0).0.displaced
        },
        sweep_step_spec(state).1 is Finished ==> !state.displaced && !sweep_step_spec(
            state,
        ).0.displaced,
{
}

/// Each card that a sweep deals can come, is a card of the deck, and no card
/// that can come is passed over on the way to it; when the sweep finishes,
/// no card from the first unseen one on can come.
pub proof fn lemma_sweep_deals_possible_cards(state: SweepState)
    requires
        state.next <= DECK_SIZE,
        !state.displaced,
    ensures
        sweep_step_spec(state).1 matches SweepStep::Deal(card) ==> {
            &&& state.next <= card < DECK_SIZE
            &&& has_bit(state.possible, card)
            &&& sweep_step_spec(state).0.next == card + 1
            &&& forall|c: u8| state.next <= c < card ==> !has_bit(state.possible, c)
        },
        sweep_step_spec(state).1 is Finished ==> forall|c: u8|
            state.next <= c < DECK_SIZE ==> !has_bit(state.possible, c),
{
    lemma_next_possible(state.possible, state.next);
}

} // verus!
