use vstd::prelude::*;

verus! {

/// One step of a line of play.
///
/// A card is a number below 52: four times its rank plus its suit.
#[derive(Clone, Copy, Debug, PartialEq, Eq, Structural)]
pub enum Action {
    Fold,
    Check,
    Call,
    Bet(i32),
    Raise(i32),
    AllIn(i32),
    Chance(u8),
}

/// Number of cards in the deck.
pub const DECK_SIZE: u8 = 52;

/// The index the engine is given for a history entry: `-1` stands for
/// "whichever card comes first" and becomes the largest index.
pub open spec fn action_usize_spec(action: isize) -> usize {
    if action == -1 {
        usize::MAX
    } else {
        action as usize
    }
}

pub fn action_usize(action: isize) -> (index: usize)
    ensures
        index == action_usize_spec(action),
        action >= 0 ==> index == action,
{
    if action == -1 {
        usize::MAX
    } else {
        action as usize
    }
}

/// The indices that the engine is given for the entries of `append` from
/// position `skip` on.
pub fn history_indices(append: &Vec<isize>, skip: usize) -> (indices: Vec<usize>)
    ensures
        skip <= append@.len() ==> indices@.len() == append@.len() - skip,
        skip > append@.len() ==> indices@.len() == 0,
        forall|i: int|
            0 <= i < indices@.len() ==> #[trigger] indices@[i] == action_usize_spec(
                append@[skip + i],
            ),
{
    let mut indices: Vec<usize> = Vec::new();
    if skip > append.len() {
        return indices;
    }
    let mut i: usize = skip;
    while i < append.len()
        invariant
            skip <= i <= append@.len(),
            indices@.len() == i - skip,
            forall|k: int|
                0 <= k < indices@.len() ==> #[trigger] indices@[k] == action_usize_spec(
                    append@[skip + k],
                ),
        decreases append@.len() - i,
    {
        indices.push(action_usize(append[i]));
        i += 1;
    }
    indices
}

/// The action that adds a bet of `amount` to a tree: a raise where a bet
/// stands already, else a bet.
pub fn bet_action(amount: i32, is_raise: bool) -> (action: Action)
    ensures
        action == if is_raise {
            Action::Raise(amount)
        } else {
            Action::Bet(amount)
        },
{
    if is_raise {
        Action::Raise(amount)
    } else {
        Action::Bet(amount)
    }
}

} // verus!
