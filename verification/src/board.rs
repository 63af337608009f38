//! Boards: which street a board stands on, and which cards it shows.

use crate::error::Error;
use vstd::prelude::*;

verus! {

/// The street that play begins on.
#[derive(Clone, Copy, Debug, PartialEq, Eq, Structural)]
pub enum BoardState {
    Flop,
    Turn,
    River,
}

/// The value that stands for a card that is not dealt yet.
pub const NOT_DEALT: u8 = 0xff;

/// A board as the engine takes it: three flop cards, then the turn and the
/// river, each `NOT_DEALT` until it is dealt.
#[derive(Clone, Copy, Debug, PartialEq, Eq)]
pub struct BoardCards {
    pub flop: (u8, u8, u8),
    pub turn: u8,
    pub river: u8,
    pub state: BoardState,
}

/// The board that a list of three, four or five cards stands for.
pub open spec fn board_cards_spec(board: Seq<u8>) -> Option<BoardCards> {
    if board.len() == 3 {
        Some(
            BoardCards {
                flop: (board[0], board[1], board[2]),
                turn: NOT_DEALT,
                river: NOT_DEALT,
                state: BoardState::Flop,
            },
        )
    } else if board.len() == 4 {
        Some(
            BoardCards {
                flop: (board[0], board[1], board[2]),
                turn: board[3],
                river: NOT_DEALT,
                state: BoardState::Turn,
            },
        )
    } else if board.len() == 5 {
        Some(
            BoardCards {
                flop: (board[0], board[1], board[2]),
                turn: board[3],
                river: board[4],
                state: BoardState::River,
            },
        )
    } else {
        None
    }
}

/// Reads a board of three, four or five cards. Any other length is refused.
pub fn board_cards(board: &Vec<u8>) -> (result: Result<BoardCards, Error>)
    ensures
        result == match board_cards_spec(board@) {
            Some(cards) => Ok::<BoardCards, Error>(cards),
            None => Err(Error::InvalidBoardLength),
        },
{
    let n = board.len();
    if n < 3 || n > 5 {
        return Err(Error::InvalidBoardLength);
    }
    let flop = (board[0], board[1], board[2]);
    if n == 3 {
        Ok(BoardCards { flop, turn: NOT_DEALT, river: NOT_DEALT, state: BoardState::Flop })
    } else if n == 4 {
        Ok(BoardCards { flop, turn: board[3], river: NOT_DEALT, state: BoardState::Turn })
    } else {
        Ok(BoardCards { flop, turn: board[3], river: board[4], state: BoardState::River })
    }
}

/// The street that an action tree for a board of `board_len` cards begins
/// on: the flop up to three cards, the turn for four, the river for five.
pub open spec fn initial_state_spec(board_len: int) -> Option<BoardState> {
    if board_len <= 3 {
        Some(BoardState::Flop)
    } else if board_len == 4 {
        Some(BoardState::Turn)
    } else if board_len == 5 {
        Some(BoardState::River)
    } else {
        None
    }
}

/// The street that an action tree for a board of `board_len` cards begins
/// on. More than five cards are refused.
pub fn initial_state(board_len: i32) -> (result: Result<BoardState, Error>)
    ensures
        result == match initial_state_spec(board_len as int) {
            Some(state) => Ok::<BoardState, Error>(state),
            None => Err(Error::InvalidBoardLength),
        },
{
    if board_len <= 3 {
        Ok(BoardState::Flop)
    } else if board_len == 4 {
        Ok(BoardState::Turn)
    } else if board_len == 5 {
        Ok(BoardState::River)
    } else {
        Err(Error::InvalidBoardLength)
    }
}

/// The flop of a board for the bunching data, which needs three cards or
/// more and reads the first three.
pub fn bunching_init(board: &Vec<u8>) -> (result: Result<(u8, u8, u8), Error>)
    ensures
        board@.len() >= 3 ==> result == Ok::<(u8, u8, u8), Error>((board@[0], board@[1], board@[2])),
        board@.len() < 3 ==> result == Err::<(u8, u8, u8), Error>(Error::InvalidBoardLength),
{
    if board.len() < 3 {
        Err(Error::InvalidBoardLength)
    } else {
        Ok((board[0], board[1], board[2]))
    }
}

} // verus!
