//! What is read of the front end's request before a tree or a game is
//! built: the board, and the lines of play to add and to remove.

use crate::action::Action;
use crate::board::{board_cards, board_cards_spec, initial_state, initial_state_spec, BoardCards, BoardState};
use crate::codec::{decode_lines, decode_lines_spec, lines_view};
use crate::error::Error;
use vstd::prelude::*;

verus! {

/// What a game is built from, as far as the request says it in cards and
/// lines.
pub struct GameSetup {
    pub board: BoardCards,
    pub added_lines: Vec<Vec<Action>>,
    pub removed_lines: Vec<Vec<Action>>,
}

/// What an action tree is built from, as far as the request says it in a
/// board length and lines.
pub struct TreeSetup {
    pub initial_state: BoardState,
    pub added_lines: Vec<Vec<Action>>,
    pub removed_lines: Vec<Vec<Action>>,
}

/// The error of a request, if it has one: a board of a wrong length comes
/// before a token that is malformed.
pub open spec fn setup_error(board_fits: bool, added: Seq<char>, removed: Seq<char>) -> Option<
    Error,
> {
    if !board_fits {
        Some(Error::InvalidBoardLength)
    } else if decode_lines_spec(added) is None || decode_lines_spec(removed) is None {
        Some(Error::MalformedActionToken)
    } else {
        None
    }
}

/// Reads the board and the lines of a request for a game. A board that has
/// not three, four or five cards is refused, and so is a line with a token
/// that spells no action.
pub fn game_init(board: &Vec<u8>, added_lines: &str, removed_lines: &str) -> (result: Result<
    GameSetup,
    Error,
>)
    ensures
        match setup_error(board_cards_spec(board@) is Some, added_lines@, removed_lines@) {
            Some(error) => result is Err && result->Err_0 == error,
            None => {
                &&& result is Ok
                &&& Some(result->Ok_0.board) == board_cards_spec(board@)
                &&& Some(lines_view(result->Ok_0.added_lines@)) == decode_lines_spec(added_lines@)
                &&& Some(lines_view(result->Ok_0.removed_lines@)) == decode_lines_spec(
                    removed_lines@,
                )
            },
        },
{
    let cards = match board_cards(board) {
        Ok(cards) => cards,
        Err(error) => {
            return Err(error);
        },
    };
    let added = match decode_lines(added_lines) {
        Ok(lines) => lines,
        Err(error) => {
            return Err(error);
        },
    };
    let removed = match decode_lines(removed_lines) {
        Ok(lines) => lines,
        Err(error) => {
            return Err(error);
        },
    };
    Ok(GameSetup { board: cards, added_lines: added, removed_lines: removed })
}

/// Reads the board length and the lines of a request for an action tree. A
/// board of more than five cards is refused, and so is a line with a token
/// that spells no action.
pub fn tree_new(board_len: i32, added_lines: &str, removed_lines: &str) -> (result: Result<
    TreeSetup,
    Error,
>)
    ensures
        match setup_error(initial_state_spec(board_len as int) is Some, added_lines@, removed_lines@) {
            Some(error) => result is Err && result->Err_0 == error,
            None => {
                &&& result is Ok
                &&& Some(result->Ok_0.initial_state) == initial_state_spec(board_len as int)
                &&& Some(lines_view(result->Ok_0.added_lines@)) == decode_lines_spec(added_lines@)
                &&& Some(lines_view(result->Ok_0.removed_lines@)) == decode_lines_spec(
                    removed_lines@,
                )
            },
        },
{
    let state = match initial_state(board_len) {
        Ok(state) => state,
        Err(error) => {
            return Err(error);
        },
    };
    let added = match decode_lines(added_lines) {
        Ok(lines) => lines,
        Err(error) => {
            return Err(error);
        },
    };
    let removed = match decode_lines(removed_lines) {
        Ok(lines) => lines,
        Err(error) => {
            return Err(error);
        },
    };
    Ok(TreeSetup { initial_state: state, added_lines: added, removed_lines: removed })
}

} // verus!
