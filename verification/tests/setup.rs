use desktop_postflop::action::{bet_action, history_indices, Action};
use desktop_postflop::board::{
    board_cards, bunching_init, initial_state, BoardCards, BoardState, NOT_DEALT,
};
use desktop_postflop::bunching::{bunching_progress, BunchingCall, BunchingStep};
use desktop_postflop::error::Error;
use desktop_postflop::grid::{range_get_weights, range_update, GridCell};
use desktop_postflop::setup::{game_init, tree_new};

#[test]
fn boards_of_three_to_five_cards() {
    assert_eq!(
        board_cards(&vec![1, 2, 3]),
        Ok(BoardCards { flop: (1, 2, 3), turn: NOT_DEALT, river: NOT_DEALT, state: BoardState::Flop })
    );
    assert_eq!(
        board_cards(&vec![1, 2, 3, 4]),
        Ok(BoardCards { flop: (1, 2, 3), turn: 4, river: NOT_DEALT, state: BoardState::Turn })
    );
    assert_eq!(
        board_cards(&vec![1, 2, 3, 4, 5]),
        Ok(BoardCards { flop: (1, 2, 3), turn: 4, river: 5, state: BoardState::River })
    );
    assert_eq!(NOT_DEALT, 255);
}

#[test]
fn boards_of_other_lengths_are_refused() {
    assert_eq!(board_cards(&vec![]), Err(Error::InvalidBoardLength));
    assert_eq!(board_cards(&vec![1, 2]), Err(Error::InvalidBoardLength));
    assert_eq!(board_cards(&vec![1, 2, 3, 4, 5, 6]), Err(Error::InvalidBoardLength));
}

#[test]
fn tree_begins_on_the_street_of_the_board() {
    assert_eq!(initial_state(-1), Ok(BoardState::Flop));
    assert_eq!(initial_state(0), Ok(BoardState::Flop));
    assert_eq!(initial_state(3), Ok(BoardState::Flop));
    assert_eq!(initial_state(4), Ok(BoardState::Turn));
    assert_eq!(initial_state(5), Ok(BoardState::River));
    assert_eq!(initial_state(6), Err(Error::InvalidBoardLength));
    assert_eq!(initial_state(i32::MAX), Err(Error::InvalidBoardLength));
}

#[test]
fn bunching_needs_a_flop() {
    assert_eq!(bunching_init(&vec![9, 8]), Err(Error::InvalidBoardLength));
    assert_eq!(bunching_init(&vec![9, 8, 7]), Ok((9, 8, 7)));
    assert_eq!(bunching_init(&vec![9, 8, 7, 6, 5]), Ok((9, 8, 7)));
}

#[test]
fn bunching_goes_through_its_phases() {
    let step = |call, phase, percent| BunchingStep { call, phase, percent };
    assert_eq!(bunching_progress(0, 0), step(BunchingCall::Phase1Prepare, 1, 0));
    assert_eq!(bunching_progress(1, 0), step(BunchingCall::Phase1Proceed, 1, 1));
    assert_eq!(bunching_progress(1, 99), step(BunchingCall::Phase1Proceed, 1, 100));
    assert_eq!(bunching_progress(1, 100), step(BunchingCall::Phase2Prepare, 2, 0));
    assert_eq!(bunching_progress(2, 41), step(BunchingCall::Phase2Proceed, 2, 42));
    assert_eq!(bunching_progress(2, 100), step(BunchingCall::Phase3Prepare, 3, 0));
    assert_eq!(bunching_progress(3, 0), step(BunchingCall::Phase3Proceed, 3, 1));
    assert_eq!(bunching_progress(3, 99), step(BunchingCall::Phase3Proceed, 3, 100));
    assert_eq!(bunching_progress(3, 100), step(BunchingCall::Done, 3, 100));
    assert_eq!(bunching_progress(0, 100), step(BunchingCall::Phase1Prepare, 1, 0));
    assert_eq!(bunching_progress(7, 5), step(BunchingCall::Idle, 7, 6));
}

#[test]
fn bunching_runs_to_the_end() {
    let (mut phase, mut percent) = (0u8, 0u8);
    let mut rounds = 0;
    let mut proceeds = [0; 4];
    loop {
        let step = bunching_progress(phase, percent);
        match step.call {
            BunchingCall::Done => break,
            BunchingCall::Phase1Proceed => proceeds[1] += 1,
            BunchingCall::Phase2Proceed => proceeds[2] += 1,
            BunchingCall::Phase3Proceed => proceeds[3] += 1,
            _ => {}
        }
        phase = step.phase;
        percent = step.percent;
        rounds += 1;
        assert!(rounds < 1000);
    }
    assert_eq!((phase, percent), (3, 100));
    assert_eq!(proceeds, [0, 100, 100, 100]);
    assert_eq!(rounds, 303);
}

#[test]
fn grid_cell_of_an_edit() {
    assert_eq!(range_update(1, 1), GridCell::Pair(12));
    assert_eq!(range_update(13, 13), GridCell::Pair(0));
    assert_eq!(range_update(1, 2), GridCell::Suited(12, 11));
    assert_eq!(range_update(2, 1), GridCell::Offsuit(11, 12));
    assert_eq!(range_update(5, 13), GridCell::Suited(8, 0));
    assert_eq!(range_update(13, 5), GridCell::Offsuit(0, 8));
}

#[test]
fn grid_of_all_cells() {
    let cells = range_get_weights();
    assert_eq!(cells.len(), 169);
    assert_eq!(cells[0], GridCell::Pair(12));
    assert_eq!(cells[168], GridCell::Pair(0));
    assert_eq!(cells[1], GridCell::Suited(12, 11));
    assert_eq!(cells[13], GridCell::Offsuit(11, 12));
    assert_eq!(cells[12], GridCell::Suited(12, 0));
    assert_eq!(cells[156], GridCell::Offsuit(0, 12));
    assert_eq!(cells[3 * 13 + 7], GridCell::Suited(9, 5));
    let pairs = cells.iter().filter(|c| matches!(c, GridCell::Pair(_))).count();
    let suited = cells.iter().filter(|c| matches!(c, GridCell::Suited(..))).count();
    assert_eq!((pairs, suited), (13, 78));
}

#[test]
fn appended_history_as_indices() {
    assert_eq!(history_indices(&vec![3, -1, 0], 0), vec![3, usize::MAX, 0]);
    assert_eq!(history_indices(&vec![3, -1, 0], 1), vec![usize::MAX, 0]);
    assert_eq!(history_indices(&vec![3], 1), Vec::<usize>::new());
    assert_eq!(history_indices(&vec![], 1), Vec::<usize>::new());
}

#[test]
fn added_bet_is_a_bet_or_a_raise() {
    assert_eq!(bet_action(40, false), Action::Bet(40));
    assert_eq!(bet_action(40, true), Action::Raise(40));
}

#[test]
fn game_request_is_read() {
    let setup = game_init(&vec![1, 2, 3, 4], "X-B5,B10-C|X", "").ok().unwrap();
    assert_eq!(setup.board.turn, 4);
    assert_eq!(setup.board.state, BoardState::Turn);
    assert_eq!(
        setup.added_lines,
        vec![
            vec![Action::Check, Action::Bet(5)],
            vec![Action::Bet(10), Action::Call, Action::Check]
        ]
    );
    assert!(setup.removed_lines.is_empty());
}

#[test]
fn game_request_errors_come_in_order() {
    assert_eq!(game_init(&vec![1, 2], "Z", "Z").err(), Some(Error::InvalidBoardLength));
    assert_eq!(game_init(&vec![1, 2, 3], "Z", "").err(), Some(Error::MalformedActionToken));
    assert_eq!(game_init(&vec![1, 2, 3], "", "X-").err(), Some(Error::MalformedActionToken));
    assert!(game_init(&vec![1, 2, 3], "", "").is_ok());
}

#[test]
fn tree_request_is_read() {
    let setup = tree_new(5, "", "F,X-X").ok().unwrap();
    assert_eq!(setup.initial_state, BoardState::River);
    assert!(setup.added_lines.is_empty());
    assert_eq!(setup.removed_lines, vec![vec![Action::Fold], vec![Action::Check, Action::Check]]);
    assert_eq!(tree_new(0, "", "").ok().unwrap().initial_state, BoardState::Flop);
    assert_eq!(tree_new(6, "Z", "").err(), Some(Error::InvalidBoardLength));
    assert_eq!(tree_new(4, "Z", "").err(), Some(Error::MalformedActionToken));
}
