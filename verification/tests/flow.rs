//! A whole query against a small tree that stands in for the engine.

use desktop_postflop::action::Action;
use desktop_postflop::error::Error;
use desktop_postflop::node::{Isomorph, NodeView, Street};
use desktop_postflop::numeric::{is_empty, normalized_weights, total, weighted_average};
use desktop_postflop::replay::{history_action, Replay, WeightUpdate};
use desktop_postflop::report::{row_plan, ReportStatus, Weighting};
use desktop_postflop::swap::SwapList;
use desktop_postflop::sweep::{ChanceSweep, SweepStep};
use desktop_postflop::table::{strategy_summary, ChanceRow, GameChanceReportsResponse};

fn plus(a: f64, b: f64) -> f64 {
    a + b
}

fn times(a: f64, b: f64) -> f64 {
    a * b
}

fn over(a: f64, b: f64) -> f64 {
    a / b
}

fn positive(a: f64) -> bool {
    a > 0.0
}

fn zero(a: f64) -> bool {
    a == 0.0
}

struct Node {
    view: NodeView,
    // the strategy, action by action, a probability per hand
    strategy: Vec<f64>,
    children: Vec<usize>,
    possible: u64,
}

struct Game {
    nodes: Vec<Node>,
    cursor: usize,
    hands: (Vec<(u8, u8)>, Vec<(u8, u8)>),
    initial: (Vec<f64>, Vec<f64>),
    board: Vec<u8>,
    plays: usize,
}

struct Session {
    replay: Replay<f64>,
    history: Vec<usize>,
}

fn swaps(pairs: Vec<(u16, u16)>) -> SwapList {
    SwapList::new(pairs, 3).unwrap()
}

// Cards are 4 * rank + suit. The flop is 2c 3c 4c. On the turn the diamond
// of a rank stands in the branch of its heart; spades have branches of their
// own; the five of clubs cannot come.
fn game() -> Game {
    let root = Node {
        view: NodeView::Player { player: 0, actions: vec![Action::Check, Action::Bet(10)] },
        strategy: vec![0.5, 1.0, 0.25, 0.5, 0.0, 0.75],
        children: vec![1, 5],
        possible: 0,
    };
    let answer = Node {
        view: NodeView::Player { player: 1, actions: vec![Action::Check] },
        strategy: vec![1.0, 1.0, 1.0],
        children: vec![2],
        possible: 0,
    };
    let turn = Node {
        view: NodeView::Chance {
            street: Street::Turn,
            actions: vec![Action::Chance(14), Action::Chance(15)],
            isomorphs: vec![Isomorph {
                card: 13,
                branch: 0,
                swap_oop: swaps(vec![(0, 1)]),
                swap_ip: swaps(vec![(1, 2)]),
            }],
        },
        strategy: vec![],
        children: vec![3, 4],
        possible: (1 << 13) | (1 << 14) | (1 << 15),
    };
    let after_heart = Node {
        view: NodeView::Player { player: 0, actions: vec![Action::Check, Action::Bet(20)] },
        strategy: vec![0.25, 0.5, 1.0, 0.75, 0.5, 0.0],
        children: vec![5, 5],
        possible: 0,
    };
    let after_spade = Node {
        view: NodeView::Player { player: 0, actions: vec![Action::Check, Action::Bet(20)] },
        strategy: vec![1.0, 1.0, 0.0, 0.0, 0.0, 1.0],
        children: vec![5, 5],
        possible: 0,
    };
    let end = Node { view: NodeView::Terminal, strategy: vec![], children: vec![], possible: 0 };
    Game {
        nodes: vec![root, answer, turn, after_heart, after_spade, end],
        cursor: 0,
        // the first two hands out of position trade places when diamonds and
        // hearts do, and so do the last two hands in position
        hands: (vec![(29, 31), (30, 31), (44, 47)], vec![(40, 43), (33, 35), (34, 35)]),
        initial: (vec![1.0, 0.25, 0.25], vec![1.0, 2.0, 4.0]),
        board: vec![0, 4, 8],
        plays: 0,
    }
}

impl Session {
    fn new() -> Session {
        Session { replay: Replay::new(3, 3, 1.0), history: vec![] }
    }

    fn play(&mut self, game: &mut Game, index: usize) -> Result<(), Error> {
        let node = &game.nodes[game.cursor];
        assert!(node.view.is_valid(3, 3));
        let action = history_action(&node.view, node.possible, index)?;
        let step = self.replay.advance(&node.view, action)?;
        if let WeightUpdate::Multiply { player, branch } = step.update {
            let row = node.strategy[branch * 3..(branch + 1) * 3].to_vec();
            self.replay.multiply(player, &row, &times);
        }
        game.cursor = node.children[step.branch];
        game.plays += 1;
        self.history.push(index);
        Ok(())
    }

    fn apply_history(&mut self, game: &mut Game, history: &[usize]) -> Result<(), Error> {
        game.cursor = 0;
        self.replay.back_to_root(1.0);
        self.history.clear();
        for &index in history {
            self.play(game, index)?;
        }
        self.replay.finish(&game.initial.0, &game.initial.1, &times);
        Ok(())
    }

    fn weights(&self, player: usize) -> Vec<f64> {
        let mut weights =
            if player == 0 { self.replay.weights_oop.clone() } else { self.replay.weights_ip.clone() };
        self.replay.restore_order(player, &mut weights, 1);
        weights
    }
}

fn chance_report(game: &mut Game, session: &mut Session, suffix: &[usize]) -> GameChanceReportsResponse<f64> {
    let history = session.history.clone();
    let mut report = GameChanceReportsResponse::new(2, 0.0).unwrap();
    let mut sweep = ChanceSweep::new(game.nodes[game.cursor].possible);
    let mut displaced = false;
    loop {
        match sweep.step() {
            SweepStep::Deal(card) => {
                assert!(!displaced);
                displaced = true;
                let dealt = std::iter::once(card as usize)
                    .chain(suffix.iter().copied())
                    .try_for_each(|index| session.play(game, index));
                if let Err(error) = dealt {
                    sweep.fail(error);
                    continue;
                }
                let node = &game.nodes[game.cursor];
                let weights = [session.weights(0), session.weights(1)];
                let plan =
                    row_plan(&node.view, is_empty(&weights[0], &zero), is_empty(&weights[1], &zero));
                let normalized = normalized_weights(
                    &weights[0], &weights[1], &game.hands.0, &game.hands.1, &game.board, 0.0,
                    &positive, &times, &plus,
                );
                let summary = match plan.summary {
                    Weighting::Normalized { player: 0 } => {
                        let mut table = node.strategy.clone();
                        session.replay.restore_order(0, &mut table, 2);
                        strategy_summary(&table, 3, 2, &normalized.0, 0.0, &times, &plus, &over)
                    }
                    _ => vec![],
                };
                let equity = vec![0.5, 0.25, 1.0];
                let row = ChanceRow {
                    status: plan.status,
                    equity: [
                        weighted_average(&equity, &normalized.0, 0.0, &times, &plus, &over),
                        weighted_average(&equity, &normalized.1, 0.0, &times, &plus, &over),
                    ],
                    ev: [1.0, 2.0],
                    eqr: [3.0, 4.0],
                    strategy: summary,
                };
                report.record(card, &row, &weights, &plus);
            }
            SweepStep::Restore => {
                assert!(displaced);
                displaced = false;
                session.apply_history(game, &history).unwrap();
            }
            SweepStep::Finished => break,
        }
    }
    assert!(!displaced);
    report
}

#[test]
fn isomorphic_turn_card_is_replayed_through_its_sibling() {
    let mut game = game();
    let mut session = Session::new();
    // check, check, then the nine of diamonds... card 13 has no branch
    assert_eq!(session.apply_history(&mut game, &[0, 0, 13]), Ok(()));
    assert_eq!(game.cursor, 3);
    assert_eq!(session.replay.path, vec![0, 0, 0]);
    let (oop, ip) = session.replay.turn_swap.as_ref().unwrap();
    assert!(!oop.pairs.is_empty() && !ip.pairs.is_empty());
    // as dealt, the weights are the flop's probabilities times the initial
    // weights, hand by hand
    assert_eq!(session.weights(0), vec![0.5 * 1.0, 1.0 * 0.25, 0.25 * 0.25]);
    assert_eq!(session.weights(1), vec![1.0, 2.0, 4.0]);
    // one more step, whose probabilities stand in the order of the sibling
    session.play(&mut game, 0).unwrap();
    assert_eq!(session.weights(0), vec![0.5 * 0.5, 0.25 * 0.25, 0.0625 * 1.0]);
}

#[test]
fn replay_twice_gives_identical_weights() {
    let mut game = game();
    let mut session = Session::new();
    session.apply_history(&mut game, &[0, 0, 13, 1]).unwrap();
    let first = (session.weights(0), session.weights(1), session.replay.path.clone());
    session.apply_history(&mut game, &[0, 0, 13, 1]).unwrap();
    let second = (session.weights(0), session.weights(1), session.replay.path.clone());
    assert_eq!(first, second);
    assert_eq!(first.0, vec![0.5 * 0.5, 0.25 * 0.75, 0.0]);
}

#[test]
fn stale_history_is_refused() {
    let mut game = game();
    let mut session = Session::new();
    assert_eq!(session.apply_history(&mut game, &[2]), Err(Error::ActionNotFound));
    assert_eq!(session.apply_history(&mut game, &[0, 0, 12]), Err(Error::CardNotReachable));
    assert_eq!(session.apply_history(&mut game, &[0, 0, 14, 0, 0]), Err(Error::ActionNotFound));
}

#[test]
fn chance_report_covers_each_possible_card_and_restores() {
    let mut game = game();
    let mut session = Session::new();
    session.apply_history(&mut game, &[0, 0]).unwrap();
    let before = (game.cursor, session.weights(0), session.weights(1), session.history.clone());
    let report = chance_report(&mut game, &mut session, &[]);
    let after = (game.cursor, session.weights(0), session.weights(1), session.history.clone());
    assert_eq!(before, after);

    for card in 0..52 {
        let expected = if (13..=15).contains(&card) { 2 } else { 0 };
        assert_eq!(report.status[card], expected, "card {card}");
    }
    // the five of clubs, which cannot come
    assert_eq!(report.status[12], ReportStatus::NotPossible.code());
    assert_eq!(report.combos[0][12], 0.0);
    assert_eq!(report.combos[1][12], 0.0);
    assert_eq!(report.equity[0][12], 0.0);
    assert_eq!(report.ev[1][12], 0.0);
    assert_eq!(report.eqr[1][12], 0.0);
    assert_eq!(report.strategy[12], 0.0);
    assert_eq!(report.strategy[52 + 12], 0.0);

    // the numbers of combinations are the sums of the weights
    let oop = total(&before.1, 0.0, &plus);
    let ip = total(&before.2, 0.0, &plus);
    for card in 13..=15 {
        assert_eq!(report.combos[0][card], oop);
        assert_eq!(report.combos[1][card], ip);
    }
    assert_eq!((oop, ip), (0.8125, 7.0));

    // the heart and the diamond are reported alike, but for the hands that
    // trade places
    assert_eq!(report.ev[0][13], 1.0);
    assert_eq!(report.eqr[1][14], 4.0);
    let summary = |card: usize| (report.strategy[card], report.strategy[52 + card]);
    assert_eq!(summary(13).0 + summary(13).1, 1.0);
    assert_eq!(summary(14).0 + summary(14).1, 1.0);
    assert_ne!(summary(13), summary(14));
}

#[test]
fn chance_report_after_a_suffix_that_does_not_fit_every_card() {
    let mut game = game();
    let mut session = Session::new();
    session.apply_history(&mut game, &[0, 0]).unwrap();
    // after the card, a bet and then one action more, which no node offers
    let report = chance_report(&mut game, &mut session, &[1, 0]);
    assert_eq!(report.status, vec![0; 52]);
    assert_eq!(game.cursor, 2);
    assert_eq!(session.history, vec![0, 0]);
}
