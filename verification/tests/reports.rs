use desktop_postflop::action::Action;
use desktop_postflop::error::Error;
use desktop_postflop::hands::{board_mask, card_possible, game_private_cards, hands_compatible};
use desktop_postflop::node::{NodeView, Street};
use desktop_postflop::report::{
    actions, current_player, decimal_places, eqr_base, is_empty_flag, num_actions, results_plan,
    rounding_scale, row_plan, ReportStatus, ResultsPlan, RowPlan, Weighting,
};
use desktop_postflop::sweep::{ChanceSweep, SweepStep};
use desktop_postflop::table::{
    strategy_summary, ChanceRow, GameChanceReportsResponse, GameResultsResponse, PlayerValues,
};

fn plus(a: f64, b: f64) -> f64 {
    a + b
}

fn times(a: f64, b: f64) -> f64 {
    a * b
}

fn over(a: f64, b: f64) -> f64 {
    a / b
}

fn round(value: f64) -> f64 {
    let scale = rounding_scale(value.floor() as i64) as f64;
    (value * scale).round() / scale
}

#[test]
fn decimal_places_by_magnitude() {
    assert_eq!(decimal_places(i64::MIN), 6);
    assert_eq!(decimal_places(-1), 6);
    assert_eq!(decimal_places(0), 6);
    assert_eq!(decimal_places(1), 5);
    assert_eq!(decimal_places(9), 5);
    assert_eq!(decimal_places(10), 4);
    assert_eq!(decimal_places(99), 4);
    assert_eq!(decimal_places(100), 3);
    assert_eq!(decimal_places(999), 3);
    assert_eq!(decimal_places(1000), 2);
    assert_eq!(decimal_places(9999), 2);
    assert_eq!(decimal_places(10000), 1);
    assert_eq!(decimal_places(i64::MAX), 1);
}

#[test]
fn rounding_scale_is_a_power_of_ten() {
    assert_eq!(rounding_scale(0), 1_000_000);
    assert_eq!(rounding_scale(5), 100_000);
    assert_eq!(rounding_scale(50), 10_000);
    assert_eq!(rounding_scale(500), 1_000);
    assert_eq!(rounding_scale(5000), 100);
    assert_eq!(rounding_scale(50000), 10);
    for whole in [-3i64, 0, 1, 9, 10, 99, 100, 999, 1000, 9999, 10000, 123456] {
        assert_eq!(rounding_scale(whole), 10u32.pow(decimal_places(whole) as u32));
    }
}

#[test]
fn rounding_at_the_boundaries() {
    // just below 1: six places
    assert_eq!(decimal_places(0.9999995f64.floor() as i64), 6);
    assert_eq!(round(0.9999995), (0.9999995f64 * 1e6).round() / 1e6);
    assert_eq!(round(0.1234564), 0.123456);
    assert_eq!(round(0.1234567), 0.123457);
    // just below 10: five places
    assert_eq!(decimal_places(9.99999f64.floor() as i64), 5);
    assert_eq!(round(9.99999), 9.99999);
    assert_eq!(round(1.0), 1.0);
    assert_eq!(round(1.234564), 1.23456);
    // just below 100: four places
    assert_eq!(decimal_places(99.999f64.floor() as i64), 4);
    assert_eq!(round(99.999), 99.999);
    assert_eq!(round(10.0), 10.0);
    assert_eq!(round(12.34564), 12.3456);
    assert_eq!(round(123.4564), 123.456);
    assert_eq!(round(1234.564), 1234.56);
    assert_eq!(round(12345.64), 12345.6);
    assert_eq!(round(-0.1234567), -0.123457);
    assert_eq!(round(-12.1234567), -12.123457);
}

#[test]
fn emptiness_flag() {
    assert_eq!(is_empty_flag(false, false), 0);
    assert_eq!(is_empty_flag(true, false), 1);
    assert_eq!(is_empty_flag(false, true), 2);
    assert_eq!(is_empty_flag(true, true), 3);
}

#[test]
fn pot_for_each_player() {
    assert_eq!(eqr_base(100, [0, 0]), [100, 100]);
    assert_eq!(eqr_base(100, [30, 10]), [140, 120]);
    assert_eq!(eqr_base(100, [10, 30]), [120, 140]);
    assert_eq!(eqr_base(0, [50, 50]), [100, 100]);
}

fn player(player: usize) -> NodeView {
    NodeView::Player { player, actions: vec![Action::Fold, Action::Call, Action::Raise(30)] }
}

fn chance() -> NodeView {
    NodeView::Chance { street: Street::River, actions: vec![Action::Chance(3)], isomorphs: vec![] }
}

#[test]
fn node_labels() {
    assert_eq!(current_player(&NodeView::Terminal), "terminal");
    assert_eq!(current_player(&chance()), "chance");
    assert_eq!(current_player(&player(0)), "oop");
    assert_eq!(current_player(&player(1)), "ip");
    assert_eq!(actions(&NodeView::Terminal), vec!["terminal"]);
    assert_eq!(actions(&chance()), vec!["chance"]);
    assert_eq!(actions(&player(0)), vec!["Fold:0", "Call:0", "Raise:30"]);
    assert_eq!(num_actions(&NodeView::Terminal), 0);
    assert_eq!(num_actions(&chance()), 0);
    assert_eq!(num_actions(&player(1)), 3);
}

#[test]
fn row_plans() {
    let normal = row_plan(&player(1), false, false);
    assert_eq!(
        normal,
        RowPlan {
            status: ReportStatus::Normal,
            summary: Weighting::Normalized { player: 1 },
            values: true
        }
    );
    let opponent_empty = row_plan(&player(1), true, false);
    assert_eq!(
        opponent_empty,
        RowPlan { status: ReportStatus::Empty, summary: Weighting::Raw { player: 1 }, values: false }
    );
    let own_empty = row_plan(&player(1), false, true);
    assert_eq!(
        own_empty,
        RowPlan { status: ReportStatus::Empty, summary: Weighting::Skip, values: false }
    );
    let both_empty = row_plan(&player(0), true, true);
    assert_eq!(both_empty.summary, Weighting::Skip);
    assert_eq!(both_empty.status, ReportStatus::Empty);
    let terminal = row_plan(&NodeView::Terminal, false, false);
    assert_eq!(
        terminal,
        RowPlan { status: ReportStatus::Normal, summary: Weighting::Skip, values: true }
    );
    assert_eq!(row_plan(&player(0), false, true).summary, Weighting::Raw { player: 0 });
    assert_eq!(ReportStatus::NotPossible.code(), 0);
    assert_eq!(ReportStatus::Empty.code(), 1);
    assert_eq!(ReportStatus::Normal.code(), 2);
}

#[test]
fn results_plans() {
    assert_eq!(
        results_plan(&player(0), false, false),
        ResultsPlan { is_empty: 0, values: true, strategy: true, action_ev: true }
    );
    assert_eq!(
        results_plan(&player(0), false, true),
        ResultsPlan { is_empty: 2, values: false, strategy: true, action_ev: false }
    );
    assert_eq!(
        results_plan(&chance(), false, false),
        ResultsPlan { is_empty: 0, values: true, strategy: false, action_ev: false }
    );
    assert_eq!(
        results_plan(&NodeView::Terminal, true, true),
        ResultsPlan { is_empty: 3, values: false, strategy: false, action_ev: false }
    );
}

fn values(n: f64) -> PlayerValues<f64> {
    PlayerValues { normalizer: vec![n], equity: vec![n + 0.1], ev: vec![n + 0.2], eqr: vec![n + 0.3] }
}

#[test]
fn results_are_assembled_as_planned() {
    let plan = results_plan(&player(0), false, false);
    let results = GameResultsResponse::assemble(
        plan,
        current_player(&player(0)),
        3,
        [120, 140],
        [vec![0.5], vec![0.25]],
        values(1.0),
        values(2.0),
        vec![0.1, 0.2, 0.7],
        vec![9.0, 8.0, 7.0],
    );
    assert_eq!(results.current_player, "oop");
    assert_eq!(results.num_actions, 3);
    assert_eq!(results.is_empty, 0);
    assert_eq!(results.eqr_base, [120, 140]);
    assert_eq!(results.weights, [vec![0.5], vec![0.25]]);
    assert_eq!(results.normalizer, [vec![1.0], vec![2.0]]);
    assert_eq!(results.equity, [vec![1.1], vec![2.1]]);
    assert_eq!(results.ev, [vec![1.2], vec![2.2]]);
    assert_eq!(results.eqr, [vec![1.3], vec![2.3]]);
    assert_eq!(results.strategy, vec![0.1, 0.2, 0.7]);
    assert_eq!(results.action_ev, vec![9.0, 8.0, 7.0]);
}

#[test]
fn results_of_an_empty_range_hold_weights_only() {
    let plan = results_plan(&player(1), true, false);
    let results = GameResultsResponse::assemble(
        plan,
        current_player(&player(1)),
        3,
        [100, 100],
        [vec![0.0], vec![0.25]],
        values(1.0),
        values(2.0),
        vec![0.1, 0.2, 0.7],
        vec![9.0, 8.0, 7.0],
    );
    assert_eq!(results.is_empty, 1);
    assert_eq!(results.normalizer, [vec![0.0], vec![0.25]]);
    assert!(results.equity[0].is_empty() && results.equity[1].is_empty());
    assert!(results.ev[0].is_empty() && results.ev[1].is_empty());
    assert!(results.eqr[0].is_empty() && results.eqr[1].is_empty());
    assert_eq!(results.strategy, vec![0.1, 0.2, 0.7]);
    assert!(results.action_ev.is_empty());
}

#[test]
fn sweep_deals_each_possible_card_and_restores() {
    let possible: u64 = (1 << 3) | (1 << 17) | (1 << 51) | (1 << 60);
    let mut sweep = ChanceSweep::new(possible);
    let mut steps = Vec::new();
    loop {
        let step = sweep.step();
        steps.push(step);
        if step == SweepStep::Finished {
            break;
        }
        assert!(steps.len() < 200);
    }
    assert_eq!(
        steps,
        vec![
            SweepStep::Deal(3),
            SweepStep::Restore,
            SweepStep::Deal(17),
            SweepStep::Restore,
            SweepStep::Deal(51),
            SweepStep::Restore,
            SweepStep::Finished
        ]
    );
    assert_eq!(sweep.step(), SweepStep::Finished);
}

#[test]
fn sweep_without_cards_finishes_at_once() {
    let mut sweep = ChanceSweep::new(0);
    assert_eq!(sweep.step(), SweepStep::Finished);
    let mut sweep = ChanceSweep::new(u64::MAX);
    for card in 0..52 {
        assert_eq!(sweep.step(), SweepStep::Deal(card));
        assert_eq!(sweep.step(), SweepStep::Restore);
    }
    assert_eq!(sweep.step(), SweepStep::Finished);
}

#[test]
fn sweep_restores_before_it_gives_up() {
    let mut sweep = ChanceSweep::new(0b1110);
    assert_eq!(sweep.step(), SweepStep::Deal(1));
    assert!(sweep.fail(Error::CardNotReachable));
    assert_eq!(sweep.step(), SweepStep::Restore);
    assert_eq!(sweep.step(), SweepStep::Deal(2));
    assert!(!sweep.fail(Error::ActionNotFound));
    assert_eq!(sweep.step(), SweepStep::Restore);
    assert_eq!(sweep.step(), SweepStep::Finished);
    let mut sweep = ChanceSweep::new(0b1110);
    assert_eq!(sweep.step(), SweepStep::Deal(1));
    sweep.abort();
    assert_eq!(sweep.step(), SweepStep::Restore);
    assert_eq!(sweep.step(), SweepStep::Finished);
}

fn row(status: ReportStatus) -> ChanceRow<f64> {
    ChanceRow {
        status,
        equity: [0.5, 0.25],
        ev: [10.0, 20.0],
        eqr: [1.5, 0.5],
        strategy: vec![0.125, 0.875],
    }
}

#[test]
fn blocked_card_has_status_zero_and_zero_everywhere() {
    // card 7 is dead for both players: it is not among the possible cards
    let possible: u64 = !(1u64 << 7);
    let mut report = GameChanceReportsResponse::new(2, 0.0).unwrap();
    let mut sweep = ChanceSweep::new(possible);
    loop {
        match sweep.step() {
            SweepStep::Deal(card) => {
                assert_ne!(card, 7);
                report.record(card, &row(ReportStatus::Normal), &[vec![1.0], vec![2.0]], &plus);
            }
            SweepStep::Restore => {}
            SweepStep::Finished => break,
        }
    }
    assert_eq!(report.status[7], 0);
    assert_eq!(report.combos[0][7], 0.0);
    assert_eq!(report.combos[1][7], 0.0);
    assert_eq!(report.equity[0][7], 0.0);
    assert_eq!(report.equity[1][7], 0.0);
    assert_eq!(report.ev[0][7], 0.0);
    assert_eq!(report.ev[1][7], 0.0);
    assert_eq!(report.eqr[0][7], 0.0);
    assert_eq!(report.eqr[1][7], 0.0);
    assert_eq!(report.strategy[7], 0.0);
    assert_eq!(report.strategy[52 + 7], 0.0);
    assert_eq!(report.status.iter().filter(|&&s| s == 2).count(), 51);
    assert_eq!(report.status[6], 2);
    assert_eq!(report.strategy[52 + 6], 0.875);
}

#[test]
fn combos_are_the_sums_of_the_weights() {
    let mut report = GameChanceReportsResponse::new(2, 0.0).unwrap();
    let weights = [vec![0.5, 0.25, 1.0], vec![0.0, 2.0]];
    report.record(12, &row(ReportStatus::Normal), &weights, &plus);
    assert_eq!(report.combos[0][12], 1.75);
    assert_eq!(report.combos[1][12], 2.0);
    let weights = [vec![0.5, 0.25, 1.0], vec![0.0, 0.0]];
    report.record(13, &row(ReportStatus::Empty), &weights, &plus);
    assert_eq!(report.combos[0][13], 1.75);
    assert_eq!(report.combos[1][13], 0.0);
}

#[test]
fn report_rows_are_laid_out_card_by_card() {
    let mut report = GameChanceReportsResponse::new(3, 0.0).unwrap();
    assert_eq!(report.status, vec![0; 52]);
    assert_eq!(report.strategy.len(), 156);
    report.record(51, &row(ReportStatus::Normal), &[vec![1.0], vec![2.0]], &plus);
    assert_eq!(report.status[51], 2);
    assert_eq!((report.equity[0][51], report.equity[1][51]), (0.5, 0.25));
    assert_eq!((report.ev[0][51], report.ev[1][51]), (10.0, 20.0));
    assert_eq!((report.eqr[0][51], report.eqr[1][51]), (1.5, 0.5));
    assert_eq!(report.strategy[51], 0.125);
    assert_eq!(report.strategy[52 + 51], 0.875);
    assert_eq!(report.strategy[104 + 51], 0.0);
    report.record(0, &row(ReportStatus::Empty), &[vec![1.0], vec![0.0]], &plus);
    assert_eq!(report.status[0], 1);
    assert_eq!(report.combos[0][0], 1.0);
    assert_eq!((report.equity[0][0], report.ev[1][0], report.eqr[0][0]), (0.0, 0.0, 0.0));
    assert_eq!(report.strategy[0], 0.125);
    assert_eq!(report.strategy[52], 0.875);
    // a row written again as not possible is blank again
    report.record(51, &row(ReportStatus::NotPossible), &[vec![1.0], vec![2.0]], &plus);
    assert_eq!(report.status[51], 0);
    assert_eq!(report.combos[0][51], 0.0);
    assert_eq!(report.equity[0][51], 0.0);
    assert_eq!(report.strategy[51], 0.0);
    assert_eq!(report.strategy[52 + 51], 0.0);
    // other cards are untouched
    assert_eq!(report.status[0], 1);
    assert_eq!(report.strategy[52], 0.875);
    assert_eq!(report.status[1], 0);
}

#[test]
fn report_too_large_is_not_made() {
    assert!(GameChanceReportsResponse::new(usize::MAX, 0.0f64).is_none());
    assert!(GameChanceReportsResponse::new(0, 0.0f64).unwrap().strategy.is_empty());
}

#[test]
fn strategy_is_summed_up_action_by_action() {
    // two actions, three hands
    let strategy = vec![0.2, 0.4, 1.0, 0.8, 0.6, 0.0];
    let weights = vec![1.0, 1.0, 2.0];
    let summary = strategy_summary(&strategy, 3, 2, &weights, 0.0, &times, &plus, &over);
    assert_eq!(summary, vec![(0.2 + 0.4 + 2.0) / 4.0, (0.8 + 0.6) / 4.0]);
    let none = strategy_summary(&strategy, 3, 0, &weights, 0.0, &times, &plus, &over);
    assert!(none.is_empty());
}

#[test]
fn hands_that_share_a_card_are_not_compatible() {
    let board = board_mask(&vec![0, 4, 8]);
    assert_eq!(board, 0b1_0001_0001);
    assert!(hands_compatible((48, 49), (50, 51), board));
    assert!(!hands_compatible((48, 49), (49, 51), board));
    assert!(!hands_compatible((48, 49), (51, 48), board));
    assert!(!hands_compatible((48, 4), (50, 51), board));
    assert!(!hands_compatible((48, 49), (50, 0), board));
    assert!(hands_compatible((48, 49), (50, 51), 0));
    assert!(card_possible(board, 4));
    assert!(!card_possible(board, 5));
    assert!(card_possible(1 << 63, 63));
}

#[test]
fn hands_are_packed_low_card_first() {
    assert_eq!(game_private_cards(&vec![(0, 1), (51, 50), (3, 255)]), vec![256, 51 + 50 * 256, 3 + 255 * 256]);
    assert!(game_private_cards(&vec![]).is_empty());
}
