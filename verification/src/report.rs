//! What a report says of a node, and what has to be computed for it.

use crate::codec::{action_label_spec, action_to_string};
use crate::node::{no_cards, NodeView};
use vstd::prelude::*;

verus! {

/// The number of decimal places that a value is rounded to for display, by
/// the whole number at or below it: six below 1, five below 10, four below
/// 100, three below 1000, two below 10000, else one.
pub open spec fn decimal_places_spec(whole: i64) -> u8 {
    if whole < 1 {
        6
    } else if whole < 10 {
        5
    } else if whole < 100 {
        4
    } else if whole < 1000 {
        3
    } else if whole < 10000 {
        2
    } else {
        1
    }
}

/// Ten to the power of `places`.
pub open spec fn power_of_ten(places: nat) -> nat
    decreases places,
{
    if places == 0 {
        1
    } else {
        10 * power_of_ten((places - 1) as nat)
    }
}

/// The number of decimal places that a value is rounded to for display,
/// where `whole` is the whole number at or below the value.
pub fn decimal_places(whole: i64) -> (places: u8)
    ensures
        places == decimal_places_spec(whole),
        1 <= places <= 6,
{
    if whole < 1 {
        6
    } else if whole < 10 {
        5
    } else if whole < 100 {
        4
    } else if whole < 1000 {
        3
    } else if whole < 10000 {
        2
    } else {
        1
    }
}

/// The factor that a value is multiplied by before it is rounded to a whole
/// number, and divided by after: ten to the power of its decimal places.
pub fn rounding_scale(whole: i64) -> (scale: u32)
    ensures
        scale == power_of_ten(decimal_places_spec(whole) as nat),
{
    reveal_with_fuel(power_of_ten, 7);
    if whole < 1 {
        1000000
    } else if whole < 10 {
        100000
    } else if whole < 100 {
        10000
    } else if whole < 1000 {
        1000
    } else if whole < 10000 {
        100
    } else {
        10
    }
}

/// Which players have no hand left, as one number: 1 for the player out of
/// position, 2 for the player in position, added.
pub open spec fn is_empty_flag_spec(empty_oop: bool, empty_ip: bool) -> i32 {
    ((if empty_oop {
        1int
    } else {
        0int
    }) + (if empty_ip {
        2int
    } else {
        0int
    })) as i32
}

/// Which players have no hand left, as one number.
pub fn is_empty_flag(empty_oop: bool, empty_ip: bool) -> (flag: i32)
    ensures
        flag == is_empty_flag_spec(empty_oop, empty_ip),
        flag == 0 <==> !empty_oop && !empty_ip,
{
    let low: i32 = if empty_oop {
        1
    } else {
        0
    };
    let high: i32 = if empty_ip {
        2
    } else {
        0
    };
    low + high
}

/// The smaller of two amounts.
pub open spec fn smaller(a: int, b: int) -> int {
    if a <= b {
        a
    } else {
        b
    }
}

/// The pot that each player's expected value is measured against: the
/// starting pot, the smaller of the two total bets, and the player's own
/// total bet.
pub open spec fn eqr_base_spec(starting_pot: int, total_bet_amount: [i32; 2], player: int) -> int {
    starting_pot + smaller(total_bet_amount@[0] as int, total_bet_amount@[1] as int)
        + total_bet_amount@[player]
}

/// The pot that each player's expected value is measured against.
pub fn eqr_base(starting_pot: i32, total_bet_amount: [i32; 2]) -> (base: [i32; 2])
    requires
        i32::MIN <= starting_pot + smaller(
            total_bet_amount@[0] as int,
            total_bet_amount@[1] as int,
        ) <= i32::MAX,
        i32::MIN <= eqr_base_spec(starting_pot as int, total_bet_amount, 0) <= i32::MAX,
        i32::MIN <= eqr_base_spec(starting_pot as int, total_bet_amount, 1) <= i32::MAX,
    ensures
        base@[0] == eqr_base_spec(starting_pot as int, total_bet_amount, 0),
        base@[1] == eqr_base_spec(starting_pot as int, total_bet_amount, 1),
{
    let least = if total_bet_amount[0] <= total_bet_amount[1] {
        total_bet_amount[0]
    } else {
        total_bet_amount[1]
    };
    let pot_base = starting_pot + least;
    [pot_base + total_bet_amount[0], pot_base + total_bet_amount[1]]
}

/// Who is to act at a node.
pub open spec fn current_player_spec(node: NodeView) -> Seq<char> {
    match node {
        NodeView::Terminal => "terminal"@,
        NodeView::Chance { street, actions, isomorphs } => "chance"@,
        NodeView::Player { player, actions } => if player == 0 {
            "oop"@
        } else {
            "ip"@
        },
    }
}

/// Who is to act at a node: `terminal`, `chance`, `oop` or `ip`.
pub fn current_player(node: &NodeView) -> (label: String)
    ensures
        label@ == current_player_spec(*node),
{
    match node {
        NodeView::Terminal => String::from_str("terminal"),
        NodeView::Chance { street, actions, isomorphs } => String::from_str("chance"),
        NodeView::Player { player, actions } => if *player == 0 {
            String::from_str("oop")
        } else {
            String::from_str("ip")
        },
    }
}

/// The number of actions that a report shows for a node: those of a
/// player's node, and none elsewhere.
pub fn num_actions(node: &NodeView) -> (count: usize)
    ensures
        count == match *node {
            NodeView::Player { player, actions } => actions@.len(),
            _ => 0,
        },
{
    match node {
        NodeView::Player { player, actions } => actions.len(),
        _ => 0,
    }
}

/// The labels of the actions of a node: the single label `terminal` or
/// `chance` where no player acts.
pub fn actions(node: &NodeView) -> (labels: Vec<String>)
    requires
        node matches NodeView::Player { player, actions } ==> no_cards(actions@),
    ensures
        match *node {
            NodeView::Terminal => labels@.len() == 1 && labels@[0]@ == "terminal"@,
            NodeView::Chance { street, actions, isomorphs } => labels@.len() == 1 && labels@[0]@
                == "chance"@,
            NodeView::Player { player, actions } => {
                &&& labels@.len() == actions@.len()
                &&& forall|i: int|
                    0 <= i < actions@.len() ==> (#[trigger] labels@[i])@ == action_label_spec(
                        actions@[i],
                    )
            },
        },
{
    let mut labels: Vec<String> = Vec::new();
    match node {
        NodeView::Terminal => {
            labels.push(String::from_str("terminal"));
        },
        NodeView::Chance { street, actions, isomorphs } => {
            labels.push(String::from_str("chance"));
        },
        NodeView::Player { player, actions } => {
            let mut i: usize = 0;
            while i < actions.len()
                invariant
                    i <= actions@.len(),
                    no_cards(actions@),
                    labels@.len() == i,
                    forall|k: int|
                        0 <= k < i ==> (#[trigger] labels@[k])@ == action_label_spec(actions@[k]),
                decreases actions@.len() - i,
            {
                labels.push(action_to_string(actions[i]));
                i += 1;
            }
        },
    }
    labels
}

/// What a report holds for one card of a chance node.
#[derive(Clone, Copy, Debug, PartialEq, Eq, Structural)]
pub enum ReportStatus {
    /// The card cannot come: nothing is reported.
    NotPossible,
    /// A player has no hand left: only the numbers of combinations are
    /// reported.
    Empty,
    /// Both players have hands left: everything is reported.
    Normal,
}

impl ReportStatus {
    /// The number that stands for the status in a report.
    pub open spec fn code_spec(self) -> i32 {
        match self {
            ReportStatus::NotPossible => 0,
            ReportStatus::Empty => 1,
            ReportStatus::Normal => 2,
        }
    }

    /// The number that stands for the status in a report.
    pub fn code(self) -> (code: i32)
        ensures
            code == self.code_spec(),
    {
        match self {
            ReportStatus::NotPossible => 0,
            ReportStatus::Empty => 1,
            ReportStatus::Normal => 2,
        }
    }
}

/// The weights that a strategy is averaged over.
#[derive(Clone, Copy, Debug, PartialEq, Eq, Structural)]
pub enum Weighting {
    /// No average is taken.
    Skip,
    /// The acting player's own weights, as they are.
    Raw { player: usize },
    /// The acting player's weights, normalized against the opponent's.
    Normalized { player: usize },
}

/// What is computed for a card that can come.
#[derive(Clone, Copy, Debug, PartialEq, Eq, Structural)]
pub struct RowPlan {
    pub status: ReportStatus,
    /// How the acting player's strategy is summed up.
    pub summary: Weighting,
    /// Whether equity, expected value and their ratio are computed.
    pub values: bool,
}

/// What is computed for a card that can come, once it is dealt and the
/// cursor stands on `node`.
///
/// The strategy is summed up where a player acts who has a hand left: over
/// that player's normalized weights, or over the raw ones where the opponent
/// has no hand left. The values are computed where both players have hands
/// left.
pub open spec fn row_plan_spec(node: NodeView, empty_oop: bool, empty_ip: bool) -> RowPlan {
    let summary = match node {
        NodeView::Player { player, actions } => {
            let own = if player == 0 {
                empty_oop
            } else {
                empty_ip
            };
            let other = if player == 0 {
                empty_ip
            } else {
                empty_oop
            };
            if own {
                Weighting::Skip
            } else if other {
                Weighting::Raw { player }
            } else {
                Weighting::Normalized { player }
            }
        },
        _ => Weighting::Skip,
    };
    if empty_oop || empty_ip {
        RowPlan { status: ReportStatus::Empty, summary, values: false }
    } else {
        RowPlan { status: ReportStatus::Normal, summary, values: true }
    }
}

/// What is computed for a card that can come, once it is dealt and the
/// cursor stands on `node`.
pub fn row_plan(node: &NodeView, empty_oop: bool, empty_ip: bool) -> (plan: RowPlan)
    ensures
        plan == row_plan_spec(*node, empty_oop, empty_ip),
{
    let summary = match node {
        NodeView::Player { player, actions } => {
            let own = if *player == 0 {
                empty_oop
            } else {
                empty_ip
            };
            let other = if *player == 0 {
                empty_ip
            } else {
                empty_oop
            };
            if own {
                Weighting::Skip
            } else if other {
                Weighting::Raw { player: *player }
            } else {
                Weighting::Normalized { player: *player }
            }
        },
        _ => Weighting::Skip,
    };
    if empty_oop || empty_ip {
        RowPlan { status: ReportStatus::Empty, summary, values: false }
    } else {
        RowPlan { status: ReportStatus::Normal, summary, values: true }
    }
}

/// What is computed for the results of the node under the cursor.
#[derive(Clone, Copy, Debug, PartialEq, Eq, Structural)]
pub struct ResultsPlan {
    /// Which players have no hand left, as one number.
    pub is_empty: i32,
    /// Whether normalized weights, equity, expected value and their ratio
    /// are computed. Where they are not, the weights stand for the
    /// normalized weights.
    pub values: bool,
    /// Whether the node's strategy is reported.
    pub strategy: bool,
    /// Whether the expected value of each action is reported.
    pub action_ev: bool,
}

/// What is computed for the results of `node`: the values where both
/// players have hands left, the strategy where a player acts, and the
/// expected value of each action where both hold.
pub open spec fn results_plan_spec(node: NodeView, empty_oop: bool, empty_ip: bool) -> ResultsPlan {
    let both = !empty_oop && !empty_ip;
    ResultsPlan {
        is_empty: is_empty_flag_spec(empty_oop, empty_ip),
        values: both,
        strategy: node is Player,
        action_ev: node is Player && both,
    }
}

/// What is computed for the results of `node`.
pub fn results_plan(node: &NodeView, empty_oop: bool, empty_ip: bool) -> (plan: ResultsPlan)
    ensures
        plan == results_plan_spec(*node, empty_oop, empty_ip),
{
    let flag = is_empty_flag(empty_oop, empty_ip);
    let acts = match node {
        NodeView::Player { player, actions } => true,
        _ => false,
    };
    ResultsPlan { is_empty: flag, values: flag == 0, strategy: acts, action_ev: acts && flag == 0 }
}

} // verus!
