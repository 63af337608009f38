//! Replaying a history onto the cursor: which branch each step descends
//! into, and what it does to the players' hand weights.
//!
//! The weights are of any copyable type. This module moves them between
//! slots and hands them, pair by pair, to a multiplication that the caller
//! supplies.

use crate::action::Action;
use crate::action::DECK_SIZE;
use crate::error::Error;
use crate::node::{isomorph_fits, Isomorph, NodeView, Street};
use crate::numeric::{is_operation, made_of};
use crate::sweep::{next_possible, next_possible_card};
use crate::vectors::{copy_of, filled};
use crate::swap::{
    apply_swaps, lemma_apply_swaps_pointwise, lemma_partner_range, lemma_swap_involution, partner,
    row_of, valid_pairs, SwapList,
};
use vstd::prelude::*;

verus! {

/// The suit of a card.
pub open spec fn suit_of(card: int) -> int {
    card % 4
}

/// The card that `card` is looked up as once a turn card of suit
/// `suit_swap.0` has been replaced by one of suit `suit_swap.1`: the two
/// suits trade places, the rank stays.
pub open spec fn remap_card(card: u8, suit_swap: Option<(u8, u8)>) -> int {
    match suit_swap {
        Some((dealt, canonical)) => if suit_of(card as int) == dealt {
            card - dealt + canonical
        } else if suit_of(card as int) == canonical {
            card + dealt - canonical
        } else {
            card as int
        },
        None => card as int,
    }
}

/// Whether `i` is the first position of `wanted` among `actions`.
pub open spec fn is_first_action(actions: Seq<Action>, wanted: Action, i: int) -> bool {
    &&& 0 <= i < actions.len()
    &&& actions[i] == wanted
    &&& forall|j: int| 0 <= j < i ==> actions[j] != wanted
}

/// The first position of `wanted` among `actions`.
pub open spec fn find_action(actions: Seq<Action>, wanted: Action) -> Option<int> {
    if exists|i: int| is_first_action(actions, wanted, i) {
        Some(choose|i: int| is_first_action(actions, wanted, i))
    } else {
        None
    }
}

/// Whether `k` is the first isomorph that was dealt as `card`.
pub open spec fn is_first_isomorph(isomorphs: Seq<Isomorph>, card: int, k: int) -> bool {
    &&& 0 <= k < isomorphs.len()
    &&& isomorphs[k].card == card
    &&& forall|j: int| 0 <= j < k ==> isomorphs[j].card != card
}

/// The first isomorph that was dealt as `card`.
pub open spec fn find_isomorph(isomorphs: Seq<Isomorph>, card: int) -> Option<int> {
    if exists|k: int| is_first_isomorph(isomorphs, card, k) {
        Some(choose|k: int| is_first_isomorph(isomorphs, card, k))
    } else {
        None
    }
}

/// The first position of `wanted` among `actions`.
pub fn position_of(actions: &Vec<Action>, wanted: Action) -> (found: Option<usize>)
    ensures
        found matches Some(i) ==> is_first_action(actions@, wanted, i as int),
        found is None ==> forall|j: int| 0 <= j < actions@.len() ==> actions@[j] != wanted,
        found is Some <==> find_action(actions@, wanted) is Some,
        found matches Some(i) ==> find_action(actions@, wanted) == Some(i as int),
{
    let mut i: usize = 0;
    while i < actions.len()
        invariant
            i <= actions@.len(),
            forall|j: int| 0 <= j < i ==> actions@[j] != wanted,
        decreases actions@.len() - i,
    {
        if actions[i] == wanted {
            assert(is_first_action(actions@, wanted, i as int));
            let ghost c = choose|c: int| is_first_action(actions@, wanted, c);
            assert(c == i);
            return Some(i);
        }
        i += 1;
    }
    None
}

/// The first isomorph that was dealt as `card`.
pub fn isomorph_of(isomorphs: &Vec<Isomorph>, card: u8) -> (found: Option<usize>)
    ensures
        found matches Some(k) ==> is_first_isomorph(isomorphs@, card as int, k as int),
        found is None ==> forall|j: int| 0 <= j < isomorphs@.len() ==> isomorphs@[j].card != card,
        found is Some <==> find_isomorph(isomorphs@, card as int) is Some,
        found matches Some(k) ==> find_isomorph(isomorphs@, card as int) == Some(k as int),
{
    let mut k: usize = 0;
    while k < isomorphs.len()
        invariant
            k <= isomorphs@.len(),
            forall|j: int| 0 <= j < k ==> isomorphs@[j].card != card,
        decreases isomorphs@.len() - k,
    {
        if isomorphs[k].card == card {
            assert(is_first_isomorph(isomorphs@, card as int, k as int));
            let ghost c = choose|c: int| is_first_isomorph(isomorphs@, card as int, c);
            assert(c == k);
            return Some(k);
        }
        k += 1;
    }
    None
}

/// The position of `action` among `actions` as a signed number, `-1` where
/// it is not among them.
pub fn tree_play(actions: &Vec<Action>, action: Action) -> (index: i32)
    requires
        actions@.len() <= i32::MAX,
    ensures
        match find_action(actions@, action) {
            Some(i) => index == i,
            None => index == -1,
        },
{
    match position_of(actions, action) {
        Some(i) => i as i32,
        None => -1,
    }
}

/// What a step of the replay asks of the players' weights.
#[derive(Clone, Copy, Debug, PartialEq, Eq, Structural)]
pub enum WeightUpdate {
    /// Nothing: a forced action, or a card with a branch of its own.
    Keep,
    /// The acting player's weights are to be multiplied, hand by hand, by
    /// the probabilities with which the node takes the branch.
    Multiply { player: usize, branch: usize },
    /// Both players' weights were reordered by the swap lists of an
    /// isomorphic card, which are now kept for the street.
    Swapped { street: Street },
}

/// One step of the replay: the branch to descend into, and what becomes of
/// the weights.
#[derive(Clone, Copy, Debug, PartialEq, Eq, Structural)]
pub struct Step {
    pub branch: usize,
    pub update: WeightUpdate,
}

/// The two players' swap pairs for one street.
pub type StreetSwaps = (Seq<(u16, u16)>, Seq<(u16, u16)>);

/// The state of a replay as a mathematical value.
pub struct ReplayState<T> {
    /// The cursor: the branch taken at each node from the root.
    pub path: Seq<usize>,
    /// The weights of the player out of position, a weight per hand.
    pub weights_oop: Seq<T>,
    /// The weights of the player in position.
    pub weights_ip: Seq<T>,
    /// The suit of the turn card as dealt and the suit that stood for it.
    pub suit_swap: Option<(u8, u8)>,
    /// The swap pairs that the turn card brought.
    pub turn_swap: Option<StreetSwaps>,
    /// The swap pairs that the river card brought.
    pub river_swap: Option<StreetSwaps>,
    /// Whether the weights hold the players' initial weights yet.
    pub absolute: bool,
}

/// The pairs of a street's two swap lists.
pub open spec fn swaps_view(swaps: Option<(SwapList, SwapList)>) -> Option<StreetSwaps> {
    match swaps {
        Some((oop, ip)) => Some((oop.pairs@, ip.pairs@)),
        None => None,
    }
}

/// The card that the branch `branch` of a chance node deals.
pub open spec fn branch_card(actions: Seq<Action>, branch: int) -> int {
    match actions[branch] {
        Action::Chance(card) => card as int,
        _ => 0,
    }
}

/// The state after descending into the branch that stands for an isomorphic
/// card: both players' weights reordered by the card's swap lists, and the
/// lists kept for the street. On the turn the two suits are kept as well.
pub open spec fn descend_isomorph<T>(
    state: ReplayState<T>,
    street: Street,
    wanted: int,
    iso: Isomorph,
    actions: Seq<Action>,
) -> ReplayState<T> {
    let lists = (iso.swap_oop.pairs@, iso.swap_ip.pairs@);
    ReplayState {
        path: state.path.push(iso.branch),
        weights_oop: apply_swaps(state.weights_oop, lists.0),
        weights_ip: apply_swaps(state.weights_ip, lists.1),
        suit_swap: if street is Turn {
            Some((suit_of(wanted) as u8, suit_of(branch_card(actions, iso.branch as int)) as u8))
        } else {
            state.suit_swap
        },
        turn_swap: if street is Turn {
            Some(lists)
        } else {
            state.turn_swap
        },
        river_swap: if street is River {
            Some(lists)
        } else {
            state.river_swap
        },
        absolute: state.absolute,
    }
}

/// The state after descending into a branch that changes nothing but the
/// cursor.
pub open spec fn descend_plain<T>(state: ReplayState<T>, branch: usize) -> ReplayState<T> {
    ReplayState {
        path: state.path.push(branch),
        weights_oop: state.weights_oop,
        weights_ip: state.weights_ip,
        suit_swap: state.suit_swap,
        turn_swap: state.turn_swap,
        river_swap: state.river_swap,
        absolute: state.absolute,
    }
}

/// One step of the replay.
///
/// A player action descends into the branch of the node that equals it, and
/// asks for a multiplication where the node offers more than one action; at
/// any other node, or where no branch equals it, it is not found.
///
/// A dealt card is first remapped by the suits kept from the turn. It
/// descends into the branch that deals the remapped card, or else into the
/// branch of the first isomorph dealt as that card; at any other node, or
/// where neither exists, the card is not reachable.
pub open spec fn advance_spec<T>(state: ReplayState<T>, node: NodeView, action: Action) -> Result<
    (ReplayState<T>, Step),
    Error,
> {
    match action {
        Action::Chance(card) => match node {
            NodeView::Chance { street, actions, isomorphs } => {
                let wanted = remap_card(card, state.suit_swap);
                if card >= DECK_SIZE {
                    Err(Error::CardNotReachable)
                } else {
                    match find_action(actions@, Action::Chance(wanted as u8)) {
                        Some(i) => Ok(
                            (
                                descend_plain(state, i as usize),
                                Step { branch: i as usize, update: WeightUpdate::Keep },
                            ),
                        ),
                        None => match find_isomorph(isomorphs@, wanted) {
                            Some(k) => Ok(
                                (
                                    descend_isomorph(state, street, wanted, isomorphs@[k], actions@),
                                    Step {
                                        branch: isomorphs@[k].branch,
                                        update: WeightUpdate::Swapped { street },
                                    },
                                ),
                            ),
                            None => Err(Error::CardNotReachable),
                        },
                    }
                }
            },
            _ => Err(Error::CardNotReachable),
        },
        _ => match node {
            NodeView::Player { player, actions } => match find_action(actions@, action) {
                Some(i) => Ok(
                    (
                        descend_plain(state, i as usize),
                        Step {
                            branch: i as usize,
                            update: if actions@.len() > 1 {
                                WeightUpdate::Multiply { player, branch: i as usize }
                            } else {
                                WeightUpdate::Keep
                            },
                        },
                    ),
                ),
                None => Err(Error::ActionNotFound),
            },
            _ => Err(Error::ActionNotFound),
        },
    }
}

/// The state at the root: an empty path, every weight `one`, no swap kept.
pub open spec fn root_state<T>(hands_oop: nat, hands_ip: nat, one: T) -> ReplayState<T> {
    ReplayState {
        path: Seq::empty(),
        weights_oop: Seq::new(hands_oop, |i: int| one),
        weights_ip: Seq::new(hands_ip, |i: int| one),
        suit_swap: None,
        turn_swap: None,
        river_swap: None,
        absolute: false,
    }
}

/// The weights multiplied, hand by hand, by a row of as many numbers.
pub open spec fn products<T, F: Fn(T, T) -> T>(product_of: F, weights: Seq<T>, row: Seq<T>) -> Seq<
    T,
> {
    Seq::new(weights.len(), |i: int| made_of(product_of, weights[i], row[i]))
}

/// The state after one player's weights are multiplied by `row`.
pub open spec fn multiply_spec<T, F: Fn(T, T) -> T>(
    state: ReplayState<T>,
    player: usize,
    row: Seq<T>,
    product_of: F,
) -> ReplayState<T> {
    ReplayState {
        path: state.path,
        weights_oop: if player == 0 {
            products(product_of, state.weights_oop, row)
        } else {
            state.weights_oop
        },
        weights_ip: if player == 0 {
            state.weights_ip
        } else {
            products(product_of, state.weights_ip, row)
        },
        suit_swap: state.suit_swap,
        turn_swap: state.turn_swap,
        river_swap: state.river_swap,
        absolute: state.absolute,
    }
}

/// The state after the end of a replay from the root: both players' weights
/// multiplied by their initial weights, which are brought into the order of
/// the weights first. A state that holds the initial weights already stays
/// as it is.
pub open spec fn finish_spec<T, F: Fn(T, T) -> T>(
    state: ReplayState<T>,
    initial_oop: Seq<T>,
    initial_ip: Seq<T>,
    product_of: F,
) -> ReplayState<T> {
    if state.absolute {
        state
    } else {
        ReplayState {
            path: state.path,
            weights_oop: products(
                product_of,
                state.weights_oop,
                solved_order(
                    initial_oop,
                    street_pairs(state.turn_swap, 0),
                    street_pairs(state.river_swap, 0),
                ),
            ),
            weights_ip: products(
                product_of,
                state.weights_ip,
                solved_order(
                    initial_ip,
                    street_pairs(state.turn_swap, 1),
                    street_pairs(state.river_swap, 1),
                ),
            ),
            suit_swap: state.suit_swap,
            turn_swap: state.turn_swap,
            river_swap: state.river_swap,
            absolute: true,
        }
    }
}

/// One entry of a history as it is played: the node under the cursor, the
/// action taken there, and the probabilities with which the node's hands
/// take it, which count where the step asks for a multiplication.
pub struct Played<T> {
    pub node: NodeView,
    pub action: Action,
    pub row: Seq<T>,
}

/// The state after one entry of a history: the step, and the
/// multiplication where the step asks for one.
pub open spec fn play_spec<T, F: Fn(T, T) -> T>(
    state: ReplayState<T>,
    played: Played<T>,
    product_of: F,
) -> Result<ReplayState<T>, Error> {
    match advance_spec(state, played.node, played.action) {
        Ok((after, step)) => match step.update {
            WeightUpdate::Multiply { player, branch } => Ok(
                multiply_spec(after, player, played.row, product_of),
            ),
            _ => Ok(after),
        },
        Err(e) => Err(e),
    }
}

/// The state after a whole history, entry by entry, or the first error on
/// the way.
pub open spec fn replay_spec<T, F: Fn(T, T) -> T>(
    state: ReplayState<T>,
    history: Seq<Played<T>>,
    product_of: F,
) -> Result<ReplayState<T>, Error>
    decreases history.len(),
{
    if history.len() == 0 {
        Ok(state)
    } else {
        match replay_spec(state, history.drop_last(), product_of) {
            Ok(before) => play_spec(before, history.last(), product_of),
            Err(e) => Err(e),
        }
    }
}

/// The state after a whole history is replayed from the root and the
/// initial weights are brought in.
pub open spec fn replay_from_root<T, F: Fn(T, T) -> T>(
    hands_oop: nat,
    hands_ip: nat,
    one: T,
    history: Seq<Played<T>>,
    initial_oop: Seq<T>,
    initial_ip: Seq<T>,
    product_of: F,
) -> Result<ReplayState<T>, Error> {
    match replay_spec(root_state(hands_oop, hands_ip, one), history, product_of) {
        Ok(state) => Ok(finish_spec(state, initial_oop, initial_ip, product_of)),
        Err(e) => Err(e),
    }
}

/// Values in the order of the branch that was solved, made from values in
/// the order of the cards as dealt: the turn's swaps first, the river's
/// after them.
pub open spec fn solved_order<T>(
    values: Seq<T>,
    turn: Seq<(u16, u16)>,
    river: Seq<(u16, u16)>,
) -> Seq<T> {
    apply_swaps(apply_swaps(values, turn), river)
}

/// Values in the order of the cards as dealt, made from values in the order
/// of the branch that was solved: the river's swaps first, the turn's after
/// them.
pub open spec fn dealt_order<T>(
    values: Seq<T>,
    turn: Seq<(u16, u16)>,
    river: Seq<(u16, u16)>,
) -> Seq<T> {
    apply_swaps(apply_swaps(values, river), turn)
}

/// The two orders undo each other: what is brought into the order of the
/// solved branch and back stands as it stood, and so the other way round.
pub proof fn lemma_orders_undo_each_other<T>(
    values: Seq<T>,
    turn: Seq<(u16, u16)>,
    river: Seq<(u16, u16)>,
)
    requires
        valid_pairs(turn, values.len() as int),
        valid_pairs(river, values.len() as int),
    ensures
        dealt_order(solved_order(values, turn, river), turn, river) == values,
        solved_order(dealt_order(values, turn, river), turn, river) == values,
{
    lemma_apply_swaps_pointwise(values, turn);
    lemma_apply_swaps_pointwise(values, river);
    lemma_swap_involution(apply_swaps(values, turn), river);
    lemma_swap_involution(values, turn);
    lemma_swap_involution(apply_swaps(values, river), turn);
    lemma_swap_involution(values, river);
}

/// Exchanging slots after a multiplication is the same as multiplying what
/// was exchanged: hands and their probabilities move together.
pub proof fn lemma_swaps_distribute<T, F: Fn(T, T) -> T>(
    product_of: F,
    weights: Seq<T>,
    row: Seq<T>,
    pairs: Seq<(u16, u16)>,
)
    requires
        weights.len() == row.len(),
        valid_pairs(pairs, weights.len() as int),
    ensures
        apply_swaps(products(product_of, weights, row), pairs) == products(
            product_of,
            apply_swaps(weights, pairs),
            apply_swaps(row, pairs),
        ),
{
    let multiplied = products(product_of, weights, row);
    lemma_apply_swaps_pointwise(multiplied, pairs);
    lemma_apply_swaps_pointwise(weights, pairs);
    lemma_apply_swaps_pointwise(row, pairs);
    let left = apply_swaps(multiplied, pairs);
    let right = products(product_of, apply_swaps(weights, pairs), apply_swaps(row, pairs));
    assert forall|k: int| 0 <= k < weights.len() implies left[k] == right[k] by {
        lemma_partner_range(pairs, weights.len() as int, k);
        assert(left[k] == multiplied[partner(pairs, k)]);
    }
    assert(left =~= right);
}

/// Seen in the order of the cards as dealt, the end of a replay multiplies
/// each hand's weight by that hand's initial weight.
pub proof fn lemma_finish_as_dealt<T, F: Fn(T, T) -> T>(
    product_of: F,
    weights: Seq<T>,
    initial: Seq<T>,
    turn: Seq<(u16, u16)>,
    river: Seq<(u16, u16)>,
)
    requires
        weights.len() == initial.len(),
        valid_pairs(turn, weights.len() as int),
        valid_pairs(river, weights.len() as int),
    ensures
        dealt_order(products(product_of, weights, solved_order(initial, turn, river)), turn, river)
            == products(product_of, dealt_order(weights, turn, river), initial),
{
    let solved = solved_order(initial, turn, river);
    lemma_apply_swaps_pointwise(initial, turn);
    lemma_apply_swaps_pointwise(apply_swaps(initial, turn), river);
    lemma_apply_swaps_pointwise(weights, river);
    lemma_swaps_distribute(product_of, weights, solved, river);
    lemma_apply_swaps_pointwise(solved, river);
    lemma_swaps_distribute(
        product_of,
        apply_swaps(weights, river),
        apply_swaps(solved, river),
        turn,
    );
    lemma_orders_undo_each_other(initial, turn, river);
}

/// One player's pairs of a street's swaps: none where the street brought no
/// swap.
pub open spec fn street_pairs(swaps: Option<StreetSwaps>, player: usize) -> Seq<(u16, u16)> {
    match swaps {
        Some((oop, ip)) => if player == 0 {
            oop
        } else {
            ip
        },
        None => Seq::empty(),
    }
}

/// Whether every node of the history is valid for players with these
/// numbers of hands.
pub open spec fn nodes_fit<T>(history: Seq<Played<T>>, hands_oop: int, hands_ip: int) -> bool {
    forall|i: int| 0 <= i < history.len() ==> (#[trigger] history[i]).node.wf(hands_oop, hands_ip)
}

/// A step never changes how many weights a player has.
pub proof fn lemma_advance_keeps_hands<T>(state: ReplayState<T>, node: NodeView, action: Action)
    requires
        node.wf(state.weights_oop.len() as int, state.weights_ip.len() as int),
    ensures
        advance_spec(state, node, action) matches Ok((after, step)) ==> after.weights_oop.len()
            == state.weights_oop.len() && after.weights_ip.len() == state.weights_ip.len(),
{
    match advance_spec(state, node, action) {
        Ok((after, step)) => {
            if step.update is Swapped {
                match node {
                    NodeView::Chance { street, actions, isomorphs } => {
                        let wanted = remap_card(action->Chance_0, state.suit_swap);
                        let k = find_isomorph(isomorphs@, wanted)->0;
                        assert(is_first_isomorph(isomorphs@, wanted, k));
                        assert(isomorph_fits(
                            isomorphs@[k],
                            actions@,
                            state.weights_oop.len() as int,
                            state.weights_ip.len() as int,
                        ));
                        lemma_apply_swaps_pointwise(state.weights_oop, isomorphs@[k].swap_oop.pairs@);
                        lemma_apply_swaps_pointwise(state.weights_ip, isomorphs@[k].swap_ip.pairs@);
                    },
                    _ => {},
                }
            }
        },
        Err(e) => {},
    }
}

/// A replay never changes how many weights a player has: the weights are
/// multiplied and reordered, never resized.
pub proof fn lemma_replay_keeps_hands<T, F: Fn(T, T) -> T>(
    state: ReplayState<T>,
    history: Seq<Played<T>>,
    product_of: F,
)
    requires
        nodes_fit(history, state.weights_oop.len() as int, state.weights_ip.len() as int),
    ensures
        replay_spec(state, history, product_of) matches Ok(after) ==> after.weights_oop.len()
            == state.weights_oop.len() && after.weights_ip.len() == state.weights_ip.len(),
    decreases history.len(),
{
    if history.len() > 0 {
        let hands_oop = state.weights_oop.len() as int;
        let hands_ip = state.weights_ip.len() as int;
        assert forall|i: int| 0 <= i < history.drop_last().len() implies (
        #[trigger] history.drop_last()[i]).node.wf(hands_oop, hands_ip) by {
            assert(history.drop_last()[i] == history[i]);
        }
        lemma_replay_keeps_hands(state, history.drop_last(), product_of);
        match replay_spec(state, history.drop_last(), product_of) {
            Ok(before) => {
                assert(history.last() == history[history.len() - 1]);
                lemma_advance_keeps_hands(before, history.last().node, history.last().action);
            },
            Err(e) => {},
        }
    }
}

/// Replaying a history from the root, going back to the root and replaying
/// the same history ends in the same state both times, with the very same
/// weights: going back to the root leaves nothing of the first replay.
pub proof fn lemma_root_idempotence<T, F: Fn(T, T) -> T>(
    hands_oop: nat,
    hands_ip: nat,
    one: T,
    history: Seq<Played<T>>,
    initial_oop: Seq<T>,
    initial_ip: Seq<T>,
    product_of: F,
)
    requires
        nodes_fit(history, hands_oop as int, hands_ip as int),
    ensures
        replay_from_root(hands_oop, hands_ip, one, history, initial_oop, initial_ip, product_of)
            matches Ok(first) ==> {
            let back = root_state(first.weights_oop.len(), first.weights_ip.len(), one);
            &&& back == root_state(hands_oop, hands_ip, one)
            &&& replay_from_root(
                first.weights_oop.len(),
                first.weights_ip.len(),
                one,
                history,
                initial_oop,
                initial_ip,
                product_of,
            ) == Ok::<ReplayState<T>, Error>(first)
        },
{
    lemma_replay_keeps_hands(root_state(hands_oop, hands_ip, one), history, product_of);
}

/// The card that `card` is looked up as under the suits kept from the turn.
pub fn remap(card: u8, suit_swap: Option<(u8, u8)>) -> (wanted: u8)
    requires
        card < DECK_SIZE,
        suit_swap matches Some((dealt, canonical)) ==> dealt < 4 && canonical < 4,
    ensures
        wanted == remap_card(card, suit_swap),
        wanted < DECK_SIZE,
        suit_swap is None ==> wanted == card,
{
    match suit_swap {
        Some((dealt, canonical)) => {
            let suit = card % 4;
            if suit == dealt {
                card - dealt + canonical
            } else if suit == canonical {
                card + dealt - canonical
            } else {
                card
            }
        },
        None => card,
    }
}

/// A replay in progress: the cursor, the two players' weights, and the swaps
/// that isomorphic cards have brought so far.
pub struct Replay<T> {
    pub path: Vec<usize>,
    pub weights_oop: Vec<T>,
    pub weights_ip: Vec<T>,
    pub suit_swap: Option<(u8, u8)>,
    pub turn_swap: Option<(SwapList, SwapList)>,
    pub river_swap: Option<(SwapList, SwapList)>,
    pub absolute: bool,
}

impl<T> View for Replay<T> {
    type V = ReplayState<T>;

    open spec fn view(&self) -> ReplayState<T> {
        ReplayState {
            path: self.path@,
            weights_oop: self.weights_oop@,
            weights_ip: self.weights_ip@,
            suit_swap: self.suit_swap,
            turn_swap: swaps_view(self.turn_swap),
            river_swap: swaps_view(self.river_swap),
            absolute: self.absolute,
        }
    }
}

/// Whether a street's swap lists are valid over the players' numbers of
/// hands.
pub open spec fn swaps_fit(swaps: Option<(SwapList, SwapList)>, hands_oop: int, hands_ip: int) -> bool {
    swaps matches Some((oop, ip)) ==> {
        &&& oop.wf()
        &&& oop.slots == hands_oop
        &&& ip.wf()
        &&& ip.slots == hands_ip
    }
}

/// Multiplies `weights` hand by hand by `row`.
fn multiply_row<T: Copy, F: Fn(T, T) -> T>(weights: &mut Vec<T>, row: &Vec<T>, product_of: &F)
    requires
        old(weights)@.len() == row@.len(),
        is_operation(*product_of),
    ensures
        final(weights)@ == products(*product_of, old(weights)@, row@),
{
    let mut i: usize = 0;
    while i < row.len()
        invariant
            i <= row@.len(),
            weights@.len() == row@.len(),
            is_operation(*product_of),
            forall|j: int|
                0 <= j < i ==> #[trigger] weights@[j] == made_of(
                    *product_of,
                    old(weights)@[j],
                    row@[j],
                ),
            forall|j: int| i <= j < row@.len() ==> weights@[j] == old(weights)@[j],
        decreases row@.len() - i,
    {
        let scaled = product_of(weights[i], row[i]);
        weights[i] = scaled;
        i += 1;
    }
    assert(weights@ =~= products(*product_of, old(weights)@, row@));
}

impl<T: Copy> Replay<T> {
    /// The suits are suits, and the swap lists that are kept are valid over
    /// the players' numbers of hands.
    pub open spec fn wf(&self) -> bool {
        &&& self.suit_swap matches Some((dealt, canonical)) ==> dealt < 4 && canonical < 4
        &&& swaps_fit(self.turn_swap, self.weights_oop@.len() as int, self.weights_ip@.len() as int)
        &&& swaps_fit(
            self.river_swap,
            self.weights_oop@.len() as int,
            self.weights_ip@.len() as int,
        )
    }

    /// A replay at the root, for players with these numbers of hands: every
    /// weight is `one`.
    pub fn new(hands_oop: usize, hands_ip: usize, one: T) -> (replay: Self)
        ensures
            replay.wf(),
            replay@ == root_state(hands_oop as nat, hands_ip as nat, one),
    {
        Replay {
            path: Vec::new(),
            weights_oop: filled(hands_oop, one),
            weights_ip: filled(hands_ip, one),
            suit_swap: None,
            turn_swap: None,
            river_swap: None,
            absolute: false,
        }
    }

    /// Puts the replay back at the root: nothing of the history is left.
    pub fn back_to_root(&mut self, one: T)
        ensures
            final(self).wf(),
            final(self)@ == root_state(
                old(self).weights_oop@.len(),
                old(self).weights_ip@.len(),
                one,
            ),
    {
        let hands_oop = self.weights_oop.len();
        let hands_ip = self.weights_ip.len();
        self.path = Vec::new();
        self.weights_oop = filled(hands_oop, one);
        self.weights_ip = filled(hands_ip, one);
        self.suit_swap = None;
        self.turn_swap = None;
        self.river_swap = None;
        self.absolute = false;
    }

    /// Takes one step of the history at the node under the cursor. On an
    /// error nothing has changed.
    pub fn advance(&mut self, node: &NodeView, action: Action) -> (result: Result<Step, Error>)
        requires
            old(self).wf(),
            node.wf(old(self).weights_oop@.len() as int, old(self).weights_ip@.len() as int),
        ensures
            final(self).wf(),
            final(self).weights_oop@.len() == old(self).weights_oop@.len(),
            final(self).weights_ip@.len() == old(self).weights_ip@.len(),
            match advance_spec(old(self)@, *node, action) {
                Ok((state, step)) => result == Ok::<Step, Error>(step) && final(self)@ == state,
                Err(e) => result == Err::<Step, Error>(e) && *final(self) == *old(self),
            },
    {
        match action {
            Action::Chance(card) => match node {
                NodeView::Chance { street, actions, isomorphs } => {
                    if card >= DECK_SIZE {
                        return Err(Error::CardNotReachable);
                    }
                    let wanted = remap(card, self.suit_swap);
                    match position_of(actions, Action::Chance(wanted)) {
                        Some(i) => {
                            self.path.push(i);
                            Ok(Step { branch: i, update: WeightUpdate::Keep })
                        },
                        None => match isomorph_of(isomorphs, wanted) {
                            Some(k) => {
                                let iso = &isomorphs[k];
                                assert(isomorph_fits(
                                    isomorphs@[k as int],
                                    actions@,
                                    old(self).weights_oop@.len() as int,
                                    old(self).weights_ip@.len() as int,
                                ));
                                iso.swap_oop.apply(&mut self.weights_oop);
                                iso.swap_ip.apply(&mut self.weights_ip);
                                let lists = (iso.swap_oop.copy(), iso.swap_ip.copy());
                                match street {
                                    Street::Turn => {
                                        let canonical = match actions[iso.branch] {
                                            Action::Chance(c) => c,
                                            _ => 0,
                                        };
                                        self.suit_swap = Some((wanted % 4, canonical % 4));
                                        self.turn_swap = Some(lists);
                                    },
                                    Street::River => {
                                        self.river_swap = Some(lists);
                                    },
                                }
                                self.path.push(iso.branch);
                                Ok(
                                    Step {
                                        branch: iso.branch,
                                        update: WeightUpdate::Swapped { street: *street },
                                    },
                                )
                            },
                            None => Err(Error::CardNotReachable),
                        },
                    }
                },
                _ => Err(Error::CardNotReachable),
            },
            _ => match node {
                NodeView::Player { player, actions } => match position_of(actions, action) {
                    Some(i) => {
                        self.path.push(i);
                        let update = if actions.len() > 1 {
                            WeightUpdate::Multiply { player: *player, branch: i }
                        } else {
                            WeightUpdate::Keep
                        };
                        Ok(Step { branch: i, update })
                    },
                    None => Err(Error::ActionNotFound),
                },
                _ => Err(Error::ActionNotFound),
            },
        }
    }

    /// Multiplies one player's weights, hand by hand, by `row`: each weight
    /// becomes what `product_of` makes of it and the row's entry for its hand.
    pub fn multiply<F: Fn(T, T) -> T>(&mut self, player: usize, row: &Vec<T>, product_of: &F)
        requires
            old(self).wf(),
            player < 2,
            player == 0 ==> row@.len() == old(self).weights_oop@.len(),
            player == 1 ==> row@.len() == old(self).weights_ip@.len(),
            is_operation(*product_of),
        ensures
            final(self).wf(),
            final(self)@ == multiply_spec(old(self)@, player, row@, *product_of),
            final(self).weights_oop@.len() == old(self).weights_oop@.len(),
            final(self).weights_ip@.len() == old(self).weights_ip@.len(),
    {
        if player == 0 {
            multiply_row(&mut self.weights_oop, row, product_of);
        } else {
            multiply_row(&mut self.weights_ip, row, product_of);
        }
    }

    /// Brings values that stand in the order of the cards as dealt into the
    /// order of the branch that the cursor stands in: the turn's swaps are
    /// applied first and the river's after them.
    pub fn to_solved_order(&self, player: usize, values: &mut Vec<T>)
        requires
            self.wf(),
            player < 2,
            old(values)@.len() == self.hands_spec(player),
        ensures
            final(values)@ == solved_order(
                old(values)@,
                street_pairs(self@.turn_swap, player),
                street_pairs(self@.river_swap, player),
            ),
            final(values)@.len() == old(values)@.len(),
    {
        match &self.turn_swap {
            Some((oop, ip)) => {
                if player == 0 {
                    oop.apply(values);
                } else {
                    ip.apply(values);
                }
            },
            None => {},
        }
        match &self.river_swap {
            Some((oop, ip)) => {
                if player == 0 {
                    oop.apply(values);
                } else {
                    ip.apply(values);
                }
            },
            None => {},
        }
    }

    /// Ends a replay from the root: multiplies both players' weights by their
    /// initial weights, unless that was done before. Says whether it did.
    /// The initial weights stand in the order of the cards as dealt, and are
    /// brought into the order of the weights first.
    pub fn finish<F: Fn(T, T) -> T>(
        &mut self,
        initial_oop: &Vec<T>,
        initial_ip: &Vec<T>,
        product_of: &F,
    ) -> (applied: bool)
        requires
            old(self).wf(),
            initial_oop@.len() == old(self).weights_oop@.len(),
            initial_ip@.len() == old(self).weights_ip@.len(),
            is_operation(*product_of),
        ensures
            final(self).wf(),
            applied == !old(self).absolute,
            final(self)@ == finish_spec(old(self)@, initial_oop@, initial_ip@, *product_of),
            final(self).weights_oop@.len() == old(self).weights_oop@.len(),
            final(self).weights_ip@.len() == old(self).weights_ip@.len(),
    {
        if self.absolute {
            return false;
        }
        let mut first = copy_of(initial_oop);
        self.to_solved_order(0, &mut first);
        let mut second = copy_of(initial_ip);
        self.to_solved_order(1, &mut second);
        multiply_row(&mut self.weights_oop, &first, product_of);
        multiply_row(&mut self.weights_ip, &second, product_of);
        self.absolute = true;
        true
    }

    /// Puts values that the engine gives in the order of the branch it
    /// solved back into the order of the cards as dealt: in every row, the
    /// river's swaps are applied first and the turn's after them.
    pub fn restore_order(&self, player: usize, values: &mut Vec<T>, rows: usize)
        requires
            self.wf(),
            player < 2,
            player == 0 ==> old(values)@.len() == rows * self.weights_oop@.len(),
            player == 1 ==> old(values)@.len() == rows * self.weights_ip@.len(),
        ensures
            final(values)@.len() == old(values)@.len(),
            forall|r: int|
                0 <= r < rows ==> #[trigger] row_of(final(values)@, r, self.hands_spec(player))
                    == dealt_order(
                    row_of(old(values)@, r, self.hands_spec(player)),
                    street_pairs(self@.turn_swap, player),
                    street_pairs(self@.river_swap, player),
                ),
    {
        let ghost hands = self.hands_spec(player);
        let ghost start = values@;
        match &self.river_swap {
            Some((oop, ip)) => {
                if player == 0 {
                    oop.apply_to_rows(values, rows);
                } else {
                    ip.apply_to_rows(values, rows);
                }
            },
            None => {},
        }
        let ghost middle = values@;
        assert forall|r: int| 0 <= r < rows implies #[trigger] row_of(middle, r, hands)
            == apply_swaps(row_of(start, r, hands), street_pairs(self@.river_swap, player)) by {}
        match &self.turn_swap {
            Some((oop, ip)) => {
                if player == 0 {
                    oop.apply_to_rows(values, rows);
                } else {
                    ip.apply_to_rows(values, rows);
                }
            },
            None => {},
        }
        assert forall|r: int| 0 <= r < rows implies #[trigger] row_of(values@, r, hands)
            == dealt_order(
            row_of(start, r, hands),
            street_pairs(self@.turn_swap, player),
            street_pairs(self@.river_swap, player),
        ) by {
            assert(row_of(values@, r, hands) == apply_swaps(
                row_of(middle, r, hands),
                street_pairs(self@.turn_swap, player),
            ));
        }
    }

    /// The number of hands of a player.
    pub open spec fn hands_spec(&self, player: usize) -> int {
        if player == 0 {
            self.weights_oop@.len() as int
        } else {
            self.weights_ip@.len() as int
        }
    }
}

/// The action that an entry of a history of numbers stands for at a node. At
/// a player's node the number counts the node's actions. At a chance node it
/// is the card itself, and the largest number of all stands for the first
/// card that can come.
pub open spec fn history_action_spec(node: NodeView, possible: u64, index: usize) -> Result<
    Action,
    Error,
> {
    match node {
        NodeView::Terminal => Err(Error::ActionNotFound),
        NodeView::Player { player, actions } => if index < actions@.len() {
            Ok(actions@[index as int])
        } else {
            Err(Error::ActionNotFound)
        },
        NodeView::Chance { street, actions, isomorphs } => {
            let card = if index == usize::MAX {
                next_possible(possible, 0) as int
            } else {
                index as int
            };
            if card < DECK_SIZE {
                Ok(Action::Chance(card as u8))
            } else {
                Err(Error::CardNotReachable)
            }
        },
    }
}

/// The action that an entry of a history of numbers stands for at a node.
pub fn history_action(node: &NodeView, possible: u64, index: usize) -> (result: Result<
    Action,
    Error,
>)
    ensures
        result == history_action_spec(*node, possible, index),
{
    match node {
        NodeView::Terminal => Err(Error::ActionNotFound),
        NodeView::Player { player, actions } => if index < actions.len() {
            Ok(actions[index])
        } else {
            Err(Error::ActionNotFound)
        },
        NodeView::Chance { street, actions, isomorphs } => {
            if index == usize::MAX {
                let card = next_possible_card(possible, 0);
                if card < DECK_SIZE {
                    Ok(Action::Chance(card))
                } else {
                    Err(Error::CardNotReachable)
                }
            } else if index < DECK_SIZE as usize {
                Ok(Action::Chance(index as u8))
            } else {
                Err(Error::CardNotReachable)
            }
        },
    }
}

} // verus!
