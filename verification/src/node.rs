//! What a query reads of the node that the cursor stands on.

use crate::action::Action;
use crate::action::DECK_SIZE;
use crate::swap::SwapList;
use vstd::prelude::*;

verus! {

/// The street that a chance node deals.
#[derive(Clone, Copy, Debug, PartialEq, Eq, Structural)]
pub enum Street {
    Turn,
    River,
}

/// A card that has no branch of its own below a chance node, because the
/// branch of a card that differs from it by suit alone stands for it.
#[derive(Clone, Debug)]
pub struct Isomorph {
    /// The card as dealt.
    pub card: u8,
    /// The index of the branch that stands for it.
    pub branch: usize,
    /// The hand slots of the player out of position that trade places.
    pub swap_oop: SwapList,
    /// The hand slots of the player in position that trade places.
    pub swap_ip: SwapList,
}

/// The node under the cursor, as far as a query reads it.
#[derive(Clone, Debug)]
pub enum NodeView {
    /// The hand is over.
    Terminal,
    /// A player is to act: 0 is out of position, 1 in position.
    Player { player: usize, actions: Vec<Action> },
    /// A card is to be dealt.
    Chance { street: Street, actions: Vec<Action>, isomorphs: Vec<Isomorph> },
}

/// Whether every action of a chance node deals a card of the deck.
pub open spec fn deals_cards(actions: Seq<Action>) -> bool {
    forall|i: int|
        0 <= i < actions.len() ==> (#[trigger] actions[i] matches Action::Chance(card) && card
            < DECK_SIZE)
}

/// Whether no action of a player's node deals a card.
pub open spec fn no_cards(actions: Seq<Action>) -> bool {
    forall|i: int| 0 <= i < actions.len() ==> !(#[trigger] actions[i] is Chance)
}

/// Whether an isomorph fits a chance node with these actions and players with
/// these numbers of hands.
pub open spec fn isomorph_fits(
    iso: Isomorph,
    actions: Seq<Action>,
    hands_oop: int,
    hands_ip: int,
) -> bool {
    &&& iso.card < DECK_SIZE
    &&& iso.branch < actions.len()
    &&& iso.swap_oop.wf()
    &&& iso.swap_oop.slots == hands_oop
    &&& iso.swap_ip.wf()
    &&& iso.swap_ip.slots == hands_ip
}

impl NodeView {
    /// The node is consistent in itself and with the players' numbers of
    /// hands.
    pub open spec fn wf(&self, hands_oop: int, hands_ip: int) -> bool {
        match *self {
            NodeView::Terminal => true,
            NodeView::Player { player, actions } => player < 2 && no_cards(actions@),
            NodeView::Chance { street, actions, isomorphs } => {
                &&& deals_cards(actions@)
                &&& forall|k: int|
                    0 <= k < isomorphs@.len() ==> isomorph_fits(
                        #[trigger] isomorphs@[k],
                        actions@,
                        hands_oop,
                        hands_ip,
                    )
            },
        }
    }

    /// Whether the node is consistent in itself and with the players'
    /// numbers of hands.
    pub fn is_valid(&self, hands_oop: usize, hands_ip: usize) -> (valid: bool)
        ensures
            valid == self.wf(hands_oop as int, hands_ip as int),
    {
        match self {
            NodeView::Terminal => true,
            NodeView::Player { player, actions } => *player < 2 && check_no_cards(actions),
            NodeView::Chance { street, actions, isomorphs } => {
                check_deals_cards(actions) && check_isomorphs(
                    isomorphs,
                    actions,
                    hands_oop,
                    hands_ip,
                )
            },
        }
    }
}

/// Whether every action of the list deals a card of the deck.
pub fn check_deals_cards(actions: &Vec<Action>) -> (valid: bool)
    ensures
        valid == deals_cards(actions@),
{
    let mut i: usize = 0;
    while i < actions.len()
        invariant
            i <= actions@.len(),
            deals_cards(actions@.take(i as int)),
        decreases actions@.len() - i,
    {
        let ok = match actions[i] {
            Action::Chance(card) => card < DECK_SIZE,
            _ => false,
        };
        if !ok {
            assert(!(actions@[i as int] matches Action::Chance(card) && card < DECK_SIZE));
            return false;
        }
        proof {
            let next = actions@.take(i + 1);
            assert forall|j: int| 0 <= j < next.len() implies (#[trigger] next[j] matches Action::Chance(
                card,
            ) && card < DECK_SIZE) by {
                if j < i {
                    assert(actions@.take(i as int)[j] == next[j]);
                }
            }
        }
        i += 1;
    }
    proof {
        assert(actions@.take(actions@.len() as int) =~= actions@);
    }
    true
}

/// Whether no action of the list deals a card.
pub fn check_no_cards(actions: &Vec<Action>) -> (valid: bool)
    ensures
        valid == no_cards(actions@),
{
    let mut i: usize = 0;
    while i < actions.len()
        invariant
            i <= actions@.len(),
            forall|j: int| 0 <= j < i ==> !(#[trigger] actions@[j] is Chance),
        decreases actions@.len() - i,
    {
        let deals = match actions[i] {
            Action::Chance(_) => true,
            _ => false,
        };
        if deals {
            assert(actions@[i as int] is Chance);
            return false;
        }
        i += 1;
    }
    true
}

/// Whether every isomorph of the list fits a chance node with these actions
/// and players with these numbers of hands.
pub fn check_isomorphs(
    isomorphs: &Vec<Isomorph>,
    actions: &Vec<Action>,
    hands_oop: usize,
    hands_ip: usize,
) -> (valid: bool)
    ensures
        valid == (forall|k: int|
            0 <= k < isomorphs@.len() ==> isomorph_fits(
                #[trigger] isomorphs@[k],
                actions@,
                hands_oop as int,
                hands_ip as int,
            )),
{
    let mut k: usize = 0;
    while k < isomorphs.len()
        invariant
            k <= isomorphs@.len(),
            forall|j: int|
                0 <= j < k ==> isomorph_fits(
                    #[trigger] isomorphs@[j],
                    actions@,
                    hands_oop as int,
                    hands_ip as int,
                ),
        decreases isomorphs@.len() - k,
    {
        let iso = &isomorphs[k];
        let fits = iso.card < DECK_SIZE && iso.branch < actions.len() && iso.swap_oop.slots
            == hands_oop && iso.swap_ip.slots == hands_ip && iso.swap_oop.is_valid()
            && iso.swap_ip.is_valid();
        if !fits {
            assert(!isomorph_fits(isomorphs@[k as int], actions@, hands_oop as int, hands_ip as int));
            return false;
        }
        k += 1;
    }
    true
}

} // verus!
