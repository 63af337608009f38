//! Private hands as pairs of cards: which hands can be held together, and
//! how a hand is packed into one number.

use vstd::prelude::*;

verus! {

/// Whether `card` is among the cards of `board`.
pub open spec fn on_board(board: Seq<u8>, card: u8) -> bool {
    exists|i: int| 0 <= i < board.len() && board[i] == card
}

/// Whether two players can hold `first` and `second` at once on `board`: no
/// card of the one is a card of the other, and none lies on the board.
pub open spec fn compatible(first: (u8, u8), second: (u8, u8), board: Seq<u8>) -> bool {
    &&& first.0 != second.0
    &&& first.0 != second.1
    &&& first.1 != second.0
    &&& first.1 != second.1
    &&& !on_board(board, first.0)
    &&& !on_board(board, first.1)
    &&& !on_board(board, second.0)
    &&& !on_board(board, second.1)
}

/// The set of cards `cards` as a mask: bit `c` is set exactly when `c` is
/// among them.
pub open spec fn is_mask_of(mask: u64, cards: Seq<u8>) -> bool {
    forall|c: u8| c < 64 ==> (#[trigger] has_bit(mask, c) <==> on_board(cards, c))
}

/// Whether bit `c` of `mask` is set.
pub open spec fn has_bit(mask: u64, c: u8) -> bool {
    (mask >> (c as u64)) & 1 == 1
}

/// Whether `card` is among the cards that `possible` holds as a mask.
pub fn card_possible(possible: u64, card: u8) -> (yes: bool)
    requires
        card < 64,
    ensures
        yes == has_bit(possible, card),
{
    let bit = 1u64 << (card as u64);
    assert((possible & (1u64 << (card as u64)) != 0) == ((possible >> (card as u64)) & 1 == 1))
        by (bit_vector)
        requires
            card < 64,
    ;
    possible & bit != 0
}

/// The cards of `board` as a mask.
pub fn board_mask(board: &Vec<u8>) -> (mask: u64)
    requires
        forall|i: int| 0 <= i < board@.len() ==> board@[i] < 64,
    ensures
        is_mask_of(mask, board@),
{
    let mut mask: u64 = 0;
    let mut i: usize = 0;
    assert(forall|c: u8| c < 64 ==> !has_bit(0u64, c)) by {
        assert forall|c: u8| c < 64 implies !has_bit(0u64, c) by {
            assert((0u64 >> (c as u64)) & 1 == 0) by (bit_vector);
        }
    }
    while i < board.len()
        invariant
            i <= board@.len(),
            forall|k: int| 0 <= k < board@.len() ==> board@[k] < 64,
            is_mask_of(mask, board@.take(i as int)),
        decreases board@.len() - i,
    {
        let card = board[i];
        let ghost before = mask;
        let ghost done = board@.take(i as int);
        let ghost next = board@.take(i + 1);
        mask = mask | (1u64 << (card as u64));
        proof {
            assert forall|c: u8| c < 64 implies (#[trigger] has_bit(mask, c) <==> on_board(
                next,
                c,
            )) by {
                assert(((before | (1u64 << (card as u64))) >> (c as u64)) & 1 == 1 <==> (((before
                    >> (c as u64)) & 1 == 1) || c == card)) by (bit_vector)
                    requires
                        c < 64,
                        card < 64,
                ;
                assert(has_bit(before, c) <==> on_board(done, c));
                if on_board(done, c) {
                    let k = choose|k: int| 0 <= k < done.len() && done[k] == c;
                    assert(next[k] == c);
                }
                if c == card {
                    assert(next[i as int] == c);
                }
                if on_board(next, c) {
                    let k = choose|k: int| 0 <= k < next.len() && next[k] == c;
                    if k < i {
                        assert(done[k] == c);
                    }
                }
            }
        }
        i += 1;
    }
    proof {
        assert(board@.take(board@.len() as int) =~= board@);
    }
    mask
}

/// Whether two players can hold `first` and `second` at once on the board
/// whose cards `board` holds as a mask.
pub fn hands_compatible(first: (u8, u8), second: (u8, u8), board: u64) -> (yes: bool)
    requires
        first.0 < 64,
        first.1 < 64,
        second.0 < 64,
        second.1 < 64,
    ensures
        forall|cards: Seq<u8>| is_mask_of(board, cards) ==> yes == compatible(first, second, cards),
{
    let blocked = !card_possible(board, first.0) && !card_possible(board, first.1)
        && !card_possible(board, second.0) && !card_possible(board, second.1);
    let yes = first.0 != second.0 && first.0 != second.1 && first.1 != second.0 && first.1
        != second.1 && blocked;
    proof {
        assert forall|cards: Seq<u8>| is_mask_of(board, cards) implies yes == compatible(
            first,
            second,
            cards,
        ) by {
            assert(has_bit(board, first.0) <==> on_board(cards, first.0));
            assert(has_bit(board, first.1) <==> on_board(cards, first.1));
            assert(has_bit(board, second.0) <==> on_board(cards, second.0));
            assert(has_bit(board, second.1) <==> on_board(cards, second.1));
        }
    }
    yes
}

/// A hand packed into one number: the first card in the low byte, the second
/// in the high byte.
pub open spec fn packed_hand(hand: (u8, u8)) -> u16 {
    (hand.0 + 256 * hand.1) as u16
}

/// The players' hands, each packed into one number.
pub fn game_private_cards(hands: &Vec<(u8, u8)>) -> (packed: Vec<u16>)
    ensures
        packed@.len() == hands@.len(),
        forall|i: int| 0 <= i < hands@.len() ==> #[trigger] packed@[i] == packed_hand(hands@[i]),
{
    let mut packed: Vec<u16> = Vec::new();
    let mut i: usize = 0;
    while i < hands.len()
        invariant
            i <= hands@.len(),
            packed@.len() == i,
            forall|k: int| 0 <= k < i ==> #[trigger] packed@[k] == packed_hand(hands@[k]),
        decreases hands@.len() - i,
    {
        let (low, high) = hands[i];
        let value: u16 = (low as u16) | ((high as u16) << 8);
        assert(((low as u16) | ((high as u16) << 8)) == (low as u16) + 256 * (high as u16))
            by (bit_vector);
        packed.push(value);
        i += 1;
    }
    packed
}

} // verus!
