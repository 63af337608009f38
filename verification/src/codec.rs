//! The compact text form of actions and lines of play.
//!
//! An action is `F`, `X` or `C`; `B`, `R` or `A` followed by an amount; or the
//! number of a dealt card. The steps of a line are joined by `-`, or by `|`
//! where a street ends, and lines are joined by `,`.

use crate::action::Action;
use crate::action::DECK_SIZE;
use crate::error::Error;
use crate::vectors::copy_range;
use crate::text::{
    all_digits, chars_of, decimal_digits, decimal_text, has_no_separator, is_digit,
    lemma_decimal_reads_back, lemma_digits_read_back, lemma_pieces_append, lemma_pieces_of_plain, parse_i32, parse_unsigned, pieces, push_decimal, push_digits, read_i32,
    read_unsigned, split_ranges,
};
use vstd::prelude::*;

verus! {

/// The action that the token `s` spells, if it spells one.
pub open spec fn decode_action_spec(s: Seq<char>) -> Option<Action> {
    if s == seq!['F'] {
        Some(Action::Fold)
    } else if s == seq!['X'] {
        Some(Action::Check)
    } else if s == seq!['C'] {
        Some(Action::Call)
    } else if s.len() > 0 && s[0] == 'B' {
        match parse_i32(s.drop_first()) {
            Some(amount) => Some(Action::Bet(amount)),
            None => None,
        }
    } else if s.len() > 0 && s[0] == 'R' {
        match parse_i32(s.drop_first()) {
            Some(amount) => Some(Action::Raise(amount)),
            None => None,
        }
    } else if s.len() > 0 && s[0] == 'A' {
        match parse_i32(s.drop_first()) {
            Some(amount) => Some(Action::AllIn(amount)),
            None => None,
        }
    } else {
        match parse_unsigned(s) {
            Some(card) => if card < DECK_SIZE {
                Some(Action::Chance(card as u8))
            } else {
                None
            },
            None => None,
        }
    }
}

/// The token of an action.
pub open spec fn encode_action_spec(action: Action) -> Seq<char> {
    match action {
        Action::Fold => seq!['F'],
        Action::Check => seq!['X'],
        Action::Call => seq!['C'],
        Action::Bet(amount) => seq!['B'] + decimal_text(amount as int),
        Action::Raise(amount) => seq!['R'] + decimal_text(amount as int),
        Action::AllIn(amount) => seq!['A'] + decimal_text(amount as int),
        Action::Chance(card) => decimal_text(card as int),
    }
}

/// The label of a player action: its name, a colon and its amount, which is 0
/// where the action has none.
pub open spec fn action_label_spec(action: Action) -> Seq<char> {
    match action {
        Action::Fold => "Fold:0"@,
        Action::Check => "Check:0"@,
        Action::Call => "Call:0"@,
        Action::Bet(amount) => "Bet:"@ + decimal_text(amount as int),
        Action::Raise(amount) => "Raise:"@ + decimal_text(amount as int),
        Action::AllIn(amount) => "Allin:"@ + decimal_text(amount as int),
        Action::Chance(card) => Seq::empty(),
    }
}

/// Reads `chars[from..to]` as one action.
pub fn decode_token(chars: &Vec<char>, from: usize, to: usize) -> (result: Result<Action, Error>)
    requires
        from <= to <= chars.len(),
    ensures
        result == match decode_action_spec(chars@.subrange(from as int, to as int)) {
            Some(action) => Ok::<Action, Error>(action),
            None => Err(Error::MalformedActionToken),
        },
{
    let ghost s = chars@.subrange(from as int, to as int);
    if from == to {
        assert(s.len() == 0);
        return Err(Error::MalformedActionToken);
    }
    let first = chars[from];
    assert(s[0] == first);
    proof {
        assert(s.drop_first() =~= chars@.subrange(from + 1, to as int));
    }
    if to - from == 1 && first == 'F' {
        assert(s =~= seq!['F']);
        return Ok(Action::Fold);
    }
    if to - from == 1 && first == 'X' {
        assert(s =~= seq!['X']);
        return Ok(Action::Check);
    }
    if to - from == 1 && first == 'C' {
        assert(s =~= seq!['C']);
        return Ok(Action::Call);
    }
    assert(s != seq!['F'] && s != seq!['X'] && s != seq!['C']) by {
        if s.len() == 1 {
            assert(seq!['F'][0] == 'F' && seq!['X'][0] == 'X' && seq!['C'][0] == 'C');
        } else {
            assert(seq!['F'].len() == 1 && seq!['X'].len() == 1 && seq!['C'].len() == 1);
        }
    }
    if first == 'B' {
        match read_i32(chars, from + 1, to) {
            Some(amount) => Ok(Action::Bet(amount)),
            None => Err(Error::MalformedActionToken),
        }
    } else if first == 'R' {
        match read_i32(chars, from + 1, to) {
            Some(amount) => Ok(Action::Raise(amount)),
            None => Err(Error::MalformedActionToken),
        }
    } else if first == 'A' {
        match read_i32(chars, from + 1, to) {
            Some(amount) => Ok(Action::AllIn(amount)),
            None => Err(Error::MalformedActionToken),
        }
    } else {
        match read_unsigned(chars, from, to, 51) {
            Some(card) => Ok(Action::Chance(card as u8)),
            None => Err(Error::MalformedActionToken),
        }
    }
}

/// Reads a token as one action. A token that spells none is refused.
pub fn decode_action(action: &str) -> (result: Result<Action, Error>)
    ensures
        result == match decode_action_spec(action@) {
            Some(decoded) => Ok::<Action, Error>(decoded),
            None => Err(Error::MalformedActionToken),
        },
{
    let chars = chars_of(action);
    assert(chars@.subrange(0, chars@.len() as int) =~= action@);
    decode_token(&chars, 0, chars.len())
}

/// Writes the token of an action.
pub fn encode_action(action: Action) -> (token: String)
    ensures
        token@ == encode_action_spec(action),
{
    proof {
        reveal_strlit("F");
        reveal_strlit("X");
        reveal_strlit("C");
        reveal_strlit("B");
        reveal_strlit("R");
        reveal_strlit("A");
    }
    match action {
        Action::Fold => {
            let token = String::from_str("F");
            assert(token@ =~= seq!['F']);
            token
        },
        Action::Check => {
            let token = String::from_str("X");
            assert(token@ =~= seq!['X']);
            token
        },
        Action::Call => {
            let token = String::from_str("C");
            assert(token@ =~= seq!['C']);
            token
        },
        Action::Bet(amount) => {
            let mut token = String::from_str("B");
            assert(token@ =~= seq!['B']);
            push_decimal(&mut token, amount);
            token
        },
        Action::Raise(amount) => {
            let mut token = String::from_str("R");
            assert(token@ =~= seq!['R']);
            push_decimal(&mut token, amount);
            token
        },
        Action::AllIn(amount) => {
            let mut token = String::from_str("A");
            assert(token@ =~= seq!['A']);
            push_decimal(&mut token, amount);
            token
        },
        Action::Chance(card) => {
            let mut token = String::new();
            push_digits(&mut token, card as u32);
            assert(token@ =~= decimal_text(card as int));
            token
        },
    }
}

/// Writes the label of a player action.
pub fn action_to_string(action: Action) -> (label: String)
    requires
        !(action is Chance),
    ensures
        label@ == action_label_spec(action),
{
    match action {
        Action::Fold => String::from_str("Fold:0"),
        Action::Check => String::from_str("Check:0"),
        Action::Call => String::from_str("Call:0"),
        Action::Bet(amount) => {
            let mut label = String::from_str("Bet:");
            push_decimal(&mut label, amount);
            label
        },
        Action::Raise(amount) => {
            let mut label = String::from_str("Raise:");
            push_decimal(&mut label, amount);
            label
        },
        Action::AllIn(amount) => {
            let mut label = String::from_str("Allin:");
            push_decimal(&mut label, amount);
            label
        },
        Action::Chance(_) => String::new(),
    }
}

/// The line that `s` spells: its pieces between `-` and `|`, each read as an
/// action. One piece that spells none spoils the line.
pub open spec fn decode_line_spec(s: Seq<char>) -> Option<Seq<Action>> {
    let tokens = pieces(s, '-', '|');
    if forall|i: int| 0 <= i < tokens.len() ==> decode_action_spec(#[trigger] tokens[i]) is Some {
        Some(Seq::new(tokens.len(), |i: int| decode_action_spec(tokens[i])->0))
    } else {
        None
    }
}

/// The lines that `s` spells: none for the empty text, else its pieces between
/// commas, each read as a line.
pub open spec fn decode_lines_spec(s: Seq<char>) -> Option<Seq<Seq<Action>>> {
    let parts = pieces(s, ',', ',');
    if s.len() == 0 {
        Some(Seq::empty())
    } else if forall|i: int| 0 <= i < parts.len() ==> decode_line_spec(#[trigger] parts[i]) is Some {
        Some(Seq::new(parts.len(), |i: int| decode_line_spec(parts[i])->0))
    } else {
        None
    }
}

/// How far the street has got after `line`: 2 after a call or a second check
/// in a row, 1 after a first check, else 0.
pub open spec fn street_progress(line: Seq<Action>) -> int
    decreases line.len(),
{
    if line.len() == 0 {
        0
    } else {
        let before = street_progress(line.drop_last());
        match line.last() {
            Action::Check => if before == 2 {
                1
            } else {
                before + 1
            },
            Action::Call => 2,
            _ => 0,
        }
    }
}

/// The tokens of a line that is not empty, joined by `|` after a step that
/// ends a street and by `-` after any other.
pub open spec fn encode_steps(line: Seq<Action>) -> Seq<char>
    decreases line.len(),
{
    if line.len() == 0 {
        Seq::empty()
    } else if line.len() == 1 {
        encode_action_spec(line[0])
    } else {
        encode_steps(line.drop_last()) + seq![
            if street_progress(line.drop_last()) == 2 {
                '|'
            } else {
                '-'
            },
        ] + encode_action_spec(line.last())
    }
}

/// The text of a line: `(Root)` for the empty line.
pub open spec fn encode_line_spec(line: Seq<Action>) -> Seq<char> {
    if line.len() == 0 {
        "(Root)"@
    } else {
        encode_steps(line)
    }
}

/// The lines behind a list of vectors.
pub open spec fn lines_view(lines: Seq<Vec<Action>>) -> Seq<Seq<Action>> {
    Seq::new(lines.len(), |i: int| lines[i]@)
}

/// The texts of the lines, joined by commas.
pub open spec fn encode_lines_spec(lines: Seq<Seq<Action>>) -> Seq<char>
    decreases lines.len(),
{
    if lines.len() == 0 {
        Seq::empty()
    } else if lines.len() == 1 {
        encode_line_spec(lines[0])
    } else {
        encode_lines_spec(lines.drop_last()) + seq![','] + encode_line_spec(lines.last())
    }
}

/// Reads the characters of a line of play.
pub fn decode_line_chars(chars: &Vec<char>) -> (result: Result<Vec<Action>, Error>)
    ensures
        match decode_line_spec(chars@) {
            Some(line) => result is Ok && result->Ok_0@ == line,
            None => result == Err::<Vec<Action>, Error>(Error::MalformedActionToken),
        },
{
    let ranges = split_ranges(chars, '-', '|');
    let ghost tokens = pieces(chars@, '-', '|');
    let mut line: Vec<Action> = Vec::new();
    let mut i: usize = 0;
    while i < ranges.len()
        invariant
            i <= ranges@.len(),
            tokens == pieces(chars@, '-', '|'),
            ranges@.len() == tokens.len(),
            forall|k: int|
                0 <= k < ranges@.len() ==> {
                    &&& (#[trigger] ranges@[k]).0 <= ranges@[k].1 <= chars@.len()
                    &&& chars@.subrange(ranges@[k].0 as int, ranges@[k].1 as int) == tokens[k]
                },
            line@.len() == i,
            forall|k: int|
                0 <= k < i ==> decode_action_spec(#[trigger] tokens[k]) == Some(line@[k]),
        decreases ranges@.len() - i,
    {
        let (from, to) = ranges[i];
        assert(ranges@[i as int].0 == from && ranges@[i as int].1 == to);
        match decode_token(chars, from, to) {
            Ok(action) => {
                line.push(action);
            },
            Err(e) => {
                assert(decode_action_spec(tokens[i as int]) is None);
                return Err(e);
            },
        }
        i += 1;
    }
    proof {
        assert(line@ =~= Seq::new(tokens.len(), |k: int| decode_action_spec(tokens[k])->0));
    }
    Ok(line)
}

/// Reads a line of play. One token that spells no action spoils the line.
pub fn decode_line(line: &str) -> (result: Result<Vec<Action>, Error>)
    ensures
        match decode_line_spec(line@) {
            Some(decoded) => result is Ok && result->Ok_0@ == decoded,
            None => result == Err::<Vec<Action>, Error>(Error::MalformedActionToken),
        },
{
    let chars = chars_of(line);
    decode_line_chars(&chars)
}

/// Reads a list of lines of play, none for the empty text.
pub fn decode_lines(lines: &str) -> (result: Result<Vec<Vec<Action>>, Error>)
    ensures
        match decode_lines_spec(lines@) {
            Some(decoded) => result is Ok && lines_view(result->Ok_0@) == decoded,
            None => result == Err::<Vec<Vec<Action>>, Error>(Error::MalformedActionToken),
        },
{
    let chars = chars_of(lines);
    let mut decoded: Vec<Vec<Action>> = Vec::new();
    if chars.len() == 0 {
        assert(lines_view(decoded@) =~= Seq::empty());
        return Ok(decoded);
    }
    let ranges = split_ranges(&chars, ',', ',');
    let ghost parts = pieces(chars@, ',', ',');
    let mut i: usize = 0;
    while i < ranges.len()
        invariant
            i <= ranges@.len(),
            chars@ == lines@,
            chars@.len() > 0,
            parts == pieces(chars@, ',', ','),
            ranges@.len() == parts.len(),
            forall|k: int|
                0 <= k < ranges@.len() ==> {
                    &&& (#[trigger] ranges@[k]).0 <= ranges@[k].1 <= chars@.len()
                    &&& chars@.subrange(ranges@[k].0 as int, ranges@[k].1 as int) == parts[k]
                },
            decoded@.len() == i,
            forall|k: int|
                0 <= k < i ==> decode_line_spec(#[trigger] parts[k]) == Some(decoded@[k]@),
        decreases ranges@.len() - i,
    {
        let (from, to) = ranges[i];
        assert(ranges@[i as int].0 == from && ranges@[i as int].1 == to);
        let part = copy_range(&chars, from, to);
        match decode_line_chars(&part) {
            Ok(line) => {
                decoded.push(line);
            },
            Err(e) => {
                assert(decode_line_spec(parts[i as int]) is None);
                return Err(e);
            },
        }
        i += 1;
    }
    proof {
        assert(lines_view(decoded@) =~= Seq::new(
            parts.len(),
            |k: int| decode_line_spec(parts[k])->0,
        ));
    }
    Ok(decoded)
}

/// Writes a line of play: `(Root)` for the empty line, else its tokens, with
/// `|` after a call or a second check in a row and `-` elsewhere.
pub fn encode_line(line: &Vec<Action>) -> (text: String)
    ensures
        text@ == encode_line_spec(line@),
{
    if line.len() == 0 {
        return String::from_str("(Root)");
    }
    proof {
        reveal_strlit("|");
        reveal_strlit("-");
    }
    let mut text = String::new();
    let mut progress: u8 = 0;
    let mut i: usize = 0;
    while i < line.len()
        invariant
            i <= line@.len(),
            progress == street_progress(line@.take(i as int)),
            0 <= progress <= 2,
            text@ == encode_steps(line@.take(i as int)),
            "|"@ == seq!['|'],
            "-"@ == seq!['-'],
        decreases line@.len() - i,
    {
        let action = line[i];
        let ghost before = text@;
        let ghost done = line@.take(i as int);
        let ghost next = line@.take(i + 1);
        proof {
            assert(next.drop_last() =~= done);
            assert(next.last() == action);
        }
        if i > 0 {
            if progress == 2 {
                text.append("|");
            } else {
                text.append("-");
            }
        }
        let token = encode_action(action);
        text.append(token.as_str());
        progress =
        match action {
            Action::Check => if progress == 2 {
                1
            } else {
                progress + 1
            },
            Action::Call => 2,
            _ => 0,
        };
        proof {
            if i == 0 {
                assert(done.len() == 0);
                assert(before =~= Seq::<char>::empty());
                assert(next.len() == 1);
                assert(text@ =~= encode_action_spec(next[0]));
            } else {
                assert(text@ =~= encode_steps(done) + seq![
                    if street_progress(done) == 2 {
                        '|'
                    } else {
                        '-'
                    },
                ] + encode_action_spec(action));
            }
        }
        i += 1;
    }
    proof {
        assert(line@.take(line@.len() as int) =~= line@);
    }
    text
}

/// Writes a list of lines of play, joined by commas.
pub fn encode_lines(lines: &Vec<Vec<Action>>) -> (text: String)
    ensures
        text@ == encode_lines_spec(lines_view(lines@)),
{
    proof {
        reveal_strlit(",");
    }
    let ghost all = lines_view(lines@);
    let mut text = String::new();
    let mut i: usize = 0;
    while i < lines.len()
        invariant
            i <= lines@.len(),
            all == lines_view(lines@),
            text@ == encode_lines_spec(all.take(i as int)),
            ","@ == seq![','],
        decreases lines@.len() - i,
    {
        let ghost done = all.take(i as int);
        let ghost next = all.take(i + 1);
        proof {
            assert(next.drop_last() =~= done);
            assert(next.last() == lines@[i as int]@);
        }
        if i > 0 {
            text.append(",");
        }
        let line = encode_line(&lines[i]);
        text.append(line.as_str());
        proof {
            if i == 0 {
                assert(done.len() == 0);
                assert(text@ =~= encode_line_spec(next[0]));
            } else {
                assert(text@ =~= encode_lines_spec(done) + seq![','] + encode_line_spec(
                    next.last(),
                ));
            }
        }
        i += 1;
    }
    proof {
        assert(all.take(all.len() as int) =~= all);
    }
    text
}

/// The token of an action spells that action: what is written is read back
/// as it was. A dealt card has to be a card of the deck.
pub proof fn lemma_action_reads_back(action: Action)
    requires
        action matches Action::Chance(card) ==> card < DECK_SIZE,
    ensures
        decode_action_spec(encode_action_spec(action)) == Some(action),
{
    let s = encode_action_spec(action);
    match action {
        Action::Fold => {},
        Action::Check => {
            assert(seq!['X'][0] != seq!['F'][0]);
        },
        Action::Call => {
            assert(seq!['C'][0] != seq!['F'][0]);
            assert(seq!['C'][0] != seq!['X'][0]);
        },
        Action::Bet(amount) => {
            lemma_decimal_reads_back(amount);
            lemma_amount_token(s, 'B', amount);
        },
        Action::Raise(amount) => {
            lemma_decimal_reads_back(amount);
            lemma_amount_token(s, 'R', amount);
        },
        Action::AllIn(amount) => {
            lemma_decimal_reads_back(amount);
            lemma_amount_token(s, 'A', amount);
        },
        Action::Chance(card) => {
            lemma_digits_read_back(card as nat);
            assert(is_digit(s[0]));
            assert(seq!['F'][0] == 'F' && seq!['X'][0] == 'X' && seq!['C'][0] == 'C');
        },
    }
}

/// A letter followed by the decimal text of an amount is none of the three
/// one-letter tokens, and what follows the letter is the amount's text.
proof fn lemma_amount_token(s: Seq<char>, letter: char, amount: i32)
    requires
        s == seq![letter] + decimal_text(amount as int),
    ensures
        s.len() >= 2,
        s[0] == letter,
        s.drop_first() == decimal_text(amount as int),
        s != seq!['F'] && s != seq!['X'] && s != seq!['C'],
{
    if amount < 0 {
        lemma_digits_read_back((-amount) as nat);
    } else {
        lemma_digits_read_back(amount as nat);
    }
    assert(s.drop_first() =~= decimal_text(amount as int));
    assert(seq!['F'].len() == 1 && seq!['X'].len() == 1 && seq!['C'].len() == 1);
}

/// Whether an action is one that a line of play is written with: an amount
/// is not negative, and a card is a card of the deck.
pub open spec fn is_plain(action: Action) -> bool {
    match action {
        Action::Bet(amount) => amount >= 0,
        Action::Raise(amount) => amount >= 0,
        Action::AllIn(amount) => amount >= 0,
        Action::Chance(card) => card < DECK_SIZE,
        _ => true,
    }
}

/// Whether a line has a step at least, and plain actions only.
pub open spec fn is_plain_line(line: Seq<Action>) -> bool {
    &&& line.len() > 0
    &&& forall|i: int| 0 <= i < line.len() ==> is_plain(#[trigger] line[i])
}

/// Whether `c` is one of the characters that join steps and lines.
pub open spec fn is_joint(c: char) -> bool {
    c == '-' || c == '|' || c == ','
}

/// The token of a plain action holds no character that joins steps or
/// lines, and is not empty.
pub proof fn lemma_token_is_plain(action: Action)
    requires
        is_plain(action),
    ensures
        encode_action_spec(action).len() > 0,
        forall|i: int|
            0 <= i < encode_action_spec(action).len() ==> !is_joint(
                #[trigger] encode_action_spec(action)[i],
            ),
{
    let s = encode_action_spec(action);
    match action {
        Action::Bet(amount) => {
            lemma_digits_read_back(amount as nat);
            lemma_letter_and_digits(s, 'B', decimal_digits(amount as nat));
        },
        Action::Raise(amount) => {
            lemma_digits_read_back(amount as nat);
            lemma_letter_and_digits(s, 'R', decimal_digits(amount as nat));
        },
        Action::AllIn(amount) => {
            lemma_digits_read_back(amount as nat);
            lemma_letter_and_digits(s, 'A', decimal_digits(amount as nat));
        },
        Action::Chance(card) => {
            lemma_digits_read_back(card as nat);
            assert forall|i: int| 0 <= i < s.len() implies !is_joint(#[trigger] s[i]) by {
                assert(is_digit(s[i]));
            }
        },
        _ => {},
    }
}

/// A letter followed by digits holds no character that joins steps or
/// lines.
proof fn lemma_letter_and_digits(s: Seq<char>, letter: char, digits: Seq<char>)
    requires
        s == seq![letter] + digits,
        all_digits(digits),
        !is_joint(letter),
    ensures
        s.len() > 0,
        forall|i: int| 0 <= i < s.len() ==> !is_joint(#[trigger] s[i]),
{
    assert forall|i: int| 0 <= i < s.len() implies !is_joint(#[trigger] s[i]) by {
        if i > 0 {
            assert(s[i] == digits[i - 1]);
            assert(is_digit(digits[i - 1]));
        }
    }
}

/// The tokens of a line.
pub open spec fn tokens_of(line: Seq<Action>) -> Seq<Seq<char>> {
    Seq::new(line.len(), |i: int| encode_action_spec(line[i]))
}

/// The text of a plain line holds no comma, is not empty, and its pieces
/// between `-` and `|` are the tokens of its steps.
pub proof fn lemma_line_pieces(line: Seq<Action>)
    requires
        is_plain_line(line),
    ensures
        encode_steps(line).len() > 0,
        has_no_separator(encode_steps(line), ',', ','),
        pieces(encode_steps(line), '-', '|') == tokens_of(line),
    decreases line.len(),
{
    let text = encode_steps(line);
    let token = encode_action_spec(line.last());
    assert(is_plain(line[line.len() - 1]));
    lemma_token_is_plain(line.last());
    assert(has_no_separator(token, '-', '|')) by {
        assert forall|i: int| 0 <= i < token.len() implies #[trigger] token[i] != '-' && token[i]
            != '|' by {
            assert(!is_joint(token[i]));
        }
    }
    if line.len() == 1 {
        assert(line[0] == line.last());
        lemma_pieces_of_plain(token, '-', '|');
        assert(tokens_of(line) =~= seq![token]);
        assert forall|i: int| 0 <= i < text.len() implies #[trigger] text[i] != ',' by {
            assert(!is_joint(token[i]));
        }
    } else {
        let head = line.drop_last();
        assert forall|i: int| 0 <= i < head.len() implies is_plain(#[trigger] head[i]) by {
            assert(head[i] == line[i]);
        }
        lemma_line_pieces(head);
        let sep = if street_progress(head) == 2 {
            '|'
        } else {
            '-'
        };
        let before = encode_steps(head);
        assert(text == before + seq![sep] + token);
        lemma_pieces_append(before, sep, token, '-', '|');
        assert(tokens_of(line) =~= tokens_of(head).push(token)) by {
            assert forall|i: int| 0 <= i < line.len() implies tokens_of(line)[i] == tokens_of(
                head,
            ).push(token)[i] by {
                if i < head.len() {
                    assert(head[i] == line[i]);
                }
            }
        }
        assert forall|i: int| 0 <= i < text.len() implies #[trigger] text[i] != ',' by {
            if i < before.len() {
                assert(text[i] == before[i]);
            } else if i > before.len() {
                assert(text[i] == token[i - before.len() - 1]);
                assert(!is_joint(token[i - before.len() - 1]));
            }
        }
    }
}

/// A plain line that is written is read back as it was.
pub proof fn lemma_line_reads_back(line: Seq<Action>)
    requires
        is_plain_line(line),
    ensures
        decode_line_spec(encode_line_spec(line)) == Some(line),
{
    lemma_line_pieces(line);
    let tokens = pieces(encode_steps(line), '-', '|');
    assert forall|i: int| 0 <= i < tokens.len() implies decode_action_spec(#[trigger] tokens[i])
        == Some(line[i]) by {
        assert(is_plain(line[i]));
        lemma_action_reads_back(line[i]);
    }
    assert(Seq::new(tokens.len(), |i: int| decode_action_spec(tokens[i])->0) =~= line);
}

/// Whether every line of the list is a plain line.
pub open spec fn are_plain_lines(lines: Seq<Seq<Action>>) -> bool {
    forall|i: int| 0 <= i < lines.len() ==> is_plain_line(#[trigger] lines[i])
}

/// The texts of a list of lines.
pub open spec fn texts_of(lines: Seq<Seq<Action>>) -> Seq<Seq<char>> {
    Seq::new(lines.len(), |i: int| encode_line_spec(lines[i]))
}

/// The text of a list of plain lines, where there is a line at least, is not
/// empty, and its pieces between commas are the texts of the lines.
proof fn lemma_lines_pieces(lines: Seq<Seq<Action>>)
    requires
        lines.len() > 0,
        are_plain_lines(lines),
    ensures
        encode_lines_spec(lines).len() > 0,
        pieces(encode_lines_spec(lines), ',', ',') == texts_of(lines),
    decreases lines.len(),
{
    let text = encode_line_spec(lines.last());
    assert(is_plain_line(lines[lines.len() - 1]));
    lemma_line_pieces(lines.last());
    if lines.len() == 1 {
        assert(lines[0] == lines.last());
        lemma_pieces_of_plain(text, ',', ',');
        assert(texts_of(lines) =~= seq![text]);
    } else {
        let head = lines.drop_last();
        assert forall|i: int| 0 <= i < head.len() implies is_plain_line(#[trigger] head[i]) by {
            assert(head[i] == lines[i]);
        }
        lemma_lines_pieces(head);
        lemma_pieces_append(encode_lines_spec(head), ',', text, ',', ',');
        assert(texts_of(lines) =~= texts_of(head).push(text)) by {
            assert forall|i: int| 0 <= i < lines.len() implies texts_of(lines)[i] == texts_of(
                head,
            ).push(text)[i] by {
                if i < head.len() {
                    assert(head[i] == lines[i]);
                }
            }
        }
    }
}

/// A list of plain lines that is written is read back as it was. This holds
/// of the empty list too, but of no list with an empty line: the text of the
/// empty line spells no action.
pub proof fn lemma_lines_read_back(lines: Seq<Seq<Action>>)
    requires
        are_plain_lines(lines),
    ensures
        decode_lines_spec(encode_lines_spec(lines)) == Some(lines),
{
    if lines.len() == 0 {
        assert(lines =~= Seq::<Seq<Action>>::empty());
    } else {
        lemma_lines_pieces(lines);
        let parts = pieces(encode_lines_spec(lines), ',', ',');
        assert forall|i: int| 0 <= i < parts.len() implies decode_line_spec(#[trigger] parts[i])
            == Some(lines[i]) by {
            assert(is_plain_line(lines[i]));
            lemma_line_reads_back(lines[i]);
        }
        assert(Seq::new(parts.len(), |i: int| decode_line_spec(parts[i])->0) =~= lines);
    }
}

} // verus!
