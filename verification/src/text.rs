//! Decimal numbers as text, and text cut at separator characters.

use vstd::prelude::*;

verus! {

/// Whether `c` is one of the ten ASCII digits.
pub open spec fn is_digit(c: char) -> bool {
    '0' <= c && c <= '9'
}

/// The character of a digit `d`, for `0 <= d <= 9`.
pub open spec fn digit_char(d: int) -> char {
    if d == 0 {
        '0'
    } else if d == 1 {
        '1'
    } else if d == 2 {
        '2'
    } else if d == 3 {
        '3'
    } else if d == 4 {
        '4'
    } else if d == 5 {
        '5'
    } else if d == 6 {
        '6'
    } else if d == 7 {
        '7'
    } else if d == 8 {
        '8'
    } else {
        '9'
    }
}

/// The value of the digit character `c`.
pub open spec fn digit_value(c: char) -> int {
    c as int - '0' as int
}

/// The digits of `n`, most significant first, without leading zeros.
pub open spec fn decimal_digits(n: nat) -> Seq<char>
    decreases n,
{
    if n < 10 {
        seq![digit_char(n as int)]
    } else {
        decimal_digits(n / 10).push(digit_char((n % 10) as int))
    }
}

/// The decimal text of `v`: a minus sign where `v` is negative, then its digits.
pub open spec fn decimal_text(v: int) -> Seq<char> {
    if v < 0 {
        seq!['-'] + decimal_digits((-v) as nat)
    } else {
        decimal_digits(v as nat)
    }
}

/// Whether every character of `s` is a digit.
pub open spec fn all_digits(s: Seq<char>) -> bool {
    forall|i: int| 0 <= i < s.len() ==> is_digit(#[trigger] s[i])
}

/// The number that the digits `s` spell, leading zeros allowed.
pub open spec fn digits_value(s: Seq<char>) -> nat
    decreases s.len(),
{
    if s.len() == 0 {
        0
    } else {
        (digits_value(s.drop_last()) * 10 + digit_value(s.last())) as nat
    }
}

/// The unsigned number that `s` spells: `Some` exactly when `s` is one digit
/// or more and nothing else.
pub open spec fn parse_unsigned(s: Seq<char>) -> Option<nat> {
    if s.len() > 0 && all_digits(s) {
        Some(digits_value(s))
    } else {
        None
    }
}

/// The signed 32-bit number that `s` spells: an optional `+` or `-`, then one
/// digit or more, the whole within the range of `i32`.
pub open spec fn parse_i32(s: Seq<char>) -> Option<i32> {
    let negative = s.len() > 0 && s[0] == '-';
    let signed = s.len() > 0 && (s[0] == '-' || s[0] == '+');
    let body = if signed {
        s.drop_first()
    } else {
        s
    };
    match parse_unsigned(body) {
        None => None,
        Some(magnitude) => {
            let v = if negative {
                -(magnitude as int)
            } else {
                magnitude as int
            };
            if i32::MIN <= v <= i32::MAX {
                Some(v as i32)
            } else {
                None
            }
        },
    }
}

/// The characters of `s`, one by one.
pub fn chars_of(s: &str) -> (chars: Vec<char>)
    ensures
        chars@ == s@,
{
    let n = s.unicode_len();
    let mut chars: Vec<char> = Vec::new();
    let mut i: usize = 0;
    while i < n
        invariant
            n == s@.len(),
            i <= n,
            chars@ == s@.take(i as int),
        decreases n - i,
    {
        chars.push(s.get_char(i));
        i += 1;
        assert(chars@ =~= s@.take(i as int));
    }
    assert(s@.take(n as int) =~= s@);
    chars
}

/// The one-character text of the digit `d`.
fn digit_str(d: u32) -> (text: &'static str)
    requires
        d < 10,
    ensures
        text@ == seq![digit_char(d as int)],
{
    proof {
        reveal_strlit("0");
        reveal_strlit("1");
        reveal_strlit("2");
        reveal_strlit("3");
        reveal_strlit("4");
        reveal_strlit("5");
        reveal_strlit("6");
        reveal_strlit("7");
        reveal_strlit("8");
        reveal_strlit("9");
    }
    let text = if d == 0 {
        "0"
    } else if d == 1 {
        "1"
    } else if d == 2 {
        "2"
    } else if d == 3 {
        "3"
    } else if d == 4 {
        "4"
    } else if d == 5 {
        "5"
    } else if d == 6 {
        "6"
    } else if d == 7 {
        "7"
    } else if d == 8 {
        "8"
    } else {
        "9"
    };
    assert(text@ =~= seq![digit_char(d as int)]);
    text
}

/// Appends the digits of `n` to `out`.
pub fn push_digits(out: &mut String, n: u32)
    ensures
        final(out)@ == old(out)@ + decimal_digits(n as nat),
    decreases n,
{
    if n >= 10 {
        push_digits(out, n / 10);
    }
    out.append(digit_str(n % 10));
    proof {
        if n >= 10 {
            assert(out@ =~= old(out)@ + decimal_digits((n / 10) as nat).push(
                digit_char((n % 10) as int),
            ));
        }
    }
}

/// Appends the decimal text of `v` to `out`.
pub fn push_decimal(out: &mut String, v: i32)
    ensures
        final(out)@ == old(out)@ + decimal_text(v as int),
{
    if v < 0 {
        proof {
            reveal_strlit("-");
        }
        out.append("-");
        let magnitude: u32 = (-(v as i64)) as u32;
        push_digits(out, magnitude);
        assert(out@ =~= old(out)@ + (seq!['-'] + decimal_digits((-v) as nat)));
    } else {
        push_digits(out, v as u32);
    }
}

/// Reads `chars[from..to]` as an unsigned number that is at most `limit`.
pub fn read_unsigned(chars: &Vec<char>, from: usize, to: usize, limit: u32) -> (value: Option<u32>)
    requires
        from <= to <= chars.len(),
    ensures
        value == match parse_unsigned(chars@.subrange(from as int, to as int)) {
            Some(v) => if v <= limit {
                Some(v as u32)
            } else {
                None
            },
            None => None,
        },
{
    let ghost s = chars@.subrange(from as int, to as int);
    if from == to {
        return None;
    }
    let mut acc: u64 = 0;
    let mut over: bool = false;
    let mut i: usize = from;
    while i < to
        invariant
            from <= i <= to <= chars.len(),
            s == chars@.subrange(from as int, to as int),
            all_digits(s.take(i - from)),
            !over ==> acc == digits_value(s.take(i - from)) && acc <= limit,
            over ==> digits_value(s.take(i - from)) > limit,
        decreases to - i,
    {
        let c = chars[i];
        assert(s[i - from] == c);
        if !(c >= '0' && c <= '9') {
            assert(!is_digit(s[i - from]));
            return None;
        }
        let d: u64 = (c as u32 - '0' as u32) as u64;
        proof {
            let next = s.take(i - from + 1);
            assert(next.drop_last() =~= s.take(i - from));
            assert(next.last() == c);
            assert(digits_value(next) == digits_value(s.take(i - from)) * 10 + d);
            assert forall|j: int| 0 <= j < next.len() implies is_digit(#[trigger] next[j]) by {
                if j < i - from {
                    assert(s.take(i - from)[j] == next[j]);
                }
            }
        }
        if !over {
            acc = acc * 10 + d;
            if acc > limit as u64 {
                over = true;
            }
        }
        i += 1;
    }
    proof {
        assert(s.take(to - from) =~= s);
    }
    if over {
        None
    } else {
        Some(acc as u32)
    }
}

/// Reads `chars[from..to]` as a signed 32-bit number.
pub fn read_i32(chars: &Vec<char>, from: usize, to: usize) -> (value: Option<i32>)
    requires
        from <= to <= chars.len(),
    ensures
        value == parse_i32(chars@.subrange(from as int, to as int)),
{
    let ghost s = chars@.subrange(from as int, to as int);
    let negative = from < to && chars[from] == '-';
    let signed = from < to && (chars[from] == '-' || chars[from] == '+');
    let start: usize = if signed {
        from + 1
    } else {
        from
    };
    proof {
        if signed {
            assert(s.drop_first() =~= chars@.subrange(start as int, to as int));
        }
    }
    if negative {
        match read_unsigned(chars, start, to, 0x8000_0000u32) {
            Some(m) => Some((-(m as i64)) as i32),
            None => None,
        }
    } else {
        match read_unsigned(chars, start, to, 0x7fff_ffffu32) {
            Some(m) => Some(m as i32),
            None => None,
        }
    }
}

/// The position of the first of the two separators `a` and `b` in `s`, or the
/// length of `s` where it holds neither.
pub open spec fn first_separator(s: Seq<char>, a: char, b: char) -> int
    decreases s.len(),
{
    if s.len() == 0 {
        0
    } else if s[0] == a || s[0] == b {
        0
    } else {
        1 + first_separator(s.drop_first(), a, b)
    }
}

/// The pieces of `s` between separators `a` and `b`. There is one piece more
/// than there are separators, so a piece may be empty and the empty text has
/// one empty piece.
pub open spec fn pieces(s: Seq<char>, a: char, b: char) -> Seq<Seq<char>>
    decreases s.len(),
{
    let k = first_separator(s, a, b);
    if 0 <= k < s.len() {
        seq![s.take(k)] + pieces(s.skip(k + 1), a, b)
    } else {
        seq![s]
    }
}

/// Where no separator stands before `k`, and one stands at `k` or `s` ends
/// there, `k` is the first separator's position.
pub proof fn lemma_first_separator(s: Seq<char>, a: char, b: char, k: int)
    requires
        0 <= k <= s.len(),
        forall|i: int| 0 <= i < k ==> s[i] != a && s[i] != b,
        k < s.len() ==> s[k] == a || s[k] == b,
    ensures
        first_separator(s, a, b) == k,
    decreases k,
{
    if k > 0 {
        let rest = s.drop_first();
        assert forall|i: int| 0 <= i < k - 1 implies rest[i] != a && rest[i] != b by {
            assert(rest[i] == s[i + 1]);
        }
        lemma_first_separator(rest, a, b, k - 1);
    }
}

/// Whether the ranges lie one after the other from the start of a text of
/// `len` characters to its end, one character between each two.
pub open spec fn ranges_tile(ranges: Seq<(usize, usize)>, len: int) -> bool {
    &&& ranges.len() > 0
    &&& ranges[0].0 == 0
    &&& ranges.last().1 == len
    &&& forall|i: int| 0 <= i < ranges.len() - 1 ==> (#[trigger] ranges[i + 1]).0 == ranges[i].1 + 1
}

/// The pieces of `chars` between separators `a` and `b`, each as the pair of
/// positions where it begins and ends.
pub fn split_ranges(chars: &Vec<char>, a: char, b: char) -> (ranges: Vec<(usize, usize)>)
    ensures
        ranges@.len() == pieces(chars@, a, b).len(),
        ranges_tile(ranges@, chars@.len() as int),
        forall|i: int|
            0 <= i < ranges@.len() ==> {
                &&& (#[trigger] ranges@[i]).0 <= ranges@[i].1 <= chars@.len()
                &&& chars@.subrange(ranges@[i].0 as int, ranges@[i].1 as int) == pieces(
                    chars@,
                    a,
                    b,
                )[i]
            },
{
    let n = chars.len();
    let mut ranges: Vec<(usize, usize)> = Vec::new();
    let mut start: usize = 0;
    let mut i: usize = 0;
    proof {
        assert(chars@.skip(0) =~= chars@);
        assert(Seq::new(0, |k: int| chars@.subrange(ranges@[k].0 as int, ranges@[k].1 as int))
            + pieces(chars@, a, b) =~= pieces(chars@, a, b));
    }
    while i < n
        invariant
            n == chars@.len(),
            start <= i <= n,
            forall|j: int| start <= j < i ==> chars@[j] != a && chars@[j] != b,
            pieces(chars@, a, b) == Seq::new(
                ranges@.len(),
                |k: int| chars@.subrange(ranges@[k].0 as int, ranges@[k].1 as int),
            ) + pieces(chars@.skip(start as int), a, b),
            forall|k: int|
                0 <= k < ranges@.len() ==> (#[trigger] ranges@[k]).0 <= ranges@[k].1 <= n,
            ranges@.len() == 0 ==> start == 0,
            ranges@.len() > 0 ==> ranges@[0].0 == 0 && ranges@.last().1 + 1 == start,
            forall|k: int|
                0 <= k < ranges@.len() - 1 ==> (#[trigger] ranges@[k + 1]).0 == ranges@[k].1 + 1,
        decreases n - i,
    {
        let c = chars[i];
        if c == a || c == b {
            proof {
                let tail = chars@.skip(start as int);
                assert forall|j: int| 0 <= j < i - start implies tail[j] != a && tail[j] != b by {
                    assert(tail[j] == chars@[start + j]);
                }
                assert(tail[i - start] == c);
                lemma_first_separator(tail, a, b, i - start);
                assert(tail.take(i - start) =~= chars@.subrange(start as int, i as int));
                assert(tail.skip(i - start + 1) =~= chars@.skip(i + 1));
                let before = Seq::new(
                    ranges@.len(),
                    |k: int| chars@.subrange(ranges@[k].0 as int, ranges@[k].1 as int),
                );
                let grown = ranges@.push((start, i));
                let after = Seq::new(
                    grown.len(),
                    |k: int| chars@.subrange(grown[k].0 as int, grown[k].1 as int),
                );
                assert(after =~= before + seq![chars@.subrange(start as int, i as int)]);
                assert(pieces(chars@, a, b) =~= after + pieces(chars@.skip(i + 1), a, b));
            }
            ranges.push((start, i));
            start = i + 1;
        }
        i += 1;
    }
    proof {
        let tail = chars@.skip(start as int);
        assert forall|j: int| 0 <= j < n - start implies tail[j] != a && tail[j] != b by {
            assert(tail[j] == chars@[start + j]);
        }
        lemma_first_separator(tail, a, b, n - start);
        assert(tail =~= chars@.subrange(start as int, n as int));
        let before = Seq::new(
            ranges@.len(),
            |k: int| chars@.subrange(ranges@[k].0 as int, ranges@[k].1 as int),
        );
        assert(pieces(chars@, a, b) =~= before + seq![tail]);
        assert(before.len() == ranges@.len());
        assert forall|k: int| 0 <= k < ranges@.len() implies chars@.subrange(
            ranges@[k].0 as int,
            ranges@[k].1 as int,
        ) == pieces(chars@, a, b)[k] by {
            assert(before[k] == pieces(chars@, a, b)[k]);
        }
    }
    ranges.push((start, n));
    ranges
}

/// The digits of a number are digits, there is one of them at least, and
/// they spell the number.
pub proof fn lemma_digits_read_back(n: nat)
    ensures
        decimal_digits(n).len() > 0,
        all_digits(decimal_digits(n)),
        digits_value(decimal_digits(n)) == n,
        parse_unsigned(decimal_digits(n)) == Some(n),
    decreases n,
{
    let s = decimal_digits(n);
    if n < 10 {
        assert(s.drop_last() =~= Seq::<char>::empty());
        assert(digits_value(s.drop_last()) == 0);
        assert(s.last() == digit_char(n as int));
    } else {
        lemma_digits_read_back(n / 10);
        let head = decimal_digits(n / 10);
        assert(s.drop_last() =~= head);
        assert(s.last() == digit_char((n % 10) as int));
        assert forall|i: int| 0 <= i < s.len() implies is_digit(#[trigger] s[i]) by {
            if i < head.len() {
                assert(s[i] == head[i]);
            }
        }
    }
}

/// The decimal text of a 32-bit number spells that number.
pub proof fn lemma_decimal_reads_back(v: i32)
    ensures
        parse_i32(decimal_text(v as int)) == Some(v),
{
    let s = decimal_text(v as int);
    if v < 0 {
        let digits = decimal_digits((-v) as nat);
        lemma_digits_read_back((-v) as nat);
        assert(s[0] == '-');
        assert(s.drop_first() =~= digits);
    } else {
        lemma_digits_read_back(v as nat);
        assert(is_digit(s[0]));
    }
}

/// Whether `s` holds neither of the separators `a` and `b`.
pub open spec fn has_no_separator(s: Seq<char>, a: char, b: char) -> bool {
    forall|i: int| 0 <= i < s.len() ==> #[trigger] s[i] != a && s[i] != b
}

/// A text without separators is its own single piece.
pub proof fn lemma_pieces_of_plain(t: Seq<char>, a: char, b: char)
    requires
        has_no_separator(t, a, b),
    ensures
        pieces(t, a, b) == seq![t],
{
    lemma_first_separator(t, a, b, t.len() as int);
}

/// A separator and a text without separators, put behind `s`, add that text
/// to the pieces of `s` as one more piece.
pub proof fn lemma_pieces_append(s: Seq<char>, sep: char, t: Seq<char>, a: char, b: char)
    requires
        sep == a || sep == b,
        has_no_separator(t, a, b),
    ensures
        pieces(s + seq![sep] + t, a, b) == pieces(s, a, b).push(t),
    decreases s.len(),
{
    let whole = s + seq![sep] + t;
    let k = first_separator(s, a, b);
    lemma_first_separator_range(s, a, b);
    if k < s.len() {
        assert forall|i: int| 0 <= i < k implies whole[i] != a && whole[i] != b by {
            assert(whole[i] == s[i]);
        }
        assert(whole[k] == s[k]);
        lemma_first_separator(whole, a, b, k);
        assert(whole.take(k) =~= s.take(k));
        assert(whole.skip(k + 1) =~= s.skip(k + 1) + seq![sep] + t);
        lemma_pieces_append(s.skip(k + 1), sep, t, a, b);
        assert(pieces(whole, a, b) =~= pieces(s, a, b).push(t));
    } else {
        assert forall|i: int| 0 <= i < s.len() implies whole[i] != a && whole[i] != b by {
            assert(whole[i] == s[i]);
        }
        assert(whole[s.len() as int] == sep);
        lemma_first_separator(whole, a, b, s.len() as int);
        assert(whole.take(s.len() as int) =~= s);
        assert(whole.skip(s.len() as int + 1) =~= t);
        lemma_pieces_of_plain(t, a, b);
        assert(pieces(whole, a, b) =~= pieces(s, a, b).push(t));
    }
}

/// The first separator's position lies within the text or at its end, no
/// separator stands before it, and one stands at it unless the text ends
/// there.
pub proof fn lemma_first_separator_range(s: Seq<char>, a: char, b: char)
    ensures
        0 <= first_separator(s, a, b) <= s.len(),
        forall|i: int| 0 <= i < first_separator(s, a, b) ==> s[i] != a && s[i] != b,
        first_separator(s, a, b) < s.len() ==> s[first_separator(s, a, b)] == a || s[first_separator(
            s,
            a,
            b,
        )] == b,
    decreases s.len(),
{
    if s.len() > 0 && !(s[0] == a || s[0] == b) {
        let rest = s.drop_first();
        lemma_first_separator_range(rest, a, b);
        let k = first_separator(rest, a, b);
        assert forall|i: int| 0 <= i < k + 1 implies s[i] != a && s[i] != b by {
            if i > 0 {
                assert(s[i] == rest[i - 1]);
            }
        }
        if k < rest.len() {
            assert(s[k + 1] == rest[k]);
        }
    }
}

} // verus!
