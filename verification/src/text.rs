//! Text: lines, white space and decimal numbers, on sequences of characters.

use vstd::prelude::*;

verus! {

/// `String::push` of the standard library: it appends the character to the end of the
/// string.
pub assume_specification[ String::push ](s: &mut String, c: char)
    ensures
        final(s)@ == old(s)@.push(c),
;

/// The characters of `text`.
pub fn chars_of(text: &str) -> (chars: Vec<char>)
    ensures
        chars@ == text@,
{
    let mut chars: Vec<char> = Vec::new();
    for c in iter: text.chars()
        invariant
            chars@ == text@.take(iter.index()),
            iter.seq() == text@,
    {
        chars.push(c);
    }
    chars
}

/// The string of `chars`.
pub fn string_of(chars: &[char]) -> (text: String)
    ensures
        text@ == chars@,
{
    let mut text = String::new();
    for i in 0..chars.len()
        invariant
            text@ == chars@.take(i as int),
    {
        text.push(chars[i]);
        assert(text@ =~= chars@.take(i + 1));
    }
    assert(chars@.take(chars@.len() as int) =~= chars@);
    text
}

/// The characters with the Unicode property `White_Space`.
pub open spec fn white_space(c: char) -> bool {
    ||| '\u{0009}' <= c <= '\u{000D}'
    ||| c == '\u{0020}'
    ||| c == '\u{0085}'
    ||| c == '\u{00A0}'
    ||| c == '\u{1680}'
    ||| '\u{2000}' <= c <= '\u{200A}'
    ||| c == '\u{2028}'
    ||| c == '\u{2029}'
    ||| c == '\u{202F}'
    ||| c == '\u{205F}'
    ||| c == '\u{3000}'
}

/// Is `c` white space?
pub fn is_white_space(c: char) -> (white: bool)
    ensures
        white == white_space(c),
{
    ('\u{0009}' <= c && c <= '\u{000D}') || c == '\u{0020}' || c == '\u{0085}' || c == '\u{00A0}'
        || c == '\u{1680}' || ('\u{2000}' <= c && c <= '\u{200A}') || c == '\u{2028}' || c
        == '\u{2029}' || c == '\u{202F}' || c == '\u{205F}' || c == '\u{3000}'
}

/// `s` without the white space at its start.
pub open spec fn trimmed_start(s: Seq<char>) -> Seq<char>
    decreases s.len(),
{
    if s.len() > 0 && white_space(s.first()) {
        trimmed_start(s.drop_first())
    } else {
        s
    }
}

/// `s` without the white space at its end.
pub open spec fn trimmed_end(s: Seq<char>) -> Seq<char>
    decreases s.len(),
{
    if s.len() > 0 && white_space(s.last()) {
        trimmed_end(s.drop_last())
    } else {
        s
    }
}

/// `s` without the white space at its start and end.
pub open spec fn trimmed(s: Seq<char>) -> Seq<char> {
    trimmed_end(trimmed_start(s))
}

/// Is all of `s` white space?
pub open spec fn blank(s: Seq<char>) -> bool {
    forall|i: int| 0 <= i < s.len() ==> white_space(#[trigger] s[i])
}

/// `chars` without the white space at its start and end.
pub fn trim(chars: &[char]) -> (kept: Vec<char>)
    ensures
        kept@ == trimmed(chars@),
{
    let n: usize = chars.len();
    let mut start: usize = 0;
    assert(chars@.skip(0) =~= chars@);
    while start < n && is_white_space(chars[start])
        invariant
            n == chars@.len(),
            start <= n,
            trimmed_start(chars@.skip(start as int)) == trimmed_start(chars@),
        decreases n - start,
    {
        assert(chars@.skip(start as int).drop_first() =~= chars@.skip(start + 1));
        start = start + 1;
    }
    let ghost rest = chars@.skip(start as int);
    assert(trimmed_start(chars@) == rest);
    let mut end: usize = n;
    assert(chars@.subrange(start as int, n as int) =~= rest);
    while start < end && is_white_space(chars[end - 1])
        invariant
            n == chars@.len(),
            start <= end <= n,
            trimmed_end(chars@.subrange(start as int, end as int)) == trimmed_end(rest),
        decreases end,
    {
        assert(chars@.subrange(start as int, end as int).drop_last() =~= chars@.subrange(
            start as int,
            end - 1,
        ));
        end = end - 1;
    }
    let ghost middle = chars@.subrange(start as int, end as int);
    assert(trimmed(chars@) == middle);
    part(chars, start, end)
}

/// Trimming takes white space off both ends and nothing else: what is left starts and ends
/// with a character that is not white space, or is empty.
pub proof fn law_trim_takes_white_space_off(s: Seq<char>)
    ensures
        exists|before: Seq<char>, after: Seq<char>|
            #![trigger blank(before), blank(after)]
            blank(before) && blank(after) && s == before + trimmed(s) + after,
        trimmed(s).len() > 0 ==> !white_space(trimmed(s).first()) && !white_space(trimmed(s).last()),
{
    let before = lemma_trimmed_start(s);
    let rest = trimmed_start(s);
    let after = lemma_trimmed_end(rest);
    assert(before + (trimmed(s) + after) =~= before + trimmed(s) + after);
    if trimmed(s).len() > 0 {
        assert(trimmed(s).first() == rest.first());
    }
}

proof fn lemma_trimmed_start(s: Seq<char>) -> (before: Seq<char>)
    ensures
        blank(before),
        s == before + trimmed_start(s),
        trimmed_start(s).len() > 0 ==> !white_space(trimmed_start(s).first()),
    decreases s.len(),
{
    if s.len() > 0 && white_space(s.first()) {
        let rest = lemma_trimmed_start(s.drop_first());
        let before = seq![s.first()] + rest;
        let t = trimmed_start(s);
        assert(s =~= seq![s.first()] + s.drop_first());
        assert(seq![s.first()] + (rest + t) =~= before + t);
        before
    } else {
        assert(s =~= Seq::<char>::empty() + s);
        Seq::empty()
    }
}

proof fn lemma_trimmed_end(s: Seq<char>) -> (after: Seq<char>)
    ensures
        blank(after),
        s == trimmed_end(s) + after,
        trimmed_end(s).len() > 0 ==> !white_space(trimmed_end(s).last()),
    decreases s.len(),
{
    if s.len() > 0 && white_space(s.last()) {
        let rest = lemma_trimmed_end(s.drop_last());
        let after = rest.push(s.last());
        let t = trimmed_end(s);
        assert(s =~= s.drop_last().push(s.last()));
        assert((t + rest).push(s.last()) =~= t + after);
        after
    } else {
        assert(s =~= s + Seq::<char>::empty());
        Seq::empty()
    }
}

/// The pieces of `s` between its line feeds.
pub open spec fn split_lines(s: Seq<char>) -> Seq<Seq<char>>
    decreases s.len(),
{
    if s.len() == 0 {
        seq![Seq::empty()]
    } else {
        let pieces = split_lines(s.drop_last());
        if s.last() == '\n' {
            pieces.push(Seq::empty())
        } else {
            pieces.update(pieces.len() - 1, pieces.last().push(s.last()))
        }
    }
}

/// `pieces` joined by line feeds.
pub open spec fn join_lines(pieces: Seq<Seq<char>>) -> Seq<char>
    decreases pieces.len(),
{
    if pieces.len() == 0 {
        Seq::empty()
    } else if pieces.len() == 1 {
        pieces[0]
    } else {
        join_lines(pieces.drop_last()).push('\n') + pieces.last()
    }
}

/// Splitting is undone by joining: the pieces hold all of the text, in order, and no line
/// feed.
pub proof fn law_split_then_join(s: Seq<char>)
    ensures
        split_lines(s).len() > 0,
        join_lines(split_lines(s)) == s,
        forall|i: int| 0 <= i < split_lines(s).len() ==> !(#[trigger] split_lines(s)[i]).contains('\n'),
    decreases s.len(),
{
    if s.len() == 0 {
        assert(join_lines(split_lines(s)) =~= s);
    } else {
        let init = s.drop_last();
        let c = s.last();
        law_split_then_join(init);
        let pieces = split_lines(init);
        let all = split_lines(s);
        if c == '\n' {
            assert(all.drop_last() =~= pieces);
            assert(join_lines(all) =~= s);
        } else {
            assert(all.drop_last() =~= pieces.drop_last());
            if pieces.len() == 1 {
                assert(join_lines(all) =~= s);
            } else {
                let head = join_lines(pieces.drop_last()).push('\n');
                assert(head + pieces.last().push(c) =~= (head + pieces.last()).push(c));
                assert(join_lines(all) =~= s);
            }
            assert forall|i: int| 0 <= i < all.len() implies !(#[trigger] all[i]).contains('\n') by {
                if i == all.len() - 1 {
                    let grown = pieces.last().push(c);
                    assert(!pieces[pieces.len() - 1].contains('\n'));
                    assert forall|k: int| 0 <= k < grown.len() implies grown[k] != '\n' by {
                        if k < pieces.last().len() {
                            assert(pieces.last()[k] == grown[k]);
                        }
                    }
                } else {
                    assert(all[i] == pieces[i]);
                }
            }
        }
    }
}

/// Why a text is not a decimal number.
#[derive(Debug, Clone, Copy, PartialEq, Eq, Structural)]
pub enum NumberError {
    /// There is nothing to read.
    Empty,
    /// A character is not a digit.
    InvalidDigit,
    /// The number is too large.
    Overflow,
}

/// Is `c` a decimal digit?
pub open spec fn is_digit(c: char) -> bool {
    '0' <= c <= '9'
}

/// The value of the decimal digit `c`.
pub open spec fn digit_value(c: char) -> int {
    c as int - '0' as int
}

/// The value of the digits `s`, at most `max`, read from left to right: the first character
/// that is no digit, or that makes the number too large, is what is wrong with it.
pub open spec fn digits_value(s: Seq<char>, max: int) -> Result<int, NumberError>
    decreases s.len(),
{
    if s.len() == 0 {
        Ok(0)
    } else {
        match digits_value(s.drop_last(), max) {
            Err(error) => Err(error),
            Ok(value) => if !is_digit(s.last()) {
                Err(NumberError::InvalidDigit)
            } else if value * 10 + digit_value(s.last()) > max {
                Err(NumberError::Overflow)
            } else {
                Ok(value * 10 + digit_value(s.last()))
            },
        }
    }
}

/// The unsigned number that `s` writes, at most `max`: one digit or more, and a plus sign
/// may stand before them.
pub open spec fn number_value(s: Seq<char>, max: int) -> Result<int, NumberError> {
    if s.len() == 0 {
        Err(NumberError::Empty)
    } else if s.first() != '+' {
        digits_value(s, max)
    } else if s.len() == 1 {
        Err(NumberError::InvalidDigit)
    } else {
        digits_value(s.drop_first(), max)
    }
}

/// The value of a digit.
fn digit_of(c: char) -> (digit: Option<usize>)
    ensures
        match digit {
            Some(d) => is_digit(c) && d == digit_value(c),
            None => !is_digit(c),
        },
{
    if '0' <= c && c <= '9' {
        let code: u32 = c as u32;
        Some((code - 48) as usize)
    } else {
        None
    }
}

/// Read an unsigned number of at most `max`.
pub fn parse_number(chars: &[char], max: usize) -> (number: Result<usize, NumberError>)
    ensures
        match number {
            Ok(n) => number_value(chars@, max as int) == Ok::<int, NumberError>(n as int),
            Err(e) => number_value(chars@, max as int) == Err::<int, NumberError>(e),
        },
{
    let n: usize = chars.len();
    if n == 0 {
        return Err(NumberError::Empty);
    }
    let start: usize = if chars[0] == '+' {
        1
    } else {
        0
    };
    if start == n {
        return Err(NumberError::InvalidDigit);
    }
    let ghost digits = chars@.skip(start as int);
    proof {
        assert(chars@.skip(0) =~= chars@);
        assert(chars@.skip(1) =~= chars@.drop_first());
        assert(digits.take(0) =~= Seq::empty());
    }
    let mut value: usize = 0;
    for i in start..n
        invariant
            start <= i <= n,
            n == chars@.len(),
            digits == chars@.skip(start as int),
            number_value(chars@, max as int) == digits_value(digits, max as int),
            value <= max,
            digits_value(digits.take(i - start), max as int) == Ok::<int, NumberError>(value as int),
    {
        proof {
            assert(digits.take(i - start + 1).drop_last() =~= digits.take(i - start));
            assert(digits.take(i - start + 1).last() == chars@[i as int]);
        }
        match digit_of(chars[i]) {
            None => {
                proof {
                    lemma_digits_error(digits, i - start + 1, max as int);
                }
                return Err(NumberError::InvalidDigit);
            },
            Some(d) => {
                if max < d || value > (max - d) / 10 {
                    proof {
                        assert(value * 10 + d > max);
                        lemma_digits_error(digits, i - start + 1, max as int);
                    }
                    return Err(NumberError::Overflow);
                }
                value = value * 10 + d;
            },
        }
    }
    assert(digits.take(n - start) =~= digits);
    Ok(value)
}

/// What is wrong with a prefix is wrong with the whole.
proof fn lemma_digits_error(s: Seq<char>, k: int, max: int)
    requires
        0 <= k <= s.len(),
        digits_value(s.take(k), max) is Err,
    ensures
        digits_value(s, max) == digits_value(s.take(k), max),
    decreases s.len(),
{
    if k == s.len() {
        assert(s.take(k) =~= s);
    } else {
        assert(s.drop_last().take(k) =~= s.take(k));
        lemma_digits_error(s.drop_last(), k, max);
    }
}

/// A number that was read is within its bounds.
pub proof fn lemma_digits_bounds(s: Seq<char>, max: int)
    requires
        0 <= max,
    ensures
        digits_value(s, max) matches Ok(n) ==> 0 <= n <= max,
    decreases s.len(),
{
    if s.len() > 0 {
        lemma_digits_bounds(s.drop_last(), max);
    }
}

/// The number that the digits `s` write in the decimal system.
pub open spec fn decimal(s: Seq<char>) -> int
    decreases s.len(),
{
    if s.len() == 0 {
        0
    } else {
        decimal(s.drop_last()) * 10 + digit_value(s.last())
    }
}

/// Reading digits gives their decimal value if it is at most `max`, and is an overflow if
/// it is more.
pub proof fn law_digits_are_decimal(s: Seq<char>, max: int)
    requires
        0 <= max,
        forall|i: int| 0 <= i < s.len() ==> is_digit(#[trigger] s[i]),
    ensures
        digits_value(s, max) == (if decimal(s) <= max {
            Ok::<int, NumberError>(decimal(s))
        } else {
            Err(NumberError::Overflow)
        }),
        decimal(s) >= 0,
    decreases s.len(),
{
    if s.len() > 0 {
        let init = s.drop_last();
        assert forall|i: int| 0 <= i < init.len() implies is_digit(#[trigger] init[i]) by {
            assert(init[i] == s[i]);
        }
        assert(is_digit(s[s.len() - 1]));
        law_digits_are_decimal(init, max);
    }
}

/// Does `chars` start with `prefix`?
pub fn starts_with(chars: &[char], prefix: &str) -> (yes: bool)
    ensures
        yes == prefix@.is_prefix_of(chars@),
{
    let wanted: Vec<char> = chars_of(prefix);
    if chars.len() < wanted.len() {
        return false;
    }
    for i in 0..wanted.len()
        invariant
            wanted@ == prefix@,
            wanted@.len() <= chars@.len(),
            forall|j: int| 0 <= j < i ==> wanted@[j] == chars@[j],
    {
        if chars[i] != wanted[i] {
            return false;
        }
    }
    assert(prefix@ =~= chars@.subrange(0, prefix@.len() as int));
    true
}

/// The part of `chars` from `from` up to `to`.
pub fn part(chars: &[char], from: usize, to: usize) -> (piece: Vec<char>)
    requires
        from <= to <= chars@.len(),
    ensures
        piece@ == chars@.subrange(from as int, to as int),
{
    let mut piece: Vec<char> = Vec::new();
    for i in from..to
        invariant
            from <= i <= to,
            to <= chars@.len(),
            piece@ == chars@.subrange(from as int, i as int),
    {
        piece.push(chars[i]);
        assert(piece@ =~= chars@.subrange(from as int, i + 1));
    }
    piece
}

/// The index of the first `c` in `s`, or the length of `s` if there is none.
pub open spec fn first_of(s: Seq<char>, c: char) -> int
    decreases s.len(),
{
    if s.len() == 0 || s.first() == c {
        0
    } else {
        1 + first_of(s.drop_first(), c)
    }
}

/// The index of the last `c` in `s`, or -1 if there is none.
pub open spec fn last_of(s: Seq<char>, c: char) -> int
    decreases s.len(),
{
    if s.len() == 0 {
        -1
    } else if s.last() == c {
        s.len() - 1
    } else {
        last_of(s.drop_last(), c)
    }
}

/// `first_of` is the only index that has no `c` before it and either holds `c` or is the
/// end.
pub proof fn lemma_first_of(s: Seq<char>, c: char, i: int)
    requires
        0 <= i <= s.len(),
        i < s.len() ==> s[i] == c,
        forall|j: int| 0 <= j < i ==> #[trigger] s[j] != c,
    ensures
        first_of(s, c) == i,
    decreases s.len(),
{
    if s.len() > 0 && i > 0 {
        assert(s[0] != c);
        let rest = s.drop_first();
        assert forall|j: int| 0 <= j < i - 1 implies #[trigger] rest[j] != c by {
            assert(rest[j] == s[j + 1]);
        }
        lemma_first_of(rest, c, i - 1);
    }
}

/// `last_of` is the only index that has no `c` behind it and either holds `c` or is -1.
pub proof fn lemma_last_of(s: Seq<char>, c: char, i: int)
    requires
        -1 <= i < s.len(),
        i >= 0 ==> s[i] == c,
        forall|j: int| i < j < s.len() ==> #[trigger] s[j] != c,
    ensures
        last_of(s, c) == i,
    decreases s.len(),
{
    if s.len() > 0 && i < s.len() - 1 {
        assert(s[s.len() - 1] != c);
        let init = s.drop_last();
        assert forall|j: int| i < j < init.len() implies #[trigger] init[j] != c by {
            assert(init[j] == s[j]);
        }
        lemma_last_of(init, c, i);
    }
}

/// Find the first `c`, or the end.
pub fn find_first(chars: &[char], c: char) -> (i: usize)
    ensures
        i == first_of(chars@, c),
        i <= chars@.len(),
{
    for i in 0..chars.len()
        invariant
            forall|j: int| 0 <= j < i ==> #[trigger] chars@[j] != c,
    {
        if chars[i] == c {
            proof {
                lemma_first_of(chars@, c, i as int);
            }
            return i;
        }
    }
    proof {
        lemma_first_of(chars@, c, chars@.len() as int);
    }
    chars.len()
}

/// Find the last `c`.
pub fn find_last(chars: &[char], c: char) -> (i: Option<usize>)
    ensures
        match i {
            Some(i) => i == last_of(chars@, c) && i < chars@.len(),
            None => last_of(chars@, c) == -1,
        },
{
    let mut i: usize = chars.len();
    while i > 0
        invariant
            i <= chars@.len(),
            forall|j: int| i <= j < chars@.len() ==> #[trigger] chars@[j] != c,
        decreases i,
    {
        i = i - 1;
        if chars[i] == c {
            proof {
                lemma_last_of(chars@, c, i as int);
            }
            return Some(i);
        }
    }
    proof {
        lemma_last_of(chars@, c, -1);
    }
    None
}

/// Is `chars` the text `text`?
pub fn is_text(chars: &[char], text: &str) -> (same: bool)
    ensures
        same == (chars@ == text@),
{
    let wanted: Vec<char> = chars_of(text);
    if chars.len() != wanted.len() {
        return false;
    }
    for i in 0..wanted.len()
        invariant
            wanted@ == text@,
            wanted@.len() == chars@.len(),
            forall|j: int| 0 <= j < i ==> wanted@[j] == chars@[j],
    {
        if chars[i] != wanted[i] {
            return false;
        }
    }
    assert(chars@ =~= text@);
    true
}

/// White space around a text comes off, whatever the text holds inside.
pub proof fn law_trim_finds_the_text(before: Seq<char>, s: Seq<char>, after: Seq<char>)
    requires
        blank(before),
        blank(after),
        s.len() > 0 ==> !white_space(s.first()) && !white_space(s.last()),
    ensures
        trimmed(before + s + after) == s,
{
    lemma_start_comes_off(before, s + after);
    assert(before + s + after =~= before + (s + after));
    if s.len() > 0 {
        assert((s + after).first() == s.first());
        assert(trimmed_start(s + after) == s + after);
        lemma_end_comes_off(s, after);
    } else {
        assert(s + after =~= after);
        lemma_start_comes_off(after, Seq::empty());
        assert(after + Seq::<char>::empty() =~= after);
        assert(trimmed(before + s + after) =~= s);
    }
}

proof fn lemma_start_comes_off(before: Seq<char>, s: Seq<char>)
    requires
        blank(before),
    ensures
        trimmed_start(before + s) == trimmed_start(s),
    decreases before.len(),
{
    if before.len() == 0 {
        assert(before + s =~= s);
    } else {
        let rest = before.drop_first();
        assert forall|i: int| 0 <= i < rest.len() implies white_space(#[trigger] rest[i]) by {
            assert(rest[i] == before[i + 1]);
        }
        lemma_start_comes_off(rest, s);
        assert(white_space(before[0]));
        assert((before + s).drop_first() =~= rest + s);
    }
}

proof fn lemma_end_comes_off(s: Seq<char>, after: Seq<char>)
    requires
        blank(after),
    ensures
        trimmed_end(s + after) == trimmed_end(s),
    decreases after.len(),
{
    if after.len() == 0 {
        assert(s + after =~= s);
    } else {
        let rest = after.drop_last();
        assert forall|i: int| 0 <= i < rest.len() implies white_space(#[trigger] rest[i]) by {
            assert(rest[i] == after[i]);
        }
        lemma_end_comes_off(s, rest);
        assert(white_space(after[after.len() - 1]));
        assert((s + after).drop_last() =~= s + rest);
    }
}

/// The digits are the ten from `0` on, worth zero to nine.
pub proof fn law_digits_count_from_zero(c: char)
    ensures
        is_digit(c) <==> 48 <= c as int <= 57,
        is_digit(c) ==> c as int == 48 + digit_value(c),
{
}

/// What is wrong with a number is what comes first: digits that are too many for the limit make
/// it an overflow, whatever follows, and a character that is no digit makes it invalid as long
/// as the digits before are within the limit.
pub proof fn law_first_fault_counts(digits: Seq<char>, rest: Seq<char>, max: int)
    requires
        0 <= max,
        forall|i: int| 0 <= i < digits.len() ==> is_digit(#[trigger] digits[i]),
    ensures
        decimal(digits) > max ==> digits_value(digits + rest, max) == Err::<int, NumberError>(
            NumberError::Overflow,
        ),
        decimal(digits) <= max && rest.len() > 0 && !is_digit(rest[0]) ==> digits_value(
            digits + rest,
            max,
        ) == Err::<int, NumberError>(NumberError::InvalidDigit),
{
    law_digits_are_decimal(digits, max);
    let s = digits + rest;
    let n = digits.len() as int;
    assert(s.take(n) =~= digits);
    if decimal(digits) > max {
        lemma_digits_error(s, n, max);
    } else if rest.len() > 0 && !is_digit(rest[0]) {
        assert(s.take(n + 1).drop_last() =~= digits);
        assert(s.take(n + 1).last() == rest[0]);
        lemma_digits_error(s, n + 1, max);
    }
}

/// A number needs a digit: a plus sign before the digits changes nothing, but neither a plus sign
/// alone nor no text at all is a number.
pub proof fn law_plus_sign_changes_nothing(s: Seq<char>, max: int)
    ensures
        s.len() == 0 ==> number_value(s, max) == Err::<int, NumberError>(NumberError::Empty),
        s.len() == 0 ==> number_value(seq!['+'] + s, max) == Err::<int, NumberError>(
            NumberError::InvalidDigit,
        ),
        s.len() > 0 ==> number_value(seq!['+'] + s, max) == digits_value(s, max),
        s.len() > 0 && s[0] != '+' ==> number_value(s, max) == digits_value(s, max),
{
    assert((seq!['+'] + s).drop_first() =~= s);
}

} // verus!
