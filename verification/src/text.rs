//! Text of line-oriented tool output: lines, surrounding white space and
//! unsigned decimal numbers, over sequences of characters.

use vstd::prelude::*;

verus! {

/// The end of a line.
pub const NEWLINE: char = '\n';

/// Whether a character is white space: one of the 25 characters that
/// Unicode gives the property `White_Space`.
pub open spec fn is_space(c: char) -> bool {
    let code = c as u32;
    ||| 0x09 <= code <= 0x0D
    ||| code == 0x20
    ||| code == 0x85
    ||| code == 0xA0
    ||| code == 0x1680
    ||| 0x2000 <= code <= 0x200A
    ||| code == 0x2028
    ||| code == 0x2029
    ||| code == 0x202F
    ||| code == 0x205F
    ||| code == 0x3000
}

/// Number of white-space characters at the start of `text`.
pub open spec fn leading_spaces(text: Seq<char>) -> nat
    decreases text.len(),
{
    if text.len() > 0 && is_space(text.first()) {
        1 + leading_spaces(text.drop_first())
    } else {
        0
    }
}

/// `text` without the white space at its start.
pub open spec fn trim_start(text: Seq<char>) -> Seq<char>
    decreases text.len(),
{
    if text.len() > 0 && is_space(text.first()) {
        trim_start(text.drop_first())
    } else {
        text
    }
}

/// `text` without the white space at its end.
pub open spec fn trim_end(text: Seq<char>) -> Seq<char>
    decreases text.len(),
{
    if text.len() > 0 && is_space(text.last()) {
        trim_end(text.drop_last())
    } else {
        text
    }
}

/// `text` without the white space at its start and at its end.
pub open spec fn trimmed(text: Seq<char>) -> Seq<char> {
    trim_end(trim_start(text))
}

/// Number of characters before the first `stop` in `text`, or in all of
/// `text` where it holds none.
pub open spec fn span_until(text: Seq<char>, stop: char) -> nat
    decreases text.len(),
{
    if text.len() == 0 || text.first() == stop {
        0
    } else {
        1 + span_until(text.drop_first(), stop)
    }
}

/// Number of characters before the first line end of `text`, or in all of
/// `text` where it has none.
pub open spec fn line_len(text: Seq<char>) -> nat {
    span_until(text, NEWLINE)
}

/// What follows the first line of `text` and its line end.
pub open spec fn after_line(text: Seq<char>) -> Seq<char> {
    if line_len(text) < text.len() {
        text.skip(line_len(text) as int + 1)
    } else {
        Seq::empty()
    }
}

/// Line `n` of `text`, counted from 0, without its line end. A line end at
/// the very end of `text` does not start another line.
pub open spec fn line(text: Seq<char>, n: nat) -> Option<Seq<char>>
    decreases n,
{
    if text.len() == 0 {
        None
    } else if n == 0 {
        Some(text.take(line_len(text) as int))
    } else {
        line(after_line(text), (n - 1) as nat)
    }
}

/// Whether a character is one of the digits `0` to `9`.
pub open spec fn is_digit(c: char) -> bool {
    '0' <= c <= '9'
}

/// Whether `text` consists of digits alone.
pub open spec fn all_digits(text: Seq<char>) -> bool {
    forall|i: int| 0 <= i < text.len() ==> is_digit(#[trigger] text[i])
}

/// The number that a sequence of digits denotes in decimal.
pub open spec fn decimal_value(digits: Seq<char>) -> nat
    decreases digits.len(),
{
    if digits.len() == 0 {
        0
    } else {
        (10 * decimal_value(digits.drop_last()) + (digits.last() as u32 - '0' as u32)) as nat
    }
}

/// The 32-bit unsigned number that `text` denotes: an optional `+`, then at
/// least one digit, with a value of at most `u32::MAX`; `None` for any other
/// text.
pub open spec fn parsed_u32(text: Seq<char>) -> Option<u32> {
    let digits = if text.len() > 0 && text.first() == '+' {
        text.drop_first()
    } else {
        text
    };
    if digits.len() > 0 && all_digits(digits) && decimal_value(digits) <= u32::MAX {
        Some(decimal_value(digits) as u32)
    } else {
        None
    }
}

/// The characters of a string.
pub fn chars_of(text: &str) -> (chars: Vec<char>)
    ensures
        chars@ == text@,
{
    let mut chars: Vec<char> = Vec::new();
    for c in it: text.chars()
        invariant
            it.seq() == text@,
            chars@ == it.seq().take(it.index()),
    {
        chars.push(c);
    }
    chars
}

/// Whether a character is white space.
pub fn is_whitespace(c: char) -> (space: bool)
    ensures
        space == is_space(c),
{
    let code = c as u32;
    (0x09 <= code && code <= 0x0D) || code == 0x20 || code == 0x85 || code == 0xA0 || code
        == 0x1680 || (0x2000 <= code && code <= 0x200A) || code == 0x2028 || code == 0x2029 || code
        == 0x202F || code == 0x205F || code == 0x3000
}

/// Trimming the start of a range that begins with white space is trimming
/// the range without its first character.
proof fn lemma_trim_start_step(text: Seq<char>, from: int, to: int)
    requires
        0 <= from < to <= text.len(),
        is_space(text[from]),
    ensures
        trim_start(text.subrange(from, to)) == trim_start(text.subrange(from + 1, to)),
        leading_spaces(text.subrange(from, to)) == 1 + leading_spaces(
            text.subrange(from + 1, to),
        ),
{
    assert(text.subrange(from, to).drop_first() == text.subrange(from + 1, to));
}

/// Trimming the end of a range that ends with white space is trimming the
/// range without its last character.
proof fn lemma_trim_end_step(text: Seq<char>, from: int, to: int)
    requires
        0 <= from < to <= text.len(),
        is_space(text[to - 1]),
    ensures
        trim_end(text.subrange(from, to)) == trim_end(text.subrange(from, to - 1)),
{
    assert(text.subrange(from, to).drop_last() == text.subrange(from, to - 1));
}

/// Finds the part of `text[from..to]` that is left when the white space at
/// its start and end is taken away.
pub fn trim_range(text: &[char], from: usize, to: usize) -> (range: (usize, usize))
    requires
        from <= to <= text@.len(),
    ensures
        from <= range.0 <= range.1 <= to,
        range.0 - from == leading_spaces(text@.subrange(from as int, to as int)),
        text@.subrange(range.0 as int, range.1 as int) == trimmed(
            text@.subrange(from as int, to as int),
        ),
{
    let mut start = from;
    while start < to && is_whitespace(text[start])
        invariant
            from <= start <= to <= text@.len(),
            trim_start(text@.subrange(from as int, to as int)) == trim_start(
                text@.subrange(start as int, to as int),
            ),
            leading_spaces(text@.subrange(from as int, to as int)) == (start - from)
                + leading_spaces(text@.subrange(start as int, to as int)),
        decreases to - start,
    {
        proof {
            lemma_trim_start_step(text@, start as int, to as int);
        }
        start += 1;
    }
    assert(trim_start(text@.subrange(start as int, to as int)) == text@.subrange(
        start as int,
        to as int,
    ));
    assert(leading_spaces(text@.subrange(start as int, to as int)) == 0);
    let mut end = to;
    while end > start && is_whitespace(text[end - 1])
        invariant
            start <= end <= to <= text@.len(),
            trim_end(text@.subrange(start as int, to as int)) == trim_end(
                text@.subrange(start as int, end as int),
            ),
        decreases end - start,
    {
        proof {
            lemma_trim_end_step(text@, start as int, end as int);
        }
        end -= 1;
    }
    (start, end)
}

/// The span up to a stop character, counted off one character at a time.
proof fn lemma_span_until_step(text: Seq<char>, stop: char, from: int, at: int)
    requires
        0 <= from <= at <= text.len(),
        forall|i: int| from <= i < at ==> text[i] != stop,
    ensures
        span_until(text.skip(from), stop) == (at - from) + span_until(text.skip(at), stop),
    decreases at - from,
{
    if from < at {
        assert(text.skip(from).drop_first() == text.skip(from + 1));
        lemma_span_until_step(text, stop, from + 1, at);
    }
}

/// Finds the first `stop` at or after `from`: its position, or the end of
/// the text where there is none.
pub fn find_char(text: &[char], from: usize, stop: char) -> (at: usize)
    requires
        from <= text@.len(),
    ensures
        from <= at <= text@.len(),
        at - from == span_until(text@.skip(from as int), stop),
        at < text@.len() ==> text@[at as int] == stop,
        forall|i: int| from <= i < at ==> text@[i] != stop,
{
    let mut at = from;
    while at < text.len() && text[at] != stop
        invariant
            from <= at <= text@.len(),
            forall|i: int| from <= i < at ==> text@[i] != stop,
        decreases text@.len() - at,
    {
        at += 1;
    }
    proof {
        lemma_span_until_step(text@, stop, from as int, at as int);
    }
    at
}

/// Finds the end of the line that starts at `from`: the position of the next
/// line end, or the end of the text.
pub fn line_end(text: &[char], from: usize) -> (end: usize)
    requires
        from <= text@.len(),
    ensures
        from <= end <= text@.len(),
        end - from == line_len(text@.skip(from as int)),
        end < text@.len() ==> text@[end as int] == NEWLINE,
{
    find_char(text, from, NEWLINE)
}

/// The value of digits is at least the value of any prefix of them.
proof fn lemma_decimal_value_grows(digits: Seq<char>, prefix: int)
    requires
        0 <= prefix <= digits.len(),
        all_digits(digits),
    ensures
        decimal_value(digits.take(prefix)) <= decimal_value(digits),
    decreases digits.len() - prefix,
{
    if prefix < digits.len() {
        let longer = digits.take(prefix + 1);
        assert(longer.drop_last() == digits.take(prefix));
        assert(is_digit(digits[prefix]));
        assert(longer.last() == digits[prefix]);
        lemma_decimal_value_grows(digits, prefix + 1);
    } else {
        assert(digits.take(prefix) == digits);
    }
}

/// Reads `text[from..to]` as a 32-bit unsigned decimal number.
pub fn parse_u32_range(text: &[char], from: usize, to: usize) -> (value: Option<u32>)
    requires
        from <= to <= text@.len(),
    ensures
        value == parsed_u32(text@.subrange(from as int, to as int)),
{
    let ghost whole = text@.subrange(from as int, to as int);
    let first = if from < to && text[from] == '+' {
        from + 1
    } else {
        from
    };
    let ghost digits = text@.subrange(first as int, to as int);
    proof {
        if first > from {
            assert(whole.drop_first() == digits);
        } else {
            assert(whole == digits);
        }
    }
    if first == to {
        return None;
    }
    let mut value: u64 = 0;
    let mut at = first;
    while at < to
        invariant
            first <= at <= to <= text@.len(),
            first < to,
            whole == text@.subrange(from as int, to as int),
            digits == text@.subrange(first as int, to as int),
            digits == if whole.len() > 0 && whole.first() == '+' {
                whole.drop_first()
            } else {
                whole
            },
            all_digits(digits.take(at - first)),
            value == decimal_value(digits.take(at - first)),
            value <= u32::MAX,
        decreases to - at,
    {
        let c = text[at];
        let ghost seen = digits.take(at - first);
        let ghost longer = digits.take(at - first + 1);
        proof {
            assert(longer.drop_last() == seen);
            assert(longer.last() == c);
        }
        if c < '0' || c > '9' {
            assert(!is_digit(digits[at - first]));
            return None;
        }
        assert(all_digits(longer));
        let next = 10 * value + (c as u32 - '0' as u32) as u64;
        assert(next == decimal_value(longer));
        if next > u32::MAX as u64 {
            proof {
                if all_digits(digits) {
                    lemma_decimal_value_grows(digits, at - first + 1);
                }
            }
            return None;
        }
        value = next;
        at += 1;
    }
    assert(digits.take(to - first) == digits);
    Some(value as u32)
}

/// Reads `text` as a 32-bit unsigned decimal number.
pub fn parse_u32(text: &[char]) -> (value: Option<u32>)
    ensures
        value == parsed_u32(text@),
{
    assert(text@.subrange(0, text@.len() as int) == text@);
    parse_u32_range(text, 0, text.len())
}

} // verus!
