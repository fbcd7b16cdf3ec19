//! The move validator: from a line of text to a cell that may be claimed.

use crate::cell_list::holds;
use vstd::prelude::*;

verus! {

/// Why a line of input names no cell that can be claimed.
#[derive(Clone, Copy, Debug, PartialEq, Eq, Structural)]
pub enum ValidationError {
    /// The input is not a decimal integer.
    NotANumber,
    /// The input is an integer outside 1 to 9.
    OutOfRange,
    /// The cell has been claimed before.
    AlreadyTaken,
}

/// Whether `c` is white space: a code point with the Unicode property
/// `White_Space`.
pub open spec fn is_space(c: char) -> bool {
    let u = c as u32;
    ||| 0x09 <= u <= 0x0D
    ||| u == 0x20
    ||| u == 0x85
    ||| u == 0xA0
    ||| u == 0x1680
    ||| 0x2000 <= u <= 0x200A
    ||| u == 0x2028
    ||| u == 0x2029
    ||| u == 0x202F
    ||| u == 0x205F
    ||| u == 0x3000
}

/// Whether `c` is one of the digits `0` to `9`.
pub open spec fn is_digit(c: char) -> bool {
    0x30 <= c as u32 <= 0x39
}

/// The number that the digit `c` stands for.
pub open spec fn digit_value(c: char) -> nat {
    (c as u32 - 0x30) as nat
}

/// `text` without the white space at its start.
pub open spec fn trim_start(text: Seq<char>) -> Seq<char>
    decreases text.len(),
{
    if text.len() > 0 && is_space(text[0]) {
        trim_start(text.drop_first())
    } else {
        text
    }
}

/// `text` without the white space at its end.
pub open spec fn trim_end(text: Seq<char>) -> Seq<char>
    decreases text.len(),
{
    if text.len() > 0 && is_space(text.last()) {
        trim_end(text.drop_last())
    } else {
        text
    }
}

/// `text` without the white space at either end.
pub open spec fn trimmed(text: Seq<char>) -> Seq<char> {
    trim_end(trim_start(text))
}

/// The number that a string of digits denotes in base ten.
pub open spec fn decimal_value(digits: Seq<char>) -> nat
    decreases digits.len(),
{
    if digits.len() == 0 {
        0
    } else {
        10 * decimal_value(digits.drop_last()) + digit_value(digits.last())
    }
}

/// Whether `text` is one or more digits and nothing else.
pub open spec fn all_digits(text: Seq<char>) -> bool {
    text.len() > 0 && forall|i: int| 0 <= i < text.len() ==> is_digit(#[trigger] text[i])
}

/// Whether `text` starts with a sign.
pub open spec fn is_signed(text: Seq<char>) -> bool {
    text.len() > 0 && (text[0] == '+' || text[0] == '-')
}

/// The integer that a string of digits denotes under a sign, `None` where
/// it is not one or more digits.
pub open spec fn signed_value(digits: Seq<char>, negative: bool) -> Option<int> {
    if !all_digits(digits) {
        None
    } else if negative {
        Some(-(decimal_value(digits) as int))
    } else {
        Some(decimal_value(digits) as int)
    }
}

/// The integer that `text` denotes: white space at either end is ignored,
/// what is left is an optional sign and then one or more decimal digits, of
/// any length. `None` where `text` has another form.
pub open spec fn integer_value(text: Seq<char>) -> Option<int> {
    let body = trimmed(text);
    if is_signed(body) {
        signed_value(body.drop_first(), body[0] == '-')
    } else {
        signed_value(body, false)
    }
}

/// The verdict on a line of input, given the cells still empty.
pub open spec fn validation(input: Seq<char>, remaining: Seq<u8>) -> Result<u8, ValidationError> {
    match integer_value(input) {
        None => Err(ValidationError::NotANumber),
        Some(n) => if !(1 <= n <= 9) {
            Err(ValidationError::OutOfRange)
        } else if !remaining.contains(n as u8) {
            Err(ValidationError::AlreadyTaken)
        } else {
            Ok(n as u8)
        },
    }
}

/// Whether `c` is white space.
fn char_is_space(c: char) -> (space: bool)
    ensures
        space == is_space(c),
{
    let u: u32 = c as u32;
    (0x09 <= u && u <= 0x0D) || u == 0x20 || u == 0x85 || u == 0xA0 || u == 0x1680 || (0x2000 <= u
        && u <= 0x200A) || u == 0x2028 || u == 0x2029 || u == 0x202F || u == 0x205F || u == 0x3000
}

/// The characters of `text`, one by one.
fn chars_of(text: &str) -> (chars: Vec<char>)
    ensures
        chars@ == text@,
{
    let mut chars: Vec<char> = Vec::new();
    for c in it: text.chars()
        invariant
            chars@ == it.seq().take(it.index()),
            it.seq() == text@,
    {
        chars.push(c);
    }
    chars
}

/// Skipping leading white space yields `trim_start`.
proof fn lemma_trim_start(text: Seq<char>, from: int)
    requires
        0 <= from <= text.len(),
        forall|i: int| 0 <= i < from ==> is_space(#[trigger] text[i]),
        from < text.len() ==> !is_space(text[from]),
    ensures
        trim_start(text) == text.skip(from),
    decreases from,
{
    if from > 0 {
        let rest = text.drop_first();
        assert forall|i: int| 0 <= i < from - 1 implies is_space(#[trigger] rest[i]) by {
            assert(rest[i] == text[i + 1]);
        }
        lemma_trim_start(rest, from - 1);
        assert(rest.skip(from - 1) == text.skip(from));
    } else {
        assert(text.skip(0) == text);
    }
}

/// Dropping trailing white space yields `trim_end`.
proof fn lemma_trim_end(text: Seq<char>, to: int)
    requires
        0 <= to <= text.len(),
        forall|i: int| to <= i < text.len() ==> is_space(#[trigger] text[i]),
        0 < to ==> !is_space(text[to - 1]),
    ensures
        trim_end(text) == text.take(to),
    decreases text.len() - to,
{
    if to < text.len() {
        let rest = text.drop_last();
        lemma_trim_end(rest, to);
        assert(rest.take(to) == text.take(to));
    } else {
        assert(text.take(to) == text);
    }
}

/// The cell that `raw_input` asks for, if it may be claimed.
///
/// The input is read as a decimal integer, white space around it ignored.
/// It is refused as `NotANumber` where it is no integer, as `OutOfRange`
/// where the integer is not one of 1 to 9, and as `AlreadyTaken` where the
/// cell is not among `remaining`. Nothing is changed either way.
pub fn validate(raw_input: &str, remaining: &[u8]) -> (verdict: Result<u8, ValidationError>)
    ensures
        verdict == validation(raw_input@, remaining@),
{
    let chars = chars_of(raw_input);
    let mut start: usize = 0;
    while start < chars.len() && char_is_space(chars[start])
        invariant
            start <= chars.len(),
            forall|i: int| 0 <= i < start ==> is_space(#[trigger] chars@[i]),
        decreases chars.len() - start,
    {
        start = start + 1;
    }
    let mut end: usize = chars.len();
    while end > start && char_is_space(chars[end - 1])
        invariant
            start <= end <= chars.len(),
            forall|i: int| end <= i < chars.len() ==> is_space(#[trigger] chars@[i]),
        decreases end,
    {
        end = end - 1;
    }
    let ghost body = chars@.subrange(start as int, end as int);
    proof {
        lemma_trim_start(chars@, start as int);
        let tail = chars@.skip(start as int);
        assert forall|i: int| end - start <= i < tail.len() implies is_space(
            #[trigger] tail[i],
        ) by {
            assert(tail[i] == chars@[i + start]);
        }
        lemma_trim_end(tail, end - start);
        assert(tail.take(end - start) == body);
        assert(trimmed(raw_input@) == body);
    }
    let mut negative: bool = false;
    let mut at: usize = start;
    if at < end && (chars[at] == '+' || chars[at] == '-') {
        negative = chars[at] == '-';
        at = at + 1;
    }
    let ghost digits = chars@.subrange(at as int, end as int);
    proof {
        if is_signed(body) {
            assert(body.drop_first() == digits);
        } else {
            assert(body == digits);
        }
    }
    assert(integer_value(raw_input@) == signed_value(digits, negative));
    if at == end {
        return Err(ValidationError::NotANumber);
    }
    // The value so far, with everything from ten up counted as ten.
    let mut value: u8 = 0;
    let mut i: usize = at;
    while i < end
        invariant
            at <= i <= end <= chars.len(),
            digits == chars@.subrange(at as int, end as int),
            integer_value(raw_input@) == signed_value(digits, negative),
            forall|j: int| 0 <= j < i - at ==> is_digit(#[trigger] digits[j]),
            value <= 10,
            value < 10 ==> value == decimal_value(digits.take(i - at)),
            value == 10 ==> decimal_value(digits.take(i - at)) >= 10,
        decreases end - i,
    {
        let u: u32 = chars[i] as u32;
        if !(0x30 <= u && u <= 0x39) {
            proof {
                assert(digits[i - at] == chars@[i as int]);
                assert(!is_digit(digits[i - at]));
            }
            return Err(ValidationError::NotANumber);
        }
        proof {
            let upto = digits.take(i - at + 1);
            assert(digits[i - at] == chars@[i as int]);
            assert(upto.drop_last() == digits.take(i - at));
            assert(upto.last() == digits[i - at]);
        }
        let digit: u8 = (u - 0x30) as u8;
        value = if value >= 10 || value * 10 + digit >= 10 {
            10
        } else {
            value * 10 + digit
        };
        i = i + 1;
    }
    proof {
        assert(digits.take(end - at) == digits);
        assert(all_digits(digits));
    }
    if negative || value < 1 || value > 9 {
        return Err(ValidationError::OutOfRange);
    }
    if !holds(remaining, value) {
        return Err(ValidationError::AlreadyTaken);
    }
    Ok(value)
}

/// What each verdict says of the input: a cell is accepted only if the
/// input denotes it, it is one of 1 to 9 and it remains; and each refusal
/// names the first of these that fails.
pub proof fn lemma_validation(input: Seq<char>, remaining: Seq<u8>)
    ensures
        match validation(input, remaining) {
            Ok(cell) => integer_value(input) == Some(cell as int) && 1 <= cell <= 9
                && remaining.contains(cell),
            Err(ValidationError::NotANumber) => integer_value(input) is None,
            Err(ValidationError::OutOfRange) => integer_value(input) matches Some(n) && !(1 <= n
                <= 9),
            Err(ValidationError::AlreadyTaken) => integer_value(input) matches Some(n) && 1 <= n
                <= 9 && !remaining.contains(n as u8),
        },
{
}

/// Input that denotes a remaining cell is accepted, whatever its spelling.
pub proof fn lemma_remaining_cell_accepted(input: Seq<char>, remaining: Seq<u8>, cell: u8)
    requires
        integer_value(input) == Some(cell as int),
        1 <= cell <= 9,
        remaining.contains(cell),
    ensures
        validation(input, remaining) == Ok::<u8, ValidationError>(cell),
{
}

/// A digit by itself denotes its value.
pub proof fn lemma_digit_alone(digit: char)
    requires
        is_digit(digit),
    ensures
        integer_value(seq![digit]) == Some(digit_value(digit) as int),
{
    let text = seq![digit];
    assert(!is_space(digit));
    assert(trim_start(text) == text);
    assert(trim_end(text) == text);
    assert(decimal_value(text.drop_last()) == 0);
    assert(all_digits(text));
}

} // verus!
