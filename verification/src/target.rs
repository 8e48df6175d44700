//! Target widths: which ones a picture can be carved to, and how one is
//! read from a line of text.

use vstd::prelude::*;
use vstd::string::StrSliceExecFns;
use crate::error::CarveError;

verus! {

/// Whether a picture of `current_width` columns can be carved to
/// `target_width` columns: the target is positive and less than the width.
pub open spec fn is_valid_target(current_width: nat, target_width: nat) -> bool {
    0 < target_width < current_width
}

/// Whether `c` is white space: one of the characters with the Unicode
/// property White_Space.
pub open spec fn is_space(c: char) -> bool {
    let u = c as u32;
    ||| 0x09 <= u <= 0x0D
    ||| u == 0x20
    ||| u == 0x85
    ||| u == 0xA0
    ||| u == 0x1680
    ||| 0x2000 <= u <= 0x200A
    ||| u == 0x2028
    ||| u == 0x2029
    ||| u == 0x202F
    ||| u == 0x205F
    ||| u == 0x3000
}

/// Whether `c` is one of the digits `0` to `9`.
pub open spec fn is_digit(c: char) -> bool {
    0x30 <= c as u32 <= 0x39
}

/// Whether `s` holds digits only.
pub open spec fn all_digits(s: Seq<char>) -> bool {
    forall|i: int| 0 <= i < s.len() ==> is_digit(#[trigger] s[i])
}

/// The number that a sequence of digits denotes in base ten.
pub open spec fn decimal_value(digits: Seq<char>) -> nat
    decreases digits.len(),
{
    if digits.len() == 0 {
        0
    } else {
        10 * decimal_value(digits.drop_last()) + (digits.last() as u32 - 0x30) as nat
    }
}

/// Number of white-space characters at the start of `s`.
pub open spec fn leading_spaces(s: Seq<char>) -> nat
    decreases s.len(),
{
    if s.len() > 0 && is_space(s[0]) {
        1 + leading_spaces(s.skip(1))
    } else {
        0
    }
}

/// Number of white-space characters at the end of `s`.
pub open spec fn trailing_spaces(s: Seq<char>) -> nat
    decreases s.len(),
{
    if s.len() > 0 && is_space(s.last()) {
        1 + trailing_spaces(s.drop_last())
    } else {
        0
    }
}

/// `s` without the white space at its start and at its end.
pub open spec fn trimmed(s: Seq<char>) -> Seq<char> {
    let rest = s.skip(leading_spaces(s) as int);
    rest.take(rest.len() - trailing_spaces(rest))
}

/// The number that a line of text holds, if it holds one: white space
/// aside, the line is a run of one or more digits, with or without a plus
/// sign in front of it.
pub open spec fn number_in(line: Seq<char>) -> Option<nat> {
    let text = trimmed(line);
    let digits = if text.len() > 0 && text[0] == '+' {
        text.skip(1)
    } else {
        text
    };
    if digits.len() > 0 && all_digits(digits) {
        Some(decimal_value(digits))
    } else {
        None
    }
}

/// When the first `k` characters of `s` are white space and the next one,
/// if there is one, is not, then `s` starts with exactly `k` of them.
pub proof fn lemma_leading_spaces(s: Seq<char>, k: int)
    requires
        0 <= k <= s.len(),
        forall|i: int| 0 <= i < k ==> is_space(#[trigger] s[i]),
        k < s.len() ==> !is_space(s[k]),
    ensures
        leading_spaces(s) == k,
    decreases k,
{
    if k > 0 {
        let rest = s.skip(1);
        assert forall|i: int| 0 <= i < k - 1 implies is_space(#[trigger] rest[i]) by {
            assert(rest[i] == s[i + 1]);
        }
        lemma_leading_spaces(rest, k - 1);
    }
}

/// When the last `k` characters of `s` are white space and the one before
/// them, if there is one, is not, then `s` ends with exactly `k` of them.
pub proof fn lemma_trailing_spaces(s: Seq<char>, k: int)
    requires
        0 <= k <= s.len(),
        forall|i: int| s.len() - k <= i < s.len() ==> is_space(#[trigger] s[i]),
        k < s.len() ==> !is_space(s[s.len() - k - 1]),
    ensures
        trailing_spaces(s) == k,
    decreases k,
{
    if k > 0 {
        let rest = s.drop_last();
        assert forall|i: int| rest.len() - (k - 1) <= i < rest.len() implies is_space(
            #[trigger] rest[i],
        ) by {
            assert(rest[i] == s[i]);
        }
        lemma_trailing_spaces(rest, k - 1);
    }
}

/// A run of digits denotes a number that is no smaller than the number
/// that any of its beginnings denotes.
pub proof fn lemma_decimal_value_grows(digits: Seq<char>, k: int)
    requires
        0 <= k <= digits.len(),
    ensures
        decimal_value(digits.take(k)) <= decimal_value(digits),
    decreases digits.len() - k,
{
    if k < digits.len() {
        lemma_decimal_value_grows(digits.drop_last(), k);
        assert(digits.drop_last().take(k) =~= digits.take(k));
    } else {
        assert(digits.take(k) =~= digits);
    }
}

/// The number of seams that have to go to bring a picture of
/// `current_width` columns down to `target_width` columns. The target is
/// accepted if and only if it is positive and less than the current width.
pub fn seams_to_remove(current_width: usize, target_width: usize) -> (count: Result<
    usize,
    CarveError,
>)
    ensures
        count is Ok <==> is_valid_target(current_width as nat, target_width as nat),
        count matches Ok(n) ==> n == current_width - target_width,
        count matches Err(e) ==> e == CarveError::InvalidTarget,
{
    if 0 < target_width && target_width < current_width {
        Ok(current_width - target_width)
    } else {
        Err(CarveError::InvalidTarget)
    }
}

/// Whether `c` is white space.
pub fn is_space_char(c: char) -> (space: bool)
    ensures
        space == is_space(c),
{
    let u = c as u32;
    (0x09 <= u && u <= 0x0D) || u == 0x20 || u == 0x85 || u == 0xA0 || u == 0x1680 || (0x2000 <= u
        && u <= 0x200A) || u == 0x2028 || u == 0x2029 || u == 0x202F || u == 0x205F || u == 0x3000
}

/// Reads the target width that was typed in answer to the prompt. The line
/// is accepted if and only if it holds a number, white space aside, and that
/// number is a valid target for a picture of `current_width` columns.
pub fn parse_target_width(line: &str, current_width: usize) -> (target: Result<usize, CarveError>)
    ensures
        target is Ok <==> (number_in(line@) matches Some(t) && is_valid_target(
            current_width as nat,
            t,
        )),
        target matches Ok(t) ==> number_in(line@) == Some(t as nat),
        target matches Err(e) ==> e == CarveError::InvalidTarget,
{
    let n = line.unicode_len();
    let mut start: usize = 0;
    while start < n && is_space_char(line.get_char(start))
        invariant
            start <= n,
            n == line@.len(),
            forall|i: int| 0 <= i < start ==> is_space(#[trigger] line@[i]),
        decreases n - start,
    {
        start += 1;
    }
    let mut end: usize = n;
    while end > start && is_space_char(line.get_char(end - 1))
        invariant
            start <= end <= n,
            n == line@.len(),
            forall|i: int| end <= i < n ==> is_space(#[trigger] line@[i]),
        decreases end,
    {
        end -= 1;
    }
    let ghost text = line@.subrange(start as int, end as int);
    proof {
        let rest = line@.skip(start as int);
        lemma_leading_spaces(line@, start as int);
        assert forall|i: int| rest.len() - (n - end) <= i < rest.len() implies is_space(
            #[trigger] rest[i],
        ) by {
            assert(rest[i] == line@[i + start]);
        }
        lemma_trailing_spaces(rest, n - end);
        assert(text =~= trimmed(line@));
    }
    let mut i: usize = start;
    if i < end && line.get_char(i) == '+' {
        i += 1;
    }
    let ghost digits = line@.subrange(i as int, end as int);
    proof {
        if text.len() > 0 && text[0] == '+' {
            assert(digits =~= text.skip(1));
        } else {
            assert(digits =~= text);
        }
    }
    if i == end {
        return Err(CarveError::InvalidTarget);
    }
    let first = i;
    let mut value: usize = 0;
    while i < end
        invariant
            first <= i <= end <= n,
            n == line@.len(),
            digits == line@.subrange(first as int, end as int),
            number_in(line@) == if all_digits(digits) {
                Some(decimal_value(digits))
            } else {
                None
            },
            all_digits(digits.take(i - first)),
            value == decimal_value(digits.take(i - first)),
            value < current_width || i == first,
        decreases end - i,
    {
        let c = line.get_char(i);
        let u = c as u32;
        if u < 0x30 || u > 0x39 {
            assert(!is_digit(digits[i - first]));
            return Err(CarveError::InvalidTarget);
        }
        let next: u128 = value as u128 * 10 + (u - 0x30) as u128;
        proof {
            let upto = digits.take(i + 1 - first);
            assert(upto.drop_last() =~= digits.take(i - first));
            assert(upto.last() == c);
            assert(next == decimal_value(upto));
            lemma_decimal_value_grows(digits, i + 1 - first);
        }
        if next >= current_width as u128 {
            return Err(CarveError::InvalidTarget);
        }
        value = next as usize;
        i += 1;
    }
    proof {
        assert(digits.take(end - first) =~= digits);
    }
    if value == 0 {
        Err(CarveError::InvalidTarget)
    } else {
        Ok(value)
    }
}

} // verus!
