//! Reading a `key,value` pair whose value is a number.

use vstd::prelude::*;
use vstd::string::StrSliceExecFns;

verus! {

/// Why a text is no `key,value` pair.
#[derive(Clone, Copy, Debug, PartialEq, Eq, Structural)]
pub enum KeyValError {
    /// The text holds no comma.
    MissingComma,
    /// What follows the first comma is no number that fits in 32 bits.
    InvalidNumber,
}

pub open spec fn is_digit(c: char) -> bool {
    '0' <= c && c <= '9'
}

pub open spec fn digit_value(c: char) -> nat {
    (c as int - '0' as int) as nat
}

/// The number that a run of decimal digits writes.
pub open spec fn decimal_value(digits: Seq<char>) -> nat
    decreases digits.len(),
{
    if digits.len() == 0 {
        0
    } else {
        decimal_value(digits.drop_last()) * 10 + digit_value(digits.last())
    }
}

pub open spec fn all_digits(text: Seq<char>) -> bool {
    forall|i: int| 0 <= i < text.len() ==> is_digit(#[trigger] text[i])
}

/// The digits of a number: the text without a plus sign at its front.
pub open spec fn unsigned_part(text: Seq<char>) -> Seq<char> {
    if text.len() > 0 && text[0] == '+' {
        text.skip(1)
    } else {
        text
    }
}

/// The number that `text` writes: an optional plus sign, then one or more decimal digits
/// and nothing else, with a value of at most `u32::MAX`.
pub open spec fn parsed_number(text: Seq<char>) -> Option<u32> {
    let digits = unsigned_part(text);
    if digits.len() > 0 && all_digits(digits) && decimal_value(digits) <= u32::MAX {
        Some(decimal_value(digits) as u32)
    } else {
        None
    }
}

/// `pos` is where the first comma of `text` stands.
pub open spec fn is_first_comma(text: Seq<char>, pos: int) -> bool {
    &&& 0 <= pos < text.len()
    &&& text[pos] == ','
    &&& forall|j: int| 0 <= j < pos ==> text[j] != ','
}

/// Where the first comma of `text` stands, if it holds one.
pub open spec fn first_comma(text: Seq<char>) -> Option<int> {
    if exists|pos: int| is_first_comma(text, pos) {
        Some(choose|pos: int| is_first_comma(text, pos))
    } else {
        None
    }
}

/// What `text` says as a `key,value` pair: the key is what stands before the first
/// comma, the value the number that stands after it.
pub open spec fn parsed_key_val(text: Seq<char>) -> Result<(Seq<char>, u32), KeyValError> {
    match first_comma(text) {
        None => Err(KeyValError::MissingComma),
        Some(pos) => match parsed_number(text.skip(pos + 1)) {
            Some(value) => Ok((text.take(pos), value)),
            None => Err(KeyValError::InvalidNumber),
        },
    }
}

/// The view of what `parse_key_val` returned.
pub open spec fn key_val_view(r: Result<(String, u32), KeyValError>) -> Result<
    (Seq<char>, u32),
    KeyValError,
> {
    match r {
        Ok((key, value)) => Ok((key@, value)),
        Err(e) => Err(e),
    }
}

/// A run of digits is worth at least as much as any run it starts with.
pub proof fn lemma_decimal_grows(digits: Seq<char>, n: int)
    requires
        0 <= n <= digits.len(),
    ensures
        decimal_value(digits.take(n)) <= decimal_value(digits),
    decreases digits.len() - n,
{
    if n < digits.len() {
        lemma_decimal_grows(digits, n + 1);
        assert(digits.take(n + 1).drop_last() =~= digits.take(n));
    } else {
        assert(digits.take(n) =~= digits);
    }
}

/// The number that `text` writes in decimal digits, with an optional plus sign before
/// them, or `None` where it writes none that fits in 32 bits.
pub fn parse_number(text: &str) -> (r: Option<u32>)
    ensures
        r == parsed_number(text@),
{
    let len = text.unicode_len();
    let start: usize = if len > 0 && text.get_char(0) == '+' {
        1
    } else {
        0
    };
    if start == len {
        return None;
    }
    let ghost digits = unsigned_part(text@);
    let mut value: u32 = 0;
    let mut i: usize = start;
    while i < len
        invariant
            len == text@.len(),
            start <= i <= len,
            digits == unsigned_part(text@),
            digits == text@.skip(start as int),
            forall|j: int| 0 <= j < i - start ==> is_digit(#[trigger] digits[j]),
            value == decimal_value(digits.take(i - start)),
        decreases len - i,
    {
        let c = text.get_char(i);
        if !(c >= '0' && c <= '9') {
            assert(!is_digit(digits[i - start]));
            return None;
        }
        let digit: u32 = c as u32 - '0' as u32;
        proof {
            assert(digits.take(i - start + 1).drop_last() =~= digits.take(i - start));
            assert(digits.take(i - start + 1).last() == c);
            lemma_decimal_grows(digits, i - start + 1);
        }
        if value > (u32::MAX - digit) / 10 {
            return None;
        }
        value = value * 10 + digit;
        i += 1;
    }
    assert(digits.take(i - start) =~= digits);
    Some(value)
}

/// Reads a text of the form `key,value`: the key is all that stands before the first
/// comma, and the value, which must be a number, all that stands after it.
pub fn parse_key_val(s: &str) -> (r: Result<(String, u32), KeyValError>)
    ensures
        key_val_view(r) == parsed_key_val(s@),
{
    let len = s.unicode_len();
    let mut pos: usize = 0;
    while pos < len && s.get_char(pos) != ','
        invariant
            len == s@.len(),
            pos <= len,
            forall|j: int| 0 <= j < pos ==> s@[j] != ',',
        decreases len - pos,
    {
        pos += 1;
    }
    if pos == len {
        proof {
            assert forall|p: int| !is_first_comma(s@, p) by {}
        }
        return Err(KeyValError::MissingComma);
    }
    proof {
        assert(is_first_comma(s@, pos as int));
        let chosen = choose|p: int| is_first_comma(s@, p);
        assert(chosen == pos);
    }
    let key = s.substring_char(0, pos);
    let rest = s.substring_char(pos + 1, len);
    assert(key@ =~= s@.take(pos as int));
    assert(rest@ =~= s@.skip(pos + 1));
    match parse_number(rest) {
        Some(value) => Ok((key.to_owned(), value)),
        None => Err(KeyValError::InvalidNumber),
    }
}

} // verus!
