//! Digits, numbers and separators in text.
//!
//! Texts are sequences of characters. Executable code reads them as the bytes
//! of an ASCII string; [`chars_of`] relates the two.

use vstd::prelude::*;
use vstd::utf8::is_ascii_chars;

verus! {

pub(crate) const PLUS: u8 = 43;

pub(crate) const DOT: u8 = 46;

pub(crate) const DIGIT_0: u8 = 48;

pub(crate) const DIGIT_9: u8 = 57;

pub(crate) const COLON: u8 = 58;

pub(crate) const UPPER_A: u8 = 65;

pub(crate) const UPPER_F: u8 = 70;

pub(crate) const LOWER_A: u8 = 97;

pub(crate) const LOWER_F: u8 = 102;

/// The characters that ASCII bytes stand for.
pub open spec fn chars_of(bytes: Seq<u8>) -> Seq<char> {
    Seq::new(bytes.len(), |i: int| bytes[i] as char)
}

pub open spec fn is_digit(c: char) -> bool {
    '0' <= c <= '9'
}

pub open spec fn digit_value(c: char) -> nat {
    (c as u32 - '0' as u32) as nat
}

pub open spec fn all_digits(s: Seq<char>) -> bool {
    forall|i: int| 0 <= i < s.len() ==> is_digit(#[trigger] s[i])
}

/// The number that a sequence of decimal digits denotes. The empty sequence
/// denotes zero.
pub open spec fn decimal_value(s: Seq<char>) -> nat
    decreases s.len(),
{
    if s.len() == 0 {
        0
    } else {
        decimal_value(s.drop_last()) * 10 + digit_value(s.last())
    }
}

pub open spec fn is_hex_digit(c: char) -> bool {
    ('0' <= c <= '9') || ('a' <= c <= 'f') || ('A' <= c <= 'F')
}

pub open spec fn hex_digit_value(c: char) -> nat {
    if '0' <= c <= '9' {
        (c as u32 - '0' as u32) as nat
    } else if 'a' <= c <= 'f' {
        (c as u32 - 'a' as u32 + 10) as nat
    } else {
        (c as u32 - 'A' as u32 + 10) as nat
    }
}

pub open spec fn all_hex_digits(s: Seq<char>) -> bool {
    forall|i: int| 0 <= i < s.len() ==> is_hex_digit(#[trigger] s[i])
}

/// The number that a sequence of hexadecimal digits denotes.
pub open spec fn hex_value(s: Seq<char>) -> nat
    decreases s.len(),
{
    if s.len() == 0 {
        0
    } else {
        hex_value(s.drop_last()) * 16 + hex_digit_value(s.last())
    }
}

/// Where `sep` first occurs in `s`; the length of `s` where it does not occur.
pub open spec fn index_of(s: Seq<char>, sep: char) -> int
    decreases s.len(),
{
    if s.len() == 0 || s[0] == sep {
        0
    } else {
        1 + index_of(s.skip(1), sep)
    }
}

/// The parts of `s` between occurrences of `sep`. A text without `sep` is one
/// part; `n` occurrences make `n + 1` parts, some of them possibly empty.
pub open spec fn split(s: Seq<char>, sep: char) -> Seq<Seq<char>>
    decreases s.len(),
{
    let k = index_of(s, sep);
    if 0 <= k < s.len() {
        seq![s.take(k)] + split(s.skip(k + 1), sep)
    } else {
        seq![s]
    }
}

/// The first occurrence lies within the text or at its end, holds the
/// separator, and nothing before it does.
pub(crate) proof fn lemma_index_of_bounds(s: Seq<char>, sep: char)
    ensures
        0 <= index_of(s, sep) <= s.len(),
        index_of(s, sep) < s.len() ==> s[index_of(s, sep)] == sep,
        forall|j: int| 0 <= j < index_of(s, sep) ==> s[j] != sep,
    decreases s.len(),
{
    if s.len() == 0 || s[0] == sep {
    } else {
        lemma_index_of_bounds(s.skip(1), sep);
        assert forall|j: int| 0 <= j < index_of(s, sep) implies s[j] != sep by {
            if j > 0 {
                assert(s.skip(1)[j - 1] == s[j]);
            }
        }
    }
}

/// The first occurrence is where every earlier character differs from `sep`
/// and the text ends or holds `sep`.
pub(crate) proof fn lemma_index_of_is(s: Seq<char>, sep: char, k: int)
    requires
        0 <= k <= s.len(),
        forall|j: int| 0 <= j < k ==> s[j] != sep,
        k < s.len() ==> s[k] == sep,
    ensures
        index_of(s, sep) == k,
    decreases k,
{
    if k == 0 {
    } else {
        assert(s[0] != sep);
        let t = s.skip(1);
        assert forall|j: int| 0 <= j < k - 1 implies t[j] != sep by {
            assert(t[j] == s[j + 1]);
        }
        lemma_index_of_is(t, sep, k - 1);
    }
}

/// One more digit multiplies by ten and adds the digit.
pub(crate) proof fn lemma_decimal_value_push(s: Seq<char>, c: char)
    ensures
        decimal_value(s.push(c)) == decimal_value(s) * 10 + digit_value(c),
{
    assert(s.push(c).drop_last() =~= s);
}

/// One more digit multiplies by sixteen and adds the digit.
pub(crate) proof fn lemma_hex_value_push(s: Seq<char>, c: char)
    ensures
        hex_value(s.push(c)) == hex_value(s) * 16 + hex_digit_value(c),
{
    assert(s.push(c).drop_last() =~= s);
}

/// The digits read so far never denote more than all of them.
pub(crate) proof fn lemma_decimal_value_prefix(s: Seq<char>, n: int)
    requires
        all_digits(s),
        0 <= n <= s.len(),
    ensures
        decimal_value(s.take(n)) <= decimal_value(s),
    decreases s.len() - n,
{
    if n == s.len() {
        assert(s.take(n) =~= s);
    } else {
        lemma_decimal_value_prefix(s, n + 1);
        assert(s.take(n + 1).drop_last() =~= s.take(n));
        assert(is_digit(s[n]));
        assert(s.take(n + 1).last() == s[n]);
    }
}

/// Every character of a text but the separators stands in one of its parts.
pub(crate) proof fn lemma_split_covers(s: Seq<char>, sep: char, i: int) -> (at: (int, int))
    requires
        0 <= i < s.len(),
        s[i] != sep,
    ensures
        0 <= at.0 < split(s, sep).len(),
        0 <= at.1 < split(s, sep)[at.0].len(),
        split(s, sep)[at.0][at.1] == s[i],
    decreases s.len(),
{
    let k = index_of(s, sep);
    lemma_index_of_bounds(s, sep);
    if k >= s.len() || i < k {
        (0, i)
    } else {
        let rest = s.skip(k + 1);
        assert(rest[i - k - 1] == s[i]);
        let inner = lemma_split_covers(rest, sep, i - k - 1);
        assert(split(s, sep)[inner.0 + 1] == split(rest, sep)[inner.0]);
        (inner.0 + 1, inner.1)
    }
}

/// The characters of `bytes` from `from` up to `to`.
pub open spec fn range_of(bytes: Seq<u8>, from: int, to: int) -> Seq<char> {
    chars_of(bytes).subrange(from, to)
}

/// Finds the next `sep` in `bytes[from..to]`; `to` where there is none.
pub(crate) fn next_separator(bytes: &[u8], from: usize, to: usize, sep: u8) -> (k: usize)
    requires
        from <= to <= bytes@.len(),
        sep < 128,
    ensures
        from <= k <= to,
        k - from == index_of(range_of(bytes@, from as int, to as int), sep as char),
{
    let ghost s = range_of(bytes@, from as int, to as int);
    let mut k: usize = from;
    while k < to && bytes[k] != sep
        invariant
            from <= k <= to <= bytes@.len(),
            sep < 128,
            s == range_of(bytes@, from as int, to as int),
            forall|j: int| 0 <= j < k - from ==> s[j] != sep as char,
        decreases to - k,
    {
        assert(s[k - from] == bytes@[k as int] as char);
        k += 1;
    }
    proof {
        if k < to {
            assert(s[k - from] == bytes@[k as int] as char);
        }
        lemma_index_of_is(s, sep as char, k - from);
    }
    k
}

/// What [`next_separator`] found, said of the parts: the text up to the
/// separator is the first part, and the rest is split in turn.
pub(crate) proof fn lemma_split_at(bytes: Seq<u8>, from: int, to: int, k: int, sep: char)
    requires
        0 <= from <= k <= to <= bytes.len(),
        k - from == index_of(range_of(bytes, from, to), sep),
    ensures
        k == to ==> split(range_of(bytes, from, to), sep) == seq![range_of(bytes, from, to)],
        k < to ==> split(range_of(bytes, from, to), sep) == seq![range_of(bytes, from, k)] + split(
            range_of(bytes, k + 1, to),
            sep,
        ),
{
    let s = range_of(bytes, from, to);
    if k < to {
        assert(s.take(k - from) =~= range_of(bytes, from, k));
        assert(s.skip(k - from + 1) =~= range_of(bytes, k + 1, to));
    }
}

/// The number that a text denotes: decimal digits, at least one, after an
/// optional `+`.
pub open spec fn number_of_text(s: Seq<char>) -> Option<nat> {
    let digits = if s.len() > 0 && s[0] == '+' {
        s.skip(1)
    } else {
        s
    };
    if digits.len() > 0 && all_digits(digits) {
        Some(decimal_value(digits))
    } else {
        None
    }
}

/// The machine word that a text denotes: its number, where that fits.
pub open spec fn usize_of_text(s: Seq<char>) -> Option<usize> {
    match number_of_text(s) {
        Some(n) if n <= usize::MAX => Some(n as usize),
        _ => None,
    }
}

/// A text that denotes a number is ASCII.
proof fn lemma_number_text_is_ascii(s: Seq<char>)
    requires
        number_of_text(s) is Some,
    ensures
        is_ascii_chars(s),
{
    let digits = if s.len() > 0 && s[0] == '+' {
        s.skip(1)
    } else {
        s
    };
    assert forall|i: int| 0 <= i < s.len() implies '\0' <= #[trigger] s[i] <= '\u{7f}' by {
        if s[0] == '+' {
            if i > 0 {
                assert(is_digit(digits[i - 1]));
            }
        } else {
            assert(is_digit(digits[i]));
        }
    }
}

/// Reads a machine word from its decimal text.
pub fn parse_usize(text: &str) -> (r: Option<usize>)
    ensures
        r == usize_of_text(text@),
{
    if !text.is_ascii() {
        proof {
            if number_of_text(text@) is Some {
                lemma_number_text_is_ascii(text@);
            }
        }
        return None;
    }
    let bytes = text.as_bytes();
    let n = bytes.len();
    proof {
        vstd::string::is_ascii_spec_bytes(text);
        assert(chars_of(bytes@) =~= text@);
    }
    let start: usize = if n > 0 && bytes[0] == PLUS {
        1
    } else {
        0
    };
    let ghost digits = text@.skip(start as int);
    assert(start == 0 ==> digits =~= text@);
    assert(n > 0 ==> text@[0] == bytes@[0] as char);
    if start == n {
        return None;
    }
    let mut value: usize = 0;
    let mut i: usize = start;
    while i < n
        invariant
            start <= i <= n == bytes@.len(),
            chars_of(bytes@) == text@,
            start == if text@.len() > 0 && text@[0] == '+' {
                1int
            } else {
                0int
            },
            digits == text@.skip(start as int),
            start == 0 ==> digits == text@,
            all_digits(digits.take(i - start)),
            value == decimal_value(digits.take(i - start)),
        decreases n - i,
    {
        let b = bytes[i];
        assert(digits[i - start] == b as char);
        if b < DIGIT_0 || b > DIGIT_9 {
            assert(!is_digit(digits[i - start]));
            return None;
        }
        proof {
            assert(digits.take(i - start + 1) =~= digits.take(i - start).push(digits[i - start]));
            lemma_decimal_value_push(digits.take(i - start), digits[i - start]);
            if all_digits(digits) {
                lemma_decimal_value_prefix(digits, i - start + 1);
            }
        }
        value = match value.checked_mul(10) {
            Some(tens) => match tens.checked_add((b - DIGIT_0) as usize) {
                Some(sum) => sum,
                None => {
                    return None;
                },
            },
            None => {
                return None;
            },
        };
        i += 1;
    }
    assert(digits.take(n - start) =~= digits);
    Some(value)
}

} // verus!
