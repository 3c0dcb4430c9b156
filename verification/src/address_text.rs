//! Addresses as text: which texts denote an address, and which one.
//!
//! An IPv4 address is written as four decimal numbers separated by dots, each
//! from 0 to 255 and without a leading zero. An IPv6 address is written as
//! eight groups of one to four hexadecimal digits separated by colons; one run
//! of zero groups may be left out and is then written `::`; the last two
//! groups may be written as an IPv4 address.

use vstd::prelude::*;
use crate::address::IpAddress;
use crate::text::{
    all_digits, all_hex_digits, chars_of, decimal_value, hex_digit_value, hex_value, is_digit,
    is_hex_digit, lemma_decimal_value_push, lemma_hex_value_push, lemma_split_at,
    lemma_split_covers, next_separator, range_of, split, COLON, DIGIT_0, DIGIT_9, DOT, LOWER_A,
    LOWER_F, UPPER_A, UPPER_F,
};

verus! {

/// The octet that a text denotes: one to three decimal digits, no leading
/// zero, at most 255.
pub open spec fn octet_of_text(s: Seq<char>) -> Option<u8> {
    if 1 <= s.len() <= 3 && all_digits(s) && (s.len() > 1 ==> s[0] != '0') && decimal_value(s)
        <= 255 {
        Some(decimal_value(s) as u8)
    } else {
        None
    }
}

/// The IPv4 address that a text denotes: four octets between three dots.
pub open spec fn ipv4_of_text(s: Seq<char>) -> Option<IpAddress> {
    let parts = split(s, '.');
    if parts.len() == 4 && octet_of_text(parts[0]) is Some && octet_of_text(parts[1]) is Some
        && octet_of_text(parts[2]) is Some && octet_of_text(parts[3]) is Some {
        Some(
            IpAddress::V4(
                octet_of_text(parts[0])->0,
                octet_of_text(parts[1])->0,
                octet_of_text(parts[2])->0,
                octet_of_text(parts[3])->0,
            ),
        )
    } else {
        None
    }
}

fn parse_octet(bytes: &[u8], from: usize, to: usize) -> (r: Option<u8>)
    requires
        from <= to <= bytes@.len(),
    ensures
        r == octet_of_text(range_of(bytes@, from as int, to as int)),
{
    let ghost s = range_of(bytes@, from as int, to as int);
    if to - from == 0 || to - from > 3 {
        return None;
    }
    let mut value: u32 = 0;
    let mut i: usize = from;
    while i < to
        invariant
            from <= i <= to <= bytes@.len(),
            to - from <= 3,
            s == range_of(bytes@, from as int, to as int),
            all_digits(s.take(i - from)),
            value == decimal_value(s.take(i - from)),
            value <= 999,
        decreases to - i,
    {
        let b = bytes[i];
        assert(s[i - from] == b as char);
        if b < DIGIT_0 || b > DIGIT_9 {
            assert(!is_digit(s[i - from]));
            return None;
        }
        proof {
            assert(s.take(i - from + 1) =~= s.take(i - from).push(s[i - from]));
            lemma_decimal_value_push(s.take(i - from), s[i - from]);
            lemma_decimal_value_below(s.take(i - from));
        }
        value = value * 10 + (b - DIGIT_0) as u32;
        i += 1;
        proof {
            lemma_decimal_value_below(s.take(i - from));
        }
    }
    assert(s.take(to - from) =~= s);
    assert(s[0] == bytes@[from as int] as char);
    if to - from > 1 && bytes[from] == DIGIT_0 {
        return None;
    }
    if value > 255 {
        return None;
    }
    Some(value as u8)
}

/// Up to three digits denote less than a thousand.
proof fn lemma_decimal_value_below(s: Seq<char>)
    requires
        all_digits(s),
        s.len() <= 3,
    ensures
        s.len() == 0 ==> decimal_value(s) == 0,
        s.len() == 1 ==> decimal_value(s) <= 9,
        s.len() == 2 ==> decimal_value(s) <= 99,
        s.len() == 3 ==> decimal_value(s) <= 999,
    decreases s.len(),
{
    if s.len() > 0 {
        assert(is_digit(s.last()));
        lemma_decimal_value_below(s.drop_last());
    }
}

/// Reads an IPv4 address from `bytes[from..to]`.
pub(crate) fn parse_ipv4(bytes: &[u8], from: usize, to: usize) -> (r: Option<IpAddress>)
    requires
        from <= to <= bytes@.len(),
    ensures
        r == ipv4_of_text(range_of(bytes@, from as int, to as int)),
{
    let k1 = next_separator(bytes, from, to, DOT);
    proof {
        lemma_split_at(bytes@, from as int, to as int, k1 as int, '.');
    }
    if k1 == to {
        return None;
    }
    let k2 = next_separator(bytes, k1 + 1, to, DOT);
    proof {
        lemma_split_at(bytes@, k1 + 1, to as int, k2 as int, '.');
    }
    if k2 == to {
        return None;
    }
    let k3 = next_separator(bytes, k2 + 1, to, DOT);
    proof {
        lemma_split_at(bytes@, k2 + 1, to as int, k3 as int, '.');
    }
    if k3 == to {
        return None;
    }
    let k4 = next_separator(bytes, k3 + 1, to, DOT);
    proof {
        lemma_split_at(bytes@, k3 + 1, to as int, k4 as int, '.');
    }
    if k4 != to {
        return None;
    }
    let a = parse_octet(bytes, from, k1);
    let b = parse_octet(bytes, k1 + 1, k2);
    let c = parse_octet(bytes, k2 + 1, k3);
    let d = parse_octet(bytes, k3 + 1, to);
    match (a, b, c, d) {
        (Some(a), Some(b), Some(c), Some(d)) => Some(IpAddress::V4(a, b, c, d)),
        _ => None,
    }
}

/// The group that a text denotes: one to four hexadecimal digits.
pub open spec fn group_of_text(s: Seq<char>) -> Option<u16> {
    if 1 <= s.len() <= 4 && all_hex_digits(s) {
        Some(hex_value(s) as u16)
    } else {
        None
    }
}

/// The groups that the parts between colons denote, in order. Each part is a
/// group; where `dotted` holds, the last part may instead be an IPv4 address,
/// which stands for two groups.
pub open spec fn groups_of_parts(parts: Seq<Seq<char>>, dotted: bool) -> Option<Seq<u16>>
    decreases parts.len(),
{
    if parts.len() == 0 {
        Some(Seq::empty())
    } else {
        match groups_of_parts(parts.drop_last(), false) {
            None => None,
            Some(init) => match group_of_text(parts.last()) {
                Some(g) => Some(init.push(g)),
                None => match ipv4_of_text(parts.last()) {
                    Some(IpAddress::V4(a, b, c, d)) if dotted => Some(
                        init.push((a * 256 + b) as u16).push((c * 256 + d) as u16),
                    ),
                    _ => None,
                },
            },
        }
    }
}

/// The groups that a colon-separated text denotes; the empty text denotes no
/// group.
pub open spec fn groups_of_text(s: Seq<char>, dotted: bool) -> Option<Seq<u16>> {
    if s.len() == 0 {
        Some(Seq::empty())
    } else {
        groups_of_parts(split(s, ':'), dotted)
    }
}

/// Where `::` first occurs in `s`; the length of `s` where it does not occur.
pub open spec fn index_of_gap(s: Seq<char>) -> int
    decreases s.len(),
{
    if s.len() < 2 {
        s.len() as int
    } else if s[0] == ':' && s[1] == ':' {
        0
    } else {
        1 + index_of_gap(s.skip(1))
    }
}

/// `n` zero groups.
pub open spec fn zero_groups(n: int) -> Seq<u16> {
    Seq::new(n as nat, |i: int| 0u16)
}

/// The IPv6 address that a text denotes. Without `::` the text holds all eight
/// groups. With `::` the groups before it and after it are at most seven, and
/// zero groups fill the gap.
pub open spec fn ipv6_of_text(s: Seq<char>) -> Option<IpAddress> {
    let p = index_of_gap(s);
    if p >= s.len() {
        match groups_of_text(s, true) {
            Some(groups) if groups.len() == 8 => Some(IpAddress::of_groups(groups)),
            _ => None,
        }
    } else {
        match (groups_of_text(s.take(p), false), groups_of_text(s.skip(p + 2), true)) {
            (Some(head), Some(tail)) if head.len() + tail.len() <= 7 => Some(
                IpAddress::of_groups(head + zero_groups(8 - head.len() - tail.len()) + tail),
            ),
            _ => None,
        }
    }
}

/// The address that a text denotes, if it denotes one.
pub open spec fn ip_of_text(s: Seq<char>) -> Option<IpAddress> {
    match ipv4_of_text(s) {
        Some(address) => Some(address),
        None => ipv6_of_text(s),
    }
}

/// Up to four hexadecimal digits denote less than 65536.
proof fn lemma_hex_value_below(s: Seq<char>)
    requires
        all_hex_digits(s),
        s.len() <= 4,
    ensures
        s.len() == 0 ==> hex_value(s) == 0,
        s.len() == 1 ==> hex_value(s) < 0x10,
        s.len() == 2 ==> hex_value(s) < 0x100,
        s.len() == 3 ==> hex_value(s) < 0x1000,
        s.len() == 4 ==> hex_value(s) < 0x10000,
    decreases s.len(),
{
    if s.len() > 0 {
        assert(is_hex_digit(s.last()));
        lemma_hex_value_below(s.drop_last());
    }
}

fn parse_group(bytes: &[u8], from: usize, to: usize) -> (r: Option<u16>)
    requires
        from <= to <= bytes@.len(),
    ensures
        r == group_of_text(range_of(bytes@, from as int, to as int)),
{
    let ghost s = range_of(bytes@, from as int, to as int);
    if to - from == 0 || to - from > 4 {
        return None;
    }
    let mut value: u32 = 0;
    let mut i: usize = from;
    while i < to
        invariant
            from <= i <= to <= bytes@.len(),
            to - from <= 4,
            s == range_of(bytes@, from as int, to as int),
            all_hex_digits(s.take(i - from)),
            value == hex_value(s.take(i - from)),
            value < 0x10000,
        decreases to - i,
    {
        let b = bytes[i];
        assert(s[i - from] == b as char);
        let digit: u32 = if DIGIT_0 <= b && b <= DIGIT_9 {
            (b - DIGIT_0) as u32
        } else if LOWER_A <= b && b <= LOWER_F {
            (b - LOWER_A) as u32 + 10
        } else if UPPER_A <= b && b <= UPPER_F {
            (b - UPPER_A) as u32 + 10
        } else {
            assert(!is_hex_digit(s[i - from]));
            return None;
        };
        proof {
            assert(digit == hex_digit_value(s[i - from]));
            assert(s.take(i - from + 1) =~= s.take(i - from).push(s[i - from]));
            lemma_hex_value_push(s.take(i - from), s[i - from]);
            lemma_hex_value_below(s.take(i - from));
            lemma_hex_value_below(s.take(i - from + 1));
        }
        value = value * 16 + digit;
        i += 1;
    }
    assert(s.take(to - from) =~= s);
    Some(value as u16)
}

/// Once a part is no group, no longer list of parts denotes groups.
proof fn lemma_groups_of_parts_prefix(parts: Seq<Seq<char>>, n: int, dotted: bool)
    requires
        0 <= n < parts.len(),
        groups_of_parts(parts.take(n), false) is None,
    ensures
        groups_of_parts(parts, dotted) is None,
    decreases parts.len() - n,
{
    if n + 1 == parts.len() {
        assert(parts.drop_last() =~= parts.take(n));
    } else {
        assert(parts.drop_last().take(n) =~= parts.take(n));
        lemma_groups_of_parts_prefix(parts.drop_last(), n, false);
    }
}

/// Reads colon-separated groups from `bytes[from..to]`.
fn parse_groups(bytes: &[u8], from: usize, to: usize, dotted: bool) -> (r: Option<Vec<u16>>)
    requires
        from <= to <= bytes@.len(),
    ensures
        match r {
            Some(groups) => groups_of_text(range_of(bytes@, from as int, to as int), dotted)
                == Some(groups@),
            None => groups_of_text(range_of(bytes@, from as int, to as int), dotted) is None,
        },
{
    let mut out: Vec<u16> = Vec::new();
    if from == to {
        return Some(out);
    }
    let ghost all = split(range_of(bytes@, from as int, to as int), ':');
    let ghost mut done: Seq<Seq<char>> = Seq::empty();
    let mut pos: usize = from;
    loop
        invariant
            from <= pos <= to <= bytes@.len(),
            from < to,
            all == split(range_of(bytes@, from as int, to as int), ':'),
            all == done + split(range_of(bytes@, pos as int, to as int), ':'),
            groups_of_parts(done, false) == Some(out@),
        decreases to - pos,
    {
        let k = next_separator(bytes, pos, to, COLON);
        let ghost part = range_of(bytes@, pos as int, k as int);
        proof {
            lemma_split_at(bytes@, pos as int, to as int, k as int, ':');
        }
        let group = parse_group(bytes, pos, k);
        if k == to {
            proof {
                assert(all =~= done.push(part));
                assert(all.drop_last() =~= done);
            }
            match group {
                Some(g) => {
                    out.push(g);
                    return Some(out);
                },
                None => {
                    if !dotted {
                        return None;
                    }
                    match parse_ipv4(bytes, pos, to) {
                        Some(IpAddress::V4(a, b, c, d)) => {
                            out.push(a as u16 * 256 + b as u16);
                            out.push(c as u16 * 256 + d as u16);
                            return Some(out);
                        },
                        _ => {
                            return None;
                        },
                    }
                },
            }
        }
        match group {
            Some(g) => {
                proof {
                    let rest = split(range_of(bytes@, k + 1, to as int), ':');
                    assert(all =~= done.push(part) + rest);
                    assert(done.push(part).drop_last() =~= done);
                    done = done.push(part);
                }
                out.push(g);
                pos = k + 1;
            },
            None => {
                proof {
                    let rest = split(range_of(bytes@, k + 1, to as int), ':');
                    let n = done.len() + 1;
                    assert(all =~= done.push(part) + rest);
                    assert(all.take(n as int) =~= done.push(part));
                    assert(done.push(part).drop_last() =~= done);
                    assert(rest.len() >= 1);
                    lemma_groups_of_parts_prefix(all, n as int, dotted);
                }
                return None;
            },
        }
    }
}

/// Whether `::` stands at `j` in `s`.
pub open spec fn gap_at(s: Seq<char>, j: int) -> bool {
    0 <= j && j + 1 < s.len() && s[j] == ':' && s[j + 1] == ':'
}

/// `::` first occurs where it stands and nowhere earlier; a text without it
/// gets its length.
pub(crate) proof fn lemma_index_of_gap_is(s: Seq<char>, k: int)
    requires
        0 <= k <= s.len(),
        forall|j: int| 0 <= j < k ==> !#[trigger] gap_at(s, j),
        k < s.len() ==> gap_at(s, k),
    ensures
        index_of_gap(s) == k,
    decreases k,
{
    if s.len() < 2 {
    } else if s[0] == ':' && s[1] == ':' {
        assert(gap_at(s, 0));
    } else {
        let t = s.skip(1);
        assert(!gap_at(s, 0));
        assert forall|j: int| 0 <= j < k - 1 implies !#[trigger] gap_at(t, j) by {
            assert(!gap_at(s, j + 1));
            if j + 1 < t.len() {
                assert(t[j] == s[j + 1]);
                assert(t[j + 1] == s[j + 2]);
            }
        }
        if k < s.len() {
            assert(t[k - 1] == s[k]);
            assert(t[k] == s[k + 1]);
        }
        lemma_index_of_gap_is(t, k - 1);
    }
}

fn find_gap(bytes: &[u8]) -> (p: usize)
    ensures
        p <= bytes@.len(),
        p == index_of_gap(chars_of(bytes@)),
        p < bytes@.len() ==> p + 2 <= bytes@.len(),
{
    let n = bytes.len();
    let ghost s = chars_of(bytes@);
    let mut p: usize = 0;
    while n - p > 1
        invariant
            p <= n == bytes@.len(),
            s == chars_of(bytes@),
            forall|j: int| 0 <= j < p ==> !#[trigger] gap_at(s, j),
        decreases n - p,
    {
        assert(s[p as int] == bytes@[p as int] as char);
        assert(s[p + 1] == bytes@[p + 1] as char);
        if bytes[p] == COLON && bytes[p + 1] == COLON {
            proof {
                lemma_index_of_gap_is(s, p as int);
            }
            return p;
        }
        p += 1;
    }
    proof {
        lemma_index_of_gap_is(s, n as int);
    }
    n
}

/// Reads an IPv6 address from the whole of `bytes`.
fn parse_ipv6(bytes: &[u8]) -> (r: Option<IpAddress>)
    ensures
        r == ipv6_of_text(chars_of(bytes@)),
{
    let n = bytes.len();
    let ghost s = chars_of(bytes@);
    let p = find_gap(bytes);
    if p >= n {
        assert(range_of(bytes@, 0, n as int) =~= s);
        match parse_groups(bytes, 0, n, true) {
            Some(groups) => {
                if groups.len() == 8 {
                    Some(
                        IpAddress::V6(
                            groups[0],
                            groups[1],
                            groups[2],
                            groups[3],
                            groups[4],
                            groups[5],
                            groups[6],
                            groups[7],
                        ),
                    )
                } else {
                    None
                }
            },
            None => None,
        }
    } else {
        assert(range_of(bytes@, 0, p as int) =~= s.take(p as int));
        assert(range_of(bytes@, p + 2, n as int) =~= s.skip(p + 2));
        let head = parse_groups(bytes, 0, p, false);
        let tail = parse_groups(bytes, p + 2, n, true);
        match (head, tail) {
            (Some(head), Some(tail)) => {
                if head.len() > 7 || tail.len() > 7 - head.len() {
                    return None;
                }
                let ghost fill = zero_groups(8 - head.len() - tail.len());
                let mut groups: Vec<u16> = Vec::new();
                let mut i: usize = 0;
                while i < 8
                    invariant
                        i <= 8,
                        head.len() + tail.len() <= 7,
                        fill == zero_groups(8 - head.len() - tail.len()),
                        groups@ =~= (head@ + fill + tail@).take(i as int),
                    decreases 8 - i,
                {
                    let g: u16 = if i < head.len() {
                        head[i]
                    } else if i < 8 - tail.len() {
                        0
                    } else {
                        tail[i - (8 - tail.len())]
                    };
                    groups.push(g);
                    i += 1;
                }
                assert(groups@ =~= head@ + fill + tail@);
                Some(
                    IpAddress::V6(
                        groups[0],
                        groups[1],
                        groups[2],
                        groups[3],
                        groups[4],
                        groups[5],
                        groups[6],
                        groups[7],
                    ),
                )
            },
            _ => None,
        }
    }
}

/// The characters that texts of addresses are made of.
pub open spec fn is_address_char(c: char) -> bool {
    is_hex_digit(c) || c == '.' || c == ':'
}

pub open spec fn all_address_chars(s: Seq<char>) -> bool {
    forall|i: int| 0 <= i < s.len() ==> is_address_char(#[trigger] s[i])
}

/// The text of an IPv4 address holds digits and dots only.
proof fn lemma_ipv4_text_chars(s: Seq<char>)
    requires
        ipv4_of_text(s) is Some,
    ensures
        all_address_chars(s),
{
    assert forall|i: int| 0 <= i < s.len() implies is_address_char(#[trigger] s[i]) by {
        if s[i] != '.' {
            let at = lemma_split_covers(s, '.', i);
            let part = split(s, '.')[at.0];
            assert(octet_of_text(part) is Some);
            assert(is_digit(part[at.1]));
        }
    }
}

/// Every part of a text that denotes groups is a group or an IPv4 address.
proof fn lemma_groups_of_parts_each(parts: Seq<Seq<char>>, dotted: bool, p: int)
    requires
        groups_of_parts(parts, dotted) is Some,
        0 <= p < parts.len(),
    ensures
        group_of_text(parts[p]) is Some || ipv4_of_text(parts[p]) is Some,
    decreases parts.len(),
{
    if p + 1 < parts.len() {
        lemma_groups_of_parts_each(parts.drop_last(), false, p);
    }
}

/// A text that denotes groups holds hexadecimal digits, dots and colons only.
proof fn lemma_groups_text_chars(s: Seq<char>, dotted: bool)
    requires
        groups_of_text(s, dotted) is Some,
    ensures
        all_address_chars(s),
{
    assert forall|i: int| 0 <= i < s.len() implies is_address_char(#[trigger] s[i]) by {
        if s[i] != ':' {
            let at = lemma_split_covers(s, ':', i);
            let part = split(s, ':')[at.0];
            lemma_groups_of_parts_each(split(s, ':'), dotted, at.0);
            if group_of_text(part) is Some {
                assert(is_hex_digit(part[at.1]));
            } else {
                lemma_ipv4_text_chars(part);
                assert(is_address_char(part[at.1]));
            }
        }
    }
}

/// `::` stands where [`index_of_gap`] says, if anywhere.
proof fn lemma_index_of_gap_bounds(s: Seq<char>)
    ensures
        0 <= index_of_gap(s) <= s.len(),
        index_of_gap(s) < s.len() ==> gap_at(s, index_of_gap(s)),
    decreases s.len(),
{
    if s.len() < 2 {
    } else if s[0] == ':' && s[1] == ':' {
    } else {
        lemma_index_of_gap_bounds(s.skip(1));
        let k = index_of_gap(s.skip(1));
        if k < s.skip(1).len() {
            assert(s.skip(1)[k] == s[k + 1]);
            assert(s.skip(1)[k + 1] == s[k + 2]);
        }
    }
}

/// A text that denotes an address holds hexadecimal digits, dots and colons
/// only; in particular it is ASCII.
pub proof fn address_text_is_plain(s: Seq<char>)
    requires
        ip_of_text(s) is Some,
    ensures
        all_address_chars(s),
{
    if ipv4_of_text(s) is Some {
        lemma_ipv4_text_chars(s);
    } else {
        let p = index_of_gap(s);
        lemma_index_of_gap_bounds(s);
        if p >= s.len() {
            lemma_groups_text_chars(s, true);
        } else {
            let head = s.take(p);
            let tail = s.skip(p + 2);
            lemma_groups_text_chars(head, false);
            lemma_groups_text_chars(tail, true);
            assert forall|i: int| 0 <= i < s.len() implies is_address_char(#[trigger] s[i]) by {
                if i < p {
                    assert(head[i] == s[i]);
                } else if i >= p + 2 {
                    assert(tail[i - p - 2] == s[i]);
                }
            }
        }
    }
}

impl IpAddress {
    /// Reads an address from its text. Gives the address that the text
    /// denotes, and nothing for a text that denotes none.
    pub fn parse(text: &str) -> (r: Option<IpAddress>)
        ensures
            r == ip_of_text(text@),
    {
        if !text.is_ascii() {
            proof {
                if ip_of_text(text@) is Some {
                    address_text_is_plain(text@);
                    assert forall|i: int| 0 <= i < text@.len() implies '\0' <= #[trigger] text@[i]
                        <= '\u{7f}' by {
                        assert(is_address_char(text@[i]));
                    }
                }
            }
            return None;
        }
        let bytes = text.as_bytes();
        proof {
            vstd::string::is_ascii_spec_bytes(text);
            assert(chars_of(bytes@) =~= text@);
            assert(range_of(bytes@, 0, bytes@.len() as int) =~= text@);
        }
        match parse_ipv4(bytes, 0, bytes.len()) {
            Some(address) => Some(address),
            None => parse_ipv6(bytes),
        }
    }
}

} // verus!
