//! What is written reads back: the text of an address denotes that address.

use vstd::prelude::*;
use crate::address::IpAddress;
use crate::address_format::{
    decimal_text, digit_char, hex_text, ip_text, ipv4_text, ipv6_text, is_mapped, joined_groups,
    longest_zero_run, zeros_before,
};
use crate::address_text::{
    gap_at, group_of_text, groups_of_parts, groups_of_text, index_of_gap, ip_of_text,
    ipv4_of_text, ipv6_of_text, lemma_index_of_gap_is, octet_of_text, zero_groups,
};
use crate::text::{
    all_digits, all_hex_digits, decimal_value, digit_value, hex_digit_value, hex_value, index_of,
    is_digit, is_hex_digit, lemma_index_of_bounds, lemma_index_of_is, split,
};

verus! {

/// A text without `c`.
spec fn lacks(s: Seq<char>, c: char) -> bool {
    forall|i: int| 0 <= i < s.len() ==> #[trigger] s[i] != c
}

proof fn lemma_digit_char(d: nat)
    requires
        d < 16,
    ensures
        is_hex_digit(digit_char(d)),
        hex_digit_value(digit_char(d)) == d,
        d < 10 ==> is_digit(digit_char(d)) && digit_value(digit_char(d)) == d,
        digit_char(d) == '0' <==> d == 0,
        digit_char(d) != ':',
        digit_char(d) != '.',
{
}

/// The decimal text of a number is made of digits, starts with no zero unless
/// it is `0`, and denotes the number.
proof fn lemma_decimal_text(n: nat)
    ensures
        decimal_text(n).len() >= 1,
        all_digits(decimal_text(n)),
        decimal_value(decimal_text(n)) == n,
        decimal_text(n).len() > 1 ==> decimal_text(n)[0] != '0',
        decimal_text(n)[0] == '0' ==> n == 0,
        n < 10 ==> decimal_text(n).len() == 1,
        10 <= n < 100 ==> decimal_text(n).len() == 2,
        100 <= n < 1000 ==> decimal_text(n).len() == 3,
    decreases n,
{
    let s = decimal_text(n);
    if n < 10 {
        lemma_digit_char(n);
        assert(s.drop_last() =~= Seq::<char>::empty());
        assert(decimal_value(s.drop_last()) == 0);
        assert(s.last() == digit_char(n));
        assert(decimal_value(s) == n);
    } else {
        lemma_decimal_text(n / 10);
        lemma_digit_char(n % 10);
        assert(s.drop_last() =~= decimal_text(n / 10));
        assert(s.last() == digit_char(n % 10));
        assert(decimal_value(s) == decimal_value(s.drop_last()) * 10 + digit_value(s.last()));
        assert(s[0] == decimal_text(n / 10)[0]);
    }
}

/// The hexadecimal text of a number is made of hexadecimal digits and
/// denotes the number.
proof fn lemma_hex_text(n: nat)
    ensures
        hex_text(n).len() >= 1,
        all_hex_digits(hex_text(n)),
        hex_value(hex_text(n)) == n,
        n < 0x10 ==> hex_text(n).len() == 1,
        0x10 <= n < 0x100 ==> hex_text(n).len() == 2,
        0x100 <= n < 0x1000 ==> hex_text(n).len() == 3,
        0x1000 <= n < 0x10000 ==> hex_text(n).len() == 4,
    decreases n,
{
    let s = hex_text(n);
    if n < 16 {
        lemma_digit_char(n);
        assert(s.drop_last() =~= Seq::<char>::empty());
        assert(hex_value(s.drop_last()) == 0);
        assert(s.last() == digit_char(n));
        assert(hex_value(s) == n);
    } else {
        lemma_hex_text(n / 16);
        lemma_digit_char(n % 16);
        assert(s.drop_last() =~= hex_text(n / 16));
        assert(s.last() == digit_char(n % 16));
        assert(hex_value(s) == hex_value(s.drop_last()) * 16 + hex_digit_value(s.last()));
    }
}

/// The text of an octet denotes the octet, and holds no dot and no colon.
proof fn lemma_octet_text(n: u8)
    ensures
        octet_of_text(decimal_text(n as nat)) == Some(n),
        lacks(decimal_text(n as nat), '.'),
        lacks(decimal_text(n as nat), ':'),
        all_digits(decimal_text(n as nat)),
        decimal_text(n as nat).len() >= 1,
{
    lemma_decimal_text(n as nat);
    let s = decimal_text(n as nat);
    assert forall|i: int| 0 <= i < s.len() implies #[trigger] s[i] != '.' && s[i] != ':' by {
        assert(is_digit(s[i]));
    }
}

/// The text of a group denotes the group, and holds no dot and no colon.
proof fn lemma_group_text(n: u16)
    ensures
        group_of_text(hex_text(n as nat)) == Some(n),
        lacks(hex_text(n as nat), '.'),
        lacks(hex_text(n as nat), ':'),
        all_hex_digits(hex_text(n as nat)),
        hex_text(n as nat).len() >= 1,
{
    lemma_hex_text(n as nat);
    let s = hex_text(n as nat);
    assert forall|i: int| 0 <= i < s.len() implies #[trigger] s[i] != '.' && s[i] != ':' by {
        assert(is_hex_digit(s[i]));
    }
}

/// A text without the separator is one part.
proof fn lemma_split_one(s: Seq<char>, sep: char)
    requires
        lacks(s, sep),
    ensures
        split(s, sep) == seq![s],
{
    lemma_index_of_is(s, sep, s.len() as int);
}

/// A part in front: a text without the separator, the separator, and more
/// text split into that text and the parts of the rest.
proof fn lemma_split_first(first: Seq<char>, sep: char, rest: Seq<char>)
    requires
        lacks(first, sep),
    ensures
        split(first + seq![sep] + rest, sep) == seq![first] + split(rest, sep),
{
    let s = first + seq![sep] + rest;
    let k = first.len() as int;
    assert forall|j: int| 0 <= j < k implies s[j] != sep by {
        assert(s[j] == first[j]);
    }
    assert(s[k] == sep);
    lemma_index_of_is(s, sep, k);
    assert(s.take(k) =~= first);
    assert(s.skip(k + 1) =~= rest);
}

/// A part at the end: text, the separator, and a text without the separator
/// split into the parts of the first text and that last part.
proof fn lemma_split_last(init: Seq<char>, sep: char, last: Seq<char>)
    requires
        lacks(last, sep),
    ensures
        split(init + seq![sep] + last, sep) == split(init, sep).push(last),
    decreases init.len(),
{
    let s = init + seq![sep] + last;
    let k = index_of(init, sep);
    lemma_index_of_bounds(init, sep);
    if k >= init.len() {
        assert(lacks(init, sep));
        lemma_split_first(init, sep, last);
        lemma_split_one(last, sep);
        assert(seq![init] + seq![last] =~= seq![init].push(last));
    } else {
        assert forall|j: int| 0 <= j < k implies s[j] != sep by {
            assert(s[j] == init[j]);
        }
        assert(s[k] == init[k]);
        lemma_index_of_is(s, sep, k);
        assert(s.take(k) =~= init.take(k));
        assert(s.skip(k + 1) =~= init.skip(k + 1) + seq![sep] + last);
        lemma_split_last(init.skip(k + 1), sep, last);
        assert(seq![init.take(k)] + split(init.skip(k + 1), sep).push(last) =~= (seq![
            init.take(k),
        ] + split(init.skip(k + 1), sep)).push(last));
    }
}

/// Two texts without `c` put together are without `c`.
proof fn lemma_lacks_concat(first: Seq<char>, second: Seq<char>, c: char)
    requires
        lacks(first, c),
        lacks(second, c),
    ensures
        lacks(first + second, c),
{
    let s = first + second;
    assert forall|i: int| 0 <= i < s.len() implies #[trigger] s[i] != c by {
        if i < first.len() {
            assert(s[i] == first[i]);
        } else {
            assert(s[i] == second[i - first.len()]);
        }
    }
}

/// The text of an IPv4 address holds no colon.
proof fn lemma_ipv4_text_lacks_colon(a: u8, b: u8, c: u8, d: u8)
    ensures
        lacks(ipv4_text(a, b, c, d), ':'),
{
    lemma_octet_text(a);
    lemma_octet_text(b);
    lemma_octet_text(c);
    lemma_octet_text(d);
    let dot = seq!['.'];
    assert(lacks(dot, ':'));
    let t1 = decimal_text(a as nat) + dot;
    lemma_lacks_concat(decimal_text(a as nat), dot, ':');
    let t2 = t1 + decimal_text(b as nat);
    lemma_lacks_concat(t1, decimal_text(b as nat), ':');
    let t3 = t2 + dot;
    lemma_lacks_concat(t2, dot, ':');
    let t4 = t3 + decimal_text(c as nat);
    lemma_lacks_concat(t3, decimal_text(c as nat), ':');
    let t5 = t4 + dot;
    lemma_lacks_concat(t4, dot, ':');
    lemma_lacks_concat(t5, decimal_text(d as nat), ':');
    assert(ipv4_text(a, b, c, d) =~= t5 + decimal_text(d as nat));
}

/// The text of an IPv4 address splits at its dots into the texts of its
/// octets.
proof fn lemma_ipv4_text_parts(a: u8, b: u8, c: u8, d: u8)
    ensures
        split(ipv4_text(a, b, c, d), '.') == seq![
            decimal_text(a as nat),
            decimal_text(b as nat),
            decimal_text(c as nat),
            decimal_text(d as nat),
        ],
{
    lemma_octet_text(a);
    lemma_octet_text(b);
    lemma_octet_text(c);
    lemma_octet_text(d);
    let ta = decimal_text(a as nat);
    let tb = decimal_text(b as nat);
    let tc = decimal_text(c as nat);
    let td = decimal_text(d as nat);
    let dot = seq!['.'];
    let r3 = tc + dot + td;
    let r2 = tb + dot + r3;
    let s = ipv4_text(a, b, c, d);
    assert(s =~= ta + dot + r2);
    lemma_split_first(ta, '.', r2);
    lemma_split_first(tb, '.', r3);
    lemma_split_first(tc, '.', td);
    lemma_split_one(td, '.');
    assert(split(r3, '.') =~= seq![tc, td]);
    assert(split(r2, '.') =~= seq![tb, tc, td]);
    assert(split(s, '.') =~= seq![ta, tb, tc, td]);
}

/// The text of an IPv4 address denotes the address, and holds no colon.
proof fn lemma_ipv4_text_reads_back(a: u8, b: u8, c: u8, d: u8)
    ensures
        ipv4_of_text(ipv4_text(a, b, c, d)) == Some(IpAddress::V4(a, b, c, d)),
        lacks(ipv4_text(a, b, c, d), ':'),
{
    lemma_octet_text(a);
    lemma_octet_text(b);
    lemma_octet_text(c);
    lemma_octet_text(d);
    lemma_ipv4_text_parts(a, b, c, d);
    lemma_ipv4_text_lacks_colon(a, b, c, d);
}

/// What holds of groups written between colons: hexadecimal digits and
/// colons only, no two colons in a row, and a digit at either end.
spec fn well_joined(s: Seq<char>) -> bool {
    &&& forall|i: int| 0 <= i < s.len() ==> is_hex_digit(#[trigger] s[i]) || s[i] == ':'
    &&& forall|i: int| 0 <= i ==> !#[trigger] gap_at(s, i)
    &&& s.len() > 0 ==> is_hex_digit(s[0]) && is_hex_digit(s.last())
}

/// The hexadecimal texts of groups.
spec fn texts_of(groups: Seq<u16>) -> Seq<Seq<char>> {
    Seq::new(groups.len(), |i: int| hex_text(groups[i] as nat))
}

/// Groups written between colons are well joined, and split at the colons
/// into the texts of the groups.
proof fn lemma_joined_groups(groups: Seq<u16>)
    ensures
        well_joined(joined_groups(groups)),
        groups.len() > 0 ==> joined_groups(groups).len() > 0,
        groups.len() > 0 ==> split(joined_groups(groups), ':') == texts_of(groups),
    decreases groups.len(),
{
    let s = joined_groups(groups);
    if groups.len() == 0 {
    } else if groups.len() == 1 {
        lemma_group_text(groups[0]);
        lemma_split_one(s, ':');
        assert(texts_of(groups) =~= seq![s]);
        assert forall|i: int| 0 <= i implies !#[trigger] gap_at(s, i) by {
            if i + 1 < s.len() {
                assert(s[i] != ':');
            }
        }
    } else {
        let init = joined_groups(groups.drop_last());
        let last = hex_text(groups.last() as nat);
        lemma_joined_groups(groups.drop_last());
        lemma_group_text(groups.last());
        lemma_split_last(init, ':', last);
        assert(texts_of(groups) =~= texts_of(groups.drop_last()).push(last));
        assert forall|i: int| 0 <= i < s.len() implies is_hex_digit(#[trigger] s[i]) || s[i]
            == ':' by {
            if i < init.len() {
                assert(s[i] == init[i]);
            } else if i > init.len() {
                assert(s[i] == last[i - init.len() - 1]);
            }
        }
        assert forall|i: int| 0 <= i implies !#[trigger] gap_at(s, i) by {
            if i + 1 < s.len() {
                if i + 1 < init.len() {
                    assert(s[i] == init[i]);
                    assert(s[i + 1] == init[i + 1]);
                    assert(!gap_at(init, i));
                } else if i + 1 == init.len() {
                    assert(s[i] == init.last());
                } else {
                    assert(s[i + 1] == last[i - init.len()]);
                }
            }
        }
        assert(s[0] == init[0]);
        assert(s.last() == last.last());
    }
}

/// The texts of groups denote the groups.
proof fn lemma_groups_of_texts(groups: Seq<u16>, dotted: bool)
    ensures
        groups_of_parts(texts_of(groups), dotted) == Some(groups),
    decreases groups.len(),
{
    let parts = texts_of(groups);
    if groups.len() == 0 {
        assert(groups =~= Seq::<u16>::empty());
    } else {
        lemma_groups_of_texts(groups.drop_last(), false);
        lemma_group_text(groups.last());
        assert(parts.drop_last() =~= texts_of(groups.drop_last()));
        assert(parts.last() == hex_text(groups.last() as nat));
        assert(groups.drop_last().push(groups.last()) =~= groups);
    }
}

/// Groups written between colons denote the groups, hold no `::` and no dot.
proof fn lemma_joined_groups_read_back(groups: Seq<u16>, dotted: bool)
    ensures
        groups_of_text(joined_groups(groups), dotted) == Some(groups),
        well_joined(joined_groups(groups)),
        lacks(joined_groups(groups), '.'),
        groups.len() > 0 ==> joined_groups(groups).len() > 0,
{
    lemma_joined_groups(groups);
    lemma_groups_of_texts(groups, dotted);
    let s = joined_groups(groups);
    if groups.len() == 0 {
        assert(groups =~= Seq::<u16>::empty());
    }
    assert forall|i: int| 0 <= i < s.len() implies #[trigger] s[i] != '.' by {
        assert(is_hex_digit(s[i]) || s[i] == ':');
    }
}

/// The zero groups counted just before a position are zero, and are there.
proof fn lemma_zeros_before(groups: Seq<u16>, i: int)
    requires
        0 <= i <= groups.len(),
    ensures
        0 <= zeros_before(groups, i) <= i,
        forall|j: int| i - zeros_before(groups, i) <= j < i ==> groups[j] == 0,
    decreases i,
{
    if i <= 0 || groups[i - 1] != 0 {
    } else {
        lemma_zeros_before(groups, i - 1);
    }
}

/// The longest run of zero groups is a run of zero groups.
proof fn lemma_longest_zero_run(groups: Seq<u16>, i: int)
    requires
        0 <= i <= groups.len(),
    ensures
        0 <= longest_zero_run(groups, i).0,
        0 <= longest_zero_run(groups, i).1,
        longest_zero_run(groups, i).0 + longest_zero_run(groups, i).1 <= i,
        forall|j: int|
            longest_zero_run(groups, i).0 <= j < longest_zero_run(groups, i).0 + longest_zero_run(
                groups,
                i,
            ).1 ==> groups[j] == 0,
    decreases i,
{
    if i > 0 {
        lemma_longest_zero_run(groups, i - 1);
        lemma_zeros_before(groups, i);
    }
}

/// A run of zero groups that ends at a position is counted there in full.
proof fn lemma_zeros_before_covers(groups: Seq<u16>, start: int, i: int)
    requires
        0 <= start <= i <= groups.len(),
        forall|j: int| start <= j < i ==> groups[j] == 0,
    ensures
        zeros_before(groups, i) >= i - start,
    decreases i - start,
{
    lemma_zeros_before(groups, i);
    if start < i {
        assert(groups[i - 1] == 0);
        lemma_zeros_before_covers(groups, start, i - 1);
    }
}

/// Of the runs of zero groups among the first `i` groups, none is longer
/// than the longest, and none as long starts before it.
proof fn lemma_longest_zero_run_is_longest(groups: Seq<u16>, i: int, start: int, len: int)
    requires
        0 <= i <= groups.len(),
        0 <= start,
        0 <= len,
        start + len <= i,
        forall|j: int| start <= j < start + len ==> groups[j] == 0,
    ensures
        len <= longest_zero_run(groups, i).1,
        len > 0 && len == longest_zero_run(groups, i).1 ==> longest_zero_run(groups, i).0 <= start,
    decreases i,
{
    if i > 0 {
        lemma_longest_zero_run(groups, i - 1);
        lemma_zeros_before(groups, i);
        if start + len <= i - 1 {
            lemma_longest_zero_run_is_longest(groups, i - 1, start, len);
        } else {
            lemma_zeros_before_covers(groups, start, i);
        }
    }
}

/// The gap of an IPv6 text is well chosen: the run of zero groups that is
/// left out holds zero groups only, no run of zero groups is longer, and no
/// run as long starts before it.
pub proof fn longest_zero_run_is_longest(groups: Seq<u16>, start: int, len: int)
    requires
        groups.len() == 8,
        0 <= start,
        0 < len,
        start + len <= 8,
        forall|j: int| start <= j < start + len ==> groups[j] == 0,
    ensures
        len <= longest_zero_run(groups, 8).1,
        len == longest_zero_run(groups, 8).1 ==> longest_zero_run(groups, 8).0 <= start,
        0 <= longest_zero_run(groups, 8).0,
        longest_zero_run(groups, 8).0 + longest_zero_run(groups, 8).1 <= 8,
        forall|j: int|
            longest_zero_run(groups, 8).0 <= j < longest_zero_run(groups, 8).0 + longest_zero_run(
                groups,
                8,
            ).1 ==> groups[j] == 0,
{
    lemma_longest_zero_run(groups, 8);
    lemma_longest_zero_run_is_longest(groups, 8, start, len);
}

/// No text made of hexadecimal digits and colons denotes an IPv4 address.
proof fn lemma_no_dot_no_ipv4(s: Seq<char>)
    requires
        lacks(s, '.'),
    ensures
        ipv4_of_text(s) is None,
{
    lemma_split_one(s, '.');
}

/// `::ffff:` and a dotted quad denote no IPv4 address.
proof fn lemma_mapped_no_ipv4(a: u8, b: u8, c: u8, d: u8)
    ensures
        ipv4_of_text(seq![':', ':', 'f', 'f', 'f', 'f', ':'] + ipv4_text(a, b, c, d)) is None,
{
    let s = seq![':', ':', 'f', 'f', 'f', 'f', ':'] + ipv4_text(a, b, c, d);
    let ta = decimal_text(a as nat);
    lemma_octet_text(a);
    let first = seq![':', ':', 'f', 'f', 'f', 'f', ':'] + ta;
    let rest = decimal_text(b as nat) + seq!['.'] + decimal_text(c as nat) + seq!['.']
        + decimal_text(d as nat);
    assert(s =~= first + seq!['.'] + rest);
    assert forall|i: int| 0 <= i < first.len() implies #[trigger] first[i] != '.' by {
        if i >= 7 {
            assert(first[i] == ta[i - 7]);
        }
    }
    lemma_split_first(first, '.', rest);
    assert(split(s, '.')[0] == first);
    assert(first[0] == ':');
    assert(!is_digit(first[0]));
    assert(octet_of_text(first) is None);
}

/// In `::ffff:` and a dotted quad the gap stands in front, and `ffff:` and
/// the dotted quad follow it.
proof fn lemma_mapped_gap(quad: Seq<char>)
    ensures
        index_of_gap(seq![':', ':', 'f', 'f', 'f', 'f', ':'] + quad) == 0,
        (seq![':', ':', 'f', 'f', 'f', 'f', ':'] + quad).take(0) == Seq::<char>::empty(),
        (seq![':', ':', 'f', 'f', 'f', 'f', ':'] + quad).skip(2) == seq!['f', 'f', 'f', 'f']
            + seq![':'] + quad,
{
    let s = seq![':', ':', 'f', 'f', 'f', 'f', ':'] + quad;
    assert(s[0] == ':' && s[1] == ':');
    assert(gap_at(s, 0));
    lemma_index_of_gap_is(s, 0);
    assert(s.take(0) =~= Seq::<char>::empty());
    assert(s.skip(2) =~= seq!['f', 'f', 'f', 'f'] + seq![':'] + quad);
}

/// The text of an IPv6 address that stands for an IPv4 address denotes it.
proof fn lemma_mapped_text_reads_back(groups: Seq<u16>)
    requires
        groups.len() == 8,
        is_mapped(groups),
    ensures
        ipv4_of_text(ipv6_text(groups)) is None,
        ipv6_of_text(ipv6_text(groups)) == Some(IpAddress::of_groups(groups)),
{
    let a = (groups[6] / 256) as u8;
    let b = (groups[6] % 256) as u8;
    let c = (groups[7] / 256) as u8;
    let d = (groups[7] % 256) as u8;
    let quad = ipv4_text(a, b, c, d);
    lemma_ipv4_text_reads_back(a, b, c, d);
    lemma_mapped_no_ipv4(a, b, c, d);
    lemma_mapped_gap(quad);
    lemma_mapped_tail(a, b, c, d);
    let found = seq![0xffffu16, (a * 256 + b) as u16, (c * 256 + d) as u16];
    assert((a * 256 + b) as u16 == groups[6]);
    assert((c * 256 + d) as u16 == groups[7]);
    assert(Seq::<u16>::empty() + zero_groups(5) + found =~= groups);
}

/// `ffff:` and a dotted quad denote three groups.
proof fn lemma_mapped_tail(a: u8, b: u8, c: u8, d: u8)
    ensures
        groups_of_text(seq!['f', 'f', 'f', 'f'] + seq![':'] + ipv4_text(a, b, c, d), true) == Some(
            seq![0xffffu16, (a * 256 + b) as u16, (c * 256 + d) as u16],
        ),
{
    let quad = ipv4_text(a, b, c, d);
    let ffff = seq!['f', 'f', 'f', 'f'];
    let tail = ffff + seq![':'] + quad;
    let ta = decimal_text(a as nat);
    lemma_ipv4_text_reads_back(a, b, c, d);
    lemma_octet_text(a);
    assert(hex_text(0xffff) =~= ffff) by {
        reveal_with_fuel(hex_text, 4);
    }
    lemma_group_text(0xffffu16);
    lemma_split_first(ffff, ':', quad);
    lemma_split_one(quad, ':');
    let parts = split(tail, ':');
    assert(parts =~= seq![ffff, quad]);
    assert(parts.drop_last() =~= seq![ffff]);
    assert(parts.drop_last().drop_last() =~= Seq::<Seq<char>>::empty());
    assert(groups_of_parts(parts.drop_last().drop_last(), false) == Some(Seq::<u16>::empty()));
    assert(Seq::<u16>::empty().push(0xffffu16) =~= seq![0xffffu16]);
    assert(groups_of_parts(parts.drop_last(), false) == Some(seq![0xffffu16]));
    // the dotted quad is no group: it holds a dot
    assert(quad[ta.len() as int] == '.');
    assert(!is_hex_digit(quad[ta.len() as int]));
    assert(group_of_text(quad) is None);
    assert(parts.last() == quad);
    assert(seq![0xffffu16].push((a * 256 + b) as u16).push((c * 256 + d) as u16) =~= seq![
        0xffffu16,
        (a * 256 + b) as u16,
        (c * 256 + d) as u16,
    ]);
}

/// The text of an IPv6 address with a gap denotes the address.
proof fn lemma_gapped_text_reads_back(groups: Seq<u16>)
    requires
        groups.len() == 8,
        !is_mapped(groups),
        longest_zero_run(groups, 8).1 > 1,
    ensures
        ipv4_of_text(ipv6_text(groups)) is None,
        ipv6_of_text(ipv6_text(groups)) == Some(IpAddress::of_groups(groups)),
{
    let s = ipv6_text(groups);
    let run = longest_zero_run(groups, 8);
    lemma_longest_zero_run(groups, 8);
    let head = groups.take(run.0);
    let tail = groups.skip(run.0 + run.1);
    let head_text = joined_groups(head);
    let tail_text = joined_groups(tail);
    lemma_joined_groups_read_back(head, false);
    lemma_joined_groups_read_back(tail, true);
    assert(s =~= head_text + seq![':', ':'] + tail_text);
    let p = head_text.len() as int;
    assert forall|i: int| 0 <= i < s.len() implies #[trigger] s[i] != '.' by {
        if i < p {
            assert(s[i] == head_text[i]);
        } else if i >= p + 2 {
            assert(s[i] == tail_text[i - p - 2]);
        }
    }
    lemma_no_dot_no_ipv4(s);
    assert forall|j: int| 0 <= j < p implies !#[trigger] gap_at(s, j) by {
        if j + 1 < p {
            assert(s[j] == head_text[j]);
            assert(s[j + 1] == head_text[j + 1]);
            assert(!gap_at(head_text, j));
        } else {
            assert(s[j] == head_text.last());
        }
    }
    assert(s[p] == ':' && s[p + 1] == ':');
    assert(gap_at(s, p));
    lemma_index_of_gap_is(s, p);
    assert(s.take(p) =~= head_text);
    assert(s.skip(p + 2) =~= tail_text);
    assert(head + zero_groups(8 - head.len() - tail.len()) + tail =~= groups);
}

/// The text of an IPv6 address without a gap denotes the address.
proof fn lemma_plain_text_reads_back(groups: Seq<u16>)
    requires
        groups.len() == 8,
        !is_mapped(groups),
        longest_zero_run(groups, 8).1 <= 1,
    ensures
        ipv4_of_text(ipv6_text(groups)) is None,
        ipv6_of_text(ipv6_text(groups)) == Some(IpAddress::of_groups(groups)),
{
    let s = ipv6_text(groups);
    lemma_joined_groups_read_back(groups, true);
    lemma_no_dot_no_ipv4(s);
    assert forall|j: int| 0 <= j < s.len() implies !#[trigger] gap_at(s, j) by {}
    lemma_index_of_gap_is(s, s.len() as int);
}

/// The text of an IPv6 address denotes the address.
proof fn lemma_ipv6_text_reads_back(address: IpAddress)
    requires
        address is V6,
    ensures
        ip_of_text(ip_text(address)) == Some(address),
{
    let groups = address.groups();
    assert(IpAddress::of_groups(groups) == address);
    if is_mapped(groups) {
        lemma_mapped_text_reads_back(groups);
    } else if longest_zero_run(groups, 8).1 > 1 {
        lemma_gapped_text_reads_back(groups);
    } else {
        lemma_plain_text_reads_back(groups);
    }
}

/// Writing an address and reading the text gives the address back.
pub proof fn text_reads_back(address: IpAddress)
    ensures
        ip_of_text(ip_text(address)) == Some(address),
{
    match address {
        IpAddress::V4(a, b, c, d) => {
            lemma_ipv4_text_reads_back(a, b, c, d);
        },
        IpAddress::V6(..) => {
            lemma_ipv6_text_reads_back(address);
        },
    }
}

} // verus!
