//! Addresses written out as text.
//!
//! An IPv4 address is written as its four octets in decimal, separated by
//! dots. An IPv6 address is written as its groups in lower-case hexadecimal
//! without leading zeros, separated by colons, with its longest run of two or
//! more zero groups (the first of them, where several are longest) written as
//! `::`. An IPv6 address that stands for an IPv4 address is written as
//! `::ffff:` and that address.

use vstd::prelude::*;
use vstd::string::StringExecFns;
use crate::address::IpAddress;

verus! {

/// The character for a digit below 16, in lower case.
pub open spec fn digit_char(d: nat) -> char {
    if d == 0 {
        '0'
    } else if d == 1 {
        '1'
    } else if d == 2 {
        '2'
    } else if d == 3 {
        '3'
    } else if d == 4 {
        '4'
    } else if d == 5 {
        '5'
    } else if d == 6 {
        '6'
    } else if d == 7 {
        '7'
    } else if d == 8 {
        '8'
    } else if d == 9 {
        '9'
    } else if d == 10 {
        'a'
    } else if d == 11 {
        'b'
    } else if d == 12 {
        'c'
    } else if d == 13 {
        'd'
    } else if d == 14 {
        'e'
    } else {
        'f'
    }
}

/// A number in decimal, without leading zeros.
pub open spec fn decimal_text(n: nat) -> Seq<char>
    decreases n,
{
    if n < 10 {
        seq![digit_char(n)]
    } else {
        decimal_text(n / 10).push(digit_char(n % 10))
    }
}

/// A number in lower-case hexadecimal, without leading zeros.
pub open spec fn hex_text(n: nat) -> Seq<char>
    decreases n,
{
    if n < 16 {
        seq![digit_char(n)]
    } else {
        hex_text(n / 16).push(digit_char(n % 16))
    }
}

/// Four octets in decimal between dots.
pub open spec fn ipv4_text(a: u8, b: u8, c: u8, d: u8) -> Seq<char> {
    decimal_text(a as nat) + seq!['.'] + decimal_text(b as nat) + seq!['.'] + decimal_text(
        c as nat,
    ) + seq!['.'] + decimal_text(d as nat)
}

/// Groups in hexadecimal between colons.
pub open spec fn joined_groups(groups: Seq<u16>) -> Seq<char>
    decreases groups.len(),
{
    if groups.len() == 0 {
        Seq::empty()
    } else if groups.len() == 1 {
        hex_text(groups[0] as nat)
    } else {
        joined_groups(groups.drop_last()) + seq![':'] + hex_text(groups.last() as nat)
    }
}

/// How many zero groups stand in a row just before position `i`.
pub open spec fn zeros_before(groups: Seq<u16>, i: int) -> int
    decreases i,
{
    if i <= 0 || i > groups.len() || groups[i - 1] != 0 {
        0
    } else {
        1 + zeros_before(groups, i - 1)
    }
}

/// The longest run of zero groups among the first `i` groups, as its start
/// and its length; the first one where several are longest, and `(0, 0)`
/// where no group is zero.
pub open spec fn longest_zero_run(groups: Seq<u16>, i: int) -> (int, int)
    decreases i,
{
    if i <= 0 {
        (0, 0)
    } else {
        let best = longest_zero_run(groups, i - 1);
        let current = zeros_before(groups, i);
        if current > best.1 {
            (i - current, current)
        } else {
            best
        }
    }
}

/// Whether eight groups stand for an IPv4 address: `0:0:0:0:0:ffff` and two
/// more.
pub open spec fn is_mapped(groups: Seq<u16>) -> bool {
    groups[0] == 0 && groups[1] == 0 && groups[2] == 0 && groups[3] == 0 && groups[4] == 0
        && groups[5] == 0xffff
}

/// Eight groups as the text of an IPv6 address.
pub open spec fn ipv6_text(groups: Seq<u16>) -> Seq<char> {
    if is_mapped(groups) {
        seq![':', ':', 'f', 'f', 'f', 'f', ':'] + ipv4_text(
            (groups[6] / 256) as u8,
            (groups[6] % 256) as u8,
            (groups[7] / 256) as u8,
            (groups[7] % 256) as u8,
        )
    } else {
        let run = longest_zero_run(groups, 8);
        if run.1 > 1 {
            joined_groups(groups.take(run.0)) + seq![':', ':'] + joined_groups(
                groups.skip(run.0 + run.1),
            )
        } else {
            joined_groups(groups)
        }
    }
}

/// An address as text.
pub open spec fn ip_text(address: IpAddress) -> Seq<char> {
    match address {
        IpAddress::V4(a, b, c, d) => ipv4_text(a, b, c, d),
        IpAddress::V6(..) => ipv6_text(address.groups()),
    }
}

fn push_digit(text: &mut String, d: u8)
    requires
        d < 16,
    ensures
        final(text)@ == old(text)@.push(digit_char(d as nat)),
{
    proof {
        reveal_strlit("0");
        reveal_strlit("1");
        reveal_strlit("2");
        reveal_strlit("3");
        reveal_strlit("4");
        reveal_strlit("5");
        reveal_strlit("6");
        reveal_strlit("7");
        reveal_strlit("8");
        reveal_strlit("9");
        reveal_strlit("a");
        reveal_strlit("b");
        reveal_strlit("c");
        reveal_strlit("d");
        reveal_strlit("e");
        reveal_strlit("f");
    }
    let digit = match d {
        0 => "0",
        1 => "1",
        2 => "2",
        3 => "3",
        4 => "4",
        5 => "5",
        6 => "6",
        7 => "7",
        8 => "8",
        9 => "9",
        10 => "a",
        11 => "b",
        12 => "c",
        13 => "d",
        14 => "e",
        _ => "f",
    };
    assert(digit@ =~= seq![digit_char(d as nat)]);
    text.append(digit);
    assert(text@ =~= old(text)@.push(digit_char(d as nat)));
}

fn push_decimal(text: &mut String, n: u8)
    ensures
        final(text)@ == old(text)@ + decimal_text(n as nat),
{
    reveal_with_fuel(decimal_text, 3);
    if n >= 100 {
        push_digit(text, n / 100);
    }
    if n >= 10 {
        push_digit(text, (n / 10) % 10);
    }
    push_digit(text, n % 10);
    assert(text@ =~= old(text)@ + decimal_text(n as nat));
}

fn push_hex(text: &mut String, n: u16)
    ensures
        final(text)@ == old(text)@ + hex_text(n as nat),
{
    reveal_with_fuel(hex_text, 4);
    if n >= 0x1000 {
        push_digit(text, (n / 0x1000) as u8);
    }
    if n >= 0x100 {
        push_digit(text, ((n / 0x100) % 16) as u8);
    }
    if n >= 0x10 {
        push_digit(text, ((n / 0x10) % 16) as u8);
    }
    push_digit(text, (n % 16) as u8);
    assert(text@ =~= old(text)@ + hex_text(n as nat));
}

fn push_ipv4(text: &mut String, a: u8, b: u8, c: u8, d: u8)
    ensures
        final(text)@ == old(text)@ + ipv4_text(a, b, c, d),
{
    proof {
        reveal_strlit(".");
    }
    assert("."@ =~= seq!['.']);
    push_decimal(text, a);
    text.append(".");
    push_decimal(text, b);
    text.append(".");
    push_decimal(text, c);
    text.append(".");
    push_decimal(text, d);
    assert(text@ =~= old(text)@ + ipv4_text(a, b, c, d));
}

/// Appends `groups[from..to]` in hexadecimal between colons.
fn push_groups(text: &mut String, groups: &[u16; 8], from: usize, to: usize)
    requires
        from <= to <= 8,
    ensures
        final(text)@ == old(text)@ + joined_groups(groups@.subrange(from as int, to as int)),
{
    proof {
        reveal_strlit(":");
    }
    assert(":"@ =~= seq![':']);
    let mut i: usize = from;
    while i < to
        invariant
            from <= i <= to <= 8,
            ":"@ == seq![':'],
            text@ == old(text)@ + joined_groups(groups@.subrange(from as int, i as int)),
        decreases to - i,
    {
        let ghost before = groups@.subrange(from as int, i as int);
        let ghost after = groups@.subrange(from as int, i + 1);
        assert(after.drop_last() =~= before);
        assert(after.last() == groups@[i as int]);
        if i > from {
            text.append(":");
        }
        push_hex(text, groups[i]);
        assert(text@ =~= old(text)@ + joined_groups(after));
        i += 1;
    }
}

/// Finds the longest run of zero groups.
fn find_zero_run(groups: &[u16; 8]) -> (run: (usize, usize))
    ensures
        (run.0 as int, run.1 as int) == longest_zero_run(groups@, 8),
        run.0 + run.1 <= 8,
{
    let mut best: (usize, usize) = (0, 0);
    let mut current: usize = 0;
    let mut i: usize = 0;
    while i < 8
        invariant
            i <= 8,
            current == zeros_before(groups@, i as int),
            current <= i,
            (best.0 as int, best.1 as int) == longest_zero_run(groups@, i as int),
            best.0 + best.1 <= i,
        decreases 8 - i,
    {
        if groups[i] == 0 {
            current += 1;
        } else {
            current = 0;
        }
        i += 1;
        if current > best.1 {
            best = (i - current, current);
        }
    }
    best
}

impl IpAddress {
    /// The address written out.
    pub fn to_text(&self) -> (text: String)
        ensures
            text@ == ip_text(*self),
    {
        let mut text = String::new();
        match *self {
            IpAddress::V4(a, b, c, d) => {
                push_ipv4(&mut text, a, b, c, d);
            },
            IpAddress::V6(a, b, c, d, e, f, g, h) => {
                let groups: [u16; 8] = [a, b, c, d, e, f, g, h];
                assert(groups@ =~= self.groups());
                if a == 0 && b == 0 && c == 0 && d == 0 && e == 0 && f == 0xffff {
                    proof {
                        reveal_strlit("::ffff:");
                    }
                    assert("::ffff:"@ =~= seq![':', ':', 'f', 'f', 'f', 'f', ':']);
                    text.append("::ffff:");
                    push_ipv4(
                        &mut text,
                        (g / 256) as u8,
                        (g % 256) as u8,
                        (h / 256) as u8,
                        (h % 256) as u8,
                    );
                } else {
                    let run = find_zero_run(&groups);
                    if run.1 > 1 {
                        proof {
                            reveal_strlit("::");
                        }
                        assert("::"@ =~= seq![':', ':']);
                        assert(groups@.subrange(0, run.0 as int) =~= groups@.take(run.0 as int));
                        assert(groups@.subrange(run.0 + run.1, 8) =~= groups@.skip(run.0 + run.1));
                        push_groups(&mut text, &groups, 0, run.0);
                        text.append("::");
                        push_groups(&mut text, &groups, run.0 + run.1, 8);
                    } else {
                        assert(groups@.subrange(0, 8) =~= groups@);
                        push_groups(&mut text, &groups, 0, 8);
                    }
                }
            },
        }
        text
    }
}

} // verus!
