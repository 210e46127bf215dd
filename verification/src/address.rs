//! Source addresses and their canonical text.
//!
//! An [`Address`] holds the numeric value of an IPv4 or IPv6 address, so two
//! addresses are equal exactly when they denote the same host. The text of an
//! address is what is handed to the packet filter: dotted decimal for IPv4,
//! and for IPv6 lower-case hexadecimal groups with the first longest run of
//! two or more zero groups written as `::`.

use vstd::prelude::*;
use vstd::string::*;

verus! {

/// An IPv4 address by its four octets, or an IPv6 address by its eight
/// 16-bit groups, most significant first.
#[derive(Clone, Copy, Debug, PartialEq, Eq, Hash, Structural)]
pub enum Address {
    V4(u8, u8, u8, u8),
    V6(u16, u16, u16, u16, u16, u16, u16, u16),
}

/// The character that stands for the digit `d` in bases up to sixteen.
pub open spec fn digit(d: nat) -> char {
    if d == 0 {
        '0'
    } else if d == 1 {
        '1'
    } else if d == 2 {
        '2'
    } else if d == 3 {
        '3'
    } else if d == 4 {
        '4'
    } else if d == 5 {
        '5'
    } else if d == 6 {
        '6'
    } else if d == 7 {
        '7'
    } else if d == 8 {
        '8'
    } else if d == 9 {
        '9'
    } else if d == 10 {
        'a'
    } else if d == 11 {
        'b'
    } else if d == 12 {
        'c'
    } else if d == 13 {
        'd'
    } else if d == 14 {
        'e'
    } else {
        'f'
    }
}

/// `n` in decimal, without leading zeros.
pub open spec fn decimal(n: nat) -> Seq<char>
    decreases n,
{
    if n < 10 {
        seq![digit(n)]
    } else {
        decimal(n / 10).push(digit(n % 10))
    }
}

/// `n` in lower-case hexadecimal, without leading zeros.
pub open spec fn hexadecimal(n: nat) -> Seq<char>
    decreases n,
{
    if n < 16 {
        seq![digit(n)]
    } else {
        hexadecimal(n / 16).push(digit(n % 16))
    }
}

/// Four octets in dotted decimal.
pub open spec fn dotted(a: u8, b: u8, c: u8, d: u8) -> Seq<char> {
    decimal(a as nat) + seq!['.'] + decimal(b as nat) + seq!['.'] + decimal(c as nat) + seq!['.']
        + decimal(d as nat)
}

/// How many consecutive groups, starting with the one at `i`, are zero.
pub open spec fn zero_run(groups: Seq<u16>, i: int) -> nat
    decreases groups.len() - i,
{
    if 0 <= i < groups.len() && groups[i] == 0 {
        1 + zero_run(groups, i + 1)
    } else {
        0
    }
}

/// The length of the longest run of zero groups that starts before `n`.
pub open spec fn longest_zero_run(groups: Seq<u16>, n: int) -> nat
    decreases n,
{
    if n <= 0 {
        0
    } else {
        let before = longest_zero_run(groups, n - 1);
        let here = zero_run(groups, n - 1);
        if here > before {
            here
        } else {
            before
        }
    }
}

/// The first position at or after `i` where a run of `len` zero groups
/// starts, or the number of groups if there is none.
pub open spec fn first_zero_run(groups: Seq<u16>, len: nat, i: int) -> int
    decreases groups.len() - i,
{
    if i < 0 || i >= groups.len() || zero_run(groups, i) == len {
        i
    } else {
        first_zero_run(groups, len, i + 1)
    }
}

/// The groups from `from` up to, not including, `to` in hexadecimal, with a
/// colon between neighbours.
pub open spec fn joined(groups: Seq<u16>, from: int, to: int) -> Seq<char>
    decreases to - from,
{
    if to <= from {
        Seq::empty()
    } else if to == from + 1 {
        hexadecimal(groups[from] as nat)
    } else {
        joined(groups, from, to - 1) + seq![':'] + hexadecimal(groups[to - 1] as nat)
    }
}

/// Whether eight groups carry an IPv4 address in their last 32 bits, behind
/// eighty zero bits and sixteen one bits.
pub open spec fn is_mapped(groups: Seq<u16>) -> bool {
    &&& groups.len() == 8
    &&& groups[0] == 0
    &&& groups[1] == 0
    &&& groups[2] == 0
    &&& groups[3] == 0
    &&& groups[4] == 0
    &&& groups[5] == 0xffff
}

/// The canonical text of eight IPv6 groups.
pub open spec fn grouped(groups: Seq<u16>) -> Seq<char> {
    if is_mapped(groups) {
        seq![':', ':', 'f', 'f', 'f', 'f', ':'] + dotted(
            (groups[6] / 256) as u8,
            (groups[6] % 256) as u8,
            (groups[7] / 256) as u8,
            (groups[7] % 256) as u8,
        )
    } else {
        let len = longest_zero_run(groups, 8);
        let start = first_zero_run(groups, len, 0);
        if len >= 2 {
            joined(groups, 0, start) + seq![':', ':'] + joined(groups, start + len, 8)
        } else {
            joined(groups, 0, 8)
        }
    }
}

impl Address {
    /// The eight groups of an IPv6 address; empty for IPv4.
    pub open spec fn groups(self) -> Seq<u16> {
        match self {
            Address::V4(..) => Seq::empty(),
            Address::V6(a, b, c, d, e, f, g, h) => seq![a, b, c, d, e, f, g, h],
        }
    }

    /// The canonical text of the address.
    pub open spec fn text(self) -> Seq<char> {
        match self {
            Address::V4(a, b, c, d) => dotted(a, b, c, d),
            Address::V6(..) => grouped(self.groups()),
        }
    }

    /// Whether this is an IPv6 address.
    pub fn is_ipv6(&self) -> (v6: bool)
        ensures
            v6 == (*self is V6),
    {
        match self {
            Address::V4(..) => false,
            Address::V6(..) => true,
        }
    }
}

/// Appends the character of one digit.
fn push_digit(out: &mut String, d: u8)
    requires
        d < 16,
    ensures
        final(out)@ == old(out)@.push(digit(d as nat)),
{
    proof {
        reveal_strlit("0");
        reveal_strlit("1");
        reveal_strlit("2");
        reveal_strlit("3");
        reveal_strlit("4");
        reveal_strlit("5");
        reveal_strlit("6");
        reveal_strlit("7");
        reveal_strlit("8");
        reveal_strlit("9");
        reveal_strlit("a");
        reveal_strlit("b");
        reveal_strlit("c");
        reveal_strlit("d");
        reveal_strlit("e");
        reveal_strlit("f");
    }
    let glyph = match d {
        0 => "0",
        1 => "1",
        2 => "2",
        3 => "3",
        4 => "4",
        5 => "5",
        6 => "6",
        7 => "7",
        8 => "8",
        9 => "9",
        10 => "a",
        11 => "b",
        12 => "c",
        13 => "d",
        14 => "e",
        _ => "f",
    };
    assert(glyph@ =~= seq![digit(d as nat)]);
    out.append(glyph);
    assert(out@ =~= old(out)@.push(digit(d as nat)));
}

/// Appends `n` in decimal.
fn push_decimal(out: &mut String, n: u8)
    ensures
        final(out)@ == old(out)@ + decimal(n as nat),
{
    reveal_with_fuel(decimal, 3);
    if n >= 100 {
        push_digit(out, n / 100);
        push_digit(out, (n / 10) % 10);
        push_digit(out, n % 10);
    } else if n >= 10 {
        push_digit(out, n / 10);
        push_digit(out, n % 10);
    } else {
        push_digit(out, n);
    }
    assert(out@ =~= old(out)@ + decimal(n as nat));
}

/// Appends `n` in hexadecimal.
fn push_hexadecimal(out: &mut String, n: u16)
    ensures
        final(out)@ == old(out)@ + hexadecimal(n as nat),
{
    reveal_with_fuel(hexadecimal, 4);
    if n >= 0x1000 {
        push_digit(out, (n / 0x1000) as u8);
        push_digit(out, ((n / 0x100) % 16) as u8);
        push_digit(out, ((n / 0x10) % 16) as u8);
        push_digit(out, (n % 16) as u8);
    } else if n >= 0x100 {
        push_digit(out, (n / 0x100) as u8);
        push_digit(out, ((n / 0x10) % 16) as u8);
        push_digit(out, (n % 16) as u8);
    } else if n >= 0x10 {
        push_digit(out, (n / 0x10) as u8);
        push_digit(out, (n % 16) as u8);
    } else {
        push_digit(out, n as u8);
    }
    assert(out@ =~= old(out)@ + hexadecimal(n as nat));
}

/// Appends four octets in dotted decimal.
fn push_dotted(out: &mut String, a: u8, b: u8, c: u8, d: u8)
    ensures
        final(out)@ == old(out)@ + dotted(a, b, c, d),
{
    proof {
        reveal_strlit(".");
    }
    assert("."@ =~= seq!['.']);
    push_decimal(out, a);
    out.append(".");
    push_decimal(out, b);
    out.append(".");
    push_decimal(out, c);
    out.append(".");
    push_decimal(out, d);
    assert(out@ =~= old(out)@ + dotted(a, b, c, d));
}

/// Appends the groups from `from` up to, not including, `to`, with a colon
/// between neighbours.
fn push_joined(out: &mut String, groups: &[u16; 8], from: usize, to: usize)
    requires
        from <= to <= 8,
    ensures
        final(out)@ == old(out)@ + joined(groups@, from as int, to as int),
{
    proof {
        reveal_strlit(":");
    }
    assert(":"@ =~= seq![':']);
    assert(out@ =~= old(out)@ + joined(groups@, from as int, from as int));
    let mut i: usize = from;
    while i < to
        invariant
            from <= i <= to <= 8,
            ":"@ == seq![':'],
            out@ == old(out)@ + joined(groups@, from as int, i as int),
        decreases to - i,
    {
        if i > from {
            out.append(":");
        }
        push_hexadecimal(out, groups[i]);
        i = i + 1;
        assert(out@ =~= old(out)@ + joined(groups@, from as int, i as int));
    }
}

/// Where no run of `len` zero groups starts at any position from `i` up to
/// `at`, and one starts at `at` or `at` is the end, `at` is the first start
/// of such a run from `i` on.
proof fn lemma_first_zero_run(groups: Seq<u16>, len: nat, i: int, at: int)
    requires
        0 <= i <= at <= groups.len(),
        forall|j: int| i <= j < at ==> zero_run(groups, j) != len,
        at == groups.len() || zero_run(groups, at) == len,
    ensures
        first_zero_run(groups, len, i) == at,
    decreases at - i,
{
    if i < at {
        lemma_first_zero_run(groups, len, i + 1, at);
    }
}

/// Where the first longest run of zero groups starts, and how long it is.
fn longest_gap(groups: &[u16; 8]) -> (gap: (usize, usize))
    ensures
        gap.1 == longest_zero_run(groups@, 8),
        gap.0 == first_zero_run(groups@, gap.1 as nat, 0),
        gap.0 + gap.1 <= 8,
{
    let mut runs: [usize; 8] = [0, 0, 0, 0, 0, 0, 0, 0];
    let mut i: usize = 8;
    while i > 0
        invariant
            i <= 8,
            forall|j: int| i <= j < 8 ==> runs@[j] == zero_run(groups@, j) && runs@[j] + j <= 8,
        decreases i,
    {
        i = i - 1;
        let ghost later = runs@;
        if groups[i] == 0 {
            let next: usize = if i < 7 {
                runs[i + 1]
            } else {
                0
            };
            assert(next == zero_run(groups@, i + 1));
            runs[i] = next + 1;
        } else {
            runs[i] = 0;
        }
        assert(runs@[i as int] == zero_run(groups@, i as int));
        assert forall|j: int| i <= j < 8 implies runs@[j] == zero_run(groups@, j) && runs@[j] + j
            <= 8 by {
            if j > i {
                assert(runs@[j] == later[j]);
            }
        }
    }
    let mut start: usize = 0;
    let mut len: usize = 0;
    let mut k: usize = 0;
    while k < 8
        invariant
            k <= 8,
            forall|j: int| 0 <= j < 8 ==> runs@[j] == zero_run(groups@, j) && runs@[j] + j <= 8,
            len == longest_zero_run(groups@, k as int),
            k == 0 ==> start == 0 && len == 0,
            k > 0 ==> start < k && zero_run(groups@, start as int) == len,
            forall|j: int| 0 <= j < start ==> zero_run(groups@, j) < len,
            forall|j: int| 0 <= j < k ==> zero_run(groups@, j) <= len,
        decreases 8 - k,
    {
        if runs[k] > len {
            start = k;
            len = runs[k];
        }
        k = k + 1;
    }
    proof {
        lemma_first_zero_run(groups@, len as nat, 0, start as int);
    }
    (start, len)
}

impl Address {
    /// The canonical text of the address.
    pub fn to_text(&self) -> (text: String)
        ensures
            text@ == self.text(),
    {
        let mut out = String::new();
        match *self {
            Address::V4(a, b, c, d) => {
                push_dotted(&mut out, a, b, c, d);
            },
            Address::V6(a, b, c, d, e, f, g, h) => {
                let groups: [u16; 8] = [a, b, c, d, e, f, g, h];
                assert(groups@ =~= self.groups());
                if a == 0 && b == 0 && c == 0 && d == 0 && e == 0 && f == 0xffff {
                    proof {
                        reveal_strlit("::ffff:");
                    }
                    assert("::ffff:"@ =~= seq![':', ':', 'f', 'f', 'f', 'f', ':']);
                    out.append("::ffff:");
                    push_dotted(
                        &mut out,
                        (g / 256) as u8,
                        (g % 256) as u8,
                        (h / 256) as u8,
                        (h % 256) as u8,
                    );
                } else {
                    let (start, len) = longest_gap(&groups);
                    if len >= 2 {
                        proof {
                            reveal_strlit("::");
                        }
                        assert("::"@ =~= seq![':', ':']);
                        push_joined(&mut out, &groups, 0, start);
                        out.append("::");
                        push_joined(&mut out, &groups, start + len, 8);
                    } else {
                        push_joined(&mut out, &groups, 0, 8);
                    }
                }
            },
        }
        assert(out@ =~= self.text());
        out
    }
}

} // verus!
