//! MAC addresses in their colon-separated hexadecimal form, and IPv4 addresses
//! in dotted-quad form.
use vstd::prelude::*;
use crate::text::{
    chars_of, decimal_value, find_char, is_octet, lemma_split_first_at, lemma_split_first_none,
    spec_parse_ipv4, split_first, string_push, all_digits, is_digit, digit_value,
};

verus! {

pub open spec fn is_hex_digit(c: char) -> bool {
    ('0' <= c <= '9') || ('a' <= c <= 'f') || ('A' <= c <= 'F')
}

pub open spec fn hex_digit_value(c: char) -> nat {
    if '0' <= c <= '9' {
        (c as int - '0' as int) as nat
    } else if 'a' <= c <= 'f' {
        (c as int - 'a' as int + 10) as nat
    } else {
        (c as int - 'A' as int + 10) as nat
    }
}

pub open spec fn all_hex(s: Seq<char>) -> bool {
    forall|i: int| 0 <= i < s.len() ==> is_hex_digit(#[trigger] s[i])
}

/// The value of a string of hexadecimal digits.
pub open spec fn hex_value(s: Seq<char>) -> nat
    decreases s.len(),
{
    if s.len() == 0 {
        0
    } else {
        hex_value(s.drop_last()) * 16 + hex_digit_value(s.last())
    }
}

/// How Rust's `u8::from_str_radix(s, 16)` reads `s`: an optional `+`, then one
/// or more hexadecimal digits of either case, with a value of at most 255.
pub open spec fn spec_parse_hex_u8(s: Seq<char>) -> Option<u8> {
    let digits = if s.len() >= 1 && s[0] == '+' { s.drop_first() } else { s };
    if digits.len() == 0 || !all_hex(digits) || hex_value(digits) > 255 {
        None
    } else {
        Some(hex_value(digits) as u8)
    }
}

proof fn lemma_hex_value_grows(s: Seq<char>, c: char)
    ensures
        hex_value(s.push(c)) == hex_value(s) * 16 + hex_digit_value(c),
{
    assert(s.push(c).drop_last() =~= s);
}

/// Parses `s[from..to]` as `u8::from_str_radix(_, 16)` does.
fn parse_hex_u8(s: &[char], from: usize, to: usize) -> (r: Option<u8>)
    requires
        from <= to <= s@.len(),
    ensures
        r == spec_parse_hex_u8(s@.subrange(from as int, to as int)),
{
    let ghost text = s@.subrange(from as int, to as int);
    let start = if to > from && s[from] == '+' { from + 1 } else { from };
    let ghost digits = s@.subrange(start as int, to as int);
    proof {
        if start == from + 1 {
            assert(text.drop_first() =~= digits);
        } else {
            assert(text =~= digits);
        }
    }
    if start == to {
        return None;
    }
    let mut acc: u32 = 0;
    let mut i = start;
    while i < to
        invariant
            start <= i <= to <= s@.len(),
            text == s@.subrange(from as int, to as int),
            digits == s@.subrange(start as int, to as int),
            (if text.len() >= 1 && text[0] == '+' { text.drop_first() } else { text }) == digits,
            all_hex(s@.subrange(start as int, i as int)),
            acc <= 256,
            acc <= 255 ==> acc as nat == hex_value(s@.subrange(start as int, i as int)),
            acc == 256 ==> hex_value(s@.subrange(start as int, i as int)) > 255,
        decreases to - i,
    {
        let c = s[i];
        let d: u32 = if c >= '0' && c <= '9' {
            c as u32 - '0' as u32
        } else if c >= 'a' && c <= 'f' {
            c as u32 - 'a' as u32 + 10
        } else if c >= 'A' && c <= 'F' {
            c as u32 - 'A' as u32 + 10
        } else {
            proof {
                assert(digits[i - start] == c);
            }
            return None;
        };
        let ghost prev = s@.subrange(start as int, i as int);
        proof {
            assert(s@.subrange(start as int, i + 1) =~= prev.push(c));
            lemma_hex_value_grows(prev, c);
        }
        if acc <= 255 {
            let next = acc * 16 + d;
            acc = if next <= 255 { next } else { 256 };
        }
        i = i + 1;
    }
    if acc <= 255 {
        Some(acc as u8)
    } else {
        None
    }
}

/// Reads `n` colon-separated hexadecimal bytes that make up the whole of `s`.
pub open spec fn spec_parse_hex_groups(s: Seq<char>, n: nat) -> Option<Seq<u8>>
    decreases n,
{
    if n <= 1 {
        match spec_parse_hex_u8(s) {
            Some(b) => Some(seq![b]),
            None => None,
        }
    } else {
        match split_first(s, ':') {
            (g, Some(rest)) => match (spec_parse_hex_u8(g), spec_parse_hex_groups(rest, (n - 1) as nat)) {
                (Some(b), Some(bs)) => Some(seq![b] + bs),
                _ => None,
            },
            (_, None) => None,
        }
    }
}

/// A MAC address written as six colon-separated hexadecimal bytes.
pub open spec fn spec_parse_mac(s: Seq<char>) -> Option<Seq<u8>> {
    spec_parse_hex_groups(s, 6)
}

/// Parses a MAC address such as `52:54:00:12:34:56`.
pub fn parse_mac(mac: &str) -> (r: Option<[u8; 6]>)
    ensures
        match spec_parse_mac(mac@) {
            Some(b) => r matches Some(a) && a@ == b,
            None => r is None,
        },
{
    let s = chars_of(mac);
    let n = s.len();
    let mut bytes = [0u8; 6];
    let mut pos: usize = 0;
    let mut i: usize = 0;
    proof {
        assert(s@.skip(0) =~= s@);
        if let Some(rest) = spec_parse_hex_groups(s@, 6) {
            assert(bytes@.take(0) + rest =~= rest);
        }
    }
    while i < 5
        invariant
            i <= 5,
            pos <= n == s@.len(),
            s@ == mac@,
            spec_parse_mac(mac@) == (match spec_parse_hex_groups(s@.skip(pos as int), (6 - i) as nat) {
                Some(rest) => Some(bytes@.take(i as int) + rest),
                None => None::<Seq<u8>>,
            }),
        decreases 5 - i,
    {
        let ghost rest = s@.skip(pos as int);
        let k = find_char(s.as_slice(), pos, ':');
        if k == n {
            proof {
                assert forall|j: int| 0 <= j < rest.len() implies rest[j] != ':' by {
                    assert(rest[j] == s@[pos + j]);
                }
                lemma_split_first_none(rest, ':');
            }
            return None;
        }
        proof {
            assert(rest[k - pos] == s@[k as int]);
            assert forall|j: int| 0 <= j < k - pos implies rest[j] != ':' by {
                assert(rest[j] == s@[pos + j]);
            }
            lemma_split_first_at(rest, ':', k - pos);
            assert(rest.take(k - pos) =~= s@.subrange(pos as int, k as int));
            assert(rest.skip(k - pos + 1) =~= s@.skip(k + 1));
        }
        let b = match parse_hex_u8(s.as_slice(), pos, k) {
            Some(b) => b,
            None => return None,
        };
        let ghost old_bytes = bytes@;
        bytes.set(i, b);
        proof {
            assert(bytes@.take(i + 1) =~= old_bytes.take(i as int) + seq![b]);
        }
        pos = k + 1;
        i = i + 1;
        proof {
            let later = spec_parse_hex_groups(s@.skip(pos as int), (6 - i) as nat);
            if let Some(bs) = later {
                assert(bytes@.take(i as int) + bs =~= old_bytes.take(i - 1) + (seq![b] + bs));
            }
        }
    }
    let last = match parse_hex_u8(s.as_slice(), pos, n) {
        Some(b) => b,
        None => {
            proof { assert(s@.subrange(pos as int, n as int) =~= s@.skip(pos as int)); }
            return None;
        },
    };
    proof { assert(s@.subrange(pos as int, n as int) =~= s@.skip(pos as int)); }
    let ghost old_bytes = bytes@;
    bytes.set(5, last);
    assert(bytes@ =~= old_bytes.take(5) + seq![last]);
    Some(bytes)
}

/// The lowercase hexadecimal digit for `v`.
pub open spec fn hex_char(v: nat) -> char {
    if v < 10 {
        ('0' as int + v) as char
    } else {
        ('a' as int + v - 10) as char
    }
}

/// A byte as two lowercase hexadecimal digits.
pub open spec fn hex2(b: u8) -> Seq<char> {
    seq![hex_char(b as nat / 16), hex_char(b as nat % 16)]
}

/// A MAC address as six colon-separated pairs of lowercase hexadecimal digits.
pub open spec fn spec_format_mac(b: Seq<u8>) -> Seq<char> {
    hex2(b[0]) + seq![':'] + hex2(b[1]) + seq![':'] + hex2(b[2]) + seq![':'] + hex2(b[3]) + seq![':']
        + hex2(b[4]) + seq![':'] + hex2(b[5])
}

pub(crate) fn hex_digit(v: u8) -> (c: char)
    requires
        v < 16,
    ensures
        c == hex_char(v as nat),
{
    if v < 10 {
        ((48u8 + v) as char)
    } else {
        ((97u8 + v - 10) as char)
    }
}

fn push_hex2(s: &mut String, b: u8)
    ensures
        final(s)@ == old(s)@ + hex2(b),
{
    string_push(s, hex_digit(b / 16));
    string_push(s, hex_digit(b % 16));
    assert(final(s)@ =~= old(s)@ + hex2(b));
}

/// Writes a MAC address in the form `52:54:00:12:34:56`.
pub fn format_mac(b: [u8; 6]) -> (s: String)
    ensures
        s@ == spec_format_mac(b@),
{
    let mut s = String::new();
    let mut i: usize = 0;
    while i < 6
        invariant
            i <= 6,
            i == 0 ==> s@ == Seq::<char>::empty(),
            i > 0 ==> s@ == spec_format_mac(b@).take(3 * i - 1),
        decreases 6 - i,
    {
        let ghost before = s@;
        if i > 0 {
            string_push(&mut s, ':');
        }
        push_hex2(&mut s, b[i]);
        proof {
            if i == 0 {
                assert(s@ =~= spec_format_mac(b@).take(2));
            } else {
                assert(s@ =~= spec_format_mac(b@).take(3 * (i + 1) - 1));
            }
        }
        i = i + 1;
    }
    assert(spec_format_mac(b@).take(17) =~= spec_format_mac(b@));
    s
}

proof fn lemma_hex_char(v: nat)
    requires
        v < 16,
    ensures
        is_hex_digit(hex_char(v)),
        hex_digit_value(hex_char(v)) == v,
        hex_char(v) != ':',
        hex_char(v) != '+',
{
}

proof fn lemma_hex2_roundtrip(x: u8)
    ensures
        spec_parse_hex_u8(hex2(x)) == Some(x),
        hex2(x)[0] != ':' && hex2(x)[1] != ':',
        hex2(x).len() == 2,
{
    let h = hex2(x);
    lemma_hex_char(x as nat / 16);
    lemma_hex_char(x as nat % 16);
    reveal_with_fuel(hex_value, 3);
    assert(h.drop_last() =~= seq![hex_char(x as nat / 16)]);
    assert(h.drop_last().drop_last() =~= Seq::<char>::empty());
    assert(hex_value(h) == (x as nat / 16) * 16 + x as nat % 16);
}

proof fn lemma_split_hex2(x: u8, rest: Seq<char>)
    ensures
        split_first(hex2(x) + seq![':'] + rest, ':') == (hex2(x), Some(rest)),
{
    lemma_hex2_roundtrip(x);
    let s = hex2(x) + seq![':'] + rest;
    lemma_split_first_at(s, ':', 2);
    assert(s.take(2) =~= hex2(x));
    assert(s.skip(3) =~= rest);
}

/// A MAC address written by `format_mac` reads back as the same six bytes.
pub proof fn lemma_mac_text_roundtrip(b: Seq<u8>)
    requires
        b.len() == 6,
    ensures
        spec_parse_mac(spec_format_mac(b)) == Some(b),
{
    let t5 = hex2(b[5]);
    let t4 = hex2(b[4]) + seq![':'] + t5;
    let t3 = hex2(b[3]) + seq![':'] + t4;
    let t2 = hex2(b[2]) + seq![':'] + t3;
    let t1 = hex2(b[1]) + seq![':'] + t2;
    let t0 = hex2(b[0]) + seq![':'] + t1;
    assert(spec_format_mac(b) =~= t0);
    lemma_split_hex2(b[0], t1);
    lemma_split_hex2(b[1], t2);
    lemma_split_hex2(b[2], t3);
    lemma_split_hex2(b[3], t4);
    lemma_split_hex2(b[4], t5);
    lemma_hex2_roundtrip(b[0]);
    lemma_hex2_roundtrip(b[1]);
    lemma_hex2_roundtrip(b[2]);
    lemma_hex2_roundtrip(b[3]);
    lemma_hex2_roundtrip(b[4]);
    lemma_hex2_roundtrip(b[5]);
    reveal_with_fuel(spec_parse_hex_groups, 6);
    assert(spec_parse_hex_groups(t5, 1) == Some(seq![b[5]]));
    assert(spec_parse_hex_groups(t4, 2) == Some(seq![b[4]] + seq![b[5]]));
    assert(spec_parse_hex_groups(t3, 3) == Some(seq![b[3]] + (seq![b[4]] + seq![b[5]])));
    assert(spec_parse_hex_groups(t0, 6) == Some(
        seq![b[0]] + (seq![b[1]] + (seq![b[2]] + (seq![b[3]] + (seq![b[4]] + seq![b[5]])))),
    ));
    assert(seq![b[0]] + (seq![b[1]] + (seq![b[2]] + (seq![b[3]] + (seq![b[4]] + seq![b[5]])))) =~= b);
}

/// Reading `n` groups gives `n` bytes (for `n` of at least one).
pub proof fn lemma_hex_groups_len(s: Seq<char>, n: nat)
    requires
        n >= 1,
        spec_parse_hex_groups(s, n) is Some,
    ensures
        spec_parse_hex_groups(s, n)->Some_0.len() == n,
    decreases n,
{
    if n > 1 {
        let rest = split_first(s, ':').1->Some_0;
        lemma_hex_groups_len(rest, (n - 1) as nat);
    }
}

} // verus!
