//! Textual forms shared by the controller: decimal and hexadecimal numbers,
//! dotted-quad IPv4 addresses and colon-separated MAC addresses.
use vstd::prelude::*;
use vstd::string::StrSliceExecFns;

verus! {

/// Appends one character to a string through `String::push`, whose
/// documentation says it appends the given `char` to the end of the string;
/// the contract claims exactly that of the string's characters.
#[verifier::external_body]
pub(crate) fn string_push(s: &mut String, c: char)
    ensures
        final(s)@ == old(s)@.push(c),
{
    s.push(c);
}

/// The characters of `s`.
pub fn chars_of(s: &str) -> (r: Vec<char>)
    ensures
        r@ == s@,
{
    let n = s.unicode_len();
    let mut r: Vec<char> = Vec::with_capacity(n);
    let mut i: usize = 0;
    while i < n
        invariant
            n == s@.len(),
            i <= n,
            r@ == s@.take(i as int),
        decreases n - i,
    {
        r.push(s.get_char(i));
        i = i + 1;
        assert(r@ =~= s@.take(i as int));
    }
    assert(s@.take(n as int) =~= s@);
    r
}

/// The text of `s` from character `from` up to, not including, character `to`.
pub fn substring(s: &str, from: usize, to: usize) -> (r: String)
    requires
        from <= to <= s@.len(),
    ensures
        r@ == s@.subrange(from as int, to as int),
{
    s.substring_char(from, to).to_owned()
}

pub open spec fn is_digit(c: char) -> bool {
    '0' <= c <= '9'
}

pub open spec fn digit_value(c: char) -> nat {
    (c as int - '0' as int) as nat
}

/// Every character of `s` is a decimal digit.
pub open spec fn all_digits(s: Seq<char>) -> bool {
    forall|i: int| 0 <= i < s.len() ==> is_digit(#[trigger] s[i])
}

/// The value of a string of decimal digits.
pub open spec fn decimal_value(s: Seq<char>) -> nat
    decreases s.len(),
{
    if s.len() == 0 {
        0
    } else {
        decimal_value(s.drop_last()) * 10 + digit_value(s.last())
    }
}

/// How Rust parses an unsigned integer of at most `max` in base ten: an
/// optional `+`, then one or more decimal digits (leading zeros allowed).
pub open spec fn spec_parse_unsigned(s: Seq<char>, max: nat) -> Option<nat> {
    let digits = if s.len() >= 1 && s[0] == '+' { s.drop_first() } else { s };
    if digits.len() == 0 || !all_digits(digits) || decimal_value(digits) > max {
        None
    } else {
        Some(decimal_value(digits))
    }
}

proof fn lemma_decimal_value_grows(s: Seq<char>, c: char)
    requires
        is_digit(c),
    ensures
        decimal_value(s.push(c)) == decimal_value(s) * 10 + digit_value(c),
{
    assert(s.push(c).drop_last() =~= s);
}

/// Parses `s[from..to]` as a decimal number no greater than `max`.
fn parse_digits(s: &[char], from: usize, to: usize, max: u64) -> (r: Option<u64>)
    requires
        from <= to <= s@.len(),
        max < u64::MAX / 16,
    ensures
        match r {
            Some(v) => all_digits(s@.subrange(from as int, to as int)) && v as nat == decimal_value(
                s@.subrange(from as int, to as int),
            ) && v <= max,
            None => !all_digits(s@.subrange(from as int, to as int)) || decimal_value(
                s@.subrange(from as int, to as int),
            ) > max,
        },
{
    let mut acc: u64 = 0;
    let mut i = from;
    while i < to
        invariant
            from <= i <= to <= s@.len(),
            max < u64::MAX / 16,
            all_digits(s@.subrange(from as int, i as int)),
            acc <= max + 1,
            acc <= max ==> acc as nat == decimal_value(s@.subrange(from as int, i as int)),
            acc == max + 1 ==> decimal_value(s@.subrange(from as int, i as int)) > max,
        decreases to - i,
    {
        let c = s[i];
        if !(c >= '0' && c <= '9') {
            proof {
                assert(s@.subrange(from as int, to as int)[i - from] == c);
            }
            return None;
        }
        let ghost prev = s@.subrange(from as int, i as int);
        proof {
            assert(s@.subrange(from as int, i + 1) =~= prev.push(c));
            lemma_decimal_value_grows(prev, c);
        }
        let d = (c as u32 - '0' as u32) as u64;
        if acc <= max {
            let next = acc * 10 + d;
            acc = if next <= max { next } else { max + 1 };
        }
        i = i + 1;
    }
    if acc <= max {
        Some(acc)
    } else {
        None
    }
}

/// Parses an unsigned decimal number of at most `max`, as Rust's `str::parse`
/// does for unsigned integer types.
pub fn parse_unsigned(s: &[char], max: u64) -> (r: Option<u64>)
    requires
        max < u64::MAX / 16,
    ensures
        match spec_parse_unsigned(s@, max as nat) {
            Some(v) => r == Some(v as u64),
            None => r is None,
        },
{
    let start: usize = if s.len() >= 1 && s[0] == '+' { 1 } else { 0 };
    proof {
        if start == 1 {
            assert(s@.subrange(1, s@.len() as int) =~= s@.drop_first());
        } else {
            assert(s@.subrange(0, s@.len() as int) =~= s@);
        }
    }
    if start == s.len() {
        return None;
    }
    parse_digits(s, start, s.len(), max)
}

/// Why Rust refuses to parse a text as an unsigned integer.
#[derive(Debug, Clone, Copy, PartialEq, Eq, Structural)]
pub enum IntErrorKind {
    Empty,
    InvalidDigit,
    PosOverflow,
}

/// The reason `spec_parse_unsigned(s, max)` fails, when it does: an empty
/// text, a character that is not a digit (a lone `+` included), or a value
/// above `max`.
pub open spec fn spec_int_error(s: Seq<char>, max: nat) -> IntErrorKind {
    let digits = if s.len() >= 1 && s[0] == '+' { s.drop_first() } else { s };
    if s.len() == 0 {
        IntErrorKind::Empty
    } else if digits.len() == 0 || !all_digits(digits) {
        IntErrorKind::InvalidDigit
    } else {
        IntErrorKind::PosOverflow
    }
}

/// The reason a text that does not parse as an unsigned integer of at most
/// `max` is refused.
pub fn int_error_kind(s: &[char], max: u64) -> (r: IntErrorKind)
    requires
        max < u64::MAX / 16,
        spec_parse_unsigned(s@, max as nat) is None,
    ensures
        r == spec_int_error(s@, max as nat),
{
    if s.len() == 0 {
        return IntErrorKind::Empty;
    }
    let start: usize = if s[0] == '+' { 1 } else { 0 };
    proof {
        if start == 1 {
            assert(s@.subrange(1, s@.len() as int) =~= s@.drop_first());
        } else {
            assert(s@.subrange(0, s@.len() as int) =~= s@);
        }
    }
    if start == s.len() {
        return IntErrorKind::InvalidDigit;
    }
    let mut i = start;
    while i < s.len()
        invariant
            start <= i <= s@.len(),
            s@.len() >= 1,
            start == (if s@[0] == '+' { 1usize } else { 0usize }),
            spec_parse_unsigned(s@, max as nat) is None,
            all_digits(s@.subrange(start as int, i as int)),
        decreases s@.len() - i,
    {
        if !(s[i] >= '0' && s[i] <= '9') {
            proof {
                let digits = s@.subrange(start as int, s@.len() as int);
                assert(digits[i - start] == s@[i as int]);
                assert(!is_digit(digits[i - start]));
                if start == 1 {
                    assert(digits =~= s@.drop_first());
                } else {
                    assert(digits =~= s@);
                }
            }
            return IntErrorKind::InvalidDigit;
        }
        proof {
            assert(s@.subrange(start as int, i + 1) =~= s@.subrange(start as int, i as int).push(s@[i as int]));
        }
        i = i + 1;
    }
    IntErrorKind::PosOverflow
}

/// A decimal octet of a dotted-quad address: one to three digits, no leading
/// zero unless it is the only digit, and a value of at most 255.
pub open spec fn is_octet(s: Seq<char>) -> bool {
    &&& 1 <= s.len() <= 3
    &&& all_digits(s)
    &&& !(s.len() > 1 && s[0] == '0')
    &&& decimal_value(s) <= 255
}

/// Splits `s` at the first `c`: the text before it, and the text after it if
/// there is one.
pub open spec fn split_first(s: Seq<char>, c: char) -> (Seq<char>, Option<Seq<char>>)
    decreases s.len(),
{
    if s.len() == 0 {
        (s, None)
    } else if s[0] == c {
        (Seq::empty(), Some(s.drop_first()))
    } else {
        let (before, after) = split_first(s.drop_first(), c);
        (seq![s[0]] + before, after)
    }
}

/// `split_first` cuts at the first occurrence.
pub proof fn lemma_split_first_at(s: Seq<char>, c: char, k: int)
    requires
        0 <= k < s.len(),
        s[k] == c,
        forall|j: int| 0 <= j < k ==> s[j] != c,
    ensures
        split_first(s, c) == (s.take(k), Some(s.skip(k + 1))),
    decreases k,
{
    if k > 0 {
        lemma_split_first_at(s.drop_first(), c, k - 1);
        assert(seq![s[0]] + s.drop_first().take(k - 1) =~= s.take(k));
        assert(s.drop_first().skip(k) =~= s.skip(k + 1));
    } else {
        assert(s.take(0) =~= Seq::<char>::empty());
        assert(s.skip(1) =~= s.drop_first());
    }
}

/// Without the separator, `split_first` keeps the whole text.
pub proof fn lemma_split_first_none(s: Seq<char>, c: char)
    requires
        forall|j: int| 0 <= j < s.len() ==> s[j] != c,
    ensures
        split_first(s, c) == (s, None::<Seq<char>>),
    decreases s.len(),
{
    if s.len() > 0 {
        lemma_split_first_none(s.drop_first(), c);
        assert(seq![s[0]] + s.drop_first() =~= s);
    }
}

/// Index of the first `c` in `s[from..]`, or `s.len()` when there is none.
pub fn find_char(s: &[char], from: usize, c: char) -> (k: usize)
    requires
        from <= s@.len(),
    ensures
        from <= k <= s@.len(),
        k < s@.len() ==> s@[k as int] == c,
        forall|j: int| from <= j < k ==> s@[j] != c,
{
    let mut k = from;
    while k < s.len() && s[k] != c
        invariant
            from <= k <= s@.len(),
            forall|j: int| from <= j < k ==> s@[j] != c,
        decreases s@.len() - k,
    {
        k = k + 1;
    }
    k
}

/// `s` split at the first `c` (see `split_first`).
pub fn split_once(s: &str, c: char) -> (r: (String, Option<String>))
    ensures
        r.0@ == split_first(s@, c).0,
        match split_first(s@, c).1 {
            Some(t) => r.1 matches Some(u) && u@ == t,
            None => r.1 is None,
        },
{
    let chars = chars_of(s);
    let n = chars.len();
    let k = find_char(chars.as_slice(), 0, c);
    if k == n {
        proof {
            lemma_split_first_none(s@, c);
            assert(s@.subrange(0, n as int) =~= s@);
        }
        (substring(s, 0, n), None)
    } else {
        proof {
            lemma_split_first_at(s@, c, k as int);
            assert(s@.subrange(0, k as int) =~= s@.take(k as int));
            assert(s@.subrange(k + 1, n as int) =~= s@.skip(k + 1));
        }
        (substring(s, 0, k), Some(substring(s, k + 1, n)))
    }
}

/// `needle` occurs in `hay`.
pub open spec fn has_substring(hay: Seq<char>, needle: Seq<char>) -> bool {
    exists|i: int| 0 <= i <= hay.len() - needle.len() && #[trigger] hay.subrange(i, i + needle.len()) == needle
}

/// Whether `needle` occurs in `hay`.
pub fn contains_text(hay: &str, needle: &str) -> (r: bool)
    ensures
        r == has_substring(hay@, needle@),
{
    let h = chars_of(hay);
    let n = chars_of(needle);
    if n.len() > h.len() {
        return false;
    }
    let mut i: usize = 0;
    while i <= h.len() - n.len()
        invariant
            h@ == hay@,
            n@ == needle@,
            n@.len() <= h@.len(),
            i <= h@.len() - n@.len() + 1,
            forall|k: int| 0 <= k < i ==> #[trigger] hay@.subrange(k, k + needle@.len()) != needle@,
        decreases h@.len() - n@.len() + 1 - i,
    {
        let mut j: usize = 0;
        while j < n.len() && h[i + j] == n[j]
            invariant
                h@ == hay@,
                n@ == needle@,
                i + n@.len() <= h@.len(),
                h@.len() <= usize::MAX,
                j <= n@.len(),
                forall|q: int| 0 <= q < j ==> h@[i + q] == n@[q],
            decreases n@.len() - j,
        {
            j = j + 1;
        }
        if j == n.len() {
            assert(hay@.subrange(i as int, i + needle@.len()) =~= needle@);
            return true;
        }
        assert(hay@.subrange(i as int, i + needle@.len())[j as int] != needle@[j as int]);
        i = i + 1;
    }
    false
}

/// A character `str::trim` removes from ASCII text.
pub open spec fn is_ascii_space(c: char) -> bool {
    c == ' ' || c == '\t' || c == '\n' || c == '\r' || c == '\x0b' || c == '\x0c'
}

/// `s` without its leading ASCII whitespace.
pub open spec fn trim_start(s: Seq<char>) -> Seq<char>
    decreases s.len(),
{
    if s.len() > 0 && is_ascii_space(s[0]) {
        trim_start(s.drop_first())
    } else {
        s
    }
}

/// `s` without its trailing ASCII whitespace.
pub open spec fn trim_end(s: Seq<char>) -> Seq<char>
    decreases s.len(),
{
    if s.len() > 0 && is_ascii_space(s.last()) {
        trim_end(s.drop_last())
    } else {
        s
    }
}

proof fn lemma_trim_start_at(s: Seq<char>, a: int)
    requires
        0 <= a <= s.len(),
        forall|k: int| 0 <= k < a ==> is_ascii_space(#[trigger] s[k]),
        a == s.len() || !is_ascii_space(s[a]),
    ensures
        trim_start(s) == s.skip(a),
    decreases a,
{
    if a > 0 {
        lemma_trim_start_at(s.drop_first(), a - 1);
        assert(s.drop_first().skip(a - 1) =~= s.skip(a));
    } else {
        assert(s.skip(0) =~= s);
    }
}

proof fn lemma_trim_end_at(s: Seq<char>, b: int)
    requires
        0 <= b <= s.len(),
        forall|k: int| b <= k < s.len() ==> is_ascii_space(#[trigger] s[k]),
        b == 0 || !is_ascii_space(s[b - 1]),
    ensures
        trim_end(s) == s.take(b),
    decreases s.len() - b,
{
    if b < s.len() {
        lemma_trim_end_at(s.drop_last(), b);
        assert(s.drop_last().take(b) =~= s.take(b));
    } else {
        assert(s.take(b) =~= s);
    }
}

/// `s` without leading and trailing ASCII whitespace, as `str::trim` leaves
/// ASCII text.
pub fn trim_ascii(s: &str) -> (r: String)
    ensures
        r@ == trim_end(trim_start(s@)),
{
    let c = chars_of(s);
    let n = c.len();
    let mut a: usize = 0;
    while a < n && (c[a] == ' ' || c[a] == '\t' || c[a] == '\n' || c[a] == '\r' || c[a] == '\x0b' || c[a] == '\x0c')
        invariant
            c@ == s@,
            n == c@.len(),
            a <= n,
            forall|k: int| 0 <= k < a ==> is_ascii_space(#[trigger] s@[k]),
        decreases n - a,
    {
        a = a + 1;
    }
    proof {
        lemma_trim_start_at(s@, a as int);
    }
    let ghost rest = s@.skip(a as int);
    let mut b: usize = n;
    while b > a && (c[b - 1] == ' ' || c[b - 1] == '\t' || c[b - 1] == '\n' || c[b - 1] == '\r' || c[b - 1] == '\x0b'
        || c[b - 1] == '\x0c')
        invariant
            c@ == s@,
            n == c@.len(),
            a <= b <= n,
            rest == s@.skip(a as int),
            forall|k: int| b <= k < n ==> is_ascii_space(#[trigger] s@[k]),
        decreases b - a,
    {
        b = b - 1;
    }
    proof {
        assert forall|k: int| b - a <= k < rest.len() implies is_ascii_space(#[trigger] rest[k]) by {
            assert(rest[k] == s@[k + a]);
        }
        if b > a {
            assert(rest[b - a - 1] == s@[b - 1]);
        }
        lemma_trim_end_at(rest, (b - a) as int);
        assert(rest.take((b - a) as int) =~= s@.subrange(a as int, b as int));
    }
    substring(s, a, b)
}

/// How Rust parses a dotted-quad IPv4 address: four octets separated by dots,
/// read as a big-endian 32-bit value.
pub open spec fn spec_parse_ipv4(s: Seq<char>) -> Option<u32> {
    let (g0, r0) = split_first(s, '.');
    match r0 {
        None => None,
        Some(r0) => {
            let (g1, r1) = split_first(r0, '.');
            match r1 {
                None => None,
                Some(r1) => {
                    let (g2, r2) = split_first(r1, '.');
                    match r2 {
                        None => None,
                        Some(g3) => if is_octet(g0) && is_octet(g1) && is_octet(g2) && is_octet(g3) {
                            Some(
                                (decimal_value(g0) * 0x100_0000 + decimal_value(g1) * 0x1_0000
                                    + decimal_value(g2) * 0x100 + decimal_value(g3)) as u32,
                            )
                        } else {
                            None
                        },
                    }
                },
            }
        },
    }
}

/// Parses the octet `s[from..to]`.
fn parse_octet(s: &[char], from: usize, to: usize) -> (r: Option<u8>)
    requires
        from <= to <= s@.len(),
    ensures
        match r {
            Some(v) => is_octet(s@.subrange(from as int, to as int)) && v as nat == decimal_value(
                s@.subrange(from as int, to as int),
            ),
            None => !is_octet(s@.subrange(from as int, to as int)),
        },
{
    let len = to - from;
    if len < 1 || len > 3 {
        return None;
    }
    if len > 1 && s[from] == '0' {
        assert(s@.subrange(from as int, to as int)[0] == '0');
        return None;
    }
    match parse_digits(s, from, to, 255) {
        Some(v) => Some(v as u8),
        None => None,
    }
}

/// Parses a dotted-quad IPv4 address as Rust's `Ipv4Addr::from_str` does.
pub fn parse_ipv4_chars(s: &[char]) -> (r: Option<u32>)
    ensures
        r == spec_parse_ipv4(s@),
{
    let n = s.len();
    let k0 = find_char(s, 0, '.');
    if k0 == n {
        proof { lemma_split_first_none(s@, '.'); }
        return None;
    }
    proof { lemma_split_first_at(s@, '.', k0 as int); }
    let ghost r0 = s@.skip(k0 + 1);
    let k1 = find_char(s, k0 + 1, '.');
    if k1 == n {
        proof {
            assert forall|j: int| 0 <= j < r0.len() implies r0[j] != '.' by {
                assert(r0[j] == s@[k0 + 1 + j]);
            }
            lemma_split_first_none(r0, '.');
        }
        return None;
    }
    proof {
        assert(r0[k1 - k0 - 1] == s@[k1 as int]);
        assert forall|j: int| 0 <= j < k1 - k0 - 1 implies r0[j] != '.' by {
            assert(r0[j] == s@[k0 + 1 + j]);
        }
        lemma_split_first_at(r0, '.', k1 - k0 - 1);
        assert(r0.take(k1 - k0 - 1) =~= s@.subrange(k0 + 1, k1 as int));
    }
    let ghost r1 = s@.skip(k1 + 1);
    proof { assert(r0.skip(k1 - k0) =~= r1); }
    let k2 = find_char(s, k1 + 1, '.');
    if k2 == n {
        proof {
            assert forall|j: int| 0 <= j < r1.len() implies r1[j] != '.' by {
                assert(r1[j] == s@[k1 + 1 + j]);
            }
            lemma_split_first_none(r1, '.');
        }
        return None;
    }
    proof {
        assert(r1[k2 - k1 - 1] == s@[k2 as int]);
        assert forall|j: int| 0 <= j < k2 - k1 - 1 implies r1[j] != '.' by {
            assert(r1[j] == s@[k1 + 1 + j]);
        }
        lemma_split_first_at(r1, '.', k2 - k1 - 1);
        assert(r1.take(k2 - k1 - 1) =~= s@.subrange(k1 + 1, k2 as int));
        assert(r1.skip(k2 - k1) =~= s@.subrange(k2 + 1, n as int));
        assert(s@.take(k0 as int) =~= s@.subrange(0, k0 as int));
    }
    let o0 = parse_octet(s, 0, k0);
    let o1 = parse_octet(s, k0 + 1, k1);
    let o2 = parse_octet(s, k1 + 1, k2);
    let o3 = parse_octet(s, k2 + 1, n);
    match (o0, o1, o2, o3) {
        (Some(a), Some(b), Some(c), Some(d)) => Some(
            (a as u32) * 0x100_0000 + (b as u32) * 0x1_0000 + (c as u32) * 0x100 + (d as u32),
        ),
        _ => None,
    }
}

/// Parses a dotted-quad IPv4 address as Rust's `Ipv4Addr::from_str` does.
pub fn parse_ipv4(s: &str) -> (r: Option<u32>)
    ensures
        r == spec_parse_ipv4(s@),
{
    let chars = chars_of(s);
    parse_ipv4_chars(chars.as_slice())
}

/// The decimal digit character for `d`.
pub open spec fn digit_char(d: nat) -> char {
    ('0' as int + d) as char
}

/// A number written in decimal without leading zeros.
pub open spec fn decimal_text(n: nat) -> Seq<char>
    decreases n,
{
    if n < 10 {
        seq![digit_char(n)]
    } else {
        decimal_text(n / 10).push(digit_char(n % 10))
    }
}

/// A 32-bit address in dotted-quad form, as Rust's `Ipv4Addr` displays it.
pub open spec fn spec_format_ipv4(a: u32) -> Seq<char> {
    decimal_text(a as nat / 0x100_0000) + seq!['.'] + decimal_text((a as nat / 0x1_0000) % 256) + seq!['.']
        + decimal_text((a as nat / 0x100) % 256) + seq!['.'] + decimal_text(a as nat % 256)
}

fn push_digit(s: &mut String, d: u8)
    requires
        d < 10,
    ensures
        final(s)@ == old(s)@.push(digit_char(d as nat)),
{
    string_push(s, (48u8 + d) as char);
}

/// Appends `v` in decimal without leading zeros.
pub fn push_decimal_u8(s: &mut String, v: u8)
    ensures
        final(s)@ == old(s)@ + decimal_text(v as nat),
{
    let ghost start = s@;
    reveal_with_fuel(decimal_text, 3);
    if v >= 100 {
        push_digit(s, v / 100);
        push_digit(s, (v / 10) % 10);
        push_digit(s, v % 10);
        assert(decimal_text(v as nat / 10) == decimal_text(v as nat / 100).push(digit_char((v as nat / 10) % 10)));
    } else if v >= 10 {
        push_digit(s, v / 10);
        push_digit(s, v % 10);
    } else {
        push_digit(s, v);
    }
    assert(s@ =~= start + decimal_text(v as nat));
}

/// Appends `v` in decimal without leading zeros.
pub fn push_decimal_u32(s: &mut String, v: u32)
    ensures
        final(s)@ == old(s)@ + decimal_text(v as nat),
    decreases v,
{
    let ghost start = s@;
    if v >= 10 {
        push_decimal_u32(s, v / 10);
    }
    push_digit(s, (v % 10) as u8);
    assert(s@ =~= start + decimal_text(v as nat));
}

/// `parts` joined with `sep` between each two of them.
pub open spec fn joined(parts: Seq<Seq<char>>, sep: Seq<char>) -> Seq<char>
    decreases parts.len(),
{
    if parts.len() == 0 {
        Seq::empty()
    } else if parts.len() == 1 {
        parts[0]
    } else {
        joined(parts.drop_last(), sep) + sep + parts.last()
    }
}

/// The views of a list of strings.
pub open spec fn text_views(v: Seq<String>) -> Seq<Seq<char>> {
    v.map_values(|t: String| t@)
}

/// `parts` joined with `sep`, as `[String]::join` does.
pub fn join_texts(parts: &Vec<String>, sep: &str) -> (r: String)
    ensures
        r@ == joined(text_views(parts@), sep@),
{
    let mut out = String::new();
    let mut i: usize = 0;
    while i < parts.len()
        invariant
            i <= parts@.len(),
            out@ == joined(text_views(parts@.take(i as int)), sep@),
        decreases parts@.len() - i,
    {
        proof {
            assert(text_views(parts@.take(i + 1)).drop_last() =~= text_views(parts@.take(i as int)));
        }
        if i > 0 {
            out.append(sep);
        }
        out.append(parts[i].as_str());
        i = i + 1;
    }
    proof {
        assert(parts@.take(parts@.len() as int) =~= parts@);
    }
    out
}

/// Writes a 32-bit address in dotted-quad form.
pub fn format_ipv4(a: u32) -> (s: String)
    ensures
        s@ == spec_format_ipv4(a),
{
    let mut s = String::new();
    push_decimal_u8(&mut s, (a / 0x100_0000) as u8);
    string_push(&mut s, '.');
    push_decimal_u8(&mut s, ((a / 0x1_0000) % 256) as u8);
    string_push(&mut s, '.');
    push_decimal_u8(&mut s, ((a / 0x100) % 256) as u8);
    string_push(&mut s, '.');
    push_decimal_u8(&mut s, (a % 256) as u8);
    assert(s@ =~= spec_format_ipv4(a));
    s
}

/// The decimal text of a byte value is a valid octet that reads back as the value.
pub proof fn lemma_decimal_text_octet(v: nat)
    requires
        v <= 255,
    ensures
        is_octet(decimal_text(v)),
        decimal_value(decimal_text(v)) == v,
        forall|j: int| 0 <= j < decimal_text(v).len() ==> #[trigger] decimal_text(v)[j] != '.',
{
    reveal_with_fuel(decimal_text, 3);
    reveal_with_fuel(decimal_value, 4);
    let t = decimal_text(v);
    if v < 10 {
        assert(t.drop_last() =~= Seq::<char>::empty());
    } else if v < 100 {
        assert(t.drop_last() =~= seq![digit_char(v / 10)]);
        assert(t.drop_last().drop_last() =~= Seq::<char>::empty());
    } else {
        assert(decimal_text(v / 10) == decimal_text(v / 100).push(digit_char((v / 10) % 10)));
        assert(t.drop_last() =~= seq![digit_char(v / 100), digit_char((v / 10) % 10)]);
        assert(t.drop_last().drop_last() =~= seq![digit_char(v / 100)]);
        assert(t.drop_last().drop_last().drop_last() =~= Seq::<char>::empty());
    }
}

proof fn lemma_split_first_joined(a: Seq<char>, c: char, rest: Seq<char>)
    requires
        forall|j: int| 0 <= j < a.len() ==> #[trigger] a[j] != c,
    ensures
        split_first(a + seq![c] + rest, c) == (a, Some(rest)),
{
    let s = a + seq![c] + rest;
    assert forall|j: int| 0 <= j < a.len() implies s[j] != c by {
        assert(s[j] == a[j]);
    }
    lemma_split_first_at(s, c, a.len() as int);
    assert(s.take(a.len() as int) =~= a);
    assert(s.skip(a.len() as int + 1) =~= rest);
}

proof fn lemma_bytes_recombine(a: nat)
    requires
        a < 0x1_0000_0000,
    ensures
        (a / 0x100_0000) * 0x100_0000 + ((a / 0x1_0000) % 256) * 0x1_0000 + ((a / 0x100) % 256) * 0x100
            + a % 256 == a,
        a / 0x100_0000 <= 255,
{
    assert((a / 0x100_0000) * 0x100_0000 + ((a / 0x1_0000) % 256) * 0x1_0000 + ((a / 0x100) % 256)
        * 0x100 + a % 256 == a && a / 0x100_0000 <= 255) by (nonlinear_arith)
        requires
            a < 0x1_0000_0000,
    ;
}

/// An address written in dotted-quad form reads back as the same address.
#[verifier::rlimit(40)]
pub proof fn lemma_ipv4_text_roundtrip(a: u32)
    ensures
        spec_parse_ipv4(spec_format_ipv4(a)) == Some(a),
{
    lemma_bytes_recombine(a as nat);
    let b0 = a as nat / 0x100_0000;
    let b1 = (a as nat / 0x1_0000) % 256;
    let b2 = (a as nat / 0x100) % 256;
    let b3 = a as nat % 256;
    lemma_decimal_text_octet(b0);
    lemma_decimal_text_octet(b1);
    lemma_decimal_text_octet(b2);
    lemma_decimal_text_octet(b3);
    let (t0, t1, t2, t3) = (decimal_text(b0), decimal_text(b1), decimal_text(b2), decimal_text(b3));
    let tail2 = t2 + seq!['.'] + t3;
    let tail1 = t1 + seq!['.'] + tail2;
    assert(spec_format_ipv4(a) =~= t0 + seq!['.'] + tail1);
    lemma_split_first_joined(t0, '.', tail1);
    lemma_split_first_joined(t1, '.', tail2);
    lemma_split_first_joined(t2, '.', t3);
}

} // verus!
