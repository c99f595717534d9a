//! Networks as the `ipnetwork` crate reads them, IPv4 or IPv6.
use vstd::prelude::*;
use crate::cidr::prefix_mask;
use crate::mac::{hex_char, hex_digit};
use crate::text::{format_ipv4, spec_format_ipv4, string_push};
use vstd::string::StringExecFns;

verus! {

/// A network text as `ipnetwork` reads it.
#[derive(Debug, Clone, Copy, PartialEq, Eq, Structural)]
pub enum IpNet {
    V4 { addr: u32, prefix: u8 },
    V6 { addr: u128, prefix: u8 },
    Invalid,
}

/// The prefix length fits the family: at most 32 for IPv4, 128 for IPv6.
pub open spec fn prefix_fits(n: IpNet) -> bool {
    match n {
        IpNet::V4 { prefix, .. } => prefix <= 32,
        IpNet::V6 { prefix, .. } => prefix <= 128,
        IpNet::Invalid => true,
    }
}

/// What `ipnetwork::IpNetwork::from_str` makes of a text.
pub uninterp spec fn spec_ipnetwork_parse(s: Seq<char>) -> IpNet;

/// Parses `s` with `ipnetwork::IpNetwork::from_str`, which reads an IPv4
/// network when it can, else an IPv6 one. The crate refuses a prefix above 32
/// for IPv4 and above 128 for IPv6.
#[verifier::external_body]
pub(crate) fn parse_ip_network(s: &str) -> (r: IpNet)
    ensures
        r == spec_ipnetwork_parse(s@),
        prefix_fits(r),
{
    match s.parse::<ipnetwork::IpNetwork>() {
        Ok(ipnetwork::IpNetwork::V4(n)) => IpNet::V4 { addr: u32::from(n.ip()), prefix: n.prefix() },
        Ok(ipnetwork::IpNetwork::V6(n)) => IpNet::V6 { addr: u128::from(n.ip()), prefix: n.prefix() },
        Err(_) => IpNet::Invalid,
    }
}

/// The netmask of an IPv6 network with `prefix` leading bits.
pub open spec fn v6_mask(prefix: u8) -> u128 {
    if prefix == 0 {
        0u128
    } else if prefix >= 128 {
        0xffff_ffff_ffff_ffff_ffff_ffff_ffff_ffffu128
    } else {
        0xffff_ffff_ffff_ffff_ffff_ffff_ffff_ffffu128 << ((128 - prefix) as u128)
    }
}

pub(crate) fn v6_mask_of(prefix: u8) -> (m: u128)
    requires
        prefix <= 128,
    ensures
        m == v6_mask(prefix),
{
    if prefix == 0 {
        0
    } else if prefix == 128 {
        u128::MAX
    } else {
        u128::MAX << (128 - prefix) as u128
    }
}

fn v4_mask_of(prefix: u8) -> (m: u32)
    requires
        prefix <= 32,
    ensures
        m == prefix_mask(prefix),
{
    if prefix == 0 {
        0
    } else if prefix == 32 {
        u32::MAX
    } else {
        u32::MAX << (32 - prefix) as u32
    }
}

/// The lowest address of network `n`, of the same family.
pub open spec fn net_network(n: IpNet) -> IpNet {
    match n {
        IpNet::V4 { addr, prefix } => IpNet::V4 { addr: addr & prefix_mask(prefix), prefix: 32 },
        IpNet::V6 { addr, prefix } => IpNet::V6 { addr: addr & v6_mask(prefix), prefix: 128 },
        IpNet::Invalid => IpNet::Invalid,
    }
}

/// Network `n` holds the address of `a`, which is of the same family.
pub open spec fn net_holds(n: IpNet, a: IpNet) -> bool {
    match (n, a) {
        (IpNet::V4 { addr, prefix }, IpNet::V4 { addr: ip, .. }) => ip & prefix_mask(prefix) == addr & prefix_mask(prefix),
        (IpNet::V6 { addr, prefix }, IpNet::V6 { addr: ip, .. }) => ip & v6_mask(prefix) == addr & v6_mask(prefix),
        _ => false,
    }
}

/// The lowest address of a parsed network.
pub fn network_of(n: IpNet) -> (r: IpNet)
    requires
        prefix_fits(n),
    ensures
        r == net_network(n),
{
    match n {
        IpNet::V4 { addr, prefix } => IpNet::V4 { addr: addr & v4_mask_of(prefix), prefix: 32 },
        IpNet::V6 { addr, prefix } => IpNet::V6 { addr: addr & v6_mask_of(prefix), prefix: 128 },
        IpNet::Invalid => IpNet::Invalid,
    }
}

/// Whether a parsed network holds the address of `a`.
pub fn holds(n: IpNet, a: IpNet) -> (r: bool)
    requires
        prefix_fits(n),
    ensures
        r == net_holds(n, a),
{
    match (n, a) {
        (IpNet::V4 { addr, prefix }, IpNet::V4 { addr: ip, .. }) => {
            let m = v4_mask_of(prefix);
            ip & m == addr & m
        },
        (IpNet::V6 { addr, prefix }, IpNet::V6 { addr: ip, .. }) => {
            let m = v6_mask_of(prefix);
            ip & m == addr & m
        },
        _ => false,
    }
}

/// Group `i` (0 to 7, the most significant first) of the IPv6 address `x`.
pub open spec fn v6_group(x: u128, i: int) -> u16 {
    ((x >> ((112 - 16 * i) as u128)) & 0xffffu128) as u16
}

/// The eight 16-bit groups of the IPv6 address `x`.
pub open spec fn v6_groups(x: u128) -> Seq<u16> {
    Seq::new(8, |i: int| v6_group(x, i))
}

/// `v` in lowercase hexadecimal without leading zeros.
pub open spec fn hex_text(v: nat) -> Seq<char>
    decreases v,
{
    if v < 16 {
        seq![hex_char(v)]
    } else {
        hex_text(v / 16) + seq![hex_char(v % 16)]
    }
}

/// Groups in hexadecimal, separated by colons.
pub open spec fn hex_groups_text(g: Seq<u16>) -> Seq<char>
    decreases g.len(),
{
    if g.len() == 0 {
        Seq::empty()
    } else if g.len() == 1 {
        hex_text(g[0] as nat)
    } else {
        hex_groups_text(g.drop_last()) + seq![':'] + hex_text(g.last() as nat)
    }
}

/// The runs of zero groups of `g`: the start and length of the first of the
/// longest runs, then the start and length of the run `g` ends with (a
/// length of 0 where there is none).
pub open spec fn zero_runs(g: Seq<u16>) -> (int, int, int, int)
    decreases g.len(),
{
    if g.len() == 0 {
        (0, 0, 0, 0)
    } else {
        let (bs, bl, cs, cl) = zero_runs(g.drop_last());
        if g.last() == 0 {
            let ns = if cl == 0 { g.len() - 1 } else { cs };
            if cl + 1 > bl {
                (ns, cl + 1, ns, cl + 1)
            } else {
                (bs, bl, ns, cl + 1)
            }
        } else {
            (bs, bl, 0, 0)
        }
    }
}

/// An IPv4-mapped IPv6 address: five zero groups, then `ffff`.
pub open spec fn is_v4_mapped(x: u128) -> bool {
    let g = v6_groups(x);
    g[0] == 0 && g[1] == 0 && g[2] == 0 && g[3] == 0 && g[4] == 0 && g[5] == 0xffff
}

/// The text of an IPv6 address as Rust's standard library writes it
/// (RFC 5952): an IPv4-mapped address as `::ffff:` and the dotted quad;
/// otherwise the groups in lowercase hexadecimal without leading zeros,
/// the first of the longest runs of at least two zero groups written `::`.
pub open spec fn spec_format_ipv6(x: u128) -> Seq<char> {
    let g = v6_groups(x);
    if is_v4_mapped(x) {
        seq![':', ':', 'f', 'f', 'f', 'f', ':'] + spec_format_ipv4((x & 0xffff_ffffu128) as u32)
    } else {
        let (s, l, _, _) = zero_runs(g);
        if l > 1 {
            hex_groups_text(g.take(s)) + seq![':', ':'] + hex_groups_text(g.skip(s + l))
        } else {
            hex_groups_text(g)
        }
    }
}

fn push_hex(s: &mut String, v: u16)
    ensures
        final(s)@ == old(s)@ + hex_text(v as nat),
    decreases v,
{
    let ghost s0 = s@;
    if v >= 16 {
        push_hex(s, v / 16);
    }
    let c = hex_digit((v % 16) as u8);
    string_push(s, c);
    proof {
        if v >= 16 {
            assert(s@ =~= s0 + (hex_text((v / 16) as nat) + seq![hex_char((v % 16) as nat)]));
        } else {
            assert(s@ =~= s0 + seq![hex_char(v as nat)]);
        }
    }
}

fn push_groups(s: &mut String, g: &Vec<u16>, lo: usize, hi: usize)
    requires
        lo <= hi <= g@.len(),
    ensures
        final(s)@ == old(s)@ + hex_groups_text(g@.subrange(lo as int, hi as int)),
{
    let ghost s0 = s@;
    let mut i: usize = lo;
    assert(g@.subrange(lo as int, lo as int) =~= Seq::<u16>::empty());
    assert(s@ =~= s0 + hex_groups_text(g@.subrange(lo as int, lo as int)));
    while i < hi
        invariant
            lo <= i <= hi,
            hi <= g@.len(),
            s@ == s0 + hex_groups_text(g@.subrange(lo as int, i as int)),
        decreases hi - i,
    {
        let ghost before = s@;
        if i > lo {
            string_push(s, ':');
        }
        push_hex(s, g[i]);
        proof {
            let sub = g@.subrange(lo as int, i + 1);
            assert(sub.drop_last() =~= g@.subrange(lo as int, i as int));
            assert(sub.last() == g@[i as int]);
            if i > lo {
                assert(s@ =~= s0 + (hex_groups_text(sub.drop_last()) + seq![':'] + hex_text(sub.last() as nat)));
            } else {
                assert(sub =~= seq![g@[i as int]]);
                assert(s@ =~= s0 + hex_text(sub[0] as nat));
            }
        }
        i = i + 1;
    }
}

/// Writes an IPv6 address as Rust's standard library does (see
/// `spec_format_ipv6`).
pub fn format_ipv6(x: u128) -> (s: String)
    ensures
        s@ == spec_format_ipv6(x),
{
    let mut g: Vec<u16> = Vec::new();
    let mut i: usize = 0;
    while i < 8
        invariant
            i <= 8,
            g@ == v6_groups(x).take(i as int),
        decreases 8 - i,
    {
        let sh: u128 = (112 - 16 * i) as u128;
        g.push(((x >> sh) & 0xffff) as u16);
        proof {
            assert(g@ =~= v6_groups(x).take(i + 1));
        }
        i = i + 1;
    }
    assert(g@ =~= v6_groups(x));
    let mut s = String::new();
    if g[0] == 0 && g[1] == 0 && g[2] == 0 && g[3] == 0 && g[4] == 0 && g[5] == 0xffff {
        string_push(&mut s, ':');
        string_push(&mut s, ':');
        string_push(&mut s, 'f');
        string_push(&mut s, 'f');
        string_push(&mut s, 'f');
        string_push(&mut s, 'f');
        string_push(&mut s, ':');
        let v4 = format_ipv4((x & 0xffff_ffff) as u32);
        s.append(v4.as_str());
        assert(s@ =~= spec_format_ipv6(x));
        return s;
    }
    let mut bs: usize = 0;
    let mut bl: usize = 0;
    let mut cs: usize = 0;
    let mut cl: usize = 0;
    let mut j: usize = 0;
    while j < 8
        invariant
            j <= 8,
            g@ == v6_groups(x),
            (bs as int, bl as int, cs as int, cl as int) == zero_runs(g@.take(j as int)),
            cl <= j,
            cl > 0 ==> cs + cl == j,
            bs + bl <= j,
        decreases 8 - j,
    {
        proof {
            assert(g@.take(j + 1).drop_last() =~= g@.take(j as int));
            assert(g@.take(j + 1).last() == g@[j as int]);
        }
        if g[j] == 0 {
            if cl == 0 {
                cs = j;
            }
            cl = cl + 1;
            if cl > bl {
                bs = cs;
                bl = cl;
            }
        } else {
            cs = 0;
            cl = 0;
        }
        j = j + 1;
    }
    assert(g@.take(8) =~= g@);
    if bl > 1 {
        push_groups(&mut s, &g, 0, bs);
        string_push(&mut s, ':');
        string_push(&mut s, ':');
        push_groups(&mut s, &g, bs + bl, 8);
        assert(g@.subrange(0, bs as int) =~= g@.take(bs as int));
        assert(g@.subrange((bs + bl) as int, 8) =~= g@.skip((bs + bl) as int));
    } else {
        push_groups(&mut s, &g, 0, 8);
        assert(g@.subrange(0, 8) =~= g@);
    }
    assert(s@ =~= spec_format_ipv6(x));
    s
}

} // verus!
