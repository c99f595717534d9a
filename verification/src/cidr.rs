//! IPv4 networks in CIDR notation.
//!
//! Addresses are 32-bit values in host order: `10.1.2.3` is `0x0a01_0203`.
use vstd::prelude::*;
use crate::text::{
    chars_of, find_char, lemma_split_first_at, lemma_split_first_none, parse_ipv4_chars,
    parse_unsigned, spec_parse_ipv4, spec_parse_unsigned, split_first, substring,
};

verus! {

pub const IPV4_BITS: u8 = 32;

#[derive(Debug, Clone, PartialEq, Eq)]
pub enum NetworkError {
    InvalidAddr(String),
    InvalidPrefix,
    InvalidCidrFormat(String),
}

/// A `NetworkError` with its text as a character sequence.
pub enum NetworkErrorView {
    InvalidAddr(Seq<char>),
    InvalidPrefix,
    InvalidCidrFormat(Seq<char>),
}

impl View for NetworkError {
    type V = NetworkErrorView;

    open spec fn view(&self) -> NetworkErrorView {
        match self {
            NetworkError::InvalidAddr(s) => NetworkErrorView::InvalidAddr(s@),
            NetworkError::InvalidPrefix => NetworkErrorView::InvalidPrefix,
            NetworkError::InvalidCidrFormat(s) => NetworkErrorView::InvalidCidrFormat(s@),
        }
    }
}

/// The netmask with the `prefix` highest bits set.
pub open spec fn prefix_mask(prefix: u8) -> u32 {
    if prefix == 0 {
        0u32
    } else if prefix >= 32 {
        0xffff_ffffu32
    } else {
        0xffff_ffffu32 << ((32 - prefix) as u32)
    }
}

/// An IPv4 address with a prefix length of at most 32.
#[derive(Debug, Clone, Copy, Hash, PartialEq, Eq, PartialOrd, Ord)]
pub struct Ipv4Network {
    addr: u32,
    prefix: u8,
}

impl Ipv4Network {
    #[verifier::type_invariant]
    spec fn prefix_in_range(self) -> bool {
        self.prefix <= IPV4_BITS
    }

    /// The address this network was written with (host bits included).
    pub closed spec fn spec_addr(self) -> u32 {
        self.addr
    }

    pub closed spec fn spec_prefix(self) -> u8 {
        self.prefix
    }

    pub open spec fn spec_mask(self) -> u32 {
        prefix_mask(self.spec_prefix())
    }

    /// The lowest address of the network.
    pub open spec fn spec_network(self) -> u32 {
        self.spec_addr() & self.spec_mask()
    }

    /// The highest address of the network.
    pub open spec fn spec_broadcast(self) -> u32 {
        self.spec_addr() | !self.spec_mask()
    }

    pub open spec fn spec_contains(self, ip: u32) -> bool {
        ip & self.spec_mask() == self.spec_addr() & self.spec_mask()
    }

    pub open spec fn spec_overlaps(self, other: Self) -> bool {
        self.spec_contains(other.spec_network()) || other.spec_contains(self.spec_network())
    }

    /// The network `addr/prefix`; a prefix above 32 is refused.
    pub fn new(addr: u32, prefix: u8) -> (r: Result<Self, NetworkError>)
        ensures
            prefix > IPV4_BITS ==> r matches Err(NetworkError::InvalidPrefix),
            prefix <= IPV4_BITS ==> (r matches Ok(n) && n.spec_addr() == addr && n.spec_prefix() == prefix),
    {
        if prefix > IPV4_BITS {
            Err(NetworkError::InvalidPrefix)
        } else {
            Ok(Self { addr, prefix })
        }
    }

    pub fn prefix(self) -> (r: u8)
        ensures
            r == self.spec_prefix(),
            r <= 32,
    {
        proof { use_type_invariant(&self); }
        self.prefix
    }

    pub fn addr(self) -> (r: u32)
        ensures
            r == self.spec_addr(),
    {
        self.addr
    }

    fn mask(self) -> (m: u32)
        ensures
            m == self.spec_mask(),
    {
        proof { use_type_invariant(&self); }
        if self.prefix == 0 {
            0
        } else if self.prefix == IPV4_BITS {
            u32::MAX
        } else {
            u32::MAX << (IPV4_BITS - self.prefix) as u32
        }
    }

    pub fn network(self) -> (r: u32)
        ensures
            r == self.spec_network(),
    {
        self.addr & self.mask()
    }

    pub fn broadcast(self) -> (r: u32)
        ensures
            r == self.spec_broadcast(),
    {
        self.addr | !self.mask()
    }

    pub fn contains(self, ip: u32) -> (r: bool)
        ensures
            r == self.spec_contains(ip),
    {
        let mask = self.mask();
        ip & mask == self.addr & mask
    }

    pub fn overlaps(self, other: Self) -> (r: bool)
        ensures
            r == self.spec_overlaps(other),
    {
        self.contains(other.network()) || other.contains(self.network())
    }

    /// Iterates the addresses of the network from its lowest to its highest.
    pub fn iter(self) -> (it: AddressIterator)
        ensures
            it.spec_next() == Some(self.spec_network()),
            it.spec_end() == self.spec_broadcast(),
    {
        let network = self.network();
        let broadcast = self.broadcast();
        proof { lemma_network_le_broadcast(self.addr, self.spec_mask()); }
        AddressIterator { next: Some(network), end: broadcast }
    }
}

proof fn lemma_network_le_broadcast(a: u32, m: u32)
    ensures
        a & m <= a | !m,
{
    assert(a & m <= a | !m) by (bit_vector);
}

/// Yields consecutive addresses up to and including an end address.
#[derive(Clone, Copy, Debug)]
pub struct AddressIterator {
    next: Option<u32>,
    end: u32,
}

impl AddressIterator {
    #[verifier::type_invariant]
    spec fn next_not_past_end(self) -> bool {
        self.next matches Some(n) ==> n <= self.end
    }

    /// The address the next call returns, if any is left.
    pub closed spec fn spec_next(self) -> Option<u32> {
        self.next
    }

    /// The last address the iterator yields.
    pub closed spec fn spec_end(self) -> u32 {
        self.end
    }

    /// How many addresses are left.
    pub open spec fn spec_remaining(self) -> nat {
        match self.spec_next() {
            Some(n) => (self.spec_end() - n + 1) as nat,
            None => 0,
        }
    }

    pub fn next(&mut self) -> (r: Option<u32>)
        ensures
            r == old(self).spec_next(),
            final(self).spec_end() == old(self).spec_end(),
            match old(self).spec_next() {
                Some(n) => final(self).spec_next() == (if n == old(self).spec_end() {
                    None
                } else {
                    Some((n + 1) as u32)
                }),
                None => final(self).spec_next() is None,
            },
            old(self).spec_remaining() > 0 ==> final(self).spec_remaining() == old(self).spec_remaining() - 1,
    {
        proof { use_type_invariant(&*self); }
        match self.next {
            None => None,
            Some(n) => {
                let following = if n == self.end { None } else { Some(n + 1) };
                self.next = following;
                Some(n)
            },
        }
    }
}

/// The prefix length a dotted netmask stands for, if its set bits are contiguous from the top.
pub open spec fn spec_mask_to_prefix(mask: u32) -> Option<u8> {
    if exists|p: u8| p <= 32 && prefix_mask(p) == mask {
        Some(choose|p: u8| p <= 32 && prefix_mask(p) == mask)
    } else {
        None
    }
}

proof fn lemma_prefix_mask_injective(p: u8, q: u8)
    requires
        p <= 32,
        q <= 32,
        prefix_mask(p) == prefix_mask(q),
    ensures
        p == q,
{
    if p != q {
        if p == 0 || q == 0 || p == 32 || q == 32 {
            let (a, b) = if p < q { (p, q) } else { (q, p) };
            if a == 0 {
                let sb = (32 - b) as u32;
                assert(sb < 32 ==> 0xffff_ffffu32 << sb != 0u32) by (bit_vector);
            } else {
                let sa = (32 - a) as u32;
                assert(0 < sa < 32 ==> 0xffff_ffffu32 << sa != 0xffff_ffffu32) by (bit_vector);
            }
        } else {
            let sp = (32 - p) as u32;
            let sq = (32 - q) as u32;
            assert(0 < sp < 32 && 0 < sq < 32 && sp != sq ==> 0xffff_ffffu32 << sp != 0xffff_ffffu32
                << sq) by (bit_vector);
        }
    }
}

/// Bit `31 - i` of `mask`, that is its `i`-th bit counted from the top.
pub open spec fn bit_from_top(mask: u32, i: u8) -> bool {
    (mask >> ((31 - i) as u32)) & 1 == 1
}

proof fn lemma_prefix_mask_bit(q: u8, i: u8)
    requires
        q <= 32,
        i < 32,
    ensures
        bit_from_top(prefix_mask(q), i) == (i < q),
{
    let sh: u32 = (31 - i) as u32;
    assert(sh < 32);
    if q == 0 {
        assert((0u32 >> sh) & 1 != 1) by (bit_vector);
    } else if q >= 32 {
        assert(sh < 32 ==> (0xffff_ffffu32 >> sh) & 1 == 1) by (bit_vector);
    } else {
        let sq: u32 = (32 - q) as u32;
        assert(0 < sq < 32 && sh < 32 ==> ((((0xffff_ffffu32 << sq) >> sh) & 1 == 1) == (sh >= sq)))
            by (bit_vector);
    }
}

/// Scanning `prefix_mask(q)` bit by bit from the top stops after exactly `q` ones.
proof fn lemma_leading_ones_of_prefix_mask(q: u8, p: u8, mask: u32)
    requires
        q <= 32,
        p <= 32,
        mask == prefix_mask(q),
        p < 32 ==> !bit_from_top(mask, p),
        forall|i: u8| i < p ==> #[trigger] bit_from_top(mask, i),
    ensures
        p == q,
{
    if p < q {
        lemma_prefix_mask_bit(q, p);
    }
    if p > q {
        lemma_prefix_mask_bit(q, q);
        assert(bit_from_top(mask, q));
    }
}

/// The prefix length of a dotted netmask: its leading ones, provided no other bit is set.
pub fn mask_to_prefix(mask: u32) -> (r: Result<u8, NetworkError>)
    ensures
        match spec_mask_to_prefix(mask) {
            Some(p) => r == Ok::<u8, NetworkError>(p),
            None => r matches Err(NetworkError::InvalidPrefix),
        },
{
    let mut p: u8 = 0;
    while p < 32 && (mask >> (31 - p) as u32) & 1 == 1
        invariant
            p <= 32,
            forall|i: u8| i < p ==> #[trigger] bit_from_top(mask, i),
        decreases 32 - p,
    {
        assert(bit_from_top(mask, p));
        p = p + 1;
    }
    let candidate = if p == 0 {
        0u32
    } else if p == 32 {
        u32::MAX
    } else {
        u32::MAX << (32 - p) as u32
    };
    assert(candidate == prefix_mask(p));
    if candidate == mask {
        proof {
            assert forall|q: u8| q <= 32 && prefix_mask(q) == mask implies q == p by {
                lemma_prefix_mask_injective(q, p);
            }
        }
        Ok(p)
    } else {
        proof {
            if exists|q: u8| q <= 32 && prefix_mask(q) == mask {
                let q = choose|q: u8| q <= 32 && prefix_mask(q) == mask;
                lemma_leading_ones_of_prefix_mask(q, p, mask);
            }
        }
        Err(NetworkError::InvalidPrefix)
    }
}

/// What `Ipv4Network::parse` makes of a CIDR text: an address, then
/// optionally `/` and either a dotted netmask or a decimal prefix length.
pub open spec fn spec_parse_network(s: Seq<char>) -> Result<(u32, u8), NetworkErrorView> {
    let (addr, rest) = split_first(s, '/');
    let prefix_text = rest;
    if rest matches Some(r) && split_first(r, '/').1 is Some {
        Err(NetworkErrorView::InvalidCidrFormat(s))
    } else {
        match spec_parse_ipv4(addr) {
            None => Err(NetworkErrorView::InvalidAddr(addr)),
            Some(a) => match prefix_text {
                None => Ok((a, IPV4_BITS)),
                Some(p) => match spec_parse_ipv4(p) {
                    Some(m) => match spec_mask_to_prefix(m) {
                        Some(len) => Ok((a, len)),
                        None => Err(NetworkErrorView::InvalidPrefix),
                    },
                    None => match spec_parse_unsigned(p, 255) {
                        Some(len) => if len <= 32 {
                            Ok((a, len as u8))
                        } else {
                            Err(NetworkErrorView::InvalidPrefix)
                        },
                        None => Err(NetworkErrorView::InvalidPrefix),
                    },
                },
            },
        }
    }
}

impl std::str::FromStr for Ipv4Network {
    type Err = NetworkError;

    fn from_str(s: &str) -> (r: Result<Self, Self::Err>)
        ensures
            match spec_parse_network(s@) {
                Ok((a, p)) => r matches Ok(n) && n.spec_addr() == a && n.spec_prefix() == p,
                Err(e) => r matches Err(err) && err@ == e,
            },
    {
        Self::parse(s)
    }
}

impl Ipv4Network {
    /// Parses `addr[/prefix]`, where the prefix is a length or a dotted netmask.
    pub fn parse(cidr: &str) -> (r: Result<Self, NetworkError>)
        ensures
            match spec_parse_network(cidr@) {
                Ok((a, p)) => r matches Ok(n) && n.spec_addr() == a && n.spec_prefix() == p,
                Err(e) => r matches Err(err) && err@ == e,
            },
    {
        let s = chars_of(cidr);
        let n = s.len();
        let k = find_char(s.as_slice(), 0, '/');
        let ghost addr_text = s@.take(k as int);
        proof {
            if k == n {
                lemma_split_first_none(s@, '/');
                assert(addr_text =~= s@);
            } else {
                lemma_split_first_at(s@, '/', k as int);
            }
        }
        if k < n {
            let k2 = find_char(s.as_slice(), k + 1, '/');
            let ghost rest = s@.skip(k + 1);
            if k2 < n {
                proof {
                    assert(rest[k2 - k - 1] == s@[k2 as int]);
                    assert forall|j: int| 0 <= j < k2 - k - 1 implies rest[j] != '/' by {
                        assert(rest[j] == s@[k + 1 + j]);
                    }
                    lemma_split_first_at(rest, '/', k2 - k - 1);
                }
                return Err(NetworkError::InvalidCidrFormat(cidr.to_owned()));
            }
            proof {
                assert forall|j: int| 0 <= j < rest.len() implies rest[j] != '/' by {
                    assert(rest[j] == s@[k + 1 + j]);
                }
                lemma_split_first_none(rest, '/');
            }
        }
        let addr_chars = slice_prefix(s.as_slice(), k);
        let addr = match parse_ipv4_chars(addr_chars.as_slice()) {
            Some(a) => a,
            None => return Err(NetworkError::InvalidAddr(substring(cidr, 0, k))),
        };
        if k == n {
            return Self::new(addr, IPV4_BITS);
        }
        let prefix_chars = slice_suffix(s.as_slice(), k + 1);
        let prefix = match parse_ipv4_chars(prefix_chars.as_slice()) {
            Some(mask) => match mask_to_prefix(mask) {
                Ok(p) => p,
                Err(e) => return Err(e),
            },
            None => match parse_unsigned(prefix_chars.as_slice(), 255) {
                Some(p) => p as u8,
                None => return Err(NetworkError::InvalidPrefix),
            },
        };
        Self::new(addr, prefix)
    }
}

fn slice_prefix(s: &[char], k: usize) -> (r: Vec<char>)
    requires
        k <= s@.len(),
    ensures
        r@ == s@.take(k as int),
{
    let mut r = Vec::with_capacity(k);
    let mut i: usize = 0;
    while i < k
        invariant
            i <= k <= s@.len(),
            r@ == s@.take(i as int),
        decreases k - i,
    {
        r.push(s[i]);
        i = i + 1;
        assert(r@ =~= s@.take(i as int));
    }
    r
}

fn slice_suffix(s: &[char], k: usize) -> (r: Vec<char>)
    requires
        k <= s@.len(),
    ensures
        r@ == s@.skip(k as int),
{
    let mut r = Vec::new();
    let mut i: usize = k;
    while i < s.len()
        invariant
            k <= i <= s@.len(),
            r@ == s@.subrange(k as int, i as int),
        decreases s@.len() - i,
    {
        r.push(s[i]);
        i = i + 1;
        assert(r@ =~= s@.subrange(k as int, i as int));
    }
    assert(s@.subrange(k as int, s@.len() as int) =~= s@.skip(k as int));
    r
}

/// A network contains its own network and broadcast addresses.
pub proof fn lemma_contains_own_bounds(n: Ipv4Network)
    ensures
        n.spec_contains(n.spec_network()),
        n.spec_contains(n.spec_broadcast()),
{
    let a = n.spec_addr();
    let m = n.spec_mask();
    assert((a & m) & m == a & m) by (bit_vector);
    assert((a | !m) & m == a & m) by (bit_vector);
}

pub(crate) proof fn lemma_prefix_mask_nested(p: u8, q: u8)
    requires
        p <= q <= 32,
    ensures
        prefix_mask(p) & prefix_mask(q) == prefix_mask(p),
{
    let mp = prefix_mask(p);
    let mq = prefix_mask(q);
    if p == 0 {
        assert(0u32 & mq == 0u32) by (bit_vector);
    } else if q >= 32 {
        assert(mp & 0xffff_ffffu32 == mp) by (bit_vector);
    } else {
        let sp: u32 = (32 - p) as u32;
        let sq: u32 = (32 - q) as u32;
        assert(0 < sq <= sp < 32 ==> (0xffff_ffffu32 << sp) & (0xffff_ffffu32 << sq) == 0xffff_ffffu32
            << sp) by (bit_vector);
    }
}

proof fn lemma_shared_address_nested(a: Ipv4Network, b: Ipv4Network, ip: u32)
    requires
        a.spec_prefix() <= b.spec_prefix() <= 32,
        a.spec_contains(ip),
        b.spec_contains(ip),
    ensures
        a.spec_contains(b.spec_network()),
{
    lemma_prefix_mask_nested(a.spec_prefix(), b.spec_prefix());
    let ma = a.spec_mask();
    let mb = b.spec_mask();
    let x = a.spec_addr();
    let y = b.spec_addr();
    assert(ma & mb == ma && ip & ma == x & ma && ip & mb == y & mb ==> (y & mb) & ma == x & ma)
        by (bit_vector);
}

/// Two networks overlap exactly when some address lies in both.
pub proof fn lemma_overlaps_iff_shared_address(a: Ipv4Network, b: Ipv4Network)
    requires
        a.spec_prefix() <= 32,
        b.spec_prefix() <= 32,
    ensures
        a.spec_overlaps(b) <==> exists|ip: u32| a.spec_contains(ip) && b.spec_contains(ip),
{
    lemma_contains_own_bounds(a);
    lemma_contains_own_bounds(b);
    if exists|ip: u32| a.spec_contains(ip) && b.spec_contains(ip) {
        let ip = choose|ip: u32| a.spec_contains(ip) && b.spec_contains(ip);
        if a.spec_prefix() <= b.spec_prefix() {
            lemma_shared_address_nested(a, b, ip);
        } else {
            lemma_shared_address_nested(b, a, ip);
        }
    }
    if a.spec_overlaps(b) {
        if a.spec_contains(b.spec_network()) {
            assert(a.spec_contains(b.spec_network()) && b.spec_contains(b.spec_network()));
        } else {
            assert(a.spec_contains(a.spec_network()) && b.spec_contains(a.spec_network()));
        }
    }
}

/// Overlapping is symmetric.
pub proof fn lemma_overlaps_symmetric(a: Ipv4Network, b: Ipv4Network)
    ensures
        a.spec_overlaps(b) == b.spec_overlaps(a),
{
}

/// A dotted netmask written from a prefix length reads back as that length.
pub proof fn lemma_mask_to_prefix_roundtrip(p: u8)
    requires
        p <= 32,
    ensures
        spec_mask_to_prefix(prefix_mask(p)) == Some(p),
{
    assert(p <= 32 && prefix_mask(p) == prefix_mask(p));
    let q = choose|q: u8| q <= 32 && prefix_mask(q) == prefix_mask(p);
    lemma_prefix_mask_injective(q, p);
}

/// The addresses a network contains are exactly those from its network
/// address to its broadcast address.
pub proof fn lemma_contains_iff_in_range(n: Ipv4Network, ip: u32)
    requires
        n.spec_prefix() <= 32,
    ensures
        n.spec_contains(ip) <==> n.spec_network() <= ip <= n.spec_broadcast(),
{
    let a = n.spec_addr();
    let p = n.spec_prefix();
    if p == 0 {
        assert(ip & 0u32 == a & 0u32 && a & 0u32 == 0u32 && a | !0u32 == 0xffff_ffffu32) by (bit_vector);
    } else if p >= 32 {
        assert(ip & 0xffff_ffffu32 == ip && a & 0xffff_ffffu32 == a && a | !0xffff_ffffu32 == a)
            by (bit_vector);
    } else {
        let s: u32 = (32 - p) as u32;
        assert(0 < s < 32 ==> ((ip & (0xffff_ffffu32 << s) == a & (0xffff_ffffu32 << s)) <==> (a & (
        0xffff_ffffu32 << s) <= ip && ip <= (a | !(0xffff_ffffu32 << s))))) by (bit_vector);
    }
}

} // verus!
