//! The records Hull stores: switches, their subnets and ports, routers, the
//! switches attached to them, and their routes.
use vstd::prelude::*;
use vstd::string::StringExecFns;
use crate::utils::generate_random_mac;
use crate::mac::spec_format_mac;
use crate::cidr::prefix_mask;
use crate::ipnet::{
    IpNet, format_ipv6, parse_ip_network, prefix_fits, spec_format_ipv6, spec_ipnetwork_parse, v6_mask, v6_mask_of,
};
use crate::text::{format_ipv4, spec_format_ipv4};
use crate::config::text_eq;

verus! {

#[derive(Debug, Clone)]
pub struct Switch {
    pub uuid: String,
    pub name: String,
}

#[derive(Debug, Clone)]
pub struct Subnet {
    pub uuid: String,
    pub switch_uuid: String,
    pub name: String,
    pub cidr: String,
    pub gateway_ip: String,
    pub gateway_mac: String,
}

#[derive(Debug, Clone)]
pub struct SwitchPort {
    pub uuid: String,
    pub switch_uuid: String,
    pub subnet_uuid: String,
    pub name: String,
    pub tap_name: String,
    pub ip: String,
    pub mac: String,
}

#[derive(Debug, Clone)]
pub struct Router {
    pub uuid: String,
    pub name: String,
}

#[derive(Debug, Clone)]
pub struct RouterPort {
    pub uuid: String,
    pub router_name: String,
    pub switch_name: String,
}

#[derive(Debug, Clone)]
pub struct RouterRoute {
    pub uuid: String,
    pub router_name: String,
    pub source: String,
    pub destination: String,
    pub next_hop: Option<String>,
    pub next_hop_mac: Option<String>,
    pub metric: u32,
}

/// The given MAC address, or a fresh random one in the `52:54:00` range.
pub fn ensure_mac_or_generate(mac: Option<&str>) -> (r: String)
    ensures
        match mac {
            Some(m) => r@ == m@,
            None => exists|a: u8, b: u8, c: u8| r@ == spec_format_mac(seq![0x52u8, 0x54u8, 0x00u8, a, b, c]),
        },
{
    match mac {
        Some(m) => String::from_str(m),
        None => generate_random_mac(),
    }
}

/// Why no address could be given to a new switch port.
#[derive(Debug, Clone)]
pub enum AllocError {
    /// The subnet's CIDR is not a network.
    InvalidCidr(String),
    /// Every host address of the named subnet is taken.
    Exhausted(String),
}

pub enum AllocErrorView {
    InvalidCidr(Seq<char>),
    Exhausted(Seq<char>),
}

impl View for AllocError {
    type V = AllocErrorView;

    open spec fn view(&self) -> AllocErrorView {
        match self {
            AllocError::InvalidCidr(c) => AllocErrorView::InvalidCidr(c@),
            AllocError::Exhausted(n) => AllocErrorView::Exhausted(n@),
        }
    }
}

/// Some text of `used` reads `t`.
pub open spec fn texts_contain(used: Seq<String>, t: Seq<char>) -> bool {
    exists|i: int| 0 <= i < used.len() && used[i]@ == t
}

/// Address `a` may go to a new port: it is neither the gateway nor taken.
pub open spec fn is_free(a: u32, gateway: Seq<char>, used: Seq<String>) -> bool {
    spec_format_ipv4(a) != gateway && !texts_contain(used, spec_format_ipv4(a))
}

/// The lowest free address from `a` up to, not including, `end`.
pub open spec fn first_free_from(a: int, end: int, gateway: Seq<char>, used: Seq<String>) -> Option<u32>
    decreases end - a,
{
    if a >= end {
        None
    } else if is_free(a as u32, gateway, used) {
        Some(a as u32)
    } else {
        first_free_from(a + 1, end, gateway, used)
    }
}

/// IPv6 address `a` may go to a new port: its text is neither the gateway's
/// nor taken.
pub open spec fn is_free6(a: u128, gateway: Seq<char>, used: Seq<String>) -> bool {
    spec_format_ipv6(a) != gateway && !texts_contain(used, spec_format_ipv6(a))
}

/// The lowest free IPv6 address from `a` up to, not including, `end`.
pub open spec fn first_free6_from(a: int, end: int, gateway: Seq<char>, used: Seq<String>) -> Option<u128>
    decreases end - a,
{
    if a >= end {
        None
    } else if is_free6(a as u128, gateway, used) {
        Some(a as u128)
    } else {
        first_free6_from(a + 1, end, gateway, used)
    }
}

/// The address a new port of a subnet gets: the lowest address of the
/// subnet's network, in the order `ipnetwork` walks it, that is not the
/// network address (nor, for IPv4, the broadcast address) and whose text is
/// neither the gateway's nor taken by another port.
pub open spec fn spec_first_free_ip(
    net: IpNet,
    cidr: Seq<char>,
    gateway: Seq<char>,
    subnet_name: Seq<char>,
    used: Seq<String>,
) -> Result<Seq<char>, AllocErrorView> {
    match net {
        IpNet::V4 { addr, prefix } => {
            let n = addr & prefix_mask(prefix);
            let b = addr | !prefix_mask(prefix);
            match first_free_from(n + 1, b as int, gateway, used) {
                Some(a) => Ok(spec_format_ipv4(a)),
                None => Err(AllocErrorView::Exhausted(subnet_name)),
            }
        },
        IpNet::V6 { addr, prefix } => {
            let n = addr & v6_mask(prefix);
            let b = addr | !v6_mask(prefix);
            match first_free6_from(n + 1, b + 1, gateway, used) {
                Some(a) => Ok(spec_format_ipv6(a)),
                None => Err(AllocErrorView::Exhausted(subnet_name)),
            }
        },
        IpNet::Invalid => Err(AllocErrorView::InvalidCidr(cidr)),
    }
}

fn text_taken(used: &Vec<String>, t: &String) -> (r: bool)
    ensures
        r == texts_contain(used@, t@),
{
    let mut i: usize = 0;
    while i < used.len()
        invariant
            i <= used@.len(),
            forall|j: int| 0 <= j < i ==> used@[j]@ != t@,
        decreases used@.len() - i,
    {
        if used[i] == *t {
            return true;
        }
        i = i + 1;
    }
    false
}

/// The address for a new port given what `ipnetwork` made of the subnet's
/// CIDR (see `spec_first_free_ip`).
#[verifier::loop_isolation(false)]
pub fn first_free_ip(net: IpNet, cidr: &str, gateway_ip: &str, subnet_name: &str, used: &Vec<String>) -> (r:
    Result<String, AllocError>)
    requires
        prefix_fits(net),
    ensures
        match spec_first_free_ip(net, cidr@, gateway_ip@, subnet_name@, used@) {
            Ok(t) => r matches Ok(s) && s@ == t,
            Err(e) => r matches Err(err) && err@ == e,
        },
{
    let (addr, prefix) = match net {
        IpNet::V4 { addr, prefix } => (addr, prefix),
        IpNet::V6 { addr, prefix } => return first_free_ip6(addr, prefix, gateway_ip, subnet_name, used),
        IpNet::Invalid => return Err(AllocError::InvalidCidr(String::from_str(cidr))),
    };
    let m: u32 = if prefix == 0 {
        0
    } else if prefix == 32 {
        u32::MAX
    } else {
        u32::MAX << (32 - prefix) as u32
    };
    assert(m == prefix_mask(prefix));
    let n = addr & m;
    let b = addr | !m;
    let ghost gw = gateway_ip@;
    let mut a: u64 = n as u64 + 1;
    while a < b as u64
        invariant
            n + 1 <= a,
            a <= u32::MAX as u64 + 1,
            first_free_from(n + 1, b as int, gw, used@) == first_free_from(a as int, b as int, gw, used@),
        decreases b as u64 - a,
    {
        let text = format_ipv4(a as u32);
        let free = !text_eq(text.as_str(), gateway_ip) && !text_taken(used, &text);
        proof {
            assert(free == is_free(a as u32, gw, used@));
            assert(first_free_from(a as int, b as int, gw, used@) == if free {
                Some(a as u32)
            } else {
                first_free_from(a + 1, b as int, gw, used@)
            });
        }
        if free {
            return Ok(text);
        }
        a = a + 1;
    }
    Err(AllocError::Exhausted(String::from_str(subnet_name)))
}

/// The IPv6 branch of `first_free_ip`: the walk from the address after the
/// network address up to the last address of the network, both included.
fn first_free_ip6(addr: u128, prefix: u8, gateway_ip: &str, subnet_name: &str, used: &Vec<String>) -> (r: Result<
    String,
    AllocError,
>)
    requires
        prefix <= 128,
    ensures
        ({
            let n = addr & v6_mask(prefix);
            let b = addr | !v6_mask(prefix);
            match first_free6_from(n + 1, b + 1, gateway_ip@, used@) {
                Some(a) => r matches Ok(s) && s@ == spec_format_ipv6(a),
                None => r matches Err(err) && err@ == AllocErrorView::Exhausted(subnet_name@),
            }
        }),
{
    let m = v6_mask_of(prefix);
    let n = addr & m;
    let b = addr | !m;
    assert(addr & m <= addr | !m) by (bit_vector);
    let ghost gw = gateway_ip@;
    if n == b {
        return Err(AllocError::Exhausted(String::from_str(subnet_name)));
    }
    let mut a: u128 = n + 1;
    loop
        invariant
            n < a <= b,
            n == addr & v6_mask(prefix),
            b == addr | !v6_mask(prefix),
            gw == gateway_ip@,
            first_free6_from(n + 1, b + 1, gw, used@) == first_free6_from(a as int, b + 1, gw, used@),
        decreases b - a,
    {
        let text = format_ipv6(a);
        let free = !text_eq(text.as_str(), gateway_ip) && !text_taken(used, &text);
        proof {
            assert(free == is_free6(a, gw, used@));
            assert(first_free6_from(a as int, b + 1, gw, used@) == if free {
                Some(a)
            } else {
                first_free6_from(a + 1, b + 1, gw, used@)
            });
        }
        if free {
            return Ok(text);
        }
        if a == b {
            return Err(AllocError::Exhausted(String::from_str(subnet_name)));
        }
        a = a + 1;
    }
}

/// The network of a subnet as `ipnetwork` reads its CIDR; a CIDR it refuses
/// is an error.
pub fn subnet_network(subnet: &Subnet) -> (r: Result<IpNet, AllocError>)
    ensures
        match spec_ipnetwork_parse(subnet.cidr@) {
            IpNet::Invalid => r matches Err(e) && e@ == AllocErrorView::InvalidCidr(subnet.cidr@),
            n => r == Ok::<IpNet, AllocError>(n),
        },
        r matches Ok(n) ==> prefix_fits(n),
{
    match parse_ip_network(subnet.cidr.as_str()) {
        IpNet::Invalid => Err(AllocError::InvalidCidr(subnet.cidr.clone())),
        n => Ok(n),
    }
}

/// The address a new port of `subnet` gets, given the addresses its ports
/// already have.
pub fn allocate_switch_port_ip(subnet: &Subnet, used: &Vec<String>) -> (r: Result<String, AllocError>)
    ensures
        match spec_first_free_ip(
            spec_ipnetwork_parse(subnet.cidr@),
            subnet.cidr@,
            subnet.gateway_ip@,
            subnet.name@,
            used@,
        ) {
            Ok(t) => r matches Ok(s) && s@ == t,
            Err(e) => r matches Err(err) && err@ == e,
        },
{
    let net = parse_ip_network(subnet.cidr.as_str());
    first_free_ip(net, subnet.cidr.as_str(), subnet.gateway_ip.as_str(), subnet.name.as_str(), used)
}

proof fn lemma_first_free_from(a: int, end: int, gateway: Seq<char>, used: Seq<String>)
    requires
        0 <= a,
        end <= 0x1_0000_0000,
    ensures
        match first_free_from(a, end, gateway, used) {
            Some(x) => a <= x < end && is_free(x, gateway, used) && forall|y: int|
                a <= y < x ==> !is_free(#[trigger] (y as u32), gateway, used),
            None => forall|y: int| a <= y < end ==> !is_free(#[trigger] (y as u32), gateway, used),
        },
    decreases end - a,
{
    if a < end && !is_free(a as u32, gateway, used) {
        lemma_first_free_from(a + 1, end, gateway, used);
    }
}

proof fn lemma_between_network_and_broadcast(addr: u32, prefix: u8, x: u32)
    requires
        prefix <= 32,
        addr & prefix_mask(prefix) <= x <= addr | !prefix_mask(prefix),
    ensures
        x & prefix_mask(prefix) == addr & prefix_mask(prefix),
{
    if prefix == 0 {
        assert(x & 0u32 == addr & 0u32) by (bit_vector);
    } else if prefix == 32 {
        assert(addr & 0xffff_ffffu32 <= x <= addr | !0xffff_ffffu32 ==> x & 0xffff_ffffu32 == addr
            & 0xffff_ffffu32) by (bit_vector);
    } else {
        let s: u32 = (32 - prefix) as u32;
        assert(1 <= s < 32 && addr & (0xffff_ffffu32 << s) <= x <= addr | !(0xffff_ffffu32 << s) ==> x & (
        0xffff_ffffu32 << s) == addr & (0xffff_ffffu32 << s)) by (bit_vector);
    }
}

/// The address a new port gets lies in its subnet's network, is neither the
/// network nor the broadcast address, is neither the gateway's nor taken by
/// another port, and is the lowest such address; when there is none the
/// subnet is exhausted.
pub proof fn lemma_allocated_address_is_lowest_free(
    addr: u32,
    prefix: u8,
    cidr: Seq<char>,
    gateway: Seq<char>,
    name: Seq<char>,
    used: Seq<String>,
)
    requires
        prefix <= 32,
    ensures
        ({
            let n = addr & prefix_mask(prefix);
            let b = addr | !prefix_mask(prefix);
            match spec_first_free_ip(IpNet::V4 { addr, prefix }, cidr, gateway, name, used) {
                Ok(t) => exists|x: u32|
                    t == spec_format_ipv4(x) && n < x < b && x & prefix_mask(prefix) == n && is_free(x, gateway, used)
                        && forall|y: u32| n < y < x ==> !is_free(y, gateway, used),
                Err(e) => e == AllocErrorView::Exhausted(name) && forall|y: u32|
                    n < y < b ==> !is_free(y, gateway, used),
            }
        }),
{
    let n = addr & prefix_mask(prefix);
    let b = addr | !prefix_mask(prefix);
    lemma_first_free_from(n + 1, b as int, gateway, used);
    match first_free_from(n + 1, b as int, gateway, used) {
        Some(x) => {
            assert(n <= b) by {
                assert(addr & prefix_mask(prefix) <= addr | !prefix_mask(prefix)) by (bit_vector);
            }
            lemma_between_network_and_broadcast(addr, prefix, x);
            assert forall|y: u32| n < y < x implies !is_free(y, gateway, used) by {
                assert((y as int) as u32 == y);
            }
        },
        None => {
            assert forall|y: u32| n < y < b implies !is_free(y, gateway, used) by {
                assert((y as int) as u32 == y);
            }
        },
    }
}

proof fn lemma_first_free6_from(a: int, end: int, gateway: Seq<char>, used: Seq<String>)
    requires
        0 <= a,
        end <= 0x1_0000_0000_0000_0000_0000_0000_0000_0000,
    ensures
        match first_free6_from(a, end, gateway, used) {
            Some(x) => a <= x < end && is_free6(x, gateway, used) && forall|y: int|
                a <= y < x ==> !is_free6(#[trigger] (y as u128), gateway, used),
            None => forall|y: int| a <= y < end ==> !is_free6(#[trigger] (y as u128), gateway, used),
        },
    decreases end - a,
{
    if a < end && !is_free6(a as u128, gateway, used) {
        lemma_first_free6_from(a + 1, end, gateway, used);
    }
}

/// In an IPv6 subnet the address a new port gets lies in the subnet's
/// network after its network address, its text is neither the gateway's nor
/// taken by another port, and it is the lowest such address; when there is
/// none the subnet is exhausted.
pub proof fn lemma_allocated_v6_address_is_lowest_free(
    addr: u128,
    prefix: u8,
    cidr: Seq<char>,
    gateway: Seq<char>,
    name: Seq<char>,
    used: Seq<String>,
)
    requires
        prefix <= 128,
    ensures
        ({
            let n = addr & v6_mask(prefix);
            let b = addr | !v6_mask(prefix);
            match spec_first_free_ip(IpNet::V6 { addr, prefix }, cidr, gateway, name, used) {
                Ok(t) => exists|x: u128|
                    t == spec_format_ipv6(x) && n < x <= b && x & v6_mask(prefix) == n && is_free6(x, gateway, used)
                        && forall|y: u128| n < y < x ==> !is_free6(y, gateway, used),
                Err(e) => e == AllocErrorView::Exhausted(name) && forall|y: u128|
                    n < y <= b ==> !is_free6(y, gateway, used),
            }
        }),
{
    let m = v6_mask(prefix);
    let n = addr & m;
    let b = addr | !m;
    lemma_first_free6_from(n + 1, b + 1, gateway, used);
    match first_free6_from(n + 1, b + 1, gateway, used) {
        Some(x) => {
            if prefix == 0 {
                assert(x & 0u128 == addr & 0u128) by (bit_vector);
            } else if prefix >= 128 {
                assert(addr & 0xffff_ffff_ffff_ffff_ffff_ffff_ffff_ffffu128 <= x <= addr
                    | !0xffff_ffff_ffff_ffff_ffff_ffff_ffff_ffffu128 ==> x & 0xffff_ffff_ffff_ffff_ffff_ffff_ffff_ffffu128
                    == addr & 0xffff_ffff_ffff_ffff_ffff_ffff_ffff_ffffu128) by (bit_vector);
            } else {
                let sh: u128 = (128 - prefix) as u128;
                assert(1 <= sh < 128 && addr & (0xffff_ffff_ffff_ffff_ffff_ffff_ffff_ffffu128 << sh) <= x <= addr
                    | !(0xffff_ffff_ffff_ffff_ffff_ffff_ffff_ffffu128 << sh) ==> x & (
                0xffff_ffff_ffff_ffff_ffff_ffff_ffff_ffffu128 << sh) == addr & (0xffff_ffff_ffff_ffff_ffff_ffff_ffff_ffffu128
                    << sh)) by (bit_vector);
            }
            assert forall|y: u128| n < y < x implies !is_free6(y, gateway, used) by {
                assert((y as int) as u128 == y);
            }
        },
        None => {
            assert forall|y: u128| n < y <= b implies !is_free6(y, gateway, used) by {
                assert((y as int) as u128 == y);
            }
        },
    }
}

} // verus!
