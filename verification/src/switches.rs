//! Planning the eBPF dataplane from stored switch and router state.
//!
//! The caller reads the store and the interface indexes of the system, hands
//! them here, and carries out the returned actions on the dataplane.
use vstd::prelude::*;
use vstd::string::StringExecFns;
use vstd::string::StringSliceAdditionalSpecFns;
use crate::bytes::{be32, octets};
use crate::cidr::{Ipv4Network, NetworkError, prefix_mask, spec_parse_network};
use crate::database::{RouterRoute, Subnet, Switch, SwitchPort};
use crate::mac::{lemma_hex_groups_len, parse_mac, spec_parse_mac};
use crate::dataplane::{
    ARP_REQUEST, ARP_TABLE_CAPACITY, ArpKey, BRIDGE_TABLE_CAPACITY, INTERFACES_CAPACITY, Interface, TcAction, Tables, arp_view,
    be16_at, be32_at, find_first, first_index, learn, lemma_registered_address_is_answered, lemma_learn_then_lookup,
    spec_handle_arp,
};
use crate::text::{
    chars_of, format_ipv4, parse_ipv4, parse_unsigned, spec_format_ipv4, spec_parse_ipv4, spec_parse_unsigned,
    trim_ascii, trim_end, trim_start,
};

verus! {

/// Why a dataplane plan could not be made.
#[derive(Debug, Clone, PartialEq, Eq)]
pub enum PlanError {
    InvalidCidr(String),
    InvalidIpv4(String),
    InvalidMac(String),
    NoUsableGateway(String),
    MissingSubnet { subnet_uuid: String, port: String },
    MetricOutOfRange(u32),
}

/// A `PlanError` with its texts as character sequences.
pub enum PlanErrorView {
    InvalidCidr(Seq<char>),
    InvalidIpv4(Seq<char>),
    InvalidMac(Seq<char>),
    NoUsableGateway(Seq<char>),
    MissingSubnet { subnet_uuid: Seq<char>, port: Seq<char> },
    MetricOutOfRange(u32),
}

impl View for PlanError {
    type V = PlanErrorView;

    open spec fn view(&self) -> PlanErrorView {
        match self {
            PlanError::InvalidCidr(s) => PlanErrorView::InvalidCidr(s@),
            PlanError::InvalidIpv4(s) => PlanErrorView::InvalidIpv4(s@),
            PlanError::InvalidMac(s) => PlanErrorView::InvalidMac(s@),
            PlanError::NoUsableGateway(s) => PlanErrorView::NoUsableGateway(s@),
            PlanError::MissingSubnet { subnet_uuid, port } => PlanErrorView::MissingSubnet {
                subnet_uuid: subnet_uuid@,
                port: port@,
            },
            PlanError::MetricOutOfRange(m) => PlanErrorView::MetricOutOfRange(*m),
        }
    }
}

/// One step of 32-bit FNV-1a.
pub open spec fn fnv1a_step(h: u32, b: u8) -> u32 {
    (((h ^ (b as u32)) as int * 16777619) % 0x1_0000_0000) as u32
}

/// The 32-bit FNV-1a hash of `bytes`.
pub open spec fn fnv1a(bytes: Seq<u8>) -> u32
    decreases bytes.len(),
{
    if bytes.len() == 0 {
        2_166_136_261u32
    } else {
        fnv1a_step(fnv1a(bytes.drop_last()), bytes.last())
    }
}

fn fnv1a_extend(hash: u32, bytes: &[u8]) -> (r: u32)
    ensures
        forall|prefix: Seq<u8>| fnv1a(prefix) == hash ==> r == #[trigger] fnv1a(prefix + bytes@),
{
    let mut h = hash;
    let mut i: usize = 0;
    while i < bytes.len()
        invariant
            i <= bytes@.len(),
            forall|prefix: Seq<u8>| fnv1a(prefix) == hash ==> h == #[trigger] fnv1a(prefix + bytes@.take(i as int)),
        decreases bytes@.len() - i,
    {
        let x = h ^ (bytes[i] as u32);
        let prod: u64 = (x as u64) * 16_777_619u64;
        let next = (prod % 0x1_0000_0000u64) as u32;
        proof {
            assert(prod == x as int * 16777619);
            assert(next == fnv1a_step(h, bytes@[i as int]));
            assert forall|prefix: Seq<u8>| fnv1a(prefix) == hash implies next == #[trigger] fnv1a(
                prefix + bytes@.take(i + 1),
            ) by {
                let p2 = prefix + bytes@.take(i + 1);
                assert(p2.drop_last() =~= prefix + bytes@.take(i as int));
                assert(p2.last() == bytes@[i as int]);
                assert(fnv1a(p2) == fnv1a_step(fnv1a(p2.drop_last()), p2.last()));
            }
        }
        h = next;
        i = i + 1;
    }
    assert(bytes@.take(bytes@.len() as int) =~= bytes@);
    h
}

/// The bridge a port belongs to: the FNV-1a hash of its switch's uuid
/// followed by its subnet's uuid.
pub fn bridge_id(network_uuid: &str, subnet_uuid: &str) -> (r: u32)
    ensures
        r == fnv1a(network_uuid.spec_bytes() + subnet_uuid.spec_bytes()),
{
    let a = network_uuid.as_bytes();
    let b = subnet_uuid.as_bytes();
    let ghost empty: Seq<u8> = Seq::empty();
    let h = fnv1a_extend(2_166_136_261u32, a);
    assert(fnv1a(empty) == 2_166_136_261u32);
    assert(empty + a@ =~= a@);
    let r = fnv1a_extend(h, b);
    assert(r == fnv1a(a@ + b@));
    r
}

/// Whether `addr/prefix` contains `ip`.
pub open spec fn net_contains(net: (u32, u8), ip: u32) -> bool {
    ip & prefix_mask(net.1) == net.0 & prefix_mask(net.1)
}

/// The gateway Hull picks for a subnet: the address right after the network address.
pub open spec fn spec_default_gateway(cidr: Seq<char>) -> Result<Seq<char>, PlanErrorView> {
    match spec_parse_network(cidr) {
        Err(_) => Err(PlanErrorView::InvalidCidr(cidr)),
        Ok((a, p)) => if p >= 31 {
            Err(PlanErrorView::NoUsableGateway(cidr))
        } else {
            Ok(spec_format_ipv4(((a & prefix_mask(p)) as int + 1) as u32))
        },
    }
}

fn parse_cidr_v4(cidr: &str) -> (r: Result<Ipv4Network, PlanError>)
    ensures
        match spec_parse_network(cidr@) {
            Ok((a, p)) => r matches Ok(n) && n.spec_addr() == a && n.spec_prefix() == p,
            Err(_) => r matches Err(PlanError::InvalidCidr(t)) && t@ == cidr@,
        },
{
    match Ipv4Network::parse(cidr) {
        Ok(n) => Ok(n),
        Err(_) => Err(PlanError::InvalidCidr(String::from_str(cidr))),
    }
}

/// The default gateway of `cidr` in dotted-quad form; a network of prefix 31
/// or 32 has no address to spare for one.
pub fn default_gateway_ip_from_cidr(cidr: &str) -> (r: Result<String, PlanError>)
    ensures
        match spec_default_gateway(cidr@) {
            Ok(t) => r matches Ok(s) && s@ == t,
            Err(e) => r matches Err(err) && err@ == e,
        },
{
    let network = match parse_cidr_v4(cidr) {
        Ok(n) => n,
        Err(e) => return Err(e),
    };
    let prefix = network.prefix();
    if prefix >= 31 {
        return Err(PlanError::NoUsableGateway(String::from_str(cidr)));
    }
    let net = network.network();
    proof { lemma_low_bits_clear(network.spec_addr(), prefix); }
    Ok(format_ipv4(net + 1))
}

proof fn lemma_low_bits_clear(a: u32, p: u8)
    requires
        p < 31,
    ensures
        (a & prefix_mask(p)) as int + 1 <= u32::MAX,
{
    if p == 0 {
        assert(a & 0u32 == 0u32) by (bit_vector);
    } else {
        let s: u32 = (32 - p) as u32;
        assert(2 <= s < 32 ==> a & (0xffff_ffffu32 << s) <= 0xffff_fffcu32) by (bit_vector);
    }
}

/// The default gateway of a network with room for hosts lies inside it and is
/// neither its network nor its broadcast address.
pub proof fn lemma_default_gateway_is_host(a: u32, p: u8)
    requires
        p < 31,
    ensures
        net_contains((a, p), ((a & prefix_mask(p)) as int + 1) as u32),
        ((a & prefix_mask(p)) as int + 1) as u32 != a & prefix_mask(p),
        ((a & prefix_mask(p)) as int + 1) as u32 != a | !prefix_mask(p),
{
    lemma_low_bits_clear(a, p);
    let g = ((a & prefix_mask(p)) as int + 1) as u32;
    if p == 0 {
        assert(g & 0u32 == a & 0u32 && a | !0u32 == 0xffff_ffffu32) by (bit_vector);
        assert(a & 0u32 == 0u32) by (bit_vector);
    } else {
        let s: u32 = (32 - p) as u32;
        let m: u32 = 0xffff_ffffu32 << s;
        assert(2 <= s < 32 && m == 0xffff_ffffu32 << s && g == (a & m) + 1 ==> (g & m == a & m && g
            != (a | !m))) by (bit_vector);
    }
}

/// A stored switch port together with the interface index the system gives its TAP device, if any.
#[derive(Debug, Clone)]
pub struct PortState {
    pub port: SwitchPort,
    pub ifindex: Option<u32>,
}

/// An update of the eBPF dataplane.
#[derive(Debug, Clone, Copy, PartialEq, Eq)]
pub enum PlaneAction {
    SetBridgeMember { ifindex: u32, bridge_id: u32 },
    RegisterArpEntry { bridge_id: u32, ip: u32, mac: [u8; 6] },
    RegisterGateway { ifindex: u32, ip: u32, mac: [u8; 6] },
}

/// The route a router route becomes in the eBPF route table.
#[derive(Debug, Clone, Copy, PartialEq, Eq)]
pub struct RouteProgram {
    pub src_ip: [u8; 4],
    pub src_prefix_len: u32,
    pub dst_ip: [u8; 4],
    pub prefix_len: u32,
    pub out_ifindex: u32,
    pub next_hop_mac: [u8; 6],
    pub src_mac: [u8; 6],
    pub flags: u8,
}

/// A `RouteProgram` with its byte arrays as sequences.
pub struct RouteProgramView {
    pub src_ip: Seq<u8>,
    pub src_prefix_len: u32,
    pub dst_ip: Seq<u8>,
    pub prefix_len: u32,
    pub out_ifindex: u32,
    pub next_hop_mac: Seq<u8>,
    pub src_mac: Seq<u8>,
    pub flags: u8,
}

impl View for RouteProgram {
    type V = RouteProgramView;

    open spec fn view(&self) -> RouteProgramView {
        RouteProgramView {
            src_ip: self.src_ip@,
            src_prefix_len: self.src_prefix_len,
            dst_ip: self.dst_ip@,
            prefix_len: self.prefix_len,
            out_ifindex: self.out_ifindex,
            next_hop_mac: self.next_hop_mac@,
            src_mac: self.src_mac@,
            flags: self.flags,
        }
    }
}

/// The last subnet of `subnets` with uuid `uuid`.
pub open spec fn lookup_subnet(subnets: Seq<Subnet>, uuid: Seq<char>) -> Option<Subnet>
    decreases subnets.len(),
{
    if subnets.len() == 0 {
        None
    } else if subnets.last().uuid@ == uuid {
        Some(subnets.last())
    } else {
        lookup_subnet(subnets.drop_last(), uuid)
    }
}

/// The name of the last switch of `switches` with uuid `uuid`.
pub open spec fn lookup_switch_name(switches: Seq<Switch>, uuid: Seq<char>) -> Option<Seq<char>>
    decreases switches.len(),
{
    if switches.len() == 0 {
        None
    } else if switches.last().uuid@ == uuid {
        Some(switches.last().name@)
    } else {
        lookup_switch_name(switches.drop_last(), uuid)
    }
}

/// Some string of `names` reads `name`.
pub open spec fn names_contain(names: Seq<String>, name: Seq<char>) -> bool {
    exists|j: int| 0 <= j < names.len() && names[j]@ == name
}

fn find_subnet(subnets: &Vec<Subnet>, uuid: &String) -> (r: Option<usize>)
    ensures
        match lookup_subnet(subnets@, uuid@) {
            Some(s) => r matches Some(k) && k < subnets@.len() && subnets@[k as int] == s,
            None => r is None,
        },
{
    let mut found: Option<usize> = None;
    let mut i: usize = 0;
    while i < subnets.len()
        invariant
            i <= subnets@.len(),
            match lookup_subnet(subnets@.take(i as int), uuid@) {
                Some(s) => found matches Some(k) && k < i && subnets@[k as int] == s,
                None => found is None,
            },
        decreases subnets@.len() - i,
    {
        proof {
            assert(subnets@.take(i + 1).drop_last() =~= subnets@.take(i as int));
        }
        if subnets[i].uuid == *uuid {
            found = Some(i);
        }
        i = i + 1;
    }
    assert(subnets@.take(subnets@.len() as int) =~= subnets@);
    found
}

fn find_switch_name(switches: &Vec<Switch>, uuid: &String) -> (r: Option<usize>)
    ensures
        match lookup_switch_name(switches@, uuid@) {
            Some(n) => r matches Some(k) && k < switches@.len() && switches@[k as int].name@ == n,
            None => r is None,
        },
{
    let mut found: Option<usize> = None;
    let mut i: usize = 0;
    while i < switches.len()
        invariant
            i <= switches@.len(),
            match lookup_switch_name(switches@.take(i as int), uuid@) {
                Some(n) => found matches Some(k) && k < i && switches@[k as int].name@ == n,
                None => found is None,
            },
        decreases switches@.len() - i,
    {
        proof {
            assert(switches@.take(i + 1).drop_last() =~= switches@.take(i as int));
        }
        if switches[i].uuid == *uuid {
            found = Some(i);
        }
        i = i + 1;
    }
    assert(switches@.take(switches@.len() as int) =~= switches@);
    found
}

fn contains_name(names: &Vec<String>, name: &String) -> (r: bool)
    ensures
        r == names_contain(names@, name@),
{
    let mut i: usize = 0;
    while i < names.len()
        invariant
            i <= names@.len(),
            forall|j: int| 0 <= j < i ==> names@[j]@ != name@,
        decreases names@.len() - i,
    {
        if names[i] == *name {
            return true;
        }
        i = i + 1;
    }
    false
}

/// What syncing one port does to the dataplane, in order, and the error that
/// stops it, if any.
///
/// A port whose TAP device has no interface index is left alone. Otherwise its
/// subnet must be known; the port joins the bridge of its switch and subnet
/// and its address is published in that bridge's ARP table; when its switch is
/// attached to a router, the subnet's gateway is published too and registered
/// on the port.
pub open spec fn spec_port_sync(
    p: PortState,
    subnets: Seq<Subnet>,
    switches: Seq<Switch>,
    gateway_switches: Seq<String>,
) -> (Seq<PlaneAction>, Option<PlanErrorView>) {
    match p.ifindex {
        None => (Seq::empty(), None),
        Some(ifindex) => match lookup_subnet(subnets, p.port.subnet_uuid@) {
            None => (
                Seq::empty(),
                Some(PlanErrorView::MissingSubnet { subnet_uuid: p.port.subnet_uuid@, port: p.port.name@ }),
            ),
            Some(subnet) => {
                let bid = fnv1a(vstd::utf8::encode_utf8(p.port.switch_uuid@) + vstd::utf8::encode_utf8(subnet.uuid@));
                let member = seq![PlaneAction::SetBridgeMember { ifindex, bridge_id: bid }];
                match spec_parse_ipv4(p.port.ip@) {
                    None => (member, Some(PlanErrorView::InvalidIpv4(p.port.ip@))),
                    Some(ip) => match spec_parse_mac(p.port.mac@) {
                        None => (member, Some(PlanErrorView::InvalidMac(p.port.mac@))),
                        Some(mac) => {
                            let arp = member.push(
                                PlaneAction::RegisterArpEntry { bridge_id: bid, ip, mac: arr6(mac) },
                            );
                            let gateway_enabled = match lookup_switch_name(switches, p.port.switch_uuid@) {
                                Some(n) => names_contain(gateway_switches, n),
                                None => false,
                            };
                            if !gateway_enabled {
                                (arp, None)
                            } else {
                                match spec_parse_ipv4(subnet.gateway_ip@) {
                                    None => (arp, Some(PlanErrorView::InvalidIpv4(subnet.gateway_ip@))),
                                    Some(gw_ip) => match spec_parse_mac(subnet.gateway_mac@) {
                                        None => (arp, Some(PlanErrorView::InvalidMac(subnet.gateway_mac@))),
                                        Some(gw_mac) => (
                                            arp.push(
                                                PlaneAction::RegisterArpEntry {
                                                    bridge_id: bid,
                                                    ip: gw_ip,
                                                    mac: arr6(gw_mac),
                                                },
                                            ).push(PlaneAction::RegisterGateway { ifindex, ip: gw_ip, mac: arr6(gw_mac) }),
                                            None,
                                        ),
                                    },
                                }
                            }
                        },
                    },
                }
            },
        },
    }
}

/// The six-byte array holding `b`.
pub open spec fn arr6(b: Seq<u8>) -> [u8; 6] {
    choose|a: [u8; 6]| a@ == b
}

proof fn lemma_arr6(a: [u8; 6])
    ensures
        arr6(a@) == a,
{
    let c = arr6(a@);
    assert(exists|x: [u8; 6]| x@ == a@);
    assert(c@ == a@);
    assert(forall|i: int| 0 <= i < 6 ==> c[i] == c@[i] && a[i] == a@[i]);
    assert(c =~= a);
}

/// The dataplane updates for one port (see `spec_port_sync`).
pub fn plan_port_sync(
    p: &PortState,
    subnets: &Vec<Subnet>,
    switches: &Vec<Switch>,
    gateway_switches: &Vec<String>,
) -> (r: (Vec<PlaneAction>, Option<PlanError>))
    ensures
        r.0@ == spec_port_sync(*p, subnets@, switches@, gateway_switches@).0,
        match spec_port_sync(*p, subnets@, switches@, gateway_switches@).1 {
            Some(e) => r.1 matches Some(err) && err@ == e,
            None => r.1 is None,
        },
{
    let mut actions: Vec<PlaneAction> = Vec::new();
    let ifindex = match p.ifindex {
        None => return (actions, None),
        Some(i) => i,
    };
    let k = match find_subnet(subnets, &p.port.subnet_uuid) {
        None => {
            return (
                actions,
                Some(PlanError::MissingSubnet { subnet_uuid: p.port.subnet_uuid.clone(), port: p.port.name.clone() }),
            )
        },
        Some(k) => k,
    };
    let subnet = &subnets[k];
    let bid = bridge_id(p.port.switch_uuid.as_str(), subnet.uuid.as_str());
    actions.push(PlaneAction::SetBridgeMember { ifindex, bridge_id: bid });
    let ip = match parse_ipv4(p.port.ip.as_str()) {
        None => return (actions, Some(PlanError::InvalidIpv4(p.port.ip.clone()))),
        Some(ip) => ip,
    };
    let mac = match parse_mac(p.port.mac.as_str()) {
        None => return (actions, Some(PlanError::InvalidMac(p.port.mac.clone()))),
        Some(m) => m,
    };
    proof { lemma_arr6(mac); }
    actions.push(PlaneAction::RegisterArpEntry { bridge_id: bid, ip, mac });
    let gateway_enabled = match find_switch_name(switches, &p.port.switch_uuid) {
        Some(j) => contains_name(gateway_switches, &switches[j].name),
        None => false,
    };
    if !gateway_enabled {
        return (actions, None);
    }
    let gw_ip = match parse_ipv4(subnet.gateway_ip.as_str()) {
        None => return (actions, Some(PlanError::InvalidIpv4(subnet.gateway_ip.clone()))),
        Some(ip) => ip,
    };
    let gw_mac = match parse_mac(subnet.gateway_mac.as_str()) {
        None => return (actions, Some(PlanError::InvalidMac(subnet.gateway_mac.clone()))),
        Some(m) => m,
    };
    proof { lemma_arr6(gw_mac); }
    actions.push(PlaneAction::RegisterArpEntry { bridge_id: bid, ip: gw_ip, mac: gw_mac });
    actions.push(PlaneAction::RegisterGateway { ifindex, ip: gw_ip, mac: gw_mac });
    (actions, None)
}

/// What a route has found after looking at some ports: whether one of them
/// lies in its source network, and the last one whose subnet holds its next
/// hop, with that port's interface index and MAC address.
pub type RouteSearch = (bool, Option<(u32, Seq<u8>)>);

/// What port `p` adds to the search `acc` for a route from `source` via
/// `next_hop`.
///
/// Only a port whose subnet and switch are known, whose switch is attached to
/// the router, whose TAP device has an interface index and whose address
/// parses takes part. It is an ingress port when the source network holds its
/// address, and the egress port when its subnet's network holds the next hop;
/// an egress port's MAC address must parse.
#[verifier::opaque]
pub open spec fn route_port_step(
    acc: RouteSearch,
    p: PortState,
    attached: Seq<String>,
    switches: Seq<Switch>,
    subnets: Seq<Subnet>,
    source: (u32, u8),
    next_hop: u32,
) -> Result<RouteSearch, PlanErrorView> {
    match lookup_subnet(subnets, p.port.subnet_uuid@) {
        None => Ok(acc),
        Some(subnet) => match lookup_switch_name(switches, p.port.switch_uuid@) {
            None => Ok(acc),
            Some(name) => if !names_contain(attached, name) {
                Ok(acc)
            } else {
                match p.ifindex {
                    None => Ok(acc),
                    Some(ifindex) => match spec_parse_ipv4(p.port.ip@) {
                        None => Ok(acc),
                        Some(ip) => {
                            let ingress = acc.0 || net_contains(source, ip);
                            match spec_parse_network(subnet.cidr@) {
                                Err(_) => Ok((ingress, acc.1)),
                                Ok(net) => if net_contains(net, next_hop) {
                                    match spec_parse_mac(p.port.mac@) {
                                        None => Err(PlanErrorView::InvalidMac(p.port.mac@)),
                                        Some(mac) => Ok((ingress, Some((ifindex, mac)))),
                                    }
                                } else {
                                    Ok((ingress, acc.1))
                                },
                            }
                        },
                    },
                }
            },
        },
    }
}

/// The search of a route over `ports`, in order; the first error ends it.
pub open spec fn route_scan(
    ports: Seq<PortState>,
    attached: Seq<String>,
    switches: Seq<Switch>,
    subnets: Seq<Subnet>,
    source: (u32, u8),
    next_hop: u32,
) -> Result<RouteSearch, PlanErrorView>
    decreases ports.len(),
{
    if ports.len() == 0 {
        Ok((false, None))
    } else {
        match route_scan(ports.drop_last(), attached, switches, subnets, source, next_hop) {
            Err(e) => Err(e),
            Ok(acc) => route_port_step(acc, ports.last(), attached, switches, subnets, source, next_hop),
        }
    }
}

/// The dataplane route that `route` becomes, if any.
///
/// A route without a next hop or without a next-hop MAC address is not
/// programmed. Otherwise its source and destination networks, its next hop and
/// the next hop's MAC address must parse, in that order. The route is
/// programmed only when some port is an ingress port and some port is the
/// egress port (see `route_port_step`), and then only with a metric that fits
/// in a byte.
pub open spec fn spec_plan_route(
    route: RouterRoute,
    attached: Seq<String>,
    switches: Seq<Switch>,
    subnets: Seq<Subnet>,
    ports: Seq<PortState>,
) -> Result<Option<RouteProgramView>, PlanErrorView> {
    match (route.next_hop_mac, route.next_hop) {
        (Some(nh_mac_text), Some(nh_text)) => match spec_parse_network(route.source@) {
            Err(_) => Err(PlanErrorView::InvalidCidr(route.source@)),
            Ok(src) => match spec_parse_network(route.destination@) {
                Err(_) => Err(PlanErrorView::InvalidCidr(route.destination@)),
                Ok(dst) => match spec_parse_ipv4(nh_text@) {
                    None => Err(PlanErrorView::InvalidIpv4(nh_text@)),
                    Some(nh) => match spec_parse_mac(nh_mac_text@) {
                        None => Err(PlanErrorView::InvalidMac(nh_mac_text@)),
                        Some(nh_mac) => match route_scan(ports, attached, switches, subnets, src, nh) {
                            Err(e) => Err(e),
                            Ok((ingress, egress)) => match egress {
                                None => Ok(None),
                                Some((ifindex, src_mac)) => if !ingress {
                                    Ok(None)
                                } else if route.metric > 255 {
                                    Err(PlanErrorView::MetricOutOfRange(route.metric))
                                } else {
                                    Ok(
                                        Some(
                                            RouteProgramView {
                                                src_ip: be32(src.0 & prefix_mask(src.1)),
                                                src_prefix_len: src.1 as u32,
                                                dst_ip: be32(dst.0 & prefix_mask(dst.1)),
                                                prefix_len: dst.1 as u32,
                                                out_ifindex: ifindex,
                                                next_hop_mac: nh_mac,
                                                src_mac,
                                                flags: route.metric as u8,
                                            },
                                        ),
                                    )
                                },
                            },
                        },
                    },
                },
            },
        },
        _ => Ok(None),
    }
}

/// The egress port found so far, with its MAC address as a sequence.
pub open spec fn egress_view(e: Option<(u32, [u8; 6])>) -> Option<(u32, Seq<u8>)> {
    match e {
        Some((i, m)) => Some((i, m@)),
        None => None,
    }
}

proof fn lemma_scan_error_stays(
    ports: Seq<PortState>,
    attached: Seq<String>,
    switches: Seq<Switch>,
    subnets: Seq<Subnet>,
    source: (u32, u8),
    next_hop: u32,
    i: int,
    j: int,
)
    requires
        0 <= i <= j <= ports.len(),
        route_scan(ports.take(i), attached, switches, subnets, source, next_hop) is Err,
    ensures
        route_scan(ports.take(j), attached, switches, subnets, source, next_hop) == route_scan(
            ports.take(i),
            attached,
            switches,
            subnets,
            source,
            next_hop,
        ),
    decreases j - i,
{
    if j > i {
        lemma_scan_error_stays(ports, attached, switches, subnets, source, next_hop, i, j - 1);
        assert(ports.take(j).drop_last() =~= ports.take(j - 1));
    }
}

fn scan_port(
    has_ingress: bool,
    egress: Option<(u32, [u8; 6])>,
    p: &PortState,
    attached: &Vec<String>,
    switches: &Vec<Switch>,
    subnets: &Vec<Subnet>,
    source: Ipv4Network,
    next_hop: u32,
) -> (r: Result<(bool, Option<(u32, [u8; 6])>), PlanError>)
    ensures
        match route_port_step(
            (has_ingress, egress_view(egress)),
            *p,
            attached@,
            switches@,
            subnets@,
            (source.spec_addr(), source.spec_prefix()),
            next_hop,
        ) {
            Ok(acc) => r matches Ok(v) && acc == (v.0, egress_view(v.1)),
            Err(e) => r matches Err(err) && err@ == e,
        },
{
    reveal(route_port_step);
    let k = match find_subnet(subnets, &p.port.subnet_uuid) {
        Some(k) => k,
        None => return Ok((has_ingress, egress)),
    };
    let j = match find_switch_name(switches, &p.port.switch_uuid) {
        Some(j) => j,
        None => return Ok((has_ingress, egress)),
    };
    if !contains_name(attached, &switches[j].name) {
        return Ok((has_ingress, egress));
    }
    let ifindex = match p.ifindex {
        Some(x) => x,
        None => return Ok((has_ingress, egress)),
    };
    let ip = match parse_ipv4(p.port.ip.as_str()) {
        Some(ip) => ip,
        None => return Ok((has_ingress, egress)),
    };
    let ingress = has_ingress || source.contains(ip);
    let net = match Ipv4Network::parse(subnets[k].cidr.as_str()) {
        Ok(n) => n,
        Err(_) => return Ok((ingress, egress)),
    };
    if !net.contains(next_hop) {
        return Ok((ingress, egress));
    }
    match parse_mac(p.port.mac.as_str()) {
        Some(m) => Ok((ingress, Some((ifindex, m)))),
        None => Err(PlanError::InvalidMac(p.port.mac.clone())),
    }
}

/// The dataplane route for `route` (see `spec_plan_route`), given the switches
/// attached to its router, all switches, the subnets of all switches, and the
/// ports of all switches with the interface indexes of their TAP devices.
#[verifier::loop_isolation(false)]
pub fn plan_route(
    route: &RouterRoute,
    attached: &Vec<String>,
    switches: &Vec<Switch>,
    subnets: &Vec<Subnet>,
    ports: &Vec<PortState>,
) -> (r: Result<Option<RouteProgram>, PlanError>)
    ensures
        match spec_plan_route(*route, attached@, switches@, subnets@, ports@) {
            Ok(Some(v)) => r matches Ok(Some(p)) && p@ == v,
            Ok(None) => r matches Ok(None),
            Err(e) => r matches Err(err) && err@ == e,
        },
{
    let nh_mac_text = match &route.next_hop_mac {
        Some(t) => t,
        None => return Ok(None),
    };
    let nh_text = match &route.next_hop {
        Some(t) => t,
        None => return Ok(None),
    };
    let source = match parse_cidr_v4(route.source.as_str()) {
        Ok(n) => n,
        Err(e) => return Err(e),
    };
    let destination = match parse_cidr_v4(route.destination.as_str()) {
        Ok(n) => n,
        Err(e) => return Err(e),
    };
    let next_hop = match parse_ipv4(nh_text.as_str()) {
        Some(ip) => ip,
        None => return Err(PlanError::InvalidIpv4(nh_text.clone())),
    };
    let next_hop_mac = match parse_mac(nh_mac_text.as_str()) {
        Some(m) => m,
        None => return Err(PlanError::InvalidMac(nh_mac_text.clone())),
    };
    let ghost src = (source.spec_addr(), source.spec_prefix());
    let mut has_ingress = false;
    let mut egress: Option<(u32, [u8; 6])> = None;
    let mut i: usize = 0;
    while i < ports.len()
        invariant
            i <= ports@.len(),
            src == (source.spec_addr(), source.spec_prefix()),
            route_scan(ports@.take(i as int), attached@, switches@, subnets@, src, next_hop) == Ok::<
                RouteSearch,
                PlanErrorView,
            >((has_ingress, egress_view(egress))),
        decreases ports@.len() - i,
    {
        proof {
            assert(ports@.take(i + 1).drop_last() =~= ports@.take(i as int));
        }
        match scan_port(has_ingress, egress, &ports[i], attached, switches, subnets, source, next_hop) {
            Ok((ing, eg)) => {
                has_ingress = ing;
                egress = eg;
            },
            Err(e) => {
                proof {
                    assert(ports@.take(i + 1).last() == ports@[i as int]);
                    assert(route_scan(ports@.take(i + 1), attached@, switches@, subnets@, src, next_hop)
                        == route_port_step(
                        (has_ingress, egress_view(egress)),
                        ports@[i as int],
                        attached@,
                        switches@,
                        subnets@,
                        src,
                        next_hop,
                    ));
                    lemma_scan_error_stays(
                        ports@,
                        attached@,
                        switches@,
                        subnets@,
                        src,
                        next_hop,
                        i + 1,
                        ports@.len() as int,
                    );
                    assert(ports@.take(ports@.len() as int) =~= ports@);
                }
                return Err(e);
            },
        }
        i = i + 1;
    }
    proof {
        assert(ports@.take(ports@.len() as int) =~= ports@);
    }
    let (egress_ifindex, src_mac) = match egress {
        Some(e) => e,
        None => return Ok(None),
    };
    if !has_ingress {
        return Ok(None);
    }
    if route.metric > 255 {
        return Err(PlanError::MetricOutOfRange(route.metric));
    }
    let src_prefix = source.prefix();
    let dst_prefix = destination.prefix();
    Ok(
        Some(
            RouteProgram {
                src_ip: octets(source.network()),
                src_prefix_len: src_prefix as u32,
                dst_ip: octets(destination.network()),
                prefix_len: dst_prefix as u32,
                out_ifindex: egress_ifindex,
                next_hop_mac,
                src_mac,
                flags: route.metric as u8,
            },
        ),
    )
}

/// The interface index a device's `ifindex` file reports: the decimal
/// number it holds, surrounding whitespace ignored.
pub fn parse_ifindex(content: &str) -> (r: Option<u32>)
    ensures
        match spec_parse_unsigned(trim_end(trim_start(content@)), u32::MAX as nat) {
            Some(v) => r == Some(v as u32),
            None => r is None,
        },
{
    let t = trim_ascii(content);
    let chars = chars_of(t.as_str());
    match parse_unsigned(chars.as_slice(), 0xffff_ffff) {
        Some(v) => Some(v as u32),
        None => None,
    }
}

/// `t2` is the dataplane `t` after update `a`: the map it writes is updated
/// as a hash map insert does (see `learn`), the other maps stay as they were.
pub open spec fn applied(t: Tables, a: PlaneAction, t2: Tables) -> bool {
    match a {
        PlaneAction::SetBridgeMember { ifindex, bridge_id } => {
            &&& t2.bridge_table@ == learn(t.bridge_table@, ifindex, bridge_id, BRIDGE_TABLE_CAPACITY as nat)
            &&& t2.route_table == t.route_table && t2.default_routes == t.default_routes
            &&& t2.interfaces == t.interfaces && t2.arp_table == t.arp_table
        },
        PlaneAction::RegisterArpEntry { bridge_id, ip, mac } => {
            &&& arp_view(t2.arp_table@) == learn(arp_view(t.arp_table@), ArpKey { bridge_id, ip }, mac@, ARP_TABLE_CAPACITY as nat)
            &&& t2.route_table == t.route_table && t2.default_routes == t.default_routes
            &&& t2.interfaces == t.interfaces && t2.bridge_table == t.bridge_table
        },
        PlaneAction::RegisterGateway { ifindex, ip, mac } => {
            &&& t2.interfaces@ == learn(t.interfaces@, ifindex, Interface { ip, mac }, INTERFACES_CAPACITY as nat)
            &&& t2.route_table == t.route_table && t2.default_routes == t.default_routes
            &&& t2.bridge_table == t.bridge_table && t2.arp_table == t.arp_table
        },
    }
}

/// Carries out a planned update on a model of the dataplane's maps.
pub fn apply_action(t: &mut Tables, a: PlaneAction)
    ensures
        applied(*old(t), a, *final(t)),
{
    match a {
        PlaneAction::SetBridgeMember { ifindex, bridge_id } => t.set_bridge_member(ifindex, bridge_id),
        PlaneAction::RegisterArpEntry { bridge_id, ip, mac } => t.register_arp_entry(bridge_id, ip, mac),
        PlaneAction::RegisterGateway { ifindex, ip, mac } => t.register_gateway(ifindex, ip, mac),
    }
}

/// A synced port is reachable: once the first two updates planned for a
/// port (joining its bridge, publishing its address) are carried out on
/// maps with room for them, an ARP request for the port's address arriving
/// on the port's interface is answered with the port's MAC address, unless
/// the interface's gateway has that very address; the reply goes back out of
/// that interface when the kernel takes the redirect and passes on when it
/// refuses it.
pub proof fn lemma_synced_port_answers_arp(
    p: PortState,
    subnets: Seq<Subnet>,
    switches: Seq<Switch>,
    gateway_switches: Seq<String>,
    t0: Tables,
    t1: Tables,
    t2: Tables,
    f: Seq<u8>,
    redirect_ok: bool,
)
    requires
        p.ifindex is Some,
        spec_port_sync(p, subnets, switches, gateway_switches).1 is None,
        applied(t0, spec_port_sync(p, subnets, switches, gateway_switches).0[0], t1),
        applied(t1, spec_port_sync(p, subnets, switches, gateway_switches).0[1], t2),
        first_index(t0.bridge_table@, p.ifindex->Some_0) is Some || t0.bridge_table@.len() < BRIDGE_TABLE_CAPACITY,
        t1.arp_table@.len() < ARP_TABLE_CAPACITY,
        find_first(t2.interfaces@, p.ifindex->Some_0) matches Some(gw) ==> Some(gw.ip) != spec_parse_ipv4(p.port.ip@),
        f.len() >= 42,
        be16_at(f, 20) == ARP_REQUEST,
        Some(be32_at(f, 38)) == spec_parse_ipv4(p.port.ip@),
    ensures
        spec_handle_arp(f, p.ifindex->Some_0, redirect_ok, t2).0 == (if redirect_ok {
            TcAction::Redirect(p.ifindex->Some_0)
        } else {
            TcAction::Pipe
        }),
        Some(spec_handle_arp(f, p.ifindex->Some_0, redirect_ok, t2).1.subrange(22, 28)) == spec_parse_mac(p.port.mac@),
{
    let ifx = p.ifindex->Some_0;
    let subnet = lookup_subnet(subnets, p.port.subnet_uuid@)->Some_0;
    let bid = fnv1a(vstd::utf8::encode_utf8(p.port.switch_uuid@) + vstd::utf8::encode_utf8(subnet.uuid@));
    let ip = spec_parse_ipv4(p.port.ip@)->Some_0;
    let mac = spec_parse_mac(p.port.mac@)->Some_0;
    lemma_hex_groups_len(p.port.mac@, 6);
    assert(exists|x: [u8; 6]| x@ == mac) by {
        let x = [mac[0], mac[1], mac[2], mac[3], mac[4], mac[5]];
        assert(x@ =~= mac);
    }
    let acts = spec_port_sync(p, subnets, switches, gateway_switches).0;
    assert(acts[0] == PlaneAction::SetBridgeMember { ifindex: ifx, bridge_id: bid });
    assert(acts[1] == PlaneAction::RegisterArpEntry { bridge_id: bid, ip, mac: arr6(mac) });
    lemma_learn_then_lookup(t0.bridge_table@, ifx, bid, BRIDGE_TABLE_CAPACITY as nat, if ifx == 0 { 1u32 } else { 0u32 });
    assert(find_first(t1.bridge_table@, ifx) == Some(bid));
    assert(arp_view(t1.arp_table@).len() == t1.arp_table@.len());
    lemma_registered_address_is_answered(t1, t2, bid, ip, arr6(mac), f, ifx, redirect_ok);
}

} // verus!
