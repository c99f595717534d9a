//! What a router installs on an `OpenFlow` bridge: the gateway responders of
//! its attached switches, the paths between them, and its routes.
use vstd::prelude::*;
use vstd::string::StringExecFns;
use crate::bytes::{be16, be32, lemma_read_be32, octets, read_be};
use crate::cidr::prefix_mask;
use crate::database::{RouterPort, RouterRoute, SwitchPort, texts_contain};
use crate::openflow::protocol::action::{Action, ActionView};
use crate::openflow::protocol::constants::{
    ETH_TYPE_ARP, ETH_TYPE_IPV4, OFPFC_ADD, OFPP_ANY, OFPP_IN_PORT, OFP_NO_BUFFER, OFPXMT_OFB_ARP_OP,
    OFPXMT_OFB_ARP_SHA, OFPXMT_OFB_ARP_SPA, OFPXMT_OFB_ARP_THA, OFPXMT_OFB_ARP_TPA, OFPXMT_OFB_ETH_DST,
    OFPXMT_OFB_ETH_SRC, OFPXMT_OFB_ETH_TYPE, OFPXMT_OFB_ICMPV4_TYPE, OFPXMT_OFB_IN_PORT, OFPXMT_OFB_IP_PROTO,
    OFPXMT_OFB_IPV4_DST, OFPXMT_OFB_IPV4_SRC,
};
use crate::openflow::protocol::instruction::Instruction;
use crate::openflow::protocol::ofmatch::Match;
use crate::openflow::protocol::oxm::{
    arp_op, arp_sha, arp_spa, arp_tpa, copy_field_ids, eth_dst, eth_src, eth_type, icmpv4_type, in_port,
    ip_proto, ipv4_dst, ipv4_dst_masked, ipv4_src, ipv4_src_masked, oxm_header_value, spec_masked_oxm, spec_oxm,
    spec_oxm_id,
};
use crate::openflow::protocol::rule::Rule;
use crate::ipnet::{
    IpNet, holds, net_holds, net_network, network_of, parse_ip_network, prefix_fits, spec_ipnetwork_parse,
};
use crate::mac::{parse_mac, spec_parse_mac};
use crate::text::{
    decimal_text, join_texts, joined, push_decimal_u32, text_views, chars_of, format_ipv4, parse_ipv4, parse_unsigned, spec_format_ipv4, spec_parse_ipv4,
    spec_parse_unsigned, split_first, split_once,
};

verus! {

/// Why a router's flows could not be built.
#[derive(Debug, Clone)]
pub enum RouterError {
    InvalidIpv4(String),
    InvalidMac(String),
    InvalidCidr(String),
    Ipv6Unsupported(String),
    /// The named router has no link address.
    NoLinkIp(String),
    /// The named router has no link MAC address.
    NoLinkMac(String),
}

pub enum RouterErrorView {
    InvalidIpv4(Seq<char>),
    InvalidMac(Seq<char>),
    InvalidCidr(Seq<char>),
    Ipv6Unsupported(Seq<char>),
    NoLinkIp(Seq<char>),
    NoLinkMac(Seq<char>),
}

impl View for RouterError {
    type V = RouterErrorView;

    open spec fn view(&self) -> RouterErrorView {
        match self {
            RouterError::InvalidIpv4(t) => RouterErrorView::InvalidIpv4(t@),
            RouterError::InvalidMac(t) => RouterErrorView::InvalidMac(t@),
            RouterError::InvalidCidr(t) => RouterErrorView::InvalidCidr(t@),
            RouterError::Ipv6Unsupported(t) => RouterErrorView::Ipv6Unsupported(t@),
            RouterError::NoLinkIp(t) => RouterErrorView::NoLinkIp(t@),
            RouterError::NoLinkMac(t) => RouterErrorView::NoLinkMac(t@),
        }
    }
}

/// The dotted netmask of a prefix length, as four bytes.
pub fn mask_to_ipv4_mask(mask: u8) -> (r: [u8; 4])
    requires
        mask <= 32,
    ensures
        r@ == be32(prefix_mask(mask)),
{
    if mask == 0 {
        let z = [0u8, 0u8, 0u8, 0u8];
        assert(z@ =~= be32(0u32));
        return z;
    }
    let m: u32 = if mask == 32 {
        u32::MAX
    } else {
        u32::MAX << (32 - mask) as u32
    };
    octets(m)
}

/// The gateway a switch's network gets: the switch address with its last
/// octet set to 1.
pub open spec fn spec_gateway_ip(switch_ip: Seq<char>) -> Result<Seq<char>, RouterErrorView> {
    match spec_parse_ipv4(switch_ip) {
        Some(a) => Ok(spec_format_ipv4((a & 0xffff_ff00) | 1)),
        None => Err(RouterErrorView::InvalidIpv4(switch_ip)),
    }
}

pub fn compute_gateway_ip(switch_ip: &str) -> (r: Result<String, RouterError>)
    ensures
        match spec_gateway_ip(switch_ip@) {
            Ok(t) => r matches Ok(s) && s@ == t,
            Err(e) => r matches Err(err) && err@ == e,
        },
{
    match parse_ipv4(switch_ip) {
        Some(a) => Ok(format_ipv4((a & 0xffff_ff00) | 1)),
        None => Err(RouterError::InvalidIpv4(String::from_str(switch_ip))),
    }
}

/// The network address and netmask of an IPv4 network, as bytes; IPv6
/// networks are refused.
pub open spec fn spec_masked(net: IpNet, cidr: Seq<char>) -> Result<(Seq<u8>, Seq<u8>), RouterErrorView> {
    match net {
        IpNet::V4 { addr, prefix } => Ok((be32(addr & prefix_mask(prefix)), be32(prefix_mask(prefix)))),
        IpNet::V6 { .. } => Err(RouterErrorView::Ipv6Unsupported(cidr)),
        IpNet::Invalid => Err(RouterErrorView::InvalidCidr(cidr)),
    }
}

/// The network address and netmask of what `ipnetwork` made of `cidr` (see
/// `spec_masked`).
pub fn masked_ipv4(net: IpNet, cidr: &str) -> (r: Result<([u8; 4], [u8; 4]), RouterError>)
    requires
        prefix_fits(net),
    ensures
        match spec_masked(net, cidr@) {
            Ok((a, m)) => r matches Ok(v) && v.0@ == a && v.1@ == m,
            Err(e) => r matches Err(err) && err@ == e,
        },
{
    match net {
        IpNet::V4 { addr, prefix } => {
            let mask = mask_to_ipv4_mask(prefix);
            let m: u32 = if prefix == 0 {
                0
            } else if prefix == 32 {
                u32::MAX
            } else {
                u32::MAX << (32 - prefix) as u32
            };
            Ok((octets(addr & m), mask))
        },
        IpNet::V6 { .. } => Err(RouterError::Ipv6Unsupported(String::from_str(cidr))),
        IpNet::Invalid => Err(RouterError::InvalidCidr(String::from_str(cidr))),
    }
}

/// The network address and netmask of `cidr` as `ipnetwork` reads it.
pub fn cidr_to_ipv4_masked(cidr: &str) -> (r: Result<([u8; 4], [u8; 4]), RouterError>)
    ensures
        match spec_masked(spec_ipnetwork_parse(cidr@), cidr@) {
            Ok((a, m)) => r matches Ok(v) && v.0@ == a && v.1@ == m,
            Err(e) => r matches Err(err) && err@ == e,
        },
{
    let net = parse_ip_network(cidr);
    masked_ipv4(net, cidr)
}

/// Network `net` shares an address with one of `sources`: one holds the
/// other's network address. Texts that are not networks cover nothing.
pub open spec fn spec_covered(net: IpNet, sources: Seq<IpNet>) -> bool {
    net != IpNet::Invalid && exists|i: int|
        0 <= i < sources.len() && sources[i] != IpNet::Invalid && (net_holds(sources[i], net_network(net))
            || net_holds(net, net_network(sources[i])))
}

/// Whether `net` is covered by one of `sources` (see `spec_covered`).
pub fn networks_cover(net: IpNet, sources: &Vec<IpNet>) -> (r: bool)
    requires
        prefix_fits(net),
        forall|i: int| 0 <= i < sources@.len() ==> prefix_fits(#[trigger] sources@[i]),
    ensures
        r == spec_covered(net, sources@),
{
    if net == IpNet::Invalid {
        return false;
    }
    let mut i: usize = 0;
    while i < sources.len()
        invariant
            i <= sources@.len(),
            net != IpNet::Invalid,
            prefix_fits(net),
            forall|j: int| 0 <= j < sources@.len() ==> prefix_fits(#[trigger] sources@[j]),
            forall|j: int|
                0 <= j < i ==> !(sources@[j] != IpNet::Invalid && (net_holds(sources@[j], net_network(net))
                    || net_holds(net, net_network(sources@[j])))),
        decreases sources@.len() - i,
    {
        let s = sources[i];
        if s != IpNet::Invalid && (holds(s, network_of(net)) || holds(net, network_of(s))) {
            return true;
        }
        i = i + 1;
    }
    false
}

/// Whether the network `cidr` shares an address with one of the networks
/// `sources`, all read by `ipnetwork`.
pub fn cidr_is_covered(cidr: &str, sources: &Vec<String>) -> (r: bool)
    ensures
        r == spec_covered(
            spec_ipnetwork_parse(cidr@),
            sources@.map_values(|s: String| spec_ipnetwork_parse(s@)),
        ),
{
    let net = parse_ip_network(cidr);
    let mut parsed: Vec<IpNet> = Vec::new();
    let mut i: usize = 0;
    while i < sources.len()
        invariant
            i <= sources@.len(),
            parsed@ == sources@.take(i as int).map_values(|s: String| spec_ipnetwork_parse(s@)),
            forall|j: int| 0 <= j < parsed@.len() ==> prefix_fits(#[trigger] parsed@[j]),
        decreases sources@.len() - i,
    {
        parsed.push(parse_ip_network(sources[i].as_str()));
        proof {
            assert(sources@.take(i + 1).map_values(|s: String| spec_ipnetwork_parse(s@)) =~= sources@.take(
                i as int,
            ).map_values(|s: String| spec_ipnetwork_parse(s@)).push(spec_ipnetwork_parse(sources@[i as int]@)));
        }
        i = i + 1;
    }
    proof {
        assert(sources@.take(sources@.len() as int) =~= sources@);
    }
    networks_cover(net, &parsed)
}

/// The prefix length written after the first `/` of a destination (up to
/// the next `/`), or 0 when there is none that parses.
pub open spec fn spec_dst_prefix_len(destination: Seq<char>) -> nat {
    match split_first(destination, '/').1 {
        Some(rest) => match spec_parse_unsigned(split_first(rest, '/').0, 255) {
            Some(p) => p,
            None => 0,
        },
        None => 0,
    }
}

/// The priority of a route's flow: 225 plus its destination's prefix length,
/// less its metric, and at least 0.
pub open spec fn spec_route_priority(destination: Seq<char>, metric: u32) -> u16 {
    let p = 225 + spec_dst_prefix_len(destination);
    if p > metric {
        (p - metric) as u16
    } else {
        0
    }
}

pub fn route_priority(destination: &str, metric: u32) -> (r: u16)
    ensures
        r == spec_route_priority(destination@, metric),
{
    let (_, rest) = split_once(destination, '/');
    let p: u32 = match rest {
        Some(rest) => {
            let (text, _) = split_once(rest.as_str(), '/');
            let chars = chars_of(text.as_str());
            match parse_unsigned(chars.as_slice(), 255) {
                Some(v) => v as u32,
                None => 0,
            }
        },
        None => 0,
    };
    let total = 225 + p;
    if total > metric {
        (total - metric) as u16
    } else {
        0
    }
}

/// The byte sequences of a list of byte vectors.
pub open spec fn byte_views(v: Seq<Vec<u8>>) -> Seq<Seq<u8>> {
    v.map_values(|b: Vec<u8>| b@)
}

/// The views of a list of actions.
pub open spec fn action_views(v: Seq<Action>) -> Seq<ActionView> {
    v.map_values(|a: Action| a@)
}

/// `r` adds a permanent flow to table 0 under `cookie`, at `priority`, that
/// applies `actions` to the packets matching `oxms`.
pub open spec fn is_router_flow(r: Rule, cookie: u64, priority: u16, oxms: Seq<Seq<u8>>, actions: Seq<ActionView>) -> bool {
    &&& r.xid == 0
    &&& r.cookie == cookie
    &&& r.cookie_mask == 0
    &&& r.table_id == 0
    &&& r.command == OFPFC_ADD
    &&& r.idle_timeout == 0
    &&& r.hard_timeout == 0
    &&& r.priority == priority
    &&& r.buffer_id == OFP_NO_BUFFER
    &&& r.out_port == OFPP_ANY
    &&& r.out_group == OFPP_ANY
    &&& r.flags == 0
    &&& r.importance == 0
    &&& byte_views(r.of_match.oxms@) == oxms
    &&& r.instructions@.len() == 1
    &&& r.instructions@[0] matches Instruction::ApplyActions(a) && action_views(a@) == actions
}

/// A router flow (see `is_router_flow`).
pub fn router_flow(cookie: u64, priority: u16, of_match: Match, actions: Vec<Action>) -> (r: Rule)
    ensures
        is_router_flow(r, cookie, priority, byte_views(of_match.oxms@), action_views(actions@)),
{
    let mut instructions = Vec::new();
    instructions.push(Instruction::apply_actions(actions));
    Rule::add(0, 0, priority, of_match, instructions).with_cookie(cookie)
}

/// The action copying `bits` bits from field `src` to field `dst`, both
/// `len` bytes long.
pub open spec fn copy_action(bits: u16, src: u8, dst: u8, len: u8) -> ActionView {
    ActionView::CopyField {
        n_bits: bits,
        src_offset: 0,
        dst_offset: 0,
        oxm_ids: spec_oxm_id(src, len) + spec_oxm_id(dst, len),
    }
}

/// The actions that turn an ARP request for `ip` into the reply giving `mac`,
/// sent back where the request came from.
pub open spec fn arp_reply_actions(mac: Seq<u8>, ip: Seq<u8>) -> Seq<ActionView> {
    seq![
        copy_action(48, OFPXMT_OFB_ETH_SRC, OFPXMT_OFB_ETH_DST, 6),
        ActionView::SetField(spec_oxm(OFPXMT_OFB_ETH_SRC, mac)),
        ActionView::SetField(spec_oxm(OFPXMT_OFB_ARP_OP, be16(2))),
        copy_action(48, OFPXMT_OFB_ARP_SHA, OFPXMT_OFB_ARP_THA, 6),
        ActionView::SetField(spec_oxm(OFPXMT_OFB_ARP_SHA, mac)),
        copy_action(32, OFPXMT_OFB_ARP_SPA, OFPXMT_OFB_ARP_TPA, 4),
        ActionView::SetField(spec_oxm(OFPXMT_OFB_ARP_SPA, ip)),
        ActionView::Output { port: OFPP_IN_PORT, max_len: 0 },
    ]
}

fn arp_reply_action_list(mac: [u8; 6], ip: [u8; 4]) -> (r: Vec<Action>)
    ensures
        action_views(r@) == arp_reply_actions(mac@, ip@),
{
    let mut v = Vec::new();
    v.push(Action::CopyField {
        n_bits: 48,
        src_offset: 0,
        dst_offset: 0,
        oxm_ids: copy_field_ids(OFPXMT_OFB_ETH_SRC, 6, OFPXMT_OFB_ETH_DST, 6),
    });
    v.push(Action::SetField(eth_src(mac)));
    v.push(Action::SetField(arp_op(2)));
    v.push(Action::CopyField {
        n_bits: 48,
        src_offset: 0,
        dst_offset: 0,
        oxm_ids: copy_field_ids(OFPXMT_OFB_ARP_SHA, 6, OFPXMT_OFB_ARP_THA, 6),
    });
    v.push(Action::SetField(arp_sha(mac)));
    v.push(Action::CopyField {
        n_bits: 32,
        src_offset: 0,
        dst_offset: 0,
        oxm_ids: copy_field_ids(OFPXMT_OFB_ARP_SPA, 4, OFPXMT_OFB_ARP_TPA, 4),
    });
    v.push(Action::SetField(arp_spa(ip)));
    v.push(Action::output(OFPP_IN_PORT));
    assert(action_views(v@) =~= arp_reply_actions(mac@, ip@));
    v
}

/// The packets an ARP responder for `ip` answers: ARP requests for it.
pub open spec fn arp_request_match(ip: Seq<u8>) -> Seq<Seq<u8>> {
    seq![
        spec_oxm(OFPXMT_OFB_ETH_TYPE, be16(ETH_TYPE_ARP)),
        spec_oxm(OFPXMT_OFB_ARP_TPA, ip),
        spec_oxm(OFPXMT_OFB_ARP_OP, be16(1)),
    ]
}

/// The packets an echo responder for `ip` answers: echo requests to it.
pub open spec fn echo_request_match(ip: Seq<u8>) -> Seq<Seq<u8>> {
    seq![
        spec_oxm(OFPXMT_OFB_ETH_TYPE, be16(ETH_TYPE_IPV4)),
        spec_oxm(OFPXMT_OFB_IPV4_DST, ip),
        spec_oxm(OFPXMT_OFB_IP_PROTO, seq![1u8]),
        spec_oxm(OFPXMT_OFB_ICMPV4_TYPE, seq![8u8]),
    ]
}

/// The actions that turn an echo request to `ip` into its reply from the
/// gateway MAC `mac`, sent back where the request came from.
pub open spec fn echo_reply_actions(mac: Seq<u8>, ip: Seq<u8>) -> Seq<ActionView> {
    seq![
        copy_action(48, OFPXMT_OFB_ETH_SRC, OFPXMT_OFB_ETH_DST, 6),
        ActionView::SetField(spec_oxm(OFPXMT_OFB_ETH_SRC, mac)),
        copy_action(32, OFPXMT_OFB_IPV4_SRC, OFPXMT_OFB_IPV4_DST, 4),
        ActionView::SetField(spec_oxm(OFPXMT_OFB_IPV4_SRC, ip)),
        ActionView::SetField(spec_oxm(OFPXMT_OFB_ICMPV4_TYPE, seq![0u8])),
        ActionView::Output { port: OFPP_IN_PORT, max_len: 0 },
    ]
}

/// The gateway's two responder flows, at priority 280: ARP requests for the
/// gateway address get the gateway MAC address, and echo requests to it get
/// their reply.
pub open spec fn spec_gateway_flows_ok(rules: Seq<Rule>, cookie: u64, mac: Seq<u8>, ip: Seq<u8>) -> bool {
    &&& rules.len() == 2
    &&& is_router_flow(rules[0], cookie, 280, arp_request_match(ip), arp_reply_actions(mac, ip))
    &&& is_router_flow(rules[1], cookie, 280, echo_request_match(ip), echo_reply_actions(mac, ip))
}

/// The responder flows of a gateway given by its MAC and IP address texts.
pub fn gateway_flows(cookie: u64, gateway_mac: &str, gateway_ip: &str) -> (r: Result<Vec<Rule>, RouterError>)
    ensures
        match (spec_parse_mac(gateway_mac@), spec_parse_ipv4(gateway_ip@)) {
            (None, _) => r matches Err(e) && e@ == RouterErrorView::InvalidMac(gateway_mac@),
            (Some(_), None) => r matches Err(e) && e@ == RouterErrorView::InvalidIpv4(gateway_ip@),
            (Some(m), Some(a)) => r matches Ok(rules) && spec_gateway_flows_ok(rules@, cookie, m, be32(a)),
        },
{
    let mac = match parse_mac(gateway_mac) {
        Some(m) => m,
        None => return Err(RouterError::InvalidMac(String::from_str(gateway_mac))),
    };
    let ip = match parse_ipv4(gateway_ip) {
        Some(a) => octets(a),
        None => return Err(RouterError::InvalidIpv4(String::from_str(gateway_ip))),
    };
    let mut arp_match = Vec::new();
    arp_match.push(eth_type(ETH_TYPE_ARP));
    arp_match.push(arp_tpa(ip));
    arp_match.push(arp_op(1));
    assert(byte_views(arp_match@) =~= arp_request_match(ip@));
    let arp = router_flow(cookie, 280, Match::new(arp_match), arp_reply_action_list(mac, ip));
    let mut echo_match = Vec::new();
    echo_match.push(eth_type(ETH_TYPE_IPV4));
    echo_match.push(ipv4_dst(ip));
    echo_match.push(ip_proto(1));
    echo_match.push(icmpv4_type(8));
    assert(byte_views(echo_match@) =~= echo_request_match(ip@));
    let mut echo_actions = Vec::new();
    echo_actions.push(Action::CopyField {
        n_bits: 48,
        src_offset: 0,
        dst_offset: 0,
        oxm_ids: copy_field_ids(OFPXMT_OFB_ETH_SRC, 6, OFPXMT_OFB_ETH_DST, 6),
    });
    echo_actions.push(Action::SetField(eth_src(mac)));
    echo_actions.push(Action::CopyField {
        n_bits: 32,
        src_offset: 0,
        dst_offset: 0,
        oxm_ids: copy_field_ids(OFPXMT_OFB_IPV4_SRC, 4, OFPXMT_OFB_IPV4_DST, 4),
    });
    echo_actions.push(Action::SetField(ipv4_src(ip)));
    echo_actions.push(Action::SetField(icmpv4_type(0)));
    echo_actions.push(Action::output(OFPP_IN_PORT));
    assert(action_views(echo_actions@) =~= echo_reply_actions(mac@, ip@));
    let echo = router_flow(cookie, 280, Match::new(echo_match), echo_actions);
    let mut rules = Vec::new();
    rules.push(arp);
    rules.push(echo);
    Ok(rules)
}

/// The flow answering ARP requests for a router link's address `ip` that
/// arrive on the link's port, with the link's MAC address, at priority 231.
pub fn link_arp_flow(cookie: u64, ofport: u32, mac: &str, ip: &str) -> (r: Result<Rule, RouterError>)
    ensures
        match (spec_parse_mac(mac@), spec_parse_ipv4(ip@)) {
            (None, _) => r matches Err(e) && e@ == RouterErrorView::InvalidMac(mac@),
            (Some(_), None) => r matches Err(e) && e@ == RouterErrorView::InvalidIpv4(ip@),
            (Some(m), Some(a)) => r matches Ok(rule) && is_router_flow(
                rule,
                cookie,
                231,
                seq![
                    spec_oxm(OFPXMT_OFB_ETH_TYPE, be16(ETH_TYPE_ARP)),
                    spec_oxm(OFPXMT_OFB_IN_PORT, be32(ofport)),
                    spec_oxm(OFPXMT_OFB_ARP_TPA, be32(a)),
                    spec_oxm(OFPXMT_OFB_ARP_OP, be16(1)),
                ],
                arp_reply_actions(m, be32(a)),
            ),
        },
{
    let mac = match parse_mac(mac) {
        Some(m) => m,
        None => return Err(RouterError::InvalidMac(String::from_str(mac))),
    };
    let ip = match parse_ipv4(ip) {
        Some(a) => octets(a),
        None => return Err(RouterError::InvalidIpv4(String::from_str(ip))),
    };
    let mut m = Vec::new();
    m.push(eth_type(ETH_TYPE_ARP));
    m.push(in_port(ofport));
    m.push(arp_tpa(ip));
    m.push(arp_op(1));
    let ghost oxms = byte_views(m@);
    assert(oxms =~= seq![
        spec_oxm(OFPXMT_OFB_ETH_TYPE, be16(ETH_TYPE_ARP)),
        spec_oxm(OFPXMT_OFB_IN_PORT, be32(ofport)),
        spec_oxm(OFPXMT_OFB_ARP_TPA, ip@),
        spec_oxm(OFPXMT_OFB_ARP_OP, be16(1)),
    ]);
    Ok(router_flow(cookie, 231, Match::new(m), arp_reply_action_list(mac, ip)))
}

/// The flow that carries IPv4 packets sent to gateway MAC `to_gw` for the
/// port `port_ip` of another switch to that port, at priority 265: the
/// source MAC becomes that switch's gateway `from_gw`, the destination MAC
/// the port's `port_mac`, and the TTL is decremented.
pub open spec fn inter_switch_flow_ok(
    r: Rule,
    cookie: u64,
    to_gw: Seq<u8>,
    from_gw: Seq<u8>,
    port_mac: Seq<u8>,
    port_ip: u32,
    ofport: u32,
) -> bool {
    is_router_flow(
        r,
        cookie,
        265,
        seq![
            spec_oxm(OFPXMT_OFB_ETH_TYPE, be16(ETH_TYPE_IPV4)),
            spec_oxm(OFPXMT_OFB_ETH_DST, to_gw),
            spec_oxm(OFPXMT_OFB_IPV4_DST, be32(port_ip)),
        ],
        seq![
            ActionView::SetField(spec_oxm(OFPXMT_OFB_ETH_SRC, from_gw)),
            ActionView::SetField(spec_oxm(OFPXMT_OFB_ETH_DST, port_mac)),
            ActionView::DecNwTtl,
            ActionView::Output { port: ofport, max_len: 0 },
        ],
    )
}

/// The flow carrying traffic between two switches of a router to one port
/// (see `inter_switch_flow_ok`); the MAC and IP texts must parse, in the
/// order of the parameters.
pub fn inter_switch_flow(
    cookie: u64,
    to_gateway_mac: &str,
    from_gateway_mac: &str,
    port_mac: &str,
    port_ip: &str,
    ofport: u32,
) -> (r: Result<Rule, RouterError>)
    ensures
        match (
            spec_parse_mac(to_gateway_mac@),
            spec_parse_mac(from_gateway_mac@),
            spec_parse_mac(port_mac@),
            spec_parse_ipv4(port_ip@),
        ) {
            (None, _, _, _) => r matches Err(e) && e@ == RouterErrorView::InvalidMac(to_gateway_mac@),
            (Some(_), None, _, _) => r matches Err(e) && e@ == RouterErrorView::InvalidMac(from_gateway_mac@),
            (Some(_), Some(_), None, _) => r matches Err(e) && e@ == RouterErrorView::InvalidMac(port_mac@),
            (Some(_), Some(_), Some(_), None) => r matches Err(e) && e@ == RouterErrorView::InvalidIpv4(port_ip@),
            (Some(t), Some(f), Some(p), Some(a)) => r matches Ok(rule) && inter_switch_flow_ok(
                rule,
                cookie,
                t,
                f,
                p,
                a,
                ofport,
            ),
        },
{
    let to_gw = match parse_mac(to_gateway_mac) {
        Some(m) => m,
        None => return Err(RouterError::InvalidMac(String::from_str(to_gateway_mac))),
    };
    let from_gw = match parse_mac(from_gateway_mac) {
        Some(m) => m,
        None => return Err(RouterError::InvalidMac(String::from_str(from_gateway_mac))),
    };
    let sp_mac = match parse_mac(port_mac) {
        Some(m) => m,
        None => return Err(RouterError::InvalidMac(String::from_str(port_mac))),
    };
    let sp_ip = match parse_ipv4(port_ip) {
        Some(a) => a,
        None => return Err(RouterError::InvalidIpv4(String::from_str(port_ip))),
    };
    let mut m = Vec::new();
    m.push(eth_type(ETH_TYPE_IPV4));
    m.push(eth_dst(to_gw));
    m.push(ipv4_dst(octets(sp_ip)));
    let mut actions = Vec::new();
    actions.push(Action::SetField(eth_src(from_gw)));
    actions.push(Action::SetField(eth_dst(sp_mac)));
    actions.push(Action::DecNwTtl);
    actions.push(Action::output(ofport));
    let ghost oxms = byte_views(m@);
    let ghost acts = action_views(actions@);
    assert(oxms =~= seq![
        spec_oxm(OFPXMT_OFB_ETH_TYPE, be16(ETH_TYPE_IPV4)),
        spec_oxm(OFPXMT_OFB_ETH_DST, to_gw@),
        spec_oxm(OFPXMT_OFB_IPV4_DST, be32(sp_ip)),
    ]);
    assert(acts =~= seq![
        ActionView::SetField(spec_oxm(OFPXMT_OFB_ETH_SRC, from_gw@)),
        ActionView::SetField(spec_oxm(OFPXMT_OFB_ETH_DST, sp_mac@)),
        ActionView::DecNwTtl,
        ActionView::Output { port: ofport, max_len: 0 },
    ]);
    Ok(router_flow(cookie, 265, Match::new(m), actions))
}

/// The outputs of a route's flow, one per destination port.
pub open spec fn output_actions(ports: Seq<u32>) -> Seq<ActionView> {
    ports.map_values(|p: u32| ActionView::Output { port: p, max_len: 0 })
}

/// The flow a route becomes when its destination is the network of an
/// attached switch with ports `outputs`: IPv4 packets from its source network
/// to its destination network get the next hop's MAC address as destination,
/// if the route has one, and go out of every port, at the route's priority.
pub open spec fn spec_route_flow(
    cookie: u64,
    route: RouterRoute,
    outputs: Seq<u32>,
    src: IpNet,
    dst: IpNet,
) -> Result<(u16, Seq<Seq<u8>>, Seq<ActionView>), RouterErrorView> {
    let head: Result<Seq<ActionView>, RouterErrorView> = match route.next_hop_mac {
        Some(t) => match spec_parse_mac(t@) {
            Some(m) => Ok(seq![ActionView::SetField(spec_oxm(OFPXMT_OFB_ETH_DST, m))]),
            None => Err(RouterErrorView::InvalidMac(t@)),
        },
        None => Ok(Seq::empty()),
    };
    match head {
        Err(e) => Err(e),
        Ok(h) => match spec_masked(src, route.source@) {
            Err(e) => Err(e),
            Ok((sa, sm)) => match spec_masked(dst, route.destination@) {
                Err(e) => Err(e),
                Ok((da, dm)) => Ok(
                    (
                        spec_route_priority(route.destination@, route.metric),
                        seq![
                            spec_oxm(OFPXMT_OFB_ETH_TYPE, be16(ETH_TYPE_IPV4)),
                            spec_masked_oxm(OFPXMT_OFB_IPV4_SRC, sa, sm),
                            spec_masked_oxm(OFPXMT_OFB_IPV4_DST, da, dm),
                        ],
                        h + output_actions(outputs),
                    ),
                ),
            },
        },
    }
}

/// The flow of `route` (see `spec_route_flow`), its networks read by
/// `ipnetwork`.
#[verifier::loop_isolation(false)]
pub fn route_flow(cookie: u64, route: &RouterRoute, outputs: &Vec<u32>) -> (r: Result<Rule, RouterError>)
    ensures
        match spec_route_flow(
            cookie,
            *route,
            outputs@,
            spec_ipnetwork_parse(route.source@),
            spec_ipnetwork_parse(route.destination@),
        ) {
            Ok((p, oxms, acts)) => r matches Ok(rule) && is_router_flow(rule, cookie, p, oxms, acts),
            Err(e) => r matches Err(err) && err@ == e,
        },
{
    let priority = route_priority(route.destination.as_str(), route.metric);
    let mut actions: Vec<Action> = Vec::new();
    match &route.next_hop_mac {
        Some(t) => match parse_mac(t.as_str()) {
            Some(m) => actions.push(Action::SetField(eth_dst(m))),
            None => return Err(RouterError::InvalidMac(t.clone())),
        },
        None => {},
    }
    let ghost head = action_views(actions@);
    proof {
        match &route.next_hop_mac {
            Some(t) => {
                let m = spec_parse_mac(t@).unwrap();
                assert(head =~= seq![ActionView::SetField(spec_oxm(OFPXMT_OFB_ETH_DST, m))]);
            },
            None => {
                assert(head =~= Seq::<ActionView>::empty());
            },
        }
    }
    let mut i: usize = 0;
    while i < outputs.len()
        invariant
            i <= outputs@.len(),
            action_views(actions@) == head + output_actions(outputs@.take(i as int)),
        decreases outputs@.len() - i,
    {
        let ghost prev = actions@;
        let a = Action::output(outputs[i]);
        actions.push(a);
        proof {
            assert(action_views(actions@) =~= action_views(prev).push(a@));
            assert(output_actions(outputs@.take(i + 1)) =~= output_actions(outputs@.take(i as int)).push(
                ActionView::Output { port: outputs@[i as int], max_len: 0 },
            ));
            assert(action_views(actions@) =~= head + output_actions(outputs@.take(i + 1)));
        }
        i = i + 1;
    }
    proof {
        assert(outputs@.take(outputs@.len() as int) =~= outputs@);
    }
    let (src_ip, src_mask) = match cidr_to_ipv4_masked(route.source.as_str()) {
        Ok(v) => v,
        Err(e) => return Err(e),
    };
    let (dst_ip, dst_mask) = match cidr_to_ipv4_masked(route.destination.as_str()) {
        Ok(v) => v,
        Err(e) => return Err(e),
    };
    let mut m = Vec::new();
    m.push(eth_type(ETH_TYPE_IPV4));
    m.push(ipv4_src_masked(src_ip, src_mask));
    m.push(ipv4_dst_masked(dst_ip, dst_mask));
    let ghost oxms = byte_views(m@);
    assert(oxms =~= seq![
        spec_oxm(OFPXMT_OFB_ETH_TYPE, be16(ETH_TYPE_IPV4)),
        spec_masked_oxm(OFPXMT_OFB_IPV4_SRC, src_ip@, src_mask@),
        spec_masked_oxm(OFPXMT_OFB_IPV4_DST, dst_ip@, dst_mask@),
    ]);
    Ok(router_flow(cookie, priority, Match::new(m), actions))
}

/// Address `ip` matches the masked OXM field `o` (a four-byte header, a
/// four-byte value and a four-byte mask): under the mask it equals the value.
pub open spec fn masked_oxm_matches(o: Seq<u8>, ip: u32) -> bool {
    (ip & (read_be(o.subrange(8, 12)) as u32)) as nat == read_be(o.subrange(4, 8))
}

/// The flow of a route between IPv4 networks takes exactly the packets of
/// those networks: its match is the IPv4 EtherType, then a masked IPv4
/// source field (OXM header `80 00 17 08`) that an address matches exactly
/// when the route's source network holds it, then a masked IPv4 destination
/// field (OXM header `80 00 19 08`) that an address matches exactly when the
/// route's destination network holds it.
pub proof fn lemma_route_flow_matches_its_networks(
    cookie: u64,
    route: RouterRoute,
    outputs: Seq<u32>,
    src_addr: u32,
    src_prefix: u8,
    dst_addr: u32,
    dst_prefix: u8,
)
    requires
        src_prefix <= 32,
        dst_prefix <= 32,
        spec_route_flow(
            cookie,
            route,
            outputs,
            IpNet::V4 { addr: src_addr, prefix: src_prefix },
            IpNet::V4 { addr: dst_addr, prefix: dst_prefix },
        ) is Ok,
    ensures
        ({
            let oxms = spec_route_flow(
                cookie,
                route,
                outputs,
                IpNet::V4 { addr: src_addr, prefix: src_prefix },
                IpNet::V4 { addr: dst_addr, prefix: dst_prefix },
            )->Ok_0.1;
            &&& oxms.len() == 3
            &&& oxms[1].len() == 12
            &&& oxms[2].len() == 12
            &&& oxms[1].subrange(0, 4) == seq![0x80u8, 0x00u8, 0x17u8, 0x08u8]
            &&& oxms[2].subrange(0, 4) == seq![0x80u8, 0x00u8, 0x19u8, 0x08u8]
            &&& forall|ip: u32|
                #[trigger] masked_oxm_matches(oxms[1], ip) <==> ip & prefix_mask(src_prefix) == src_addr & prefix_mask(
                    src_prefix,
                )
            &&& forall|ip: u32|
                #[trigger] masked_oxm_matches(oxms[2], ip) <==> ip & prefix_mask(dst_prefix) == dst_addr & prefix_mask(
                    dst_prefix,
                )
        }),
{
    let oxms = spec_route_flow(
        cookie,
        route,
        outputs,
        IpNet::V4 { addr: src_addr, prefix: src_prefix },
        IpNet::V4 { addr: dst_addr, prefix: dst_prefix },
    )->Ok_0.1;
    let sm = prefix_mask(src_prefix);
    let dm = prefix_mask(dst_prefix);
    let so = oxms[1];
    let d = oxms[2];
    assert(so =~= be32(oxm_header_value(OFPXMT_OFB_IPV4_SRC, true, 8)) + be32(src_addr & sm) + be32(sm));
    assert(d =~= be32(oxm_header_value(OFPXMT_OFB_IPV4_DST, true, 8)) + be32(dst_addr & dm) + be32(dm));
    assert(oxm_header_value(OFPXMT_OFB_IPV4_SRC, true, 8) == 0x8000_1708u32);
    assert(oxm_header_value(OFPXMT_OFB_IPV4_DST, true, 8) == 0x8000_1908u32);
    assert(so.subrange(0, 4) =~= be32(0x8000_1708u32));
    assert(d.subrange(0, 4) =~= be32(0x8000_1908u32));
    assert(be32(0x8000_1708u32) =~= seq![0x80u8, 0x00u8, 0x17u8, 0x08u8]);
    assert(be32(0x8000_1908u32) =~= seq![0x80u8, 0x00u8, 0x19u8, 0x08u8]);
    assert(so.subrange(4, 8) =~= be32(src_addr & sm));
    assert(so.subrange(8, 12) =~= be32(sm));
    assert(d.subrange(4, 8) =~= be32(dst_addr & dm));
    assert(d.subrange(8, 12) =~= be32(dm));
    lemma_read_be32(src_addr & sm);
    lemma_read_be32(sm);
    lemma_read_be32(dst_addr & dm);
    lemma_read_be32(dm);
}

/// A route's flow priority is never out of the range of a 16-bit priority:
/// it is exactly 225 plus the destination's prefix length less the metric,
/// or 0, and at most 480.
pub proof fn lemma_route_priority_in_range(destination: Seq<char>, metric: u32)
    ensures
        spec_route_priority(destination, metric) as int == if 225 + spec_dst_prefix_len(destination) > metric {
            225 + spec_dst_prefix_len(destination) - metric
        } else {
            0
        },
        spec_route_priority(destination, metric) <= 480,
        spec_dst_prefix_len(destination) <= 255,
{
}

/// The actions of a link NAT flow: `first`, then the link's MAC address as
/// source, the next hop's as destination when the route has one, a TTL
/// decrement, and output to the link port.
pub open spec fn nat_actions(first: Seq<char>, link_mac: Seq<char>, next_hop_mac: Option<String>, port: Seq<char>) -> Seq<Seq<char>> {
    seq![first, "mod_dl_src:"@ + link_mac] + match next_hop_mac {
        Some(m) => seq!["mod_dl_dst:"@ + m@],
        None => Seq::empty(),
    } + seq!["dec_ttl"@, "output:"@ + port]
}

/// The priority of a route's NAT flows (see `spec_route_priority`).
pub open spec fn nat_priority(route: RouterRoute) -> nat {
    spec_route_priority(route.destination@, route.metric) as nat
}

/// The two NAT flows of `route`: new connections are committed to the
/// connection tracker with source NAT to the link address, established ones
/// are translated; both leave through the link port.
pub open spec fn route_nat_flows(route: RouterRoute, link_ip: Seq<char>, link_mac: Seq<char>, port: Seq<char>) -> Seq<Seq<char>> {
    let head = |state: Seq<char>|
        "priority="@ + decimal_text(nat_priority(route)) + ",ct_state="@ + state + ",ip,nw_src="@
            + route.source@ + ",nw_dst="@ + route.destination@ + ",actions="@;
    seq![
        head("+new+trk"@) + joined(
            nat_actions("ct(commit,zone=1,nat(src="@ + link_ip + "))"@, link_mac, route.next_hop_mac, port),
            ","@,
        ),
        head("+est+trk"@) + joined(nat_actions("ct(zone=1,nat)"@, link_mac, route.next_hop_mac, port), ","@),
    ]
}

/// The NAT flows of the routes whose destination is not the network of an
/// attached switch, route by route.
pub open spec fn routes_nat_flows(
    routes: Seq<RouterRoute>,
    attached_cidrs: Seq<String>,
    link_ip: Seq<char>,
    link_mac: Seq<char>,
    port: Seq<char>,
) -> Seq<Seq<char>>
    decreases routes.len(),
{
    if routes.len() == 0 {
        Seq::empty()
    } else {
        let prev = routes_nat_flows(routes.drop_last(), attached_cidrs, link_ip, link_mac, port);
        if texts_contain(attached_cidrs, routes.last().destination@) {
            prev
        } else {
            prev + route_nat_flows(routes.last(), link_ip, link_mac, port)
        }
    }
}

/// The route sources, as `ipnetwork` reads them.
pub open spec fn source_networks(routes: Seq<RouterRoute>) -> Seq<IpNet> {
    routes.map_values(|r: RouterRoute| spec_ipnetwork_parse(r.source@))
}

/// The flows dropping new traffic from the attached networks that no route
/// source covers (see `spec_covered`), network by network.
pub open spec fn uncovered_drop_flows(cidrs: Seq<String>, routes: Seq<RouterRoute>) -> Seq<Seq<char>>
    decreases cidrs.len(),
{
    if cidrs.len() == 0 {
        Seq::empty()
    } else {
        let prev = uncovered_drop_flows(cidrs.drop_last(), routes);
        if spec_covered(spec_ipnetwork_parse(cidrs.last()@), source_networks(routes)) {
            prev
        } else {
            prev + seq!["priority=220,ct_state=+new+trk,ip,nw_src="@ + cidrs.last()@ + ",actions=drop"@]
        }
    }
}

/// All the NAT flows of a router's link on port `port`, as `ovs-ofctl`
/// flow texts: the return flow that un-NATs traffic coming back to the link
/// address, the NAT flows of the routes, and the drop flows of the attached
/// networks no route covers.
pub open spec fn spec_link_nat_flows(
    link_ip: Seq<char>,
    link_mac: Seq<char>,
    port: Seq<char>,
    attached_cidrs: Seq<String>,
    routes: Seq<RouterRoute>,
) -> Seq<Seq<char>> {
    seq!["priority=235,in_port="@ + port + ",ip,nw_dst="@ + link_ip + ",actions=ct(zone=1,nat,table=0)"@]
        + routes_nat_flows(routes, attached_cidrs, link_ip, link_mac, port) + uncovered_drop_flows(
        attached_cidrs,
        routes,
    )
}

fn concat(a: &str, b: &str) -> (r: String)
    ensures
        r@ == a@ + b@,
{
    let mut r = String::from_str(a);
    r.append(b);
    r
}

fn nat_action_list(first: String, link_mac: &str, next_hop_mac: &Option<String>, port: &str) -> (r: Vec<String>)
    ensures
        text_views(r@) == nat_actions(first@, link_mac@, *next_hop_mac, port@),
{
    let mut v = Vec::new();
    v.push(first);
    v.push(concat("mod_dl_src:", link_mac));
    match next_hop_mac {
        Some(m) => v.push(concat("mod_dl_dst:", m.as_str())),
        None => {},
    }
    v.push(String::from_str("dec_ttl"));
    v.push(concat("output:", port));
    assert(text_views(v@) =~= nat_actions(first@, link_mac@, *next_hop_mac, port@));
    v
}

fn route_flow_texts(route: &RouterRoute, link_ip: &str, link_mac: &str, port: &str) -> (r: (String, String))
    ensures
        seq![r.0@, r.1@] == route_nat_flows(*route, link_ip@, link_mac@, port@),
{
    let priority = route_priority(route.destination.as_str(), route.metric);
    let mut head_new = String::from_str("priority=");
    push_decimal_u32(&mut head_new, priority as u32);
    let mut head_est = head_new.clone();
    head_new.append(",ct_state=");
    head_est.append(",ct_state=");
    head_new.append("+new+trk");
    head_est.append("+est+trk");
    head_new.append(",ip,nw_src=");
    head_est.append(",ip,nw_src=");
    head_new.append(route.source.as_str());
    head_est.append(route.source.as_str());
    head_new.append(",nw_dst=");
    head_est.append(",nw_dst=");
    head_new.append(route.destination.as_str());
    head_est.append(route.destination.as_str());
    head_new.append(",actions=");
    head_est.append(",actions=");
    let mut first_new = String::from_str("ct(commit,zone=1,nat(src=");
    first_new.append(link_ip);
    first_new.append("))");
    let new_actions = nat_action_list(first_new, link_mac, &route.next_hop_mac, port);
    let est_actions = nat_action_list(String::from_str("ct(zone=1,nat)"), link_mac, &route.next_hop_mac, port);
    head_new.append(join_texts(&new_actions, ",").as_str());
    head_est.append(join_texts(&est_actions, ",").as_str());
    let ghost spec = route_nat_flows(*route, link_ip@, link_mac@, port@);
    assert(head_new@ =~= spec[0]);
    assert(head_est@ =~= spec[1]);
    (head_new, head_est)
}

/// The NAT flows of a router's link (see `spec_link_nat_flows`); the router
/// must have a link address and a link MAC address.
pub fn link_nat_flows(
    router_name: &str,
    link_ip: Option<&str>,
    link_mac: Option<&str>,
    port: &str,
    attached_cidrs: &Vec<String>,
    routes: &Vec<RouterRoute>,
) -> (r: Result<Vec<String>, RouterError>)
    ensures
        match (link_ip, link_mac) {
            (None, _) => r matches Err(e) && e@ == RouterErrorView::NoLinkIp(router_name@),
            (Some(_), None) => r matches Err(e) && e@ == RouterErrorView::NoLinkMac(router_name@),
            (Some(ip), Some(mac)) => r matches Ok(flows) && text_views(flows@) == spec_link_nat_flows(
                ip@,
                mac@,
                port@,
                attached_cidrs@,
                routes@,
            ),
        },
{
    let link_ip = match link_ip {
        Some(ip) => ip,
        None => return Err(RouterError::NoLinkIp(String::from_str(router_name))),
    };
    let link_mac = match link_mac {
        Some(mac) => mac,
        None => return Err(RouterError::NoLinkMac(String::from_str(router_name))),
    };
    let mut flows: Vec<String> = Vec::new();
    let mut ret = concat("priority=235,in_port=", port);
    ret.append(",ip,nw_dst=");
    ret.append(link_ip);
    ret.append(",actions=ct(zone=1,nat,table=0)");
    flows.push(ret);
    let ghost first = text_views(flows@);
    let mut i: usize = 0;
    while i < routes.len()
        invariant
            i <= routes@.len(),
            first.len() == 1,
            text_views(flows@) == first + routes_nat_flows(routes@.take(i as int), attached_cidrs@, link_ip@, link_mac@, port@),
        decreases routes@.len() - i,
    {
        proof {
            assert(routes@.take(i + 1).drop_last() =~= routes@.take(i as int));
        }
        let route = &routes[i];
        let mut taken = false;
        let mut k: usize = 0;
        while k < attached_cidrs.len()
            invariant
                k <= attached_cidrs@.len(),
                taken == exists|j: int| 0 <= j < k && attached_cidrs@[j]@ == route.destination@,
            decreases attached_cidrs@.len() - k,
        {
            if attached_cidrs[k] == route.destination {
                taken = true;
            }
            k = k + 1;
        }
        if !taken {
            let ghost before = flows@;
            let (a, b) = route_flow_texts(route, link_ip, link_mac, port);
            flows.push(a);
            flows.push(b);
            proof {
                assert(text_views(flows@) =~= text_views(before) + seq![a@, b@]);
            }
        }
        i = i + 1;
    }
    proof {
        assert(routes@.take(routes@.len() as int) =~= routes@);
    }
    let ghost middle = text_views(flows@);
    let mut sources: Vec<String> = Vec::new();
    let mut q: usize = 0;
    while q < routes.len()
        invariant
            q <= routes@.len(),
            sources@ == routes@.take(q as int).map_values(|r: RouterRoute| r.source),
        decreases routes@.len() - q,
    {
        sources.push(routes[q].source.clone());
        proof {
            assert(routes@.take(q + 1).map_values(|r: RouterRoute| r.source) =~= routes@.take(q as int).map_values(
                |r: RouterRoute| r.source,
            ).push(routes@[q as int].source));
        }
        q = q + 1;
    }
    proof {
        assert(routes@.take(routes@.len() as int) =~= routes@);
        assert(sources@.map_values(|s: String| spec_ipnetwork_parse(s@)) =~= source_networks(routes@));
    }
    let mut c: usize = 0;
    while c < attached_cidrs.len()
        invariant
            c <= attached_cidrs@.len(),
            sources@.map_values(|s: String| spec_ipnetwork_parse(s@)) == source_networks(routes@),
            text_views(flows@) == middle + uncovered_drop_flows(attached_cidrs@.take(c as int), routes@),
        decreases attached_cidrs@.len() - c,
    {
        proof {
            assert(attached_cidrs@.take(c + 1).drop_last() =~= attached_cidrs@.take(c as int));
        }
        let cidr = &attached_cidrs[c];
        if !cidr_is_covered(cidr.as_str(), &sources) {
            let ghost before = flows@;
            let mut f = concat("priority=220,ct_state=+new+trk,ip,nw_src=", cidr.as_str());
            f.append(",actions=drop");
            flows.push(f);
            proof {
                assert(text_views(flows@) =~= text_views(before).push(f@));
            }
        }
        c = c + 1;
    }
    proof {
        assert(attached_cidrs@.take(attached_cidrs@.len() as int) =~= attached_cidrs@);
    }
    Ok(flows)
}

/// The actions bringing traffic from a router's link to switch port `p`:
/// commit to the connection tracker, the link's MAC address as source when
/// it has one, the port's as destination, a TTL decrement, output to the
/// port's TAP device.
pub open spec fn link_in_actions(link_mac: Option<String>, p: SwitchPort) -> Seq<Seq<char>> {
    seq!["ct(commit,zone=1)"@] + match link_mac {
        Some(m) => seq!["mod_dl_src:"@ + m@],
        None => Seq::empty(),
    } + seq!["mod_dl_dst:"@ + p.mac@, "dec_ttl"@, "output:"@ + p.tap_name@]
}

/// The flows from a router's link port `port` to each switch port, in order.
pub open spec fn port_link_flows(ports: Seq<SwitchPort>, link_mac: Option<String>, port: Seq<char>) -> Seq<Seq<char>>
    decreases ports.len(),
{
    if ports.len() == 0 {
        Seq::empty()
    } else {
        port_link_flows(ports.drop_last(), link_mac, port).push(
            "priority=230,in_port="@ + port + ",ip,nw_dst="@ + ports.last().ip@ + ",actions="@ + joined(
                link_in_actions(link_mac, ports.last()),
                ","@,
            ),
        )
    }
}

/// The flows joining a router's link port `port` and an attached switch of
/// network `cidr` with ports `ports`: untracked traffic from the network
/// goes through the connection tracker, and traffic from the link to each
/// port's address goes to that port.
pub open spec fn spec_router_link_flows(
    link_mac: Option<String>,
    cidr: Seq<char>,
    port: Seq<char>,
    ports: Seq<SwitchPort>,
) -> Seq<Seq<char>> {
    seq!["priority=224,ip,nw_src="@ + cidr + ",ct_state=-trk,actions=ct(table=0,zone=1)"@] + port_link_flows(
        ports,
        link_mac,
        port,
    )
}

/// The flows joining a router's link and an attached switch (see
/// `spec_router_link_flows`).
pub fn router_link_flows(link_mac: &Option<String>, cidr: &str, port: &str, ports: &Vec<SwitchPort>) -> (r: Vec<String>)
    ensures
        text_views(r@) == spec_router_link_flows(*link_mac, cidr@, port@, ports@),
{
    let mut flows: Vec<String> = Vec::new();
    let mut first = concat("priority=224,ip,nw_src=", cidr);
    first.append(",ct_state=-trk,actions=ct(table=0,zone=1)");
    flows.push(first);
    let ghost head = text_views(flows@);
    let mut i: usize = 0;
    while i < ports.len()
        invariant
            i <= ports@.len(),
            head.len() == 1,
            head[0] == "priority=224,ip,nw_src="@ + cidr@ + ",ct_state=-trk,actions=ct(table=0,zone=1)"@,
            text_views(flows@) == head + port_link_flows(ports@.take(i as int), *link_mac, port@),
        decreases ports@.len() - i,
    {
        proof {
            assert(ports@.take(i + 1).drop_last() =~= ports@.take(i as int));
        }
        let sp = &ports[i];
        let mut actions: Vec<String> = Vec::new();
        actions.push(String::from_str("ct(commit,zone=1)"));
        match link_mac {
            Some(m) => actions.push(concat("mod_dl_src:", m.as_str())),
            None => {},
        }
        actions.push(concat("mod_dl_dst:", sp.mac.as_str()));
        actions.push(String::from_str("dec_ttl"));
        actions.push(concat("output:", sp.tap_name.as_str()));
        assert(text_views(actions@) =~= link_in_actions(*link_mac, *sp));
        let mut f = concat("priority=230,in_port=", port);
        f.append(",ip,nw_dst=");
        f.append(sp.ip.as_str());
        f.append(",actions=");
        f.append(join_texts(&actions, ",").as_str());
        let ghost before = flows@;
        flows.push(f);
        proof {
            assert(text_views(flows@) =~= text_views(before).push(f@));
        }
        i = i + 1;
    }
    proof {
        assert(ports@.take(ports@.len() as int) =~= ports@);
    }
    flows
}

/// The names of the switches a router's ports attach it to, in order.
pub fn list_attached_switches(ports: &Vec<RouterPort>) -> (r: Vec<String>)
    ensures
        r@.len() == ports@.len(),
        forall|i: int| 0 <= i < ports@.len() ==> r@[i] == ports@[i].switch_name,
{
    let mut names: Vec<String> = Vec::new();
    let mut i: usize = 0;
    while i < ports.len()
        invariant
            i <= ports@.len(),
            names@.len() == i,
            forall|j: int| 0 <= j < i ==> names@[j] == ports@[j].switch_name,
        decreases ports@.len() - i,
    {
        names.push(ports[i].switch_name.clone());
        i = i + 1;
    }
    names
}

} // verus!
