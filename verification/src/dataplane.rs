//! The eBPF dataplane: the records its maps hold and what its traffic-control
//! programs do to a frame.
//!
//! Each program function takes the frame, the interface it arrived on and the
//! contents of the maps, and says what the program does: the verdict it
//! returns, the frame after its stores, and the checksum updates it asks the
//! kernel for.
use vstd::prelude::*;
use crate::cidr::prefix_mask;
use crate::text::{contains_text, has_substring};
use crate::bytes::{
    be16, be32, from_be16, from_be32, lemma_from_be32_roundtrip, octets, patch_u16_be, push_all, put, read_mac, read_u16_be,
    read_u32_be, write_bytes,
};

verus! {

/// A route of the route table.
#[derive(Debug, Clone, Copy, PartialEq, Eq)]
pub struct RouteEntry {
    pub out_ifindex: u32,
    pub src_prefix_len: u32,
    pub src_network: u32,
    pub src_mac: [u8; 6],
    pub next_hop_mac: [u8; 6],
    pub flags: u8,
    pub _pad: [u8; 3],
}

/// The gateway address and MAC address registered on an interface.
#[derive(Debug, Clone, Copy, PartialEq, Eq)]
pub struct Interface {
    pub ip: u32,
    pub mac: [u8; 6],
}

/// The key of the ARP table: a bridge and an address in it.
#[derive(Debug, Clone, Copy, PartialEq, Eq, Structural)]
pub struct ArpKey {
    pub bridge_id: u32,
    pub ip: u32,
}

/// What a traffic-control program tells the kernel to do with a frame.
#[derive(Debug, Clone, Copy, PartialEq, Eq, Structural)]
pub enum TcAction {
    /// Let the frame go on its way.
    Pipe,
    /// Drop the frame.
    Shot,
    /// Send the frame out of the interface with this index.
    Redirect(u32),
    /// Leave the frame to the switch program.
    NextSwitch,
}

/// The header a checksum update is for.
#[derive(Debug, Clone, Copy, PartialEq, Eq, Structural)]
pub enum ChecksumLayer {
    L3,
    L4,
}

/// A request to the kernel to update the checksum stored at `offset` for
/// `size` bytes of the header changing from `from` to `to`, both read
/// big-endian.
#[derive(Debug, Clone, Copy, PartialEq, Eq, Structural)]
pub struct ChecksumUpdate {
    pub layer: ChecksumLayer,
    pub offset: u32,
    pub from: u32,
    pub to: u32,
    pub size: u32,
}

pub const ETH_HDR_LEN: usize = 14;
pub const IPV4_HDR_LEN: usize = 20;
pub const IP_TTL_OFF: usize = 22;
pub const IP_PROTO_OFF: usize = 23;
pub const IP_CSUM_OFF: usize = 24;
pub const IP_SRC_OFF: usize = 26;
pub const IP_DST_OFF: usize = 30;
pub const IP_FRAG_OFF: usize = 20;
pub const ECHO_TYPE_OFF: usize = 34;
pub const ECHO_CSUM_OFF: usize = 36;
pub const ETHERTYPE_IPV4: u16 = 0x0800;
pub const ETHERTYPE_ARP: u16 = 0x0806;
pub const ECHO_REQUEST: u8 = 8;
pub const ECHO_REPLY: u8 = 0;
pub const ARP_REQUEST: u16 = 1;
pub const ARP_REPLY: u16 = 2;
/// The number of entries the MAC table holds at most.
pub const MAC_TABLE_CAPACITY: usize = 4096;

/// `ip` lies in `network/prefix_len`; a prefix of 0 holds every address and
/// one above 32 holds none.
pub open spec fn spec_prefix_match(ip: u32, network: u32, prefix_len: u32) -> bool {
    if prefix_len == 0 {
        true
    } else if prefix_len > 32 {
        false
    } else {
        let mask = 0xffff_ffffu32 << ((32 - prefix_len) as u32);
        ip & mask == network & mask
    }
}

pub fn ipv4_prefix_match(ip: u32, network: u32, prefix_len: u32) -> (r: bool)
    ensures
        r == spec_prefix_match(ip, network, prefix_len),
{
    if prefix_len == 0 {
        return true;
    }
    if prefix_len > 32 {
        return false;
    }
    let mask = u32::MAX << (32 - prefix_len);
    (ip & mask) == (network & mask)
}

/// The value of the first entry of `t` with key `k`.
pub open spec fn find_first<K, V>(t: Seq<(K, V)>, k: K) -> Option<V>
    decreases t.len(),
{
    if t.len() == 0 {
        None
    } else if t[0].0 == k {
        Some(t[0].1)
    } else {
        find_first(t.drop_first(), k)
    }
}

/// Looks up a table keyed by a 32-bit number.
pub fn lookup_u32<V: Copy>(t: &Vec<(u32, V)>, k: u32) -> (r: Option<V>)
    ensures
        r == find_first(t@, k),
{
    let mut i: usize = 0;
    assert(t@.skip(0) =~= t@);
    while i < t.len()
        invariant
            i <= t@.len(),
            find_first(t@, k) == find_first(t@.skip(i as int), k),
        decreases t@.len() - i,
    {
        proof {
            assert(t@.skip(i as int).drop_first() =~= t@.skip(i + 1));
            assert(t@.skip(i as int)[0] == t@[i as int]);
        }
        if t[i].0 == k {
            return Some(t[i].1);
        }
        i = i + 1;
    }
    proof {
        assert(t@.skip(t@.len() as int) =~= Seq::<(u32, V)>::empty());
    }
    None
}

fn mac_eq(a: &[u8; 6], b: &[u8; 6]) -> (r: bool)
    ensures
        r == (a@ == b@),
{
    let mut i: usize = 0;
    while i < 6
        invariant
            i <= 6,
            forall|k: int| 0 <= k < i ==> a@[k] == b@[k],
        decreases 6 - i,
    {
        if a[i] != b[i] {
            return false;
        }
        i = i + 1;
    }
    assert(a@ =~= b@);
    true
}

/// The MAC table as the program sees it: MAC addresses (as byte sequences)
/// to interface indexes.
pub open spec fn mac_view(t: Seq<([u8; 6], u32)>) -> Seq<(Seq<u8>, u32)> {
    t.map_values(|e: ([u8; 6], u32)| (e.0@, e.1))
}

/// Looks up the interface a MAC address was last seen on.
pub fn lookup_mac(t: &Vec<([u8; 6], u32)>, mac: &[u8; 6]) -> (r: Option<u32>)
    ensures
        r == find_first(mac_view(t@), mac@),
{
    let ghost v = mac_view(t@);
    let mut i: usize = 0;
    assert(v.skip(0) =~= v);
    while i < t.len()
        invariant
            v == mac_view(t@),
            i <= t@.len(),
            find_first(v, mac@) == find_first(v.skip(i as int), mac@),
        decreases t@.len() - i,
    {
        proof {
            assert(v.skip(i as int).drop_first() =~= v.skip(i + 1));
            assert(v.skip(i as int)[0] == v[i as int]);
        }
        if mac_eq(&t[i].0, mac) {
            return Some(t[i].1);
        }
        i = i + 1;
    }
    proof {
        assert(v.skip(v.len() as int) =~= Seq::<(Seq<u8>, u32)>::empty());
    }
    None
}

/// The index of the first entry of `t` with key `k`, if any.
pub open spec fn first_index<K, V>(t: Seq<(K, V)>, k: K) -> Option<int> {
    if exists|i: int| 0 <= i < t.len() && t[i].0 == k {
        Some(choose|i: int| 0 <= i < t.len() && t[i].0 == k && forall|j: int| 0 <= j < i ==> t[j].0 != k)
    } else {
        None
    }
}

/// The table after the hash-map insert of `(k, v)`: the entry for `k` gets
/// the value `v`; a new key is added at the end unless the table is full,
/// in which case the insert fails and the table stays as it was.
pub open spec fn learn<K, V>(t: Seq<(K, V)>, k: K, v: V, capacity: nat) -> Seq<(K, V)> {
    match first_index(t, k) {
        Some(i) => t.update(i, (k, v)),
        None => if t.len() < capacity {
            t.push((k, v))
        } else {
            t
        },
    }
}

/// Records that `mac` was seen on interface `ifindex` (see `learn`).
pub fn learn_mac(t: &mut Vec<([u8; 6], u32)>, mac: [u8; 6], ifindex: u32)
    ensures
        mac_view(final(t)@) == learn(mac_view(old(t)@), mac@, ifindex, MAC_TABLE_CAPACITY as nat),
{
    let ghost v = mac_view(t@);
    let mut i: usize = 0;
    while i < t.len()
        invariant
            v == mac_view(t@),
            v == mac_view(old(t)@),
            i <= t@.len(),
            forall|j: int| 0 <= j < i ==> v[j].0 != mac@,
        decreases t@.len() - i,
    {
        if mac_eq(&t[i].0, &mac) {
            proof {
                assert(v[i as int].0 == mac@);
                let c = choose|c: int| 0 <= c < v.len() && v[c].0 == mac@ && forall|j: int| 0 <= j < c ==> v[j].0 != mac@;
                assert(exists|c: int| 0 <= c < v.len() && v[c].0 == mac@ && forall|j: int| 0 <= j < c ==> v[j].0 != mac@) by {
                    assert(0 <= i < v.len() && v[i as int].0 == mac@ && forall|j: int| 0 <= j < i ==> v[j].0 != mac@);
                }
                if c < i {
                    assert(v[c].0 != mac@);
                }
                if c > i {
                    assert(v[i as int].0 != mac@);
                }
                assert(first_index(v, mac@) == Some(i as int));
            }
            t.set(i, (mac, ifindex));
            proof {
                assert(mac_view(t@) =~= v.update(i as int, (mac@, ifindex)));
            }
            return;
        }
        i = i + 1;
    }
    proof {
        assert(!(exists|c: int| 0 <= c < v.len() && v[c].0 == mac@));
        assert(first_index(v, mac@) is None);
    }
    if t.len() < MAC_TABLE_CAPACITY {
        t.push((mac, ifindex));
        proof {
            assert(mac_view(t@) =~= v.push((mac@, ifindex)));
        }
    }
}

/// The big-endian 16-bit value at `off`.
pub open spec fn be16_at(f: Seq<u8>, off: int) -> u16 {
    from_be16(f[off], f[off + 1])
}

/// The big-endian 32-bit value at `off`.
pub open spec fn be32_at(f: Seq<u8>, off: int) -> u32 {
    from_be32(f[off], f[off + 1], f[off + 2], f[off + 3])
}

/// What the switch program does with a frame arriving on `ifindex`, and the
/// MAC table after it.
///
/// Only ARP and IPv4 frames are switched. The sender's MAC address is learnt
/// on the arrival interface; the frame then goes out of the interface its
/// destination MAC address was learnt on, and is dropped when that is
/// unknown or is the arrival interface itself, or when the kernel refuses
/// the redirect (`redirect_ok` is whether its `bpf_redirect` succeeds).
pub open spec fn spec_switch_frame(
    f: Seq<u8>,
    ifindex: u32,
    redirect_ok: bool,
    t: Seq<(Seq<u8>, u32)>,
) -> (TcAction, Seq<(Seq<u8>, u32)>) {
    if f.len() < ETH_HDR_LEN {
        (TcAction::Pipe, t)
    } else if be16_at(f, 12) != ETHERTYPE_ARP && be16_at(f, 12) != ETHERTYPE_IPV4 {
        (TcAction::Pipe, t)
    } else {
        let t2 = learn(t, f.subrange(6, 12), ifindex, MAC_TABLE_CAPACITY as nat);
        match find_first(t2, f.subrange(0, 6)) {
            Some(out) => if out != ifindex && redirect_ok {
                (TcAction::Redirect(out), t2)
            } else {
                (TcAction::Shot, t2)
            },
            None => (TcAction::Shot, t2),
        }
    }
}

/// The switch program (see `spec_switch_frame`).
pub fn switch_frame(
    frame: &[u8],
    ifindex: u32,
    redirect_ok: bool,
    mac_table: &mut Vec<([u8; 6], u32)>,
) -> (r: TcAction)
    ensures
        (r, mac_view(final(mac_table)@)) == spec_switch_frame(frame@, ifindex, redirect_ok, mac_view(old(mac_table)@)),
{
    if frame.len() < ETH_HDR_LEN {
        return TcAction::Pipe;
    }
    let ethertype = read_u16_be(frame, 12);
    if ethertype != ETHERTYPE_ARP && ethertype != ETHERTYPE_IPV4 {
        return TcAction::Pipe;
    }
    let src_mac = read_mac(frame, 6);
    learn_mac(mac_table, src_mac, ifindex);
    let dst_mac = read_mac(frame, 0);
    match lookup_mac(mac_table, &dst_mac) {
        Some(out) => if out != ifindex && redirect_ok {
            TcAction::Redirect(out)
        } else {
            TcAction::Shot
        },
        None => TcAction::Shot,
    }
}

/// The maps the router program reads.
#[derive(Debug, Clone)]
pub struct Tables {
    /// Interface index to bridge.
    pub bridge_table: Vec<(u32, u32)>,
    /// Routes by prefix length and network address.
    pub route_table: Vec<(u32, u32, RouteEntry)>,
    /// Routes that every frame arriving on an interface takes.
    pub default_routes: Vec<(u32, RouteEntry)>,
    /// The gateway registered on each interface.
    pub interfaces: Vec<(u32, Interface)>,
    /// The MAC address of each address of each bridge.
    pub arp_table: Vec<(ArpKey, [u8; 6])>,
}

/// The ARP table with its MAC addresses as byte sequences.
pub open spec fn arp_view(t: Seq<(ArpKey, [u8; 6])>) -> Seq<(ArpKey, Seq<u8>)> {
    t.map_values(|e: (ArpKey, [u8; 6])| (e.0, e.1@))
}

fn lookup_arp(t: &Vec<(ArpKey, [u8; 6])>, key: ArpKey) -> (r: Option<[u8; 6]>)
    ensures
        match find_first(arp_view(t@), key) {
            Some(m) => r matches Some(a) && a@ == m,
            None => r is None,
        },
{
    let ghost v = arp_view(t@);
    let mut i: usize = 0;
    assert(v.skip(0) =~= v);
    while i < t.len()
        invariant
            v == arp_view(t@),
            i <= t@.len(),
            find_first(v, key) == find_first(v.skip(i as int), key),
        decreases t@.len() - i,
    {
        proof {
            assert(v.skip(i as int).drop_first() =~= v.skip(i + 1));
            assert(v.skip(i as int)[0] == v[i as int]);
        }
        if t[i].0 == key {
            return Some(t[i].1);
        }
        i = i + 1;
    }
    proof {
        assert(v.skip(v.len() as int) =~= Seq::<(ArpKey, Seq<u8>)>::empty());
    }
    None
}

/// The longest-prefix match for `addr` among the routes whose prefix length
/// is at most `key_prefix`, with its prefix length; among routes of equal
/// length the first wins.
pub open spec fn lpm_best(t: Seq<(u32, u32, RouteEntry)>, key_prefix: u32, addr: u32) -> Option<(u32, RouteEntry)>
    decreases t.len(),
{
    if t.len() == 0 {
        None
    } else {
        let prev = lpm_best(t.drop_last(), key_prefix, addr);
        let e = t.last();
        if e.0 <= key_prefix && e.0 <= 32 && spec_prefix_match(addr, e.1, e.0) && (match prev {
            None => true,
            Some(p) => e.0 > p.0,
        }) {
            Some((e.0, e.2))
        } else {
            prev
        }
    }
}

/// Looks up the route table as the kernel's longest-prefix-match trie does
/// for the key `addr/key_prefix`.
pub fn lpm_lookup(t: &Vec<(u32, u32, RouteEntry)>, key_prefix: u32, addr: u32) -> (r: Option<RouteEntry>)
    ensures
        r == (match lpm_best(t@, key_prefix, addr) {
            Some(b) => Some(b.1),
            None => None,
        }),
{
    let mut best: Option<(u32, RouteEntry)> = None;
    let mut i: usize = 0;
    while i < t.len()
        invariant
            i <= t@.len(),
            best == lpm_best(t@.take(i as int), key_prefix, addr),
        decreases t@.len() - i,
    {
        proof {
            assert(t@.take(i + 1).drop_last() =~= t@.take(i as int));
            assert(t@.take(i + 1).last() == t@[i as int]);
        }
        let (p, net, e) = t[i];
        let better = match best {
            None => true,
            Some(b) => p > b.0,
        };
        if p <= key_prefix && p <= 32 && ipv4_prefix_match(addr, net, p) && better {
            best = Some((p, e));
        }
        i = i + 1;
    }
    proof {
        assert(t@.take(t@.len() as int) =~= t@);
    }
    match best {
        Some(b) => Some(b.1),
        None => None,
    }
}

/// What a program did with a frame: its verdict, the frame after its
/// stores, and the checksum updates it asked for, in order.
#[derive(Debug, Clone)]
pub struct FrameOutcome {
    pub action: TcAction,
    pub frame: Vec<u8>,
    pub checksums: Vec<ChecksumUpdate>,
}

/// The MAC address the ARP responder answers for `target_ip` on interface
/// `ifindex` of bridge `bridge_id`: the gateway's, when the interface has one
/// with that address, else the one the ARP table holds.
pub open spec fn arp_answer(t: Tables, ifindex: u32, bridge_id: u32, target_ip: u32) -> Option<Seq<u8>> {
    let from_table = find_first(arp_view(t.arp_table@), ArpKey { bridge_id, ip: target_ip });
    match find_first(t.interfaces@, ifindex) {
        Some(gw) => if target_ip == gw.ip {
            Some(gw.mac@)
        } else {
            from_table
        },
        None => from_table,
    }
}

/// What the ARP responder does with an ARP frame arriving on `ifindex`.
///
/// Requests on an interface of a bridge for an address the responder knows
/// (see `arp_answer`) are turned into the reply in place and sent back out of
/// the arrival interface; the reply passes on when the kernel refuses that
/// redirect (`redirect_ok` is whether its `bpf_redirect` succeeds).
/// Everything else passes unchanged.
pub open spec fn spec_handle_arp(f: Seq<u8>, ifindex: u32, redirect_ok: bool, t: Tables) -> (TcAction, Seq<u8>) {
    match find_first(t.bridge_table@, ifindex) {
        None => (TcAction::Pipe, f),
        Some(bridge_id) => if f.len() < 42 || be16_at(f, 20) != ARP_REQUEST {
            (TcAction::Pipe, f)
        } else {
            let target_ip = be32_at(f, 38);
            match arp_answer(t, ifindex, bridge_id, target_ip) {
                None => (TcAction::Pipe, f),
                Some(target_mac) => {
                    let sender_mac = f.subrange(22, 28);
                    let sender_ip = be32_at(f, 28);
                    let g = put(
                        put(
                            put(
                                put(
                                    put(put(put(f, 20, be16(ARP_REPLY)), 22, target_mac), 28, be32(target_ip)),
                                    32,
                                    sender_mac,
                                ),
                                38,
                                be32(sender_ip),
                            ),
                            0,
                            sender_mac,
                        ),
                        6,
                        target_mac,
                    );
                    (if redirect_ok { TcAction::Redirect(ifindex) } else { TcAction::Pipe }, g)
                },
            }
        },
    }
}

fn frame_copy(frame: &[u8]) -> (r: Vec<u8>)
    ensures
        r@ == frame@,
{
    let mut r: Vec<u8> = Vec::new();
    push_all(&mut r, frame);
    r
}

/// The ARP responder (see `spec_handle_arp`).
pub fn handle_arp(frame: &[u8], ifindex: u32, redirect_ok: bool, t: &Tables) -> (r: FrameOutcome)
    ensures
        (r.action, r.frame@) == spec_handle_arp(frame@, ifindex, redirect_ok, *t),
        r.checksums@.len() == 0,
{
    let none: Vec<ChecksumUpdate> = Vec::new();
    let bridge_id = match lookup_u32(&t.bridge_table, ifindex) {
        Some(b) => b,
        None => return FrameOutcome { action: TcAction::Pipe, frame: frame_copy(frame), checksums: none },
    };
    if frame.len() < 42 || read_u16_be(frame, 20) != ARP_REQUEST {
        return FrameOutcome { action: TcAction::Pipe, frame: frame_copy(frame), checksums: none };
    }
    let target_ip = read_u32_be(frame, 38);
    let key = ArpKey { bridge_id, ip: target_ip };
    let target_mac = match lookup_u32(&t.interfaces, ifindex) {
        Some(gw) => if target_ip == gw.ip {
            Some(gw.mac)
        } else {
            lookup_arp(&t.arp_table, key)
        },
        None => lookup_arp(&t.arp_table, key),
    };
    let target_mac = match target_mac {
        Some(m) => m,
        None => return FrameOutcome { action: TcAction::Pipe, frame: frame_copy(frame), checksums: none },
    };
    let sender_mac = read_mac(frame, 22);
    let sender_ip = read_u32_be(frame, 28);
    let mut g = frame_copy(frame);
    patch_u16_be(&mut g, 20, ARP_REPLY);
    write_bytes(&mut g, 22, &target_mac);
    write_bytes(&mut g, 28, &octets(target_ip));
    write_bytes(&mut g, 32, &sender_mac);
    write_bytes(&mut g, 38, &octets(sender_ip));
    write_bytes(&mut g, 0, &sender_mac);
    write_bytes(&mut g, 6, &target_mac);
    let action = if redirect_ok { TcAction::Redirect(ifindex) } else { TcAction::Pipe };
    FrameOutcome { action, frame: g, checksums: none }
}

/// What the gateway's echo responder does with an IPv4 frame addressed to
/// gateway `gw` and arriving on `ifindex`.
///
/// An echo request is turned into the echo reply in place: MAC and IP
/// addresses swapped, the gateway's MAC address as the source, the type set
/// to reply, and the IP and echo checksums updated for those changes; it is
/// sent back out of the arrival interface, and passes on when the kernel
/// refuses that redirect (`redirect_ok` is whether its `bpf_redirect`
/// succeeds). Anything else passes unchanged.
///
/// The type update is asked for with the 16-bit values 8 and 0, which a
/// little-endian host reads as the bytes `8 0` and `0 0` of the frame.
pub open spec fn spec_handle_echo(
    f: Seq<u8>,
    ifindex: u32,
    redirect_ok: bool,
    gw: Interface,
) -> (TcAction, Seq<u8>, Seq<ChecksumUpdate>) {
    if f.len() <= ECHO_TYPE_OFF || f[ECHO_TYPE_OFF as int] != ECHO_REQUEST {
        (TcAction::Pipe, f, Seq::empty())
    } else {
        let eth_src = f.subrange(6, 12);
        let ip_src = be32_at(f, IP_SRC_OFF as int);
        let ip_dst = be32_at(f, IP_DST_OFF as int);
        let g = put(
            put(put(put(put(f, 0, eth_src), 6, gw.mac@), IP_SRC_OFF as int, be32(ip_dst)), IP_DST_OFF as int, be32(ip_src)),
            ECHO_TYPE_OFF as int,
            seq![ECHO_REPLY],
        );
        let cs = seq![
            ChecksumUpdate { layer: ChecksumLayer::L3, offset: IP_CSUM_OFF as u32, from: ip_src, to: ip_dst, size: 4 },
            ChecksumUpdate { layer: ChecksumLayer::L3, offset: IP_CSUM_OFF as u32, from: ip_dst, to: ip_src, size: 4 },
            ChecksumUpdate { layer: ChecksumLayer::L4, offset: ECHO_CSUM_OFF as u32, from: 0x0800, to: 0, size: 2 },
        ];
        (if redirect_ok { TcAction::Redirect(ifindex) } else { TcAction::Pipe }, g, cs)
    }
}

/// The echo responder (see `spec_handle_echo`).
pub fn handle_echo(frame: &[u8], ifindex: u32, redirect_ok: bool, gw: &Interface) -> (r: FrameOutcome)
    ensures
        (r.action, r.frame@, r.checksums@) == spec_handle_echo(frame@, ifindex, redirect_ok, *gw),
{
    let mut cs: Vec<ChecksumUpdate> = Vec::new();
    if frame.len() <= ECHO_TYPE_OFF || frame[ECHO_TYPE_OFF] != ECHO_REQUEST {
        return FrameOutcome { action: TcAction::Pipe, frame: frame_copy(frame), checksums: cs };
    }
    let eth_src = read_mac(frame, 6);
    let ip_src = read_u32_be(frame, IP_SRC_OFF);
    let ip_dst = read_u32_be(frame, IP_DST_OFF);
    let mut g = frame_copy(frame);
    write_bytes(&mut g, 0, &eth_src);
    write_bytes(&mut g, 6, &gw.mac);
    write_bytes(&mut g, IP_SRC_OFF, &octets(ip_dst));
    cs.push(ChecksumUpdate { layer: ChecksumLayer::L3, offset: IP_CSUM_OFF as u32, from: ip_src, to: ip_dst, size: 4 });
    write_bytes(&mut g, IP_DST_OFF, &octets(ip_src));
    cs.push(ChecksumUpdate { layer: ChecksumLayer::L3, offset: IP_CSUM_OFF as u32, from: ip_dst, to: ip_src, size: 4 });
    cs.push(ChecksumUpdate { layer: ChecksumLayer::L4, offset: ECHO_CSUM_OFF as u32, from: 0x0800, to: 0, size: 2 });
    let reply = [ECHO_REPLY];
    write_bytes(&mut g, ECHO_TYPE_OFF, &reply);
    proof {
        assert(reply@ =~= seq![ECHO_REPLY]);
        assert(cs@ =~= spec_handle_echo(frame@, ifindex, redirect_ok, *gw).2);
    }
    let action = if redirect_ok { TcAction::Redirect(ifindex) } else { TcAction::Pipe };
    FrameOutcome { action, frame: g, checksums: cs }
}

/// The route a frame from `in_ifindex` to `dst` takes: the default route of
/// its interface, else the longest-prefix match for `dst`, else the route of
/// prefix length 0.
pub open spec fn route_for(t: Tables, in_ifindex: u32, dst: u32) -> Option<RouteEntry> {
    match find_first(t.default_routes@, in_ifindex) {
        Some(r) => Some(r),
        None => match lpm_best(t.route_table@, 32, dst) {
            Some(b) => Some(b.1),
            None => match lpm_best(t.route_table@, 0, 0) {
                Some(b) => Some(b.1),
                None => None,
            },
        },
    }
}

/// What the forwarder does with an IPv4 frame arriving on `in_ifindex`.
///
/// A frame whose TTL would run out is dropped. Fragments, frames to the
/// unspecified or broadcast address, frames with no route and frames from
/// outside their route's source network pass. Otherwise the TTL is
/// decremented with its checksum update, the MAC addresses are set from the
/// route, and the frame goes out of the route's interface; it passes on
/// when the kernel refuses that redirect (`redirect_ok` is whether its
/// `bpf_redirect` succeeds).
pub open spec fn spec_forward(
    f: Seq<u8>,
    in_ifindex: u32,
    redirect_ok: bool,
    t: Tables,
) -> (TcAction, Seq<u8>, Seq<ChecksumUpdate>) {
    if f.len() <= IP_TTL_OFF {
        (TcAction::Pipe, f, Seq::empty())
    } else if f[IP_TTL_OFF as int] <= 1 {
        (TcAction::Shot, f, Seq::empty())
    } else if be16_at(f, IP_FRAG_OFF as int) & 0x3fff != 0 || f.len() < 34 {
        (TcAction::Pipe, f, Seq::empty())
    } else {
        let dst = be32_at(f, IP_DST_OFF as int);
        if dst == 0 || dst == 0xffff_ffff {
            (TcAction::Pipe, f, Seq::empty())
        } else {
            match route_for(t, in_ifindex, dst) {
                None => (TcAction::Pipe, f, Seq::empty()),
                Some(r) => if !spec_prefix_match(be32_at(f, IP_SRC_OFF as int), r.src_network, r.src_prefix_len) {
                    (TcAction::Pipe, f, Seq::empty())
                } else {
                    let ttl = f[IP_TTL_OFF as int];
                    let proto = f[IP_PROTO_OFF as int];
                    let g = put(put(put(f, IP_TTL_OFF as int, seq![(ttl - 1) as u8]), 0, r.next_hop_mac@), 6, r.src_mac@);
                    let cs = seq![
                        ChecksumUpdate {
                            layer: ChecksumLayer::L3,
                            offset: IP_CSUM_OFF as u32,
                            from: (ttl as int * 256 + proto as int) as u32,
                            to: ((ttl - 1) as int * 256 + proto as int) as u32,
                            size: 2,
                        },
                    ];
                    (if redirect_ok { TcAction::Redirect(r.out_ifindex) } else { TcAction::Pipe }, g, cs)
                },
            }
        }
    }
}

/// The forwarder (see `spec_forward`).
pub fn forward(frame: &[u8], in_ifindex: u32, redirect_ok: bool, t: &Tables) -> (r: FrameOutcome)
    ensures
        (r.action, r.frame@, r.checksums@) == spec_forward(frame@, in_ifindex, redirect_ok, *t),
{
    let mut cs: Vec<ChecksumUpdate> = Vec::new();
    if frame.len() <= IP_TTL_OFF {
        return FrameOutcome { action: TcAction::Pipe, frame: frame_copy(frame), checksums: cs };
    }
    let ttl = frame[IP_TTL_OFF];
    if ttl <= 1 {
        return FrameOutcome { action: TcAction::Shot, frame: frame_copy(frame), checksums: cs };
    }
    if read_u16_be(frame, IP_FRAG_OFF) & 0x3fff != 0 || frame.len() < 34 {
        return FrameOutcome { action: TcAction::Pipe, frame: frame_copy(frame), checksums: cs };
    }
    let dst = read_u32_be(frame, IP_DST_OFF);
    if dst == 0 || dst == 0xffff_ffff {
        return FrameOutcome { action: TcAction::Pipe, frame: frame_copy(frame), checksums: cs };
    }
    let proto = frame[IP_PROTO_OFF];
    let route = match lookup_u32(&t.default_routes, in_ifindex) {
        Some(r) => Some(r),
        None => match lpm_lookup(&t.route_table, 32, dst) {
            Some(r) => Some(r),
            None => lpm_lookup(&t.route_table, 0, 0),
        },
    };
    let route = match route {
        Some(r) => r,
        None => return FrameOutcome { action: TcAction::Pipe, frame: frame_copy(frame), checksums: cs },
    };
    let src = read_u32_be(frame, IP_SRC_OFF);
    if !ipv4_prefix_match(src, route.src_network, route.src_prefix_len) {
        return FrameOutcome { action: TcAction::Pipe, frame: frame_copy(frame), checksums: cs };
    }
    let new_ttl = ttl - 1;
    let mut g = frame_copy(frame);
    let ttl_byte = [new_ttl];
    write_bytes(&mut g, IP_TTL_OFF, &ttl_byte);
    cs.push(
        ChecksumUpdate {
            layer: ChecksumLayer::L3,
            offset: IP_CSUM_OFF as u32,
            from: ttl as u32 * 256 + proto as u32,
            to: new_ttl as u32 * 256 + proto as u32,
            size: 2,
        },
    );
    write_bytes(&mut g, 0, &route.next_hop_mac);
    write_bytes(&mut g, 6, &route.src_mac);
    proof {
        assert(ttl_byte@ =~= seq![(ttl - 1) as u8]);
        assert(cs@ =~= spec_forward(frame@, in_ifindex, redirect_ok, *t).2);
    }
    let action = if redirect_ok { TcAction::Redirect(route.out_ifindex) } else { TcAction::Pipe };
    FrameOutcome { action, frame: g, checksums: cs }
}

/// What the router program does with a frame arriving on `ifindex`, before
/// the switch program gets the frames it leaves.
///
/// ARP frames go to the ARP responder. IPv4 frames on an interface with a
/// gateway go to the echo responder when they are addressed to the gateway's
/// IP and MAC addresses, and to the forwarder when they are addressed
/// elsewhere. The frames none of these takes are left to the switch program,
/// as the responders left them: a reply whose redirect the kernel refused
/// (`redirect_ok` is whether its `bpf_redirect` succeeds) goes on with the
/// responder's stores and checksum updates in place.
pub open spec fn spec_route_frame(
    f: Seq<u8>,
    ifindex: u32,
    redirect_ok: bool,
    t: Tables,
) -> (TcAction, Seq<u8>, Seq<ChecksumUpdate>) {
    if f.len() < ETH_HDR_LEN {
        (TcAction::Pipe, f, Seq::empty())
    } else if be16_at(f, 12) == ETHERTYPE_ARP {
        let (a, g) = spec_handle_arp(f, ifindex, redirect_ok, t);
        if a != TcAction::Pipe {
            (a, g, Seq::empty())
        } else {
            (TcAction::NextSwitch, g, Seq::empty())
        }
    } else if be16_at(f, 12) != ETHERTYPE_IPV4 {
        (TcAction::NextSwitch, f, Seq::empty())
    } else {
        match find_first(t.interfaces@, ifindex) {
            None => (TcAction::NextSwitch, f, Seq::empty()),
            Some(gw) => if f.len() < 34 {
                (TcAction::Pipe, f, Seq::empty())
            } else if be32_at(f, IP_DST_OFF as int) == gw.ip {
                if f.subrange(0, 6) != gw.mac@ {
                    (TcAction::NextSwitch, f, Seq::empty())
                } else {
                    let e = spec_handle_echo(f, ifindex, redirect_ok, gw);
                    if e.0 != TcAction::Pipe {
                        e
                    } else {
                        (TcAction::NextSwitch, e.1, e.2)
                    }
                }
            } else {
                spec_forward(f, ifindex, redirect_ok, t)
            },
        }
    }
}

/// The router program before the switch program (see `spec_route_frame`).
pub fn route_frame(frame: &[u8], ifindex: u32, redirect_ok: bool, t: &Tables) -> (r: FrameOutcome)
    ensures
        (r.action, r.frame@, r.checksums@) == spec_route_frame(frame@, ifindex, redirect_ok, *t),
{
    if frame.len() < ETH_HDR_LEN {
        return FrameOutcome { action: TcAction::Pipe, frame: frame_copy(frame), checksums: Vec::new() };
    }
    let ethertype = read_u16_be(frame, 12);
    if ethertype == ETHERTYPE_ARP {
        let out = handle_arp(frame, ifindex, redirect_ok, t);
        if out.action != TcAction::Pipe {
            return out;
        }
        return FrameOutcome { action: TcAction::NextSwitch, frame: out.frame, checksums: Vec::new() };
    }
    if ethertype != ETHERTYPE_IPV4 {
        return FrameOutcome { action: TcAction::NextSwitch, frame: frame_copy(frame), checksums: Vec::new() };
    }
    let gw = match lookup_u32(&t.interfaces, ifindex) {
        Some(i) => i,
        None => return FrameOutcome {
            action: TcAction::NextSwitch,
            frame: frame_copy(frame),
            checksums: Vec::new(),
        },
    };
    if frame.len() < 34 {
        return FrameOutcome { action: TcAction::Pipe, frame: frame_copy(frame), checksums: Vec::new() };
    }
    if read_u32_be(frame, IP_DST_OFF) == gw.ip {
        let eth_dst = read_mac(frame, 0);
        if !mac_eq(&eth_dst, &gw.mac) {
            return FrameOutcome { action: TcAction::NextSwitch, frame: frame_copy(frame), checksums: Vec::new() };
        }
        let out = handle_echo(frame, ifindex, redirect_ok, &gw);
        if out.action != TcAction::Pipe {
            return out;
        }
        return FrameOutcome { action: TcAction::NextSwitch, frame: out.frame, checksums: out.checksums };
    }
    forward(frame, ifindex, redirect_ok, t)
}

/// What the router program does with a frame, the switch program taking the
/// frames the router leaves, as the router left them (see `spec_route_frame`
/// and `spec_switch_frame`), and the MAC table after it.
///
/// `router_redirect_ok` and `switch_redirect_ok` are whether the kernel's
/// `bpf_redirect` succeeds when the router part and the switch part call it.
pub open spec fn spec_hull_router(
    f: Seq<u8>,
    ifindex: u32,
    t: Tables,
    router_redirect_ok: bool,
    switch_redirect_ok: bool,
    macs: Seq<(Seq<u8>, u32)>,
) -> (TcAction, Seq<u8>, Seq<ChecksumUpdate>, Seq<(Seq<u8>, u32)>) {
    let r = spec_route_frame(f, ifindex, router_redirect_ok, t);
    if r.0 == TcAction::NextSwitch || r.0 == TcAction::Pipe {
        let s = spec_switch_frame(r.1, ifindex, switch_redirect_ok, macs);
        (s.0, r.1, r.2, s.1)
    } else {
        (r.0, r.1, r.2, macs)
    }
}

/// The router program (see `spec_hull_router`).
pub fn hull_router(
    frame: &[u8],
    ifindex: u32,
    t: &Tables,
    router_redirect_ok: bool,
    switch_redirect_ok: bool,
    mac_table: &mut Vec<([u8; 6], u32)>,
) -> (r: FrameOutcome)
    ensures
        (r.action, r.frame@, r.checksums@, mac_view(final(mac_table)@)) == spec_hull_router(
            frame@,
            ifindex,
            *t,
            router_redirect_ok,
            switch_redirect_ok,
            mac_view(old(mac_table)@),
        ),
{
    let out = route_frame(frame, ifindex, router_redirect_ok, t);
    if out.action == TcAction::NextSwitch || out.action == TcAction::Pipe {
        let action = switch_frame(out.frame.as_slice(), ifindex, switch_redirect_ok, mac_table);
        FrameOutcome { action, frame: out.frame, checksums: out.checksums }
    } else {
        out
    }
}

/// What the ingress program does with a frame arriving on `ifindex`: ARP and
/// IPv4 frames go to the router program, everything else to the switch
/// program; a frame too short to hold an EtherType passes. The two flags
/// are those of `spec_hull_router`.
pub open spec fn spec_hull_ingress(
    f: Seq<u8>,
    ifindex: u32,
    t: Tables,
    router_redirect_ok: bool,
    switch_redirect_ok: bool,
    macs: Seq<(Seq<u8>, u32)>,
) -> (TcAction, Seq<u8>, Seq<ChecksumUpdate>, Seq<(Seq<u8>, u32)>) {
    if f.len() < ETH_HDR_LEN {
        (TcAction::Pipe, f, Seq::empty(), macs)
    } else if be16_at(f, 12) == ETHERTYPE_ARP || be16_at(f, 12) == ETHERTYPE_IPV4 {
        spec_hull_router(f, ifindex, t, router_redirect_ok, switch_redirect_ok, macs)
    } else {
        let s = spec_switch_frame(f, ifindex, switch_redirect_ok, macs);
        (s.0, f, Seq::empty(), s.1)
    }
}

/// The ingress program (see `spec_hull_ingress`).
pub fn hull_ingress(
    frame: &[u8],
    ifindex: u32,
    t: &Tables,
    router_redirect_ok: bool,
    switch_redirect_ok: bool,
    mac_table: &mut Vec<([u8; 6], u32)>,
) -> (r: FrameOutcome)
    ensures
        (r.action, r.frame@, r.checksums@, mac_view(final(mac_table)@)) == spec_hull_ingress(
            frame@,
            ifindex,
            *t,
            router_redirect_ok,
            switch_redirect_ok,
            mac_view(old(mac_table)@),
        ),
{
    if frame.len() < ETH_HDR_LEN {
        return FrameOutcome { action: TcAction::Pipe, frame: frame_copy(frame), checksums: Vec::new() };
    }
    let ethertype = read_u16_be(frame, 12);
    if ethertype == ETHERTYPE_ARP || ethertype == ETHERTYPE_IPV4 {
        hull_router(frame, ifindex, t, router_redirect_ok, switch_redirect_ok, mac_table)
    } else {
        let action = switch_frame(frame, ifindex, switch_redirect_ok, mac_table);
        FrameOutcome { action, frame: frame_copy(frame), checksums: Vec::new() }
    }
}

/// No key occurs twice in `t`.
pub open spec fn keys_unique<K, V>(t: Seq<(K, V)>) -> bool {
    forall|i: int, j: int| 0 <= i < j < t.len() ==> t[i].0 != t[j].0
}

proof fn lemma_find_first_index<K, V>(t: Seq<(K, V)>, k: K, i: int)
    requires
        0 <= i < t.len(),
        t[i].0 == k,
        forall|j: int| 0 <= j < i ==> t[j].0 != k,
    ensures
        find_first(t, k) == Some(t[i].1),
    decreases i,
{
    if i > 0 {
        lemma_find_first_index(t.drop_first(), k, i - 1);
    }
}

proof fn lemma_find_first_absent<K, V>(t: Seq<(K, V)>, k: K)
    requires
        forall|j: int| 0 <= j < t.len() ==> t[j].0 != k,
    ensures
        find_first(t, k) is None,
    decreases t.len(),
{
    if t.len() > 0 {
        lemma_find_first_absent(t.drop_first(), k);
    }
}

proof fn lemma_find_first_some<K, V>(t: Seq<(K, V)>, k: K)
    requires
        find_first(t, k) is Some,
    ensures
        exists|i: int|
            0 <= i < t.len() && t[i].0 == k && find_first(t, k) == Some(t[i].1) && forall|j: int|
                0 <= j < i ==> t[j].0 != k,
    decreases t.len(),
{
    if t[0].0 != k {
        lemma_find_first_some(t.drop_first(), k);
        let i = choose|i: int|
            0 <= i < t.drop_first().len() && t.drop_first()[i].0 == k && find_first(t.drop_first(), k) == Some(
                t.drop_first()[i].1,
            ) && forall|j: int| 0 <= j < i ==> t.drop_first()[j].0 != k;
        assert(forall|j: int| 0 <= j < i + 1 ==> t[j].0 != k) by {
            assert forall|j: int| 0 <= j < i + 1 implies t[j].0 != k by {
                if j > 0 {
                    assert(t[j] == t.drop_first()[j - 1]);
                }
            }
        }
        assert(t[i + 1] == t.drop_first()[i]);
    } else {
        assert(0 <= 0 < t.len() && t[0].0 == k && find_first(t, k) == Some(t[0].1));
    }
}

/// What the dataplane learns it finds again: after `k` is learnt with `v`,
/// looking `k` up gives `v`, unless the table was full and did not hold `k`
/// yet; and the other keys keep their values.
pub proof fn lemma_learn_then_lookup<K, V>(t: Seq<(K, V)>, k: K, v: V, capacity: nat, other: K)
    requires
        other != k,
    ensures
        (first_index(t, k) is Some || t.len() < capacity) ==> find_first(learn(t, k, v, capacity), k) == Some(v),
        find_first(learn(t, k, v, capacity), other) == find_first(t, other),
{
    let t2 = learn(t, k, v, capacity);
    match first_index(t, k) {
        Some(i) => {
            assert(exists|c: int| 0 <= c < t.len() && t[c].0 == k);
            let w = choose|c: int| 0 <= c < t.len() && t[c].0 == k;
            assert(exists|c: int| 0 <= c < t.len() && t[c].0 == k && forall|j: int| 0 <= j < c ==> t[j].0 != k) by {
                lemma_first_hit(t, k, w);
            }
            assert(0 <= i < t.len() && t[i].0 == k && forall|j: int| 0 <= j < i ==> t[j].0 != k);
            assert(t2 == t.update(i, (k, v)));
            lemma_find_first_index(t2, k, i);
            if find_first(t, other) is Some {
                lemma_find_first_some(t, other);
                let q = choose|q: int|
                    0 <= q < t.len() && t[q].0 == other && find_first(t, other) == Some(t[q].1) && forall|j: int|
                        0 <= j < q ==> t[j].0 != other;
                lemma_find_first_index(t2, other, q);
            } else {
                if exists|q: int| 0 <= q < t2.len() && t2[q].0 == other {
                    let q = choose|q: int| 0 <= q < t2.len() && t2[q].0 == other;
                    lemma_first_hit(t, other, q);
                    let q2 = choose|c: int| 0 <= c < t.len() && t[c].0 == other && forall|j: int| 0 <= j < c ==> t[j].0 != other;
                    lemma_find_first_index(t, other, q2);
                }
                lemma_find_first_absent(t2, other);
            }
        },
        None => {
            assert(forall|j: int| 0 <= j < t.len() ==> t[j].0 != k) by {
                if exists|c: int| 0 <= c < t.len() && t[c].0 == k {
                    let w = choose|c: int| 0 <= c < t.len() && t[c].0 == k;
                    lemma_first_hit(t, k, w);
                }
            }
            if t.len() < capacity {
                lemma_find_first_index(t2, k, t.len() as int);
            }
            if find_first(t, other) is Some {
                lemma_find_first_some(t, other);
                let q = choose|q: int|
                    0 <= q < t.len() && t[q].0 == other && find_first(t, other) == Some(t[q].1) && forall|j: int|
                        0 <= j < q ==> t[j].0 != other;
                lemma_find_first_index(t2, other, q);
            } else {
                if exists|q: int| 0 <= q < t.len() && t[q].0 == other {
                    let q = choose|q: int| 0 <= q < t.len() && t[q].0 == other;
                    lemma_first_hit(t, other, q);
                    let q2 = choose|c: int| 0 <= c < t.len() && t[c].0 == other && forall|j: int| 0 <= j < c ==> t[j].0 != other;
                    lemma_find_first_index(t, other, q2);
                }
                lemma_find_first_absent(t2, other);
            }
        },
    }
}

proof fn lemma_first_hit<K, V>(t: Seq<(K, V)>, k: K, w: int)
    requires
        0 <= w < t.len(),
        t[w].0 == k,
    ensures
        exists|c: int| 0 <= c < t.len() && t[c].0 == k && forall|j: int| 0 <= j < c ==> t[j].0 != k,
    decreases w,
{
    if exists|c: int| 0 <= c < w && t[c].0 == k {
        let c = choose|c: int| 0 <= c < w && t[c].0 == k;
        lemma_first_hit(t, k, c);
    } else {
        assert(forall|j: int| 0 <= j < w ==> t[j].0 != k);
    }
}

/// Learning keeps a table a map within its capacity: no key twice, and no
/// more entries than the capacity.
pub proof fn lemma_learn_keeps_table_well_formed<K, V>(t: Seq<(K, V)>, k: K, v: V, capacity: nat)
    requires
        keys_unique(t),
        t.len() <= capacity,
    ensures
        keys_unique(learn(t, k, v, capacity)),
        learn(t, k, v, capacity).len() <= capacity,
{
    let t2 = learn(t, k, v, capacity);
    match first_index(t, k) {
        Some(i) => {
            assert(exists|c: int| 0 <= c < t.len() && t[c].0 == k);
            let w = choose|c: int| 0 <= c < t.len() && t[c].0 == k;
            lemma_first_hit(t, k, w);
            assert(0 <= i < t.len() && t[i].0 == k);
            assert forall|a: int, b: int| 0 <= a < b < t2.len() implies t2[a].0 != t2[b].0 by {
                assert(t2[a].0 == t[a].0 && t2[b].0 == t[b].0);
            }
        },
        None => {
            assert(forall|j: int| 0 <= j < t.len() ==> t[j].0 != k) by {
                if exists|c: int| 0 <= c < t.len() && t[c].0 == k {
                    let w = choose|c: int| 0 <= c < t.len() && t[c].0 == k;
                    lemma_first_hit(t, k, w);
                }
            }
        },
    }
}

/// The ARP responder answers the asker: when it answers a request, its
/// frame is an ARP reply addressed, at both layers, to the sender of the
/// request, giving the address that was asked for with the MAC address the
/// responder knows for it; the reply goes back out of the arrival interface
/// when the kernel takes the redirect, and passes on when it refuses it.
pub proof fn lemma_arp_reply_answers_request(f: Seq<u8>, ifindex: u32, redirect_ok: bool, t: Tables)
    requires
        spec_handle_arp(f, ifindex, true, t).0 != TcAction::Pipe,
    ensures
        ({
            let g = spec_handle_arp(f, ifindex, redirect_ok, t).1;
            let bridge_id = find_first(t.bridge_table@, ifindex).unwrap();
            &&& spec_handle_arp(f, ifindex, redirect_ok, t).0 == (if redirect_ok {
                TcAction::Redirect(ifindex)
            } else {
                TcAction::Pipe
            })
            &&& g.len() == f.len()
            &&& be16_at(f, 20) == ARP_REQUEST
            &&& be16_at(g, 20) == ARP_REPLY
            &&& g.subrange(0, 6) == f.subrange(22, 28)
            &&& g.subrange(32, 38) == f.subrange(22, 28)
            &&& g.subrange(38, 42) == f.subrange(28, 32)
            &&& g.subrange(28, 32) == f.subrange(38, 42)
            &&& arp_answer(t, ifindex, bridge_id, be32_at(f, 38)) == Some(g.subrange(22, 28))
            &&& g.subrange(6, 12) == g.subrange(22, 28)
        }),
{
    let bridge_id = find_first(t.bridge_table@, ifindex).unwrap();
    let target_ip = be32_at(f, 38);
    let tm = arp_answer(t, ifindex, bridge_id, target_ip).unwrap();
    let g = spec_handle_arp(f, ifindex, redirect_ok, t).1;
    assert(f.len() >= 42);
    assert(tm.len() == 6) by {
        match find_first(t.interfaces@, ifindex) {
            Some(gw) => if target_ip != gw.ip {
                lemma_find_first_some(arp_view(t.arp_table@), ArpKey { bridge_id, ip: target_ip });
            },
            None => {
                lemma_find_first_some(arp_view(t.arp_table@), ArpKey { bridge_id, ip: target_ip });
            },
        }
    }
    assert(g.len() == f.len());
    assert(g.subrange(20, 22) =~= be16(ARP_REPLY));
    assert(be16_at(g, 20) == ARP_REPLY) by {
        assert(g[20] == 0u8 && g[21] == 2u8);
    }
    assert(g.subrange(0, 6) =~= f.subrange(22, 28));
    assert(g.subrange(32, 38) =~= f.subrange(22, 28));
    assert(g.subrange(22, 28) =~= tm);
    assert(g.subrange(6, 12) =~= tm);
    assert(be32(be32_at(f, 28)) =~= f.subrange(28, 32)) by {
        lemma_from_be32_roundtrip(f[28], f[29], f[30], f[31]);
    }
    assert(be32(target_ip) =~= f.subrange(38, 42)) by {
        lemma_from_be32_roundtrip(f[38], f[39], f[40], f[41]);
    }
    assert(g.subrange(38, 42) =~= f.subrange(28, 32));
    assert(g.subrange(28, 32) =~= f.subrange(38, 42));
}

/// The forwarder only forwards frames that may take another hop: a frame it
/// routes had a TTL above 1, leaves with that TTL less one, carries the
/// route's MAC addresses, and comes with exactly one checksum update, for
/// that TTL change; it goes out of the route's interface when the kernel
/// takes the redirect, and passes on when it refuses it.
pub proof fn lemma_forward_decrements_ttl(f: Seq<u8>, in_ifindex: u32, redirect_ok: bool, t: Tables)
    requires
        spec_forward(f, in_ifindex, true, t).0 is Redirect,
    ensures
        ({
            let (a, g, cs) = spec_forward(f, in_ifindex, redirect_ok, t);
            let r = route_for(t, in_ifindex, be32_at(f, IP_DST_OFF as int)).unwrap();
            &&& a == (if redirect_ok { TcAction::Redirect(r.out_ifindex) } else { TcAction::Pipe })
            &&& f[IP_TTL_OFF as int] > 1
            &&& g.len() == f.len()
            &&& g[IP_TTL_OFF as int] == f[IP_TTL_OFF as int] - 1
            &&& g.subrange(0, 6) == r.next_hop_mac@
            &&& g.subrange(6, 12) == r.src_mac@
            &&& g.subrange(12, IP_TTL_OFF as int) == f.subrange(12, IP_TTL_OFF as int)
            &&& g.subrange(IP_TTL_OFF as int + 1, f.len() as int) == f.subrange(IP_TTL_OFF as int + 1, f.len() as int)
            &&& cs.len() == 1
            &&& cs[0].layer == ChecksumLayer::L3 && cs[0].offset == IP_CSUM_OFF as u32 && cs[0].size == 2
            &&& cs[0].from == f[IP_TTL_OFF as int] as int * 256 + f[IP_PROTO_OFF as int] as int
            &&& cs[0].to == g[IP_TTL_OFF as int] as int * 256 + g[IP_PROTO_OFF as int] as int
        }),
{
    let (a, g, cs) = spec_forward(f, in_ifindex, redirect_ok, t);
    let r = route_for(t, in_ifindex, be32_at(f, IP_DST_OFF as int)).unwrap();
    assert(g.len() == f.len());
    assert(g.subrange(0, 6) =~= r.next_hop_mac@);
    assert(g.subrange(6, 12) =~= r.src_mac@);
    assert(g.subrange(12, IP_TTL_OFF as int) =~= f.subrange(12, IP_TTL_OFF as int));
    assert(g.subrange(IP_TTL_OFF as int + 1, f.len() as int) =~= f.subrange(IP_TTL_OFF as int + 1, f.len() as int));
}

/// The forwarder routes every unfragmented IPv4 frame it can: a frame with
/// a TTL above 1, a whole IPv4 header, neither the more-fragments flag nor a
/// fragment offset (whatever the don't-fragment flag says), a destination
/// other than 0.0.0.0 and 255.255.255.255, a route, and a source inside that
/// route's source network goes out of the route's interface when the kernel
/// takes the redirect.
pub proof fn lemma_forward_routes_unfragmented(f: Seq<u8>, in_ifindex: u32, t: Tables)
    requires
        f.len() >= 34,
        f[IP_TTL_OFF as int] > 1,
        f[IP_FRAG_OFF as int] & 0x3f == 0,
        f[IP_FRAG_OFF as int + 1] == 0,
        be32_at(f, IP_DST_OFF as int) != 0,
        be32_at(f, IP_DST_OFF as int) != 0xffff_ffff,
        route_for(t, in_ifindex, be32_at(f, IP_DST_OFF as int)) is Some,
        spec_prefix_match(
            be32_at(f, IP_SRC_OFF as int),
            route_for(t, in_ifindex, be32_at(f, IP_DST_OFF as int))->Some_0.src_network,
            route_for(t, in_ifindex, be32_at(f, IP_DST_OFF as int))->Some_0.src_prefix_len,
        ),
    ensures
        spec_forward(f, in_ifindex, true, t).0 == TcAction::Redirect(
            route_for(t, in_ifindex, be32_at(f, IP_DST_OFF as int))->Some_0.out_ifindex,
        ),
{
    lemma_fragment_bits(f[IP_FRAG_OFF as int], f[IP_FRAG_OFF as int + 1]);
}

/// A fragment (the more-fragments flag set, or a fragment offset) that is
/// not dropped for its TTL is never routed: it passes on.
pub proof fn lemma_forward_passes_fragments(f: Seq<u8>, in_ifindex: u32, redirect_ok: bool, t: Tables)
    requires
        f.len() >= 34,
        f[IP_TTL_OFF as int] > 1,
        !(f[IP_FRAG_OFF as int] & 0x3f == 0 && f[IP_FRAG_OFF as int + 1] == 0),
    ensures
        spec_forward(f, in_ifindex, redirect_ok, t).0 == TcAction::Pipe,
        spec_forward(f, in_ifindex, redirect_ok, t).1 == f,
{
    lemma_fragment_bits(f[IP_FRAG_OFF as int], f[IP_FRAG_OFF as int + 1]);
}

proof fn lemma_fragment_bits(hi: u8, lo: u8)
    ensures
        (from_be16(hi, lo) & 0x3fff == 0) <==> (hi & 0x3f == 0 && lo == 0),
{
    assert(((hi as int * 256 + lo as int) as u16 & 0x3fff == 0) <==> (hi & 0x3f == 0 && lo == 0)) by (bit_vector);
}

/// The echo responder swaps the addresses: its reply goes from the address
/// the request was sent to, to the address it came from, back out of the
/// arrival interface when the kernel takes the redirect, and passes on when
/// it refuses it.
pub proof fn lemma_echo_reply_swaps_addresses(f: Seq<u8>, ifindex: u32, redirect_ok: bool, gw: Interface)
    requires
        spec_handle_echo(f, ifindex, true, gw).0 != TcAction::Pipe,
    ensures
        ({
            let g = spec_handle_echo(f, ifindex, redirect_ok, gw).1;
            &&& spec_handle_echo(f, ifindex, redirect_ok, gw).0 == (if redirect_ok {
                TcAction::Redirect(ifindex)
            } else {
                TcAction::Pipe
            })
            &&& g.len() == f.len()
            &&& g.subrange(IP_SRC_OFF as int, IP_SRC_OFF as int + 4) == f.subrange(IP_DST_OFF as int, IP_DST_OFF as int + 4)
            &&& g.subrange(IP_DST_OFF as int, IP_DST_OFF as int + 4) == f.subrange(IP_SRC_OFF as int, IP_SRC_OFF as int + 4)
            &&& g.subrange(0, 6) == f.subrange(6, 12)
            &&& g.subrange(6, 12) == gw.mac@
            &&& f[ECHO_TYPE_OFF as int] == ECHO_REQUEST
            &&& g[ECHO_TYPE_OFF as int] == ECHO_REPLY
        }),
{
    let g = spec_handle_echo(f, ifindex, redirect_ok, gw).1;
    lemma_from_be32_roundtrip(f[26], f[27], f[28], f[29]);
    lemma_from_be32_roundtrip(f[30], f[31], f[32], f[33]);
    assert(g.len() == f.len());
    assert(g.subrange(26, 30) =~= f.subrange(30, 34));
    assert(g.subrange(30, 34) =~= f.subrange(26, 30));
    assert(g.subrange(0, 6) =~= f.subrange(6, 12));
    assert(g.subrange(6, 12) =~= gw.mac@);
}

/// A route that the route table offers `addr` under the key prefix length
/// `key_prefix`.
pub open spec fn route_matches(e: (u32, u32, RouteEntry), key_prefix: u32, addr: u32) -> bool {
    e.0 <= key_prefix && e.0 <= 32 && spec_prefix_match(addr, e.1, e.0)
}

/// Whether `bpf_redirect` succeeds changes only the action returned: the
/// frame after the stores and the checksum updates asked for are equal
/// either way. When it fails, the action is never a redirect: the ARP and
/// echo responders and the forwarder let the frame pass on, and the switch
/// drops it.
pub proof fn lemma_refused_redirect_falls_back(
    f: Seq<u8>,
    ifindex: u32,
    t: Tables,
    gw: Interface,
    macs: Seq<(Seq<u8>, u32)>,
)
    ensures
        spec_handle_arp(f, ifindex, false, t).1 == spec_handle_arp(f, ifindex, true, t).1,
        spec_handle_arp(f, ifindex, false, t).0 == TcAction::Pipe,
        spec_handle_echo(f, ifindex, false, gw).1 == spec_handle_echo(f, ifindex, true, gw).1,
        spec_handle_echo(f, ifindex, false, gw).2 == spec_handle_echo(f, ifindex, true, gw).2,
        spec_handle_echo(f, ifindex, false, gw).0 == TcAction::Pipe,
        spec_forward(f, ifindex, false, t).1 == spec_forward(f, ifindex, true, t).1,
        spec_forward(f, ifindex, false, t).2 == spec_forward(f, ifindex, true, t).2,
        spec_forward(f, ifindex, true, t).0 is Redirect ==> spec_forward(f, ifindex, false, t).0 == TcAction::Pipe,
        !(spec_forward(f, ifindex, false, t).0 is Redirect),
        spec_switch_frame(f, ifindex, false, macs).1 == spec_switch_frame(f, ifindex, true, macs).1,
        spec_switch_frame(f, ifindex, true, macs).0 is Redirect ==> spec_switch_frame(f, ifindex, false, macs).0
            == TcAction::Shot,
        !(spec_switch_frame(f, ifindex, false, macs).0 is Redirect),
{
}

/// The route lookup is a longest-prefix match: the route it finds holds the
/// address, and no route holding the address has a longer prefix; it finds
/// none only when no route holds the address.
pub proof fn lemma_lpm_is_longest_match(t: Seq<(u32, u32, RouteEntry)>, key_prefix: u32, addr: u32)
    ensures
        match lpm_best(t, key_prefix, addr) {
            Some((p, e)) => (exists|i: int|
                0 <= i < t.len() && t[i].0 == p && t[i].2 == e && route_matches(t[i], key_prefix, addr))
                && forall|j: int| 0 <= j < t.len() && route_matches(t[j], key_prefix, addr) ==> t[j].0 <= p,
            None => forall|j: int| 0 <= j < t.len() ==> !route_matches(t[j], key_prefix, addr),
        },
    decreases t.len(),
{
    if t.len() > 0 {
        let prev = t.drop_last();
        lemma_lpm_is_longest_match(prev, key_prefix, addr);
        let n = t.len() - 1;
        assert forall|j: int| 0 <= j < n implies t[j] == prev[j] by {}
        match lpm_best(t, key_prefix, addr) {
            Some((p, e)) => {
                if lpm_best(t, key_prefix, addr) != lpm_best(prev, key_prefix, addr) {
                    assert(t[n].0 == p && t[n].2 == e && route_matches(t[n], key_prefix, addr));
                } else {
                    let i = choose|i: int|
                        0 <= i < prev.len() && prev[i].0 == p && prev[i].2 == e && route_matches(prev[i], key_prefix, addr);
                    assert(t[i] == prev[i]);
                }
            },
            None => {},
        }
    }
}

/// The dataplane's prefix test is network membership as the `cidr` module
/// defines it: for a prefix of at most 32 bits, `ip` matches `addr/prefix`
/// exactly when the network `addr/prefix` contains `ip`.
pub proof fn lemma_prefix_match_is_membership(ip: u32, addr: u32, prefix: u8)
    requires
        prefix <= 32,
    ensures
        spec_prefix_match(ip, addr, prefix as u32) == (ip & prefix_mask(prefix) == addr & prefix_mask(prefix)),
{
    if prefix == 32 {
        assert(0xffff_ffffu32 << 0u32 == 0xffff_ffffu32) by (bit_vector);
    } else if prefix == 0 {
        assert(ip & 0u32 == addr & 0u32) by (bit_vector);
    }
}

/// An error of the kernel saying that what was asked for is there already:
/// its message mentions an existing file, errno 17, or an attachment that
/// exists.
pub open spec fn spec_is_eexist_error(message: Seq<char>) -> bool {
    has_substring(message, "File exists"@) || has_substring(message, "os error 17"@) || has_substring(
        message,
        "already attached"@,
    )
}

pub fn is_eexist_error(message: &str) -> (r: bool)
    ensures
        r == spec_is_eexist_error(message@),
{
    contains_text(message, "File exists") || contains_text(message, "os error 17") || contains_text(
        message,
        "already attached",
    )
}

/// An error of a program load saying the program is loaded already.
pub fn is_already_loaded_error(message: &str) -> (r: bool)
    ensures
        r == has_substring(message@, "already loaded"@),
{
    contains_text(message, "already loaded")
}

/// The switch never floods: it sends a frame out of one interface only, the
/// one its destination MAC address was learnt on, and never back out of the
/// arrival interface; a frame whose destination is unknown, or whose
/// redirect the kernel refuses, is dropped.
pub proof fn lemma_switch_never_floods(f: Seq<u8>, ifindex: u32, redirect_ok: bool, t: Seq<(Seq<u8>, u32)>)
    requires
        f.len() >= ETH_HDR_LEN,
        be16_at(f, 12) == ETHERTYPE_ARP || be16_at(f, 12) == ETHERTYPE_IPV4,
    ensures
        ({
            let (a, t2) = spec_switch_frame(f, ifindex, redirect_ok, t);
            &&& t2 == learn(t, f.subrange(6, 12), ifindex, MAC_TABLE_CAPACITY as nat)
            &&& a is Redirect ==> (find_first(t2, f.subrange(0, 6)) == Some(a->Redirect_0) && a->Redirect_0 != ifindex
                && redirect_ok)
            &&& find_first(t2, f.subrange(0, 6)) is None ==> a == TcAction::Shot
            &&& !redirect_ok ==> a == TcAction::Shot
            &&& a != TcAction::Pipe
        }),
{
}

/// The number of entries each map holds at most, as the eBPF program
/// declares them.
pub const BRIDGE_TABLE_CAPACITY: usize = 256;
pub const INTERFACES_CAPACITY: usize = 64;
pub const ARP_TABLE_CAPACITY: usize = 4096;

/// Inserts `(k, v)` into a table keyed by a 32-bit number (see `learn`).
pub fn insert_u32<V: Copy>(t: &mut Vec<(u32, V)>, k: u32, v: V, capacity: usize)
    ensures
        final(t)@ == learn(old(t)@, k, v, capacity as nat),
{
    let ghost old_t = t@;
    let mut i: usize = 0;
    while i < t.len()
        invariant
            t@ == old_t,
            old_t == old(t)@,
            i <= t@.len(),
            forall|j: int| 0 <= j < i ==> t@[j].0 != k,
        decreases t@.len() - i,
    {
        if t[i].0 == k {
            proof {
                lemma_first_hit(old_t, k, i as int);
                let c = choose|c: int| 0 <= c < old_t.len() && old_t[c].0 == k && forall|j: int| 0 <= j < c ==> old_t[j].0 != k;
                if c < i {
                    assert(old_t[c].0 != k);
                }
                if c > i {
                    assert(old_t[i as int].0 != k);
                }
                assert(first_index(old_t, k) == Some(i as int));
            }
            t.set(i, (k, v));
            return;
        }
        i = i + 1;
    }
    proof {
        assert(!(exists|c: int| 0 <= c < old_t.len() && old_t[c].0 == k));
    }
    if t.len() < capacity {
        t.push((k, v));
    }
}

impl Tables {
    /// Makes interface `ifindex` a member of bridge `bridge_id`.
    pub fn set_bridge_member(&mut self, ifindex: u32, bridge_id: u32)
        ensures
            final(self).bridge_table@ == learn(old(self).bridge_table@, ifindex, bridge_id, BRIDGE_TABLE_CAPACITY as nat),
            final(self).route_table == old(self).route_table,
            final(self).default_routes == old(self).default_routes,
            final(self).interfaces == old(self).interfaces,
            final(self).arp_table == old(self).arp_table,
    {
        insert_u32(&mut self.bridge_table, ifindex, bridge_id, BRIDGE_TABLE_CAPACITY);
    }

    /// Registers gateway `ip`/`mac` on interface `ifindex`.
    pub fn register_gateway(&mut self, ifindex: u32, ip: u32, mac: [u8; 6])
        ensures
            final(self).interfaces@ == learn(old(self).interfaces@, ifindex, Interface { ip, mac }, INTERFACES_CAPACITY as nat),
            final(self).route_table == old(self).route_table,
            final(self).default_routes == old(self).default_routes,
            final(self).bridge_table == old(self).bridge_table,
            final(self).arp_table == old(self).arp_table,
    {
        insert_u32(&mut self.interfaces, ifindex, Interface { ip, mac }, INTERFACES_CAPACITY);
    }

    /// Publishes that address `ip` of bridge `bridge_id` has MAC address `mac`.
    pub fn register_arp_entry(&mut self, bridge_id: u32, ip: u32, mac: [u8; 6])
        ensures
            arp_view(final(self).arp_table@) == learn(
                arp_view(old(self).arp_table@),
                ArpKey { bridge_id, ip },
                mac@,
                ARP_TABLE_CAPACITY as nat,
            ),
            final(self).route_table == old(self).route_table,
            final(self).default_routes == old(self).default_routes,
            final(self).bridge_table == old(self).bridge_table,
            final(self).interfaces == old(self).interfaces,
    {
        insert_arp(&mut self.arp_table, ArpKey { bridge_id, ip }, mac);
    }
}

fn insert_arp(t: &mut Vec<(ArpKey, [u8; 6])>, key: ArpKey, mac: [u8; 6])
    ensures
        arp_view(final(t)@) == learn(arp_view(old(t)@), key, mac@, ARP_TABLE_CAPACITY as nat),
{
    let ghost v = arp_view(t@);
    let mut i: usize = 0;
    while i < t.len()
        invariant
            v == arp_view(t@),
            v == arp_view(old(t)@),
            i <= t@.len(),
            forall|j: int| 0 <= j < i ==> v[j].0 != key,
        decreases t@.len() - i,
    {
        if t[i].0 == key {
            proof {
                lemma_first_hit(v, key, i as int);
                let c = choose|c: int| 0 <= c < v.len() && v[c].0 == key && forall|j: int| 0 <= j < c ==> v[j].0 != key;
                if c < i {
                    assert(v[c].0 != key);
                }
                if c > i {
                    assert(v[i as int].0 != key);
                }
                assert(first_index(v, key) == Some(i as int));
            }
            t.set(i, (key, mac));
            proof {
                assert(arp_view(t@) =~= v.update(i as int, (key, mac@)));
            }
            return;
        }
        i = i + 1;
    }
    proof {
        assert(!(exists|c: int| 0 <= c < v.len() && v[c].0 == key));
    }
    if t.len() < ARP_TABLE_CAPACITY {
        t.push((key, mac));
        proof {
            assert(arp_view(t@) =~= v.push((key, mac@)));
        }
    }
}

/// What a registration publishes, the ARP responder answers: once address
/// `ip` of bridge `bridge_id` is registered with `mac` (in a table with room
/// for it), an ARP request for `ip` arriving on a member interface of that
/// bridge whose gateway, if any, has another address, is answered in place
/// with `mac` and sent back out of that interface (passing on instead when
/// the kernel refuses the redirect).
pub proof fn lemma_registered_address_is_answered(
    t: Tables,
    t2: Tables,
    bridge_id: u32,
    ip: u32,
    mac: [u8; 6],
    f: Seq<u8>,
    in_ifindex: u32,
    redirect_ok: bool,
)
    requires
        arp_view(t2.arp_table@) == learn(arp_view(t.arp_table@), ArpKey { bridge_id, ip }, mac@, ARP_TABLE_CAPACITY as nat),
        t2.bridge_table == t.bridge_table,
        t2.interfaces == t.interfaces,
        first_index(arp_view(t.arp_table@), ArpKey { bridge_id, ip }) is Some || t.arp_table@.len() < ARP_TABLE_CAPACITY,
        find_first(t.bridge_table@, in_ifindex) == Some(bridge_id),
        find_first(t.interfaces@, in_ifindex) matches Some(gw) ==> gw.ip != ip,
        f.len() >= 42,
        be16_at(f, 20) == ARP_REQUEST,
        be32_at(f, 38) == ip,
    ensures
        spec_handle_arp(f, in_ifindex, redirect_ok, t2).0 == (if redirect_ok {
            TcAction::Redirect(in_ifindex)
        } else {
            TcAction::Pipe
        }),
        spec_handle_arp(f, in_ifindex, redirect_ok, t2).1.subrange(22, 28) == mac@,
        spec_handle_arp(f, in_ifindex, redirect_ok, t2).1.subrange(6, 12) == mac@,
{
    let key = ArpKey { bridge_id, ip };
    assert(arp_view(t.arp_table@).len() == t.arp_table@.len());
    lemma_learn_then_lookup(
        arp_view(t.arp_table@),
        key,
        mac@,
        ARP_TABLE_CAPACITY as nat,
        ArpKey { bridge_id, ip: if ip == 0 { 1 } else { 0 } },
    );
    assert(find_first(arp_view(t2.arp_table@), key) == Some(mac@));
    assert(arp_answer(t2, in_ifindex, bridge_id, ip) == Some(mac@));
    let g = spec_handle_arp(f, in_ifindex, redirect_ok, t2).1;
    assert(g.subrange(22, 28) =~= mac@);
    assert(g.subrange(6, 12) =~= mac@);
}

} // verus!
