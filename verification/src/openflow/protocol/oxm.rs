//! OXM TLVs: the match fields of `OpenFlow` 1.5.
use vstd::prelude::*;
use crate::bytes::{be16, be32, push_all, push_u16_be, push_u32_be};
use super::constants::{
    OFPXMT_OFB_ARP_OP, OFPXMT_OFB_ARP_SHA, OFPXMT_OFB_ARP_SPA, OFPXMT_OFB_ARP_TPA,
    OFPXMT_OFB_ETH_DST, OFPXMT_OFB_ETH_SRC, OFPXMT_OFB_ETH_TYPE, OFPXMT_OFB_ICMPV4_TYPE,
    OFPXMT_OFB_IN_PORT, OFPXMT_OFB_IP_PROTO, OFPXMT_OFB_IPV4_DST, OFPXMT_OFB_IPV4_SRC,
};

verus! {

/// A length that saturates at `u8::MAX`.
pub open spec fn sat_u8(n: int) -> u8 {
    if n <= 255 { n as u8 } else { 255u8 }
}

/// The 32-bit OXM header of the `OpenFlow` basic class: class `0x8000` in the
/// high half, then the field number, the has-mask bit and the payload length.
pub open spec fn oxm_header_value(field: u8, has_mask: bool, len: u8) -> u32 {
    (0x8000_0000int + field as int * 512 + (if has_mask { 256int } else { 0int }) + len as int) as u32
}

/// An unmasked OXM TLV carrying `value`.
pub open spec fn spec_oxm(field: u8, value: Seq<u8>) -> Seq<u8> {
    be32(oxm_header_value(field, false, sat_u8(value.len() as int))) + value
}

/// A masked OXM TLV carrying `value` followed by `mask`.
pub open spec fn spec_masked_oxm(field: u8, value: Seq<u8>, mask: Seq<u8>) -> Seq<u8> {
    be32(oxm_header_value(field, true, sat_u8(2 * value.len() as int))) + value + mask
}

/// An OXM id (a header without payload) as used by copy-field actions.
pub open spec fn spec_oxm_id(field: u8, len: u8) -> Seq<u8> {
    be32(oxm_header_value(field, false, len))
}

fn oxm_header(field: u8, has_mask: bool, len: u8) -> (h: u32)
    ensures
        h == oxm_header_value(field, has_mask, len),
{
    let mask_bit: u32 = if has_mask { 256 } else { 0 };
    0x8000_0000u32 + (field as u32) * 512 + mask_bit + (len as u32)
}

fn sat_len_u8(n: usize) -> (r: u8)
    ensures
        r == sat_u8(n as int),
{
    if n <= 255 { n as u8 } else { 255 }
}

fn push_oxm(out: &mut Vec<u8>, field: u8, value: &[u8])
    ensures
        final(out)@ == old(out)@ + spec_oxm(field, value@),
{
    let ghost start = out@;
    let h = oxm_header(field, false, sat_len_u8(value.len()));
    push_u32_be(out, h);
    push_all(out, value);
    assert(out@ =~= start + spec_oxm(field, value@));
}

fn push_masked_oxm(out: &mut Vec<u8>, field: u8, value: &[u8], mask: &[u8])
    ensures
        final(out)@ == old(out)@ + spec_masked_oxm(field, value@, mask@),
{
    let ghost start = out@;
    let len = if value.len() <= 127 { (value.len() * 2) as u8 } else { 255u8 };
    let h = oxm_header(field, true, len);
    push_u32_be(out, h);
    push_all(out, value);
    push_all(out, mask);
    assert(out@ =~= start + spec_masked_oxm(field, value@, mask@));
}

fn push_oxm_id(out: &mut Vec<u8>, field: u8, len: u8)
    ensures
        final(out)@ == old(out)@ + spec_oxm_id(field, len),
{
    push_u32_be(out, oxm_header(field, false, len));
}

/// The two OXM ids naming the source and destination of a copy-field action.
pub fn copy_field_ids(src_field: u8, src_len: u8, dst_field: u8, dst_len: u8) -> (r: Vec<u8>)
    ensures
        r@ == spec_oxm_id(src_field, src_len) + spec_oxm_id(dst_field, dst_len),
{
    let mut out = Vec::with_capacity(8);
    push_oxm_id(&mut out, src_field, src_len);
    push_oxm_id(&mut out, dst_field, dst_len);
    out
}

/// Match on the ingress port.
pub fn in_port(port: u32) -> (r: Vec<u8>)
    ensures
        r@ == spec_oxm(OFPXMT_OFB_IN_PORT, be32(port)),
{
    let mut bytes = Vec::new();
    push_u32_be(&mut bytes, port);
    let mut out = Vec::new();
    push_oxm(&mut out, OFPXMT_OFB_IN_PORT, bytes.as_slice());
    out
}

/// Match (or set) the Ethernet destination.
pub fn eth_dst(mac: [u8; 6]) -> (r: Vec<u8>)
    ensures
        r@ == spec_oxm(OFPXMT_OFB_ETH_DST, mac@),
{
    let mut out = Vec::new();
    push_oxm(&mut out, OFPXMT_OFB_ETH_DST, mac.as_slice());
    out
}

/// Match (or set) the Ethernet source.
pub fn eth_src(mac: [u8; 6]) -> (r: Vec<u8>)
    ensures
        r@ == spec_oxm(OFPXMT_OFB_ETH_SRC, mac@),
{
    let mut out = Vec::new();
    push_oxm(&mut out, OFPXMT_OFB_ETH_SRC, mac.as_slice());
    out
}

/// Match on the Ethernet type.
pub fn eth_type(ethertype: u16) -> (r: Vec<u8>)
    ensures
        r@ == spec_oxm(OFPXMT_OFB_ETH_TYPE, be16(ethertype)),
{
    let mut bytes = Vec::new();
    push_u16_be(&mut bytes, ethertype);
    let mut out = Vec::new();
    push_oxm(&mut out, OFPXMT_OFB_ETH_TYPE, bytes.as_slice());
    out
}

/// Match (or set) the IPv4 source.
pub fn ipv4_src(ip: [u8; 4]) -> (r: Vec<u8>)
    ensures
        r@ == spec_oxm(OFPXMT_OFB_IPV4_SRC, ip@),
{
    let mut out = Vec::new();
    push_oxm(&mut out, OFPXMT_OFB_IPV4_SRC, ip.as_slice());
    out
}

/// Match the IPv4 source under a mask.
pub fn ipv4_src_masked(ip: [u8; 4], mask: [u8; 4]) -> (r: Vec<u8>)
    ensures
        r@ == spec_masked_oxm(OFPXMT_OFB_IPV4_SRC, ip@, mask@),
{
    let mut out = Vec::new();
    push_masked_oxm(&mut out, OFPXMT_OFB_IPV4_SRC, ip.as_slice(), mask.as_slice());
    out
}

/// Match (or set) the IPv4 destination.
pub fn ipv4_dst(ip: [u8; 4]) -> (r: Vec<u8>)
    ensures
        r@ == spec_oxm(OFPXMT_OFB_IPV4_DST, ip@),
{
    let mut out = Vec::new();
    push_oxm(&mut out, OFPXMT_OFB_IPV4_DST, ip.as_slice());
    out
}

/// Match the IPv4 destination under a mask.
pub fn ipv4_dst_masked(ip: [u8; 4], mask: [u8; 4]) -> (r: Vec<u8>)
    ensures
        r@ == spec_masked_oxm(OFPXMT_OFB_IPV4_DST, ip@, mask@),
{
    let mut out = Vec::new();
    push_masked_oxm(&mut out, OFPXMT_OFB_IPV4_DST, ip.as_slice(), mask.as_slice());
    out
}

/// Match on the IP protocol number.
pub fn ip_proto(proto: u8) -> (r: Vec<u8>)
    ensures
        r@ == spec_oxm(OFPXMT_OFB_IP_PROTO, seq![proto]),
{
    let bytes = vec![proto];
    let mut out = Vec::new();
    push_oxm(&mut out, OFPXMT_OFB_IP_PROTO, bytes.as_slice());
    out
}

/// Match (or set) the ICMPv4 type.
pub fn icmpv4_type(icmp_type: u8) -> (r: Vec<u8>)
    ensures
        r@ == spec_oxm(OFPXMT_OFB_ICMPV4_TYPE, seq![icmp_type]),
{
    let bytes = vec![icmp_type];
    let mut out = Vec::new();
    push_oxm(&mut out, OFPXMT_OFB_ICMPV4_TYPE, bytes.as_slice());
    out
}

/// Match (or set) the ARP opcode.
pub fn arp_op(op: u16) -> (r: Vec<u8>)
    ensures
        r@ == spec_oxm(OFPXMT_OFB_ARP_OP, be16(op)),
{
    let mut bytes = Vec::new();
    push_u16_be(&mut bytes, op);
    let mut out = Vec::new();
    push_oxm(&mut out, OFPXMT_OFB_ARP_OP, bytes.as_slice());
    out
}

/// Match (or set) the ARP sender protocol address.
pub fn arp_spa(ip: [u8; 4]) -> (r: Vec<u8>)
    ensures
        r@ == spec_oxm(OFPXMT_OFB_ARP_SPA, ip@),
{
    let mut out = Vec::new();
    push_oxm(&mut out, OFPXMT_OFB_ARP_SPA, ip.as_slice());
    out
}

/// Match (or set) the ARP target protocol address.
pub fn arp_tpa(ip: [u8; 4]) -> (r: Vec<u8>)
    ensures
        r@ == spec_oxm(OFPXMT_OFB_ARP_TPA, ip@),
{
    let mut out = Vec::new();
    push_oxm(&mut out, OFPXMT_OFB_ARP_TPA, ip.as_slice());
    out
}

/// Match (or set) the ARP sender hardware address.
pub fn arp_sha(mac: [u8; 6]) -> (r: Vec<u8>)
    ensures
        r@ == spec_oxm(OFPXMT_OFB_ARP_SHA, mac@),
{
    let mut out = Vec::new();
    push_oxm(&mut out, OFPXMT_OFB_ARP_SHA, mac.as_slice());
    out
}

/// Every OXM TLV states its own payload length in its fourth byte, and the
/// class `0x8000` in its first two, when the payload is shorter than 256 bytes.
pub proof fn lemma_oxm_tlv_layout(field: u8, value: Seq<u8>)
    requires
        value.len() < 256,
    ensures
        spec_oxm(field, value).len() == 4 + value.len(),
        spec_oxm(field, value)[3] as int == value.len(),
        spec_oxm(field, value)[0] == 0x80,
        spec_oxm(field, value).subrange(4, 4 + value.len() as int) == value,
{
    let h = oxm_header_value(field, false, sat_u8(value.len() as int));
    assert(spec_oxm(field, value).subrange(4, 4 + value.len() as int) =~= value);
}

} // verus!
