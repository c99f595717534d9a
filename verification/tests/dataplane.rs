use hull::dataplane::{
    forward, handle_arp, handle_echo, hull_ingress, hull_router, ipv4_prefix_match, learn_mac, lookup_mac,
    lpm_lookup, switch_frame, ArpKey, ChecksumLayer, ChecksumUpdate, Interface, RouteEntry, Tables, TcAction,
};
use hull::dataplane::{insert_u32, is_already_loaded_error, is_eexist_error};

const A: [u8; 6] = [0x52, 0x54, 0, 0, 0, 0xa];
const B: [u8; 6] = [0x52, 0x54, 0, 0, 0, 0xb];
const GW: [u8; 6] = [0x52, 0x54, 0, 0, 0, 0x1];

fn eth(dst: [u8; 6], src: [u8; 6], ethertype: u16) -> Vec<u8> {
    let mut f = Vec::new();
    f.extend(dst);
    f.extend(src);
    f.extend(ethertype.to_be_bytes());
    f
}

fn ipv4(dst_mac: [u8; 6], src_mac: [u8; 6], src: u32, dst: u32, ttl: u8, proto: u8) -> Vec<u8> {
    let mut f = eth(dst_mac, src_mac, 0x0800);
    f.extend([0x45, 0, 0, 28, 0, 1, 0, 0, ttl, proto, 0xab, 0xcd]);
    f.extend(src.to_be_bytes());
    f.extend(dst.to_be_bytes());
    f.extend([8, 0, 0x12, 0x34, 0, 1, 0, 1]);
    f
}

fn arp_request(sender_mac: [u8; 6], sender_ip: u32, target_ip: u32) -> Vec<u8> {
    let mut f = eth([0xff; 6], sender_mac, 0x0806);
    f.extend([0, 1, 8, 0, 6, 4, 0, 1]);
    f.extend(sender_mac);
    f.extend(sender_ip.to_be_bytes());
    f.extend([0; 6]);
    f.extend(target_ip.to_be_bytes());
    f
}

fn entry(out: u32, src_network: u32, src_prefix_len: u32) -> RouteEntry {
    RouteEntry { out_ifindex: out, src_prefix_len, src_network, src_mac: GW, next_hop_mac: B, flags: 0, _pad: [0; 3] }
}

fn tables() -> Tables {
    Tables {
        bridge_table: vec![(1, 100), (2, 100)],
        route_table: vec![(8, 0x0a00_0000, entry(20, 0, 0)), (16, 0x0a01_0000, entry(21, 0, 0)), (0, 0, entry(22, 0, 0))],
        default_routes: vec![],
        interfaces: vec![(1, Interface { ip: 0x0a00_0001, mac: GW })],
        arp_table: vec![(ArpKey { bridge_id: 100, ip: 0x0a00_0002 }, B)],
    }
}

#[test]
fn prefix_match_edges() {
    assert!(ipv4_prefix_match(0x0a00_0005, 0x0a00_0000, 24));
    assert!(!ipv4_prefix_match(0x0a00_0105, 0x0a00_0000, 24));
    assert!(ipv4_prefix_match(1, 2, 0));
    assert!(!ipv4_prefix_match(1, 1, 33));
    assert!(ipv4_prefix_match(7, 7, 32));
    assert!(!ipv4_prefix_match(7, 6, 32));
}

#[test]
fn mac_learning_and_switching() {
    let mut t = Vec::new();
    learn_mac(&mut t, A, 1);
    assert_eq!(lookup_mac(&t, &A), Some(1));
    learn_mac(&mut t, A, 3);
    assert_eq!(t.len(), 1);
    assert_eq!(lookup_mac(&t, &A), Some(3));
    let mut macs = vec![(B, 2)];
    assert_eq!(switch_frame(&eth(B, A, 0x0800), 1, true, &mut macs), TcAction::Redirect(2));
    assert_eq!(lookup_mac(&macs, &A), Some(1));
    assert_eq!(switch_frame(&eth(A, B, 0x0806), 2, true, &mut macs), TcAction::Redirect(1));
    assert_eq!(switch_frame(&eth(B, A, 0x0800), 2, true, &mut macs), TcAction::Shot);
    assert_eq!(switch_frame(&eth(GW, A, 0x0800), 1, true, &mut macs), TcAction::Shot);
    assert_eq!(switch_frame(&eth(B, A, 0x86dd), 1, true, &mut macs), TcAction::Pipe);
    assert_eq!(switch_frame(&[0u8; 10], 1, true, &mut macs), TcAction::Pipe);
}

#[test]
fn arp_requests_are_answered() {
    let t = tables();
    let req = arp_request(A, 0x0a00_0005, 0x0a00_0002);
    let out = handle_arp(&req, 2, true, &t);
    assert_eq!(out.action, TcAction::Redirect(2));
    let f = out.frame;
    assert_eq!(f[0..6], A);
    assert_eq!(f[6..12], B);
    assert_eq!(f[20..22], [0, 2]);
    assert_eq!(f[22..28], B);
    assert_eq!(f[28..32], [10, 0, 0, 2]);
    assert_eq!(f[32..38], A);
    assert_eq!(f[38..42], [10, 0, 0, 5]);
    let gw = handle_arp(&arp_request(A, 0x0a00_0005, 0x0a00_0001), 1, true, &t);
    assert_eq!(gw.frame[22..28], GW);
    assert_eq!(handle_arp(&arp_request(A, 0x0a00_0005, 0x0a00_0009), 2, true, &t).action, TcAction::Pipe);
    assert_eq!(handle_arp(&req, 9, true, &t).action, TcAction::Pipe);
    let mut reply = req.clone();
    reply[21] = 2;
    assert_eq!(handle_arp(&reply, 2, true, &t).action, TcAction::Pipe);
}

#[test]
fn echo_requests_to_gateway_are_answered() {
    let gw = Interface { ip: 0x0a00_0001, mac: GW };
    let f = ipv4(GW, A, 0x0a00_0005, 0x0a00_0001, 64, 1);
    let out = handle_echo(&f, 1, true, &gw);
    assert_eq!(out.action, TcAction::Redirect(1));
    assert_eq!(out.frame[0..6], A);
    assert_eq!(out.frame[6..12], GW);
    assert_eq!(out.frame[26..30], [10, 0, 0, 1]);
    assert_eq!(out.frame[30..34], [10, 0, 0, 5]);
    assert_eq!(out.frame[34], 0);
    assert_eq!(out.checksums.len(), 3);
    assert_eq!(
        out.checksums[2],
        ChecksumUpdate { layer: ChecksumLayer::L4, offset: 36, from: 0x0800, to: 0, size: 2 }
    );
    let mut reply = f.clone();
    reply[34] = 0;
    assert_eq!(handle_echo(&reply, 1, true, &gw).action, TcAction::Pipe);
}

#[test]
fn forwarding_uses_longest_prefix() {
    let t = tables();
    assert_eq!(lpm_lookup(&t.route_table, 32, 0x0a01_0203).unwrap().out_ifindex, 21);
    assert_eq!(lpm_lookup(&t.route_table, 32, 0x0a02_0203).unwrap().out_ifindex, 20);
    assert_eq!(lpm_lookup(&t.route_table, 32, 0x0b00_0001).unwrap().out_ifindex, 22);
    assert_eq!(lpm_lookup(&t.route_table, 0, 0).unwrap().out_ifindex, 22);
    let f = ipv4(GW, A, 0x0a00_0005, 0x0a01_0009, 64, 6);
    let out = forward(&f, 1, true, &t);
    assert_eq!(out.action, TcAction::Redirect(21));
    assert_eq!(out.frame[22], 63);
    assert_eq!(out.frame[0..6], B);
    assert_eq!(out.frame[6..12], GW);
    assert_eq!(
        out.checksums,
        vec![ChecksumUpdate { layer: ChecksumLayer::L3, offset: 24, from: 64 * 256 + 6, to: 63 * 256 + 6, size: 2 }]
    );
    assert_eq!(forward(&ipv4(GW, A, 1, 0x0a01_0009, 1, 6), 1, true, &t).action, TcAction::Shot);
    assert_eq!(forward(&ipv4(GW, A, 1, u32::MAX, 9, 6), 1, true, &t).action, TcAction::Pipe);
    let mut frag = f.clone();
    frag[20] = 0x20;
    assert_eq!(forward(&frag, 1, true, &t).action, TcAction::Pipe);
    let mut strict = tables();
    strict.default_routes = vec![(1, entry(30, 0xc0a8_0000, 16))];
    assert_eq!(forward(&f, 1, true, &strict).action, TcAction::Pipe);
    assert_eq!(forward(&ipv4(GW, A, 0xc0a8_0101, 9, 9, 6), 1, true, &strict).action, TcAction::Redirect(30));
}

#[test]
fn router_and_ingress_programs() {
    let t = tables();
    let mut macs = vec![(B, 2)];
    let echo = ipv4(GW, A, 0x0a00_0005, 0x0a00_0001, 64, 1);
    assert_eq!(hull_router(&echo, 1, &t, true, true, &mut macs).action, TcAction::Redirect(1));
    let to_b = ipv4(B, A, 0x0a00_0005, 0x0a00_0001, 64, 1);
    assert_eq!(hull_ingress(&to_b, 1, &t, true, true, &mut macs).action, TcAction::Redirect(2));
    assert_eq!(lookup_mac(&macs, &A), Some(1));
    let other = eth(B, A, 0x86dd);
    assert_eq!(hull_ingress(&other, 1, &t, true, true, &mut macs).action, TcAction::Pipe);
    assert_eq!(hull_ingress(&[0u8; 4], 1, &t, true, true, &mut macs).action, TcAction::Pipe);
}

#[test]
fn control_plane_updates_the_maps() {
    let mut t = Tables { bridge_table: vec![], route_table: vec![], default_routes: vec![], interfaces: vec![], arp_table: vec![] };
    t.set_bridge_member(5, 900);
    t.set_bridge_member(5, 901);
    assert_eq!(t.bridge_table, vec![(5, 901)]);
    t.register_arp_entry(901, 0x0a00_0007, A);
    t.register_gateway(5, 0x0a00_0001, GW);
    let out = handle_arp(&arp_request(B, 0x0a00_0009, 0x0a00_0007), 5, true, &t);
    assert_eq!(out.action, TcAction::Redirect(5));
    assert_eq!(out.frame[22..28], A);
    let mut small: Vec<(u32, u32)> = vec![(1, 1)];
    insert_u32(&mut small, 2, 2, 1);
    assert_eq!(small, vec![(1, 1)]);
    insert_u32(&mut small, 1, 7, 1);
    assert_eq!(small, vec![(1, 7)]);
    assert!(is_eexist_error("Netlink error: File exists (os error 17)"));
    assert!(is_eexist_error("program already attached"));
    assert!(!is_eexist_error("permission denied"));
    assert!(is_already_loaded_error("the program is already loaded"));
    assert!(!is_already_loaded_error(""));
}

#[test]
fn refused_redirects_fall_back() {
    let t = tables();
    let mut macs = vec![(B, 2)];
    assert_eq!(switch_frame(&eth(B, A, 0x0800), 1, false, &mut macs), TcAction::Shot);
    assert_eq!(lookup_mac(&macs, &A), Some(1));
    let req = arp_request(A, 0x0a00_0005, 0x0a00_0002);
    let answered = handle_arp(&req, 2, true, &t);
    let refused = handle_arp(&req, 2, false, &t);
    assert_eq!(refused.action, TcAction::Pipe);
    assert_eq!(refused.frame, answered.frame);
    let gw = Interface { ip: 0x0a00_0001, mac: GW };
    let echo = ipv4(GW, A, 0x0a00_0005, 0x0a00_0001, 64, 1);
    let refused = handle_echo(&echo, 1, false, &gw);
    assert_eq!(refused.action, TcAction::Pipe);
    assert_eq!(refused.frame, handle_echo(&echo, 1, true, &gw).frame);
    assert_eq!(refused.checksums.len(), 3);
    let f = ipv4(GW, A, 0x0a00_0005, 0x0a01_0009, 64, 6);
    let refused = forward(&f, 1, false, &t);
    assert_eq!(refused.action, TcAction::Pipe);
    assert_eq!(refused.frame[22], 63);
    assert_eq!(refused.checksums.len(), 1);
    // The reply whose redirect was refused goes on to the switch as it was rewritten.
    let mut macs = vec![(A, 3)];
    let out = hull_router(&req, 2, &t, false, true, &mut macs);
    assert_eq!(out.action, TcAction::Redirect(3));
    assert_eq!(out.frame, answered.frame);
    assert_eq!(lookup_mac(&macs, &B), Some(2));
    let out = hull_ingress(&req, 2, &t, false, false, &mut macs);
    assert_eq!(out.action, TcAction::Shot);
}
