use hull::database::{RouterRoute, Subnet, Switch, SwitchPort};
use hull::switches::{
    bridge_id, default_gateway_ip_from_cidr, plan_port_sync, plan_route, PlanError, PlaneAction, PortState,
};
use hull::dataplane::{handle_arp, Tables, TcAction};
use hull::switches::apply_action;
use hull::switches::parse_ifindex;

fn fnv(bytes: &[u8]) -> u32 {
    let mut h: u32 = 2_166_136_261;
    for b in bytes {
        h ^= u32::from(*b);
        h = h.wrapping_mul(16_777_619);
    }
    h
}

fn s(v: &str) -> String {
    v.to_string()
}

fn switch(uuid: &str, name: &str) -> Switch {
    Switch { uuid: s(uuid), name: s(name) }
}

fn subnet(uuid: &str, switch_uuid: &str, cidr: &str, gw: &str, gw_mac: &str) -> Subnet {
    Subnet {
        uuid: s(uuid),
        switch_uuid: s(switch_uuid),
        name: s("default"),
        cidr: s(cidr),
        gateway_ip: s(gw),
        gateway_mac: s(gw_mac),
    }
}

fn port(name: &str, switch_uuid: &str, subnet_uuid: &str, ip: &str, mac: &str) -> SwitchPort {
    SwitchPort {
        uuid: format!("{name}-uuid"),
        switch_uuid: s(switch_uuid),
        subnet_uuid: s(subnet_uuid),
        name: s(name),
        tap_name: s(name),
        ip: s(ip),
        mac: s(mac),
    }
}

#[test]
fn bridge_id_is_fnv1a_of_both_uuids() {
    assert_eq!(bridge_id("", ""), 2_166_136_261);
    assert_eq!(bridge_id("sw", "net"), fnv(b"swnet"));
    assert_eq!(bridge_id("a", "b"), 0x4d25_05ca);
    assert_ne!(bridge_id("sw-a", "subnet"), bridge_id("sw-b", "subnet"));
}

#[test]
fn default_gateway_is_first_host() {
    assert_eq!(default_gateway_ip_from_cidr("10.0.0.0/24").unwrap(), "10.0.0.1");
    assert_eq!(default_gateway_ip_from_cidr("10.0.0.77/24").unwrap(), "10.0.0.1");
    assert_eq!(default_gateway_ip_from_cidr("0.0.0.0/0").unwrap(), "0.0.0.1");
    assert!(matches!(default_gateway_ip_from_cidr("10.0.0.0/31"), Err(PlanError::NoUsableGateway(c)) if c == "10.0.0.0/31"));
    assert!(matches!(default_gateway_ip_from_cidr("10.0.0.0/33"), Err(PlanError::InvalidCidr(_))));
}

#[test]
fn port_sync_without_gateway() {
    let switches = vec![switch("sw1", "blue")];
    let subnets = vec![subnet("n1", "sw1", "10.0.0.0/24", "10.0.0.1", "52:54:00:00:00:01")];
    let p = PortState { port: port("tap0", "sw1", "n1", "10.0.0.2", "52:54:00:00:00:02"), ifindex: Some(7) };
    let (actions, err) = plan_port_sync(&p, &subnets, &switches, &vec![]);
    assert!(err.is_none());
    let bid = bridge_id("sw1", "n1");
    assert_eq!(
        actions,
        vec![
            PlaneAction::SetBridgeMember { ifindex: 7, bridge_id: bid },
            PlaneAction::RegisterArpEntry { bridge_id: bid, ip: 0x0a00_0002, mac: [0x52, 0x54, 0, 0, 0, 2] },
        ]
    );
}

#[test]
fn port_sync_with_gateway_and_errors() {
    let switches = vec![switch("sw1", "blue")];
    let subnets = vec![subnet("n1", "sw1", "10.0.0.0/24", "10.0.0.1", "52:54:00:00:00:01")];
    let p = PortState { port: port("tap0", "sw1", "n1", "10.0.0.2", "52:54:00:00:00:02"), ifindex: Some(7) };
    let (actions, err) = plan_port_sync(&p, &subnets, &switches, &vec![s("blue")]);
    assert!(err.is_none());
    assert_eq!(actions.len(), 4);
    assert_eq!(
        actions[3],
        PlaneAction::RegisterGateway { ifindex: 7, ip: 0x0a00_0001, mac: [0x52, 0x54, 0, 0, 0, 1] }
    );
    let none = PortState { ifindex: None, ..p.clone() };
    assert_eq!(plan_port_sync(&none, &subnets, &switches, &vec![]).0.len(), 0);
    let missing = PortState { port: port("tap1", "sw1", "zz", "10.0.0.3", "52:54:00:00:00:03"), ifindex: Some(8) };
    let (a, e) = plan_port_sync(&missing, &subnets, &switches, &vec![]);
    assert!(a.is_empty());
    assert!(matches!(e, Some(PlanError::MissingSubnet { subnet_uuid, port }) if subnet_uuid == "zz" && port == "tap1"));
    let bad_ip = PortState { port: port("tap2", "sw1", "n1", "10.0.0", "52:54:00:00:00:03"), ifindex: Some(9) };
    let (a, e) = plan_port_sync(&bad_ip, &subnets, &switches, &vec![]);
    assert_eq!(a.len(), 1);
    assert!(matches!(e, Some(PlanError::InvalidIpv4(t)) if t == "10.0.0"));
}

fn route(source: &str, destination: &str, nh: Option<&str>, nh_mac: Option<&str>, metric: u32) -> RouterRoute {
    RouterRoute {
        uuid: s("r1"),
        router_name: s("rt"),
        source: s(source),
        destination: s(destination),
        next_hop: nh.map(s),
        next_hop_mac: nh_mac.map(s),
        metric,
    }
}

#[test]
fn route_plan_finds_ingress_and_egress() {
    let switches = vec![switch("sw1", "a"), switch("sw2", "b")];
    let subnets = vec![
        subnet("n1", "sw1", "10.0.0.0/24", "10.0.0.1", "52:54:00:00:00:01"),
        subnet("n2", "sw2", "10.1.0.0/24", "10.1.0.1", "52:54:00:00:01:01"),
    ];
    let ports = vec![
        PortState { port: port("tapa", "sw1", "n1", "10.0.0.5", "52:54:00:00:00:05"), ifindex: Some(3) },
        PortState { port: port("tapb", "sw2", "n2", "10.1.0.9", "52:54:00:00:01:09"), ifindex: Some(4) },
    ];
    let attached = vec![s("a"), s("b")];
    let r = route("10.0.0.0/24", "192.168.0.0/16", Some("10.1.0.254"), Some("aa:bb:cc:dd:ee:ff"), 5);
    let program = plan_route(&r, &attached, &switches, &subnets, &ports).unwrap().unwrap();
    assert_eq!(program.src_ip, [10, 0, 0, 0]);
    assert_eq!(program.src_prefix_len, 24);
    assert_eq!(program.dst_ip, [192, 168, 0, 0]);
    assert_eq!(program.prefix_len, 16);
    assert_eq!(program.out_ifindex, 4);
    assert_eq!(program.next_hop_mac, [0xaa, 0xbb, 0xcc, 0xdd, 0xee, 0xff]);
    assert_eq!(program.src_mac, [0x52, 0x54, 0, 0, 1, 9]);
    assert_eq!(program.flags, 5);

    let only_a = vec![s("a")];
    assert!(plan_route(&r, &only_a, &switches, &subnets, &ports).unwrap().is_none());
    let no_nh = route("10.0.0.0/24", "192.168.0.0/16", None, None, 0);
    assert!(plan_route(&no_nh, &attached, &switches, &subnets, &ports).unwrap().is_none());
    let big = route("10.0.0.0/24", "192.168.0.0/16", Some("10.1.0.254"), Some("aa:bb:cc:dd:ee:ff"), 256);
    assert!(matches!(plan_route(&big, &attached, &switches, &subnets, &ports), Err(PlanError::MetricOutOfRange(256))));
    let bad = route("10.0.0.0/24", "nope", Some("10.1.0.254"), Some("aa:bb:cc:dd:ee:ff"), 0);
    assert!(matches!(plan_route(&bad, &attached, &switches, &subnets, &ports), Err(PlanError::InvalidCidr(c)) if c == "nope"));
}

#[test]
fn synced_port_is_answered_by_the_dataplane() {
    let switches = vec![switch("sw1", "blue")];
    let subnets = vec![subnet("n1", "sw1", "10.0.0.0/24", "10.0.0.1", "52:54:00:00:00:01")];
    let p = PortState { port: port("tap0", "sw1", "n1", "10.0.0.2", "52:54:00:00:00:02"), ifindex: Some(7) };
    let (actions, err) = plan_port_sync(&p, &subnets, &switches, &vec![s("blue")]);
    assert!(err.is_none());
    let mut t = Tables { bridge_table: vec![], route_table: vec![], default_routes: vec![], interfaces: vec![], arp_table: vec![] };
    for a in actions {
        apply_action(&mut t, a);
    }
    let mut req = vec![0xff; 6];
    req.extend([0x52, 0x54, 0, 0, 0, 9, 0x08, 0x06, 0, 1, 8, 0, 6, 4, 0, 1, 0x52, 0x54, 0, 0, 0, 9, 10, 0, 0, 9]);
    req.extend([0; 6]);
    req.extend([10, 0, 0, 2]);
    let out = handle_arp(&req, 7, true, &t);
    assert_eq!(out.action, TcAction::Redirect(7));
    assert_eq!(out.frame[22..28], [0x52, 0x54, 0, 0, 0, 2]);
    let gw = {
        let mut r = req.clone();
        r[41] = 1;
        r
    };
    assert_eq!(handle_arp(&gw, 7, true, &t).frame[22..28], [0x52, 0x54, 0, 0, 0, 1]);
}

#[test]
fn ifindex_file_contents() {
    assert_eq!(parse_ifindex("12\n"), Some(12));
    assert_eq!(parse_ifindex("  4294967295 \t"), Some(u32::MAX));
    assert_eq!(parse_ifindex("4294967296"), None);
    assert_eq!(parse_ifindex("x1"), None);
    assert_eq!(parse_ifindex("\n"), None);
}
