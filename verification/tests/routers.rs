use hull::database::RouterRoute;
use hull::openflow::protocol::action::Action;
use hull::openflow::protocol::instruction::Instruction;
use hull::routers::{
    cidr_is_covered, cidr_to_ipv4_masked, compute_gateway_ip, gateway_flows, inter_switch_flow, link_arp_flow,
    mask_to_ipv4_mask, route_flow, route_priority, RouterError,
};
use hull::database::RouterPort;
use hull::database::SwitchPort;
use hull::routers::link_nat_flows;
use hull::routers::list_attached_switches;
use hull::routers::router_link_flows;

fn route(source: &str, destination: &str, nh_mac: Option<&str>, metric: u32) -> RouterRoute {
    RouterRoute {
        uuid: "r".to_string(),
        router_name: "rt".to_string(),
        source: source.to_string(),
        destination: destination.to_string(),
        next_hop: None,
        next_hop_mac: nh_mac.map(|s| s.to_string()),
        metric,
    }
}

#[test]
fn masks_and_gateways() {
    assert_eq!(mask_to_ipv4_mask(0), [0, 0, 0, 0]);
    assert_eq!(mask_to_ipv4_mask(24), [255, 255, 255, 0]);
    assert_eq!(mask_to_ipv4_mask(32), [255, 255, 255, 255]);
    assert_eq!(mask_to_ipv4_mask(9), [255, 128, 0, 0]);
    assert_eq!(compute_gateway_ip("10.1.2.0").unwrap(), "10.1.2.1");
    assert_eq!(compute_gateway_ip("10.1.2.77").unwrap(), "10.1.2.1");
    assert!(matches!(compute_gateway_ip("x"), Err(RouterError::InvalidIpv4(t)) if t == "x"));
}

#[test]
fn masked_networks_from_ipnetwork() {
    assert_eq!(cidr_to_ipv4_masked("10.1.9.32/16").unwrap(), ([10, 1, 0, 0], [255, 255, 0, 0]));
    assert_eq!(cidr_to_ipv4_masked("10.1.9.32").unwrap(), ([10, 1, 9, 32], [255, 255, 255, 255]));
    assert_eq!(cidr_to_ipv4_masked("10.1.9.32/255.255.255.0").unwrap(), ([10, 1, 9, 0], [255, 255, 255, 0]));
    assert!(matches!(cidr_to_ipv4_masked("fe80::/64"), Err(RouterError::Ipv6Unsupported(_))));
    assert!(matches!(cidr_to_ipv4_masked("nope"), Err(RouterError::InvalidCidr(c)) if c == "nope"));
}

#[test]
fn coverage_of_networks() {
    let sources = vec!["10.0.0.0/8".to_string(), "junk".to_string()];
    assert!(cidr_is_covered("10.5.0.0/16", &sources));
    assert!(cidr_is_covered("0.0.0.0/0", &sources));
    assert!(!cidr_is_covered("11.0.0.0/8", &sources));
    assert!(!cidr_is_covered("junk", &sources));
    assert!(cidr_is_covered("fd00::/8", &vec!["fd00:1::/32".to_string()]));
    assert!(!cidr_is_covered("fd00::/8", &vec!["10.0.0.0/8".to_string()]));
}

#[test]
fn route_priorities() {
    assert_eq!(route_priority("10.0.0.0/24", 0), 249);
    assert_eq!(route_priority("10.0.0.0/24", 9), 240);
    assert_eq!(route_priority("10.0.0.0", 0), 225);
    assert_eq!(route_priority("10.0.0.0/x", 0), 225);
    assert_eq!(route_priority("10.0.0.0/24", 1000), 0);
}

#[test]
fn gateway_flow_shapes() {
    let rules = gateway_flows(0x77, "52:54:00:00:00:01", "10.0.0.1").unwrap();
    assert_eq!(rules.len(), 2);
    assert!(rules.iter().all(|r| r.priority == 280 && r.cookie == 0x77));
    assert_eq!(rules[0].of_match.oxms.len(), 3);
    assert_eq!(rules[1].of_match.oxms.len(), 4);
    let Instruction::ApplyActions(actions) = &rules[0].instructions[0];
    assert_eq!(actions.len(), 8);
    for r in &rules {
        let bytes = r.encode();
        assert_eq!(bytes.len() % 8, 0);
    }
    assert!(matches!(gateway_flows(1, "zz", "10.0.0.1"), Err(RouterError::InvalidMac(_))));
    assert!(matches!(gateway_flows(1, "52:54:00:00:00:01", "10.0.0"), Err(RouterError::InvalidIpv4(_))));
}

#[test]
fn link_and_inter_switch_flows() {
    let link = link_arp_flow(5, 3, "52:54:00:00:00:09", "192.0.2.10").unwrap();
    assert_eq!(link.priority, 231);
    assert_eq!(link.of_match.oxms[1], vec![0x80, 0x00, 0, 4, 0, 0, 0, 3]);
    let hop = inter_switch_flow(5, "52:54:00:00:00:01", "52:54:00:00:00:02", "52:54:00:00:00:03", "10.1.0.5", 12).unwrap();
    assert_eq!(hop.priority, 265);
    let Instruction::ApplyActions(actions) = &hop.instructions[0];
    assert_eq!(actions[2], Action::DecNwTtl);
    assert_eq!(actions[3], Action::output(12));
    assert!(matches!(
        inter_switch_flow(5, "52:54:00:00:00:01", "bad", "52:54:00:00:00:03", "10.1.0.5", 12),
        Err(RouterError::InvalidMac(m)) if m == "bad"
    ));
}

#[test]
fn route_flow_shape() {
    let r = route("10.0.0.0/24", "10.1.0.0/16", Some("aa:bb:cc:dd:ee:ff"), 1);
    let rule = route_flow(9, &r, &vec![4, 5]).unwrap();
    assert_eq!(rule.priority, 240);
    let Instruction::ApplyActions(actions) = &rule.instructions[0];
    assert_eq!(actions.len(), 3);
    assert_eq!(actions[1], Action::output(4));
    assert_eq!(
        rule.of_match.oxms[1],
        vec![0x80, 0x00, (11 << 1) | 1, 8, 10, 0, 0, 0, 255, 255, 255, 0]
    );
    let bad = route("10.0.0.0/24", "fe80::/10", None, 0);
    assert!(matches!(route_flow(9, &bad, &vec![]), Err(RouterError::Ipv6Unsupported(_))));
}

#[test]
fn link_nat_flow_texts() {
    let routes = vec![
        route("10.0.0.0/24", "0.0.0.0/0", Some("aa:bb:cc:dd:ee:ff"), 0),
        route("10.0.0.0/24", "10.1.0.0/24", None, 0),
    ];
    let attached = vec!["10.0.0.0/24".to_string(), "10.1.0.0/24".to_string(), "10.9.0.0/24".to_string()];
    let flows = link_nat_flows("rt", Some("192.0.2.10"), Some("52:54:00:00:00:09"), "eth1", &attached, &routes).unwrap();
    assert_eq!(
        flows,
        vec![
            "priority=235,in_port=eth1,ip,nw_dst=192.0.2.10,actions=ct(zone=1,nat,table=0)".to_string(),
            "priority=225,ct_state=+new+trk,ip,nw_src=10.0.0.0/24,nw_dst=0.0.0.0/0,actions=ct(commit,zone=1,nat(src=192.0.2.10)),mod_dl_src:52:54:00:00:00:09,mod_dl_dst:aa:bb:cc:dd:ee:ff,dec_ttl,output:eth1".to_string(),
            "priority=225,ct_state=+est+trk,ip,nw_src=10.0.0.0/24,nw_dst=0.0.0.0/0,actions=ct(zone=1,nat),mod_dl_src:52:54:00:00:00:09,mod_dl_dst:aa:bb:cc:dd:ee:ff,dec_ttl,output:eth1".to_string(),
            "priority=220,ct_state=+new+trk,ip,nw_src=10.1.0.0/24,actions=drop".to_string(),
            "priority=220,ct_state=+new+trk,ip,nw_src=10.9.0.0/24,actions=drop".to_string(),
        ]
    );
    assert!(matches!(link_nat_flows("rt", None, Some("m"), "p", &attached, &routes), Err(RouterError::NoLinkIp(n)) if n == "rt"));
    assert!(matches!(link_nat_flows("rt", Some("i"), None, "p", &attached, &routes), Err(RouterError::NoLinkMac(n)) if n == "rt"));
}

#[test]
fn link_port_flow_texts() {
    let ports = vec![SwitchPort {
        uuid: "u".to_string(),
        switch_uuid: "s".to_string(),
        subnet_uuid: "n".to_string(),
        name: "p1".to_string(),
        tap_name: "tap1".to_string(),
        ip: "10.0.0.5".to_string(),
        mac: "52:54:00:00:00:05".to_string(),
    }];
    let flows = router_link_flows(&Some("52:54:00:00:00:09".to_string()), "10.0.0.0/24", "eth1", &ports);
    assert_eq!(flows[0], "priority=224,ip,nw_src=10.0.0.0/24,ct_state=-trk,actions=ct(table=0,zone=1)");
    assert_eq!(
        flows[1],
        "priority=230,in_port=eth1,ip,nw_dst=10.0.0.5,actions=ct(commit,zone=1),mod_dl_src:52:54:00:00:00:09,mod_dl_dst:52:54:00:00:00:05,dec_ttl,output:tap1"
    );
    let plain = router_link_flows(&None, "10.0.0.0/24", "eth1", &ports);
    assert_eq!(
        plain[1],
        "priority=230,in_port=eth1,ip,nw_dst=10.0.0.5,actions=ct(commit,zone=1),mod_dl_dst:52:54:00:00:00:05,dec_ttl,output:tap1"
    );
}

#[test]
fn attached_switch_names() {
    let ports = vec![
        RouterPort { uuid: "1".to_string(), router_name: "rt".to_string(), switch_name: "a".to_string() },
        RouterPort { uuid: "2".to_string(), router_name: "rt".to_string(), switch_name: "b".to_string() },
    ];
    assert_eq!(list_attached_switches(&ports), vec!["a".to_string(), "b".to_string()]);
}
