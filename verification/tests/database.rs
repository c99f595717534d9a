use hull::database::{allocate_switch_port_ip, ensure_mac_or_generate, subnet_network, AllocError, Subnet};
use hull::ipnet::IpNet;

fn subnet(cidr: &str, gateway: &str) -> Subnet {
    Subnet {
        uuid: "n".to_string(),
        switch_uuid: "sw".to_string(),
        name: "default".to_string(),
        cidr: cidr.to_string(),
        gateway_ip: gateway.to_string(),
        gateway_mac: "52:54:00:00:00:01".to_string(),
    }
}

#[test]
fn allocation_skips_network_gateway_and_used() {
    let s = subnet("10.0.0.0/24", "10.0.0.1");
    assert_eq!(allocate_switch_port_ip(&s, &vec![]).unwrap(), "10.0.0.2");
    let used = vec!["10.0.0.2".to_string(), "10.0.0.3".to_string()];
    assert_eq!(allocate_switch_port_ip(&s, &used).unwrap(), "10.0.0.4");
}

#[test]
fn allocation_exhaustion_and_errors() {
    let s = subnet("10.0.0.0/30", "10.0.0.1");
    assert!(matches!(
        allocate_switch_port_ip(&s, &vec!["10.0.0.2".to_string()]),
        Err(AllocError::Exhausted(n)) if n == "default"
    ));
    assert!(matches!(allocate_switch_port_ip(&subnet("10.0.0.0/31", ""), &vec![]), Err(AllocError::Exhausted(_))));
    assert!(matches!(allocate_switch_port_ip(&subnet("bogus", ""), &vec![]), Err(AllocError::InvalidCidr(c)) if c == "bogus"));
    assert!(matches!(allocate_switch_port_ip(&subnet("fd00::/128", ""), &vec![]), Err(AllocError::Exhausted(_))));
}

#[test]
fn ipv6_subnets_get_addresses() {
    assert_eq!(allocate_switch_port_ip(&subnet("fd00::/64", ""), &vec![]).unwrap(), "fd00::1");
    assert_eq!(allocate_switch_port_ip(&subnet("fd00::/64", "fd00::1"), &vec![]).unwrap(), "fd00::2");
    let used = vec!["fd00::2".to_string(), "fd00::3".to_string()];
    assert_eq!(allocate_switch_port_ip(&subnet("fd00::/64", "fd00::1"), &used).unwrap(), "fd00::4");
    // No broadcast address is skipped in IPv6: the last address of a /127 is given out.
    assert_eq!(allocate_switch_port_ip(&subnet("fd00::/127", ""), &vec![]).unwrap(), "fd00::1");
    assert!(matches!(
        allocate_switch_port_ip(&subnet("fd00::/127", "fd00::1"), &vec![]),
        Err(AllocError::Exhausted(n)) if n == "default"
    ));
    assert_eq!(allocate_switch_port_ip(&subnet("2001:db8:0:1::/64", ""), &vec![]).unwrap(), "2001:db8:0:1::1");
    assert_eq!(allocate_switch_port_ip(&subnet("1:0:0:2:0:0:3:0/127", ""), &vec![]).unwrap(), "1::2:0:0:3:1");
    assert_eq!(allocate_switch_port_ip(&subnet("::ffff:10.0.0.0/120", ""), &vec![]).unwrap(), "::ffff:10.0.0.1");
    assert_eq!(
        allocate_switch_port_ip(&subnet("fd00:0:0:0:1:2:3:4/126", ""), &vec![]).unwrap(),
        "fd00::1:2:3:5"
    );
}

#[test]
fn subnet_network_reads_ipnetwork() {
    assert_eq!(subnet_network(&subnet("10.0.0.9/8", "")).unwrap(), IpNet::V4 { addr: 0x0a00_0009, prefix: 8 });
    assert!(matches!(subnet_network(&subnet("fd00::1/64", "")), Ok(IpNet::V6 { prefix: 64, .. })));
}

#[test]
fn mac_is_kept_or_generated() {
    assert_eq!(ensure_mac_or_generate(Some("52:54:00:aa:bb:cc")), "52:54:00:aa:bb:cc");
    assert!(ensure_mac_or_generate(None).starts_with("52:54:00:"));
}
