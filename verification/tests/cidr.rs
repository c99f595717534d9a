use hull::cidr::{mask_to_prefix, Ipv4Network, NetworkError};

fn ip(a: u8, b: u8, c: u8, d: u8) -> u32 {
    u32::from_be_bytes([a, b, c, d])
}

fn count(network: Ipv4Network) -> usize {
    let mut it = network.iter();
    let mut n = 0;
    while it.next().is_some() {
        n += 1;
    }
    n
}

fn collect(network: Ipv4Network) -> Vec<u32> {
    let mut it = network.iter();
    let mut out = Vec::new();
    while let Some(a) = it.next() {
        out.push(a);
    }
    out
}

#[test]
fn parses_and_calculates_network_bounds() -> Result<(), NetworkError> {
    let network: Ipv4Network = "10.1.9.32/16".parse()?;
    assert_eq!(network.network(), ip(10, 1, 0, 0));
    assert_eq!(network.broadcast(), ip(10, 1, 255, 255));
    assert_eq!(network.prefix(), 16);
    Ok(())
}

#[test]
fn contains_and_overlaps() -> Result<(), NetworkError> {
    let network: Ipv4Network = "10.0.0.0/24".parse()?;
    let overlap: Ipv4Network = "10.0.0.128/25".parse()?;
    let separate: Ipv4Network = "10.0.1.0/24".parse()?;
    assert!(network.contains(ip(10, 0, 0, 70)));
    assert!(network.overlaps(overlap));
    assert!(!network.overlaps(separate));
    Ok(())
}

#[test]
fn iterates_all_addresses() -> Result<(), NetworkError> {
    let network: Ipv4Network = "192.0.2.0/30".parse()?;
    assert_eq!(count(network), 4);
    Ok(())
}

#[test]
fn handles_boundary_prefixes() -> Result<(), NetworkError> {
    let all: Ipv4Network = "0.0.0.0/0".parse()?;
    let pair: Ipv4Network = "192.0.2.0/31".parse()?;
    let host: Ipv4Network = "192.0.2.1/32".parse()?;
    let last: Ipv4Network = "255.255.255.255/32".parse()?;
    assert!(all.contains(ip(255, 255, 255, 255)));
    assert_eq!(count(pair), 2);
    assert_eq!(collect(host), [ip(192, 0, 2, 1)]);
    assert_eq!(collect(last), [ip(255, 255, 255, 255)]);
    Ok(())
}

#[test]
fn rejects_invalid_cidrs() {
    assert!("10.0.0.0/33".parse::<Ipv4Network>().is_err());
    assert!("10.0.0.0/24/1".parse::<Ipv4Network>().is_err());
    assert!("not-an-ip/24".parse::<Ipv4Network>().is_err());
    assert!("10.0.0.0/255.0.255.0".parse::<Ipv4Network>().is_err());
}

#[test]
fn accepts_dotted_decimal_netmask() -> Result<(), NetworkError> {
    let network: Ipv4Network = "10.1.9.32/255.255.0.0".parse()?;
    assert_eq!(network.network(), ip(10, 1, 0, 0));
    assert_eq!(network.prefix(), 16);
    Ok(())
}

#[test]
fn address_without_prefix_is_a_host_network() -> Result<(), NetworkError> {
    let network: Ipv4Network = "192.168.1.7".parse()?;
    assert_eq!(network.prefix(), 32);
    assert_eq!(network.addr(), ip(192, 168, 1, 7));
    Ok(())
}

#[test]
fn parse_errors_name_the_problem() {
    assert!(matches!(
        Ipv4Network::parse("10.0.0.0/24/1"),
        Err(NetworkError::InvalidCidrFormat(s)) if s == "10.0.0.0/24/1"
    ));
    assert!(matches!(
        Ipv4Network::parse("not-an-ip/24"),
        Err(NetworkError::InvalidAddr(s)) if s == "not-an-ip"
    ));
    assert!(matches!(Ipv4Network::parse("10.0.0.0/33"), Err(NetworkError::InvalidPrefix)));
    assert!(matches!(Ipv4Network::parse("10.0.0.0/x"), Err(NetworkError::InvalidPrefix)));
}

#[test]
fn new_refuses_long_prefix() {
    assert!(matches!(Ipv4Network::new(0, 33), Err(NetworkError::InvalidPrefix)));
    assert_eq!(Ipv4Network::new(ip(10, 0, 0, 1), 8).unwrap().network(), ip(10, 0, 0, 0));
}

#[test]
fn netmask_to_prefix() {
    assert_eq!(mask_to_prefix(ip(255, 255, 255, 0)).unwrap(), 24);
    assert_eq!(mask_to_prefix(0).unwrap(), 0);
    assert_eq!(mask_to_prefix(u32::MAX).unwrap(), 32);
    assert!(mask_to_prefix(ip(255, 0, 255, 0)).is_err());
}

#[test]
fn overlap_is_symmetric_on_examples() -> Result<(), NetworkError> {
    let a: Ipv4Network = "10.0.0.0/8".parse()?;
    let b: Ipv4Network = "10.20.0.0/16".parse()?;
    let c: Ipv4Network = "11.0.0.0/8".parse()?;
    assert!(a.overlaps(b) && b.overlaps(a));
    assert!(!a.overlaps(c) && !c.overlaps(a));
    Ok(())
}
