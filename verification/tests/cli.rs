use hull::cli::{command_from_matches, parse_route_tail, request_from_matches, ArgMatches, CliError};
use hull::protocol::{Command, RouterCommand, RouterRouteCommand, SwitchCommand, SwitchPortCommand};
use hull::text::IntErrorKind;

fn level(values: &[(&str, &[&str])], sub: Option<(&str, ArgMatches)>) -> ArgMatches {
    ArgMatches {
        values: values
            .iter()
            .map(|(k, vs)| (k.to_string(), vs.iter().map(|v| v.to_string()).collect()))
            .collect(),
        subcommand: sub.map(|(n, m)| (n.to_string(), Box::new(m))),
    }
}

fn leaf(values: &[(&str, &[&str])]) -> ArgMatches {
    level(values, None)
}

fn chain(names: &[&str], values: &[(&str, &[&str])]) -> ArgMatches {
    let mut m = leaf(values);
    for name in names.iter().rev() {
        m = level(&[], Some((name, m)));
    }
    m
}

#[test]
fn route_tail_shapes() {
    let t = |v: &[&str]| parse_route_tail(&v.iter().map(|s| s.to_string()).collect::<Vec<_>>());
    assert_eq!(t(&[]).unwrap(), (None, None, 0));
    assert_eq!(t(&["7"]).unwrap(), (None, None, 7));
    assert_eq!(
        t(&["10.0.0.1", "aa:bb:cc:dd:ee:ff"]).unwrap(),
        (Some("10.0.0.1".to_string()), Some("aa:bb:cc:dd:ee:ff".to_string()), 0)
    );
    assert_eq!(t(&["10.0.0.1", "m", "9"]).unwrap().2, 9);
    assert!(matches!(t(&["x"]), Err(CliError::InvalidMetric(m)) if m == "x"));
    assert!(matches!(t(&["a", "b", "c", "d"]), Err(CliError::RouteTailShape)));
}

#[test]
fn top_level_commands() {
    assert!(matches!(command_from_matches(&chain(&["init"], &[])), Ok(Command::Init)));
    assert!(matches!(command_from_matches(&chain(&["deinit"], &[])), Ok(Command::Deinit)));
    assert!(matches!(command_from_matches(&chain(&["sync"], &[])), Ok(Command::Sync)));
    assert!(matches!(
        command_from_matches(&leaf(&[])),
        Err(CliError::Missing(m)) if m == "missing command; run 'hull --help'"
    ));
}

#[test]
fn switch_commands() {
    let m = chain(&["switch", "create"], &[("name", &["blue"]), ("ip", &["10.0.0.0"]), ("mask", &["24"])]);
    match request_from_matches(&m).unwrap().command {
        Command::Switch(SwitchCommand::Create { name, ip, mask }) => {
            assert_eq!((name.as_str(), ip.as_str(), mask), ("blue", "10.0.0.0", 24));
        }
        other => panic!("unexpected {other:?}"),
    }
    let bad = chain(&["switch", "create"], &[("name", &["blue"]), ("ip", &["10.0.0.0"]), ("mask", &["x"])]);
    assert!(matches!(command_from_matches(&bad), Err(CliError::InvalidMask(IntErrorKind::InvalidDigit))));
    let missing = chain(&["switch", "create"], &[("name", &["blue"])]);
    assert!(matches!(command_from_matches(&missing), Err(CliError::Missing(m)) if m == "missing switch ip"));
    let port = chain(&["switch", "port", "create"], &[("switch", &["blue"]), ("name", &["p1"]), ("mac", &["52:54:00:00:00:01"])]);
    match command_from_matches(&port).unwrap() {
        Command::Switch(SwitchCommand::Port(SwitchPortCommand::Create { switch, name, ip, mac })) => {
            assert_eq!((switch.as_str(), name.as_str()), ("blue", "p1"));
            assert_eq!(ip, None);
            assert_eq!(mac.as_deref(), Some("52:54:00:00:00:01"));
        }
        other => panic!("unexpected {other:?}"),
    }
    assert!(matches!(
        command_from_matches(&chain(&["switch", "port"], &[])),
        Err(CliError::Missing(m)) if m == "missing switch port subcommand; run 'hull switch port --help'"
    ));
    assert!(matches!(command_from_matches(&chain(&["switch", "ls"], &[])), Ok(Command::Switch(SwitchCommand::Ls))));
}

#[test]
fn router_commands() {
    let add = chain(
        &["router", "route", "add"],
        &[
            ("router", &["rt"]),
            ("source", &["10.0.0.0/24"]),
            ("destination", &["0.0.0.0/0"]),
            ("route_tail", &["10.0.0.254", "aa:bb:cc:dd:ee:ff", "4"]),
        ],
    );
    match command_from_matches(&add).unwrap() {
        Command::Router(RouterCommand::Route(RouterRouteCommand::Add { router, source, destination, next_hop, next_hop_mac, metric })) => {
            assert_eq!((router.as_str(), source.as_str(), destination.as_str()), ("rt", "10.0.0.0/24", "0.0.0.0/0"));
            assert_eq!(next_hop.as_deref(), Some("10.0.0.254"));
            assert_eq!(next_hop_mac.as_deref(), Some("aa:bb:cc:dd:ee:ff"));
            assert_eq!(metric, 4);
        }
        other => panic!("unexpected {other:?}"),
    }
    let attach = chain(&["router", "attach"], &[("router", &["rt"]), ("switch", &["blue"])]);
    assert!(matches!(command_from_matches(&attach), Ok(Command::Router(RouterCommand::Attach { .. }))));
    let show = chain(&["router", "show"], &[]);
    assert!(matches!(command_from_matches(&show), Err(CliError::Missing(m)) if m == "missing router name"));
    assert!(matches!(
        command_from_matches(&chain(&["router", "bogus"], &[])),
        Err(CliError::Missing(m)) if m == "missing router subcommand; run 'hull router --help'"
    ));
}
