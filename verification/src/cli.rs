//! Turning a parsed command line into a request for the daemon.
//!
//! The command line is parsed into `ArgMatches`: at each level, the values
//! given for each argument and the subcommand chosen below it.
use vstd::prelude::*;
use vstd::string::StringExecFns;
use crate::config::text_eq;
use crate::protocol::{
    Command, Request, RouterCommand, RouterRouteCommand, SwitchCommand, SwitchPortCommand,
};
use crate::text::{IntErrorKind, chars_of, int_error_kind, parse_unsigned, spec_int_error, spec_parse_unsigned};

verus! {

/// One level of a parsed command line.
#[derive(Debug)]
pub struct ArgMatches {
    /// The values given for each argument, by argument id.
    pub values: Vec<(String, Vec<String>)>,
    /// The subcommand given at this level, with its own arguments.
    pub subcommand: Option<(String, Box<ArgMatches>)>,
}

/// Why a command line does not make a request.
#[derive(Debug, Clone)]
pub enum CliError {
    /// A subcommand or argument is missing; the message says which.
    Missing(String),
    /// The switch mask is not a number from 0 to 255.
    InvalidMask(IntErrorKind),
    /// The route metric is not a 32-bit number.
    InvalidMetric(String),
    /// The values after a route's networks have the wrong shape.
    RouteTailShape,
}

pub enum CliErrorView {
    Missing(Seq<char>),
    InvalidMask(IntErrorKind),
    InvalidMetric(Seq<char>),
    RouteTailShape,
}

impl View for CliError {
    type V = CliErrorView;

    open spec fn view(&self) -> CliErrorView {
        match self {
            CliError::Missing(m) => CliErrorView::Missing(m@),
            CliError::InvalidMask(k) => CliErrorView::InvalidMask(*k),
            CliError::InvalidMetric(t) => CliErrorView::InvalidMetric(t@),
            CliError::RouteTailShape => CliErrorView::RouteTailShape,
        }
    }
}

/// The values of the first entry of `values` for argument `key`.
pub open spec fn arg_values(values: Seq<(String, Vec<String>)>, key: Seq<char>) -> Option<Seq<String>>
    decreases values.len(),
{
    if values.len() == 0 {
        None
    } else if values[0].0@ == key {
        Some(values[0].1@)
    } else {
        arg_values(values.drop_first(), key)
    }
}

/// The first value given for argument `key`, if any.
pub open spec fn spec_get_one(m: ArgMatches, key: Seq<char>) -> Option<String> {
    match arg_values(m.values@, key) {
        Some(v) => if v.len() > 0 {
            Some(v[0])
        } else {
            None
        },
        None => None,
    }
}

/// All values given for argument `key`.
pub open spec fn spec_get_many(m: ArgMatches, key: Seq<char>) -> Seq<String> {
    match arg_values(m.values@, key) {
        Some(v) => v,
        None => Seq::empty(),
    }
}

fn find_arg(m: &ArgMatches, key: &str) -> (r: Option<usize>)
    ensures
        match arg_values(m.values@, key@) {
            Some(v) => r matches Some(k) && k < m.values@.len() && m.values@[k as int].1@ == v,
            None => r is None,
        },
{
    let mut i: usize = 0;
    assert(m.values@.skip(0) =~= m.values@);
    while i < m.values.len()
        invariant
            i <= m.values@.len(),
            arg_values(m.values@, key@) == arg_values(m.values@.skip(i as int), key@),
        decreases m.values@.len() - i,
    {
        proof {
            assert(m.values@.skip(i as int).drop_first() =~= m.values@.skip(i + 1));
            assert(m.values@.skip(i as int)[0] == m.values@[i as int]);
        }
        if text_eq(m.values[i].0.as_str(), key) {
            return Some(i);
        }
        i = i + 1;
    }
    proof {
        assert(m.values@.skip(m.values@.len() as int) =~= Seq::<(String, Vec<String>)>::empty());
    }
    None
}

/// The first value given for argument `key`, if any.
pub fn get_one(m: &ArgMatches, key: &str) -> (r: Option<String>)
    ensures
        r == spec_get_one(*m, key@),
{
    match find_arg(m, key) {
        Some(k) => if m.values[k].1.len() > 0 {
            Some(m.values[k].1[0].clone())
        } else {
            None
        },
        None => None,
    }
}

/// All values given for argument `key`, in order.
pub fn get_many(m: &ArgMatches, key: &str) -> (r: Vec<String>)
    ensures
        r@ == spec_get_many(*m, key@),
{
    match find_arg(m, key) {
        Some(k) => m.values[k].1.clone(),
        None => Vec::new(),
    }
}

/// The value of a required argument, or the error `msg`.
pub open spec fn spec_required(m: ArgMatches, key: Seq<char>, msg: Seq<char>) -> Result<String, CliErrorView> {
    match spec_get_one(m, key) {
        Some(v) => Ok(v),
        None => Err(CliErrorView::Missing(msg)),
    }
}

pub fn required_string(m: &ArgMatches, key: &str, msg: &str) -> (r: Result<String, CliError>)
    ensures
        match spec_required(*m, key@, msg@) {
            Ok(v) => r == Ok::<String, CliError>(v),
            Err(e) => r matches Err(err) && err@ == e,
        },
{
    match get_one(m, key) {
        Some(v) => Ok(v),
        None => Err(CliError::Missing(String::from_str(msg))),
    }
}

/// What the values after a route's networks mean: nothing, a metric, a next
/// hop and its MAC address, or a next hop, its MAC address and a metric.
pub open spec fn spec_route_tail(t: Seq<String>) -> Result<(Option<String>, Option<String>, u32), CliErrorView> {
    if t.len() == 0 {
        Ok((None, None, 0))
    } else if t.len() == 1 {
        match spec_parse_unsigned(t[0]@, u32::MAX as nat) {
            Some(v) => Ok((None, None, v as u32)),
            None => Err(CliErrorView::InvalidMetric(t[0]@)),
        }
    } else if t.len() == 2 {
        Ok((Some(t[0]), Some(t[1]), 0))
    } else if t.len() == 3 {
        match spec_parse_unsigned(t[2]@, u32::MAX as nat) {
            Some(v) => Ok((Some(t[0]), Some(t[1]), v as u32)),
            None => Err(CliErrorView::InvalidMetric(t[2]@)),
        }
    } else {
        Err(CliErrorView::RouteTailShape)
    }
}

fn parse_metric(text: &String) -> (r: Result<u32, CliError>)
    ensures
        match spec_parse_unsigned(text@, u32::MAX as nat) {
            Some(v) => r == Ok::<u32, CliError>(v as u32),
            None => r matches Err(e) && e@ == CliErrorView::InvalidMetric(text@),
        },
{
    let chars = chars_of(text.as_str());
    match parse_unsigned(chars.as_slice(), 0xffff_ffff) {
        Some(v) => Ok(v as u32),
        None => Err(CliError::InvalidMetric(text.clone())),
    }
}

/// Reads the values after a route's networks (see `spec_route_tail`).
pub fn parse_route_tail(route_tail: &[String]) -> (r: Result<(Option<String>, Option<String>, u32), CliError>)
    ensures
        match spec_route_tail(route_tail@) {
            Ok(v) => r == Ok::<(Option<String>, Option<String>, u32), CliError>(v),
            Err(e) => r matches Err(err) && err@ == e,
        },
{
    let n = route_tail.len();
    if n == 0 {
        Ok((None, None, 0))
    } else if n == 1 {
        match parse_metric(&route_tail[0]) {
            Ok(v) => Ok((None, None, v)),
            Err(e) => Err(e),
        }
    } else if n == 2 {
        Ok((Some(route_tail[0].clone()), Some(route_tail[1].clone()), 0))
    } else if n == 3 {
        match parse_metric(&route_tail[2]) {
            Ok(v) => Ok((Some(route_tail[0].clone()), Some(route_tail[1].clone()), v)),
            Err(e) => Err(e),
        }
    } else {
        Err(CliError::RouteTailShape)
    }
}

/// The subcommand at this level is named `name`.
pub open spec fn sub_is(m: ArgMatches, name: Seq<char>) -> bool {
    m.subcommand matches Some((n, _)) && n@ == name
}

/// The arguments of the subcommand at this level.
pub open spec fn sub_matches(m: ArgMatches) -> ArgMatches {
    *m.subcommand.unwrap().1
}

/// The `hull switch port ...` command.
pub open spec fn spec_port_command(m: ArgMatches) -> Result<Command, CliErrorView> {
    if sub_is(m, "ls"@) {
        Ok(Command::Switch(SwitchCommand::Port(SwitchPortCommand::Ls)))
    } else if sub_is(m, "create"@) {
        let a = sub_matches(m);
        match spec_required(a, "switch"@, "missing switch name"@) {
            Err(e) => Err(e),
            Ok(switch) => match spec_required(a, "name"@, "missing port name"@) {
                Err(e) => Err(e),
                Ok(name) => Ok(
                    Command::Switch(
                        SwitchCommand::Port(
                            SwitchPortCommand::Create {
                                switch,
                                name,
                                ip: spec_get_one(a, "ip"@),
                                mac: spec_get_one(a, "mac"@),
                            },
                        ),
                    ),
                ),
            },
        }
    } else if sub_is(m, "rm"@) {
        let a = sub_matches(m);
        match spec_required(a, "switch"@, "missing switch name"@) {
            Err(e) => Err(e),
            Ok(switch) => match spec_required(a, "name"@, "missing port name"@) {
                Err(e) => Err(e),
                Ok(name) => Ok(Command::Switch(SwitchCommand::Port(SwitchPortCommand::Rm { switch, name }))),
            },
        }
    } else {
        Err(CliErrorView::Missing("missing switch port subcommand; run 'hull switch port --help'"@))
    }
}

/// The `hull switch ...` command.
pub open spec fn spec_switch_command(m: ArgMatches) -> Result<Command, CliErrorView> {
    if sub_is(m, "ls"@) {
        Ok(Command::Switch(SwitchCommand::Ls))
    } else if sub_is(m, "create"@) {
        let a = sub_matches(m);
        match spec_required(a, "name"@, "missing switch name"@) {
            Err(e) => Err(e),
            Ok(name) => match spec_required(a, "ip"@, "missing switch ip"@) {
                Err(e) => Err(e),
                Ok(ip) => match spec_required(a, "mask"@, "missing switch mask"@) {
                    Err(e) => Err(e),
                    Ok(mask) => match spec_parse_unsigned(mask@, 255) {
                        Some(v) => Ok(Command::Switch(SwitchCommand::Create { name, ip, mask: v as u8 })),
                        None => Err(CliErrorView::InvalidMask(spec_int_error(mask@, 255))),
                    },
                },
            },
        }
    } else if sub_is(m, "rm"@) {
        match spec_required(sub_matches(m), "name"@, "missing switch name"@) {
            Err(e) => Err(e),
            Ok(name) => Ok(Command::Switch(SwitchCommand::Rm { name })),
        }
    } else if sub_is(m, "port"@) {
        spec_port_command(sub_matches(m))
    } else {
        Err(CliErrorView::Missing("missing switch subcommand; run 'hull switch --help'"@))
    }
}

/// The `hull router route ...` command.
pub open spec fn spec_route_command(m: ArgMatches) -> Result<Command, CliErrorView> {
    if sub_is(m, "add"@) {
        let a = sub_matches(m);
        match spec_route_tail(spec_get_many(a, "route_tail"@)) {
            Err(e) => Err(e),
            Ok((next_hop, next_hop_mac, metric)) => match spec_required(a, "router"@, "missing router name"@) {
                Err(e) => Err(e),
                Ok(router) => match spec_required(a, "source"@, "missing route source"@) {
                    Err(e) => Err(e),
                    Ok(source) => match spec_required(a, "destination"@, "missing route destination"@) {
                        Err(e) => Err(e),
                        Ok(destination) => Ok(
                            Command::Router(
                                RouterCommand::Route(
                                    RouterRouteCommand::Add {
                                        router,
                                        source,
                                        destination,
                                        next_hop,
                                        next_hop_mac,
                                        metric,
                                    },
                                ),
                            ),
                        ),
                    },
                },
            },
        }
    } else if sub_is(m, "rm"@) {
        let a = sub_matches(m);
        match spec_required(a, "router"@, "missing router name"@) {
            Err(e) => Err(e),
            Ok(router) => match spec_required(a, "source"@, "missing route source"@) {
                Err(e) => Err(e),
                Ok(source) => match spec_required(a, "destination"@, "missing route destination"@) {
                    Err(e) => Err(e),
                    Ok(destination) => Ok(
                        Command::Router(RouterCommand::Route(RouterRouteCommand::Rm { router, source, destination })),
                    ),
                },
            },
        }
    } else if sub_is(m, "ls"@) {
        match spec_required(sub_matches(m), "router"@, "missing router name"@) {
            Err(e) => Err(e),
            Ok(router) => Ok(Command::Router(RouterCommand::Route(RouterRouteCommand::Ls { router }))),
        }
    } else {
        Err(CliErrorView::Missing("missing router route subcommand; run 'hull router route --help'"@))
    }
}

/// The `hull router ...` command.
pub open spec fn spec_router_command(m: ArgMatches) -> Result<Command, CliErrorView> {
    if sub_is(m, "ls"@) {
        Ok(Command::Router(RouterCommand::Ls))
    } else if sub_is(m, "show"@) {
        match spec_required(sub_matches(m), "name"@, "missing router name"@) {
            Err(e) => Err(e),
            Ok(name) => Ok(Command::Router(RouterCommand::Show { name })),
        }
    } else if sub_is(m, "create"@) {
        match spec_required(sub_matches(m), "name"@, "missing router name"@) {
            Err(e) => Err(e),
            Ok(name) => Ok(Command::Router(RouterCommand::Create { name })),
        }
    } else if sub_is(m, "rm"@) {
        match spec_required(sub_matches(m), "name"@, "missing router name"@) {
            Err(e) => Err(e),
            Ok(name) => Ok(Command::Router(RouterCommand::Rm { name })),
        }
    } else if sub_is(m, "attach"@) {
        let a = sub_matches(m);
        match spec_required(a, "router"@, "missing router name"@) {
            Err(e) => Err(e),
            Ok(router) => match spec_required(a, "switch"@, "missing switch name"@) {
                Err(e) => Err(e),
                Ok(switch) => Ok(Command::Router(RouterCommand::Attach { router, switch })),
            },
        }
    } else if sub_is(m, "detach"@) {
        let a = sub_matches(m);
        match spec_required(a, "router"@, "missing router name"@) {
            Err(e) => Err(e),
            Ok(router) => match spec_required(a, "switch"@, "missing switch name"@) {
                Err(e) => Err(e),
                Ok(switch) => Ok(Command::Router(RouterCommand::Detach { router, switch })),
            },
        }
    } else if sub_is(m, "route"@) {
        spec_route_command(sub_matches(m))
    } else {
        Err(CliErrorView::Missing("missing router subcommand; run 'hull router --help'"@))
    }
}

/// The command a parsed `hull ...` command line asks for.
pub open spec fn spec_command(m: ArgMatches) -> Result<Command, CliErrorView> {
    if sub_is(m, "init"@) {
        Ok(Command::Init)
    } else if sub_is(m, "deinit"@) {
        Ok(Command::Deinit)
    } else if sub_is(m, "switch"@) {
        spec_switch_command(sub_matches(m))
    } else if sub_is(m, "router"@) {
        spec_router_command(sub_matches(m))
    } else if sub_is(m, "sync"@) {
        Ok(Command::Sync)
    } else {
        Err(CliErrorView::Missing("missing command; run 'hull --help'"@))
    }
}

fn sub_named(m: &ArgMatches, name: &str) -> (r: bool)
    ensures
        r == sub_is(*m, name@),
{
    match &m.subcommand {
        Some((n, _)) => text_eq(n.as_str(), name),
        None => false,
    }
}

fn port_command_from_matches(m: &ArgMatches) -> (r: Result<Command, CliError>)
    ensures
        match spec_port_command(*m) {
            Ok(c) => r == Ok::<Command, CliError>(c),
            Err(e) => r matches Err(err) && err@ == e,
        },
{
    let sub = match &m.subcommand {
        Some((_, a)) => a,
        None => return Err(
            CliError::Missing(String::from_str("missing switch port subcommand; run 'hull switch port --help'")),
        ),
    };
    if sub_named(m, "ls") {
        Ok(Command::Switch(SwitchCommand::Port(SwitchPortCommand::Ls)))
    } else if sub_named(m, "create") {
        let switch = match required_string(sub, "switch", "missing switch name") {
            Ok(v) => v,
            Err(e) => return Err(e),
        };
        let name = match required_string(sub, "name", "missing port name") {
            Ok(v) => v,
            Err(e) => return Err(e),
        };
        Ok(
            Command::Switch(
                SwitchCommand::Port(
                    SwitchPortCommand::Create { switch, name, ip: get_one(sub, "ip"), mac: get_one(sub, "mac") },
                ),
            ),
        )
    } else if sub_named(m, "rm") {
        let switch = match required_string(sub, "switch", "missing switch name") {
            Ok(v) => v,
            Err(e) => return Err(e),
        };
        let name = match required_string(sub, "name", "missing port name") {
            Ok(v) => v,
            Err(e) => return Err(e),
        };
        Ok(Command::Switch(SwitchCommand::Port(SwitchPortCommand::Rm { switch, name })))
    } else {
        Err(CliError::Missing(String::from_str("missing switch port subcommand; run 'hull switch port --help'")))
    }
}

fn switch_command_from_matches(m: &ArgMatches) -> (r: Result<Command, CliError>)
    ensures
        match spec_switch_command(*m) {
            Ok(c) => r == Ok::<Command, CliError>(c),
            Err(e) => r matches Err(err) && err@ == e,
        },
{
    let sub = match &m.subcommand {
        Some((_, a)) => a,
        None => return Err(CliError::Missing(String::from_str("missing switch subcommand; run 'hull switch --help'"))),
    };
    if sub_named(m, "ls") {
        Ok(Command::Switch(SwitchCommand::Ls))
    } else if sub_named(m, "create") {
        let name = match required_string(sub, "name", "missing switch name") {
            Ok(v) => v,
            Err(e) => return Err(e),
        };
        let ip = match required_string(sub, "ip", "missing switch ip") {
            Ok(v) => v,
            Err(e) => return Err(e),
        };
        let mask = match required_string(sub, "mask", "missing switch mask") {
            Ok(v) => v,
            Err(e) => return Err(e),
        };
        let chars = chars_of(mask.as_str());
        match parse_unsigned(chars.as_slice(), 255) {
            Some(v) => Ok(Command::Switch(SwitchCommand::Create { name, ip, mask: v as u8 })),
            None => Err(CliError::InvalidMask(int_error_kind(chars.as_slice(), 255))),
        }
    } else if sub_named(m, "rm") {
        let name = match required_string(sub, "name", "missing switch name") {
            Ok(v) => v,
            Err(e) => return Err(e),
        };
        Ok(Command::Switch(SwitchCommand::Rm { name }))
    } else if sub_named(m, "port") {
        port_command_from_matches(sub)
    } else {
        Err(CliError::Missing(String::from_str("missing switch subcommand; run 'hull switch --help'")))
    }
}

fn route_command_from_matches(m: &ArgMatches) -> (r: Result<Command, CliError>)
    ensures
        match spec_route_command(*m) {
            Ok(c) => r == Ok::<Command, CliError>(c),
            Err(e) => r matches Err(err) && err@ == e,
        },
{
    let sub = match &m.subcommand {
        Some((_, a)) => a,
        None => return Err(
            CliError::Missing(String::from_str("missing router route subcommand; run 'hull router route --help'")),
        ),
    };
    if sub_named(m, "add") {
        let tail = get_many(sub, "route_tail");
        let (next_hop, next_hop_mac, metric) = match parse_route_tail(tail.as_slice()) {
            Ok(v) => v,
            Err(e) => return Err(e),
        };
        let router = match required_string(sub, "router", "missing router name") {
            Ok(v) => v,
            Err(e) => return Err(e),
        };
        let source = match required_string(sub, "source", "missing route source") {
            Ok(v) => v,
            Err(e) => return Err(e),
        };
        let destination = match required_string(sub, "destination", "missing route destination") {
            Ok(v) => v,
            Err(e) => return Err(e),
        };
        Ok(
            Command::Router(
                RouterCommand::Route(
                    RouterRouteCommand::Add { router, source, destination, next_hop, next_hop_mac, metric },
                ),
            ),
        )
    } else if sub_named(m, "rm") {
        let router = match required_string(sub, "router", "missing router name") {
            Ok(v) => v,
            Err(e) => return Err(e),
        };
        let source = match required_string(sub, "source", "missing route source") {
            Ok(v) => v,
            Err(e) => return Err(e),
        };
        let destination = match required_string(sub, "destination", "missing route destination") {
            Ok(v) => v,
            Err(e) => return Err(e),
        };
        Ok(Command::Router(RouterCommand::Route(RouterRouteCommand::Rm { router, source, destination })))
    } else if sub_named(m, "ls") {
        let router = match required_string(sub, "router", "missing router name") {
            Ok(v) => v,
            Err(e) => return Err(e),
        };
        Ok(Command::Router(RouterCommand::Route(RouterRouteCommand::Ls { router })))
    } else {
        Err(CliError::Missing(String::from_str("missing router route subcommand; run 'hull router route --help'")))
    }
}

fn router_command_from_matches(m: &ArgMatches) -> (r: Result<Command, CliError>)
    ensures
        match spec_router_command(*m) {
            Ok(c) => r == Ok::<Command, CliError>(c),
            Err(e) => r matches Err(err) && err@ == e,
        },
{
    let sub = match &m.subcommand {
        Some((_, a)) => a,
        None => return Err(CliError::Missing(String::from_str("missing router subcommand; run 'hull router --help'"))),
    };
    if sub_named(m, "ls") {
        Ok(Command::Router(RouterCommand::Ls))
    } else if sub_named(m, "show") {
        match required_string(sub, "name", "missing router name") {
            Ok(name) => Ok(Command::Router(RouterCommand::Show { name })),
            Err(e) => Err(e),
        }
    } else if sub_named(m, "create") {
        match required_string(sub, "name", "missing router name") {
            Ok(name) => Ok(Command::Router(RouterCommand::Create { name })),
            Err(e) => Err(e),
        }
    } else if sub_named(m, "rm") {
        match required_string(sub, "name", "missing router name") {
            Ok(name) => Ok(Command::Router(RouterCommand::Rm { name })),
            Err(e) => Err(e),
        }
    } else if sub_named(m, "attach") {
        let router = match required_string(sub, "router", "missing router name") {
            Ok(v) => v,
            Err(e) => return Err(e),
        };
        let switch = match required_string(sub, "switch", "missing switch name") {
            Ok(v) => v,
            Err(e) => return Err(e),
        };
        Ok(Command::Router(RouterCommand::Attach { router, switch }))
    } else if sub_named(m, "detach") {
        let router = match required_string(sub, "router", "missing router name") {
            Ok(v) => v,
            Err(e) => return Err(e),
        };
        let switch = match required_string(sub, "switch", "missing switch name") {
            Ok(v) => v,
            Err(e) => return Err(e),
        };
        Ok(Command::Router(RouterCommand::Detach { router, switch }))
    } else if sub_named(m, "route") {
        route_command_from_matches(sub)
    } else {
        Err(CliError::Missing(String::from_str("missing router subcommand; run 'hull router --help'")))
    }
}

/// The command a parsed `hull ...` command line asks for (see `spec_command`).
pub fn command_from_matches(m: &ArgMatches) -> (r: Result<Command, CliError>)
    ensures
        match spec_command(*m) {
            Ok(c) => r == Ok::<Command, CliError>(c),
            Err(e) => r matches Err(err) && err@ == e,
        },
{
    let sub = match &m.subcommand {
        Some((_, a)) => a,
        None => return Err(CliError::Missing(String::from_str("missing command; run 'hull --help'"))),
    };
    if sub_named(m, "init") {
        Ok(Command::Init)
    } else if sub_named(m, "deinit") {
        Ok(Command::Deinit)
    } else if sub_named(m, "switch") {
        switch_command_from_matches(sub)
    } else if sub_named(m, "router") {
        router_command_from_matches(sub)
    } else if sub_named(m, "sync") {
        Ok(Command::Sync)
    } else {
        Err(CliError::Missing(String::from_str("missing command; run 'hull --help'")))
    }
}

/// The request a parsed `hull ...` command line makes.
pub fn request_from_matches(m: &ArgMatches) -> (r: Result<Request, CliError>)
    ensures
        match spec_command(*m) {
            Ok(c) => r == Ok::<Request, CliError>(Request { command: c }),
            Err(e) => r matches Err(err) && err@ == e,
        },
{
    match command_from_matches(m) {
        Ok(command) => Ok(Request { command }),
        Err(e) => Err(e),
    }
}

/// The arguments of the subcommand two levels down.
pub open spec fn sub2(m: ArgMatches) -> ArgMatches {
    sub_matches(sub_matches(m))
}

/// The arguments of the subcommand three levels down.
pub open spec fn sub3(m: ArgMatches) -> ArgMatches {
    sub_matches(sub_matches(sub_matches(m)))
}

/// `hull router route rm` asks to remove the route of the router named by
/// argument `router` from the network of argument `source` to the network of
/// argument `destination`: each field is the argument of its own name.
pub proof fn lemma_route_rm_takes_its_arguments(m: ArgMatches, router: String, source: String, destination: String)
    requires
        sub_is(m, "router"@),
        sub_is(sub_matches(m), "route"@),
        sub_is(sub2(m), "rm"@),
        spec_get_one(sub3(m), "router"@) == Some(router),
        spec_get_one(sub3(m), "source"@) == Some(source),
        spec_get_one(sub3(m), "destination"@) == Some(destination),
    ensures
        spec_command(m) == Ok::<Command, CliErrorView>(
            Command::Router(RouterCommand::Route(RouterRouteCommand::Rm { router, source, destination })),
        ),
{
    reveal_strlit("init");
    reveal_strlit("deinit");
    reveal_strlit("switch");
    reveal_strlit("router");
    reveal_strlit("route");
    reveal_strlit("port");
    reveal_strlit("ls");
    reveal_strlit("show");
    reveal_strlit("create");
    reveal_strlit("rm");
    reveal_strlit("attach");
    reveal_strlit("detach");
    reveal_strlit("add");
    assert("router"@[0] == 'r' && "switch"@[0] == 's' && "deinit"@[0] == 'd' && "create"@[0] == 'c');
    assert("attach"@[0] == 'a' && "detach"@[0] == 'd' && "rm"@[0] == 'r' && "ls"@[0] == 'l');
    assert("init"@.len() == 4 && "deinit"@.len() == 6 && "switch"@.len() == 6 && "router"@.len() == 6);
    assert("route"@.len() == 5 && "port"@.len() == 4 && "ls"@.len() == 2 && "show"@.len() == 4);
    assert("create"@.len() == 6 && "rm"@.len() == 2 && "attach"@.len() == 6 && "detach"@.len() == 6);
    assert("add"@.len() == 3);
}

/// `hull router route add` asks to add a route whose router, source and
/// destination are the arguments of those names, with the next hop, its MAC
/// address and the metric read from the values after them.
pub proof fn lemma_route_add_takes_its_arguments(
    m: ArgMatches,
    router: String,
    source: String,
    destination: String,
    next_hop: Option<String>,
    next_hop_mac: Option<String>,
    metric: u32,
)
    requires
        sub_is(m, "router"@),
        sub_is(sub_matches(m), "route"@),
        sub_is(sub2(m), "add"@),
        spec_get_one(sub3(m), "router"@) == Some(router),
        spec_get_one(sub3(m), "source"@) == Some(source),
        spec_get_one(sub3(m), "destination"@) == Some(destination),
        spec_route_tail(spec_get_many(sub3(m), "route_tail"@)) == Ok::<_, CliErrorView>((next_hop, next_hop_mac, metric)),
    ensures
        spec_command(m) == Ok::<Command, CliErrorView>(
            Command::Router(
                RouterCommand::Route(
                    RouterRouteCommand::Add { router, source, destination, next_hop, next_hop_mac, metric },
                ),
            ),
        ),
{
    reveal_strlit("init");
    reveal_strlit("deinit");
    reveal_strlit("switch");
    reveal_strlit("router");
    reveal_strlit("route");
    reveal_strlit("port");
    reveal_strlit("ls");
    reveal_strlit("show");
    reveal_strlit("create");
    reveal_strlit("rm");
    reveal_strlit("attach");
    reveal_strlit("detach");
    reveal_strlit("add");
    assert("router"@[0] == 'r' && "switch"@[0] == 's' && "deinit"@[0] == 'd' && "create"@[0] == 'c');
    assert("attach"@[0] == 'a' && "detach"@[0] == 'd' && "rm"@[0] == 'r' && "ls"@[0] == 'l');
    assert("init"@.len() == 4 && "deinit"@.len() == 6 && "switch"@.len() == 6 && "router"@.len() == 6);
    assert("route"@.len() == 5 && "port"@.len() == 4 && "ls"@.len() == 2 && "show"@.len() == 4);
    assert("create"@.len() == 6 && "rm"@.len() == 2 && "attach"@.len() == 6 && "detach"@.len() == 6);
    assert("add"@.len() == 3);
}

/// `hull router route ls` lists the routes of the router of argument
/// `router`.
pub proof fn lemma_route_ls_takes_its_argument(m: ArgMatches, router: String)
    requires
        sub_is(m, "router"@),
        sub_is(sub_matches(m), "route"@),
        sub_is(sub2(m), "ls"@),
        spec_get_one(sub3(m), "router"@) == Some(router),
    ensures
        spec_command(m) == Ok::<Command, CliErrorView>(
            Command::Router(RouterCommand::Route(RouterRouteCommand::Ls { router })),
        ),
{
    reveal_strlit("init");
    reveal_strlit("deinit");
    reveal_strlit("switch");
    reveal_strlit("router");
    reveal_strlit("route");
    reveal_strlit("port");
    reveal_strlit("ls");
    reveal_strlit("show");
    reveal_strlit("create");
    reveal_strlit("rm");
    reveal_strlit("attach");
    reveal_strlit("detach");
    reveal_strlit("add");
    assert("router"@[0] == 'r' && "switch"@[0] == 's' && "deinit"@[0] == 'd' && "create"@[0] == 'c');
    assert("attach"@[0] == 'a' && "detach"@[0] == 'd' && "rm"@[0] == 'r' && "ls"@[0] == 'l');
    assert("init"@.len() == 4 && "deinit"@.len() == 6 && "switch"@.len() == 6 && "router"@.len() == 6);
    assert("route"@.len() == 5 && "port"@.len() == 4 && "ls"@.len() == 2 && "show"@.len() == 4);
    assert("create"@.len() == 6 && "rm"@.len() == 2 && "attach"@.len() == 6 && "detach"@.len() == 6);
    assert("add"@.len() == 3);
}

/// `hull router attach` and `hull router detach` name the router by argument
/// `router` and the switch by argument `switch`; `show`, `create` and `rm`
/// name the router by argument `name`.
pub proof fn lemma_router_commands_take_their_arguments(m: ArgMatches, router: String, switch: String, name: String)
    requires
        sub_is(m, "router"@),
    ensures
        sub_is(sub_matches(m), "attach"@) && spec_get_one(sub2(m), "router"@) == Some(router) && spec_get_one(
            sub2(m),
            "switch"@,
        ) == Some(switch) ==> spec_command(m) == Ok::<Command, CliErrorView>(
            Command::Router(RouterCommand::Attach { router, switch }),
        ),
        sub_is(sub_matches(m), "detach"@) && spec_get_one(sub2(m), "router"@) == Some(router) && spec_get_one(
            sub2(m),
            "switch"@,
        ) == Some(switch) ==> spec_command(m) == Ok::<Command, CliErrorView>(
            Command::Router(RouterCommand::Detach { router, switch }),
        ),
        sub_is(sub_matches(m), "show"@) && spec_get_one(sub2(m), "name"@) == Some(name) ==> spec_command(m) == Ok::<
            Command,
            CliErrorView,
        >(Command::Router(RouterCommand::Show { name })),
        sub_is(sub_matches(m), "create"@) && spec_get_one(sub2(m), "name"@) == Some(name) ==> spec_command(m) == Ok::<
            Command,
            CliErrorView,
        >(Command::Router(RouterCommand::Create { name })),
        sub_is(sub_matches(m), "rm"@) && spec_get_one(sub2(m), "name"@) == Some(name) ==> spec_command(m) == Ok::<
            Command,
            CliErrorView,
        >(Command::Router(RouterCommand::Rm { name })),
{
    reveal_strlit("init");
    reveal_strlit("deinit");
    reveal_strlit("switch");
    reveal_strlit("router");
    reveal_strlit("route");
    reveal_strlit("port");
    reveal_strlit("ls");
    reveal_strlit("show");
    reveal_strlit("create");
    reveal_strlit("rm");
    reveal_strlit("attach");
    reveal_strlit("detach");
    reveal_strlit("add");
    assert("router"@[0] == 'r' && "switch"@[0] == 's' && "deinit"@[0] == 'd' && "create"@[0] == 'c');
    assert("attach"@[0] == 'a' && "detach"@[0] == 'd' && "rm"@[0] == 'r' && "ls"@[0] == 'l');
    assert("init"@.len() == 4 && "deinit"@.len() == 6 && "switch"@.len() == 6 && "router"@.len() == 6);
    assert("route"@.len() == 5 && "port"@.len() == 4 && "ls"@.len() == 2 && "show"@.len() == 4);
    assert("create"@.len() == 6 && "rm"@.len() == 2 && "attach"@.len() == 6 && "detach"@.len() == 6);
    assert("add"@.len() == 3);
}

/// `hull switch create` takes the switch's name, address and mask from the
/// arguments of those names, the mask read as a decimal number of at most
/// 255; `hull switch rm` takes the name from argument `name`.
pub proof fn lemma_switch_commands_take_their_arguments(m: ArgMatches, name: String, ip: String, mask: String)
    requires
        sub_is(m, "switch"@),
    ensures
        sub_is(sub_matches(m), "create"@) && spec_get_one(sub2(m), "name"@) == Some(name) && spec_get_one(
            sub2(m),
            "ip"@,
        ) == Some(ip) && spec_get_one(sub2(m), "mask"@) == Some(mask) && spec_parse_unsigned(mask@, 255) is Some
            ==> spec_command(m) == Ok::<Command, CliErrorView>(
            Command::Switch(SwitchCommand::Create { name, ip, mask: spec_parse_unsigned(mask@, 255)->Some_0 as u8 }),
        ),
        sub_is(sub_matches(m), "rm"@) && spec_get_one(sub2(m), "name"@) == Some(name) ==> spec_command(m) == Ok::<
            Command,
            CliErrorView,
        >(Command::Switch(SwitchCommand::Rm { name })),
{
    reveal_strlit("init");
    reveal_strlit("deinit");
    reveal_strlit("switch");
    reveal_strlit("router");
    reveal_strlit("route");
    reveal_strlit("port");
    reveal_strlit("ls");
    reveal_strlit("show");
    reveal_strlit("create");
    reveal_strlit("rm");
    reveal_strlit("attach");
    reveal_strlit("detach");
    reveal_strlit("add");
    assert("router"@[0] == 'r' && "switch"@[0] == 's' && "deinit"@[0] == 'd' && "create"@[0] == 'c');
    assert("attach"@[0] == 'a' && "detach"@[0] == 'd' && "rm"@[0] == 'r' && "ls"@[0] == 'l');
    assert("init"@.len() == 4 && "deinit"@.len() == 6 && "switch"@.len() == 6 && "router"@.len() == 6);
    assert("route"@.len() == 5 && "port"@.len() == 4 && "ls"@.len() == 2 && "show"@.len() == 4);
    assert("create"@.len() == 6 && "rm"@.len() == 2 && "attach"@.len() == 6 && "detach"@.len() == 6);
    assert("add"@.len() == 3);
}

/// `hull switch port create` and `hull switch port rm` take the switch and
/// the port's name from the arguments `switch` and `name`; `create` takes the
/// optional address and MAC address from `ip` and `mac`.
pub proof fn lemma_port_commands_take_their_arguments(m: ArgMatches, switch: String, name: String)
    requires
        sub_is(m, "switch"@),
        sub_is(sub_matches(m), "port"@),
        spec_get_one(sub3(m), "switch"@) == Some(switch),
        spec_get_one(sub3(m), "name"@) == Some(name),
    ensures
        sub_is(sub2(m), "create"@) ==> spec_command(m) == Ok::<Command, CliErrorView>(
            Command::Switch(
                SwitchCommand::Port(
                    SwitchPortCommand::Create {
                        switch,
                        name,
                        ip: spec_get_one(sub3(m), "ip"@),
                        mac: spec_get_one(sub3(m), "mac"@),
                    },
                ),
            ),
        ),
        sub_is(sub2(m), "rm"@) ==> spec_command(m) == Ok::<Command, CliErrorView>(
            Command::Switch(SwitchCommand::Port(SwitchPortCommand::Rm { switch, name })),
        ),
{
    reveal_strlit("init");
    reveal_strlit("deinit");
    reveal_strlit("switch");
    reveal_strlit("router");
    reveal_strlit("route");
    reveal_strlit("port");
    reveal_strlit("ls");
    reveal_strlit("show");
    reveal_strlit("create");
    reveal_strlit("rm");
    reveal_strlit("attach");
    reveal_strlit("detach");
    reveal_strlit("add");
    assert("router"@[0] == 'r' && "switch"@[0] == 's' && "deinit"@[0] == 'd' && "create"@[0] == 'c');
    assert("attach"@[0] == 'a' && "detach"@[0] == 'd' && "rm"@[0] == 'r' && "ls"@[0] == 'l');
    assert("init"@.len() == 4 && "deinit"@.len() == 6 && "switch"@.len() == 6 && "router"@.len() == 6);
    assert("route"@.len() == 5 && "port"@.len() == 4 && "ls"@.len() == 2 && "show"@.len() == 4);
    assert("create"@.len() == 6 && "rm"@.len() == 2 && "attach"@.len() == 6 && "detach"@.len() == 6);
    assert("add"@.len() == 3);
}

} // verus!
