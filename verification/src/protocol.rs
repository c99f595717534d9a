//! The requests the Hull client sends to the daemon.
use vstd::prelude::*;

verus! {

/// A client request sent to the daemon.
#[derive(Debug, Clone)]
pub struct Request {
    /// The requested operation.
    pub command: Command,
}

/// Top-level daemon commands.
#[derive(Debug, Clone)]
pub enum Command {
    /// Initialize Hull state.
    Init,
    /// Remove Hull state.
    Deinit,
    /// Switch operations.
    Switch(SwitchCommand),
    /// Router operations.
    Router(RouterCommand),
    /// Reconcile daemon state.
    Sync,
}

/// Switch subcommands.
#[derive(Debug, Clone)]
pub enum SwitchCommand {
    /// List switches.
    Ls,
    /// Create a switch with the network `ip/mask`.
    Create { name: String, ip: String, mask: u8 },
    /// Remove a switch.
    Rm { name: String },
    /// Switch port operations.
    Port(SwitchPortCommand),
}

/// Switch port subcommands.
#[derive(Debug, Clone)]
pub enum SwitchPortCommand {
    /// List switch ports.
    Ls,
    /// Create a switch port, with an optional static address and MAC.
    Create { switch: String, name: String, ip: Option<String>, mac: Option<String> },
    /// Remove a switch port.
    Rm { switch: String, name: String },
}

/// Router subcommands.
#[derive(Debug, Clone)]
pub enum RouterCommand {
    /// List routers.
    Ls,
    /// Show a router with full details.
    Show { name: String },
    /// Create a router.
    Create { name: String },
    /// Remove a router.
    Rm { name: String },
    /// Attach a router to a switch.
    Attach { router: String, switch: String },
    /// Detach a router from a switch.
    Detach { router: String, switch: String },
    /// Router route operations.
    Route(RouterRouteCommand),
}

/// Router route subcommands.
#[derive(Debug, Clone)]
pub enum RouterRouteCommand {
    /// Add a route from `source` to `destination`.
    Add {
        router: String,
        source: String,
        destination: String,
        next_hop: Option<String>,
        next_hop_mac: Option<String>,
        metric: u32,
    },
    /// Remove a route.
    Rm { router: String, source: String, destination: String },
    /// List routes.
    Ls { router: String },
}

} // verus!
