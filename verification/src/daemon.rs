//! The decisions the daemon makes around the store: how a request is
//! dispatched, which attachments a router accepts, and the routes it reports.
use vstd::prelude::*;
use vstd::string::StringExecFns;
use crate::cidr::{Ipv4Network, lemma_prefix_mask_nested, prefix_mask, spec_parse_network};
use crate::config::text_eq;
use crate::database::{RouterPort, RouterRoute, Subnet};
use crate::protocol::Command;
use crate::text::{
    IntErrorKind, chars_of, int_error_kind, parse_unsigned, spec_int_error, spec_parse_unsigned,
    split_first, split_once,
};

verus! {

/// Why a CIDR text could not be split into an address and a mask length.
#[derive(Debug, Clone, Copy, PartialEq, Eq, Structural)]
pub enum SplitCidrError {
    MissingMask,
    InvalidMask(IntErrorKind),
}

/// `ip/mask` split into the address text and the mask length; text after a
/// second `/` is ignored.
pub open spec fn spec_split_cidr(cidr: Seq<char>) -> Result<(Seq<char>, u8), SplitCidrError> {
    let (ip, rest) = split_first(cidr, '/');
    match rest {
        None => Err(SplitCidrError::MissingMask),
        Some(r) => {
            let mask = split_first(r, '/').0;
            match spec_parse_unsigned(mask, 255) {
                Some(m) => Ok((ip, m as u8)),
                None => Err(SplitCidrError::InvalidMask(spec_int_error(mask, 255))),
            }
        },
    }
}

/// Splits a CIDR text into its address text and its mask length.
pub fn split_cidr(cidr: &str) -> (r: Result<(String, u8), SplitCidrError>)
    ensures
        match spec_split_cidr(cidr@) {
            Ok((ip, m)) => r matches Ok(v) && v.0@ == ip && v.1 == m,
            Err(e) => r == Err::<(String, u8), SplitCidrError>(e),
        },
{
    let (ip, rest) = split_once(cidr, '/');
    let rest = match rest {
        None => return Err(SplitCidrError::MissingMask),
        Some(r) => r,
    };
    let (mask, _) = split_once(rest.as_str(), '/');
    let chars = chars_of(mask.as_str());
    match parse_unsigned(chars.as_slice(), 255) {
        Some(m) => Ok((ip, m as u8)),
        None => Err(SplitCidrError::InvalidMask(int_error_kind(chars.as_slice(), 255))),
    }
}

/// What the daemon does with a request, given whether Hull's root directory
/// and database exist and whether its state is loaded.
#[derive(Debug, Clone, Copy, PartialEq, Eq, Structural)]
pub enum RequestStep {
    /// Create the store, then load the state.
    Init,
    /// Refuse: the store exists already.
    AlreadyInitialized,
    /// Drop the store and the loaded state.
    Deinit,
    /// Handle the command with the loaded state.
    Handle,
    /// Load the state from the store, then handle the command.
    LoadThenHandle,
    /// Refuse: there is no store to work on.
    NotInitialized,
}

/// The step for `command` (see `RequestStep`).
pub open spec fn spec_request_step(
    command: Command,
    root_exists: bool,
    db_exists: bool,
    state_loaded: bool,
) -> RequestStep {
    match command {
        Command::Init => if root_exists && db_exists {
            RequestStep::AlreadyInitialized
        } else {
            RequestStep::Init
        },
        Command::Deinit => RequestStep::Deinit,
        _ => if state_loaded {
            RequestStep::Handle
        } else if db_exists {
            RequestStep::LoadThenHandle
        } else {
            RequestStep::NotInitialized
        },
    }
}

pub fn request_step(command: &Command, root_exists: bool, db_exists: bool, state_loaded: bool) -> (r:
    RequestStep)
    ensures
        r == spec_request_step(*command, root_exists, db_exists, state_loaded),
{
    match command {
        Command::Init => if root_exists && db_exists {
            RequestStep::AlreadyInitialized
        } else {
            RequestStep::Init
        },
        Command::Deinit => RequestStep::Deinit,
        _ => if state_loaded {
            RequestStep::Handle
        } else if db_exists {
            RequestStep::LoadThenHandle
        } else {
            RequestStep::NotInitialized
        },
    }
}

/// A switch attached to a router, with the subnets of that switch.
#[derive(Debug, Clone)]
pub struct Attachment {
    pub switch_name: String,
    pub subnets: Vec<Subnet>,
}

/// The switch name and CIDR of each subnet of `atts`, attachment by
/// attachment.
pub open spec fn learned_pairs(atts: Seq<Attachment>) -> Seq<(Seq<char>, Seq<char>)>
    decreases atts.len(),
{
    if atts.len() == 0 {
        Seq::empty()
    } else {
        learned_pairs(atts.drop_last()) + atts.last().subnets@.map_values(
            |s: Subnet| (atts.last().switch_name@, s.cidr@),
        )
    }
}

/// `r` is the route a router learns from subnet `cidr` of attached switch
/// `switch_name`: from the subnet to itself, with no next hop and metric 0.
pub open spec fn is_learned_route(r: RouterRoute, switch_name: Seq<char>, cidr: Seq<char>) -> bool {
    &&& r.uuid@ == "learned:"@ + switch_name + ":"@ + cidr
    &&& r.router_name@ == "__learned__"@
    &&& r.source@ == cidr
    &&& r.destination@ == cidr
    &&& r.next_hop is None
    &&& r.next_hop_mac is None
    &&& r.metric == 0
}

fn learned_route(switch_name: &String, cidr: &String) -> (r: RouterRoute)
    ensures
        is_learned_route(r, switch_name@, cidr@),
{
    let mut uuid = String::from_str("learned:");
    uuid.append(switch_name.as_str());
    uuid.append(":");
    uuid.append(cidr.as_str());
    RouterRoute {
        uuid,
        router_name: String::from_str("__learned__"),
        source: cidr.clone(),
        destination: cidr.clone(),
        next_hop: None,
        next_hop_mac: None,
        metric: 0,
    }
}

/// The stored routes of a router followed by one learned route per subnet of
/// each attached switch.
pub fn list_routes_with_learned(routes: Vec<RouterRoute>, attachments: &Vec<Attachment>) -> (r: Vec<
    RouterRoute,
>)
    ensures
        r@.len() == routes@.len() + learned_pairs(attachments@).len(),
        forall|i: int| 0 <= i < routes@.len() ==> r@[i] == routes@[i],
        forall|j: int|
            0 <= j < learned_pairs(attachments@).len() ==> is_learned_route(
                #[trigger] r@[routes@.len() + j],
                learned_pairs(attachments@)[j].0,
                learned_pairs(attachments@)[j].1,
            ),
{
    let ghost base = routes@;
    let mut out = routes;
    let mut i: usize = 0;
    while i < attachments.len()
        invariant
            i <= attachments@.len(),
            out@.len() == base.len() + learned_pairs(attachments@.take(i as int)).len(),
            forall|k: int| 0 <= k < base.len() ==> out@[k] == base[k],
            forall|j: int|
                0 <= j < learned_pairs(attachments@.take(i as int)).len() ==> is_learned_route(
                    #[trigger] out@[base.len() + j],
                    learned_pairs(attachments@.take(i as int))[j].0,
                    learned_pairs(attachments@.take(i as int))[j].1,
                ),
        decreases attachments@.len() - i,
    {
        let att = &attachments[i];
        let ghost before = learned_pairs(attachments@.take(i as int));
        let ghost added = att.subnets@.map_values(|s: Subnet| (att.switch_name@, s.cidr@));
        proof {
            assert(attachments@.take(i + 1).drop_last() =~= attachments@.take(i as int));
            assert(learned_pairs(attachments@.take(i + 1)) == before + added);
        }
        let mut k: usize = 0;
        while k < att.subnets.len()
            invariant
                i < attachments@.len(),
                att == attachments@[i as int],
                added == att.subnets@.map_values(|s: Subnet| (att.switch_name@, s.cidr@)),
                k <= att.subnets@.len(),
                out@.len() == base.len() + before.len() + k,
                forall|q: int| 0 <= q < base.len() ==> out@[q] == base[q],
                forall|j: int|
                    0 <= j < before.len() + k ==> is_learned_route(
                        #[trigger] out@[base.len() + j],
                        (before + added)[j].0,
                        (before + added)[j].1,
                    ),
            decreases att.subnets@.len() - k,
        {
            let route = learned_route(&att.switch_name, &att.subnets[k].cidr);
            out.push(route);
            proof {
                assert((before + added)[before.len() + k] == added[k as int]);
            }
            k = k + 1;
        }
        i = i + 1;
    }
    proof {
        assert(attachments@.take(attachments@.len() as int) =~= attachments@);
    }
    out
}

/// Why a router refused to attach or detach a switch.
#[derive(Debug, Clone)]
pub enum AttachError {
    AlreadyAttached { router: String, switch: String },
    NotAttached { router: String, switch: String },
    InvalidCidr(String),
    CidrConflict {
        candidate_switch: String,
        candidate_cidr: String,
        attached_switch: String,
        existing_cidr: String,
        router: String,
    },
}

pub enum AttachErrorView {
    AlreadyAttached { router: Seq<char>, switch: Seq<char> },
    NotAttached { router: Seq<char>, switch: Seq<char> },
    InvalidCidr(Seq<char>),
    CidrConflict {
        candidate_switch: Seq<char>,
        candidate_cidr: Seq<char>,
        attached_switch: Seq<char>,
        existing_cidr: Seq<char>,
        router: Seq<char>,
    },
}

impl View for AttachError {
    type V = AttachErrorView;

    open spec fn view(&self) -> AttachErrorView {
        match self {
            AttachError::AlreadyAttached { router, switch } => AttachErrorView::AlreadyAttached {
                router: router@,
                switch: switch@,
            },
            AttachError::NotAttached { router, switch } => AttachErrorView::NotAttached {
                router: router@,
                switch: switch@,
            },
            AttachError::InvalidCidr(c) => AttachErrorView::InvalidCidr(c@),
            AttachError::CidrConflict {
                candidate_switch,
                candidate_cidr,
                attached_switch,
                existing_cidr,
                router,
            } => AttachErrorView::CidrConflict {
                candidate_switch: candidate_switch@,
                candidate_cidr: candidate_cidr@,
                attached_switch: attached_switch@,
                existing_cidr: existing_cidr@,
                router: router@,
            },
        }
    }
}

/// Two networks, each an address and a prefix length, share an address.
pub open spec fn nets_overlap(a: (u32, u8), b: (u32, u8)) -> bool {
    let ma = prefix_mask(a.1);
    let mb = prefix_mask(b.1);
    ((b.0 & mb) & ma == a.0 & ma) || ((a.0 & ma) & mb == b.0 & mb)
}

/// The first problem between one subnet `existing` (network `net`) of
/// attached switch `attached` and the candidate subnets, in order: a
/// candidate CIDR that does not parse, or one that overlaps `net`.
pub open spec fn spec_check_candidates(
    net: (u32, u8),
    existing: Seq<char>,
    attached: Seq<char>,
    cands: Seq<Subnet>,
    router: Seq<char>,
    cand_switch: Seq<char>,
) -> Result<(), AttachErrorView>
    decreases cands.len(),
{
    if cands.len() == 0 {
        Ok(())
    } else {
        match spec_parse_network(cands[0].cidr@) {
            Err(_) => Err(AttachErrorView::InvalidCidr(cands[0].cidr@)),
            Ok(c) => if nets_overlap(net, c) {
                Err(
                    AttachErrorView::CidrConflict {
                        candidate_switch: cand_switch,
                        candidate_cidr: cands[0].cidr@,
                        attached_switch: attached,
                        existing_cidr: existing,
                        router,
                    },
                )
            } else {
                spec_check_candidates(net, existing, attached, cands.drop_first(), router, cand_switch)
            },
        }
    }
}

/// The first problem between the subnets of attached switch `attached` and
/// the candidate subnets: each existing CIDR must parse, then is checked
/// against every candidate.
pub open spec fn spec_check_subnets(
    existing: Seq<Subnet>,
    attached: Seq<char>,
    cands: Seq<Subnet>,
    router: Seq<char>,
    cand_switch: Seq<char>,
) -> Result<(), AttachErrorView>
    decreases existing.len(),
{
    if existing.len() == 0 {
        Ok(())
    } else {
        match spec_parse_network(existing[0].cidr@) {
            Err(_) => Err(AttachErrorView::InvalidCidr(existing[0].cidr@)),
            Ok(net) => match spec_check_candidates(
                net,
                existing[0].cidr@,
                attached,
                cands,
                router,
                cand_switch,
            ) {
                Err(e) => Err(e),
                Ok(_) => spec_check_subnets(existing.drop_first(), attached, cands, router, cand_switch),
            },
        }
    }
}

/// Whether a router may take switch `cand_switch`, whose subnets are `cands`,
/// given its attachments in order: the switch must not be attached already,
/// and no subnet of an attached switch may overlap a candidate subnet. The
/// first problem found is the answer.
pub open spec fn spec_check_attach(
    router: Seq<char>,
    cand_switch: Seq<char>,
    atts: Seq<Attachment>,
    cands: Seq<Subnet>,
) -> Result<(), AttachErrorView>
    decreases atts.len(),
{
    if atts.len() == 0 {
        Ok(())
    } else if atts[0].switch_name@ == cand_switch {
        Err(AttachErrorView::AlreadyAttached { router, switch: cand_switch })
    } else {
        match spec_check_subnets(atts[0].subnets@, atts[0].switch_name@, cands, router, cand_switch) {
            Err(e) => Err(e),
            Ok(_) => spec_check_attach(router, cand_switch, atts.drop_first(), cands),
        }
    }
}

fn check_candidates(
    net: Ipv4Network,
    existing: &String,
    attached: &String,
    cands: &Vec<Subnet>,
    router: &str,
    cand_switch: &str,
) -> (r: Result<(), AttachError>)
    ensures
        match spec_check_candidates(
            (net.spec_addr(), net.spec_prefix()),
            existing@,
            attached@,
            cands@,
            router@,
            cand_switch@,
        ) {
            Ok(_) => r is Ok,
            Err(e) => r matches Err(err) && err@ == e,
        },
{
    let ghost n = (net.spec_addr(), net.spec_prefix());
    let mut i: usize = 0;
    assert(cands@.skip(0) =~= cands@);
    while i < cands.len()
        invariant
            i <= cands@.len(),
            n == (net.spec_addr(), net.spec_prefix()),
            spec_check_candidates(n, existing@, attached@, cands@, router@, cand_switch@)
                == spec_check_candidates(
                n,
                existing@,
                attached@,
                cands@.skip(i as int),
                router@,
                cand_switch@,
            ),
        decreases cands@.len() - i,
    {
        proof {
            assert(cands@.skip(i as int).drop_first() =~= cands@.skip(i + 1));
            assert(cands@.skip(i as int)[0] == cands@[i as int]);
        }
        let c = match Ipv4Network::parse(cands[i].cidr.as_str()) {
            Ok(c) => c,
            Err(_) => return Err(AttachError::InvalidCidr(cands[i].cidr.clone())),
        };
        if net.overlaps(c) {
            return Err(
                AttachError::CidrConflict {
                    candidate_switch: String::from_str(cand_switch),
                    candidate_cidr: cands[i].cidr.clone(),
                    attached_switch: attached.clone(),
                    existing_cidr: existing.clone(),
                    router: String::from_str(router),
                },
            );
        }
        i = i + 1;
    }
    proof {
        assert(cands@.skip(cands@.len() as int) =~= Seq::<Subnet>::empty());
    }
    Ok(())
}

fn check_subnets(
    existing: &Vec<Subnet>,
    attached: &String,
    cands: &Vec<Subnet>,
    router: &str,
    cand_switch: &str,
) -> (r: Result<(), AttachError>)
    ensures
        match spec_check_subnets(existing@, attached@, cands@, router@, cand_switch@) {
            Ok(_) => r is Ok,
            Err(e) => r matches Err(err) && err@ == e,
        },
{
    let mut i: usize = 0;
    assert(existing@.skip(0) =~= existing@);
    while i < existing.len()
        invariant
            i <= existing@.len(),
            spec_check_subnets(existing@, attached@, cands@, router@, cand_switch@)
                == spec_check_subnets(existing@.skip(i as int), attached@, cands@, router@, cand_switch@),
        decreases existing@.len() - i,
    {
        proof {
            assert(existing@.skip(i as int).drop_first() =~= existing@.skip(i + 1));
            assert(existing@.skip(i as int)[0] == existing@[i as int]);
        }
        let net = match Ipv4Network::parse(existing[i].cidr.as_str()) {
            Ok(n) => n,
            Err(_) => return Err(AttachError::InvalidCidr(existing[i].cidr.clone())),
        };
        match check_candidates(net, &existing[i].cidr, attached, cands, router, cand_switch) {
            Ok(_) => {},
            Err(e) => return Err(e),
        }
        i = i + 1;
    }
    proof {
        assert(existing@.skip(existing@.len() as int) =~= Seq::<Subnet>::empty());
    }
    Ok(())
}

/// Checks that router `router_name` may take switch `candidate_switch` (see
/// `spec_check_attach`), given its attachments and the candidate's subnets.
pub fn validate_router_attach_no_cidr_conflict(
    router_name: &str,
    candidate_switch: &str,
    attachments: &Vec<Attachment>,
    candidate_subnets: &Vec<Subnet>,
) -> (r: Result<(), AttachError>)
    ensures
        match spec_check_attach(router_name@, candidate_switch@, attachments@, candidate_subnets@) {
            Ok(_) => r is Ok,
            Err(e) => r matches Err(err) && err@ == e,
        },
{
    let mut i: usize = 0;
    assert(attachments@.skip(0) =~= attachments@);
    while i < attachments.len()
        invariant
            i <= attachments@.len(),
            spec_check_attach(router_name@, candidate_switch@, attachments@, candidate_subnets@)
                == spec_check_attach(
                router_name@,
                candidate_switch@,
                attachments@.skip(i as int),
                candidate_subnets@,
            ),
        decreases attachments@.len() - i,
    {
        proof {
            assert(attachments@.skip(i as int).drop_first() =~= attachments@.skip(i + 1));
            assert(attachments@.skip(i as int)[0] == attachments@[i as int]);
        }
        let att = &attachments[i];
        if text_eq(att.switch_name.as_str(), candidate_switch) {
            return Err(
                AttachError::AlreadyAttached {
                    router: String::from_str(router_name),
                    switch: String::from_str(candidate_switch),
                },
            );
        }
        match check_subnets(&att.subnets, &att.switch_name, candidate_subnets, router_name, candidate_switch) {
            Ok(_) => {},
            Err(e) => return Err(e),
        }
        i = i + 1;
    }
    proof {
        assert(attachments@.skip(attachments@.len() as int) =~= Seq::<Attachment>::empty());
    }
    Ok(())
}

/// Checks that router `router` has switch `switch` attached before it is
/// detached.
pub fn check_detach(router: &str, switch: &str, ports: &Vec<RouterPort>) -> (r: Result<(), AttachError>)
    ensures
        (exists|i: int| 0 <= i < ports@.len() && ports@[i].switch_name@ == switch@) ==> r is Ok,
        !(exists|i: int| 0 <= i < ports@.len() && ports@[i].switch_name@ == switch@) ==> (r matches Err(
            e,
        ) && e@ == AttachErrorView::NotAttached { router: router@, switch: switch@ }),
{
    let mut i: usize = 0;
    while i < ports.len()
        invariant
            i <= ports@.len(),
            forall|j: int| 0 <= j < i ==> ports@[j].switch_name@ != switch@,
        decreases ports@.len() - i,
    {
        if text_eq(ports[i].switch_name.as_str(), switch) {
            return Ok(());
        }
        i = i + 1;
    }
    Err(AttachError::NotAttached { router: String::from_str(router), switch: String::from_str(switch) })
}

/// The candidate subnet `c` parses and does not overlap `net`.
pub open spec fn clear_of(net: (u32, u8), c: Subnet) -> bool {
    spec_parse_network(c.cidr@) matches Ok(b) && !nets_overlap(net, b)
}

/// The subnet `e` parses and no candidate overlaps it.
pub open spec fn subnet_clear(e: Subnet, cands: Seq<Subnet>) -> bool {
    spec_parse_network(e.cidr@) matches Ok(a) && forall|k: int| 0 <= k < cands.len() ==> #[trigger] clear_of(a, cands[k])
}

proof fn lemma_candidates_clear(
    net: (u32, u8),
    existing: Seq<char>,
    attached: Seq<char>,
    cands: Seq<Subnet>,
    router: Seq<char>,
    cand_switch: Seq<char>,
)
    requires
        spec_check_candidates(net, existing, attached, cands, router, cand_switch) is Ok,
    ensures
        forall|k: int| 0 <= k < cands.len() ==> #[trigger] clear_of(net, cands[k]),
    decreases cands.len(),
{
    if cands.len() > 0 {
        lemma_candidates_clear(net, existing, attached, cands.drop_first(), router, cand_switch);
        assert forall|k: int| 0 <= k < cands.len() implies #[trigger] clear_of(net, cands[k]) by {
            if k > 0 {
                assert(cands[k] == cands.drop_first()[k - 1]);
            }
        }
    }
}

proof fn lemma_subnets_clear(
    existing: Seq<Subnet>,
    attached: Seq<char>,
    cands: Seq<Subnet>,
    router: Seq<char>,
    cand_switch: Seq<char>,
)
    requires
        spec_check_subnets(existing, attached, cands, router, cand_switch) is Ok,
    ensures
        forall|j: int| 0 <= j < existing.len() ==> #[trigger] subnet_clear(existing[j], cands),
    decreases existing.len(),
{
    if existing.len() > 0 {
        let net = spec_parse_network(existing[0].cidr@)->Ok_0;
        lemma_candidates_clear(net, existing[0].cidr@, attached, cands, router, cand_switch);
        lemma_subnets_clear(existing.drop_first(), attached, cands, router, cand_switch);
        assert forall|j: int| 0 <= j < existing.len() implies #[trigger] subnet_clear(existing[j], cands) by {
            if j > 0 {
                assert(existing[j] == existing.drop_first()[j - 1]);
            }
        }
    }
}

/// A router takes a switch only when it is not attached yet and none of its
/// subnets overlaps a subnet of a switch already attached: every CIDR
/// involved parses, and no two of them, one from each side, share an
/// address.
pub proof fn lemma_accepted_attach_has_no_overlap(
    router: Seq<char>,
    cand_switch: Seq<char>,
    atts: Seq<Attachment>,
    cands: Seq<Subnet>,
)
    requires
        spec_check_attach(router, cand_switch, atts, cands) is Ok,
    ensures
        forall|i: int| 0 <= i < atts.len() ==> #[trigger] atts[i].switch_name@ != cand_switch,
        forall|i: int, j: int|
            0 <= i < atts.len() && 0 <= j < atts[i].subnets@.len() ==> #[trigger] subnet_clear(
                atts[i].subnets@[j],
                cands,
            ),
    decreases atts.len(),
{
    if atts.len() > 0 {
        lemma_subnets_clear(atts[0].subnets@, atts[0].switch_name@, cands, router, cand_switch);
        lemma_accepted_attach_has_no_overlap(router, cand_switch, atts.drop_first(), cands);
        assert forall|i: int| 0 <= i < atts.len() implies #[trigger] atts[i].switch_name@ != cand_switch by {
            if i > 0 {
                assert(atts[i] == atts.drop_first()[i - 1]);
            }
        }
        assert forall|i: int, j: int|
            0 <= i < atts.len() && 0 <= j < atts[i].subnets@.len() implies #[trigger] subnet_clear(
            atts[i].subnets@[j],
            cands,
        ) by {
            if i > 0 {
                assert(atts[i] == atts.drop_first()[i - 1]);
            }
        }
    }
}

/// Overlap does not depend on the order of the two networks.
pub proof fn lemma_nets_overlap_symmetric(a: (u32, u8), b: (u32, u8))
    ensures
        nets_overlap(a, b) == nets_overlap(b, a),
{
}

/// Address `ip` lies in network `n`, an address and a prefix length: it
/// agrees with the network's address on the prefix's bits.
pub open spec fn net_has(n: (u32, u8), ip: u32) -> bool {
    ip & prefix_mask(n.1) == n.0 & prefix_mask(n.1)
}

/// Two networks are reported as overlapping exactly when some address lies
/// in both.
pub proof fn lemma_nets_overlap_iff_shared_address(a: (u32, u8), b: (u32, u8))
    requires
        a.1 <= 32,
        b.1 <= 32,
    ensures
        nets_overlap(a, b) <==> exists|ip: u32| net_has(a, ip) && net_has(b, ip),
{
    let ma = prefix_mask(a.1);
    let mb = prefix_mask(b.1);
    let x = a.0;
    let y = b.0;
    if exists|ip: u32| net_has(a, ip) && net_has(b, ip) {
        let ip = choose|ip: u32| net_has(a, ip) && net_has(b, ip);
        if a.1 <= b.1 {
            lemma_prefix_mask_nested(a.1, b.1);
            assert(ma & mb == ma && ip & ma == x & ma && ip & mb == y & mb ==> (y & mb) & ma == x & ma)
                by (bit_vector);
        } else {
            lemma_prefix_mask_nested(b.1, a.1);
            assert(mb & ma == mb && ip & ma == x & ma && ip & mb == y & mb ==> (x & ma) & mb == y & mb)
                by (bit_vector);
        }
    }
    if nets_overlap(a, b) {
        assert((y & mb) & mb == y & mb) by (bit_vector);
        assert((x & ma) & ma == x & ma) by (bit_vector);
        if (y & mb) & ma == x & ma {
            assert(net_has(a, y & mb) && net_has(b, y & mb));
        } else {
            assert(net_has(a, x & ma) && net_has(b, x & ma));
        }
    }
}

/// A network that parses has a prefix of at most 32 bits.
proof fn lemma_parsed_prefix_fits(s: Seq<char>)
    ensures
        spec_parse_network(s) matches Ok(n) ==> n.1 <= 32,
{
}

/// The two subnets parse, and no address lies in both.
pub open spec fn subnets_disjoint(e: Subnet, c: Subnet) -> bool {
    &&& spec_parse_network(e.cidr@) is Ok
    &&& spec_parse_network(c.cidr@) is Ok
    &&& forall|ip: u32|
        !(net_has(spec_parse_network(e.cidr@)->Ok_0, ip) && net_has(spec_parse_network(c.cidr@)->Ok_0, ip))
}

/// A router takes a switch only when no address lies both in a subnet of a
/// switch already attached and in a subnet of the new switch: the same
/// network attached twice, or one inside another, is refused.
pub proof fn lemma_accepted_attach_shares_no_address(
    router: Seq<char>,
    cand_switch: Seq<char>,
    atts: Seq<Attachment>,
    cands: Seq<Subnet>,
)
    requires
        spec_check_attach(router, cand_switch, atts, cands) is Ok,
    ensures
        forall|i: int, j: int, k: int|
            0 <= i < atts.len() && 0 <= j < atts[i].subnets@.len() && 0 <= k < cands.len() ==> #[trigger] subnets_disjoint(
                atts[i].subnets@[j],
                cands[k],
            ),
{
    lemma_accepted_attach_has_no_overlap(router, cand_switch, atts, cands);
    assert forall|i: int, j: int, k: int|
        0 <= i < atts.len() && 0 <= j < atts[i].subnets@.len() && 0 <= k < cands.len() implies #[trigger] subnets_disjoint(
        atts[i].subnets@[j],
        cands[k],
    ) by {
        let e = atts[i].subnets@[j];
        assert(subnet_clear(e, cands));
        let a = spec_parse_network(e.cidr@)->Ok_0;
        assert(clear_of(a, cands[k]));
        let b = spec_parse_network(cands[k].cidr@)->Ok_0;
        lemma_parsed_prefix_fits(e.cidr@);
        lemma_parsed_prefix_fits(cands[k].cidr@);
        lemma_nets_overlap_iff_shared_address(a, b);
    }
}

} // verus!
