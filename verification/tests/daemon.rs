use hull::daemon::{
    check_detach, list_routes_with_learned, request_step, split_cidr, validate_router_attach_no_cidr_conflict,
    AttachError, Attachment, RequestStep, SplitCidrError,
};
use hull::database::{RouterPort, RouterRoute, Subnet};
use hull::protocol::Command;
use hull::text::IntErrorKind;

fn subnet(cidr: &str) -> Subnet {
    Subnet {
        uuid: format!("u-{cidr}"),
        switch_uuid: "sw".to_string(),
        name: "default".to_string(),
        cidr: cidr.to_string(),
        gateway_ip: String::new(),
        gateway_mac: String::new(),
    }
}

#[test]
fn split_cidr_cases() {
    assert_eq!(split_cidr("10.0.0.0/24"), Ok(("10.0.0.0".to_string(), 24)));
    assert_eq!(split_cidr("10.0.0.0/24/9"), Ok(("10.0.0.0".to_string(), 24)));
    assert_eq!(split_cidr("10.0.0.0"), Err(SplitCidrError::MissingMask));
    assert_eq!(split_cidr("10.0.0.0/x"), Err(SplitCidrError::InvalidMask(IntErrorKind::InvalidDigit)));
    assert_eq!(split_cidr("10.0.0.0/"), Err(SplitCidrError::InvalidMask(IntErrorKind::Empty)));
    assert_eq!(split_cidr("10.0.0.0/300"), Err(SplitCidrError::InvalidMask(IntErrorKind::PosOverflow)));
}

#[test]
fn request_steps() {
    assert_eq!(request_step(&Command::Init, true, true, false), RequestStep::AlreadyInitialized);
    assert_eq!(request_step(&Command::Init, false, true, false), RequestStep::Init);
    assert_eq!(request_step(&Command::Deinit, false, false, false), RequestStep::Deinit);
    assert_eq!(request_step(&Command::Sync, true, true, true), RequestStep::Handle);
    assert_eq!(request_step(&Command::Sync, true, true, false), RequestStep::LoadThenHandle);
    assert_eq!(request_step(&Command::Sync, true, false, false), RequestStep::NotInitialized);
}

#[test]
fn learned_routes_follow_stored_ones() {
    let stored = RouterRoute {
        uuid: "r".to_string(),
        router_name: "rt".to_string(),
        source: "10.0.0.0/24".to_string(),
        destination: "0.0.0.0/0".to_string(),
        next_hop: None,
        next_hop_mac: None,
        metric: 3,
    };
    let atts = vec![
        Attachment { switch_name: "a".to_string(), subnets: vec![subnet("10.0.0.0/24")] },
        Attachment { switch_name: "b".to_string(), subnets: vec![subnet("10.1.0.0/24"), subnet("10.2.0.0/24")] },
    ];
    let routes = list_routes_with_learned(vec![stored], &atts);
    assert_eq!(routes.len(), 4);
    assert_eq!(routes[0].uuid, "r");
    assert_eq!(routes[2].uuid, "learned:b:10.1.0.0/24");
    assert_eq!(routes[2].router_name, "__learned__");
    assert_eq!(routes[3].source, "10.2.0.0/24");
    assert_eq!(routes[3].destination, "10.2.0.0/24");
    assert_eq!(routes[3].metric, 0);
}

#[test]
fn attach_refuses_overlap_and_duplicates() {
    let atts = vec![Attachment { switch_name: "a".to_string(), subnets: vec![subnet("10.0.0.0/16")] }];
    assert!(validate_router_attach_no_cidr_conflict("rt", "b", &atts, &vec![subnet("10.1.0.0/16")]).is_ok());
    match validate_router_attach_no_cidr_conflict("rt", "b", &atts, &vec![subnet("10.0.5.0/24")]) {
        Err(AttachError::CidrConflict { candidate_switch, candidate_cidr, attached_switch, existing_cidr, router }) => {
            assert_eq!(
                (candidate_switch.as_str(), candidate_cidr.as_str(), attached_switch.as_str(), existing_cidr.as_str(), router.as_str()),
                ("b", "10.0.5.0/24", "a", "10.0.0.0/16", "rt")
            );
        }
        other => panic!("unexpected {other:?}"),
    }
    assert!(matches!(
        validate_router_attach_no_cidr_conflict("rt", "a", &atts, &vec![]),
        Err(AttachError::AlreadyAttached { .. })
    ));
    assert!(matches!(
        validate_router_attach_no_cidr_conflict("rt", "b", &atts, &vec![subnet("bogus")]),
        Err(AttachError::InvalidCidr(c)) if c == "bogus"
    ));
}

#[test]
fn detach_needs_an_attachment() {
    let ports = vec![RouterPort { uuid: "p".to_string(), router_name: "rt".to_string(), switch_name: "a".to_string() }];
    assert!(check_detach("rt", "a", &ports).is_ok());
    assert!(matches!(check_detach("rt", "b", &ports), Err(AttachError::NotAttached { router, switch }) if router == "rt" && switch == "b"));
}
