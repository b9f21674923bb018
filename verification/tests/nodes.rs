use o_lang::connection::{
    after_enrollment, check_session_node, choose_discovered_node, choose_stored_peer,
    explicit_connection_requested, judge_discovered, nothing_found, plan_connection, reroute,
    session_request, validate_connection_timeouts, ConnectionDefaults, ConnectionError,
    ConnectionPlan, DiscoveredNode, DiscoveryStep, LocalDevOpenSubmissionArgs, NodeConnectionArgs,
    SecurityMode, StoredPeer,
};
use o_lang::resolve::{resolve_node_connection, ResolveAction, ResolveEvent};
use o_lang::node_list::{node_rows, timeout_allowed};

fn node(id: &str, source: &str, loopback: bool) -> DiscoveredNode {
    DiscoveredNode {
        node_id: id.into(),
        source: source.into(),
        loopback,
        address: format!("{source}:7000"),
        server_name: "live".into(),
        security_mode: SecurityMode::LanOpen,
        supports_v2: true,
    }
}

fn peer(id: &str, mode: SecurityMode) -> StoredPeer {
    StoredPeer {
        node_id: id.into(),
        address: "old:1".into(),
        server_name: "pinned".into(),
        security_mode: mode,
        supports_v2: true,
        ca: "ca".into(),
        cert: "cert".into(),
        key: "key".into(),
        receipt: Some("receipt".into()),
    }
}

fn defaults() -> ConnectionDefaults {
    ConnectionDefaults {
        address: "127.0.0.1:1".into(),
        server_name: "localhost".into(),
        ca: "d/ca".into(),
        cert: "d/cert".into(),
        key: "d/key".into(),
    }
}

#[test]
fn timeouts_have_bounds() {
    let mut args = NodeConnectionArgs::default();
    assert_eq!(validate_connection_timeouts(&args), Ok((10, 60)));
    args.io_timeout_seconds = 0;
    assert_eq!(validate_connection_timeouts(&args), Err(ConnectionError::ZeroTimeout));
    args.io_timeout_seconds = 3601;
    assert_eq!(validate_connection_timeouts(&args), Err(ConnectionError::LongTimeout));
    args.io_timeout_seconds = 3600;
    assert!(validate_connection_timeouts(&args).is_ok());
}

#[test]
fn nodes_are_chosen_in_order() {
    let nodes = [
        node("b", "10.0.0.2", false),
        node("a", "127.0.0.1", true),
        node("c", "10.0.0.3", false),
        node("b", "10.0.0.1", false),
    ];
    assert_eq!(choose_discovered_node(&nodes, None, None), Some(3));
    assert_eq!(choose_discovered_node(&nodes, Some("a"), None), Some(1));
    assert_eq!(choose_discovered_node(&nodes, Some("x"), Some("a")), None);
    assert_eq!(choose_discovered_node(&nodes, None, Some("c")), Some(2));
    assert_eq!(choose_discovered_node(&nodes, None, Some("x")), Some(3));
    assert_eq!(choose_discovered_node(&nodes[1..2], None, None), Some(0));
    assert_eq!(choose_discovered_node(&[], None, None), None);
    let peers = [peer("b", SecurityMode::Paired), peer("a", SecurityMode::Paired)];
    assert_eq!(choose_stored_peer(&peers, None, None), Some(1));
    assert_eq!(choose_stored_peer(&peers, None, Some("b")), Some(0));
    assert_eq!(choose_stored_peer(&peers, Some("c"), None), None);
}

#[test]
fn what_is_spelled_out_counts() {
    let mut args = NodeConnectionArgs::default();
    assert!(!explicit_connection_requested(&args));
    assert!(matches!(plan_connection(&args, &defaults()), Ok(ConnectionPlan::Discover)));
    args.address = Some("10.0.0.9:7".into());
    match plan_connection(&args, &defaults()).unwrap() {
        ConnectionPlan::Explicit(resolved) => {
            assert_eq!(resolved.address, "10.0.0.9:7");
            assert_eq!(resolved.server_name, "localhost");
            assert_eq!(resolved.ca, "d/ca");
            let again = resolved.explicit_args();
            match plan_connection(&again, &defaults()).unwrap() {
                ConnectionPlan::Explicit(second) => {
                    assert_eq!(second.address, resolved.address);
                    assert_eq!(second.key, resolved.key);
                }
                other => panic!("{other:?}"),
            }
            assert_eq!(resolved.explicit_v2_args().unwrap_err(), ConnectionError::NoReceiptKey);
        }
        other => panic!("{other:?}"),
    }
    args.node = Some("n".into());
    assert!(matches!(plan_connection(&args, &defaults()), Ok(ConnectionPlan::Reroute)));
    args.manual = true;
    assert_eq!(
        plan_connection(&args, &defaults()).unwrap_err(),
        ConnectionError::NodeWithManual
    );
}

#[test]
fn pairing_pins_who_a_node_is() {
    let mut args = NodeConnectionArgs::default();
    args.address = Some("10.0.0.9:7".into());
    let paired = peer("n", SecurityMode::Paired);
    let resolved = reroute(&args, Some(&paired)).unwrap();
    assert_eq!(resolved.address, "10.0.0.9:7");
    assert_eq!(resolved.server_name, "pinned");
    assert_eq!(reroute(&args, None).unwrap_err(), ConnectionError::NotRemembered);
    let open = peer("n", SecurityMode::LanOpen);
    assert_eq!(reroute(&args, Some(&open)).unwrap_err(), ConnectionError::NotPaired);

    let mut found = node("n", "10.0.0.5", false);
    found.security_mode = SecurityMode::Other("ssh".into());
    match judge_discovered(&args, &found, Some(&paired)).unwrap() {
        DiscoveryStep::Pinned(resolved) => {
            assert_eq!(resolved.address, "10.0.0.5:7000");
            assert_eq!(resolved.server_name, "pinned");
            assert_eq!(resolved.ca, "ca");
        }
        other => panic!("{other:?}"),
    }
    assert_eq!(
        judge_discovered(&args, &found, Some(&open)).unwrap_err(),
        ConnectionError::UnsupportedSecurity
    );
    found.security_mode = SecurityMode::PairingRequired;
    let error = judge_discovered(&args, &found, None).unwrap_err();
    assert_eq!(
        error.to_text("n", ""),
        "node `n` requires reciprocal public-key pairing; run `o node pair` on one node, then `o node pair n` on this node"
    );
    found.security_mode = SecurityMode::LanOpen;
    assert!(matches!(judge_discovered(&args, &found, None), Ok(DiscoveryStep::Enroll)));
    let enrolled = after_enrollment(&args, &found, None, Some(&open)).unwrap();
    assert_eq!(enrolled.server_name, "live");
    assert_eq!(
        after_enrollment(&args, &found, None, None).unwrap_err(),
        ConnectionError::NotEnrolled
    );
}

#[test]
fn sessions_keep_to_their_node() {
    let args = session_request(NodeConnectionArgs::default(), Some("n"));
    assert_eq!(args.node.as_deref(), Some("n"));
    let mut manual = NodeConnectionArgs::default();
    manual.manual = true;
    assert_eq!(session_request(manual, Some("n")).node, None);
    let mut resolved = reroute(
        &NodeConnectionArgs { address: Some("x".into()), ..NodeConnectionArgs::default() },
        Some(&peer("n", SecurityMode::Paired)),
    )
    .unwrap();
    assert!(check_session_node(&resolved, Some("n")).is_ok());
    assert_eq!(check_session_node(&resolved, Some("m")), Err(ConnectionError::OtherNode));
    assert_eq!(
        ConnectionError::OtherNode.to_text("m", "n"),
        "session belongs to node `m`, but connection selected `n`"
    );
    resolved.node_receipt_public_key = None;
    assert_eq!(check_session_node(&resolved, Some("n")), Err(ConnectionError::NoReceiptKey));
    assert_eq!(nothing_found(&NodeConnectionArgs::default()), ConnectionError::NoNode);
    assert_eq!(nothing_found(&args), ConnectionError::UnknownNode);
}

#[test]
fn submissions_take_a_receipt_key() {
    let mut submission = LocalDevOpenSubmissionArgs {
        submit: true,
        address: "a:1".into(),
        server_name: "s".into(),
        ca: None,
        key: Some("k".into()),
        node_receipt_public_key: None,
        connect_timeout_seconds: 10,
        io_timeout_seconds: 60,
    };
    assert_eq!(
        submission.connection(&None).unwrap_err(),
        ConnectionError::NoReceiptKey
    );
    submission.node_receipt_public_key = Some("r".into());
    let args = submission.connection(&Some("c".into())).unwrap();
    assert!(args.connection.manual);
    assert_eq!(args.connection.cert.as_deref(), Some("c"));
    assert_eq!(args.node_receipt_public_key.as_deref(), Some("r"));
}

#[test]
fn every_node_has_one_row() {
    let mut nodes = [node("c", "10.0.0.2", false), node("a", "10.0.0.1", false)];
    nodes[0].security_mode = SecurityMode::Other("ssh".into());
    let peers = [peer("b", SecurityMode::Paired), peer("a", SecurityMode::Paired)];
    assert!(timeout_allowed(1) && timeout_allowed(60_000));
    assert!(!timeout_allowed(0) && !timeout_allowed(60_001));
    let rows = node_rows(&nodes, &[false, true], &peers, Some("b"));
    let ids: Vec<&str> = rows.iter().map(|r| r.node_id.as_str()).collect();
    assert_eq!(ids, ["a", "b", "c"]);
    assert!(rows[0].reachable && rows[0].remembered && !rows[0].selected);
    assert!(!rows[1].reachable && rows[1].remembered && rows[1].selected);
    assert!(rows[2].reachable && !rows[2].remembered);
    assert_eq!(rows[2].security_mode, SecurityMode::Other("ssh".into()));
    assert_eq!(rows[1].security_mode, SecurityMode::Paired);
}

#[test]
fn nodes_are_reached_step_by_step() {
    let args = NodeConnectionArgs::default();
    let next = |event: ResolveEvent| resolve_node_connection(&args, &defaults(), event);
    assert!(matches!(next(ResolveEvent::Start), ResolveAction::Discover));
    let nodes = [node("b", "10.0.0.2", false), node("a", "10.0.0.1", false)];
    assert!(matches!(
        next(ResolveEvent::Answered(&nodes, None)),
        ResolveAction::LoadChosen { place: 1 }
    ));
    assert!(matches!(next(ResolveEvent::Answered(&[], None)), ResolveAction::ListPeers));
    let paired = peer("a", SecurityMode::Paired);
    match next(ResolveEvent::Chosen(&nodes[1], Some(&paired))) {
        ResolveAction::Reach { resolved, prefer } => {
            assert!(prefer);
            assert_eq!(resolved.address, "10.0.0.1:7000");
            assert_eq!(resolved.server_name, "pinned");
        }
        other => panic!("{other:?}"),
    }
    assert!(matches!(next(ResolveEvent::Chosen(&nodes[1], None)), ResolveAction::Enroll));
    let open = peer("a", SecurityMode::LanOpen);
    match next(ResolveEvent::Enrolled(&nodes[1], None, Some(&open))) {
        ResolveAction::Reach { resolved, prefer } => {
            assert!(prefer);
            assert_eq!(resolved.server_name, "live");
        }
        other => panic!("{other:?}"),
    }
    assert!(matches!(
        next(ResolveEvent::Enrolled(&nodes[1], None, None)),
        ResolveAction::Fail(ConnectionError::NotEnrolled)
    ));
    let peers = [peer("c", SecurityMode::Paired), peer("b", SecurityMode::Paired)];
    match next(ResolveEvent::Listed(&peers, Some("c"))) {
        ResolveAction::Reach { resolved, prefer } => {
            assert!(prefer);
            assert_eq!(resolved.node_id.as_deref(), Some("c"));
            assert_eq!(resolved.address, "old:1");
        }
        other => panic!("{other:?}"),
    }
    assert!(matches!(
        next(ResolveEvent::Listed(&[], None)),
        ResolveAction::Fail(ConnectionError::NoNode)
    ));
}

#[test]
fn named_nodes_are_reached_elsewhere_only_when_paired() {
    let args = NodeConnectionArgs {
        node: Some("a".into()),
        address: Some("10.0.0.9:7".into()),
        ..NodeConnectionArgs::default()
    };
    let next = |event: ResolveEvent| resolve_node_connection(&args, &defaults(), event);
    assert!(matches!(next(ResolveEvent::Start), ResolveAction::LoadNamed));
    match next(ResolveEvent::Named(Some(&peer("a", SecurityMode::Paired)))) {
        ResolveAction::Reach { resolved, prefer } => {
            assert!(!prefer);
            assert_eq!(resolved.address, "10.0.0.9:7");
        }
        other => panic!("{other:?}"),
    }
    assert!(matches!(
        next(ResolveEvent::Named(Some(&peer("a", SecurityMode::LanOpen)))),
        ResolveAction::Fail(ConnectionError::NotPaired)
    ));
    assert!(matches!(
        next(ResolveEvent::Named(None)),
        ResolveAction::Fail(ConnectionError::NotRemembered)
    ));
}
