use o_lang::authority::{
    authority_dev_mint_open, authority_issue, dev_expiry, lease_window, observation_window,
    operation_deadline,
    snapshot_reservation, validate_dev_lifetime, ActorGeneration, CapacityObservation,
    CommandBinding, IssueError, IssueRequest, LeaseExpectation, LeaseStateBinding, MintError,
    OpenLease, OpenMint, PlacementPurpose, SessionStateTierArg, StateQuotaLimits, StateReservation,
};
use o_lang::mint::{
    authority_dev_mint_execute, authority_dev_mint_recover, check_placement, plan_execution,
    plan_recovery, LiveOperation, LiveSession, OperationStatus, PlacementIdentity, RecoveryRequest,
    RecoveryTrigger, ReplayClass,
};
use o_lang::connection::ResolvedNodeConnection;
use o_lang::session::{
    absolute_deadline, bearer_of, check_bound_operation, check_input_file, check_key_paths, check_limits,
    check_operation_args, check_pair, check_record, check_secret_mode, check_source, fresh_bearer,
    fresh_id, key_step, name_of, new_record, open_failure, pair_next, points_at, read_pointer,
    wait_seconds, wait_step, write_pointer, FailurePoint, KeyStep, PairStep, SessionError, WaitStep,
};
use o_lang::session_run::{run_next, RunEvent, RunStep};
use o_lang::session_args::{
    choose_shims, execute_invocation, manual_connection, no_runtime, open_invocation,
    runtime_candidates, LocalRuntime, OperationFiles, ShimEnvironment, ShimSource,
};

fn mint() -> OpenMint {
    OpenMint {
        node_id: "n".into(),
        principal_sha256: "p".into(),
        state_session: "s".into(),
        node_generation: 1,
        tier: SessionStateTierArg::CheckpointRestore,
        request_id: "r0".into(),
        commitment: "c".into(),
        quota_generation: 4,
        quotas: StateQuotaLimits {
            max_open_sessions: 1,
            max_actors_per_session: 1,
            max_snapshot_bytes_per_actor: 77,
            max_state_bytes_per_session: 5,
            max_state_bytes_total: 6,
        },
        reserve_snapshot_bytes: None,
        reserve_state_bytes: 5,
    }
}

fn request(purpose: PlacementPurpose) -> IssueRequest {
    let mut command = authority_dev_mint_open(&mint());
    command.purpose = purpose;
    let open = purpose == PlacementPurpose::OpenSession;
    IssueRequest {
        lifetime_seconds: 20,
        state_control: purpose != PlacementPurpose::Execute,
        issuer: "key".into(),
        observation: if open {
            Some(CapacityObservation { issuer: "key".into(), digest: "o".into() })
        } else {
            None
        },
        command_digest: "d".into(),
        expectation: LeaseExpectation {
            node_id: "n".into(),
            command_digest: "d".into(),
            state: if open {
                LeaseStateBinding::Open {
                    observation: "o".into(),
                    reservation: StateReservation { actors: 1, snapshot_bytes: 77, state_bytes: 5 },
                }
            } else {
                LeaseStateBinding::Existing { session: "s".into(), actor: None }
            },
        },
        command,
        now: 1000,
    }
}

#[test]
fn leases_are_for_what_they_expect() {
    for purpose in [PlacementPurpose::OpenSession, PlacementPurpose::Execute, PlacementPurpose::Recover] {
        let lease = authority_issue(&request(purpose)).unwrap();
        assert_eq!((lease.issued_at, lease.expires_at), (1000, 21_000));
    }
}

#[test]
fn every_mismatch_refuses_a_lease() {
    let refused = |r: &IssueRequest| authority_issue(r).unwrap_err();
    let mut r = request(PlacementPurpose::Execute);
    r.lifetime_seconds = 31;
    assert_eq!(refused(&r), IssueError::Lifetime);
    let mut r = request(PlacementPurpose::OpenSession);
    r.observation = None;
    assert_eq!(refused(&r), IssueError::NoObservation);
    let mut r = request(PlacementPurpose::OpenSession);
    r.issuer = "other".into();
    assert_eq!(refused(&r), IssueError::ObservationIssuer);
    let mut r = request(PlacementPurpose::Recover);
    r.observation = Some(CapacityObservation { issuer: "key".into(), digest: "o".into() });
    assert_eq!(refused(&r), IssueError::UnexpectedObservation);
    let mut r = request(PlacementPurpose::Execute);
    r.now = u64::MAX - 5;
    assert_eq!(refused(&r), IssueError::Expiry);
    let mut r = request(PlacementPurpose::Execute);
    r.state_control = true;
    assert_eq!(refused(&r), IssueError::ExecuteWithStateControl);
    let mut r = request(PlacementPurpose::Recover);
    r.state_control = false;
    assert_eq!(refused(&r), IssueError::NeedsStateControl);
    let mut r = request(PlacementPurpose::Execute);
    r.expectation.node_id = "m".into();
    assert_eq!(refused(&r), IssueError::OtherNode);
    assert_eq!(
        IssueError::OtherNode.to_text(false),
        "lease expectation and hosted command name different nodes"
    );
    let mut r = request(PlacementPurpose::Execute);
    r.expectation.command_digest = "e".into();
    assert_eq!(refused(&r), IssueError::OtherCommand);
    let mut r = request(PlacementPurpose::Execute);
    r.expectation.state = LeaseStateBinding::Existing { session: "s".into(), actor: Some("a".into()) };
    assert_eq!(refused(&r), IssueError::OtherState);
}

#[test]
fn lifetimes_and_deadlines_have_bounds() {
    assert!(validate_dev_lifetime(0).is_err());
    assert!(validate_dev_lifetime(30).is_ok());
    assert_eq!(dev_expiry(5, 2), Ok(2005));
    assert_eq!(dev_expiry(5, u64::MAX), Err(MintError::LeaseLifetime));
    assert_eq!(dev_expiry(u64::MAX, 1), Err(MintError::LeaseExpiry));
    assert_eq!(lease_window(0, 1), Ok((0, 1000)));
    assert_eq!(observation_window(9), Ok((8, 4009)));
    assert_eq!(observation_window(0), Ok((0, 4000)));
    assert_eq!(observation_window(u64::MAX - 3_999), Err(MintError::ObservationExpiry));
    assert_eq!(lease_window(9, 1), Ok((8, 1009)));
    assert_eq!(operation_deadline(9, 86_401), Err(MintError::Deadline));
    assert_eq!(operation_deadline(9, 1), Ok(1009));
    assert_eq!(snapshot_reservation(SessionStateTierArg::Stateless, None, 9), 0);
    assert_eq!(snapshot_reservation(SessionStateTierArg::CheckpointRestore, None, 9), 9);
    assert_eq!(snapshot_reservation(SessionStateTierArg::CheckpointRestore, Some(3), 9), 3);
    assert_eq!(SessionStateTierArg::LiveActorOnly.cli_name(), "live-actor-only");
}

fn open_lease() -> OpenLease {
    OpenLease {
        signed_by: "pub".into(),
        state_control: true,
        command: authority_dev_mint_open(&mint()),
        profile_issuer: "key".into(),
        capacity_issuer: "key".into(),
        warrant_issuers: vec!["key".into()],
    }
}

#[test]
fn opening_leases_are_checked_in_full() {
    assert_eq!(open_lease().check("pub", "key", "s", "p"), Ok(()));
    assert_eq!(open_lease().check("x", "key", "s", "p"), Err(MintError::NotOurs));
    assert_eq!(open_lease().check("pub", "key", "x", "p"), Err(MintError::OtherCapability));
    assert_eq!(open_lease().check("pub", "key", "s", "x"), Err(MintError::OtherCertificate));
    let mut lease = open_lease();
    lease.warrant_issuers.push("other".into());
    assert_eq!(lease.check("pub", "key", "s", "p"), Err(MintError::EvidenceIssuer));
    lease.state_control = false;
    assert_eq!(lease.check("pub", "key", "s", "p"), Err(MintError::NotOpen));
}

fn live() -> LiveSession {
    LiveSession {
        session_id: "s".into(),
        node_id: "n".into(),
        principal_sha256: "p".into(),
        state_tier: SessionStateTierArg::CheckpointRestore,
        recovery_required: true,
        next_client_sequence: 5,
        journal_head_sha256: "h".into(),
        actor_generation: Some(ActorGeneration { digest: "g".into(), generation: 3 }),
        actor_id: None,
        next_actor_generation: 4,
        checkpoint_sha256: Some("k".into()),
        checkpoint_bytes: Some(10),
        operations: vec![],
    }
}

#[test]
fn executions_follow_the_session() {
    let open: CommandBinding = authority_dev_mint_open(&mint());
    let plan = plan_execution(&open, &live(), "s", None).unwrap();
    assert_eq!(plan.sequence, 5);
    assert!(!plan.establishing);
    let command = authority_dev_mint_execute(&open, "r1", "op", &plan);
    assert_eq!(command.purpose, PlacementPurpose::Execute);
    assert_eq!(command.node_id, open.node_id);
    assert_eq!(command.state_reservation, open.state_reservation);
    assert_eq!(command.operation_sha256.as_deref(), Some("op"));
    assert_eq!(command.open_capability_commitment, None);
    let mut fresh = live();
    fresh.actor_generation = None;
    assert!(plan_execution(&open, &fresh, "s", Some(5)).unwrap().establishing);
    fresh.next_actor_generation = 0;
    assert_eq!(
        plan_execution(&open, &fresh, "s", None).unwrap_err(),
        MintError::NoNextGeneration
    );
    let error = plan_execution(&open, &live(), "s", Some(6)).unwrap_err();
    assert_eq!(error, MintError::Sequence);
    assert!(error.to_text("", 5, 6).ends_with("exact next sequence 5; got 6"));
    assert_eq!(
        plan_execution(&open, &live(), "x", None).unwrap_err(),
        MintError::OtherSessionOrTier
    );
    let mut stateless_open = authority_dev_mint_open(&mint());
    stateless_open.session_state_tier = SessionStateTierArg::Stateless;
    let mut stateless = live();
    stateless.state_tier = SessionStateTierArg::Stateless;
    assert_eq!(
        plan_execution(&stateless_open, &stateless, "s", None).unwrap_err(),
        MintError::StatelessActor
    );
}

fn recovery() -> RecoveryRequest {
    RecoveryRequest {
        operation_id: None,
        replay_class: None,
        stable_publication_id: None,
        sequence: None,
        head_session: "s".into(),
        head_sha256: "h".into(),
    }
}

#[test]
fn lost_actors_are_recovered_at_their_successor() {
    let open = authority_dev_mint_open(&mint());
    let plan = plan_recovery(&open, &live(), "s", &recovery()).unwrap();
    match &plan.trigger {
        RecoveryTrigger::ActorLost { previous, checkpoint_bytes, .. } => {
            assert_eq!(previous.generation, 3);
            assert_eq!(*checkpoint_bytes, 10);
        }
        other => panic!("{other:?}"),
    }
    assert_eq!(plan.evidence_sha256, "h");
    let command = authority_dev_mint_recover(&open, "r2", "w", &plan);
    assert_eq!(command.purpose, PlacementPurpose::Recover);
    assert_eq!(command.recovery_warrant_sha256.as_deref(), Some("w"));
    assert_eq!(command.client_sequence, 5);
    assert_eq!(command.actor_generation.unwrap().digest, "g");
}

#[test]
fn every_obstacle_to_recovery_is_named() {
    let open = authority_dev_mint_open(&mint());
    let refused = |l: &LiveSession, r: &RecoveryRequest| plan_recovery(&open, l, "s", r).unwrap_err();
    let mut l = live();
    l.node_id = "m".into();
    assert_eq!(refused(&l, &recovery()), MintError::OtherSession);
    let mut r = recovery();
    r.head_sha256 = "x".into();
    assert_eq!(refused(&live(), &r), MintError::OtherJournal);
    let mut l = live();
    l.recovery_required = false;
    assert_eq!(refused(&l, &recovery()), MintError::NotAwaitingRecovery);
    let mut l = live();
    l.actor_generation = None;
    assert_eq!(refused(&l, &recovery()), MintError::NoActor);
    let mut l = live();
    l.checkpoint_sha256 = None;
    assert_eq!(refused(&l, &recovery()), MintError::NoCheckpoint);
    let mut l = live();
    l.checkpoint_bytes = None;
    assert_eq!(refused(&l, &recovery()), MintError::NoCheckpointLength);
    l.checkpoint_bytes = Some(0);
    assert_eq!(refused(&l, &recovery()), MintError::EmptyCheckpoint);
    let mut l = live();
    l.next_actor_generation = 5;
    assert_eq!(refused(&l, &recovery()), MintError::NotFenced);
    l.next_actor_generation = 4;
    l.actor_id = Some("a".into());
    assert_eq!(refused(&l, &recovery()), MintError::NotFenced);
    let mut l = live();
    l.actor_generation = Some(ActorGeneration { digest: "g".into(), generation: u64::MAX });
    assert_eq!(refused(&l, &recovery()), MintError::GenerationOverflow);
    let mut r = recovery();
    r.replay_class = Some(ReplayClass::Pure);
    assert_eq!(refused(&live(), &r), MintError::ReplayWithoutOperation);
    let mut r = recovery();
    r.stable_publication_id = Some("x".into());
    assert_eq!(refused(&live(), &r), MintError::PublicationWithoutOperation);
    let mut r = recovery();
    r.sequence = Some(9);
    assert_eq!(refused(&live(), &r), MintError::Sequence);
}

#[test]
fn ambiguous_operations_are_replayed_by_name() {
    let open = authority_dev_mint_open(&mint());
    let mut l = live();
    l.operations = vec![
        LiveOperation {
            operation_id: "a".into(),
            operation_sha256: "da".into(),
            status: OperationStatus::Succeeded,
        },
        LiveOperation {
            operation_id: "b".into(),
            operation_sha256: "db".into(),
            status: OperationStatus::Ambiguous,
        },
    ];
    let refused = |r: &RecoveryRequest| plan_recovery(&open, &l, "s", r).unwrap_err();
    assert_eq!(refused(&recovery()), MintError::AmbiguousOperation);
    let mut r = recovery();
    r.operation_id = Some("a".into());
    assert_eq!(refused(&r), MintError::NotAmbiguous);
    assert_eq!(
        MintError::NotAmbiguous.to_text("a", 0, 0),
        "operation `a` is not ambiguous in the current session"
    );
    r.operation_id = Some("b".into());
    assert_eq!(refused(&r), MintError::NoReplayClass);
    r.replay_class = Some(ReplayClass::Idempotent);
    assert_eq!(refused(&r), MintError::NoPublication);
    r.stable_publication_id = Some("p".into());
    match plan_recovery(&open, &l, "s", &r).unwrap().trigger {
        RecoveryTrigger::AmbiguousOperation { operation_sha256, replay_class, .. } => {
            assert_eq!(operation_sha256, "db");
            assert_eq!(replay_class, ReplayClass::Idempotent);
        }
        other => panic!("{other:?}"),
    }
    r.replay_class = Some(ReplayClass::Pure);
    assert_eq!(refused(&r), MintError::PublicationNotIdempotent);
    r.stable_publication_id = None;
    assert!(plan_recovery(&open, &l, "s", &r).is_ok());
}

#[test]
fn placements_may_not_switch() {
    let place = |target: &str| PlacementIdentity {
        target_descriptor: target.into(),
        requirement_footprint: "f".into(),
        backend_implementation: "b".into(),
        realization_pipeline: "r".into(),
        trust_policy: "t".into(),
        cpu_slots: 1,
        memory_bytes: 2,
        scratch_bytes: 3,
    };
    assert!(check_placement(&place("x"), &place("x"), false).is_ok());
    assert_eq!(check_placement(&place("x"), &place("y"), false), Err(MintError::OtherPlacement));
    assert_eq!(
        check_placement(&place("x"), &place("y"), true),
        Err(MintError::OtherRecoveryPlacement)
    );
}

#[test]
fn names_and_secrets_are_fresh() {
    assert_eq!(name_of("task", &[0x0a, 0xff]), "task-0aff");
    let a = fresh_id("task").unwrap();
    let b = fresh_id("task").unwrap();
    assert!(a.starts_with("task-") && a.len() == 37);
    assert_ne!(a, b);
    assert_eq!(bearer_of(&[0x0a, 0xff]), "0aff");
    let bearer = fresh_bearer().unwrap();
    assert_eq!(bearer.len(), 64);
    assert!(bearer.chars().all(|c| c.is_ascii_hexdigit() && !c.is_ascii_uppercase()));
}

#[test]
fn limits_are_kept() {
    assert_eq!(check_limits(0, 1, 9), Err(SessionError::Deadline));
    assert_eq!(check_limits(1, 10, 9), Err(SessionError::OutputLimit));
    assert_eq!(check_limits(86_400, 9, 9), Ok(()));
    assert_eq!(check_source("é", 2), Ok(()));
    assert_eq!(check_source("éa", 2), Err(SessionError::SourceLength));
    assert_eq!(absolute_deadline(1, 2), Ok(2001));
    assert_eq!(absolute_deadline(u64::MAX, 2), Err(SessionError::DeadlineOverflow));
    assert_eq!(wait_seconds(5), 20);
    assert_eq!(wait_seconds(u64::MAX), u64::MAX);
}

#[test]
fn pointers_name_one_directory() {
    assert_eq!(read_pointer(" session-1\n").unwrap(), "session-1");
    for bad in ["", " ", ".", "..", "a/b", "a\\b"] {
        assert_eq!(read_pointer(bad).unwrap_err(), SessionError::Pointer);
    }
    let text = write_pointer("/state/sessions//session-1/").unwrap();
    assert_eq!(read_pointer(&text).unwrap(), "session-1");
    assert!(points_at(&text, "/state/sessions/session-1"));
    assert!(!points_at(&text, "/state/sessions/session-2"));
    assert_eq!(write_pointer("a/b\\c").unwrap_err(), SessionError::DirectoryName);
    assert_eq!(write_pointer("a/..").unwrap_err(), SessionError::NoDirectoryName);
}

#[test]
fn records_belong_to_their_capability() {
    let mut record = new_record("s", "n", SessionStateTierArg::Stateless, 7);
    assert_eq!(record.state_tier, "stateless");
    assert_eq!(check_record(&record, "s"), Ok(()));
    assert_eq!(check_record(&record, "x"), Err(SessionError::Capability));
    record.schema = "other".into();
    assert_eq!(check_record(&record, "s"), Err(SessionError::Schema));
}

#[test]
fn waiting_ends_with_the_operation() {
    assert_eq!(wait_step(OperationStatus::Running, false, false), Ok(WaitStep::Sleep));
    assert_eq!(
        wait_step(OperationStatus::Accepted, true, false),
        Err(SessionError::WaitDeadline)
    );
    assert_eq!(wait_step(OperationStatus::Failed, true, true), Ok(WaitStep::Ended));
    assert_eq!(
        wait_step(OperationStatus::Succeeded, false, false),
        Err(SessionError::NoOutcome)
    );
    assert_eq!(
        wait_step(OperationStatus::Ambiguous, false, true),
        Err(SessionError::NotReplayable)
    );
    assert!(open_failure(FailurePoint::PreSend, "c.json").contains("retained at `c.json`"));
}

#[test]
fn paired_outputs_are_both_written_or_neither() {
    let run = |outcomes: &[bool]| {
        let mut step = PairStep::ReserveFirst;
        let mut seen = Vec::new();
        for well in outcomes {
            seen.push(step);
            step = pair_next(step, *well);
        }
        seen.push(step);
        seen
    };
    assert_eq!(run(&[true, true, true]).last(), Some(&PairStep::Done));
    assert_eq!(
        run(&[true, false, true]),
        [PairStep::ReserveFirst, PairStep::ReserveSecond, PairStep::RemoveFirst, PairStep::Failed]
    );
    assert_eq!(
        run(&[true, true, false, true])[3..],
        [PairStep::RemoveBoth, PairStep::Failed]
    );
    assert_eq!(run(&[false]).last(), Some(&PairStep::Failed));
    assert_eq!(check_pair("a", "a"), Err(SessionError::SamePaths));
    assert_eq!(check_pair("a/b", "a//b"), Err(SessionError::SamePaths));
    assert_eq!(check_pair("a/b", "a/./b/"), Err(SessionError::SamePaths));
    assert_eq!(check_pair("a", "b"), Ok(()));
    assert_eq!(check_key_paths("k/s", "k//s"), Err(SessionError::SameKeys));
    assert_eq!(check_key_paths("k/s", "k/../k/s"), Ok(()));
}

#[test]
fn files_and_keys_are_checked() {
    assert_eq!(check_secret_mode(0o100600), Ok(()));
    assert_eq!(check_secret_mode(0o100640), Err(SessionError::Exposed));
    assert_eq!(check_input_file(true, true, 1), Err(SessionError::NotAFile));
    assert_eq!(check_input_file(false, true, 2 * 1024 * 1024), Ok(()));
    assert_eq!(check_input_file(false, true, 2 * 1024 * 1024 + 1), Err(SessionError::TooLong));
    assert_eq!(key_step(true, false), KeyStep::WritePublic);
    assert_eq!(key_step(false, true), KeyStep::Replace);
    assert_eq!(check_key_paths("a", "a"), Err(SessionError::SameKeys));
    assert_eq!(check_operation_args(true, true, true, false), Err(SessionError::NoAttempt));
    assert_eq!(check_operation_args(false, true, true, true), Err(SessionError::NoSource));
    assert_eq!(check_bound_operation(&Some("a".into()), "a"), Ok(()));
    assert_eq!(check_bound_operation(&None, "a"), Err(SessionError::OtherOperation));
    assert_eq!(SessionError::NoTask.to_text(), "--task-sha256 is required without --prepared-operation");
}

fn resolved(receipt: Option<&str>) -> ResolvedNodeConnection {
    ResolvedNodeConnection {
        node_id: Some("n".into()),
        address: "a:1".into(),
        server_name: "s".into(),
        ca: "ca".into(),
        cert: "cert".into(),
        key: "key".into(),
        node_receipt_public_key: receipt.map(|s| s.to_string()),
        connect_timeout_seconds: 10,
        io_timeout_seconds: 60,
    }
}

#[test]
fn invocations_spell_everything_out() {
    let runtime = LocalRuntime {
        shim_dir: "shims".into(),
        runtime_binary: "O".into(),
        signing_key: "sk".into(),
    };
    let open = open_invocation(
        &runtime,
        "src.O",
        "n",
        SessionStateTierArg::Stateless,
        "cap.json",
        "lease.json",
        &resolved(Some("r")),
    )
    .unwrap();
    assert_eq!(open[..4], ["node", "authority", "dev-mint", "open"]);
    let after = |list: &[String], flag: &str| {
        let i = list.iter().position(|a| a == flag).unwrap();
        list[i + 1].clone()
    };
    assert_eq!(after(&open, "--state-tier"), "stateless");
    assert_eq!(after(&open, "--node-receipt-public-key"), "r");
    assert!(open.contains(&"--submit".to_string()));
    assert_eq!(
        manual_connection(&resolved(None), true).unwrap_err(),
        SessionError::NoReceiptKey
    );
    assert_eq!(manual_connection(&resolved(None), false).unwrap().len(), 15);
    let files = OperationFiles {
        open_lease: "l".into(),
        source: "s.O".into(),
        operation_id: "op".into(),
        task_sha256: "t".into(),
        operation_out: "o".into(),
        lease_out: "e".into(),
        capability: "c".into(),
    };
    let execute = execute_invocation(&runtime, &files, 30, 100, &resolved(Some("r"))).unwrap();
    assert_eq!(after(&execute, "--deadline-seconds"), "30");
    assert_eq!(after(&execute, "--key"), "key");
    assert_eq!(execute.last().unwrap(), "r");
}

#[test]
fn runtimes_are_looked_for_in_order() {
    let some = |s: &str| Some(s.to_string());
    assert_eq!(
        runtime_candidates(&some("x"), &some("/bin"), &None, &some("/usr/bin/O")),
        ["x", "/bin/ostadix-evaluator", "/bin/O", "/usr/bin/O"]
    );
    assert_eq!(
        runtime_candidates(&None, &some("/"), &None, &None),
        ["/ostadix-evaluator", "/O"]
    );
    assert!(runtime_candidates(&some(""), &None, &None, &None).is_empty());
    assert!(no_runtime(&[]).ends_with("run setup.sh"));
    assert!(no_runtime(&["a (b)".into(), "c".into()]).ends_with("; rejected candidates: a (b), c"));
    let env = |first, second, checkout, has: bool, here: bool| ShimEnvironment {
        first,
        second,
        checkout,
        checkout_has_shims: has,
        current_has_shims: here,
    };
    let directory = |e: ShimEnvironment| match choose_shims(&e) {
        ShimSource::Directory(path) => path,
        ShimSource::Bundled => "-".to_string(),
    };
    assert_eq!(directory(env(some("a"), some("b"), some("c"), true, true)), "a");
    assert_eq!(directory(env(None, some("b"), some("c"), true, true)), "b");
    assert_eq!(directory(env(some(""), some("b"), some("c"), true, true)), "c/backends");
    assert_eq!(directory(env(None, None, some("c"), false, true)), "-");
    assert_eq!(directory(env(None, None, None, false, true)), "backends");
    assert_eq!(directory(env(None, None, None, false, false)), "-");
}

#[test]
fn temporary_sessions_are_closed_behind_the_program() {
    let run = |events: &[RunEvent], keep_open: bool| {
        let mut step = RunStep::Open;
        for event in events {
            step = run_next(step, *event, keep_open);
        }
        step
    };
    let outcome = RunEvent::Outcome { succeeded: false };
    let sent = [RunEvent::Done, RunEvent::Done, outcome];
    assert_eq!(run(&sent, true), RunStep::Ended { open: true, succeeded: false });
    assert_eq!(run(&sent, false), RunStep::Close { succeeded: false });
    let closed = [RunEvent::Done, RunEvent::Done, outcome, RunEvent::Done, RunEvent::Done];
    assert_eq!(run(&closed, false), RunStep::Ended { open: false, succeeded: false });
    let stuck = [RunEvent::Done, RunEvent::Done, outcome, RunEvent::Failed];
    assert_eq!(run(&stuck, false), RunStep::Ended { open: true, succeeded: false });
    assert_eq!(run(&[RunEvent::Failed], false), RunStep::Failed);
    assert_eq!(run(&[RunEvent::Done, RunEvent::Done, RunEvent::Failed], false), RunStep::Failed);
}
