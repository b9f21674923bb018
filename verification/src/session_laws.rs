//! What holds of leases, commands, connections and sessions, in terms of what was
//! asked for.

use vstd::prelude::*;

use crate::authority::{
    expiry, issue_fault, ActorLife, CommandFacts, IssueRequest, OpenMint, PlacementPurpose,
    SessionStateTierArg, StateFacts,
};
use crate::connection::{
    explicit_connection, is_choice, is_peer_choice, node_before, Asked, ConnectionDefaults,
    DiscoveredNode, Resolved, StoredPeer,
};
use crate::mint::{
    execute_facts, execution_fault, loss_of, recover_facts, recovery_fault, LiveSession, Loss,
    RecoveryRequest,
};
use crate::session_args::{
    connection_arguments, execute_arguments, open_arguments, runtime_places, shim_directory,
    LocalRuntime, OperationFiles, ShimEnvironment,
};
use crate::session_run::{run_states, RunEvent, RunStep};
use crate::text::{decimal, lex_less, shown_as};

verus! {

/// A lease is given exactly where it is asked for at most thirty seconds that the
/// clock can hold; for the node and the command that are expected; with state
/// control for all but executions; and with the state that is expected: for an
/// opening what it sets aside, out of what the authority itself observed, and else,
/// without an observation, the session and its actor.
pub proof fn leases_are_given_for_what_is_expected(request: IssueRequest)
    ensures
        issue_fault(request) is None <==> {
            let command = request.command;
            let expected = request.expectation;
            let observation = request.observation;
            &&& 1 <= request.lifetime_seconds <= 30
            &&& request.now + 1000 * request.lifetime_seconds <= u64::MAX
            &&& expected.node_id@ == command.node_id@
            &&& expected.command_digest@ == request.command_digest@
            &&& match command.purpose {
                PlacementPurpose::OpenSession => {
                    &&& request.state_control
                    &&& observation is Some
                    &&& observation->Some_0.issuer@ == request.issuer@
                    &&& expected.state@ == StateFacts::Open {
                        observation: observation->Some_0.digest@,
                        reservation: command.state_reservation,
                    }
                },
                PlacementPurpose::Execute => {
                    &&& !request.state_control
                    &&& observation is None
                    &&& expected.state@ == StateFacts::Existing {
                        session: command.state_session@,
                        actor: match command.actor_generation {
                            Some(actor) => Some(actor.digest@),
                            None => None,
                        },
                    }
                },
                PlacementPurpose::Recover => {
                    &&& request.state_control
                    &&& observation is None
                    &&& expected.state@ == StateFacts::Existing {
                        session: command.state_session@,
                        actor: match command.actor_generation {
                            Some(actor) => Some(actor.digest@),
                            None => None,
                        },
                    }
                },
            }
        },
{
}

/// The command that opens a session is its first, for one actor, for the session
/// and the node that are named, under the commitment that is given; it sets aside
/// what is asked for, and where nothing is asked for snapshots, all that the node
/// takes for a session that is restored from them and nothing for any other.
pub proof fn openings_say_what_they_open(mint: OpenMint)
    ensures
        ({
            let command = mint.command();
            &&& command.purpose == PlacementPurpose::OpenSession
            &&& command.sequence == 0
            &&& command.node_id == mint.node_id@
            &&& command.session == mint.state_session@
            &&& command.principal == mint.principal_sha256@
            &&& command.request_id == mint.request_id@
            &&& command.tier == mint.tier
            &&& command.quotas == mint.quotas
            &&& command.quota_generation == mint.quota_generation
            &&& command.node_generation == mint.node_generation
            &&& command.commitment == Some(mint.commitment@)
            &&& command.operation is None
            &&& command.warrant is None
            &&& command.actor is None
            &&& command.reservation.actors == 1
            &&& command.reservation.state_bytes == mint.reserve_state_bytes
            &&& mint.reserve_snapshot_bytes is Some ==> command.reservation.snapshot_bytes
                == mint.reserve_snapshot_bytes->Some_0
            &&& mint.reserve_snapshot_bytes is None && mint.tier
                == SessionStateTierArg::CheckpointRestore ==> command.reservation.snapshot_bytes
                == mint.quotas.max_snapshot_bytes_per_actor
            &&& mint.reserve_snapshot_bytes is None && mint.tier
                != SessionStateTierArg::CheckpointRestore ==> command.reservation.snapshot_bytes
                == 0
        }),
{
}

/// A command that executes names its operation and no warrant, and one that
/// recovers its warrant and no operation; each carries the request, the number and
/// the actor that it is made for.
pub proof fn commands_say_what_they_do(
    open: CommandFacts,
    request_id: Seq<char>,
    sequence: u64,
    digest: Seq<char>,
    actor: ActorLife,
    present: Option<ActorLife>,
)
    ensures
        ({
            let e = execute_facts(open, request_id, sequence, digest, present);
            &&& e.purpose == PlacementPurpose::Execute
            &&& e.operation == Some(digest)
            &&& e.warrant is None
            &&& e.request_id == request_id
            &&& e.sequence == sequence
            &&& e.actor == present
            &&& e.node_generation == open.node_generation
        }),
        ({
            let r = recover_facts(open, request_id, sequence, digest, actor);
            &&& r.purpose == PlacementPurpose::Recover
            &&& r.warrant == Some(digest)
            &&& r.operation is None
            &&& r.request_id == request_id
            &&& r.sequence == sequence
            &&& r.actor == Some(actor)
            &&& r.node_generation == open.node_generation
        }),
{
}

/// An operation is executed exactly where the session is the one that the
/// capability is for, of the tier that it was opened with; where the number that is
/// asked for, if one is, is the node's next; and where a session without state has
/// no actor, and any other has one or can get one.
pub proof fn executions_fit_their_session(
    open: CommandFacts,
    live: LiveSession,
    capability: Seq<char>,
    sequence: Option<u64>,
)
    ensures
        execution_fault(open, live, capability, sequence) is None <==> {
            &&& live.session_id@ == capability
            &&& live.state_tier == open.tier
            &&& sequence is Some ==> sequence->Some_0 == live.next_client_sequence
            &&& open.tier == SessionStateTierArg::Stateless ==> live.actor_generation is None
            &&& open.tier != SessionStateTierArg::Stateless ==> live.actor_generation is Some
                || live.next_actor_generation > 0
        },
{
}

/// A session is recovered only for the capability, on the node, for the principal
/// and of the tier that it was opened with; from the head of its own journal; where
/// it waits for that; from a checkpoint that holds something; and under the node's
/// next number.
pub proof fn recoveries_fit_their_session(
    open: CommandFacts,
    live: LiveSession,
    capability: Seq<char>,
    request: RecoveryRequest,
)
    requires
        recovery_fault(open, live, capability, request) is None,
    ensures
        live.session_id@ == capability,
        live.node_id@ == open.node_id,
        live.principal_sha256@ == open.principal,
        live.state_tier == open.tier,
        open.tier == SessionStateTierArg::CheckpointRestore,
        request.head_session@ == live.session_id@,
        request.head_sha256@ == live.journal_head_sha256@,
        live.recovery_required,
        live.actor_generation is Some,
        live.checkpoint_sha256 is Some,
        live.checkpoint_bytes is Some,
        live.checkpoint_bytes->Some_0 > 0,
        request.sequence is Some ==> request.sequence->Some_0 == live.next_client_sequence,
{
}

/// What is recovered from is what the node says: the actor that is gone with its
/// checkpoint and journal, or the operation that was named.
pub proof fn losses_are_what_the_node_says(live: LiveSession, request: RecoveryRequest)
    requires
        loss_of(live, request) is Ok,
    ensures
        match loss_of(live, request)->Ok_0 {
            Loss::ActorLost { previous, checkpoint_sha256, checkpoint_bytes, journal_head_sha256 } => {
                &&& request.operation_id is None
                &&& previous == live.actor_generation->Some_0@
                &&& checkpoint_sha256 == live.checkpoint_sha256->Some_0@
                &&& checkpoint_bytes == live.checkpoint_bytes->Some_0
                &&& journal_head_sha256 == live.journal_head_sha256@
            },
            Loss::AmbiguousOperation { operation_id, operation_sha256, replay_class, publication } => {
                &&& request.operation_id is Some
                &&& operation_id == request.operation_id->Some_0@
                &&& request.replay_class == Some(replay_class)
                &&& publication == shown_as(request.stable_publication_id)
                &&& exists|i: int|
                    0 <= i < live.operations@.len() && (#[trigger] live.operations@[i]).operation_id@
                        == operation_id && live.operations@[i].operation_sha256@ == operation_sha256
            },
        },
{
    if request.operation_id is Some {
        let name = request.operation_id->Some_0@;
        crate::mint::lemma_place_of(live.operations@, name);
        let i = crate::mint::place_of(live.operations@, name)->Some_0;
        assert(live.operations@[i].operation_id@ == name);
    }
}

/// A proof lasts for as many seconds as it is asked for.
pub proof fn proofs_last_as_asked(now: u64, seconds: u64)
    ensures
        expiry(now, seconds) matches Ok(end) ==> end - now == 1000 * seconds,
        now + 1000 * seconds <= u64::MAX ==> expiry(now, seconds) is Ok,
        now + 1000 * seconds > u64::MAX ==> expiry(now, seconds) is Err,
{
}

/// The node that is asked for is the one that is chosen; else the preferred one,
/// where it answered; else one of another machine, where one did. Of several the
/// one that comes first by name is chosen.
pub proof fn nodes_are_chosen_as_asked(
    nodes: Seq<DiscoveredNode>,
    requested: Option<Seq<char>>,
    preferred: Option<Seq<char>>,
    i: int,
    j: int,
)
    requires
        is_choice(nodes, requested, preferred, i),
        0 <= j < nodes.len(),
    ensures
        requested is Some ==> nodes[i].node_id@ == requested->Some_0,
        requested is None && preferred is Some && nodes[j].node_id@ == preferred->Some_0
            ==> nodes[i].node_id@ == preferred->Some_0,
        requested is None && !nodes[j].loopback && (preferred is None || (forall|k: int|
            0 <= k < nodes.len() ==> (#[trigger] nodes[k]).node_id@ != preferred->Some_0))
            ==> !nodes[i].loopback && !lex_less(nodes[j].node_id@, nodes[i].node_id@),
        requested is None && preferred is None && (forall|k: int|
            0 <= k < nodes.len() ==> (#[trigger] nodes[k]).loopback) ==> !lex_less(
            nodes[j].node_id@,
            nodes[i].node_id@,
        ),
{
    crate::text::lemma_lex_total(nodes[i].node_id@, nodes[j].node_id@);
    if requested is None && (preferred is None || (forall|k: int|
        0 <= k < nodes.len() ==> (#[trigger] nodes[k]).node_id@ != preferred->Some_0)) {
        if !nodes[j].loopback {
            assert(crate::connection::some_remote(nodes));
        }
        if crate::connection::in_question(nodes, requested, preferred, j) {
            if lex_less(nodes[j].node_id@, nodes[i].node_id@) {
                assert(node_before(nodes[j], nodes[i]));
                assert(!node_before(nodes[i], nodes[j]));
            }
        }
    }
    if requested is None && preferred is Some && nodes[j].node_id@ == preferred->Some_0 {
        assert(crate::connection::named_among(nodes, preferred->Some_0));
    }
}

/// Of the nodes that are remembered, too, the one that is asked for is chosen, else
/// the preferred one, else the first by name.
pub proof fn peers_are_chosen_as_asked(
    peers: Seq<StoredPeer>,
    requested: Option<Seq<char>>,
    preferred: Option<Seq<char>>,
    i: int,
    j: int,
)
    requires
        is_peer_choice(peers, requested, preferred, i),
        0 <= j < peers.len(),
    ensures
        requested is Some ==> peers[i].node_id@ == requested->Some_0,
        requested is None && preferred is Some && peers[j].node_id@ == preferred->Some_0
            ==> peers[i].node_id@ == preferred->Some_0,
        requested is None && preferred is None ==> !lex_less(
            peers[j].node_id@,
            peers[i].node_id@,
        ),
{
    crate::text::lemma_lex_total(peers[i].node_id@, peers[j].node_id@);
    if requested is None && preferred is Some && peers[j].node_id@ == preferred->Some_0 {
        assert(crate::connection::peer_named(peers, preferred->Some_0));
    }
    if requested is None && preferred is None {
        assert(crate::connection::peer_in_question(peers, requested, preferred, j));
    }
}

/// What is said about a connection counts, and what is not said is as usual.
pub proof fn connections_are_as_spelled_out(asked: Asked, defaults: ConnectionDefaults)
    ensures
        ({
            let r = explicit_connection(asked, defaults);
            &&& asked.address is Some ==> r.address == asked.address->Some_0
            &&& asked.address is None ==> r.address == defaults.address@
            &&& asked.server_name is Some ==> r.server_name == asked.server_name->Some_0
            &&& asked.server_name is None ==> r.server_name == defaults.server_name@
            &&& asked.ca is Some ==> r.ca == asked.ca->Some_0
            &&& asked.ca is None ==> r.ca == defaults.ca@
            &&& asked.cert is Some ==> r.cert == asked.cert->Some_0
            &&& asked.cert is None ==> r.cert == defaults.cert@
            &&& asked.key is Some ==> r.key == asked.key->Some_0
            &&& asked.key is None ==> r.key == defaults.key@
            &&& r.node_id == asked.node
            &&& r.connect_timeout_seconds == asked.connect_timeout_seconds
            &&& r.io_timeout_seconds == asked.io_timeout_seconds
        }),
{
}

/// Whether an invocation gives a value to an option.
pub open spec fn gives(list: Seq<Seq<char>>, option: Seq<char>, value: Seq<char>) -> bool {
    exists|i: int| 0 <= i < list.len() - 1 && #[trigger] list[i] == option && list[i + 1] == value
}

/// An invocation that spells out a connection gives every part of it.
pub proof fn invocations_spell_out_connections(r: Resolved)
    ensures
        connection_arguments(r).contains("--manual"@),
        gives(connection_arguments(r), "--address"@, r.address),
        gives(connection_arguments(r), "--server-name"@, r.server_name),
        gives(connection_arguments(r), "--ca"@, r.ca),
        gives(connection_arguments(r), "--cert"@, r.cert),
        gives(connection_arguments(r), "--key"@, r.key),
        gives(
            connection_arguments(r),
            "--connect-timeout-seconds"@,
            decimal(r.connect_timeout_seconds as nat),
        ),
        gives(
            connection_arguments(r),
            "--io-timeout-seconds"@,
            decimal(r.io_timeout_seconds as nat),
        ),
{
    let list = connection_arguments(r);
    assert(list[0] == "--manual"@);
    assert(list[1] == "--address"@ && list[2] == r.address);
    assert(list[3] == "--server-name"@ && list[4] == r.server_name);
    assert(list[5] == "--ca"@ && list[6] == r.ca);
    assert(list[7] == "--cert"@ && list[8] == r.cert);
    assert(list[9] == "--key"@ && list[10] == r.key);
    assert(list[11] == "--connect-timeout-seconds"@ && list[12] == decimal(
        r.connect_timeout_seconds as nat,
    ));
    assert(list[13] == "--io-timeout-seconds"@ && list[14] == decimal(r.io_timeout_seconds as nat));
}

/// The invocation that opens a session gives its source, its node, its tier, the
/// connection, and where the capability and the lease are put.
pub proof fn openings_are_invoked_in_full(
    runtime: LocalRuntime,
    source: Seq<char>,
    node_id: Seq<char>,
    tier: Seq<char>,
    capability: Seq<char>,
    lease: Seq<char>,
    r: Resolved,
)
    ensures
        ({
            let list = open_arguments(runtime, source, node_id, tier, capability, lease, r);
            &&& list.take(4) == seq!["node"@, "authority"@, "dev-mint"@, "open"@]
            &&& list.contains("--submit"@)
            &&& gives(list, "--shim-dir"@, runtime.shim_dir@)
            &&& gives(list, "--runtime-binary"@, runtime.runtime_binary@)
            &&& gives(list, "--signing-key"@, runtime.signing_key@)
            &&& gives(list, "--source"@, source)
            &&& gives(list, "--node-id"@, node_id)
            &&& gives(list, "--state-tier"@, tier)
            &&& gives(list, "--client-cert"@, r.cert)
            &&& gives(list, "--capability-out"@, capability)
            &&& gives(list, "--out"@, lease)
            &&& gives(list, "--address"@, r.address)
            &&& gives(list, "--server-name"@, r.server_name)
            &&& gives(list, "--ca"@, r.ca)
            &&& gives(list, "--key"@, r.key)
            &&& r.receipt is Some ==> gives(
                list,
                "--node-receipt-public-key"@,
                r.receipt->Some_0,
            )
        }),
{
    let list = open_arguments(runtime, source, node_id, tier, capability, lease, r);
    assert(list.take(4) =~= seq!["node"@, "authority"@, "dev-mint"@, "open"@]);
    assert(list[18] == "--submit"@);
    assert(list[4] == "--shim-dir"@ && list[5] == runtime.shim_dir@);
    assert(list[6] == "--runtime-binary"@ && list[7] == runtime.runtime_binary@);
    assert(list[8] == "--signing-key"@ && list[9] == runtime.signing_key@);
    assert(list[10] == "--source"@ && list[11] == source);
    assert(list[12] == "--node-id"@ && list[13] == node_id);
    assert(list[14] == "--state-tier"@ && list[15] == tier);
    assert(list[16] == "--client-cert"@ && list[17] == r.cert);
    assert(list[19] == "--capability-out"@ && list[20] == capability);
    assert(list[21] == "--out"@ && list[22] == lease);
    assert(list[23] == "--address"@ && list[24] == r.address);
    assert(list[25] == "--server-name"@ && list[26] == r.server_name);
    assert(list[27] == "--ca"@ && list[28] == r.ca);
    assert(list[29] == "--key"@ && list[30] == r.key);
    assert(list[31] == "--node-receipt-public-key"@ && list[32] == r.receipt->Some_0);
}

/// The invocation that executes an operation gives the lease that opened its
/// session, its source, its name, its limits, and where its files are put.
pub proof fn executions_are_invoked_in_full(
    runtime: LocalRuntime,
    files: OperationFiles,
    deadline_seconds: u64,
    output_bytes: u64,
)
    ensures
        ({
            let list = execute_arguments(runtime, files, deadline_seconds, output_bytes);
            &&& list.take(4) == seq!["node"@, "authority"@, "dev-mint"@, "execute"@]
            &&& list.contains("--submit"@)
            &&& gives(list, "--shim-dir"@, runtime.shim_dir@)
            &&& gives(list, "--runtime-binary"@, runtime.runtime_binary@)
            &&& gives(list, "--signing-key"@, runtime.signing_key@)
            &&& gives(list, "--open-lease"@, files.open_lease@)
            &&& gives(list, "--source"@, files.source@)
            &&& gives(list, "--operation-id"@, files.operation_id@)
            &&& gives(list, "--task-sha256"@, files.task_sha256@)
            &&& gives(list, "--attempt-generation"@, "1"@)
            &&& gives(list, "--deadline-seconds"@, decimal(deadline_seconds as nat))
            &&& gives(list, "--output-limit-bytes"@, decimal(output_bytes as nat))
            &&& gives(list, "--operation-out"@, files.operation_out@)
            &&& gives(list, "--out"@, files.lease_out@)
            &&& gives(list, "--capability"@, files.capability@)
        }),
{
    let list = execute_arguments(runtime, files, deadline_seconds, output_bytes);
    assert(list.take(4) =~= seq!["node"@, "authority"@, "dev-mint"@, "execute"@]);
    assert(list[24] == "--submit"@);
    assert(list[4] == "--shim-dir"@ && list[5] == runtime.shim_dir@);
    assert(list[6] == "--runtime-binary"@ && list[7] == runtime.runtime_binary@);
    assert(list[8] == "--signing-key"@ && list[9] == runtime.signing_key@);
    assert(list[10] == "--open-lease"@ && list[11] == files.open_lease@);
    assert(list[12] == "--source"@ && list[13] == files.source@);
    assert(list[14] == "--operation-id"@ && list[15] == files.operation_id@);
    assert(list[16] == "--task-sha256"@ && list[17] == files.task_sha256@);
    assert(list[18] == "--attempt-generation"@ && list[19] == "1"@);
    assert(list[20] == "--deadline-seconds"@ && list[21] == decimal(deadline_seconds as nat));
    assert(list[22] == "--output-limit-bytes"@ && list[23] == decimal(output_bytes as nat));
    assert(list[25] == "--operation-out"@ && list[26] == files.operation_out@);
    assert(list[27] == "--out"@ && list[28] == files.lease_out@);
    assert(list[29] == "--capability"@ && list[30] == files.capability@);
}

/// The shims come from where the environment says, by the first of two variables
/// that is set; without that from the checkout, if it has any; and without a
/// checkout from the current directory.
pub proof fn shims_come_from_the_nearest_place(e: ShimEnvironment)
    ensures
        e.first is Some && e.first->Some_0@.len() > 0 ==> shim_directory(e) == Some(e.first->Some_0@),
        e.first is None && e.second is Some && e.second->Some_0@.len() > 0 ==> shim_directory(e)
            == Some(e.second->Some_0@),
        e.first is None && e.second is None && e.checkout is None ==> shim_directory(e) == (
        if e.current_has_shims {
            Some("backends"@)
        } else {
            None
        }),
        e.first is None && e.second is None && e.checkout is Some && e.checkout->Some_0@.len() > 0
            && !e.checkout_has_shims ==> shim_directory(e) is None,
        e.first is None && e.second is None && e.checkout is Some && e.checkout->Some_0@.len() > 0
            && e.checkout_has_shims && e.checkout->Some_0@.last() != '/' ==> shim_directory(e)
            == Some(e.checkout->Some_0@ + "/"@ + "backends"@),
{
    reveal_strlit("backends");
}

/// The runtime that is named is tried first, then those beside the program, then
/// the one on the search path that is made for this, and the interpreter last.
pub proof fn runtimes_are_tried_nearest_first(
    explicit: Seq<char>,
    beside: Seq<char>,
    evaluator: Seq<char>,
    interpreter: Seq<char>,
)
    requires
        explicit.len() > 0,
        beside.len() > 0,
        beside.last() != '/',
    ensures
        runtime_places(Some(explicit), Some(beside), Some(evaluator), Some(interpreter)) == seq![
            explicit,
            beside + "/"@ + "ostadix-evaluator"@,
            beside + "/"@ + "O"@,
            evaluator,
            interpreter,
        ],
        runtime_places(None, None, Some(evaluator), None) == seq![evaluator],
        runtime_places(None, None, None, Some(interpreter)) == seq![interpreter],
        runtime_places(None, None, None, None) == Seq::<Seq<char>>::empty(),
{
    reveal_strlit("ostadix-evaluator");
    reveal_strlit("O");
    assert(runtime_places(Some(explicit), Some(beside), Some(evaluator), Some(interpreter))
        =~= seq![
        explicit,
        beside + "/"@ + "ostadix-evaluator"@,
        beside + "/"@ + "O"@,
        evaluator,
        interpreter,
    ]);
    assert(runtime_places(None, None, Some(evaluator), None) =~= seq![evaluator]);
    assert(runtime_places(None, None, None, Some(interpreter)) =~= seq![interpreter]);
    assert(runtime_places(None, None, None, None) =~= Seq::<Seq<char>>::empty());
}

/// Whether an outcome was reported.
pub open spec fn came_out(events: Seq<RunEvent>, succeeded: bool) -> bool {
    exists|k: int| 0 <= k < events.len() && #[trigger] events[k] == (RunEvent::Outcome { succeeded })
}

/// A run that has ended says of the program what came of it, and of the session
/// whether it is still open.
pub proof fn runs_end_as_the_program_did(events: Seq<RunEvent>, keep_open: bool)
    ensures
        match run_states(events, keep_open).step {
            RunStep::Ended { open, succeeded } => came_out(events, succeeded) && open
                == run_states(events, keep_open).open,
            RunStep::Close { succeeded } => came_out(events, succeeded) && run_states(
                events,
                keep_open,
            ).open,
            RunStep::Clear { succeeded } => came_out(events, succeeded) && !run_states(
                events,
                keep_open,
            ).open,
            RunStep::Send => run_states(events, keep_open).open,
            RunStep::Point => run_states(events, keep_open).open,
            _ => true,
        },
    decreases events.len(),
{
    if events.len() > 0 {
        let init = events.drop_last();
        runs_end_as_the_program_did(init, keep_open);
        assert(events[events.len() - 1] == events.last());
        assert forall|s: bool| came_out(init, s) implies came_out(events, s) by {
            let k = choose|k: int|
                0 <= k < init.len() && #[trigger] init[k] == (RunEvent::Outcome { succeeded: s });
            assert(events[k] == init[k]);
        }
    }
}

} // verus!
