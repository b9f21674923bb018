//! What holds of the way to a node, and of the run of a program on it.

use vstd::prelude::*;

use crate::connection::{
    remembered_connection, timeout_fault, Asked, ConnectionDefaults, ConnectionError,
    DiscoveredNode, StoredPeer,
};
use crate::resolve::{chosen_step, enrolled_step, first_step, listed_step, named_step, Step};
use crate::session_run::{run_states, RunEvent, RunState, RunStep};

verus! {

/// Timeouts are accepted exactly where both are between a second and an hour.
pub proof fn timeouts_are_an_hour_at_most(connect: u64, io: u64)
    ensures
        timeout_fault(connect, io) is None <==> 1 <= connect <= 3600 && 1 <= io <= 3600,
        timeout_fault(connect, io) == Some(ConnectionError::ZeroTimeout) <==> connect == 0 || io
            == 0,
{
}

/// Whether a connection is one with the credentials of a remembered node, under its
/// name, with the timeouts that were asked for.
pub open spec fn with_credentials_of(
    step: Step,
    peer: StoredPeer,
    asked: Asked,
) -> bool {
    step matches Step::Reach { resolved, .. } && {
        &&& resolved.node_id == Some(peer.node_id@)
        &&& resolved.ca == peer.ca@
        &&& resolved.cert == peer.cert@
        &&& resolved.key == peer.key@
        &&& resolved.receipt == crate::text::shown_as(peer.receipt)
        &&& resolved.connect_timeout_seconds == asked.connect_timeout_seconds
        &&& resolved.io_timeout_seconds == asked.io_timeout_seconds
    }
}

/// A node that is named and given another address is reached there exactly where it
/// is remembered as paired, with its own credentials and under its own server name.
pub proof fn only_paired_nodes_are_rerouted(asked: Asked, peer: StoredPeer)
    ensures
        named_step(asked, None) == Step::Fail(ConnectionError::NotRemembered),
        !(peer.security_mode is Paired) ==> named_step(asked, Some(&peer)) == Step::Fail(
            ConnectionError::NotPaired,
        ),
        peer.security_mode is Paired ==> {
            let step = named_step(asked, Some(&peer));
            &&& with_credentials_of(step, peer, asked)
            &&& step->resolved.address == asked.address->Some_0
            &&& step->resolved.server_name == peer.server_name@
            &&& !step->prefer
        },
{
}

/// A node that answers is reached where it answers, and with what is remembered of
/// it where it was paired; one that was not is enrolled with only where it is open,
/// and what enrolling gives counts before what was remembered.
pub proof fn answers_say_where_and_not_who(
    asked: Asked,
    node: DiscoveredNode,
    peer: StoredPeer,
    other: StoredPeer,
)
    ensures
        peer.security_mode is Paired ==> {
            let step = chosen_step(asked, node, Some(&peer));
            &&& with_credentials_of(step, peer, asked)
            &&& step->resolved.address == node.address@
            &&& step->resolved.server_name == peer.server_name@
            &&& step->prefer
        },
        !(peer.security_mode is Paired) ==> chosen_step(asked, node, Some(&peer)) == chosen_step(
            asked,
            node,
            None,
        ),
        chosen_step(asked, node, None) == Step::Enroll <==> node.security_mode is LanOpen,
        chosen_step(asked, node, None) == Step::Fail(ConnectionError::PairingRequired)
            <==> node.security_mode is PairingRequired,
        enrolled_step(asked, node, None, None) == Step::Fail(ConnectionError::NotEnrolled),
        with_credentials_of(enrolled_step(asked, node, Some(&peer), Some(&other)), peer, asked),
        with_credentials_of(enrolled_step(asked, node, Some(&peer), None), peer, asked),
        with_credentials_of(enrolled_step(asked, node, None, Some(&other)), other, asked),
        enrolled_step(asked, node, Some(&peer), None)->resolved.address == node.address@,
        enrolled_step(asked, node, Some(&peer), None)->resolved.server_name == node.server_name@,
{
}

/// Where no node answers, a remembered one is reached at its own address, and where
/// none is in question it is said whether one was named.
pub proof fn remembered_nodes_are_reached_at_home(
    asked: Asked,
    peers: Seq<StoredPeer>,
    preferred: Option<Seq<char>>,
)
    ensures
        match listed_step(asked, peers, preferred) {
            Step::Reach { resolved, prefer } => prefer && exists|i: int|
                0 <= i < peers.len() && resolved == remembered_connection(
                    #[trigger] peers[i],
                    peers[i].address@,
                    peers[i].server_name@,
                    asked.connect_timeout_seconds,
                    asked.io_timeout_seconds,
                ),
            Step::Fail(error) => error == (if asked.node is Some {
                ConnectionError::UnknownNode
            } else {
                ConnectionError::NoNode
            }),
            _ => false,
        },
{
    if exists|i: int| crate::connection::is_peer_choice(peers, asked.node, preferred, i) {
        let i = choose|i: int| crate::connection::is_peer_choice(peers, asked.node, preferred, i);
        assert(0 <= i < peers.len());
        assert(peers[i] == peers[i]);
    }
}

/// What is looked for is what was asked for: nodes are asked to answer only where
/// nothing is said of the connection, and a node that is named is looked up only
/// where nothing but its address is given.
pub proof fn nothing_is_looked_for_in_vain(asked: Asked, defaults: ConnectionDefaults)
    ensures
        first_step(asked, defaults) == Step::Discover ==> !asked.manual && asked.address is None
            && asked.server_name is None && asked.ca is None && asked.cert is None && asked.key
            is None,
        first_step(asked, defaults) == Step::LoadNamed ==> asked.node is Some && asked.address
            is Some && !asked.manual && asked.server_name is None && asked.ca is None && asked.cert
            is None && asked.key is None,
        timeout_fault(asked.connect_timeout_seconds, asked.io_timeout_seconds) is None
            && !asked.manual && asked.address is None && asked.server_name is None && asked.ca
            is None && asked.cert is None && asked.key is None ==> first_step(asked, defaults)
            == Step::Discover,
        timeout_fault(asked.connect_timeout_seconds, asked.io_timeout_seconds) is None && asked.node
            is Some && asked.manual ==> first_step(asked, defaults) == Step::Fail(
            ConnectionError::NodeWithManual,
        ),
        first_step(asked, defaults) matches Step::Reach { prefer, .. } ==> !prefer,
{
}

proof fn lemma_moved(events: Seq<RunEvent>, event: RunEvent, keep_open: bool)
    ensures
        run_states(events.push(event), keep_open) == crate::session_run::run_moved(
            run_states(events, keep_open),
            event,
            keep_open,
        ),
{
    assert(events.push(event).drop_last() =~= events);
    assert(events.push(event).last() == event);
}

/// Where every step goes well, a program is run in a session that was opened and made
/// the current one, and the session is closed and let go of, unless it is to be kept.
/// A run that cannot begin has failed, and one whose session cannot be closed has
/// still ended as the program did.
pub proof fn runs_take_every_step(succeeded: bool)
    ensures
        ({
            let outcome = RunEvent::Outcome { succeeded };
            let started = seq![RunEvent::Done, RunEvent::Done];
            &&& run_states(Seq::empty(), false) == (RunState {
                step: RunStep::Open,
                open: false,
                current: false,
            })
            &&& run_states(started, false) == (RunState {
                step: RunStep::Send,
                open: true,
                current: true,
            })
            &&& run_states(started.push(outcome), true) == (RunState {
                step: RunStep::Ended { open: true, succeeded },
                open: true,
                current: true,
            })
            &&& run_states(
                started.push(outcome).push(RunEvent::Done).push(RunEvent::Done),
                false,
            ) == (RunState {
                step: RunStep::Ended { open: false, succeeded },
                open: false,
                current: false,
            })
            &&& run_states(started.push(outcome).push(RunEvent::Failed), false) == (RunState {
                step: RunStep::Ended { open: true, succeeded },
                open: true,
                current: true,
            })
            &&& run_states(seq![RunEvent::Failed], false).step == RunStep::Failed
            &&& run_states(seq![RunEvent::Done, RunEvent::Failed], false).step == RunStep::Failed
            &&& run_states(started.push(RunEvent::Failed), false) == (RunState {
                step: RunStep::Failed,
                open: true,
                current: true,
            })
        }),
{
    let none = Seq::<RunEvent>::empty();
    let outcome = RunEvent::Outcome { succeeded };
    let one = none.push(RunEvent::Done);
    let started = one.push(RunEvent::Done);
    lemma_moved(none, RunEvent::Done, false);
    lemma_moved(one, RunEvent::Done, false);
    lemma_moved(none, RunEvent::Done, true);
    lemma_moved(one, RunEvent::Done, true);
    lemma_moved(none, RunEvent::Failed, false);
    lemma_moved(one, RunEvent::Failed, false);
    assert(started =~= seq![RunEvent::Done, RunEvent::Done]);
    assert(none.push(RunEvent::Failed) =~= seq![RunEvent::Failed]);
    assert(one.push(RunEvent::Failed) =~= seq![RunEvent::Done, RunEvent::Failed]);
    lemma_moved(started, outcome, true);
    lemma_moved(started, outcome, false);
    lemma_moved(started, RunEvent::Failed, false);
    let sent = started.push(outcome);
    lemma_moved(sent, RunEvent::Done, false);
    lemma_moved(sent, RunEvent::Failed, false);
    lemma_moved(sent.push(RunEvent::Done), RunEvent::Done, false);
}

} // verus!
