//! How a node is reached: what is looked up, in which order, and what each
//! answer leads to.

use vstd::prelude::*;

use crate::connection::{
    after_enrollment, choices_are_settled, choose_discovered_node, choose_stored_peer,
    explicit_connection, in_question, is_choice, is_peer_choice, judge_discovered,
    nothing_found, peer_in_question, plan_connection, remembered_connection, reroute,
    resolved_from_stored, timeout_fault, Asked, ConnectionDefaults, ConnectionError,
    ConnectionPlan, DiscoveredNode, DiscoveryStep, NodeConnectionArgs, Resolved,
    ResolvedNodeConnection, StoredPeer,
};
use crate::text::given;

verus! {

/// What was looked up.
pub enum ResolveEvent<'a> {
    /// Nothing yet.
    Start,
    /// What is remembered of the node that is named.
    Named(Option<&'a StoredPeer>),
    /// The nodes that answered, and the one that is preferred.
    Answered(&'a [DiscoveredNode], Option<&'a str>),
    /// The node that was chosen of those, and what is remembered of it.
    Chosen(&'a DiscoveredNode, Option<&'a StoredPeer>),
    /// The same, with what enrolling with the node gave.
    Enrolled(&'a DiscoveredNode, Option<&'a StoredPeer>, Option<&'a StoredPeer>),
    /// The nodes that are remembered, and the one that is preferred.
    Listed(&'a [StoredPeer], Option<&'a str>),
}

/// What is done next to reach a node.
#[derive(Debug)]
pub enum ResolveAction {
    /// The node is reached so, and preferred from now on or not.
    Reach { resolved: ResolvedNodeConnection, prefer: bool },
    /// What is remembered of the node that is named is looked up.
    LoadNamed,
    /// Nodes are asked to answer.
    Discover,
    /// What is remembered of the node at a place of those that answered is
    /// looked up.
    LoadChosen { place: usize },
    /// The credentials of the chosen node are fetched.
    Enroll,
    /// The nodes that are remembered are looked up.
    ListPeers,
    Fail(ConnectionError),
}

/// What is done next, its texts as sequences.
pub ghost enum Step {
    Reach { resolved: Resolved, prefer: bool },
    LoadNamed,
    Discover,
    LoadChosen { place: int },
    Enroll,
    ListPeers,
    Fail(ConnectionError),
}

impl View for ResolveAction {
    type V = Step;

    open spec fn view(&self) -> Step {
        match self {
            ResolveAction::Reach { resolved, prefer } => Step::Reach {
                resolved: resolved@,
                prefer: *prefer,
            },
            ResolveAction::LoadNamed => Step::LoadNamed,
            ResolveAction::Discover => Step::Discover,
            ResolveAction::LoadChosen { place } => Step::LoadChosen { place: *place as int },
            ResolveAction::Enroll => Step::Enroll,
            ResolveAction::ListPeers => Step::ListPeers,
            ResolveAction::Fail(error) => Step::Fail(*error),
        }
    }
}

/// A remembered node at an address, under a name.
pub open spec fn reached(
    asked: Asked,
    peer: StoredPeer,
    address: Seq<char>,
    server_name: Seq<char>,
) -> Resolved {
    remembered_connection(
        peer,
        address,
        server_name,
        asked.connect_timeout_seconds,
        asked.io_timeout_seconds,
    )
}

/// Whether what is remembered is a paired node.
pub open spec fn paired(stored: Option<&StoredPeer>) -> bool {
    stored is Some && stored->Some_0.security_mode is Paired
}

/// What is done first.
pub open spec fn first_step(asked: Asked, defaults: ConnectionDefaults) -> Step {
    let fault = timeout_fault(asked.connect_timeout_seconds, asked.io_timeout_seconds);
    if fault is Some {
        Step::Fail(fault->Some_0)
    } else if asked.rerouted() {
        Step::LoadNamed
    } else if asked.node is Some && asked.manual {
        Step::Fail(ConnectionError::NodeWithManual)
    } else if asked.explicit() {
        Step::Reach { resolved: explicit_connection(asked, defaults), prefer: false }
    } else {
        Step::Discover
    }
}

/// What is done once it is known what is remembered of the node that is named:
/// only a paired one is reached at another address.
pub open spec fn named_step(asked: Asked, stored: Option<&StoredPeer>) -> Step {
    if stored is None {
        Step::Fail(ConnectionError::NotRemembered)
    } else if !paired(stored) {
        Step::Fail(ConnectionError::NotPaired)
    } else {
        Step::Reach {
            resolved: reached(
                asked,
                *stored->Some_0,
                asked.address->Some_0,
                stored->Some_0.server_name@,
            ),
            prefer: false,
        }
    }
}

/// What is done once nodes have answered.
pub open spec fn answered_step(
    asked: Asked,
    nodes: Seq<DiscoveredNode>,
    preferred: Option<Seq<char>>,
) -> Step {
    if exists|i: int| is_choice(nodes, asked.node, preferred, i) {
        Step::LoadChosen { place: choose|i: int| is_choice(nodes, asked.node, preferred, i) }
    } else {
        Step::ListPeers
    }
}

/// What is done once it is known what is remembered of the chosen node: that it
/// answers is a hint of where a paired node is, and no more.
pub open spec fn chosen_step(asked: Asked, node: DiscoveredNode, stored: Option<&StoredPeer>) -> Step {
    if paired(stored) {
        Step::Reach {
            resolved: reached(
                asked,
                *stored->Some_0,
                node.address@,
                stored->Some_0.server_name@,
            ),
            prefer: true,
        }
    } else if node.security_mode is PairingRequired {
        Step::Fail(ConnectionError::PairingRequired)
    } else if !(node.security_mode is LanOpen) {
        Step::Fail(ConnectionError::UnsupportedSecurity)
    } else {
        Step::Enroll
    }
}

/// What is done once enrolling was tried: where it failed, what is remembered
/// counts.
pub open spec fn enrolled_step(
    asked: Asked,
    node: DiscoveredNode,
    enrolled: Option<&StoredPeer>,
    stored: Option<&StoredPeer>,
) -> Step {
    if enrolled is None && stored is None {
        Step::Fail(ConnectionError::NotEnrolled)
    } else {
        let peer = if enrolled is Some {
            *enrolled->Some_0
        } else {
            *stored->Some_0
        };
        Step::Reach {
            resolved: reached(asked, peer, node.address@, node.server_name@),
            prefer: true,
        }
    }
}

/// What is done once none answered.
pub open spec fn listed_step(
    asked: Asked,
    peers: Seq<StoredPeer>,
    preferred: Option<Seq<char>>,
) -> Step {
    if exists|i: int| is_peer_choice(peers, asked.node, preferred, i) {
        let peer = peers[choose|i: int| is_peer_choice(peers, asked.node, preferred, i)];
        Step::Reach {
            resolved: reached(asked, peer, peer.address@, peer.server_name@),
            prefer: true,
        }
    } else if asked.node is Some {
        Step::Fail(ConnectionError::UnknownNode)
    } else {
        Step::Fail(ConnectionError::NoNode)
    }
}

/// What is done next to reach a node.
pub open spec fn next_step(asked: Asked, defaults: ConnectionDefaults, event: ResolveEvent) -> Step {
    match event {
        ResolveEvent::Start => first_step(asked, defaults),
        ResolveEvent::Named(stored) => named_step(asked, stored),
        ResolveEvent::Answered(nodes, preferred) => answered_step(asked, nodes@, given(preferred)),
        ResolveEvent::Chosen(node, stored) => chosen_step(asked, *node, stored),
        ResolveEvent::Enrolled(node, enrolled, stored) => enrolled_step(
            asked,
            *node,
            enrolled,
            stored,
        ),
        ResolveEvent::Listed(peers, preferred) => listed_step(asked, peers@, given(preferred)),
    }
}

fn named<'a>(args: &'a NodeConnectionArgs) -> (name: Option<&'a str>)
    ensures
        given(name) == args@.node,
{
    match &args.node {
        Some(name) => Some(name.as_str()),
        None => None,
    }
}

fn after_answers(
    args: &NodeConnectionArgs,
    nodes: &[DiscoveredNode],
    preferred: Option<&str>,
) -> (action: ResolveAction)
    ensures
        action@ == answered_step(args@, nodes@, given(preferred)),
{
    match choose_discovered_node(nodes, named(args), preferred) {
        Some(place) => {
            proof {
                let chosen = choose|i: int| is_choice(nodes@, args@.node, given(preferred), i);
                assert(is_choice(nodes@, args@.node, given(preferred), place as int));
                choices_are_settled(nodes@, args@.node, given(preferred), place as int, chosen);
            }
            ResolveAction::LoadChosen { place }
        },
        None => {
            assert forall|i: int| !is_choice(nodes@, args@.node, given(preferred), i) by {
                if is_choice(nodes@, args@.node, given(preferred), i) {
                    assert(in_question(nodes@, args@.node, given(preferred), i));
                }
            }
            ResolveAction::ListPeers
        },
    }
}

proof fn lemma_peer_choice(
    peers: Seq<StoredPeer>,
    requested: Option<Seq<char>>,
    preferred: Option<Seq<char>>,
    i: int,
    j: int,
)
    requires
        is_peer_choice(peers, requested, preferred, i),
        is_peer_choice(peers, requested, preferred, j),
    ensures
        i == j,
{
}

fn after_list(args: &NodeConnectionArgs, peers: &[StoredPeer], preferred: Option<&str>) -> (action:
    ResolveAction)
    ensures
        action@ == listed_step(args@, peers@, given(preferred)),
{
    match choose_stored_peer(peers, named(args), preferred) {
        Some(place) => {
            proof {
                let chosen = choose|i: int| is_peer_choice(peers@, args@.node, given(preferred), i);
                assert(is_peer_choice(peers@, args@.node, given(preferred), place as int));
                lemma_peer_choice(peers@, args@.node, given(preferred), place as int, chosen);
            }
            let peer = &peers[place];
            ResolveAction::Reach {
                resolved: resolved_from_stored(
                    peer,
                    peer.address.as_str(),
                    peer.server_name.as_str(),
                    args.connect_timeout_seconds,
                    args.io_timeout_seconds,
                ),
                prefer: true,
            }
        },
        None => {
            assert forall|i: int| !is_peer_choice(peers@, args@.node, given(preferred), i) by {
                if is_peer_choice(peers@, args@.node, given(preferred), i) {
                    assert(peer_in_question(peers@, args@.node, given(preferred), i));
                }
            }
            ResolveAction::Fail(nothing_found(args))
        },
    }
}

fn reach(r: Result<ResolvedNodeConnection, ConnectionError>, prefer: bool) -> (action: ResolveAction)
    ensures
        action@ == (match r {
            Ok(resolved) => Step::Reach { resolved: resolved@, prefer },
            Err(error) => Step::Fail(error),
        }),
{
    match r {
        Ok(resolved) => ResolveAction::Reach { resolved, prefer },
        Err(error) => ResolveAction::Fail(error),
    }
}

/// What is done next to reach a node, given what was looked up last.
pub fn resolve_node_connection(
    args: &NodeConnectionArgs,
    defaults: &ConnectionDefaults,
    event: ResolveEvent,
) -> (action: ResolveAction)
    requires
        event is Named ==> args.address is Some,
    ensures
        action@ == next_step(args@, *defaults, event),
{
    match event {
        ResolveEvent::Start => match plan_connection(args, defaults) {
            Err(error) => ResolveAction::Fail(error),
            Ok(ConnectionPlan::Reroute) => ResolveAction::LoadNamed,
            Ok(ConnectionPlan::Explicit(resolved)) => ResolveAction::Reach { resolved, prefer: false },
            Ok(ConnectionPlan::Discover) => ResolveAction::Discover,
        },
        ResolveEvent::Named(stored) => reach(reroute(args, stored), false),
        ResolveEvent::Answered(nodes, preferred) => after_answers(args, nodes, preferred),
        ResolveEvent::Chosen(node, stored) => match judge_discovered(args, node, stored) {
            Ok(DiscoveryStep::Pinned(resolved)) => ResolveAction::Reach { resolved, prefer: true },
            Ok(DiscoveryStep::Enroll) => ResolveAction::Enroll,
            Err(error) => ResolveAction::Fail(error),
        },
        ResolveEvent::Enrolled(node, enrolled, stored) => reach(
            after_enrollment(args, node, enrolled, stored),
            true,
        ),
        ResolveEvent::Listed(peers, preferred) => after_list(args, peers, preferred),
    }
}

/// A paired node is never enrolled again: what answers in its name changes
/// nothing that is remembered of it but where it is reached.
pub proof fn paired_nodes_are_never_enrolled(
    asked: Asked,
    defaults: ConnectionDefaults,
    node: &DiscoveredNode,
    stored: Option<&StoredPeer>,
)
    requires
        paired(stored),
    ensures
        next_step(asked, defaults, ResolveEvent::Chosen(node, stored)) matches Step::Reach {
            resolved,
            ..
        } && resolved.server_name == stored->Some_0.server_name@ && resolved.ca
            == stored->Some_0.ca@ && resolved.cert == stored->Some_0.cert@ && resolved.key
            == stored->Some_0.key@ && resolved.address == node.address@,
{
}

/// Credentials are fetched only of a node that said that it is open.
pub proof fn only_open_nodes_are_enrolled(
    asked: Asked,
    defaults: ConnectionDefaults,
    node: &DiscoveredNode,
    stored: Option<&StoredPeer>,
)
    requires
        next_step(asked, defaults, ResolveEvent::Chosen(node, stored)) is Enroll,
    ensures
        node.security_mode is LanOpen,
        !paired(stored),
{
}

/// A connection that is spelled out is used as it is: nothing is looked up, and
/// no node becomes the preferred one.
pub proof fn spelled_out_connections_look_nothing_up(asked: Asked, defaults: ConnectionDefaults)
    requires
        asked.explicit(),
        !asked.rerouted(),
        timeout_fault(asked.connect_timeout_seconds, asked.io_timeout_seconds) is None,
        !(asked.node is Some && asked.manual),
    ensures
        next_step(asked, defaults, ResolveEvent::Start) == (Step::Reach {
            resolved: explicit_connection(asked, defaults),
            prefer: false,
        }),
{
}

} // verus!
