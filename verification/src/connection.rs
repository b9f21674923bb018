//! How a node is reached: what was asked for, what was discovered and what is
//! remembered, and which of these counts.

use vstd::prelude::*;

use crate::text::{chars_of, comes_before, copied, given, lex_less, shown_as};

verus! {

/// What an invocation says about the node to reach.
#[derive(Debug)]
pub struct NodeConnectionArgs {
    pub node: Option<String>,
    pub address: Option<String>,
    pub server_name: Option<String>,
    pub ca: Option<String>,
    pub cert: Option<String>,
    pub key: Option<String>,
    pub manual: bool,
    pub connect_timeout_seconds: u64,
    pub io_timeout_seconds: u64,
}

impl Default for NodeConnectionArgs {
    fn default() -> (args: Self)
        ensures
            args.node is None && args.address is None && args.server_name is None && args.ca is None
                && args.cert is None && args.key is None,
            !args.manual,
            args.connect_timeout_seconds == 10,
            args.io_timeout_seconds == 60,
    {
        NodeConnectionArgs {
            node: None,
            address: None,
            server_name: None,
            ca: None,
            cert: None,
            key: None,
            manual: false,
            connect_timeout_seconds: 10,
            io_timeout_seconds: 60,
        }
    }
}

/// What an invocation says, its texts as sequences.
pub ghost struct Asked {
    pub node: Option<Seq<char>>,
    pub address: Option<Seq<char>>,
    pub server_name: Option<Seq<char>>,
    pub ca: Option<Seq<char>>,
    pub cert: Option<Seq<char>>,
    pub key: Option<Seq<char>>,
    pub manual: bool,
    pub connect_timeout_seconds: u64,
    pub io_timeout_seconds: u64,
}

impl View for NodeConnectionArgs {
    type V = Asked;

    open spec fn view(&self) -> Asked {
        Asked {
            node: shown_as(self.node),
            address: shown_as(self.address),
            server_name: shown_as(self.server_name),
            ca: shown_as(self.ca),
            cert: shown_as(self.cert),
            key: shown_as(self.key),
            manual: self.manual,
            connect_timeout_seconds: self.connect_timeout_seconds,
            io_timeout_seconds: self.io_timeout_seconds,
        }
    }
}

impl Asked {
    /// Whether something is said about the connection itself.
    pub open spec fn explicit(self) -> bool {
        self.manual || self.address is Some || self.server_name is Some || self.ca is Some
            || self.cert is Some || self.key is Some
    }

    /// Whether a node is named, and nothing else but another way to it.
    pub open spec fn rerouted(self) -> bool {
        self.node is Some && self.address is Some && !self.manual && self.server_name is None
            && self.ca is None && self.cert is None && self.key is None
    }
}

/// Why a node cannot be reached.
#[derive(Clone, Copy, Debug, PartialEq, Eq, Structural)]
pub enum ConnectionError {
    ZeroTimeout,
    LongTimeout,
    NodeWithManual,
    /// The node that is named is not remembered.
    NotRemembered,
    /// The node that is named is remembered, but was not paired.
    NotPaired,
    PairingRequired,
    UnsupportedSecurity,
    NotEnrolled,
    UnknownNode,
    NoNode,
    /// The session is another node's.
    OtherNode,
    NoReceiptKey,
}

impl ConnectionError {
    /// The message on a node; the detail is the mode that it advertised, or the
    /// node that was reached instead.
    pub open spec fn text(self, node: Seq<char>, detail: Seq<char>) -> Seq<char> {
        match self {
            ConnectionError::ZeroTimeout => "node connection timeouts must be positive"@,
            ConnectionError::LongTimeout => "node connection timeouts may not exceed 3600 seconds"@,
            ConnectionError::NodeWithManual => "--node selects an automatically discovered peer and cannot be combined with --manual"@,
            ConnectionError::NotRemembered => "node `"@ + node + "` has no remembered identity; pair it before overriding its route"@,
            ConnectionError::NotPaired => "--node with --address may override only the route of a passcode-paired identity"@,
            ConnectionError::PairingRequired => "node `"@ + node + "` requires reciprocal public-key pairing; run `o node pair` on one node, then `o node pair "@ + node + "` on this node"@,
            ConnectionError::UnsupportedSecurity => "node `"@ + node + "` advertised unsupported security mode `"@ + detail + "`"@,
            ConnectionError::NotEnrolled => "legacy LAN-open node `"@ + node + "` could not complete enrollment"@,
            ConnectionError::UnknownNode => "no reachable or remembered Ostadix node named `"@ + node + "`; start it with `o node start` on the other machine, then pair it with `o node pair`"@,
            ConnectionError::NoNode => "no Ostadix LAN node was discovered or remembered; run `o node start` on both machines and pair them with `o node pair`"@,
            ConnectionError::OtherNode => "session belongs to node `"@ + node + "`, but connection selected `"@ + detail + "`"@,
            ConnectionError::NoReceiptKey => "selected node does not support automatic durable sessions"@,
        }
    }

    /// The message on a node; the detail is the mode that it advertised, or the
    /// node that was reached instead.
    pub fn to_text(self, node: &str, detail: &str) -> (out: String)
        ensures
            out@ == self.text(node@, detail@),
    {
        match self {
            ConnectionError::ZeroTimeout => "node connection timeouts must be positive".to_owned(),
            ConnectionError::LongTimeout => "node connection timeouts may not exceed 3600 seconds".to_owned(),
            ConnectionError::NodeWithManual => "--node selects an automatically discovered peer and cannot be combined with --manual".to_owned(),
            ConnectionError::NotRemembered => {
                let mut out = "node `".to_owned();
                out.append(node);
                out.append("` has no remembered identity; pair it before overriding its route");
                out
            },
            ConnectionError::NotPaired => "--node with --address may override only the route of a passcode-paired identity".to_owned(),
            ConnectionError::PairingRequired => {
                let mut out = "node `".to_owned();
                out.append(node);
                out.append("` requires reciprocal public-key pairing; run `o node pair` on one node, then `o node pair ");
                out.append(node);
                out.append("` on this node");
                out
            },
            ConnectionError::UnsupportedSecurity => {
                let mut out = "node `".to_owned();
                out.append(node);
                out.append("` advertised unsupported security mode `");
                out.append(detail);
                out.append("`");
                out
            },
            ConnectionError::NotEnrolled => {
                let mut out = "legacy LAN-open node `".to_owned();
                out.append(node);
                out.append("` could not complete enrollment");
                out
            },
            ConnectionError::UnknownNode => {
                let mut out = "no reachable or remembered Ostadix node named `".to_owned();
                out.append(node);
                out.append("`; start it with `o node start` on the other machine, then pair it with `o node pair`");
                out
            },
            ConnectionError::NoNode => "no Ostadix LAN node was discovered or remembered; run `o node start` on both machines and pair them with `o node pair`".to_owned(),
            ConnectionError::OtherNode => {
                let mut out = "session belongs to node `".to_owned();
                out.append(node);
                out.append("`, but connection selected `");
                out.append(detail);
                out.append("`");
                out
            },
            ConnectionError::NoReceiptKey => "selected node does not support automatic durable sessions".to_owned(),
        }
    }
}

/// What is wrong with the timeouts, if anything is.
pub open spec fn timeout_fault(connect: u64, io: u64) -> Option<ConnectionError> {
    if connect == 0 || io == 0 {
        Some(ConnectionError::ZeroTimeout)
    } else if connect > 3600 || io > 3600 {
        Some(ConnectionError::LongTimeout)
    } else {
        None
    }
}

/// Checks the timeouts, and gives them in seconds.
pub fn validate_connection_timeouts(args: &NodeConnectionArgs) -> (r: Result<
    (u64, u64),
    ConnectionError,
>)
    ensures
        match timeout_fault(args.connect_timeout_seconds, args.io_timeout_seconds) {
            Some(error) => r == Err::<(u64, u64), ConnectionError>(error),
            None => r == Ok::<(u64, u64), ConnectionError>(
                (args.connect_timeout_seconds, args.io_timeout_seconds),
            ),
        },
{
    if args.connect_timeout_seconds == 0 || args.io_timeout_seconds == 0 {
        return Err(ConnectionError::ZeroTimeout);
    }
    if args.connect_timeout_seconds > 3600 || args.io_timeout_seconds > 3600 {
        return Err(ConnectionError::LongTimeout);
    }
    Ok((args.connect_timeout_seconds, args.io_timeout_seconds))
}

/// Whether something is said about the connection itself.
pub fn explicit_connection_requested(args: &NodeConnectionArgs) -> (r: bool)
    ensures
        r == args@.explicit(),
{
    args.manual || args.address.is_some() || args.server_name.is_some() || args.ca.is_some()
        || args.cert.is_some() || args.key.is_some()
}

/// How a node is reached.
#[derive(Debug)]
pub struct ResolvedNodeConnection {
    pub node_id: Option<String>,
    pub address: String,
    pub server_name: String,
    pub ca: String,
    pub cert: String,
    pub key: String,
    pub node_receipt_public_key: Option<String>,
    pub connect_timeout_seconds: u64,
    pub io_timeout_seconds: u64,
}

/// How a node is reached, its texts as sequences.
pub ghost struct Resolved {
    pub node_id: Option<Seq<char>>,
    pub address: Seq<char>,
    pub server_name: Seq<char>,
    pub ca: Seq<char>,
    pub cert: Seq<char>,
    pub key: Seq<char>,
    pub receipt: Option<Seq<char>>,
    pub connect_timeout_seconds: u64,
    pub io_timeout_seconds: u64,
}

impl View for ResolvedNodeConnection {
    type V = Resolved;

    open spec fn view(&self) -> Resolved {
        Resolved {
            node_id: shown_as(self.node_id),
            address: self.address@,
            server_name: self.server_name@,
            ca: self.ca@,
            cert: self.cert@,
            key: self.key@,
            receipt: shown_as(self.node_receipt_public_key),
            connect_timeout_seconds: self.connect_timeout_seconds,
            io_timeout_seconds: self.io_timeout_seconds,
        }
    }
}

/// What an invocation says about a node with durable sessions.
#[derive(Debug)]
pub struct V2ConnectionArgs {
    pub connection: NodeConnectionArgs,
    pub node_receipt_public_key: Option<String>,
}

impl Resolved {
    /// The invocation that reaches the node the same way, with nothing left to
    /// find out.
    pub open spec fn spelled_out(self) -> Asked {
        Asked {
            node: None,
            address: Some(self.address),
            server_name: Some(self.server_name),
            ca: Some(self.ca),
            cert: Some(self.cert),
            key: Some(self.key),
            manual: true,
            connect_timeout_seconds: self.connect_timeout_seconds,
            io_timeout_seconds: self.io_timeout_seconds,
        }
    }
}

impl ResolvedNodeConnection {
    /// The invocation that reaches the node the same way, with nothing left to
    /// find out.
    pub fn explicit_args(&self) -> (args: NodeConnectionArgs)
        ensures
            args@ == self@.spelled_out(),
    {
        NodeConnectionArgs {
            node: None,
            address: Some(self.address.clone()),
            server_name: Some(self.server_name.clone()),
            ca: Some(self.ca.clone()),
            cert: Some(self.cert.clone()),
            key: Some(self.key.clone()),
            manual: true,
            connect_timeout_seconds: self.connect_timeout_seconds,
            io_timeout_seconds: self.io_timeout_seconds,
        }
    }

    /// The same for durable sessions, which take the node's receipt key.
    pub fn explicit_v2_args(&self) -> (r: Result<V2ConnectionArgs, ConnectionError>)
        ensures
            match r {
                Ok(args) => args.connection@ == self@.spelled_out() && shown_as(
                    args.node_receipt_public_key,
                ) == self@.receipt && self@.receipt is Some,
                Err(error) => error is NoReceiptKey && self@.receipt is None,
            },
    {
        match &self.node_receipt_public_key {
            Some(key) => Ok(
                V2ConnectionArgs {
                    connection: self.explicit_args(),
                    node_receipt_public_key: Some(key.clone()),
                },
            ),
            None => Err(ConnectionError::NoReceiptKey),
        }
    }
}

/// What a submission of a new session says about the node to reach.
#[derive(Debug)]
pub struct LocalDevOpenSubmissionArgs {
    pub submit: bool,
    pub address: String,
    pub server_name: String,
    pub ca: Option<String>,
    pub key: Option<String>,
    pub node_receipt_public_key: Option<String>,
    pub connect_timeout_seconds: u64,
    pub io_timeout_seconds: u64,
}

impl LocalDevOpenSubmissionArgs {
    /// The connection of a submission, which takes the node's receipt key.
    pub fn connection(&self, client_cert: &Option<String>) -> (r: Result<
        V2ConnectionArgs,
        ConnectionError,
    >)
        ensures
            match r {
                Ok(args) => {
                    &&& self.node_receipt_public_key is Some
                    &&& shown_as(args.node_receipt_public_key) == shown_as(
                        self.node_receipt_public_key,
                    )
                    &&& args.connection@ == (Asked {
                        node: None,
                        address: Some(self.address@),
                        server_name: Some(self.server_name@),
                        ca: shown_as(self.ca),
                        cert: shown_as(*client_cert),
                        key: shown_as(self.key),
                        manual: true,
                        connect_timeout_seconds: self.connect_timeout_seconds,
                        io_timeout_seconds: self.io_timeout_seconds,
                    })
                },
                Err(error) => error is NoReceiptKey && self.node_receipt_public_key is None,
            },
    {
        match &self.node_receipt_public_key {
            None => Err(ConnectionError::NoReceiptKey),
            Some(receipt) => Ok(
                V2ConnectionArgs {
                    connection: NodeConnectionArgs {
                        node: None,
                        address: Some(self.address.clone()),
                        server_name: Some(self.server_name.clone()),
                        ca: copied(&self.ca),
                        cert: copied(client_cert),
                        key: copied(&self.key),
                        manual: true,
                        connect_timeout_seconds: self.connect_timeout_seconds,
                        io_timeout_seconds: self.io_timeout_seconds,
                    },
                    node_receipt_public_key: Some(receipt.clone()),
                },
            ),
        }
    }
}

/// How a node lets others in.
#[derive(Debug, PartialEq, Eq)]
pub enum SecurityMode {
    Paired,
    PairingRequired,
    LanOpen,
    /// In a way that is not known here, as it was advertised.
    Other(String),
}

/// How a node lets others in, its text as a sequence.
pub ghost enum Security {
    Paired,
    PairingRequired,
    LanOpen,
    Other(Seq<char>),
}

impl View for SecurityMode {
    type V = Security;

    open spec fn view(&self) -> Security {
        match self {
            SecurityMode::Paired => Security::Paired,
            SecurityMode::PairingRequired => Security::PairingRequired,
            SecurityMode::LanOpen => Security::LanOpen,
            SecurityMode::Other(text) => Security::Other(text@),
        }
    }
}

impl Clone for SecurityMode {
    fn clone(&self) -> (r: SecurityMode)
        ensures
            r@ == self@,
    {
        match self {
            SecurityMode::Paired => SecurityMode::Paired,
            SecurityMode::PairingRequired => SecurityMode::PairingRequired,
            SecurityMode::LanOpen => SecurityMode::LanOpen,
            SecurityMode::Other(text) => SecurityMode::Other(text.clone()),
        }
    }
}

/// A node that answered on the network.
#[derive(Debug)]
pub struct DiscoveredNode {
    pub node_id: String,
    /// The address that the answer came from.
    pub source: String,
    pub loopback: bool,
    /// The address that the node serves at.
    pub address: String,
    pub server_name: String,
    pub security_mode: SecurityMode,
    pub supports_v2: bool,
}

/// A node that is remembered, and where its credentials stand.
#[derive(Debug)]
pub struct StoredPeer {
    pub node_id: String,
    pub address: String,
    pub server_name: String,
    pub security_mode: SecurityMode,
    pub supports_v2: bool,
    pub ca: String,
    pub cert: String,
    pub key: String,
    /// The receipt key, where there is one.
    pub receipt: Option<String>,
}

/// Whether one node comes before another: by name, then by source.
pub open spec fn node_before(a: DiscoveredNode, b: DiscoveredNode) -> bool {
    lex_less(a.node_id@, b.node_id@) || (a.node_id@ == b.node_id@ && lex_less(a.source@, b.source@))
}

/// Which nodes come into question: the one that is asked for, else the
/// preferred one where it is there, else those of other machines where there
/// are any.
pub open spec fn in_question(
    nodes: Seq<DiscoveredNode>,
    requested: Option<Seq<char>>,
    preferred: Option<Seq<char>>,
    i: int,
) -> bool {
    if requested is Some {
        nodes[i].node_id@ == requested->Some_0
    } else if preferred is Some && named_among(nodes, preferred->Some_0) {
        nodes[i].node_id@ == preferred->Some_0
    } else if some_remote(nodes) {
        !nodes[i].loopback
    } else {
        true
    }
}

pub open spec fn named_among(nodes: Seq<DiscoveredNode>, name: Seq<char>) -> bool {
    exists|j: int| 0 <= j < nodes.len() && (#[trigger] nodes[j]).node_id@ == name
}

pub open spec fn some_remote(nodes: Seq<DiscoveredNode>) -> bool {
    exists|j: int| 0 <= j < nodes.len() && !(#[trigger] nodes[j]).loopback
}

/// Whether a node is the first of those in question, and of equal ones the one
/// that answered first.
pub open spec fn is_choice(
    nodes: Seq<DiscoveredNode>,
    requested: Option<Seq<char>>,
    preferred: Option<Seq<char>>,
    i: int,
) -> bool {
    &&& 0 <= i < nodes.len()
    &&& in_question(nodes, requested, preferred, i)
    &&& forall|j: int|
        0 <= j < nodes.len() && #[trigger] in_question(nodes, requested, preferred, j) ==> (
        if j < i {
            node_before(nodes[i], nodes[j])
        } else {
            !node_before(nodes[j], nodes[i])
        })
}

/// What answered settles the choice: no two nodes are chosen.
pub proof fn choices_are_settled(
    nodes: Seq<DiscoveredNode>,
    requested: Option<Seq<char>>,
    preferred: Option<Seq<char>>,
    i: int,
    j: int,
)
    requires
        is_choice(nodes, requested, preferred, i),
        is_choice(nodes, requested, preferred, j),
    ensures
        i == j,
{
}

fn text_before(a: &str, b: &str) -> (r: bool)
    ensures
        r == lex_less(a@, b@),
{
    comes_before(chars_of(a).as_slice(), chars_of(b).as_slice())
}

fn is_before(a: &DiscoveredNode, b: &DiscoveredNode) -> (r: bool)
    ensures
        r == node_before(*a, *b),
{
    text_before(a.node_id.as_str(), b.node_id.as_str()) || (*a.node_id.as_str()
        == *b.node_id.as_str() && text_before(a.source.as_str(), b.source.as_str()))
}

proof fn lemma_node_before(a: DiscoveredNode, b: DiscoveredNode, c: DiscoveredNode)
    ensures
        node_before(a, b) && node_before(b, c) ==> node_before(a, c),
        node_before(a, b) ==> !node_before(b, a),
        !node_before(a, b) && node_before(a, c) ==> node_before(b, c),
        !node_before(a, b) && !node_before(b, c) ==> !node_before(a, c),
{
    crate::text::lemma_lex_total(a.node_id@, b.node_id@);
    crate::text::lemma_lex_total(b.node_id@, c.node_id@);
    crate::text::lemma_lex_total(a.node_id@, c.node_id@);
    crate::text::lemma_lex_total(a.source@, b.source@);
    crate::text::lemma_lex_total(b.source@, c.source@);
    crate::text::lemma_lex_total(a.source@, c.source@);
    if lex_less(a.node_id@, b.node_id@) && lex_less(b.node_id@, c.node_id@) {
        crate::text::lemma_lex_trans(a.node_id@, b.node_id@, c.node_id@);
    }
    if lex_less(b.node_id@, a.node_id@) && lex_less(a.node_id@, c.node_id@) {
        crate::text::lemma_lex_trans(b.node_id@, a.node_id@, c.node_id@);
    }
    if lex_less(c.node_id@, b.node_id@) && lex_less(b.node_id@, a.node_id@) {
        crate::text::lemma_lex_trans(c.node_id@, b.node_id@, a.node_id@);
    }
    if lex_less(a.source@, b.source@) && lex_less(b.source@, c.source@) {
        crate::text::lemma_lex_trans(a.source@, b.source@, c.source@);
    }
    if lex_less(b.source@, a.source@) && lex_less(a.source@, c.source@) {
        crate::text::lemma_lex_trans(b.source@, a.source@, c.source@);
    }
    if lex_less(c.source@, b.source@) && lex_less(b.source@, a.source@) {
        crate::text::lemma_lex_trans(c.source@, b.source@, a.source@);
    }
}

fn has_name(nodes: &[DiscoveredNode], name: &str) -> (r: bool)
    ensures
        r == named_among(nodes@, name@),
{
    let mut i: usize = 0;
    while i < nodes.len()
        invariant
            i <= nodes@.len(),
            forall|j: int| 0 <= j < i ==> (#[trigger] nodes@[j]).node_id@ != name@,
        decreases nodes@.len() - i,
    {
        if *nodes[i].node_id.as_str() == *name {
            return true;
        }
        i += 1;
    }
    false
}

fn has_remote(nodes: &[DiscoveredNode]) -> (r: bool)
    ensures
        r == some_remote(nodes@),
{
    let mut i: usize = 0;
    while i < nodes.len()
        invariant
            i <= nodes@.len(),
            forall|j: int| 0 <= j < i ==> (#[trigger] nodes@[j]).loopback,
        decreases nodes@.len() - i,
    {
        if !nodes[i].loopback {
            return true;
        }
        i += 1;
    }
    false
}

/// Chooses among the nodes that answered.
pub fn choose_discovered_node(
    nodes: &[DiscoveredNode],
    requested: Option<&str>,
    preferred: Option<&str>,
) -> (r: Option<usize>)
    ensures
        match r {
            Some(i) => is_choice(nodes@, given(requested), given(preferred), i as int),
            None => forall|i: int|
                0 <= i < nodes@.len() ==> !#[trigger] in_question(
                    nodes@,
                    given(requested),
                    given(preferred),
                    i,
                ),
        },
{
    let prefer = match preferred {
        Some(name) => has_name(nodes, name),
        None => false,
    };
    let remote = has_remote(nodes);
    let ghost req = given(requested);
    let ghost pref = given(preferred);
    let mut best: Option<usize> = None;
    let mut i: usize = 0;
    while i < nodes.len()
        invariant
            i <= nodes@.len(),
            req == given(requested),
            pref == given(preferred),
            prefer == (pref is Some && named_among(nodes@, pref->Some_0)),
            remote == some_remote(nodes@),
            match best {
                None => forall|j: int|
                    0 <= j < i ==> !#[trigger] in_question(nodes@, req, pref, j),
                Some(b) => {
                    &&& b < i
                    &&& in_question(nodes@, req, pref, b as int)
                    &&& forall|j: int|
                        0 <= j < i && #[trigger] in_question(nodes@, req, pref, j) ==> (if j < b {
                            node_before(nodes@[b as int], nodes@[j])
                        } else {
                            !node_before(nodes@[j], nodes@[b as int])
                        })
                },
            },
        decreases nodes@.len() - i,
    {
        let node = &nodes[i];
        let counts: bool = match requested {
            Some(name) => *node.node_id.as_str() == *name,
            None => match preferred {
                Some(name) => if prefer {
                    *node.node_id.as_str() == *name
                } else {
                    !remote || !node.loopback
                },
                None => !remote || !node.loopback,
            },
        };
        assert(counts == in_question(nodes@, req, pref, i as int));
        if counts {
            match best {
                None => {
                    proof {
                        lemma_node_before(nodes@[i as int], nodes@[i as int], nodes@[i as int]);
                    }
                    best = Some(i);
                },
                Some(b) => {
                    if is_before(node, &nodes[b]) {
                        proof {
                            assert forall|j: int|
                                0 <= j < i + 1 && #[trigger] in_question(
                                    nodes@,
                                    req,
                                    pref,
                                    j,
                                ) implies (if j < i {
                                node_before(nodes@[i as int], nodes@[j])
                            } else {
                                !node_before(nodes@[j], nodes@[i as int])
                            }) by {
                                lemma_node_before(
                                    nodes@[i as int],
                                    nodes@[b as int],
                                    nodes@[j],
                                );
                                lemma_node_before(
                                    nodes@[j],
                                    nodes@[b as int],
                                    nodes@[i as int],
                                );
                                lemma_node_before(
                                    nodes@[i as int],
                                    nodes@[j],
                                    nodes@[b as int],
                                );
                                lemma_node_before(
                                    nodes@[i as int],
                                    nodes@[i as int],
                                    nodes@[i as int],
                                );
                            }
                        }
                        best = Some(i);
                    }
                },
            }
        }
        i += 1;
    }
    best
}

/// Which remembered nodes come into question.
pub open spec fn peer_in_question(
    peers: Seq<StoredPeer>,
    requested: Option<Seq<char>>,
    preferred: Option<Seq<char>>,
    i: int,
) -> bool {
    if requested is Some {
        peers[i].node_id@ == requested->Some_0
    } else if preferred is Some && peer_named(peers, preferred->Some_0) {
        peers[i].node_id@ == preferred->Some_0
    } else {
        true
    }
}

pub open spec fn peer_named(peers: Seq<StoredPeer>, name: Seq<char>) -> bool {
    exists|j: int| 0 <= j < peers.len() && (#[trigger] peers[j]).node_id@ == name
}

/// Whether a remembered node is the first of those in question, by name.
pub open spec fn is_peer_choice(
    peers: Seq<StoredPeer>,
    requested: Option<Seq<char>>,
    preferred: Option<Seq<char>>,
    i: int,
) -> bool {
    &&& 0 <= i < peers.len()
    &&& peer_in_question(peers, requested, preferred, i)
    &&& forall|j: int|
        0 <= j < peers.len() && #[trigger] peer_in_question(peers, requested, preferred, j) ==> (
        if j < i {
            lex_less(peers[i].node_id@, peers[j].node_id@)
        } else {
            !lex_less(peers[j].node_id@, peers[i].node_id@)
        })
}

proof fn lemma_order(a: Seq<char>, b: Seq<char>, c: Seq<char>)
    ensures
        lex_less(a, b) && lex_less(b, c) ==> lex_less(a, c),
        lex_less(a, b) ==> !lex_less(b, a),
        !lex_less(a, b) && lex_less(a, c) ==> lex_less(b, c),
{
    crate::text::lemma_lex_total(a, b);
    crate::text::lemma_lex_total(b, c);
    crate::text::lemma_lex_total(a, c);
    if lex_less(a, b) && lex_less(b, c) {
        crate::text::lemma_lex_trans(a, b, c);
    }
    if lex_less(b, a) && lex_less(a, c) {
        crate::text::lemma_lex_trans(b, a, c);
    }
}

fn peer_has_name(peers: &[StoredPeer], name: &str) -> (r: bool)
    ensures
        r == peer_named(peers@, name@),
{
    let mut i: usize = 0;
    while i < peers.len()
        invariant
            i <= peers@.len(),
            forall|j: int| 0 <= j < i ==> (#[trigger] peers@[j]).node_id@ != name@,
        decreases peers@.len() - i,
    {
        if *peers[i].node_id.as_str() == *name {
            return true;
        }
        i += 1;
    }
    false
}

/// Chooses among the nodes that are remembered.
pub fn choose_stored_peer(
    peers: &[StoredPeer],
    requested: Option<&str>,
    preferred: Option<&str>,
) -> (r: Option<usize>)
    ensures
        match r {
            Some(i) => is_peer_choice(peers@, given(requested), given(preferred), i as int),
            None => forall|i: int|
                0 <= i < peers@.len() ==> !#[trigger] peer_in_question(
                    peers@,
                    given(requested),
                    given(preferred),
                    i,
                ),
        },
{
    let prefer = match preferred {
        Some(name) => peer_has_name(peers, name),
        None => false,
    };
    let ghost req = given(requested);
    let ghost pref = given(preferred);
    let mut best: Option<usize> = None;
    let mut i: usize = 0;
    while i < peers.len()
        invariant
            i <= peers@.len(),
            req == given(requested),
            pref == given(preferred),
            prefer == (pref is Some && peer_named(peers@, pref->Some_0)),
            match best {
                None => forall|j: int|
                    0 <= j < i ==> !#[trigger] peer_in_question(peers@, req, pref, j),
                Some(b) => {
                    &&& b < i
                    &&& peer_in_question(peers@, req, pref, b as int)
                    &&& forall|j: int|
                        0 <= j < i && #[trigger] peer_in_question(peers@, req, pref, j) ==> (if j
                            < b {
                            lex_less(peers@[b as int].node_id@, peers@[j].node_id@)
                        } else {
                            !lex_less(peers@[j].node_id@, peers@[b as int].node_id@)
                        })
                },
            },
        decreases peers@.len() - i,
    {
        let peer = &peers[i];
        let counts: bool = match requested {
            Some(name) => *peer.node_id.as_str() == *name,
            None => match preferred {
                Some(name) => !prefer || *peer.node_id.as_str() == *name,
                None => true,
            },
        };
        assert(counts == peer_in_question(peers@, req, pref, i as int));
        if counts {
            let ghost me = peers@[i as int].node_id@;
            match best {
                None => {
                    proof {
                        lemma_order(me, me, me);
                    }
                    best = Some(i);
                },
                Some(b) => {
                    if text_before(peer.node_id.as_str(), peers[b].node_id.as_str()) {
                        proof {
                            let held = peers@[b as int].node_id@;
                            assert forall|j: int|
                                0 <= j < i + 1 && #[trigger] peer_in_question(
                                    peers@,
                                    req,
                                    pref,
                                    j,
                                ) implies (if j < i {
                                lex_less(peers@[i as int].node_id@, peers@[j].node_id@)
                            } else {
                                !lex_less(peers@[j].node_id@, peers@[i as int].node_id@)
                            }) by {
                                let other = peers@[j].node_id@;
                                lemma_order(me, held, other);
                                lemma_order(other, held, me);
                                lemma_order(me, other, held);
                                lemma_order(other, me, held);
                                lemma_order(me, me, me);
                                crate::text::lemma_lex_total(other, held);
                            }
                        }
                        best = Some(i);
                    }
                },
            }
        }
        i += 1;
    }
    best
}

/// The connection to a remembered node, at an address.
pub open spec fn remembered_connection(
    peer: StoredPeer,
    address: Seq<char>,
    server_name: Seq<char>,
    connect: u64,
    io: u64,
) -> Resolved {
    Resolved {
        node_id: Some(peer.node_id@),
        address,
        server_name,
        ca: peer.ca@,
        cert: peer.cert@,
        key: peer.key@,
        receipt: shown_as(peer.receipt),
        connect_timeout_seconds: connect,
        io_timeout_seconds: io,
    }
}

/// The connection to a remembered node, at an address.
pub fn resolved_from_stored(
    peer: &StoredPeer,
    address: &str,
    server_name: &str,
    connect: u64,
    io: u64,
) -> (r: ResolvedNodeConnection)
    ensures
        r@ == remembered_connection(*peer, address@, server_name@, connect, io),
{
    ResolvedNodeConnection {
        node_id: Some(peer.node_id.clone()),
        address: address.to_owned(),
        server_name: server_name.to_owned(),
        ca: peer.ca.clone(),
        cert: peer.cert.clone(),
        key: peer.key.clone(),
        node_receipt_public_key: copied(&peer.receipt),
        connect_timeout_seconds: connect,
        io_timeout_seconds: io,
    }
}

/// Where things stand if nothing is said about them.
#[derive(Debug)]
pub struct ConnectionDefaults {
    pub address: String,
    pub server_name: String,
    pub ca: String,
    pub cert: String,
    pub key: String,
}

/// What is done to reach a node.
#[derive(Debug)]
pub enum ConnectionPlan {
    /// The node that is named is looked up, and reached at the address given.
    Reroute,
    /// All is known.
    Explicit(ResolvedNodeConnection),
    /// Nodes are looked for.
    Discover,
}

pub open spec fn or_default(text: Option<Seq<char>>, usual: Seq<char>) -> Seq<char> {
    match text {
        Some(text) => text,
        None => usual,
    }
}

/// The connection that is spelled out.
pub open spec fn explicit_connection(asked: Asked, defaults: ConnectionDefaults) -> Resolved {
    Resolved {
        node_id: asked.node,
        address: or_default(asked.address, defaults.address@),
        server_name: or_default(asked.server_name, defaults.server_name@),
        ca: or_default(asked.ca, defaults.ca@),
        cert: or_default(asked.cert, defaults.cert@),
        key: or_default(asked.key, defaults.key@),
        receipt: None,
        connect_timeout_seconds: asked.connect_timeout_seconds,
        io_timeout_seconds: asked.io_timeout_seconds,
    }
}

fn text_or(text: &Option<String>, usual: &String) -> (out: String)
    ensures
        out@ == or_default(shown_as(*text), usual@),
{
    match text {
        Some(text) => text.clone(),
        None => usual.clone(),
    }
}

/// What is done to reach a node.
pub fn plan_connection(args: &NodeConnectionArgs, defaults: &ConnectionDefaults) -> (r: Result<
    ConnectionPlan,
    ConnectionError,
>)
    ensures
        match r {
            Err(error) => timeout_fault(args@.connect_timeout_seconds, args@.io_timeout_seconds)
                == Some(error) || (timeout_fault(
                args@.connect_timeout_seconds,
                args@.io_timeout_seconds,
            ) is None && error is NodeWithManual && args@.node is Some && args@.manual),
            Ok(plan) => timeout_fault(args@.connect_timeout_seconds, args@.io_timeout_seconds)
                is None && !(args@.node is Some && args@.manual) && match plan {
                ConnectionPlan::Reroute => args@.rerouted(),
                ConnectionPlan::Explicit(resolved) => !args@.rerouted() && args@.explicit()
                    && resolved@ == explicit_connection(args@, *defaults),
                ConnectionPlan::Discover => !args@.explicit(),
            },
        },
{
    match validate_connection_timeouts(args) {
        Ok(_) => {},
        Err(error) => {
            return Err(error);
        },
    }
    if args.node.is_some() && args.address.is_some() && !args.manual && args.server_name.is_none()
        && args.ca.is_none() && args.cert.is_none() && args.key.is_none() {
        return Ok(ConnectionPlan::Reroute);
    }
    if explicit_connection_requested(args) {
        if args.node.is_some() && args.manual {
            return Err(ConnectionError::NodeWithManual);
        }
        return Ok(
            ConnectionPlan::Explicit(
                ResolvedNodeConnection {
                    node_id: copied(&args.node),
                    address: text_or(&args.address, &defaults.address),
                    server_name: text_or(&args.server_name, &defaults.server_name),
                    ca: text_or(&args.ca, &defaults.ca),
                    cert: text_or(&args.cert, &defaults.cert),
                    key: text_or(&args.key, &defaults.key),
                    node_receipt_public_key: None,
                    connect_timeout_seconds: args.connect_timeout_seconds,
                    io_timeout_seconds: args.io_timeout_seconds,
                },
            ),
        );
    }
    Ok(ConnectionPlan::Discover)
}

/// Reaches a remembered node at another address, which only a paired one can
/// be.
pub fn reroute(args: &NodeConnectionArgs, stored: Option<&StoredPeer>) -> (r: Result<
    ResolvedNodeConnection,
    ConnectionError,
>)
    requires
        args.address is Some,
    ensures
        match r {
            Ok(resolved) => stored is Some && stored->Some_0.security_mode is Paired && resolved@
                == remembered_connection(
                *stored->Some_0,
                args.address->Some_0@,
                stored->Some_0.server_name@,
                args.connect_timeout_seconds,
                args.io_timeout_seconds,
            ),
            Err(error) => if stored is None {
                error is NotRemembered
            } else {
                error is NotPaired && !(stored->Some_0.security_mode is Paired)
            },
        },
{
    match stored {
        None => Err(ConnectionError::NotRemembered),
        Some(peer) => match &peer.security_mode {
            SecurityMode::Paired => {
                let address = match &args.address {
                    Some(address) => address.as_str(),
                    None => "",
                };
                Ok(
                    resolved_from_stored(
                        peer,
                        address,
                        peer.server_name.as_str(),
                        args.connect_timeout_seconds,
                        args.io_timeout_seconds,
                    ),
                )
            },
            _ => Err(ConnectionError::NotPaired),
        },
    }
}

/// What is done about a node that answered.
#[derive(Debug)]
pub enum DiscoveryStep {
    /// It is paired: what is remembered of it counts, but for its address.
    Pinned(ResolvedNodeConnection),
    /// Its credentials are fetched.
    Enroll,
}

/// What is done about a node that answered.
pub fn judge_discovered(
    args: &NodeConnectionArgs,
    node: &DiscoveredNode,
    stored: Option<&StoredPeer>,
) -> (r: Result<DiscoveryStep, ConnectionError>)
    ensures
        match r {
            Ok(DiscoveryStep::Pinned(resolved)) => stored is Some && stored->Some_0.security_mode
                is Paired && resolved@ == remembered_connection(
                *stored->Some_0,
                node.address@,
                stored->Some_0.server_name@,
                args.connect_timeout_seconds,
                args.io_timeout_seconds,
            ),
            Ok(DiscoveryStep::Enroll) => !(stored is Some && stored->Some_0.security_mode is Paired)
                && node.security_mode is LanOpen,
            Err(error) => !(stored is Some && stored->Some_0.security_mode is Paired) && (
            if node.security_mode is PairingRequired {
                error is PairingRequired
            } else {
                error is UnsupportedSecurity && !(node.security_mode is LanOpen)
            }),
        },
{
    match stored {
        Some(peer) => match &peer.security_mode {
            SecurityMode::Paired => {
                return Ok(
                    DiscoveryStep::Pinned(
                        resolved_from_stored(
                            peer,
                            node.address.as_str(),
                            peer.server_name.as_str(),
                            args.connect_timeout_seconds,
                            args.io_timeout_seconds,
                        ),
                    ),
                );
            },
            _ => {},
        },
        None => {},
    }
    match &node.security_mode {
        SecurityMode::PairingRequired => Err(ConnectionError::PairingRequired),
        SecurityMode::LanOpen => Ok(DiscoveryStep::Enroll),
        _ => Err(ConnectionError::UnsupportedSecurity),
    }
}

/// Reaches a node after its credentials were fetched, or with those that are
/// remembered where they could not be.
pub fn after_enrollment(
    args: &NodeConnectionArgs,
    node: &DiscoveredNode,
    enrolled: Option<&StoredPeer>,
    stored: Option<&StoredPeer>,
) -> (r: Result<ResolvedNodeConnection, ConnectionError>)
    ensures
        match r {
            Ok(resolved) => (enrolled is Some || stored is Some) && resolved@
                == remembered_connection(
                if enrolled is Some {
                    *enrolled->Some_0
                } else {
                    *stored->Some_0
                },
                node.address@,
                node.server_name@,
                args.connect_timeout_seconds,
                args.io_timeout_seconds,
            ),
            Err(error) => error is NotEnrolled && enrolled is None && stored is None,
        },
{
    let peer = match enrolled {
        Some(peer) => peer,
        None => match stored {
            Some(peer) => peer,
            None => {
                return Err(ConnectionError::NotEnrolled);
            },
        },
    };
    Ok(
        resolved_from_stored(
            peer,
            node.address.as_str(),
            node.server_name.as_str(),
            args.connect_timeout_seconds,
            args.io_timeout_seconds,
        ),
    )
}

/// Why no node is reached once none answered and none is remembered.
pub fn nothing_found(args: &NodeConnectionArgs) -> (error: ConnectionError)
    ensures
        error == (if args.node is Some {
            ConnectionError::UnknownNode
        } else {
            ConnectionError::NoNode
        }),
{
    if args.node.is_some() {
        ConnectionError::UnknownNode
    } else {
        ConnectionError::NoNode
    }
}

/// Neither discovery nor another address changes who a paired node is: its
/// name, its credentials and its receipt key are those that are remembered.
pub proof fn pairing_pins_the_identity(
    peer: StoredPeer,
    address: Seq<char>,
    elsewhere: Seq<char>,
    connect: u64,
    io: u64,
)
    ensures
        ({
            let a = remembered_connection(peer, address, peer.server_name@, connect, io);
            let b = remembered_connection(peer, elsewhere, peer.server_name@, connect, io);
            a == Resolved { address, ..b } && a.node_id == Some(peer.node_id@) && a.ca == peer.ca@
                && a.cert == peer.cert@ && a.key == peer.key@ && a.receipt == shown_as(peer.receipt)
        }),
{
}

/// An invocation that spells a connection out leads to that connection again,
/// but for the node's name and receipt key, without looking for nodes.
pub proof fn spelled_out_connections_come_back(
    resolved: Resolved,
    defaults: ConnectionDefaults,
)
    ensures
        resolved.spelled_out().explicit(),
        !resolved.spelled_out().rerouted(),
        explicit_connection(resolved.spelled_out(), defaults) == (Resolved {
            node_id: None,
            receipt: None,
            ..resolved
        }),
{
}

/// What is asked for where a session is a certain node's.
pub fn session_request(requested: NodeConnectionArgs, node_id: Option<&str>) -> (args:
    NodeConnectionArgs)
    ensures
        args@ == (if !requested@.explicit() && requested@.node is None {
            Asked { node: given(node_id), ..requested@ }
        } else {
            requested@
        }),
{
    let mut args = requested;
    if !explicit_connection_requested(&args) && args.node.is_none() {
        args.node = match node_id {
            Some(name) => Some(name.to_owned()),
            None => None,
        };
    }
    args
}

/// Checks that a connection leads to the node of a session, and that the node
/// has durable sessions.
pub fn check_session_node(resolved: &ResolvedNodeConnection, node_id: Option<&str>) -> (r: Result<
    (),
    ConnectionError,
>)
    ensures
        match r {
            Ok(_) => !(node_id is Some && resolved@.node_id is Some && resolved@.node_id != given(
                node_id,
            )) && resolved@.receipt is Some,
            Err(error) => if node_id is Some && resolved@.node_id is Some && resolved@.node_id
                != given(node_id) {
                error is OtherNode
            } else {
                error is NoReceiptKey && resolved@.receipt is None
            },
        },
{
    match (node_id, &resolved.node_id) {
        (Some(expected), Some(actual)) => {
            if *expected != *actual.as_str() {
                return Err(ConnectionError::OtherNode);
            }
        },
        _ => {},
    }
    if resolved.node_receipt_public_key.is_none() {
        return Err(ConnectionError::NoReceiptKey);
    }
    Ok(())
}

} // verus!
