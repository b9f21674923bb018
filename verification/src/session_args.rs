//! The invocations by which a session manages itself, and what it runs with.

use vstd::prelude::*;

use crate::authority::SessionStateTierArg;
use crate::connection::{Resolved, ResolvedNodeConnection};
use crate::paths::{join_path, joined_path};
use crate::session::SessionError;
use crate::text::{decimal, join, joined, push_decimal, shown_as, views};

verus! {

fn number_text(n: u64) -> (out: String)
    ensures
        out@ == decimal(n as nat),
{
    let mut out = String::new();
    push_decimal(&mut out, n);
    assert(out@ =~= decimal(n as nat));
    out
}

/// The arguments that spell out a connection.
pub open spec fn connection_arguments(r: Resolved) -> Seq<Seq<char>> {
    seq![
        "--manual"@,
        "--address"@,
        r.address,
        "--server-name"@,
        r.server_name,
        "--ca"@,
        r.ca,
        "--cert"@,
        r.cert,
        "--key"@,
        r.key,
        "--connect-timeout-seconds"@,
        decimal(r.connect_timeout_seconds as nat),
        "--io-timeout-seconds"@,
        decimal(r.io_timeout_seconds as nat),
    ]
}

/// The arguments that spell out a connection, with the node's receipt key where
/// it is needed.
pub fn manual_connection(resolved: &ResolvedNodeConnection, receipt: bool) -> (r: Result<
    Vec<String>,
    SessionError,
>)
    ensures
        match r {
            Ok(list) => views(list@) == (if receipt {
                connection_arguments(resolved@) + seq![
                    "--node-receipt-public-key"@,
                    resolved@.receipt->Some_0,
                ]
            } else {
                connection_arguments(resolved@)
            }) && (receipt ==> resolved@.receipt is Some),
            Err(error) => error is NoReceiptKey && receipt && resolved@.receipt is None,
        },
{
    let mut list: Vec<String> = vec![
        "--manual".to_owned(),
        "--address".to_owned(),
        resolved.address.clone(),
        "--server-name".to_owned(),
        resolved.server_name.clone(),
        "--ca".to_owned(),
        resolved.ca.clone(),
        "--cert".to_owned(),
        resolved.cert.clone(),
        "--key".to_owned(),
        resolved.key.clone(),
        "--connect-timeout-seconds".to_owned(),
        number_text(resolved.connect_timeout_seconds),
        "--io-timeout-seconds".to_owned(),
        number_text(resolved.io_timeout_seconds),
    ];
    assert(views(list@) =~= connection_arguments(resolved@));
    if receipt {
        match &resolved.node_receipt_public_key {
            Some(key) => {
                list.push("--node-receipt-public-key".to_owned());
                list.push(key.clone());
                assert(views(list@) =~= connection_arguments(resolved@) + seq![
                    "--node-receipt-public-key"@,
                    resolved@.receipt->Some_0,
                ]);
            },
            None => {
                return Err(SessionError::NoReceiptKey);
            },
        }
    }
    Ok(list)
}

/// Where the parts of a session's own programs stand.
#[derive(Debug)]
pub struct LocalRuntime {
    pub shim_dir: String,
    pub runtime_binary: String,
    pub signing_key: String,
}

/// The invocation that opens a session.
pub open spec fn open_arguments(
    runtime: LocalRuntime,
    source: Seq<char>,
    node_id: Seq<char>,
    tier: Seq<char>,
    capability: Seq<char>,
    lease: Seq<char>,
    r: Resolved,
) -> Seq<Seq<char>> {
    seq![
        "node"@,
        "authority"@,
        "dev-mint"@,
        "open"@,
        "--shim-dir"@,
        runtime.shim_dir@,
        "--runtime-binary"@,
        runtime.runtime_binary@,
        "--signing-key"@,
        runtime.signing_key@,
        "--source"@,
        source,
        "--node-id"@,
        node_id,
        "--state-tier"@,
        tier,
        "--client-cert"@,
        r.cert,
        "--submit"@,
        "--capability-out"@,
        capability,
        "--out"@,
        lease,
        "--address"@,
        r.address,
        "--server-name"@,
        r.server_name,
        "--ca"@,
        r.ca,
        "--key"@,
        r.key,
        "--node-receipt-public-key"@,
        r.receipt->Some_0,
        "--connect-timeout-seconds"@,
        decimal(r.connect_timeout_seconds as nat),
        "--io-timeout-seconds"@,
        decimal(r.io_timeout_seconds as nat),
    ]
}

pub open spec fn tier_name(tier: SessionStateTierArg) -> Seq<char> {
    match tier {
        SessionStateTierArg::Stateless => "stateless"@,
        SessionStateTierArg::CheckpointRestore => "checkpoint-restore"@,
        SessionStateTierArg::ReplayReconstructible => "replay-reconstructible"@,
        SessionStateTierArg::LiveActorOnly => "live-actor-only"@,
    }
}

/// The invocation that opens a session.
pub fn open_invocation(
    runtime: &LocalRuntime,
    source: &str,
    node_id: &str,
    tier: SessionStateTierArg,
    capability: &str,
    lease: &str,
    resolved: &ResolvedNodeConnection,
) -> (r: Result<Vec<String>, SessionError>)
    ensures
        match r {
            Ok(list) => resolved@.receipt is Some && views(list@) == open_arguments(
                *runtime,
                source@,
                node_id@,
                tier_name(tier),
                capability@,
                lease@,
                resolved@,
            ),
            Err(error) => error is NoReceiptKey && resolved@.receipt is None,
        },
{
    let receipt = match &resolved.node_receipt_public_key {
        Some(key) => key.clone(),
        None => {
            return Err(SessionError::NoReceiptKey);
        },
    };
    let list: Vec<String> = vec![
        "node".to_owned(),
        "authority".to_owned(),
        "dev-mint".to_owned(),
        "open".to_owned(),
        "--shim-dir".to_owned(),
        runtime.shim_dir.clone(),
        "--runtime-binary".to_owned(),
        runtime.runtime_binary.clone(),
        "--signing-key".to_owned(),
        runtime.signing_key.clone(),
        "--source".to_owned(),
        source.to_owned(),
        "--node-id".to_owned(),
        node_id.to_owned(),
        "--state-tier".to_owned(),
        tier.cli_name().to_owned(),
        "--client-cert".to_owned(),
        resolved.cert.clone(),
        "--submit".to_owned(),
        "--capability-out".to_owned(),
        capability.to_owned(),
        "--out".to_owned(),
        lease.to_owned(),
        "--address".to_owned(),
        resolved.address.clone(),
        "--server-name".to_owned(),
        resolved.server_name.clone(),
        "--ca".to_owned(),
        resolved.ca.clone(),
        "--key".to_owned(),
        resolved.key.clone(),
        "--node-receipt-public-key".to_owned(),
        receipt,
        "--connect-timeout-seconds".to_owned(),
        number_text(resolved.connect_timeout_seconds),
        "--io-timeout-seconds".to_owned(),
        number_text(resolved.io_timeout_seconds),
    ];
    assert(views(list@) =~= open_arguments(
        *runtime,
        source@,
        node_id@,
        tier_name(tier),
        capability@,
        lease@,
        resolved@,
    ));
    Ok(list)
}

/// An operation of a session, and where its files stand.
#[derive(Debug)]
pub struct OperationFiles {
    pub open_lease: String,
    pub source: String,
    pub operation_id: String,
    pub task_sha256: String,
    pub operation_out: String,
    pub lease_out: String,
    pub capability: String,
}

/// The invocation that executes an operation, but for the connection.
pub open spec fn execute_arguments(
    runtime: LocalRuntime,
    files: OperationFiles,
    deadline_seconds: u64,
    output_bytes: u64,
) -> Seq<Seq<char>> {
    seq![
        "node"@,
        "authority"@,
        "dev-mint"@,
        "execute"@,
        "--shim-dir"@,
        runtime.shim_dir@,
        "--runtime-binary"@,
        runtime.runtime_binary@,
        "--signing-key"@,
        runtime.signing_key@,
        "--open-lease"@,
        files.open_lease@,
        "--source"@,
        files.source@,
        "--operation-id"@,
        files.operation_id@,
        "--task-sha256"@,
        files.task_sha256@,
        "--attempt-generation"@,
        "1"@,
        "--deadline-seconds"@,
        decimal(deadline_seconds as nat),
        "--output-limit-bytes"@,
        decimal(output_bytes as nat),
        "--submit"@,
        "--operation-out"@,
        files.operation_out@,
        "--out"@,
        files.lease_out@,
        "--capability"@,
        files.capability@,
    ]
}

/// The invocation that executes an operation.
pub fn execute_invocation(
    runtime: &LocalRuntime,
    files: &OperationFiles,
    deadline_seconds: u64,
    output_bytes: u64,
    resolved: &ResolvedNodeConnection,
) -> (r: Result<Vec<String>, SessionError>)
    ensures
        match r {
            Ok(list) => resolved@.receipt is Some && views(list@) == execute_arguments(
                *runtime,
                *files,
                deadline_seconds,
                output_bytes,
            ) + connection_arguments(resolved@) + seq![
                "--node-receipt-public-key"@,
                resolved@.receipt->Some_0,
            ],
            Err(error) => error is NoReceiptKey && resolved@.receipt is None,
        },
{
    let mut rest = match manual_connection(resolved, true) {
        Ok(list) => list,
        Err(error) => {
            return Err(error);
        },
    };
    let mut list: Vec<String> = vec![
        "node".to_owned(),
        "authority".to_owned(),
        "dev-mint".to_owned(),
        "execute".to_owned(),
        "--shim-dir".to_owned(),
        runtime.shim_dir.clone(),
        "--runtime-binary".to_owned(),
        runtime.runtime_binary.clone(),
        "--signing-key".to_owned(),
        runtime.signing_key.clone(),
        "--open-lease".to_owned(),
        files.open_lease.clone(),
        "--source".to_owned(),
        files.source.clone(),
        "--operation-id".to_owned(),
        files.operation_id.clone(),
        "--task-sha256".to_owned(),
        files.task_sha256.clone(),
        "--attempt-generation".to_owned(),
        "1".to_owned(),
        "--deadline-seconds".to_owned(),
        number_text(deadline_seconds),
        "--output-limit-bytes".to_owned(),
        number_text(output_bytes),
        "--submit".to_owned(),
        "--operation-out".to_owned(),
        files.operation_out.clone(),
        "--out".to_owned(),
        files.lease_out.clone(),
        "--capability".to_owned(),
        files.capability.clone(),
    ];
    let ghost first = execute_arguments(*runtime, *files, deadline_seconds, output_bytes);
    assert(views(list@) =~= first);
    let ghost tail = views(rest@);
    list.append(&mut rest);
    assert(views(list@) =~= first + tail);
    assert(first + tail =~= first + connection_arguments(resolved@) + seq![
        "--node-receipt-public-key"@,
        resolved@.receipt->Some_0,
    ]);
    Ok(list)
}

/// Where the shims of a session come from.
#[derive(Debug)]
pub enum ShimSource {
    Directory(String),
    /// The ones that are built in are written out.
    Bundled,
}

/// What the environment says about shims: two variables that name a directory,
/// the first one first, and one that names a checkout.
#[derive(Debug)]
pub struct ShimEnvironment {
    pub first: Option<String>,
    pub second: Option<String>,
    pub checkout: Option<String>,
    /// The checkout holds a directory of shims.
    pub checkout_has_shims: bool,
    /// The current directory holds one.
    pub current_has_shims: bool,
}

/// The variable that counts: the first one where it is set, whatever it is
/// set to.
pub open spec fn named_directory(e: ShimEnvironment) -> Option<Seq<char>> {
    let chosen = if e.first is Some {
        shown_as(e.first)
    } else {
        shown_as(e.second)
    };
    match chosen {
        Some(text) => if text.len() == 0 {
            None
        } else {
            Some(text)
        },
        None => None,
    }
}

/// The directory of the shims; nothing, where those that are built in count.
pub open spec fn shim_directory(e: ShimEnvironment) -> Option<Seq<char>> {
    if named_directory(e) is Some {
        named_directory(e)
    } else if e.checkout is Some && e.checkout->Some_0@.len() > 0 {
        if e.checkout_has_shims {
            Some(joined_path(e.checkout->Some_0@, "backends"@))
        } else {
            None
        }
    } else if e.current_has_shims {
        Some("backends"@)
    } else {
        None
    }
}

fn nonempty(text: &String) -> (r: bool)
    ensures
        r == (text@.len() > 0),
{
    text.as_str().unicode_len() > 0
}

/// Where the shims of a session come from.
pub fn choose_shims(e: &ShimEnvironment) -> (r: ShimSource)
    ensures
        match r {
            ShimSource::Directory(path) => shim_directory(*e) == Some(path@),
            ShimSource::Bundled => shim_directory(*e) is None,
        },
{
    let chosen = match &e.first {
        Some(text) => Some(text),
        None => match &e.second {
            Some(text) => Some(text),
            None => None,
        },
    };
    match chosen {
        Some(text) => {
            if nonempty(text) {
                return ShimSource::Directory(text.clone());
            }
        },
        None => {},
    }
    match &e.checkout {
        Some(root) => {
            if nonempty(root) {
                if e.checkout_has_shims {
                    return ShimSource::Directory(join_path(root.as_str(), "backends"));
                }
                return ShimSource::Bundled;
            }
        },
        None => {},
    }
    if e.current_has_shims {
        return ShimSource::Directory("backends".to_owned());
    }
    ShimSource::Bundled
}

/// Where a runtime may stand: where the environment says, beside the program,
/// and on the search path.
pub open spec fn runtime_places(
    explicit: Option<Seq<char>>,
    beside: Option<Seq<char>>,
    evaluator: Option<Seq<char>>,
    interpreter: Option<Seq<char>>,
) -> Seq<Seq<char>> {
    (match explicit {
        Some(path) => if path.len() > 0 {
            seq![path]
        } else {
            Seq::empty()
        },
        None => Seq::empty(),
    }) + (match beside {
        Some(dir) => seq![joined_path(dir, "ostadix-evaluator"@), joined_path(dir, "O"@)],
        None => Seq::empty(),
    }) + (match evaluator {
        Some(path) => seq![path],
        None => Seq::empty(),
    }) + (match interpreter {
        Some(path) => seq![path],
        None => Seq::empty(),
    })
}

/// Where a runtime may stand, in the order in which it is looked for.
pub fn runtime_candidates(
    explicit: &Option<String>,
    beside: &Option<String>,
    evaluator: &Option<String>,
    interpreter: &Option<String>,
) -> (out: Vec<String>)
    ensures
        views(out@) == runtime_places(
            shown_as(*explicit),
            shown_as(*beside),
            shown_as(*evaluator),
            shown_as(*interpreter),
        ),
{
    let mut out: Vec<String> = Vec::new();
    assert(views(out@) =~= Seq::empty());
    match explicit {
        Some(path) => {
            if nonempty(path) {
                out.push(path.clone());
                assert(views(out@) =~= seq![path@]);
            }
        },
        None => {},
    }
    let ghost first = views(out@);
    match beside {
        Some(dir) => {
            out.push(join_path(dir.as_str(), "ostadix-evaluator"));
            out.push(join_path(dir.as_str(), "O"));
            assert(views(out@) =~= first + seq![
                joined_path(dir@, "ostadix-evaluator"@),
                joined_path(dir@, "O"@),
            ]);
        },
        None => {
            assert(views(out@) =~= first + Seq::<Seq<char>>::empty());
        },
    }
    let ghost second = views(out@);
    match evaluator {
        Some(path) => {
            out.push(path.clone());
            assert(views(out@) =~= second + seq![path@]);
        },
        None => {
            assert(views(out@) =~= second + Seq::<Seq<char>>::empty());
        },
    }
    let ghost third = views(out@);
    match interpreter {
        Some(path) => {
            out.push(path.clone());
            assert(views(out@) =~= third + seq![path@]);
        },
        None => {
            assert(views(out@) =~= third + Seq::<Seq<char>>::empty());
        },
    }
    out
}

/// What is said where no runtime was found.
pub open spec fn no_runtime_text(rejected: Seq<Seq<char>>) -> Seq<char> {
    let start = "automatic session could not find a native Ostadix evaluator beside octl; run setup.sh"@;
    if rejected.len() == 0 {
        start
    } else {
        start + "; rejected candidates: "@ + joined(rejected, ", "@)
    }
}

/// What is said where no runtime was found.
pub fn no_runtime(rejected: &[String]) -> (out: String)
    ensures
        out@ == no_runtime_text(views(rejected@)),
{
    let mut out = "automatic session could not find a native Ostadix evaluator beside octl; run setup.sh".to_owned();
    assert(views(rejected@).len() == rejected@.len());
    if rejected.len() > 0 {
        out.append("; rejected candidates: ");
        out.append(join(rejected, ", ").as_str());
    }
    out
}

} // verus!
