//! What a placement authority signs: which commands a lease may be for, and how
//! the commands of one session follow from the lease that opened it.

use vstd::prelude::*;

use crate::text::shown_as;

verus! {

/// What is kept of a session between its operations.
#[derive(Clone, Copy, Debug, PartialEq, Eq, Structural)]
pub enum SessionStateTierArg {
    Stateless,
    CheckpointRestore,
    ReplayReconstructible,
    LiveActorOnly,
}

impl SessionStateTierArg {
    /// The name on the command line.
    pub fn cli_name(self) -> (text: &'static str)
        ensures
            text@ == (match self {
                SessionStateTierArg::Stateless => "stateless"@,
                SessionStateTierArg::CheckpointRestore => "checkpoint-restore"@,
                SessionStateTierArg::ReplayReconstructible => "replay-reconstructible"@,
                SessionStateTierArg::LiveActorOnly => "live-actor-only"@,
            }),
    {
        match self {
            SessionStateTierArg::Stateless => "stateless",
            SessionStateTierArg::CheckpointRestore => "checkpoint-restore",
            SessionStateTierArg::ReplayReconstructible => "replay-reconstructible",
            SessionStateTierArg::LiveActorOnly => "live-actor-only",
        }
    }
}

/// What a command is for.
#[derive(Clone, Copy, Debug, PartialEq, Eq, Structural)]
pub enum PlacementPurpose {
    OpenSession,
    Execute,
    Recover,
}

/// How much state a node takes.
#[derive(Clone, Copy, Debug, PartialEq, Eq, Structural)]
pub struct StateQuotaLimits {
    pub max_open_sessions: u32,
    pub max_actors_per_session: u32,
    pub max_snapshot_bytes_per_actor: u64,
    pub max_state_bytes_per_session: u64,
    pub max_state_bytes_total: u64,
}

/// How much state a session sets aside.
#[derive(Clone, Copy, Debug, PartialEq, Eq, Structural)]
pub struct StateReservation {
    pub actors: u32,
    pub snapshot_bytes: u64,
    pub state_bytes: u64,
}

/// One life of a session's actor, by its digest.
#[derive(Debug)]
pub struct ActorGeneration {
    pub digest: String,
    pub generation: u64,
}

/// One life of a session's actor, as a mathematical value.
pub ghost struct ActorLife {
    pub digest: Seq<char>,
    pub generation: u64,
}

impl View for ActorGeneration {
    type V = ActorLife;

    open spec fn view(&self) -> ActorLife {
        ActorLife { digest: self.digest@, generation: self.generation }
    }
}

pub open spec fn life_of(actor: Option<ActorGeneration>) -> Option<ActorLife> {
    match actor {
        Some(actor) => Some(actor@),
        None => None,
    }
}

impl ActorGeneration {
    pub fn copy(&self) -> (out: ActorGeneration)
        ensures
            out@ == self@,
    {
        ActorGeneration { digest: self.digest.clone(), generation: self.generation }
    }
}

/// A command to a node, as far as a lease binds it. Sessions, operations,
/// warrants and commitments are named by their digests.
#[derive(Debug)]
pub struct CommandBinding {
    pub node_id: String,
    pub principal_sha256: String,
    pub state_session: String,
    pub node_generation: u64,
    pub session_state_tier: SessionStateTierArg,
    pub client_request_id: String,
    pub client_sequence: u64,
    pub purpose: PlacementPurpose,
    pub operation_sha256: Option<String>,
    pub recovery_warrant_sha256: Option<String>,
    pub open_capability_commitment: Option<String>,
    pub state_quota_generation: u64,
    pub state_quota_limits: StateQuotaLimits,
    pub state_reservation: StateReservation,
    pub actor_generation: Option<ActorGeneration>,
}

/// A command to a node, as a mathematical value.
pub ghost struct CommandFacts {
    pub node_id: Seq<char>,
    pub principal: Seq<char>,
    pub session: Seq<char>,
    pub node_generation: u64,
    pub tier: SessionStateTierArg,
    pub request_id: Seq<char>,
    pub sequence: u64,
    pub purpose: PlacementPurpose,
    pub operation: Option<Seq<char>>,
    pub warrant: Option<Seq<char>>,
    pub commitment: Option<Seq<char>>,
    pub quota_generation: u64,
    pub quotas: StateQuotaLimits,
    pub reservation: StateReservation,
    pub actor: Option<ActorLife>,
}

impl View for CommandBinding {
    type V = CommandFacts;

    open spec fn view(&self) -> CommandFacts {
        CommandFacts {
            node_id: self.node_id@,
            principal: self.principal_sha256@,
            session: self.state_session@,
            node_generation: self.node_generation,
            tier: self.session_state_tier,
            request_id: self.client_request_id@,
            sequence: self.client_sequence,
            purpose: self.purpose,
            operation: shown_as(self.operation_sha256),
            warrant: shown_as(self.recovery_warrant_sha256),
            commitment: shown_as(self.open_capability_commitment),
            quota_generation: self.state_quota_generation,
            quotas: self.state_quota_limits,
            reservation: self.state_reservation,
            actor: life_of(self.actor_generation),
        }
    }
}

/// The state that a lease is bound to.
#[derive(Debug)]
pub enum LeaseStateBinding {
    /// State that is set aside, out of the capacity that was observed.
    Open { observation: String, reservation: StateReservation },
    /// The state of a session, and of its actor where there is one.
    Existing { session: String, actor: Option<String> },
}

/// The state that a lease is bound to, as a mathematical value.
pub ghost enum StateFacts {
    Open { observation: Seq<char>, reservation: StateReservation },
    Existing { session: Seq<char>, actor: Option<Seq<char>> },
}

impl View for LeaseStateBinding {
    type V = StateFacts;

    open spec fn view(&self) -> StateFacts {
        match self {
            LeaseStateBinding::Open { observation, reservation } => StateFacts::Open {
                observation: observation@,
                reservation: *reservation,
            },
            LeaseStateBinding::Existing { session, actor } => StateFacts::Existing {
                session: session@,
                actor: shown_as(*actor),
            },
        }
    }
}

fn same_text(a: &Option<String>, b: &Option<String>) -> (r: bool)
    ensures
        r == (shown_as(*a) == shown_as(*b)),
{
    match (a, b) {
        (Some(a), Some(b)) => *a.as_str() == *b.as_str(),
        (None, None) => true,
        _ => false,
    }
}

fn same_reservation(a: StateReservation, b: StateReservation) -> (r: bool)
    ensures
        r == (a == b),
{
    a.actors == b.actors && a.snapshot_bytes == b.snapshot_bytes && a.state_bytes == b.state_bytes
}

fn same_state(a: &LeaseStateBinding, b: &LeaseStateBinding) -> (r: bool)
    ensures
        r == (a@ == b@),
{
    match (a, b) {
        (
            LeaseStateBinding::Open { observation: x, reservation: p },
            LeaseStateBinding::Open { observation: y, reservation: q },
        ) => *x.as_str() == *y.as_str() && same_reservation(*p, *q),
        (
            LeaseStateBinding::Existing { session: x, actor: p },
            LeaseStateBinding::Existing { session: y, actor: q },
        ) => *x.as_str() == *y.as_str() && same_text(p, q),
        _ => false,
    }
}

/// What was observed of a node's capacity, and by whom.
#[derive(Debug)]
pub struct CapacityObservation {
    pub issuer: String,
    pub digest: String,
}

/// What a lease is expected to be for.
#[derive(Debug)]
pub struct LeaseExpectation {
    pub node_id: String,
    pub command_digest: String,
    pub state: LeaseStateBinding,
}

/// A lease that is asked for.
#[derive(Debug)]
pub struct IssueRequest {
    pub lifetime_seconds: u64,
    pub state_control: bool,
    /// The key of the authority.
    pub issuer: String,
    pub observation: Option<CapacityObservation>,
    pub command: CommandBinding,
    pub command_digest: String,
    pub expectation: LeaseExpectation,
    pub now: u64,
}

/// Why a lease is not given.
#[derive(Clone, Copy, Debug, PartialEq, Eq, Structural)]
pub enum IssueError {
    Lifetime,
    NoObservation,
    ObservationIssuer,
    UnexpectedObservation,
    Expiry,
    ExecuteWithStateControl,
    NeedsStateControl,
    OtherNode,
    OtherCommand,
    OtherState,
}

impl IssueError {
    pub open spec fn text(self, state_control: bool) -> Seq<char> {
        let subject = if state_control {
            "state-control expectation"@
        } else {
            "lease expectation"@
        };
        match self {
            IssueError::Lifetime => "--lifetime-seconds must be between 1 and 30"@,
            IssueError::NoObservation => "open-session lease requires --state-capacity-observation"@,
            IssueError::ObservationIssuer => "state-capacity observation issuer does not match placement authority"@,
            IssueError::UnexpectedObservation => "only open-session leases may carry a state-capacity observation"@,
            IssueError::Expiry => "placement lease expiry overflow"@,
            IssueError::ExecuteWithStateControl => "Execute requires an execution LeaseExpectationV2, not --state-control"@,
            IssueError::NeedsStateControl => "OpenSession and Recover require --state-control"@,
            IssueError::OtherNode => subject + " and hosted command name different nodes"@,
            IssueError::OtherCommand => subject + " does not bind the exact hosted command digest"@,
            IssueError::OtherState => subject + " does not bind the exact hosted state authority"@,
        }
    }

    /// The message.
    pub fn to_text(self, state_control: bool) -> (out: String)
        ensures
            out@ == self.text(state_control),
    {
        let subject = if state_control {
            "state-control expectation".to_owned()
        } else {
            "lease expectation".to_owned()
        };
        match self {
            IssueError::Lifetime => "--lifetime-seconds must be between 1 and 30".to_owned(),
            IssueError::NoObservation => "open-session lease requires --state-capacity-observation".to_owned(),
            IssueError::ObservationIssuer => "state-capacity observation issuer does not match placement authority".to_owned(),
            IssueError::UnexpectedObservation => "only open-session leases may carry a state-capacity observation".to_owned(),
            IssueError::Expiry => "placement lease expiry overflow".to_owned(),
            IssueError::ExecuteWithStateControl => "Execute requires an execution LeaseExpectationV2, not --state-control".to_owned(),
            IssueError::NeedsStateControl => "OpenSession and Recover require --state-control".to_owned(),
            IssueError::OtherNode => subject.concat(" and hosted command name different nodes"),
            IssueError::OtherCommand => subject.concat(
                " does not bind the exact hosted command digest",
            ),
            IssueError::OtherState => subject.concat(
                " does not bind the exact hosted state authority",
            ),
        }
    }
}

/// The state that a lease for a command has to be bound to, if there may be
/// one.
pub open spec fn required_state(
    command: CommandFacts,
    issuer: Seq<char>,
    observation: Option<(Seq<char>, Seq<char>)>,
) -> Result<StateFacts, IssueError> {
    match command.purpose {
        PlacementPurpose::OpenSession => match observation {
            None => Err(IssueError::NoObservation),
            Some((by, digest)) => if by != issuer {
                Err(IssueError::ObservationIssuer)
            } else {
                Ok(StateFacts::Open { observation: digest, reservation: command.reservation })
            },
        },
        _ => if observation is Some {
            Err(IssueError::UnexpectedObservation)
        } else {
            Ok(
                StateFacts::Existing {
                    session: command.session,
                    actor: match command.actor {
                        Some(life) => Some(life.digest),
                        None => None,
                    },
                },
            )
        },
    }
}

pub open spec fn observed(observation: Option<CapacityObservation>) -> Option<
    (Seq<char>, Seq<char>),
> {
    match observation {
        Some(o) => Some((o.issuer@, o.digest@)),
        None => None,
    }
}

/// Why a lease is not given, if it is not.
pub open spec fn issue_fault(request: IssueRequest) -> Option<IssueError> {
    if request.lifetime_seconds == 0 || request.lifetime_seconds > 30 {
        Some(IssueError::Lifetime)
    } else {
        match required_state(request.command@, request.issuer@, observed(request.observation)) {
            Err(error) => Some(error),
            Ok(state) => if request.now + 1000 * request.lifetime_seconds > u64::MAX {
                Some(IssueError::Expiry)
            } else if request.state_control && request.command.purpose is Execute {
                Some(IssueError::ExecuteWithStateControl)
            } else if !request.state_control && !(request.command.purpose is Execute) {
                Some(IssueError::NeedsStateControl)
            } else if request.expectation.node_id@ != request.command.node_id@ {
                Some(IssueError::OtherNode)
            } else if request.expectation.command_digest@ != request.command_digest@ {
                Some(IssueError::OtherCommand)
            } else if request.expectation.state@ != state {
                Some(IssueError::OtherState)
            } else {
                None
            },
        }
    }
}

/// A lease: what it is bound to, and how long it lasts.
#[derive(Debug)]
pub struct Lease {
    pub state: LeaseStateBinding,
    pub issued_at: u64,
    pub expires_at: u64,
}

fn state_for(request: &IssueRequest) -> (r: Result<LeaseStateBinding, IssueError>)
    ensures
        match r {
            Ok(state) => required_state(
                request.command@,
                request.issuer@,
                observed(request.observation),
            ) == Ok::<StateFacts, IssueError>(state@),
            Err(error) => required_state(
                request.command@,
                request.issuer@,
                observed(request.observation),
            ) == Err::<StateFacts, IssueError>(error),
        },
{
    match request.command.purpose {
        PlacementPurpose::OpenSession => match &request.observation {
            None => Err(IssueError::NoObservation),
            Some(o) => if *o.issuer.as_str() != *request.issuer.as_str() {
                Err(IssueError::ObservationIssuer)
            } else {
                Ok(
                    LeaseStateBinding::Open {
                        observation: o.digest.clone(),
                        reservation: request.command.state_reservation,
                    },
                )
            },
        },
        _ => if request.observation.is_some() {
            Err(IssueError::UnexpectedObservation)
        } else {
            let actor = match &request.command.actor_generation {
                Some(actor) => Some(actor.digest.clone()),
                None => None,
            };
            Ok(LeaseStateBinding::Existing { session: request.command.state_session.clone(), actor })
        },
    }
}

/// Gives a lease for a command, if the expectation is of exactly that command,
/// on that node, with that state.
pub fn authority_issue(request: &IssueRequest) -> (r: Result<Lease, IssueError>)
    ensures
        match r {
            Ok(lease) => issue_fault(*request) is None && required_state(
                request.command@,
                request.issuer@,
                observed(request.observation),
            ) == Ok::<StateFacts, IssueError>(lease.state@) && lease.issued_at == request.now
                && lease.expires_at == request.now + 1000 * request.lifetime_seconds,
            Err(error) => issue_fault(*request) == Some(error),
        },
{
    if request.lifetime_seconds == 0 || request.lifetime_seconds > 30 {
        return Err(IssueError::Lifetime);
    }
    let state = match state_for(request) {
        Ok(state) => state,
        Err(error) => {
            return Err(error);
        },
    };
    let length: u64 = 1000 * request.lifetime_seconds;
    if request.now > u64::MAX - length {
        return Err(IssueError::Expiry);
    }
    let execute = match request.command.purpose {
        PlacementPurpose::Execute => true,
        _ => false,
    };
    if request.state_control && execute {
        return Err(IssueError::ExecuteWithStateControl);
    }
    if !request.state_control && !execute {
        return Err(IssueError::NeedsStateControl);
    }
    if *request.expectation.node_id.as_str() != *request.command.node_id.as_str() {
        return Err(IssueError::OtherNode);
    }
    if *request.expectation.command_digest.as_str() != *request.command_digest.as_str() {
        return Err(IssueError::OtherCommand);
    }
    if !same_state(&request.expectation.state, &state) {
        return Err(IssueError::OtherState);
    }
    Ok(Lease { state, issued_at: request.now, expires_at: request.now + length })
}

/// A lease is given for the command, the node and the state of the expectation
/// alone, and for thirty seconds at most.
pub proof fn leases_are_exact_and_short(request: IssueRequest)
    requires
        issue_fault(request) is None,
    ensures
        request.expectation.node_id@ == request.command.node_id@,
        request.expectation.command_digest@ == request.command_digest@,
        required_state(request.command@, request.issuer@, observed(request.observation)) == Ok::<
            StateFacts,
            IssueError,
        >(request.expectation.state@),
        request.state_control <==> !(request.command.purpose is Execute),
        0 < 1000 * request.lifetime_seconds <= 30_000,
{
}

/// Why a proof is not made.
#[derive(Clone, Copy, Debug, PartialEq, Eq, Structural)]
pub enum MintError {
    Lifetime,
    LeaseLifetime,
    LeaseExpiry,
    ObservationExpiry,
    Deadline,
    DeadlineOverflow,
    NotOurs,
    NotOpen,
    EvidenceIssuer,
    OtherCapability,
    OtherCertificate,
    OtherSessionOrTier,
    OtherSession,
    OtherJournal,
    NotAwaitingRecovery,
    NotRestorable,
    NoActor,
    NoCheckpoint,
    NoCheckpointLength,
    EmptyCheckpoint,
    NotAmbiguous,
    NoReplayClass,
    AmbiguousOperation,
    ReplayWithoutOperation,
    PublicationWithoutOperation,
    NoPublication,
    PublicationNotIdempotent,
    GenerationOverflow,
    NotFenced,
    Sequence,
    StatelessActor,
    NoNextGeneration,
    OtherPlacement,
    OtherRecoveryPlacement,
}

/// Checks how long a proof is to last.
pub fn validate_dev_lifetime(seconds: u64) -> (r: Result<(), MintError>)
    ensures
        r is Ok <==> 1 <= seconds <= 30,
        r is Err ==> r->Err_0 is Lifetime,
{
    if seconds == 0 || seconds > 30 {
        Err(MintError::Lifetime)
    } else {
        Ok(())
    }
}

/// When a proof ends.
pub open spec fn expiry(now: u64, seconds: u64) -> Result<u64, MintError> {
    if 1000 * seconds > u64::MAX {
        Err(MintError::LeaseLifetime)
    } else if now + 1000 * seconds > u64::MAX {
        Err(MintError::LeaseExpiry)
    } else {
        Ok((now + 1000 * seconds) as u64)
    }
}

/// When a proof ends.
pub fn dev_expiry(now: u64, seconds: u64) -> (r: Result<u64, MintError>)
    ensures
        r == expiry(now, seconds),
{
    if seconds > u64::MAX / 1000 {
        return Err(MintError::LeaseLifetime);
    }
    let length: u64 = 1000 * seconds;
    if now > u64::MAX - length {
        return Err(MintError::LeaseExpiry);
    }
    Ok(now + length)
}

/// How long what was seen of a node's capacity counts, in milliseconds.
pub const EVIDENCE_LIFETIME_MS: u64 = 4_000;

/// From when to when what was seen of a node's capacity counts.
pub fn observation_window(now: u64) -> (r: Result<(u64, u64), MintError>)
    ensures
        r == (if now + EVIDENCE_LIFETIME_MS > u64::MAX {
            Err::<(u64, u64), MintError>(MintError::ObservationExpiry)
        } else {
            Ok::<(u64, u64), MintError>(
                (
                    if now == 0 {
                        0
                    } else {
                        (now - 1) as u64
                    },
                    (now + EVIDENCE_LIFETIME_MS) as u64,
                ),
            )
        }),
{
    if now > u64::MAX - EVIDENCE_LIFETIME_MS {
        return Err(MintError::ObservationExpiry);
    }
    Ok(
        (
            if now == 0 {
                0
            } else {
                now - 1
            },
            now + EVIDENCE_LIFETIME_MS,
        ),
    )
}

/// From when to when a proof lasts: it has begun already.
pub fn lease_window(now: u64, seconds: u64) -> (r: Result<(u64, u64), MintError>)
    ensures
        match expiry(now, seconds) {
            Ok(end) => r == Ok::<(u64, u64), MintError>(
                (
                    if now == 0 {
                        0
                    } else {
                        (now - 1) as u64
                    },
                    end,
                ),
            ),
            Err(error) => r == Err::<(u64, u64), MintError>(error),
        },
{
    match dev_expiry(now, seconds) {
        Ok(end) => Ok(
            (
                if now == 0 {
                    0
                } else {
                    now - 1
                },
                end,
            ),
        ),
        Err(error) => Err(error),
    }
}

/// When an operation has to be done.
pub fn operation_deadline(now: u64, seconds: u64) -> (r: Result<u64, MintError>)
    ensures
        match r {
            Ok(at) => 1 <= seconds <= 86_400 && at == now + 1000 * seconds,
            Err(MintError::Deadline) => seconds == 0 || seconds > 86_400,
            Err(MintError::DeadlineOverflow) => 1 <= seconds <= 86_400 && now + 1000 * seconds
                > u64::MAX,
            Err(_) => false,
        },
{
    if seconds == 0 || seconds > 86_400 {
        return Err(MintError::Deadline);
    }
    let length: u64 = 1000 * seconds;
    if now > u64::MAX - length {
        return Err(MintError::DeadlineOverflow);
    }
    Ok(now + length)
}

/// How much is set aside for snapshots: what is asked for, else all that the
/// node takes where there are snapshots, else nothing.
pub fn snapshot_reservation(tier: SessionStateTierArg, asked: Option<u64>, most: u64) -> (n: u64)
    ensures
        n == (match asked {
            Some(n) => n,
            None => if tier is CheckpointRestore {
                most
            } else {
                0
            },
        }),
{
    match asked {
        Some(n) => n,
        None => match tier {
            SessionStateTierArg::CheckpointRestore => most,
            _ => 0,
        },
    }
}

/// A session that is to be opened.
#[derive(Debug)]
pub struct OpenMint {
    pub node_id: String,
    pub principal_sha256: String,
    pub state_session: String,
    pub node_generation: u64,
    pub tier: SessionStateTierArg,
    pub request_id: String,
    pub commitment: String,
    pub quota_generation: u64,
    pub quotas: StateQuotaLimits,
    pub reserve_snapshot_bytes: Option<u64>,
    pub reserve_state_bytes: u64,
}

impl OpenMint {
    /// What the session sets aside.
    pub open spec fn reservation(self) -> StateReservation {
        StateReservation {
            actors: 1,
            snapshot_bytes: match self.reserve_snapshot_bytes {
                Some(n) => n,
                None => if self.tier is CheckpointRestore {
                    self.quotas.max_snapshot_bytes_per_actor
                } else {
                    0
                },
            },
            state_bytes: self.reserve_state_bytes,
        }
    }

    /// The command that opens the session.
    pub open spec fn command(self) -> CommandFacts {
        CommandFacts {
            node_id: self.node_id@,
            principal: self.principal_sha256@,
            session: self.state_session@,
            node_generation: self.node_generation,
            tier: self.tier,
            request_id: self.request_id@,
            sequence: 0,
            purpose: PlacementPurpose::OpenSession,
            operation: None,
            warrant: None,
            commitment: Some(self.commitment@),
            quota_generation: self.quota_generation,
            quotas: self.quotas,
            reservation: self.reservation(),
            actor: None,
        }
    }
}

/// The command that opens a session.
pub fn authority_dev_mint_open(mint: &OpenMint) -> (command: CommandBinding)
    ensures
        command@ == mint.command(),
{
    CommandBinding {
        node_id: mint.node_id.clone(),
        principal_sha256: mint.principal_sha256.clone(),
        state_session: mint.state_session.clone(),
        node_generation: mint.node_generation,
        session_state_tier: mint.tier,
        client_request_id: mint.request_id.clone(),
        client_sequence: 0,
        purpose: PlacementPurpose::OpenSession,
        operation_sha256: None,
        recovery_warrant_sha256: None,
        open_capability_commitment: Some(mint.commitment.clone()),
        state_quota_generation: mint.quota_generation,
        state_quota_limits: mint.quotas,
        state_reservation: StateReservation {
            actors: 1,
            snapshot_bytes: snapshot_reservation(
                mint.tier,
                mint.reserve_snapshot_bytes,
                mint.quotas.max_snapshot_bytes_per_actor,
            ),
            state_bytes: mint.reserve_state_bytes,
        },
        actor_generation: None,
    }
}

/// The lease that opened a session, once its signature was verified.
#[derive(Debug)]
pub struct OpenLease {
    /// The key that it was signed with.
    pub signed_by: String,
    pub state_control: bool,
    pub command: CommandBinding,
    /// Who vouches for the node's profile and its capacity.
    pub profile_issuer: String,
    pub capacity_issuer: String,
    /// Who vouches for each of the warrants.
    pub warrant_issuers: Vec<String>,
}

impl OpenLease {
    /// Whether one authority vouches for everything.
    pub open spec fn vouched_by(self, issuer: Seq<char>) -> bool {
        &&& self.profile_issuer@ == issuer
        &&& self.capacity_issuer@ == issuer
        &&& forall|i: int|
            0 <= i < self.warrant_issuers@.len() ==> (#[trigger] self.warrant_issuers@[i])@
                == issuer
    }

    /// What is wrong with the lease for one who holds a capability and a
    /// certificate, if anything is.
    pub open spec fn fault(
        self,
        key: Seq<char>,
        issuer: Seq<char>,
        capability: Seq<char>,
        certificate: Seq<char>,
    ) -> Option<MintError> {
        if self.signed_by@ != key {
            Some(MintError::NotOurs)
        } else if !(self.command.purpose is OpenSession) || !self.state_control {
            Some(MintError::NotOpen)
        } else if !self.vouched_by(issuer) {
            Some(MintError::EvidenceIssuer)
        } else if self.command.state_session@ != capability {
            Some(MintError::OtherCapability)
        } else if self.command.principal_sha256@ != certificate {
            Some(MintError::OtherCertificate)
        } else {
            None
        }
    }

    fn is_vouched_by(&self, issuer: &str) -> (r: bool)
        ensures
            r == self.vouched_by(issuer@),
    {
        if *self.profile_issuer.as_str() != *issuer || *self.capacity_issuer.as_str() != *issuer {
            return false;
        }
        let mut i: usize = 0;
        while i < self.warrant_issuers.len()
            invariant
                i <= self.warrant_issuers@.len(),
                forall|j: int|
                    0 <= j < i ==> (#[trigger] self.warrant_issuers@[j])@ == issuer@,
            decreases self.warrant_issuers@.len() - i,
        {
            if *self.warrant_issuers[i].as_str() != *issuer {
                return false;
            }
            i += 1;
        }
        true
    }

    /// Checks a lease that opened a session: it is this authority's own, and
    /// the session is the capability's and the certificate's.
    pub fn check(&self, key: &str, issuer: &str, capability: &str, certificate: &str) -> (r: Result<
        (),
        MintError,
    >)
        ensures
            match r {
                Ok(_) => self.fault(key@, issuer@, capability@, certificate@) is None,
                Err(error) => self.fault(key@, issuer@, capability@, certificate@) == Some(error),
            },
    {
        if *self.signed_by.as_str() != *key {
            return Err(MintError::NotOurs);
        }
        match self.command.purpose {
            PlacementPurpose::OpenSession => {},
            _ => {
                return Err(MintError::NotOpen);
            },
        }
        if !self.state_control {
            return Err(MintError::NotOpen);
        }
        if !self.is_vouched_by(issuer) {
            return Err(MintError::EvidenceIssuer);
        }
        if *self.command.state_session.as_str() != *capability {
            return Err(MintError::OtherCapability);
        }
        if *self.command.principal_sha256.as_str() != *certificate {
            return Err(MintError::OtherCertificate);
        }
        Ok(())
    }
}

} // verus!
