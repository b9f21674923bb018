//! The commands that follow the opening of a session: executing an operation,
//! and recovering after a loss.

use vstd::prelude::*;

use crate::authority::{
    life_of, ActorGeneration, ActorLife, CommandBinding, CommandFacts, MintError, PlacementPurpose,
    SessionStateTierArg,
};
use crate::text::{decimal, push_decimal, shown_as};

verus! {

/// How an operation stands.
#[derive(Clone, Copy, Debug, PartialEq, Eq, Structural)]
pub enum OperationStatus {
    Accepted,
    Running,
    Succeeded,
    Failed,
    NotStarted,
    Ambiguous,
}

/// An operation of a session.
#[derive(Debug)]
pub struct LiveOperation {
    pub operation_id: String,
    pub operation_sha256: String,
    pub status: OperationStatus,
}

/// What a node says of a session.
#[derive(Debug)]
pub struct LiveSession {
    pub session_id: String,
    pub node_id: String,
    pub principal_sha256: String,
    pub state_tier: SessionStateTierArg,
    /// The session waits for its recovery.
    pub recovery_required: bool,
    pub next_client_sequence: u64,
    pub journal_head_sha256: String,
    pub actor_generation: Option<ActorGeneration>,
    pub actor_id: Option<String>,
    pub next_actor_generation: u64,
    pub checkpoint_sha256: Option<String>,
    pub checkpoint_bytes: Option<u64>,
    /// The operations, each under its own name.
    pub operations: Vec<LiveOperation>,
}

/// Whether a session has an ambiguous operation of a name.
pub open spec fn ambiguous_under(operations: Seq<LiveOperation>, name: Seq<char>, i: int) -> bool {
    0 <= i < operations.len() && operations[i].operation_id@ == name
        && operations[i].status is Ambiguous
}

/// Whether a session has an ambiguous operation.
pub open spec fn some_ambiguous(operations: Seq<LiveOperation>) -> bool {
    exists|i: int| 0 <= i < operations.len() && (#[trigger] operations[i]).status is Ambiguous
}

/// The place of an operation of a name, if there is one.
pub open spec fn place_of(operations: Seq<LiveOperation>, name: Seq<char>) -> Option<int>
    decreases operations.len(),
{
    if operations.len() == 0 {
        None
    } else if operations.last().operation_id@ == name {
        Some(operations.len() - 1)
    } else {
        place_of(operations.drop_last(), name)
    }
}

/// The number that a command has to carry: the node's next one.
pub open spec fn sequence_for(asked: Option<u64>, next: u64) -> Option<u64> {
    match asked {
        None => Some(next),
        Some(n) => if n == next {
            Some(n)
        } else {
            None
        },
    }
}

fn exact_sequence(asked: Option<u64>, next: u64) -> (r: Result<u64, MintError>)
    ensures
        match r {
            Ok(n) => sequence_for(asked, next) == Some(n),
            Err(error) => error is Sequence && sequence_for(asked, next) is None,
        },
{
    match asked {
        None => Ok(next),
        Some(n) => if n == next {
            Ok(n)
        } else {
            Err(MintError::Sequence)
        },
    }
}

/// What is wrong with a session for an execution under a lease, if anything is.
pub open spec fn execution_fault(
    open: CommandFacts,
    live: LiveSession,
    capability: Seq<char>,
    sequence: Option<u64>,
) -> Option<MintError> {
    if live.session_id@ != capability || live.state_tier != open.tier {
        Some(MintError::OtherSessionOrTier)
    } else if sequence_for(sequence, live.next_client_sequence) is None {
        Some(MintError::Sequence)
    } else if live.state_tier is Stateless {
        if live.actor_generation is Some {
            Some(MintError::StatelessActor)
        } else {
            None
        }
    } else if live.actor_generation is None && live.next_actor_generation == 0 {
        Some(MintError::NoNextGeneration)
    } else {
        None
    }
}

/// What an execution goes by.
#[derive(Debug)]
pub struct ExecutionPlan {
    pub sequence: u64,
    pub actor: Option<ActorGeneration>,
    /// The execution makes the environment that later ones find.
    pub establishing: bool,
}

fn copy_actor(actor: &Option<ActorGeneration>) -> (out: Option<ActorGeneration>)
    ensures
        life_of(out) == life_of(*actor),
{
    match actor {
        Some(actor) => Some(actor.copy()),
        None => None,
    }
}

/// What an execution goes by: the node's next number, and the actor that is
/// there.
pub fn plan_execution(
    open: &CommandBinding,
    live: &LiveSession,
    capability: &str,
    sequence: Option<u64>,
) -> (r: Result<ExecutionPlan, MintError>)
    ensures
        match r {
            Ok(plan) => {
                &&& execution_fault(open@, *live, capability@, sequence) is None
                &&& plan.sequence == live.next_client_sequence
                &&& life_of(plan.actor) == life_of(live.actor_generation)
                &&& plan.establishing == (!(live.state_tier is Stateless)
                    && live.actor_generation is None)
            },
            Err(error) => execution_fault(open@, *live, capability@, sequence) == Some(error),
        },
{
    if *live.session_id.as_str() != *capability || live.state_tier != open.session_state_tier {
        return Err(MintError::OtherSessionOrTier);
    }
    let n: u64 = match exact_sequence(sequence, live.next_client_sequence) {
        Ok(n) => n,
        Err(error) => {
            return Err(error);
        },
    };
    let stateless = match live.state_tier {
        SessionStateTierArg::Stateless => true,
        _ => false,
    };
    if stateless {
        if live.actor_generation.is_some() {
            return Err(MintError::StatelessActor);
        }
        return Ok(ExecutionPlan { sequence: n, actor: None, establishing: false });
    }
    if live.actor_generation.is_none() && live.next_actor_generation == 0 {
        return Err(MintError::NoNextGeneration);
    }
    Ok(
        ExecutionPlan {
            sequence: n,
            actor: copy_actor(&live.actor_generation),
            establishing: live.actor_generation.is_none(),
        },
    )
}

/// The command that executes an operation in a session.
pub open spec fn execute_facts(
    open: CommandFacts,
    request_id: Seq<char>,
    sequence: u64,
    operation: Seq<char>,
    actor: Option<ActorLife>,
) -> CommandFacts {
    CommandFacts {
        request_id,
        sequence,
        purpose: PlacementPurpose::Execute,
        operation: Some(operation),
        warrant: None,
        commitment: None,
        actor,
        ..open
    }
}

/// The command that executes an operation in a session. It keeps all that the
/// opening of the session fixed.
pub fn authority_dev_mint_execute(
    open: &CommandBinding,
    request_id: &str,
    operation_sha256: &str,
    plan: &ExecutionPlan,
) -> (command: CommandBinding)
    ensures
        command@ == execute_facts(
            open@,
            request_id@,
            plan.sequence,
            operation_sha256@,
            life_of(plan.actor),
        ),
{
    CommandBinding {
        node_id: open.node_id.clone(),
        principal_sha256: open.principal_sha256.clone(),
        state_session: open.state_session.clone(),
        node_generation: open.node_generation,
        session_state_tier: open.session_state_tier,
        client_request_id: request_id.to_owned(),
        client_sequence: plan.sequence,
        purpose: PlacementPurpose::Execute,
        operation_sha256: Some(operation_sha256.to_owned()),
        recovery_warrant_sha256: None,
        open_capability_commitment: None,
        state_quota_generation: open.state_quota_generation,
        state_quota_limits: open.state_quota_limits,
        state_reservation: open.state_reservation,
        actor_generation: copy_actor(&plan.actor),
    }
}

/// How an operation may be run again.
#[derive(Clone, Copy, Debug, PartialEq, Eq, Structural)]
pub enum ReplayClass {
    Pure,
    Idempotent,
}

/// What a session is recovered from.
#[derive(Debug)]
pub enum RecoveryTrigger {
    /// It is not known whether an operation took place.
    AmbiguousOperation {
        operation_id: String,
        operation_sha256: String,
        replay_class: ReplayClass,
        stable_publication_id: Option<String>,
    },
    /// The actor is gone.
    ActorLost {
        previous: ActorGeneration,
        checkpoint_sha256: String,
        checkpoint_bytes: u64,
        journal_head_sha256: String,
    },
}

/// What a session is recovered from, as a mathematical value.
pub ghost enum Loss {
    AmbiguousOperation {
        operation_id: Seq<char>,
        operation_sha256: Seq<char>,
        replay_class: ReplayClass,
        publication: Option<Seq<char>>,
    },
    ActorLost {
        previous: ActorLife,
        checkpoint_sha256: Seq<char>,
        checkpoint_bytes: u64,
        journal_head_sha256: Seq<char>,
    },
}

impl View for RecoveryTrigger {
    type V = Loss;

    open spec fn view(&self) -> Loss {
        match self {
            RecoveryTrigger::AmbiguousOperation {
                operation_id,
                operation_sha256,
                replay_class,
                stable_publication_id,
            } => Loss::AmbiguousOperation {
                operation_id: operation_id@,
                operation_sha256: operation_sha256@,
                replay_class: *replay_class,
                publication: shown_as(*stable_publication_id),
            },
            RecoveryTrigger::ActorLost {
                previous,
                checkpoint_sha256,
                checkpoint_bytes,
                journal_head_sha256,
            } => Loss::ActorLost {
                previous: previous@,
                checkpoint_sha256: checkpoint_sha256@,
                checkpoint_bytes: *checkpoint_bytes,
                journal_head_sha256: journal_head_sha256@,
            },
        }
    }
}

/// A recovery that is asked for.
#[derive(Debug)]
pub struct RecoveryRequest {
    pub operation_id: Option<String>,
    pub replay_class: Option<ReplayClass>,
    pub stable_publication_id: Option<String>,
    pub sequence: Option<u64>,
    /// The session and the digest of the entry at the head of its journal, as
    /// the node signed them.
    pub head_session: String,
    pub head_sha256: String,
}

/// What is wrong with the identity and the state of a session for a recovery, if
/// anything is.
pub open spec fn recoverable_fault(
    open: CommandFacts,
    live: LiveSession,
    capability: Seq<char>,
    request: RecoveryRequest,
) -> Option<MintError> {
    if live.session_id@ != capability || live.node_id@ != open.node_id || live.principal_sha256@
        != open.principal || live.state_tier != open.tier {
        Some(MintError::OtherSession)
    } else if request.head_session@ != live.session_id@ || request.head_sha256@
        != live.journal_head_sha256@ {
        Some(MintError::OtherJournal)
    } else if !live.recovery_required {
        Some(MintError::NotAwaitingRecovery)
    } else if !(live.state_tier is CheckpointRestore) {
        Some(MintError::NotRestorable)
    } else if live.actor_generation is None {
        Some(MintError::NoActor)
    } else if live.checkpoint_sha256 is None {
        Some(MintError::NoCheckpoint)
    } else if live.checkpoint_bytes is None {
        Some(MintError::NoCheckpointLength)
    } else if live.checkpoint_bytes == Some(0u64) {
        Some(MintError::EmptyCheckpoint)
    } else {
        None
    }
}

/// What a session is recovered from, if it can be told.
pub open spec fn loss_of(live: LiveSession, request: RecoveryRequest) -> Result<Loss, MintError> {
    match request.operation_id {
        Some(name) => match place_of(live.operations@, name@) {
            None => Err(MintError::NotAmbiguous),
            Some(i) => if !(live.operations@[i].status is Ambiguous) {
                Err(MintError::NotAmbiguous)
            } else {
                match request.replay_class {
                    None => Err(MintError::NoReplayClass),
                    Some(class) => Ok(
                        Loss::AmbiguousOperation {
                            operation_id: live.operations@[i].operation_id@,
                            operation_sha256: live.operations@[i].operation_sha256@,
                            replay_class: class,
                            publication: shown_as(request.stable_publication_id),
                        },
                    ),
                }
            },
        },
        None => if some_ambiguous(live.operations@) {
            Err(MintError::AmbiguousOperation)
        } else if request.replay_class is Some {
            Err(MintError::ReplayWithoutOperation)
        } else if request.stable_publication_id is Some {
            Err(MintError::PublicationWithoutOperation)
        } else if live.actor_generation->Some_0.generation == u64::MAX {
            Err(MintError::GenerationOverflow)
        } else if live.next_actor_generation != live.actor_generation->Some_0.generation + 1
            || live.actor_id is Some {
            Err(MintError::NotFenced)
        } else {
            Ok(
                Loss::ActorLost {
                    previous: live.actor_generation->Some_0@,
                    checkpoint_sha256: live.checkpoint_sha256->Some_0@,
                    checkpoint_bytes: live.checkpoint_bytes->Some_0,
                    journal_head_sha256: live.journal_head_sha256@,
                },
            )
        },
    }
}

/// What is wrong with a recovery, if anything is.
pub open spec fn recovery_fault(
    open: CommandFacts,
    live: LiveSession,
    capability: Seq<char>,
    request: RecoveryRequest,
) -> Option<MintError> {
    match recoverable_fault(open, live, capability, request) {
        Some(error) => Some(error),
        None => match loss_of(live, request) {
            Err(error) => Some(error),
            Ok(loss) => if sequence_for(request.sequence, live.next_client_sequence) is None {
                Some(MintError::Sequence)
            } else {
                loss.fault()
            },
        },
    }
}

impl Loss {
    /// What is wrong with recovering from it, if anything is: an operation that
    /// may be run again because it is idempotent names what it publishes, and
    /// no other does.
    pub open spec fn fault(self) -> Option<MintError> {
        match self {
            Loss::AmbiguousOperation { replay_class, publication, .. } => if replay_class
                is Idempotent && publication is None {
                Some(MintError::NoPublication)
            } else if replay_class is Pure && publication is Some {
                Some(MintError::PublicationNotIdempotent)
            } else {
                None
            },
            Loss::ActorLost { .. } => None,
        }
    }
}

impl RecoveryTrigger {
    fn check(&self) -> (r: Option<MintError>)
        ensures
            r == self@.fault(),
    {
        match self {
            RecoveryTrigger::AmbiguousOperation { replay_class, stable_publication_id, .. } => {
                match (replay_class, stable_publication_id) {
                    (ReplayClass::Idempotent, None) => Some(MintError::NoPublication),
                    (ReplayClass::Pure, Some(_)) => Some(MintError::PublicationNotIdempotent),
                    _ => None,
                }
            },
            RecoveryTrigger::ActorLost { .. } => None,
        }
    }
}

/// What a recovery goes by.
#[derive(Debug)]
pub struct RecoveryPlan {
    pub trigger: RecoveryTrigger,
    pub sequence: u64,
    pub actor: ActorGeneration,
    /// What the recovery is evidenced by: the head of the journal.
    pub evidence_sha256: String,
}

fn has_ambiguous(operations: &Vec<LiveOperation>) -> (r: bool)
    ensures
        r == some_ambiguous(operations@),
{
    let mut i: usize = 0;
    while i < operations.len()
        invariant
            i <= operations@.len(),
            forall|j: int| 0 <= j < i ==> !((#[trigger] operations@[j]).status is Ambiguous),
        decreases operations@.len() - i,
    {
        match operations[i].status {
            OperationStatus::Ambiguous => {
                return true;
            },
            _ => {},
        }
        i += 1;
    }
    false
}

fn find_operation(operations: &Vec<LiveOperation>, name: &str) -> (r: Option<usize>)
    ensures
        match r {
            Some(i) => place_of(operations@, name@) == Some(i as int) && i < operations@.len(),
            None => place_of(operations@, name@) is None,
        },
{
    let mut i: usize = operations.len();
    assert(operations@.take(i as int) =~= operations@);
    while i > 0
        invariant
            i <= operations@.len(),
            place_of(operations@, name@) == place_of(operations@.take(i as int), name@),
        decreases i,
    {
        assert(operations@.take(i as int).drop_last() =~= operations@.take(i - 1));
        assert(operations@.take(i as int).last() == operations@[i - 1]);
        i -= 1;
        if *operations[i].operation_id.as_str() == *name {
            return Some(i);
        }
    }
    assert(operations@.take(0).len() == 0);
    None
}

fn check_recoverable(
    open: &CommandBinding,
    live: &LiveSession,
    capability: &str,
    request: &RecoveryRequest,
) -> (r: Option<MintError>)
    ensures
        r == recoverable_fault(open@, *live, capability@, *request),
{
    if *live.session_id.as_str() != *capability || *live.node_id.as_str() != *open.node_id.as_str()
        || *live.principal_sha256.as_str() != *open.principal_sha256.as_str() || live.state_tier
        != open.session_state_tier {
        return Some(MintError::OtherSession);
    }
    if *request.head_session.as_str() != *live.session_id.as_str() || *request.head_sha256.as_str()
        != *live.journal_head_sha256.as_str() {
        return Some(MintError::OtherJournal);
    }
    if !live.recovery_required {
        return Some(MintError::NotAwaitingRecovery);
    }
    match live.state_tier {
        SessionStateTierArg::CheckpointRestore => {},
        _ => {
            return Some(MintError::NotRestorable);
        },
    }
    if live.actor_generation.is_none() {
        return Some(MintError::NoActor);
    }
    if live.checkpoint_sha256.is_none() {
        return Some(MintError::NoCheckpoint);
    }
    match live.checkpoint_bytes {
        None => Some(MintError::NoCheckpointLength),
        Some(n) => if n == 0 {
            Some(MintError::EmptyCheckpoint)
        } else {
            None
        },
    }
}

fn copy_text(text: &Option<String>) -> (out: Option<String>)
    ensures
        shown_as(out) == shown_as(*text),
{
    crate::text::copied(text)
}

fn find_loss(live: &LiveSession, request: &RecoveryRequest) -> (r: Result<
    RecoveryTrigger,
    MintError,
>)
    requires
        live.actor_generation is Some,
        live.checkpoint_sha256 is Some,
        live.checkpoint_bytes is Some,
    ensures
        match r {
            Ok(trigger) => loss_of(*live, *request) == Ok::<Loss, MintError>(trigger@),
            Err(error) => loss_of(*live, *request) == Err::<Loss, MintError>(error),
        },
{
    match &request.operation_id {
        Some(name) => match find_operation(&live.operations, name.as_str()) {
            None => Err(MintError::NotAmbiguous),
            Some(i) => {
                let operation = &live.operations[i];
                match operation.status {
                    OperationStatus::Ambiguous => {},
                    _ => {
                        return Err(MintError::NotAmbiguous);
                    },
                }
                match request.replay_class {
                    None => Err(MintError::NoReplayClass),
                    Some(class) => Ok(
                        RecoveryTrigger::AmbiguousOperation {
                            operation_id: operation.operation_id.clone(),
                            operation_sha256: operation.operation_sha256.clone(),
                            replay_class: class,
                            stable_publication_id: copy_text(&request.stable_publication_id),
                        },
                    ),
                }
            },
        },
        None => {
            if has_ambiguous(&live.operations) {
                return Err(MintError::AmbiguousOperation);
            }
            if request.replay_class.is_some() {
                return Err(MintError::ReplayWithoutOperation);
            }
            if request.stable_publication_id.is_some() {
                return Err(MintError::PublicationWithoutOperation);
            }
            match (&live.actor_generation, &live.checkpoint_sha256, live.checkpoint_bytes) {
                (Some(actor), Some(checkpoint), Some(bytes)) => {
                    if actor.generation == u64::MAX {
                        return Err(MintError::GenerationOverflow);
                    }
                    if live.next_actor_generation != actor.generation + 1 || live.actor_id.is_some() {
                        return Err(MintError::NotFenced);
                    }
                    Ok(
                        RecoveryTrigger::ActorLost {
                            previous: actor.copy(),
                            checkpoint_sha256: checkpoint.clone(),
                            checkpoint_bytes: bytes,
                            journal_head_sha256: live.journal_head_sha256.clone(),
                        },
                    )
                },
                _ => Err(MintError::NoActor),
            }
        },
    }
}

/// What a recovery goes by.
pub fn plan_recovery(
    open: &CommandBinding,
    live: &LiveSession,
    capability: &str,
    request: &RecoveryRequest,
) -> (r: Result<RecoveryPlan, MintError>)
    ensures
        match r {
            Ok(plan) => {
                &&& recovery_fault(open@, *live, capability@, *request) is None
                &&& loss_of(*live, *request) == Ok::<Loss, MintError>(plan.trigger@)
                &&& plan.sequence == live.next_client_sequence
                &&& Some(plan.actor@) == life_of(live.actor_generation)
                &&& plan.evidence_sha256@ == live.journal_head_sha256@
            },
            Err(error) => recovery_fault(open@, *live, capability@, *request) == Some(error),
        },
{
    match check_recoverable(open, live, capability, request) {
        Some(error) => {
            return Err(error);
        },
        None => {},
    }
    let trigger = match find_loss(live, request) {
        Ok(trigger) => trigger,
        Err(error) => {
            return Err(error);
        },
    };
    let sequence: u64 = match exact_sequence(request.sequence, live.next_client_sequence) {
        Ok(n) => n,
        Err(error) => {
            return Err(error);
        },
    };
    match trigger.check() {
        Some(error) => {
            return Err(error);
        },
        None => {},
    }
    match &live.actor_generation {
        Some(actor) => Ok(
            RecoveryPlan {
                trigger,
                sequence,
                actor: actor.copy(),
                evidence_sha256: live.journal_head_sha256.clone(),
            },
        ),
        None => Err(MintError::NoActor),
    }
}

/// The command that recovers a session.
pub open spec fn recover_facts(
    open: CommandFacts,
    request_id: Seq<char>,
    sequence: u64,
    warrant: Seq<char>,
    actor: ActorLife,
) -> CommandFacts {
    CommandFacts {
        request_id,
        sequence,
        purpose: PlacementPurpose::Recover,
        operation: None,
        warrant: Some(warrant),
        commitment: None,
        actor: Some(actor),
        ..open
    }
}

/// The command that recovers a session. It keeps all that the opening of the
/// session fixed.
pub fn authority_dev_mint_recover(
    open: &CommandBinding,
    request_id: &str,
    warrant_sha256: &str,
    plan: &RecoveryPlan,
) -> (command: CommandBinding)
    ensures
        command@ == recover_facts(
            open@,
            request_id@,
            plan.sequence,
            warrant_sha256@,
            plan.actor@,
        ),
{
    CommandBinding {
        node_id: open.node_id.clone(),
        principal_sha256: open.principal_sha256.clone(),
        state_session: open.state_session.clone(),
        node_generation: open.node_generation,
        session_state_tier: open.session_state_tier,
        client_request_id: request_id.to_owned(),
        client_sequence: plan.sequence,
        purpose: PlacementPurpose::Recover,
        operation_sha256: None,
        recovery_warrant_sha256: Some(warrant_sha256.to_owned()),
        open_capability_commitment: None,
        state_quota_generation: open.state_quota_generation,
        state_quota_limits: open.state_quota_limits,
        state_reservation: open.state_reservation,
        actor_generation: Some(plan.actor.copy()),
    }
}

/// Every later command of a session is to the node, of the principal, in the
/// session, with the tier, the quotas and the reservation that its opening
/// fixed.
pub proof fn later_commands_keep_the_session(
    open: CommandFacts,
    request_id: Seq<char>,
    sequence: u64,
    digest: Seq<char>,
    actor: ActorLife,
    present: Option<ActorLife>,
)
    ensures
        ({
            let e = execute_facts(open, request_id, sequence, digest, present);
            let r = recover_facts(open, request_id, sequence, digest, actor);
            &&& e.node_id == open.node_id && r.node_id == open.node_id
            &&& e.principal == open.principal && r.principal == open.principal
            &&& e.session == open.session && r.session == open.session
            &&& e.tier == open.tier && r.tier == open.tier
            &&& e.quotas == open.quotas && r.quotas == open.quotas
            &&& e.quota_generation == open.quota_generation && r.quota_generation
                == open.quota_generation
            &&& e.reservation == open.reservation && r.reservation == open.reservation
            &&& e.commitment is None && r.commitment is None
        }),
{
}

/// A lost actor is recovered only at the generation right after its own, where
/// no other actor took its place and no operation is ambiguous.
pub proof fn lost_actors_are_fenced(
    open: CommandFacts,
    live: LiveSession,
    capability: Seq<char>,
    request: RecoveryRequest,
)
    requires
        recovery_fault(open, live, capability, request) is None,
        request.operation_id is None,
    ensures
        live.actor_generation is Some,
        live.next_actor_generation == live.actor_generation->Some_0.generation + 1,
        live.actor_id is None,
        !some_ambiguous(live.operations@),
        live.checkpoint_bytes is Some && live.checkpoint_bytes->Some_0 > 0,
{
}

pub proof fn lemma_place_of(operations: Seq<LiveOperation>, name: Seq<char>)
    ensures
        place_of(operations, name) matches Some(i) ==> 0 <= i < operations.len()
            && operations[i].operation_id@ == name,
    decreases operations.len(),
{
    if operations.len() > 0 && operations.last().operation_id@ != name {
        lemma_place_of(operations.drop_last(), name);
    }
}

/// An operation is run again only where it is ambiguous and was named together
/// with how it may be run again.
pub proof fn only_ambiguous_operations_are_replayed(
    open: CommandFacts,
    live: LiveSession,
    capability: Seq<char>,
    request: RecoveryRequest,
)
    requires
        recovery_fault(open, live, capability, request) is None,
        request.operation_id is Some,
    ensures
        request.replay_class is Some,
        exists|i: int| ambiguous_under(live.operations@, request.operation_id->Some_0@, i),
{
    lemma_place_of(live.operations@, request.operation_id->Some_0@);
    let i = place_of(live.operations@, request.operation_id->Some_0@)->Some_0;
    assert(ambiguous_under(live.operations@, request.operation_id->Some_0@, i));
}

/// An operation that is run again names what it publishes exactly where it may be
/// run again because it is idempotent.
pub proof fn idempotent_replays_name_their_publication(
    open: CommandFacts,
    live: LiveSession,
    capability: Seq<char>,
    request: RecoveryRequest,
)
    requires
        recovery_fault(open, live, capability, request) is None,
    ensures
        loss_of(live, request) matches Ok(loss) && (loss matches Loss::AmbiguousOperation {
            replay_class,
            publication,
            ..
        } ==> (publication is Some <==> replay_class is Idempotent)),
        request.operation_id is None ==> request.stable_publication_id is None,
{
}

impl MintError {
    /// The message; the numbers are the node's next one and the one asked for.
    pub open spec fn text(self, operation: Seq<char>, next: u64, asked: u64) -> Seq<char> {
        match self {
            MintError::Lifetime => "--lifetime-seconds must be between 1 and 30"@,
            MintError::LeaseLifetime => "co-located self-attested development authority lease lifetime overflow"@,
            MintError::LeaseExpiry => "co-located self-attested development authority lease expiry overflow"@,
            MintError::ObservationExpiry => "state observation expiry overflow"@,
            MintError::Deadline => "--deadline-seconds must be between 1 and 86400"@,
            MintError::DeadlineOverflow => "co-located self-attested development authority Execute deadline overflow"@,
            MintError::NotOurs => "open-session envelope was not signed by this co-located self-attested development authority"@,
            MintError::NotOpen => "--open-lease is not an OpenSession state-control envelope"@,
            MintError::EvidenceIssuer => "open-session proof records do not name this co-located self-attested development authority"@,
            MintError::OtherCapability => "session capability does not belong to --open-lease"@,
            MintError::OtherCertificate => "configured client certificate differs from the opened session principal"@,
            MintError::OtherSessionOrTier => "live session identity or state tier differs from --open-lease"@,
            MintError::OtherSession => "live session identity, principal, or state tier differs from --open-lease"@,
            MintError::OtherJournal => "status projection does not correlate to its signed journal-head receipt"@,
            MintError::NotAwaitingRecovery => "session is not awaiting recovery"@,
            MintError::NotRestorable => "co-located self-attested development authority recovery is supported only for checkpoint-restore sessions"@,
            MintError::NoActor => "recovery-required session has no established actor generation"@,
            MintError::NoCheckpoint => "recovery-required checkpoint session has no durable checkpoint digest"@,
            MintError::NoCheckpointLength => "recovery-required checkpoint session has no durable checkpoint length"@,
            MintError::EmptyCheckpoint => "recovery-required checkpoint session reports an empty durable checkpoint"@,
            MintError::NotAmbiguous => "operation `"@ + operation
                + "` is not ambiguous in the current session"@,
            MintError::NoReplayClass => "--replay-class is required with --operation-id"@,
            MintError::AmbiguousOperation => "session has an ambiguous operation; select it explicitly with --operation-id"@,
            MintError::ReplayWithoutOperation => "--replay-class is valid only with --operation-id"@,
            MintError::PublicationWithoutOperation => "--stable-publication-id is valid only with --operation-id"@,
            MintError::NoPublication => "--stable-publication-id is required for idempotent recovery"@,
            MintError::PublicationNotIdempotent => "--stable-publication-id is valid only for idempotent recovery"@,
            MintError::GenerationOverflow => "actor generation overflow while minting recovery"@,
            MintError::NotFenced => "live actor-loss coordinates are not fenced at the exact successor generation"@,
            MintError::Sequence => "co-located self-attested development authority mint requires the node's exact next sequence "@
                + decimal(next as nat) + "; got "@ + decimal(asked as nat),
            MintError::StatelessActor => "stateless session unexpectedly reports a physical actor generation"@,
            MintError::NoNextGeneration => "stateful session reports an invalid next actor generation"@,
            MintError::OtherPlacement => "prepared execution would switch the placement identity fixed by OpenSession"@,
            MintError::OtherRecoveryPlacement => "prepared recovery would switch the placement identity fixed by OpenSession"@,
        }
    }

    /// The message; the numbers are the node's next one and the one asked for.
    pub fn to_text(self, operation: &str, next: u64, asked: u64) -> (out: String)
        ensures
            out@ == self.text(operation@, next, asked),
    {
        match self {
            MintError::Lifetime => "--lifetime-seconds must be between 1 and 30".to_owned(),
            MintError::LeaseLifetime => "co-located self-attested development authority lease lifetime overflow".to_owned(),
            MintError::LeaseExpiry => "co-located self-attested development authority lease expiry overflow".to_owned(),
            MintError::ObservationExpiry => "state observation expiry overflow".to_owned(),
            MintError::Deadline => "--deadline-seconds must be between 1 and 86400".to_owned(),
            MintError::DeadlineOverflow => "co-located self-attested development authority Execute deadline overflow".to_owned(),
            MintError::NotOurs => "open-session envelope was not signed by this co-located self-attested development authority".to_owned(),
            MintError::NotOpen => "--open-lease is not an OpenSession state-control envelope".to_owned(),
            MintError::EvidenceIssuer => "open-session proof records do not name this co-located self-attested development authority".to_owned(),
            MintError::OtherCapability => "session capability does not belong to --open-lease".to_owned(),
            MintError::OtherCertificate => "configured client certificate differs from the opened session principal".to_owned(),
            MintError::OtherSessionOrTier => "live session identity or state tier differs from --open-lease".to_owned(),
            MintError::OtherSession => "live session identity, principal, or state tier differs from --open-lease".to_owned(),
            MintError::OtherJournal => "status projection does not correlate to its signed journal-head receipt".to_owned(),
            MintError::NotAwaitingRecovery => "session is not awaiting recovery".to_owned(),
            MintError::NotRestorable => "co-located self-attested development authority recovery is supported only for checkpoint-restore sessions".to_owned(),
            MintError::NoActor => "recovery-required session has no established actor generation".to_owned(),
            MintError::NoCheckpoint => "recovery-required checkpoint session has no durable checkpoint digest".to_owned(),
            MintError::NoCheckpointLength => "recovery-required checkpoint session has no durable checkpoint length".to_owned(),
            MintError::EmptyCheckpoint => "recovery-required checkpoint session reports an empty durable checkpoint".to_owned(),
            MintError::NotAmbiguous => {
                let mut out = "operation `".to_owned();
                out.append(operation);
                out.append("` is not ambiguous in the current session");
                out
            },
            MintError::NoReplayClass => "--replay-class is required with --operation-id".to_owned(),
            MintError::AmbiguousOperation => "session has an ambiguous operation; select it explicitly with --operation-id".to_owned(),
            MintError::ReplayWithoutOperation => "--replay-class is valid only with --operation-id".to_owned(),
            MintError::PublicationWithoutOperation => "--stable-publication-id is valid only with --operation-id".to_owned(),
            MintError::NoPublication => "--stable-publication-id is required for idempotent recovery".to_owned(),
            MintError::PublicationNotIdempotent => "--stable-publication-id is valid only for idempotent recovery".to_owned(),
            MintError::GenerationOverflow => "actor generation overflow while minting recovery".to_owned(),
            MintError::NotFenced => "live actor-loss coordinates are not fenced at the exact successor generation".to_owned(),
            MintError::Sequence => {
                let mut out = "co-located self-attested development authority mint requires the node's exact next sequence ".to_owned();
                push_decimal(&mut out, next);
                out.append("; got ");
                push_decimal(&mut out, asked);
                out
            },
            MintError::StatelessActor => "stateless session unexpectedly reports a physical actor generation".to_owned(),
            MintError::NoNextGeneration => "stateful session reports an invalid next actor generation".to_owned(),
            MintError::OtherPlacement => "prepared execution would switch the placement identity fixed by OpenSession".to_owned(),
            MintError::OtherRecoveryPlacement => "prepared recovery would switch the placement identity fixed by OpenSession".to_owned(),
        }
    }
}

/// Where and how something is placed, by digests.
#[derive(Debug)]
pub struct PlacementIdentity {
    pub target_descriptor: String,
    pub requirement_footprint: String,
    pub backend_implementation: String,
    pub realization_pipeline: String,
    pub trust_policy: String,
    pub cpu_slots: u32,
    pub memory_bytes: u64,
    pub scratch_bytes: u64,
}

/// Where and how something is placed, as a mathematical value.
pub ghost struct PlacementFacts {
    pub target: Seq<char>,
    pub footprint: Seq<char>,
    pub implementation: Seq<char>,
    pub pipeline: Seq<char>,
    pub policy: Seq<char>,
    pub cpu_slots: u32,
    pub memory_bytes: u64,
    pub scratch_bytes: u64,
}

impl View for PlacementIdentity {
    type V = PlacementFacts;

    open spec fn view(&self) -> PlacementFacts {
        PlacementFacts {
            target: self.target_descriptor@,
            footprint: self.requirement_footprint@,
            implementation: self.backend_implementation@,
            pipeline: self.realization_pipeline@,
            policy: self.trust_policy@,
            cpu_slots: self.cpu_slots,
            memory_bytes: self.memory_bytes,
            scratch_bytes: self.scratch_bytes,
        }
    }
}

/// Checks that a command is placed where the opening of its session was.
pub fn check_placement(
    prepared: &PlacementIdentity,
    open: &PlacementIdentity,
    recovery: bool,
) -> (r: Result<(), MintError>)
    ensures
        r is Ok <==> prepared@ == open@,
        r is Err ==> r->Err_0 == (if recovery {
            MintError::OtherRecoveryPlacement
        } else {
            MintError::OtherPlacement
        }),
{
    if *prepared.target_descriptor.as_str() == *open.target_descriptor.as_str()
        && *prepared.requirement_footprint.as_str() == *open.requirement_footprint.as_str()
        && *prepared.backend_implementation.as_str() == *open.backend_implementation.as_str()
        && *prepared.realization_pipeline.as_str() == *open.realization_pipeline.as_str()
        && *prepared.trust_policy.as_str() == *open.trust_policy.as_str() && prepared.cpu_slots
        == open.cpu_slots && prepared.memory_bytes == open.memory_bytes && prepared.scratch_bytes
        == open.scratch_bytes {
        Ok(())
    } else if recovery {
        Err(MintError::OtherRecoveryPlacement)
    } else {
        Err(MintError::OtherPlacement)
    }
}

} // verus!
