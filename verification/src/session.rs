//! Sessions that are managed automatically: their names, their limits, waiting
//! for their operations, and the files that they leave behind.

use vstd::prelude::*;

use crate::authority::SessionStateTierArg;
use crate::components::{components, same_path};
use crate::files::{file_name, file_name_of};
use crate::mint::OperationStatus;
use crate::outside::{hex_encode, hex_text, random_bytes};
use crate::text::{
    byte_len, byte_length, chars_of, has_char, string_of, trim, trim_slice,
};

verus! {

/// A new name: a prefix, and random digits.
pub open spec fn fresh_name(prefix: Seq<char>, random: Seq<u8>) -> Seq<char> {
    prefix + "-"@ + hex_text(random)
}

/// A name made of a prefix and random bytes.
pub fn name_of(prefix: &str, random: &[u8]) -> (out: String)
    ensures
        out@ == fresh_name(prefix@, random@),
{
    let mut out = prefix.to_owned();
    out.append("-");
    out.append(hex_encode(random).as_str());
    out
}

/// A new name. Which one it is rests on chance.
pub fn fresh_id(prefix: &str) -> (r: Result<String, SessionError>)
    ensures
        match r {
            Ok(name) => exists|random: Seq<u8>|
                random.len() == 16 && name@ == #[trigger] fresh_name(prefix@, random),
            Err(error) => error is NoIdentityEntropy,
        },
{
    match random_bytes(16) {
        Ok(bytes) => {
            let out = name_of(prefix, bytes.as_slice());
            assert(out@ == fresh_name(prefix@, bytes@));
            Ok(out)
        },
        Err(_) => Err(SessionError::NoIdentityEntropy),
    }
}

/// A secret made of random bytes, as hexadecimal digits.
pub fn bearer_of(random: &[u8]) -> (out: String)
    ensures
        out@ == hex_text(random@),
{
    hex_encode(random)
}

/// A new secret, as hexadecimal digits. Which one it is rests on chance.
pub fn fresh_bearer() -> (r: Result<String, SessionError>)
    ensures
        match r {
            Ok(bearer) => exists|random: Seq<u8>|
                random.len() == 32 && bearer@ == #[trigger] hex_text(random),
            Err(error) => error is NoBearerEntropy,
        },
{
    match random_bytes(32) {
        Ok(bytes) => {
            let out = bearer_of(bytes.as_slice());
            assert(out@ == hex_text(bytes@));
            Ok(out)
        },
        Err(_) => Err(SessionError::NoBearerEntropy),
    }
}

/// Why a session cannot be used.
#[derive(Clone, Copy, Debug, PartialEq, Eq, Structural)]
pub enum SessionError {
    Deadline,
    DeadlineOverflow,
    OutputLimit,
    SourceLength,
    NoDirectoryName,
    DirectoryName,
    Pointer,
    Schema,
    Capability,
    NoSource,
    NoOperation,
    NoTask,
    NoAttempt,
    OtherOperation,
    WaitDeadline,
    NoOutcome,
    NotReplayable,
    SamePaths,
    SameKeys,
    NoReceiptKey,
    Exposed,
    NotAFile,
    TooLong,
    NoIdentityEntropy,
    NoBearerEntropy,
}

/// Checks the limits of an operation.
pub fn check_limits(deadline_seconds: u64, output_bytes: u64, most_output: u64) -> (r: Result<
    (),
    SessionError,
>)
    ensures
        r == (if deadline_seconds == 0 || deadline_seconds > 86_400 {
            Err::<(), SessionError>(SessionError::Deadline)
        } else if output_bytes == 0 || output_bytes > most_output {
            Err::<(), SessionError>(SessionError::OutputLimit)
        } else {
            Ok::<(), SessionError>(())
        }),
{
    if deadline_seconds == 0 || deadline_seconds > 86_400 {
        return Err(SessionError::Deadline);
    }
    if output_bytes == 0 || output_bytes > most_output {
        return Err(SessionError::OutputLimit);
    }
    Ok(())
}

/// Checks the length of a source, in bytes.
pub fn check_source(source: &str, most: u64) -> (r: Result<(), SessionError>)
    ensures
        r is Ok <==> byte_len(source@) <= most,
        r is Err ==> r->Err_0 is SourceLength,
{
    let chars = chars_of(source);
    if byte_length(chars.as_slice()) > most as u128 {
        Err(SessionError::SourceLength)
    } else {
        Ok(())
    }
}

/// When an operation has to be done.
pub fn absolute_deadline(now: u64, seconds: u64) -> (r: Result<u64, SessionError>)
    ensures
        r == (if seconds == 0 || seconds > 86_400 {
            Err::<u64, SessionError>(SessionError::Deadline)
        } else if now + 1000 * seconds > u64::MAX {
            Err::<u64, SessionError>(SessionError::DeadlineOverflow)
        } else {
            Ok::<u64, SessionError>((now + 1000 * seconds) as u64)
        }),
{
    if seconds == 0 || seconds > 86_400 {
        return Err(SessionError::Deadline);
    }
    let length: u64 = 1000 * seconds;
    if now > u64::MAX - length {
        return Err(SessionError::DeadlineOverflow);
    }
    Ok(now + length)
}

/// How long to wait for an operation, in seconds: a little longer than it may
/// take.
pub fn wait_seconds(deadline_seconds: u64) -> (n: u64)
    ensures
        n == (if deadline_seconds + 15 > u64::MAX {
            u64::MAX
        } else {
            (deadline_seconds + 15) as u64
        }),
{
    if deadline_seconds > u64::MAX - 15 {
        u64::MAX
    } else {
        deadline_seconds + 15
    }
}

/// Whether a name leads to one entry of a directory.
pub open spec fn plain_pointer(name: Seq<char>) -> bool {
    &&& name.len() > 0
    &&& !name.contains('/')
    &&& !name.contains('\\')
    &&& name != "."@
    &&& name != ".."@
}

/// The session that a pointer names, if it names one.
pub fn read_pointer(text: &str) -> (r: Result<String, SessionError>)
    ensures
        match r {
            Ok(name) => name@ == trim(text@) && plain_pointer(name@),
            Err(error) => error is Pointer && !plain_pointer(trim(text@)),
        },
{
    let chars = chars_of(text);
    let t = trim_slice(chars.as_slice());
    let name = string_of(t, 0, t.len());
    assert(name@ =~= t@);
    if t.len() == 0 || has_char(t, '/') || has_char(t, '\\') || *name.as_str() == *"."
        || *name.as_str() == *".." {
        return Err(SessionError::Pointer);
    }
    Ok(name)
}

/// The text of a pointer to a session's directory: the name that its path ends
/// in.
pub fn write_pointer(directory: &str) -> (r: Result<String, SessionError>)
    ensures
        ({
            let name = file_name(directory@);
            match r {
                Ok(text) => name.len() > 0 && !name.contains('\\') && text@ == name + "\n"@,
                Err(SessionError::NoDirectoryName) => name.len() == 0,
                Err(error) => error is DirectoryName && name.len() > 0 && name.contains('\\'),
            }
        }),
{
    let name = file_name_of(chars_of(directory).as_slice());
    if name.len() == 0 {
        return Err(SessionError::NoDirectoryName);
    }
    if has_char(name.as_slice(), '\\') {
        return Err(SessionError::DirectoryName);
    }
    let text = string_of(name.as_slice(), 0, name.len());
    assert(text@ =~= name@);
    Ok(text.concat("\n"))
}

/// Whether a pointer names a directory.
pub fn points_at(text: &str, directory: &str) -> (r: bool)
    ensures
        r == (trim(text@) == file_name(directory@)),
{
    let chars = chars_of(text);
    let name = file_name_of(chars_of(directory).as_slice());
    crate::text::eq_chars(trim_slice(chars.as_slice()), name.as_slice())
}

/// A pointer that was written for a directory whose name has no whitespace
/// around it is read back as that name, and points at that directory.
pub proof fn pointers_read_back(directory: Seq<char>)
    requires
        file_name(directory).len() > 0,
        !file_name(directory).contains('\\'),
        trim(file_name(directory)) == file_name(directory),
    ensures
        trim(file_name(directory) + "\n"@) == file_name(directory),
        plain_pointer(trim(file_name(directory) + "\n"@)),
{
    let name = file_name(directory);
    reveal_strlit("\n");
    reveal_strlit(".");
    reveal_strlit("..");
    assert(name == "."@ ==> name =~= seq!['.']);
    assert(name == ".."@ ==> name =~= seq!['.', '.']);
    let text = name + "\n"@;
    let p = crate::text::spaces();
    lemma_trim_start_nonblank(name);
    assert(!crate::text::is_space(name[0]));
    assert(text[0] == name[0]);
    assert(crate::text::trim_start_by(text, p) == text);
    assert(text.last() == '\n');
    assert(text.drop_last() =~= name);
    assert(crate::text::trim_end_by(text, p) == crate::text::trim_end_by(name, p));
    assert(crate::text::trim_start_by(name, p) == name);
}

proof fn lemma_trim_start_nonblank(name: Seq<char>)
    requires
        name.len() > 0,
        trim(name) == name,
    ensures
        !crate::text::is_space(name[0]),
{
    let p = crate::text::spaces();
    if crate::text::is_space(name[0]) {
        lemma_trim_shortens(name.skip(1));
        lemma_trim_end_shortens(crate::text::trim_start_by(name, p));
    }
}

proof fn lemma_trim_shortens(s: Seq<char>)
    ensures
        crate::text::trim_start_by(s, crate::text::spaces()).len() <= s.len(),
    decreases s.len(),
{
    if s.len() > 0 && crate::text::is_space(s[0]) {
        lemma_trim_shortens(s.skip(1));
    }
}

proof fn lemma_trim_end_shortens(s: Seq<char>)
    ensures
        crate::text::trim_end_by(s, crate::text::spaces()).len() <= s.len(),
    decreases s.len(),
{
    if s.len() > 0 && crate::text::is_space(s.last()) {
        lemma_trim_end_shortens(s.drop_last());
    }
}

/// What is written down of a session.
#[derive(Debug)]
pub struct AutoSessionRecord {
    pub schema: String,
    pub session_id: String,
    pub node_id: String,
    pub state_tier: String,
    pub created_unix_ms: u64,
}

/// The schema of what is written down of a session.
pub const AUTO_SESSION_SCHEMA_V1: &'static str = "ostadix.auto-session/v1";

/// What is written down of a new session.
pub fn new_record(session_id: &str, node_id: &str, tier: SessionStateTierArg, now: u64) -> (r:
    AutoSessionRecord)
    ensures
        r.schema@ == AUTO_SESSION_SCHEMA_V1@,
        r.session_id@ == session_id@,
        r.node_id@ == node_id@,
        r.state_tier@ == (match tier {
            SessionStateTierArg::Stateless => "stateless"@,
            SessionStateTierArg::CheckpointRestore => "checkpoint-restore"@,
            SessionStateTierArg::ReplayReconstructible => "replay-reconstructible"@,
            SessionStateTierArg::LiveActorOnly => "live-actor-only"@,
        }),
        r.created_unix_ms == now,
{
    AutoSessionRecord {
        schema: AUTO_SESSION_SCHEMA_V1.to_owned(),
        session_id: session_id.to_owned(),
        node_id: node_id.to_owned(),
        state_tier: tier.cli_name().to_owned(),
        created_unix_ms: now,
    }
}

/// Checks what is written down of a session against its capability.
pub fn check_record(record: &AutoSessionRecord, capability_session: &str) -> (r: Result<
    (),
    SessionError,
>)
    ensures
        r == (if record.schema@ != AUTO_SESSION_SCHEMA_V1@ {
            Err::<(), SessionError>(SessionError::Schema)
        } else if record.session_id@ != capability_session@ {
            Err::<(), SessionError>(SessionError::Capability)
        } else {
            Ok::<(), SessionError>(())
        }),
{
    if *record.schema.as_str() != *AUTO_SESSION_SCHEMA_V1 {
        return Err(SessionError::Schema);
    }
    if *record.session_id.as_str() != *capability_session {
        return Err(SessionError::Capability);
    }
    Ok(())
}

/// What to do about an operation that is waited for.
#[derive(Clone, Copy, Debug, PartialEq, Eq, Structural)]
pub enum WaitStep {
    /// Ask again after a while.
    Sleep,
    /// It has come to an end.
    Ended,
}

/// What to do about an operation that is waited for.
pub fn wait_step(status: OperationStatus, late: bool, has_outcome: bool) -> (r: Result<
    WaitStep,
    SessionError,
>)
    ensures
        r == (match status {
            OperationStatus::Accepted | OperationStatus::Running => if late {
                Err::<WaitStep, SessionError>(SessionError::WaitDeadline)
            } else {
                Ok::<WaitStep, SessionError>(WaitStep::Sleep)
            },
            OperationStatus::Succeeded | OperationStatus::Failed => if has_outcome {
                Ok::<WaitStep, SessionError>(WaitStep::Ended)
            } else {
                Err::<WaitStep, SessionError>(SessionError::NoOutcome)
            },
            OperationStatus::NotStarted | OperationStatus::Ambiguous => Err::<
                WaitStep,
                SessionError,
            >(SessionError::NotReplayable),
        }),
{
    match status {
        OperationStatus::Accepted | OperationStatus::Running => if late {
            Err(SessionError::WaitDeadline)
        } else {
            Ok(WaitStep::Sleep)
        },
        OperationStatus::Succeeded | OperationStatus::Failed => if has_outcome {
            Ok(WaitStep::Ended)
        } else {
            Err(SessionError::NoOutcome)
        },
        OperationStatus::NotStarted | OperationStatus::Ambiguous => Err(
            SessionError::NotReplayable,
        ),
    }
}

/// Why an opening of a session failed, as far as that is known.
#[derive(Clone, Copy, Debug, PartialEq, Eq, Structural)]
pub enum FailurePoint {
    /// The request itself is not in order.
    Validation,
    /// There was no connection.
    Connection,
    /// Nothing was sent.
    PreSend,
    /// It is not proved that nothing came of it.
    Unproven,
    /// The answer was to something else.
    Uncorrelated,
    /// The answer held another capability.
    OtherCapability,
}

/// What is said of an opening that failed: in each case the capability is kept.
pub open spec fn open_failure_text(point: FailurePoint, path: Seq<char>) -> Seq<char> {
    match point {
        FailurePoint::Validation => "local OpenSession validation failed before network send; precommitted capability retained at `"@
            + path + "` because it may belong to an earlier ambiguous retry"@,
        FailurePoint::Connection => "OpenSession failed before network send; precommitted capability retained at `"@
            + path + "` because it may belong to an earlier ambiguous retry"@,
        FailurePoint::PreSend => "this OpenSession attempt did not send; precommitted capability retained at `"@
            + path + "` because an earlier exact attempt may already have committed"@,
        FailurePoint::Unproven => "OpenSession has no signed non-commit proof; capability retained at `"@
            + path + "`; retry the exact same lease and capability, then query status"@,
        FailurePoint::Uncorrelated => "node returned an uncorrelated response after OpenSession delivery; capability retained at `"@
            + path + "` for exact retry"@,
        FailurePoint::OtherCapability => "node echoed different capability bytes after OpenSession delivery; capability retained at `"@
            + path + "` for exact retry"@,
    }
}

/// What is said of an opening that failed: in each case the capability is kept.
pub fn open_failure(point: FailurePoint, path: &str) -> (out: String)
    ensures
        out@ == open_failure_text(point, path@),
{
    let (before, after) = match point {
        FailurePoint::Validation => (
            "local OpenSession validation failed before network send; precommitted capability retained at `",
            "` because it may belong to an earlier ambiguous retry",
        ),
        FailurePoint::Connection => (
            "OpenSession failed before network send; precommitted capability retained at `",
            "` because it may belong to an earlier ambiguous retry",
        ),
        FailurePoint::PreSend => (
            "this OpenSession attempt did not send; precommitted capability retained at `",
            "` because an earlier exact attempt may already have committed",
        ),
        FailurePoint::Unproven => (
            "OpenSession has no signed non-commit proof; capability retained at `",
            "`; retry the exact same lease and capability, then query status",
        ),
        FailurePoint::Uncorrelated => (
            "node returned an uncorrelated response after OpenSession delivery; capability retained at `",
            "` for exact retry",
        ),
        FailurePoint::OtherCapability => (
            "node echoed different capability bytes after OpenSession delivery; capability retained at `",
            "` for exact retry",
        ),
    };
    let mut out = before.to_owned();
    out.append(path);
    out.append(after);
    out
}

/// What is done about two files that belong together.
#[derive(Clone, Copy, Debug, PartialEq, Eq, Structural)]
pub enum PairStep {
    ReserveFirst,
    ReserveSecond,
    /// Writes both, and makes sure that they are there to stay.
    WriteBoth,
    RemoveFirst,
    RemoveBoth,
    Done,
    Failed,
}

/// What is there of two files.
pub ghost struct PairState {
    pub step: PairStep,
    /// The first file has been made, and not been removed.
    pub first: bool,
    pub second: bool,
}

/// The step after one that went well or did not.
pub open spec fn pair_after(step: PairStep, went_well: bool) -> PairStep {
    match step {
        PairStep::ReserveFirst => if went_well {
            PairStep::ReserveSecond
        } else {
            PairStep::Failed
        },
        PairStep::ReserveSecond => if went_well {
            PairStep::WriteBoth
        } else {
            PairStep::RemoveFirst
        },
        PairStep::WriteBoth => if went_well {
            PairStep::Done
        } else {
            PairStep::RemoveBoth
        },
        PairStep::RemoveFirst => PairStep::Failed,
        PairStep::RemoveBoth => PairStep::Failed,
        PairStep::Done => PairStep::Done,
        PairStep::Failed => PairStep::Failed,
    }
}

/// The step after one that went well or did not.
pub fn pair_next(step: PairStep, went_well: bool) -> (next: PairStep)
    ensures
        next == pair_after(step, went_well),
{
    match step {
        PairStep::ReserveFirst => if went_well {
            PairStep::ReserveSecond
        } else {
            PairStep::Failed
        },
        PairStep::ReserveSecond => if went_well {
            PairStep::WriteBoth
        } else {
            PairStep::RemoveFirst
        },
        PairStep::WriteBoth => if went_well {
            PairStep::Done
        } else {
            PairStep::RemoveBoth
        },
        PairStep::RemoveFirst => PairStep::Failed,
        PairStep::RemoveBoth => PairStep::Failed,
        PairStep::Done => PairStep::Done,
        PairStep::Failed => PairStep::Failed,
    }
}

/// What is there of two files after a step.
pub open spec fn pair_moved(state: PairState, went_well: bool) -> PairState {
    PairState {
        step: pair_after(state.step, went_well),
        first: match state.step {
            PairStep::ReserveFirst => went_well,
            PairStep::RemoveFirst | PairStep::RemoveBoth => state.first && !went_well,
            _ => state.first,
        },
        second: match state.step {
            PairStep::ReserveSecond => went_well,
            PairStep::RemoveBoth => state.second && !went_well,
            _ => state.second,
        },
    }
}

/// What is there of two files after some outcomes.
pub open spec fn pair_run(outcomes: Seq<bool>) -> PairState
    decreases outcomes.len(),
{
    if outcomes.len() == 0 {
        PairState { step: PairStep::ReserveFirst, first: false, second: false }
    } else {
        pair_moved(pair_run(outcomes.drop_last()), outcomes.last())
    }
}

/// Whether some step that removes what was made went wrong.
pub open spec fn removal_failed(outcomes: Seq<bool>) -> bool
    decreases outcomes.len(),
{
    if outcomes.len() == 0 {
        false
    } else {
        let before = pair_run(outcomes.drop_last()).step;
        removal_failed(outcomes.drop_last()) || ((before is RemoveFirst || before is RemoveBoth)
            && !outcomes.last())
    }
}

/// Two files that belong together are both there at the end, or neither is;
/// only where removing them failed may one be left.
pub proof fn paired_files_come_together(outcomes: Seq<bool>)
    ensures
        pair_run(outcomes).step is Done ==> pair_run(outcomes).first && pair_run(outcomes).second,
        pair_run(outcomes).step is Failed && !removal_failed(outcomes) ==> !pair_run(outcomes).first
            && !pair_run(outcomes).second,
    decreases outcomes.len(),
{
    lemma_pair(outcomes);
}

proof fn lemma_pair(outcomes: Seq<bool>)
    ensures
        ({
            let s = pair_run(outcomes);
            match s.step {
                PairStep::ReserveFirst => !s.first && !s.second,
                PairStep::ReserveSecond => s.first && !s.second,
                PairStep::WriteBoth => s.first && s.second,
                PairStep::RemoveFirst => s.first && !s.second,
                PairStep::RemoveBoth => s.first && s.second,
                PairStep::Done => s.first && s.second,
                PairStep::Failed => removal_failed(outcomes) || (!s.first && !s.second),
            }
        }),
    decreases outcomes.len(),
{
    if outcomes.len() > 0 {
        lemma_pair(outcomes.drop_last());
    }
}

/// Checks that two files that are to be written do not have the same path.
pub fn check_pair(first: &str, second: &str) -> (r: Result<(), SessionError>)
    ensures
        r is Ok <==> components(first@) != components(second@),
        r is Err ==> r->Err_0 is SamePaths,
{
    if same_path(first, second) {
        Err(SessionError::SamePaths)
    } else {
        Ok(())
    }
}

/// Checks the mode of a file that holds a secret: no one else may get at it.
pub fn check_secret_mode(mode: u32) -> (r: Result<(), SessionError>)
    ensures
        r is Ok <==> mode & 0o077u32 == 0,
        r is Err ==> r->Err_0 is Exposed,
{
    if mode & 0o077u32 != 0 {
        Err(SessionError::Exposed)
    } else {
        Ok(())
    }
}

/// Checks a file before it is read: it is a file of its own, and not too long.
pub fn check_input_file(is_link: bool, is_file: bool, length: u64) -> (r: Result<(), SessionError>)
    ensures
        r == (if is_link || !is_file {
            Err::<(), SessionError>(SessionError::NotAFile)
        } else if length > 2 * 1024 * 1024 {
            Err::<(), SessionError>(SessionError::TooLong)
        } else {
            Ok::<(), SessionError>(())
        }),
{
    if is_link || !is_file {
        return Err(SessionError::NotAFile);
    }
    if length > 2_097_152 {
        return Err(SessionError::TooLong);
    }
    Ok(())
}

/// What is done about the keys of an authority.
#[derive(Clone, Copy, Debug, PartialEq, Eq, Structural)]
pub enum KeyStep {
    /// Both are there: the secret one is read.
    Read,
    /// The public one is written anew.
    WritePublic,
    /// Both are made anew, the public one in place of the one that is there.
    Replace,
    /// Both are made.
    Create,
}

/// What is done about the keys of an authority, by which of them are there.
pub fn key_step(secret: bool, public: bool) -> (step: KeyStep)
    ensures
        step == (match (secret, public) {
            (true, true) => KeyStep::Read,
            (true, false) => KeyStep::WritePublic,
            (false, true) => KeyStep::Replace,
            (false, false) => KeyStep::Create,
        }),
{
    match (secret, public) {
        (true, true) => KeyStep::Read,
        (true, false) => KeyStep::WritePublic,
        (false, true) => KeyStep::Replace,
        (false, false) => KeyStep::Create,
    }
}

/// Checks that the keys of an authority are kept in two files.
pub fn check_key_paths(secret: &str, public: &str) -> (r: Result<(), SessionError>)
    ensures
        r is Ok <==> components(secret@) != components(public@),
        r is Err ==> r->Err_0 is SameKeys,
{
    if same_path(secret, public) {
        Err(SessionError::SameKeys)
    } else {
        Ok(())
    }
}

impl SessionError {
    pub fn to_text(self) -> (text: &'static str)
        ensures
            text@ == (match self {
                SessionError::Deadline => "--deadline-seconds must be between 1 and 86400"@,
                SessionError::DeadlineOverflow => "absolute deadline overflow"@,
                SessionError::OutputLimit => "--output-limit-bytes is outside the hosted bounds"@,
                SessionError::SourceLength => "source length exceeds the hosted maximum"@,
                SessionError::NoDirectoryName => "automatic session directory has no portable name"@,
                SessionError::DirectoryName => "automatic session directory name is invalid"@,
                SessionError::Pointer => "current automatic session pointer is invalid"@,
                SessionError::Schema => "unsupported automatic session record schema"@,
                SessionError::Capability => "automatic session record does not match its capability"@,
                SessionError::NoSource => "source is required without --prepared-operation"@,
                SessionError::NoOperation => "--operation-id is required without --prepared-operation"@,
                SessionError::NoTask => "--task-sha256 is required without --prepared-operation"@,
                SessionError::NoAttempt => "--attempt-generation is required without --prepared-operation"@,
                SessionError::OtherOperation => "placement lease does not bind the exact prepared operation"@,
                SessionError::WaitDeadline => "automatic operation did not become terminal before its wait deadline"@,
                SessionError::NoOutcome => "terminal operation omitted its outcome"@,
                SessionError::NotReplayable => "automatic operation ended in non-terminally-replayable state"@,
                SessionError::SamePaths => "output paths must differ"@,
                SessionError::SameKeys => "placement signing-key and public-key paths must differ"@,
                SessionError::NoIdentityEntropy => "failed to obtain entropy for operation identity"@,
                SessionError::NoBearerEntropy => "failed to obtain entropy for session capability"@,
                SessionError::NoReceiptKey => "selected node does not expose durable V2 receipt identity"@,
                SessionError::Exposed => "session capability must not be accessible by group or other users"@,
                SessionError::NotAFile => "path must be a regular file"@,
                SessionError::TooLong => "file exceeds the hosted frame bound"@,
            }),
    {
        match self {
            SessionError::Deadline => "--deadline-seconds must be between 1 and 86400",
            SessionError::DeadlineOverflow => "absolute deadline overflow",
            SessionError::OutputLimit => "--output-limit-bytes is outside the hosted bounds",
            SessionError::SourceLength => "source length exceeds the hosted maximum",
            SessionError::NoDirectoryName => "automatic session directory has no portable name",
            SessionError::DirectoryName => "automatic session directory name is invalid",
            SessionError::Pointer => "current automatic session pointer is invalid",
            SessionError::Schema => "unsupported automatic session record schema",
            SessionError::Capability => "automatic session record does not match its capability",
            SessionError::NoSource => "source is required without --prepared-operation",
            SessionError::NoOperation => "--operation-id is required without --prepared-operation",
            SessionError::NoTask => "--task-sha256 is required without --prepared-operation",
            SessionError::NoAttempt => "--attempt-generation is required without --prepared-operation",
            SessionError::OtherOperation => "placement lease does not bind the exact prepared operation",
            SessionError::WaitDeadline => "automatic operation did not become terminal before its wait deadline",
            SessionError::NoOutcome => "terminal operation omitted its outcome",
            SessionError::NotReplayable => "automatic operation ended in non-terminally-replayable state",
            SessionError::SamePaths => "output paths must differ",
            SessionError::SameKeys => "placement signing-key and public-key paths must differ",
            SessionError::NoIdentityEntropy => "failed to obtain entropy for operation identity",
            SessionError::NoBearerEntropy => "failed to obtain entropy for session capability",
            SessionError::NoReceiptKey => "selected node does not expose durable V2 receipt identity",
            SessionError::Exposed => "session capability must not be accessible by group or other users",
            SessionError::NotAFile => "path must be a regular file",
            SessionError::TooLong => "file exceeds the hosted frame bound",
        }
    }
}

/// What an operation that is not prepared yet has to come with.
pub fn check_operation_args(
    has_source: bool,
    has_operation_id: bool,
    has_task: bool,
    has_attempt: bool,
) -> (r: Result<(), SessionError>)
    ensures
        r == (if !has_source {
            Err::<(), SessionError>(SessionError::NoSource)
        } else if !has_operation_id {
            Err::<(), SessionError>(SessionError::NoOperation)
        } else if !has_task {
            Err::<(), SessionError>(SessionError::NoTask)
        } else if !has_attempt {
            Err::<(), SessionError>(SessionError::NoAttempt)
        } else {
            Ok::<(), SessionError>(())
        }),
{
    if !has_source {
        Err(SessionError::NoSource)
    } else if !has_operation_id {
        Err(SessionError::NoOperation)
    } else if !has_task {
        Err(SessionError::NoTask)
    } else if !has_attempt {
        Err(SessionError::NoAttempt)
    } else {
        Ok(())
    }
}

/// Checks that a lease is for the operation that is submitted under it.
pub fn check_bound_operation(bound: &Option<String>, operation: &str) -> (r: Result<
    (),
    SessionError,
>)
    ensures
        r is Ok <==> crate::text::shown_as(*bound) == Some(operation@),
        r is Err ==> r->Err_0 is OtherOperation,
{
    match bound {
        Some(digest) => if *digest.as_str() == *operation {
            Ok(())
        } else {
            Err(SessionError::OtherOperation)
        },
        None => Err(SessionError::OtherOperation),
    }
}

} // verus!
