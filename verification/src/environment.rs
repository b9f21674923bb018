//! Which evaluator environment a block asks for.
//!
//! An environment is stored as one `u32`. The two highest values are reserved:
//! one for a block without a marker, one for the `[*]` that asks for a fresh
//! environment; every other value names a persistent environment `[N]`.

use vstd::prelude::*;

use crate::text::{decimal, decimal_spells, push_decimal};

verus! {

/// The encoding of a block without a marker, such as `python^(...)_python`.
pub const EPHEMERAL_ENV_ID: u32 = 0xffff_ffff;

/// The encoding of a block marked `[*]`.
pub const LINKER_ISOLATED_ENV_ID: u32 = 0xffff_fffe;

/// The largest number that a persistent environment may have.
pub const MAX_PERSISTENT_ENV_ID: u32 = 0xffff_fffd;

/// The environment that a block asks for.
#[derive(Clone, Copy, Debug, PartialEq, Eq, PartialOrd, Ord, Hash, Structural)]
pub enum EnvironmentRefV2 {
    /// No marker: every dispatch gets a fresh evaluator.
    Ephemeral,
    /// `[*]`: a fresh evaluator, asked for by the linker.
    LinkerIsolated,
    /// `[N]`: one stable evaluator.
    Persistent(u32),
}

/// Why a number cannot name a persistent environment.
#[derive(Clone, Copy, Debug, PartialEq, Eq, Structural)]
pub enum EnvironmentIdError {
    Reserved(u32),
}

impl EnvironmentIdError {
    pub open spec fn text(self) -> Seq<char> {
        match self {
            EnvironmentIdError::Reserved(id) => "persistent environment id "@ + decimal(id as nat)
                + " is reserved; numeric ids must be at most "@ + decimal(
                MAX_PERSISTENT_ENV_ID as nat,
            ),
        }
    }

    /// The error in words.
    pub fn to_text(self) -> (out: String)
        ensures
            out@ == self.text(),
    {
        match self {
            EnvironmentIdError::Reserved(id) => {
                let mut out = "persistent environment id ".to_owned();
                push_decimal(&mut out, id as u64);
                out.append(" is reserved; numeric ids must be at most ");
                push_decimal(&mut out, MAX_PERSISTENT_ENV_ID as u64);
                out
            },
        }
    }
}

impl EnvironmentRefV2 {
    /// The stored form of an environment.
    pub open spec fn encoding(self) -> u32 {
        match self {
            EnvironmentRefV2::Ephemeral => EPHEMERAL_ENV_ID,
            EnvironmentRefV2::LinkerIsolated => LINKER_ISOLATED_ENV_ID,
            EnvironmentRefV2::Persistent(id) => id,
        }
    }

    /// The environment that a stored form stands for.
    pub open spec fn decoding(id: u32) -> EnvironmentRefV2 {
        if id == EPHEMERAL_ENV_ID {
            EnvironmentRefV2::Ephemeral
        } else if id == LINKER_ISOLATED_ENV_ID {
            EnvironmentRefV2::LinkerIsolated
        } else {
            EnvironmentRefV2::Persistent(id)
        }
    }

    /// Whether the environment has a stored form of its own.
    pub open spec fn wf(self) -> bool {
        self matches EnvironmentRefV2::Persistent(id) ==> id <= MAX_PERSISTENT_ENV_ID
    }

    /// Whether every dispatch gets a fresh evaluator.
    pub open spec fn fresh(self) -> bool {
        !(self is Persistent)
    }

    /// The persistent environment with the given number.
    pub fn persistent(id: u32) -> (r: Result<EnvironmentRefV2, EnvironmentIdError>)
        ensures
            id <= MAX_PERSISTENT_ENV_ID ==> r == Ok::<EnvironmentRefV2, EnvironmentIdError>(
                EnvironmentRefV2::Persistent(id),
            ),
            id > MAX_PERSISTENT_ENV_ID ==> r == Err::<EnvironmentRefV2, EnvironmentIdError>(
                EnvironmentIdError::Reserved(id),
            ),
    {
        if id > MAX_PERSISTENT_ENV_ID {
            return Err(EnvironmentIdError::Reserved(id));
        }
        Ok(EnvironmentRefV2::Persistent(id))
    }

    /// The environment that a stored form stands for.
    pub fn from_encoded(id: u32) -> (r: EnvironmentRefV2)
        ensures
            r == Self::decoding(id),
            r.wf(),
    {
        if id == EPHEMERAL_ENV_ID {
            EnvironmentRefV2::Ephemeral
        } else if id == LINKER_ISOLATED_ENV_ID {
            EnvironmentRefV2::LinkerIsolated
        } else {
            EnvironmentRefV2::Persistent(id)
        }
    }

    /// The stored form of an environment.
    pub fn encoded(self) -> (id: u32)
        ensures
            id == self.encoding(),
    {
        match self {
            EnvironmentRefV2::Ephemeral => EPHEMERAL_ENV_ID,
            EnvironmentRefV2::LinkerIsolated => LINKER_ISOLATED_ENV_ID,
            EnvironmentRefV2::Persistent(id) => id,
        }
    }

    /// The key of the evaluator process. Both fresh forms share one, because
    /// neither may be reused.
    pub fn runtime_env_id(self) -> (id: u32)
        ensures
            id == if self.fresh() {
                EPHEMERAL_ENV_ID
            } else {
                self.encoding()
            },
    {
        match self {
            EnvironmentRefV2::Ephemeral => EPHEMERAL_ENV_ID,
            EnvironmentRefV2::LinkerIsolated => EPHEMERAL_ENV_ID,
            EnvironmentRefV2::Persistent(id) => id,
        }
    }

    pub fn is_fresh(self) -> (r: bool)
        ensures
            r == self.fresh(),
    {
        match self {
            EnvironmentRefV2::Persistent(_) => false,
            _ => true,
        }
    }

    pub fn is_persistent(self) -> (r: bool)
        ensures
            r == (self is Persistent),
    {
        match self {
            EnvironmentRefV2::Persistent(_) => true,
            _ => false,
        }
    }

    /// The marker between a backend name and its `^(`.
    pub open spec fn marker(self) -> Option<Seq<char>> {
        match self {
            EnvironmentRefV2::Ephemeral => None,
            EnvironmentRefV2::LinkerIsolated => Some("[*]"@),
            EnvironmentRefV2::Persistent(id) => Some("["@ + decimal(id as nat) + "]"@),
        }
    }

    /// The marker between a backend name and its `^(`.
    pub fn source_marker(self) -> (r: Option<String>)
        ensures
            r is Some <==> self.marker() is Some,
            r matches Some(text) ==> self.marker() == Some(text@),
    {
        match self {
            EnvironmentRefV2::Ephemeral => None,
            EnvironmentRefV2::LinkerIsolated => Some("[*]".to_owned()),
            EnvironmentRefV2::Persistent(id) => {
                let mut text = "[".to_owned();
                push_decimal(&mut text, id as u64);
                text.append("]");
                Some(text)
            },
        }
    }

    pub open spec fn text(self) -> Seq<char> {
        match self {
            EnvironmentRefV2::Ephemeral => "ephemeral"@,
            EnvironmentRefV2::LinkerIsolated => "linker-isolated"@,
            EnvironmentRefV2::Persistent(id) => "persistent:"@ + decimal(id as nat),
        }
    }

    /// The environment in words.
    pub fn to_text(self) -> (out: String)
        ensures
            out@ == self.text(),
    {
        match self {
            EnvironmentRefV2::Ephemeral => "ephemeral".to_owned(),
            EnvironmentRefV2::LinkerIsolated => "linker-isolated".to_owned(),
            EnvironmentRefV2::Persistent(id) => {
                let mut text = "persistent:".to_owned();
                push_decimal(&mut text, id as u64);
                text
            },
        }
    }
}

/// Each environment has a marker of its own: what a block asks for can be told
/// from how it is marked.
pub proof fn markers_tell_environments_apart(a: EnvironmentRefV2, b: EnvironmentRefV2)
    requires
        a.marker() == b.marker(),
    ensures
        a == b,
{
    reveal_strlit("[*]");
    reveal_strlit("[");
    reveal_strlit("]");
    if let EnvironmentRefV2::Persistent(x) = a {
        decimal_spells(x as nat);
        let m = a.marker()->Some_0;
        assert(m[1] == decimal(x as nat)[0]);
        assert(m.subrange(1, m.len() - 1) =~= decimal(x as nat));
    }
    if let EnvironmentRefV2::Persistent(y) = b {
        decimal_spells(y as nat);
        let m = b.marker()->Some_0;
        assert(m[1] == decimal(y as nat)[0]);
        assert(m.subrange(1, m.len() - 1) =~= decimal(y as nat));
    }
}

/// Every stored form can be read, and reads back as it was written.
pub proof fn every_encoding_round_trips(id: u32)
    ensures
        EnvironmentRefV2::decoding(id).wf(),
        EnvironmentRefV2::decoding(id).encoding() == id,
{
}

/// Every environment reads back from its stored form.
pub proof fn every_environment_round_trips(environment: EnvironmentRefV2)
    requires
        environment.wf(),
    ensures
        EnvironmentRefV2::decoding(environment.encoding()) == environment,
{
}

/// Environments that are stored alike are alike.
pub proof fn encodings_are_distinct(a: EnvironmentRefV2, b: EnvironmentRefV2)
    requires
        a.wf(),
        b.wf(),
        a.encoding() == b.encoding(),
    ensures
        a == b,
{
}

} // verus!
