//! Live capabilities of one process.
//!
//! Capability metadata only describes. Authority comes from possession of a
//! bearer identity that was made from operating system entropy and is still
//! bound in the private table of the broker.

use vstd::prelude::*;
use vstd::slice::slice_to_vec;

use crate::outside::{hex_encode, hex_text, random_bytes};
use crate::text::views;

verus! {

/// A right that a backend process may be given.
#[derive(Clone, Copy, Debug, PartialEq, Eq, PartialOrd, Ord, Hash, Structural)]
pub enum BackendAuthority {
    FileRead,
    FileWrite,
    Network,
    Process,
}

impl BackendAuthority {
    /// The place of the right in the order of rights.
    pub open spec fn rank(self) -> int {
        match self {
            BackendAuthority::FileRead => 0,
            BackendAuthority::FileWrite => 1,
            BackendAuthority::Network => 2,
            BackendAuthority::Process => 3,
        }
    }

    fn rank_of(self) -> (r: u8)
        ensures
            r == self.rank(),
    {
        match self {
            BackendAuthority::FileRead => 0,
            BackendAuthority::FileWrite => 1,
            BackendAuthority::Network => 2,
            BackendAuthority::Process => 3,
        }
    }

    pub open spec fn text(self) -> Seq<char> {
        match self {
            BackendAuthority::FileRead => "fs_read"@,
            BackendAuthority::FileWrite => "fs_write"@,
            BackendAuthority::Network => "network"@,
            BackendAuthority::Process => "process"@,
        }
    }

    pub fn name(self) -> (text: &'static str)
        ensures
            text@ == self.text(),
    {
        match self {
            BackendAuthority::FileRead => "fs_read",
            BackendAuthority::FileWrite => "fs_write",
            BackendAuthority::Network => "network",
            BackendAuthority::Process => "process",
        }
    }
}

/// Whether rights are listed in ascending order, each once.
pub open spec fn ascending(list: Seq<BackendAuthority>) -> bool {
    forall|i: int, j: int| 0 <= i < j < list.len() ==> (#[trigger] list[i]).rank() < (
    #[trigger] list[j]).rank()
}

/// The rights of one backend process.
///
/// A persistent process is keyed by its policy too, so that one started for a
/// more privileged block is never reused by a block with fewer rights.
#[derive(Debug, PartialEq, Eq, Hash)]
pub struct BackendSandboxPolicy {
    permissions: Vec<BackendAuthority>,
}

impl View for BackendSandboxPolicy {
    type V = Seq<BackendAuthority>;

    closed spec fn view(&self) -> Seq<BackendAuthority> {
        self.permissions@
    }
}

impl Clone for BackendSandboxPolicy {
    fn clone(&self) -> (r: Self)
        ensures
            r@ == self@,
    {
        proof {
            use_type_invariant(self);
        }
        let permissions = slice_to_vec(self.permissions.as_slice());
        assert(permissions@ =~= self.permissions@);
        BackendSandboxPolicy { permissions }
    }
}

impl BackendSandboxPolicy {
    #[verifier::type_invariant]
    closed spec fn inv(self) -> bool {
        ascending(self.permissions@)
    }

    /// The policy that grants the listed rights.
    pub fn new(rights: &[BackendAuthority]) -> (policy: BackendSandboxPolicy)
        ensures
            ascending(policy@),
            policy@.to_set() == rights@.to_set(),
    {
        let mut permissions: Vec<BackendAuthority> = Vec::new();
        let mut k: usize = 0;
        assert(permissions@.to_set() =~= rights@.take(0).to_set());
        while k < rights.len()
            invariant
                k <= rights@.len(),
                ascending(permissions@),
                permissions@.to_set() == rights@.take(k as int).to_set(),
            decreases rights@.len() - k,
        {
            let right = rights[k];
            let ghost before = permissions@;
            let mut i: usize = 0;
            while i < permissions.len() && permissions[i].rank_of() < right.rank_of()
                invariant
                    permissions@ == before,
                    i <= permissions@.len(),
                    forall|j: int| 0 <= j < i ==> (#[trigger] before[j]).rank() < right.rank(),
                decreases permissions@.len() - i,
            {
                i += 1;
            }
            if i >= permissions.len() || permissions[i] != right {
                proof {
                    assert forall|j: int| i <= j < before.len() implies right.rank() < (
                    #[trigger] before[j]).rank() by {
                        assert(before[i as int].rank() >= right.rank());
                        assert(before[i as int].rank() != right.rank());
                    }
                    lemma_inserted(before, i as int, right);
                }
                permissions.insert(i, right);
            } else {
                assert(before.contains(right));
                assert(before.to_set().insert(right) =~= before.to_set());
            }
            proof {
                lemma_take_set(rights@, k as int);
            }
            k += 1;
        }
        assert(rights@.take(k as int) =~= rights@);
        BackendSandboxPolicy { permissions }
    }

    /// Whether the policy grants a right.
    pub fn contains(&self, permission: BackendAuthority) -> (r: bool)
        ensures
            r == self@.contains(permission),
    {
        let mut i: usize = 0;
        while i < self.permissions.len()
            invariant
                i <= self.permissions@.len(),
                forall|j: int| 0 <= j < i ==> self.permissions@[j] != permission,
            decreases self.permissions@.len() - i,
        {
            if self.permissions[i] == permission {
                return true;
            }
            i += 1;
        }
        false
    }

    /// The names of the rights granted, in order.
    pub fn names(&self) -> (out: Vec<String>)
        ensures
            views(out@) == self@.map_values(|p: BackendAuthority| p.text()),
    {
        let mut out: Vec<String> = Vec::new();
        let mut i: usize = 0;
        while i < self.permissions.len()
            invariant
                i <= self.permissions@.len(),
                out@.len() == i,
                forall|j: int| 0 <= j < i ==> (#[trigger] out@[j])@ == self.permissions@[j].text(),
            decreases self.permissions@.len() - i,
        {
            out.push(self.permissions[i].name().to_owned());
            i += 1;
        }
        assert(views(out@) =~= self@.map_values(|p: BackendAuthority| p.text()));
        out
    }

    /// The rights granted, in order.
    pub fn permissions(&self) -> (list: &[BackendAuthority])
        ensures
            list@ == self@,
            ascending(list@),
    {
        proof {
            use_type_invariant(self);
        }
        self.permissions.as_slice()
    }
}

proof fn lemma_inserted(before: Seq<BackendAuthority>, i: int, x: BackendAuthority)
    requires
        ascending(before),
        0 <= i <= before.len(),
        forall|j: int| 0 <= j < i ==> (#[trigger] before[j]).rank() < x.rank(),
        forall|j: int| i <= j < before.len() ==> x.rank() < (#[trigger] before[j]).rank(),
    ensures
        ascending(before.insert(i, x)),
        before.insert(i, x).to_set() == before.to_set().insert(x),
{
    let after = before.insert(i, x);
    assert forall|a: int, b: int| 0 <= a < b < after.len() implies (#[trigger] after[a]).rank() < (
    #[trigger] after[b]).rank() by {
        let p = if a < i { a } else { a - 1 };
        let q = if b < i { b } else { b - 1 };
        if a != i {
            assert(after[a] == before[p]);
        }
        if b != i {
            assert(after[b] == before[q]);
        }
    }
    assert forall|t: BackendAuthority|
        after.to_set().contains(t) == before.to_set().insert(x).contains(t) by {
        if after.contains(t) {
            let a = choose|a: int| 0 <= a < after.len() && after[a] == t;
            if a < i {
                assert(before[a] == t);
            } else if a > i {
                assert(before[a - 1] == t);
            }
        }
        if before.contains(t) {
            let a = choose|a: int| 0 <= a < before.len() && before[a] == t;
            if a < i {
                assert(after[a] == t);
            } else {
                assert(after[a + 1] == t);
            }
        }
        assert(after[i] == x);
    }
    assert(after.to_set() =~= before.to_set().insert(x));
}

proof fn lemma_take_set(list: Seq<BackendAuthority>, i: int)
    requires
        0 <= i < list.len(),
    ensures
        list.take(i + 1).to_set() == list.take(i).to_set().insert(list[i]),
{
    let a = list.take(i + 1);
    let b = list.take(i);
    assert forall|t: BackendAuthority| a.to_set().contains(t) == b.to_set().insert(list[i]).contains(t) by {
        if a.contains(t) {
            let k = choose|k: int| 0 <= k < a.len() && a[k] == t;
            if k < i {
                assert(b[k] == t);
            }
        }
        if b.contains(t) {
            let k = choose|k: int| 0 <= k < b.len() && b[k] == t;
            assert(a[k] == t);
        }
        assert(a[i] == list[i]);
    }
    assert(a.to_set() =~= b.to_set().insert(list[i]));
}

/// The bearer identity that the given random bytes make in a domain.
pub open spec fn identity_text(prefix: Seq<char>, bytes: Seq<u8>) -> Seq<char> {
    prefix + seq![':'] + hex_text(bytes)
}

/// The bearer identity that the given random bytes make in a domain.
pub fn bearer_identity(prefix: &str, bytes: &[u8]) -> (identity: String)
    ensures
        identity@ == identity_text(prefix@, bytes@),
{
    let mut identity = prefix.to_owned();
    identity.push(':');
    identity.append(hex_encode(bytes).as_str());
    assert(identity@ =~= identity_text(prefix@, bytes@));
    identity
}

/// A fresh bearer identity of 256 random bits.
///
/// The prefix names the domain and carries no authority: a recipient must
/// still find the whole identity in the table of its session.
pub fn fresh_bearer_identity(prefix: &str) -> (r: Result<String, CapabilityError>)
    ensures
        match r {
            Ok(identity) => exists|bytes: Seq<u8>|
                bytes.len() == 32 && identity@ == #[trigger] identity_text(prefix@, bytes),
            Err(error) => error is NoEntropy,
        },
{
    match random_bytes(32) {
        Ok(bytes) => Ok(bearer_identity(prefix, bytes.as_slice())),
        Err(_) => Err(CapabilityError::NoEntropy),
    }
}

/// What a capability is for.
#[derive(Debug)]
pub enum CapabilityKind {
    BackendExecution,
    Other(String),
}

impl CapabilityKind {
    pub open spec fn text(self) -> Seq<char> {
        match self {
            CapabilityKind::BackendExecution => "backend_execution"@,
            CapabilityKind::Other(name) => name@,
        }
    }

    pub fn name(&self) -> (text: String)
        ensures
            text@ == self.text(),
    {
        match self {
            CapabilityKind::BackendExecution => "backend_execution".to_owned(),
            CapabilityKind::Other(name) => name.clone(),
        }
    }
}

/// What describes a backend capability to its holder.
#[derive(Debug)]
pub struct BackendMetadata {
    pub live: bool,
    pub language: String,
    pub permissions: Vec<String>,
}

/// A value of the language, as far as capabilities need it.
#[derive(Debug)]
pub enum OValue {
    Capability { kind: CapabilityKind, identity: String, metadata: Option<BackendMetadata> },
    /// Any other value, by the name of its type.
    Other { kind_name: String },
}

/// Why a capability was not issued or not honoured.
#[derive(Debug)]
pub enum CapabilityError {
    /// The operating system gave no random bytes.
    NoEntropy,
    /// No unused identity was found.
    Exhausted,
    /// A capability needs a language.
    NoLanguage,
    NotACapability { kind_name: String },
    WrongKind { kind: String },
    /// Forged, revoked, or from another evaluator.
    NotBound,
    /// Not live in this evaluator.
    NotLive,
    WrongLanguage { scope: String, language: String },
    MissingRight { language: String, right: BackendAuthority },
}

impl CapabilityError {
    pub open spec fn text(self) -> Seq<char> {
        match self {
            CapabilityError::NoEntropy => "failed to obtain entropy for capability identity"@,
            CapabilityError::Exhausted => "no unused capability identity was found"@,
            CapabilityError::NoLanguage => "backend execution capability requires a language"@,
            CapabilityError::NotACapability { kind_name } => "expected OCapability, got "@
                + kind_name@,
            CapabilityError::WrongKind { kind } =>
                "expected a backend_execution capability, got "@ + kind@,
            CapabilityError::NotBound =>
                "backend execution capability is forged, revoked, or from another evaluator"@,
            CapabilityError::NotLive =>
                "backend execution capability is not live in this evaluator"@,
            CapabilityError::WrongLanguage { scope, language } =>
                "backend execution capability is scoped to "@ + scope@ + ", not "@ + language@,
            CapabilityError::MissingRight { language, right } =>
                "backend execution capability for "@ + language@ + " lacks `"@ + right.text()
                + "` authority"@,
        }
    }

    /// The error in words.
    pub fn to_text(&self) -> (out: String)
        ensures
            out@ == self.text(),
    {
        match self {
            CapabilityError::NoEntropy =>
                "failed to obtain entropy for capability identity".to_owned(),
            CapabilityError::Exhausted => "no unused capability identity was found".to_owned(),
            CapabilityError::NoLanguage =>
                "backend execution capability requires a language".to_owned(),
            CapabilityError::NotACapability { kind_name } =>
                "expected OCapability, got ".to_owned().concat(kind_name.as_str()),
            CapabilityError::WrongKind { kind } =>
                "expected a backend_execution capability, got ".to_owned().concat(kind.as_str()),
            CapabilityError::NotBound =>
                "backend execution capability is forged, revoked, or from another evaluator".to_owned(),
            CapabilityError::NotLive =>
                "backend execution capability is not live in this evaluator".to_owned(),
            CapabilityError::WrongLanguage { scope, language } => {
                let mut out = "backend execution capability is scoped to ".to_owned();
                out.append(scope.as_str());
                out.append(", not ");
                out.append(language.as_str());
                out
            },
            CapabilityError::MissingRight { language, right } => {
                let mut out = "backend execution capability for ".to_owned();
                out.append(language.as_str());
                out.append(" lacks `");
                out.append(right.name());
                out.append("` authority");
                out
            },
        }
    }
}

/// What is bound to one identity.
#[derive(Debug)]
struct BackendAuthorityBinding {
    identity: String,
    language: String,
    permissions: BackendSandboxPolicy,
}

/// What is bound to one identity, as a value.
pub ghost struct Binding {
    pub language: Seq<char>,
    pub permissions: Seq<BackendAuthority>,
}

/// The place of an identity in a table, or -1.
spec fn place(list: Seq<BackendAuthorityBinding>, identity: Seq<char>) -> int
    decreases list.len(),
{
    if list.len() == 0 {
        -1
    } else if list.last().identity@ == identity {
        list.len() - 1
    } else {
        place(list.drop_last(), identity)
    }
}

proof fn lemma_place(list: Seq<BackendAuthorityBinding>, identity: Seq<char>)
    ensures
        -1 <= place(list, identity) < list.len(),
        place(list, identity) >= 0 ==> list[place(list, identity)].identity@ == identity,
        place(list, identity) == -1 ==> forall|i: int|
            0 <= i < list.len() ==> (#[trigger] list[i]).identity@ != identity,
    decreases list.len(),
{
    if list.len() > 0 && list.last().identity@ != identity {
        lemma_place(list.drop_last(), identity);
        assert forall|i: int| place(list, identity) == -1 && 0 <= i < list.len() implies (
        #[trigger] list[i]).identity@ != identity by {
            if i < list.len() - 1 {
                assert(list.drop_last()[i] == list[i]);
            }
        }
    }
}

/// The authority of hosted backends in this process.
///
/// Only `issue` makes a binding, and every dispatch looks the bearer up right
/// before the process runs.
pub struct BackendAuthorityBroker {
    bindings: Vec<BackendAuthorityBinding>,
}

/// Whether no identity is bound twice.
spec fn distinct(list: Seq<BackendAuthorityBinding>) -> bool {
    forall|i: int, j: int|
        0 <= i < list.len() && 0 <= j < list.len() && (#[trigger] list[i]).identity@ == (
        #[trigger] list[j]).identity@ ==> i == j
}

impl View for BackendAuthorityBroker {
    type V = Map<Seq<char>, Binding>;

    closed spec fn view(&self) -> Map<Seq<char>, Binding> {
        Map::new(
            |id: Seq<char>| place(self.bindings@, id) >= 0,
            |id: Seq<char>|
                Binding {
                    language: self.bindings@[place(self.bindings@, id)].language@,
                    permissions: self.bindings@[place(self.bindings@, id)].permissions@,
                },
        )
    }
}

impl Default for BackendAuthorityBroker {
    fn default() -> (broker: BackendAuthorityBroker)
        ensures
            broker@ == Map::<Seq<char>, Binding>::empty(),
    {
        let broker = BackendAuthorityBroker { bindings: Vec::new() };
        assert(broker@ =~= Map::empty());
        broker
    }
}

/// Whether a capability's identity is honoured for a language and rights.
pub open spec fn honoured(
    table: Map<Seq<char>, Binding>,
    identity: Seq<char>,
    language: Seq<char>,
    requested: Seq<BackendAuthority>,
) -> bool {
    &&& table.contains_key(identity)
    &&& in_scope(table[identity], language)
    &&& forall|i: int| 0 <= i < requested.len() ==> table[identity].permissions.contains(#[trigger] requested[i])
}

/// Whether a binding covers a language: its own, or any.
pub open spec fn in_scope(binding: Binding, language: Seq<char>) -> bool {
    binding.language == language || binding.language == "*"@
}

impl BackendAuthorityBroker {
    #[verifier::type_invariant]
    closed spec fn inv(self) -> bool {
        distinct(self.bindings@)
    }

    fn find(&self, identity: &str) -> (r: Option<usize>)
        ensures
            r is Some <==> self@.contains_key(identity@),
            r matches Some(i) ==> i < self.bindings@.len() && i == place(self.bindings@, identity@)
                && self.bindings@[i as int].language@ == self@[identity@].language
                && self.bindings@[i as int].permissions@ == self@[identity@].permissions,
    {
        let mut i: usize = self.bindings.len();
        let ghost all = self.bindings@;
        assert(all.take(i as int) =~= all);
        while i > 0
            invariant
                all == self.bindings@,
                i <= all.len(),
                place(all, identity@) == place(all.take(i as int), identity@),
            decreases i,
        {
            assert(all.take(i as int).last() == all[i - 1]);
            if *self.bindings[i - 1].identity.as_str() == *identity {
                return Some(i - 1);
            }
            assert(all.take(i as int).drop_last() =~= all.take(i - 1));
            i -= 1;
        }
        assert(all.take(0).len() == 0);
        None
    }

    /// Binds an identity that is not bound yet. Gives back whether it was not.
    fn bind(
        &mut self,
        identity: String,
        language: String,
        permissions: BackendSandboxPolicy,
    ) -> (bound: bool)
        ensures
            bound == !old(self)@.contains_key(identity@),
            bound ==> final(self)@ == old(self)@.insert(
                identity@,
                Binding { language: language@, permissions: permissions@ },
            ),
            !bound ==> final(self)@ == old(self)@,
    {
        if self.find(identity.as_str()).is_some() {
            return false;
        }
        proof {
            use_type_invariant(&*self);
        }
        let ghost all = self.bindings@;
        let ghost key = identity@;
        let entry = BackendAuthorityBinding { identity, language, permissions };
        proof {
            lemma_place(all, key);
            let after = all.push(entry);
            assert(after.drop_last() =~= all);
            assert(distinct(after));
        }
        let mut bindings: Vec<BackendAuthorityBinding> = Vec::new();
        std::mem::swap(&mut self.bindings, &mut bindings);
        bindings.push(entry);
        self.bindings = bindings;
        proof {
            assert(self.bindings@.drop_last() =~= all);
            let grown = old(self)@.insert(
                key,
                Binding { language: language@, permissions: permissions@ },
            );
            assert forall|id: Seq<char>| self@.contains_key(id) == grown.contains_key(id) by {
                lemma_place(all, id);
            }
            assert forall|id: Seq<char>| self@.contains_key(id) implies self@[id] == grown[id] by {
                lemma_place(all, id);
            }
            assert(self@ =~= grown);
        }
        true
    }

    /// Issues a live capability for a language with the listed rights, under the
    /// identity that the given random bytes make. Gives none where that identity
    /// is bound already.
    pub fn issue_with(&mut self, random: &[u8], language: &str, permissions: &[BackendAuthority]) -> (r:
        Option<OValue>)
        ensures
            r is None <==> old(self)@.contains_key(identity_text("o-backend-live"@, random@)),
            match r {
                Some(value) => issues(
                    old(self)@,
                    final(self)@,
                    identity_text("o-backend-live"@, random@),
                    language@,
                    permissions@,
                    value,
                ),
                None => final(self)@ == old(self)@,
            },
    {
        let identity = bearer_identity("o-backend-live", random);
        let policy = BackendSandboxPolicy::new(permissions);
        let names = policy.names();
        let ghost granted = policy@;
        if !self.bind(identity.clone(), language.to_owned(), policy) {
            return None;
        }
        let metadata = BackendMetadata {
            live: true,
            language: language.to_owned(),
            permissions: names,
        };
        assert(issued(old(self)@, self@, identity@, language@, permissions@)) by {
            assert(self@[identity@].permissions == granted);
        }
        Some(
            OValue::Capability {
                kind: CapabilityKind::BackendExecution,
                identity,
                metadata: Some(metadata),
            },
        )
    }

    /// Issues a live capability for a language with the listed rights.
    pub fn issue(&mut self, language: &str, permissions: &[BackendAuthority]) -> (r: Result<
        OValue,
        CapabilityError,
    >)
        ensures
            language@.len() == 0 ==> r == Err::<OValue, CapabilityError>(
                CapabilityError::NoLanguage,
            ),
            match r {
                Ok(value) => language@.len() > 0 && exists|bytes: Seq<u8>|
                    bytes.len() == 32 && !old(self)@.contains_key(
                        #[trigger] identity_text("o-backend-live"@, bytes),
                    ) && issues(
                        old(self)@,
                        final(self)@,
                        identity_text("o-backend-live"@, bytes),
                        language@,
                        permissions@,
                        value,
                    ),
                Err(error) => {
                    &&& final(self)@ == old(self)@
                    &&& language@.len() > 0 ==> error is NoEntropy || error is Exhausted
                },
            },
    {
        if language.is_empty() {
            return Err(CapabilityError::NoLanguage);
        }
        let mut attempts: u64 = 0;
        while attempts < u64::MAX
            invariant
                language@.len() > 0,
                self@ == old(self)@,
            decreases u64::MAX - attempts,
        {
            let random = match random_bytes(32) {
                Ok(random) => random,
                Err(_) => {
                    return Err(CapabilityError::NoEntropy);
                },
            };
            match self.issue_with(random.as_slice(), language, permissions) {
                Some(value) => {
                    return Ok(value);
                },
                None => {},
            }
            attempts += 1;
        }
        Err(CapabilityError::Exhausted)
    }

    /// Checks a capability and gives its identity.
    pub fn authorize(
        &self,
        capability: &OValue,
        language: &str,
        requested: &[BackendAuthority],
    ) -> (r: Result<String, CapabilityError>)
        ensures
            match *capability {
                OValue::Other { kind_name } => r matches Err(CapabilityError::NotACapability {
                    kind_name: t,
                }) && t@ == kind_name@,
                OValue::Capability { kind, identity, .. } => if kind is Other {
                    r matches Err(CapabilityError::WrongKind { kind: k }) && k@ == kind.text()
                } else {
                    match r {
                        Ok(id) => id@ == identity@ && honoured(
                            self@,
                            identity@,
                            language@,
                            requested@,
                        ),
                        Err(error) => refused(self@, identity@, language@, requested@, error),
                    }
                },
            },
    {
        match capability {
            OValue::Other { kind_name } => Err(
                CapabilityError::NotACapability { kind_name: kind_name.clone() },
            ),
            OValue::Capability { kind, identity, .. } => match kind {
                CapabilityKind::Other(_) => Err(CapabilityError::WrongKind { kind: kind.name() }),
                CapabilityKind::BackendExecution => {
                    match self.authorize_identity(identity.as_str(), language, requested) {
                        Ok(_) => Ok(identity.clone()),
                        Err(error) => Err(error),
                    }
                },
            },
        }
    }

    /// Checks an identity.
    pub fn authorize_identity(
        &self,
        identity: &str,
        language: &str,
        requested: &[BackendAuthority],
    ) -> (r: Result<(), CapabilityError>)
        ensures
            match r {
                Ok(_) => honoured(self@, identity@, language@, requested@),
                Err(error) => refused(self@, identity@, language@, requested@, error),
            },
    {
        let i = match self.find(identity) {
            Some(i) => i,
            None => {
                return Err(CapabilityError::NotBound);
            },
        };
        let binding = &self.bindings[i];
        if *binding.language.as_str() != *language && *binding.language.as_str() != *"*" {
            return Err(
                CapabilityError::WrongLanguage {
                    scope: binding.language.clone(),
                    language: language.to_owned(),
                },
            );
        }
        let mut k: usize = 0;
        while k < requested.len()
            invariant
                k <= requested@.len(),
                i < self.bindings@.len(),
                *binding == self.bindings@[i as int],
                self@.contains_key(identity@),
                binding.permissions@ == self@[identity@].permissions,
                in_scope(self@[identity@], language@),
                forall|j: int|
                    0 <= j < k ==> self@[identity@].permissions.contains(#[trigger] requested@[j]),
            decreases requested@.len() - k,
        {
            if !binding.permissions.contains(requested[k]) {
                return Err(
                    CapabilityError::MissingRight {
                        language: language.to_owned(),
                        right: requested[k],
                    },
                );
            }
            k += 1;
        }
        Ok(())
    }

    /// Takes a capability's authority away.
    pub fn revoke(&mut self, capability: &OValue) -> (r: Result<(), CapabilityError>)
        ensures
            match *capability {
                OValue::Other { kind_name } => (r matches Err(CapabilityError::NotACapability {
                    kind_name: t,
                }) && t@ == kind_name@) && final(self)@ == old(self)@,
                OValue::Capability { kind, identity, .. } => if kind is Other {
                    (r matches Err(CapabilityError::WrongKind { kind: k }) && k@ == kind.text())
                        && final(self)@ == old(self)@
                } else if old(self)@.contains_key(identity@) {
                    r is Ok && final(self)@ == old(self)@.remove(identity@)
                } else {
                    (r matches Err(CapabilityError::NotLive)) && final(self)@ == old(self)@
                },
            },
    {
        match capability {
            OValue::Other { kind_name } => Err(
                CapabilityError::NotACapability { kind_name: kind_name.clone() },
            ),
            OValue::Capability { kind, identity, .. } => match kind {
                CapabilityKind::Other(_) => Err(CapabilityError::WrongKind { kind: kind.name() }),
                CapabilityKind::BackendExecution => {
                    let i = match self.find(identity.as_str()) {
                        Some(i) => i,
                        None => {
                            return Err(CapabilityError::NotLive);
                        },
                    };
                    proof {
                        use_type_invariant(&*self);
                    }
                    let ghost all = self.bindings@;
                    let ghost rest = all.remove(i as int);
                    proof {
                        assert forall|a: int, b: int|
                            0 <= a < rest.len() && 0 <= b < rest.len() && (
                            #[trigger] rest[a]).identity@ == (#[trigger] rest[b]).identity@ implies a
                            == b by {
                            let p = if a < i { a } else { a + 1 };
                            let q = if b < i { b } else { b + 1 };
                            assert(rest[a] == all[p] && rest[b] == all[q]);
                        }
                    }
                    let mut bindings: Vec<BackendAuthorityBinding> = Vec::new();
                    std::mem::swap(&mut self.bindings, &mut bindings);
                    let _ = bindings.remove(i);
                    self.bindings = bindings;
                    proof {
                        let shrunk = old(self)@.remove(identity@);
                        assert(self.bindings@ =~= rest);
                        lemma_place(all, identity@);
                        assert forall|id: Seq<char>|
                            #[trigger] self@.contains_key(id) == shrunk.contains_key(id) && (
                            self@.contains_key(id) ==> self@[id] == shrunk[id]) by {
                            lemma_place(all, id);
                            lemma_place(rest, id);
                            let a = place(all, id);
                            let b = place(rest, id);
                            if b >= 0 {
                                let q = if b < i { b } else { b + 1 };
                                assert(rest[b] == all[q]);
                                if a >= 0 {
                                    assert(all[a].identity@ == all[q].identity@);
                                }
                            }
                            if a >= 0 && a != i {
                                let p = if a < i { a } else { a - 1 };
                                assert(rest[p] == all[a]);
                            }
                            if a >= 0 && id != identity@ {
                                assert(a != i);
                            }
                        }
                        assert(self@ =~= shrunk);
                    }
                    Ok(())
                },
            },
        }
    }
}

/// What issuing does to the table.
pub open spec fn issued(
    before: Map<Seq<char>, Binding>,
    after: Map<Seq<char>, Binding>,
    identity: Seq<char>,
    language: Seq<char>,
    permissions: Seq<BackendAuthority>,
) -> bool {
    &&& after.contains_key(identity)
    &&& after == before.insert(identity, after[identity])
    &&& after[identity].language == language
    &&& ascending(after[identity].permissions)
    &&& after[identity].permissions.to_set() == permissions.to_set()
}

/// What issuing does to the table, and the capability that it gives.
pub open spec fn issues(
    before: Map<Seq<char>, Binding>,
    after: Map<Seq<char>, Binding>,
    identity: Seq<char>,
    language: Seq<char>,
    permissions: Seq<BackendAuthority>,
    value: OValue,
) -> bool {
    &&& issued(before, after, identity, language, permissions)
    &&& value matches OValue::Capability { kind, identity: id, metadata } && {
        &&& kind is BackendExecution
        &&& id@ == identity
        &&& metadata matches Some(m) && m.live && m.language@ == language && views(m.permissions@)
            == after[identity].permissions.map_values(|p: BackendAuthority| p.text())
    }
}

/// Why an identity is refused.
pub open spec fn refused(
    table: Map<Seq<char>, Binding>,
    identity: Seq<char>,
    language: Seq<char>,
    requested: Seq<BackendAuthority>,
    error: CapabilityError,
) -> bool {
    if !table.contains_key(identity) {
        error is NotBound
    } else if !in_scope(table[identity], language) {
        error matches CapabilityError::WrongLanguage { scope, language: l } && scope@
            == table[identity].language && l@ == language
    } else {
        error matches CapabilityError::MissingRight { language: l, right } && l@ == language && exists|
            i: int,
        |
            {
                &&& 0 <= i < requested.len()
                &&& #[trigger] requested[i] == right
                &&& !table[identity].permissions.contains(right)
                &&& forall|j: int|
                    0 <= j < i ==> table[identity].permissions.contains(#[trigger] requested[j])
            }
    }
}

/// An issued capability is honoured for its language and any of its rights.
pub proof fn issued_capabilities_are_honoured(
    before: Map<Seq<char>, Binding>,
    after: Map<Seq<char>, Binding>,
    identity: Seq<char>,
    language: Seq<char>,
    permissions: Seq<BackendAuthority>,
    requested: Seq<BackendAuthority>,
)
    requires
        issued(before, after, identity, language, permissions),
        requested.to_set().subset_of(permissions.to_set()),
    ensures
        honoured(after, identity, language, requested),
{
    assert forall|i: int| 0 <= i < requested.len() implies after[identity].permissions.contains(
        #[trigger] requested[i],
    ) by {
        assert(requested.to_set().contains(requested[i]));
        assert(permissions.to_set().contains(requested[i]));
        assert(after[identity].permissions.to_set().contains(requested[i]));
    }
}

/// Issuing one capability changes nothing for any other identity.
pub proof fn issuing_leaves_others_alone(
    before: Map<Seq<char>, Binding>,
    after: Map<Seq<char>, Binding>,
    identity: Seq<char>,
    language: Seq<char>,
    permissions: Seq<BackendAuthority>,
    other: Seq<char>,
    spoken: Seq<char>,
    requested: Seq<BackendAuthority>,
)
    requires
        issued(before, after, identity, language, permissions),
        other != identity,
    ensures
        honoured(after, other, spoken, requested) == honoured(before, other, spoken, requested),
{
}

/// A revoked capability is honoured for nothing.
pub proof fn revoked_capabilities_are_refused(
    table: Map<Seq<char>, Binding>,
    identity: Seq<char>,
    language: Seq<char>,
    requested: Seq<BackendAuthority>,
)
    ensures
        !honoured(table.remove(identity), identity, language, requested),
{
}

/// What is refused is not honoured: a check is one or the other.
pub proof fn refusals_are_not_honoured(
    table: Map<Seq<char>, Binding>,
    identity: Seq<char>,
    language: Seq<char>,
    requested: Seq<BackendAuthority>,
    error: CapabilityError,
)
    requires
        refused(table, identity, language, requested, error),
    ensures
        !honoured(table, identity, language, requested),
{
}

} // verus!
