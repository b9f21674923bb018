//! What an operation reads, writes and may do, and how source declarations
//! may constrain it.
//!
//! Summaries are derived before the executable graph is built, so they state
//! dependencies and not worker hints. Unknown hosted work is connected to
//! [`ResourceKey::HostWorld`]; mutable state of the evaluator is kept apart.

use vstd::prelude::*;
use vstd::slice::slice_subrange;

use crate::escape::{begins_ident, continues_ident, ident_char, identifier};
use crate::files::{last_position, lemma_last_position};
use crate::imports::after_prefix;
use crate::ir::{BackendInterface, ExecutionMode, PlanNodeId, PlanNodeKind};
use crate::resource::{Actor, Resource};
use crate::text::{
    chars_of, decimal, decimal_spells, eq_str_chars, find_char, lemma_position_from,
    lemma_position_is, parse_bounded, position_from, push_decimal,
    separators, split, split_by, starts_with, string_of, texts, trim, trim_slice, unsigned,
};

pub use crate::resource::{ActorResourceId, GovernedIdentity, ResourceKey, ResourceSet};

verus! {

/// Where an effect classification comes from.
#[derive(Clone, Copy, Debug, PartialEq, Eq, PartialOrd, Ord, Hash, Structural)]
pub enum EffectConfidence {
    Verified,
    Conservative,
    UserDeclared,
}

/// Whether an operation may fail once all its inputs are there.
#[derive(Clone, Copy, Debug, PartialEq, Eq, PartialOrd, Ord, Hash, Structural)]
pub enum Fallibility {
    Infallible,
    MayFail,
}

/// Whether declarations may weaken a derived summary.
#[derive(Clone, Copy, Debug, PartialEq, Eq, Structural)]
pub enum EffectTrustPolicy {
    /// Declarations may add constraints, but may not upgrade unverified work
    /// to pure, deterministic or infallible.
    Strict,
}

/// The conservative effects of one operation.
#[derive(Debug, PartialEq, Eq)]
pub struct EffectSummary {
    pub deterministic: bool,
    pub fallibility: Fallibility,
    pub reads: ResourceSet,
    pub writes: ResourceSet,
    pub actor_state: Option<ActorResourceId>,
    /// The resources of the operation are not all known.
    pub unknown: bool,
    pub network: bool,
    pub spawn: bool,
    pub clock: bool,
    pub confidence: EffectConfidence,
}

/// The effects of one operation, as a value.
#[verifier::ext_equal]
pub ghost struct Effects {
    pub deterministic: bool,
    pub fallibility: Fallibility,
    pub reads: Set<Resource>,
    pub writes: Set<Resource>,
    pub actor: Option<Actor>,
    pub unknown: bool,
    pub network: bool,
    pub spawn: bool,
    pub clock: bool,
    pub confidence: EffectConfidence,
}

impl View for EffectSummary {
    type V = Effects;

    open spec fn view(&self) -> Effects {
        Effects {
            deterministic: self.deterministic,
            fallibility: self.fallibility,
            reads: self.reads@,
            writes: self.writes@,
            actor: match self.actor_state {
                Some(actor) => Some(actor@),
                None => None,
            },
            unknown: self.unknown,
            network: self.network,
            spawn: self.spawn,
            clock: self.clock,
            confidence: self.confidence,
        }
    }
}

impl Clone for EffectSummary {
    fn clone(&self) -> (r: Self)
        ensures
            r@ == self@,
    {
        let r = EffectSummary {
            deterministic: self.deterministic,
            fallibility: self.fallibility,
            reads: self.reads.clone(),
            writes: self.writes.clone(),
            actor_state: match &self.actor_state {
                Some(actor) => Some(actor.clone()),
                None => None,
            },
            unknown: self.unknown,
            network: self.network,
            spawn: self.spawn,
            clock: self.clock,
            confidence: self.confidence,
        };
        assert(r@ =~= self@);
        r
    }
}

/// Whether two sets share a resource, or both reach the network.
pub open spec fn overlaps(left: Set<Resource>, right: Set<Resource>) -> bool {
    ||| exists|x: Resource| #[trigger] left.contains(x) && right.contains(x)
    ||| (any_network(left) && any_network(right))
}

/// Whether some resource is a network endpoint, known or not.
pub open spec fn any_network(set: Set<Resource>) -> bool {
    exists|x: Resource| #[trigger] set.contains(x) && x.network()
}

/// Whether some resource is host-observable state.
pub open spec fn any_host(set: Set<Resource>) -> bool {
    exists|x: Resource| #[trigger] set.contains(x) && x.host()
}

impl Effects {
    /// Verified, deterministic, infallible work without resources.
    pub open spec fn pure() -> Effects {
        Effects {
            deterministic: true,
            fallibility: Fallibility::Infallible,
            reads: Set::empty(),
            writes: Set::empty(),
            actor: None,
            unknown: false,
            network: false,
            spawn: false,
            clock: false,
            confidence: EffectConfidence::Verified,
        }
    }

    /// Unknown hosted work.
    pub open spec fn unknown() -> Effects {
        Effects {
            deterministic: false,
            fallibility: Fallibility::MayFail,
            reads: set![Resource::HostWorld],
            writes: set![Resource::HostWorld],
            actor: None,
            unknown: true,
            network: false,
            spawn: false,
            clock: false,
            confidence: EffectConfidence::Conservative,
        }
    }

    /// Unknown hosted work that may also touch the state of the evaluator.
    pub open spec fn conservative_evaluator() -> Effects {
        Effects {
            reads: set![Resource::HostWorld, Resource::EvaluatorState],
            writes: set![Resource::HostWorld, Resource::EvaluatorState],
            ..Effects::unknown()
        }
    }

    /// These effects on an actor in place of the one they had.
    pub open spec fn with_actor(self, actor: Actor) -> Effects {
        let (reads, writes) = match self.actor {
            Some(previous) => (
                self.reads.remove(Resource::ActorState(previous)),
                self.writes.remove(Resource::ActorState(previous)),
            ),
            None => (self.reads, self.writes),
        };
        Effects {
            reads: reads.insert(Resource::ActorState(actor)),
            writes: writes.insert(Resource::ActorState(actor)),
            actor: Some(actor),
            ..self
        }
    }

    /// All resources read or written. An exact endpoint takes part in the
    /// shared state of the unknown network.
    pub open spec fn accessed(self) -> Set<Resource> {
        let all = self.reads.union(self.writes);
        if exists|x: Resource| #[trigger] all.contains(x) && x is Network {
            all.insert(Resource::NetworkUnknown)
        } else {
            all
        }
    }

    /// Whether a worker may run the operation without asking.
    pub open spec fn verified_pure_infallible(self) -> bool {
        &&& self.confidence is Verified
        &&& self.deterministic
        &&& self.fallibility is Infallible
        &&& !self.unknown
        &&& self.actor is None
        &&& self.reads == Set::<Resource>::empty()
        &&& self.writes == Set::<Resource>::empty()
        &&& !self.network
        &&& !self.spawn
        &&& !self.clock
    }

    pub open spec fn touches_host_world(self) -> bool {
        self.reads.contains(Resource::HostWorld) || self.writes.contains(Resource::HostWorld)
    }

    pub open spec fn touches_any_host_resource(self) -> bool {
        any_host(self.reads) || any_host(self.writes)
    }

    /// Whether two operations must not be reordered.
    pub open spec fn conflicts(self, other: Effects) -> bool {
        ||| (self.actor is Some && self.actor == other.actor)
        ||| (self.touches_host_world() && other.touches_any_host_resource())
        ||| (other.touches_host_world() && self.touches_any_host_resource())
        ||| overlaps(self.writes, other.writes)
        ||| overlaps(self.writes, other.reads)
        ||| overlaps(other.writes, self.reads)
    }

    /// Whether these effects promise no more than `base` does.
    pub open spec fn at_least(self, base: Effects) -> bool {
        &&& self.deterministic ==> base.deterministic
        &&& self.fallibility is Infallible ==> base.fallibility is Infallible
        &&& base.unknown ==> self.unknown
        &&& base.reads.subset_of(self.reads)
        &&& base.writes.subset_of(self.writes)
        &&& self.actor == base.actor
        &&& self.network == base.network
        &&& self.spawn == base.spawn
        &&& self.clock == base.clock
        &&& self.confidence is Verified ==> base.confidence is Verified
    }
}

impl EffectSummary {
    /// Verified, deterministic, infallible, resource-free work.
    pub fn pure() -> (r: EffectSummary)
        ensures
            r@ == Effects::pure(),
    {
        EffectSummary {
            deterministic: true,
            fallibility: Fallibility::Infallible,
            reads: ResourceSet::new(),
            writes: ResourceSet::new(),
            actor_state: None,
            unknown: false,
            network: false,
            spawn: false,
            clock: false,
            confidence: EffectConfidence::Verified,
        }
    }

    /// Unknown hosted work. Unknown always reads and writes `HostWorld`.
    pub fn unknown() -> (r: EffectSummary)
        ensures
            r@ == Effects::unknown(),
    {
        let mut reads = ResourceSet::new();
        reads.insert(ResourceKey::HostWorld);
        let mut writes = ResourceSet::new();
        writes.insert(ResourceKey::HostWorld);
        EffectSummary {
            deterministic: false,
            fallibility: Fallibility::MayFail,
            reads,
            writes,
            actor_state: None,
            unknown: true,
            network: false,
            spawn: false,
            clock: false,
            confidence: EffectConfidence::Conservative,
        }
    }

    /// Unknown hosted work that may also inspect or mutate evaluator state.
    pub fn conservative_evaluator() -> (r: EffectSummary)
        ensures
            r@ == Effects::conservative_evaluator(),
    {
        let mut summary = EffectSummary::unknown();
        summary.reads.insert(ResourceKey::EvaluatorState);
        summary.writes.insert(ResourceKey::EvaluatorState);
        assert(summary@ =~= Effects::conservative_evaluator());
        summary
    }

    /// Attaches a persistent actor-state transition.
    pub fn with_actor_state(self, actor: ActorResourceId) -> (r: EffectSummary)
        ensures
            r@ == self@.with_actor(actor@),
    {
        let mut summary = self;
        if let Some(previous) = &summary.actor_state {
            let key = ResourceKey::ActorState(previous.clone());
            summary.reads.remove(&key);
            summary.writes.remove(&key);
        }
        summary.reads.insert(ResourceKey::ActorState(actor.clone()));
        summary.writes.insert(ResourceKey::ActorState(actor.clone()));
        summary.actor_state = Some(actor);
        assert(summary@ =~= self@.with_actor(actor@));
        summary
    }

    /// Union of read and write resource identities.
    pub fn resource_union(&self) -> (r: ResourceSet)
        ensures
            r@ == self@.accessed(),
    {
        let mut all = self.reads.clone();
        all.extend(&self.writes);
        if all.any_endpoint() {
            all.insert(ResourceKey::NetworkUnknown);
        }
        all
    }

    /// Another name for [`Self::resource_union`].
    pub fn resources(&self) -> (r: ResourceSet)
        ensures
            r@ == self@.accessed(),
    {
        self.resource_union()
    }

    /// All resources accessed by this operation.
    pub fn accessed_resources(&self) -> (r: ResourceSet)
        ensures
            r@ == self@.accessed(),
    {
        self.resource_union()
    }

    /// Whether a worker may run the operation without asking.
    pub fn is_verified_pure_infallible(&self) -> (r: bool)
        ensures
            r == self@.verified_pure_infallible(),
    {
        self.confidence == EffectConfidence::Verified && self.deterministic && self.fallibility
            == Fallibility::Infallible && !self.unknown && self.actor_state.is_none()
            && self.reads.is_empty() && self.writes.is_empty() && !self.network && !self.spawn
            && !self.clock
    }

    fn touches_host_world(&self) -> (r: bool)
        ensures
            r == self@.touches_host_world(),
    {
        self.reads.contains(&ResourceKey::HostWorld) || self.writes.contains(
            &ResourceKey::HostWorld,
        )
    }

    fn touches_any_host_resource(&self) -> (r: bool)
        ensures
            r == self@.touches_any_host_resource(),
    {
        self.reads.any_host() || self.writes.any_host()
    }

    /// Whether two operations must not be reordered.
    pub fn conflicts_with(&self, other: &EffectSummary) -> (r: bool)
        ensures
            r == self@.conflicts(other@),
    {
        if let (Some(left), Some(right)) = (&self.actor_state, &other.actor_state) {
            if left.same(right) {
                return true;
            }
        }
        if (self.touches_host_world() && other.touches_any_host_resource()) || (
        other.touches_host_world() && self.touches_any_host_resource()) {
            return true;
        }
        resource_conflict(&self.writes, &other.writes) || resource_conflict(
            &self.writes,
            &other.reads,
        ) || resource_conflict(&other.writes, &self.reads)
    }
}

fn resource_conflict(left: &ResourceSet, right: &ResourceSet) -> (r: bool)
    ensures
        r == overlaps(left@, right@),
{
    left.meets(right) || (left.any_network() && right.any_network())
}

/// Conflicts go both ways.
pub proof fn conflicts_are_symmetric(a: Effects, b: Effects)
    ensures
        a.conflicts(b) == b.conflicts(a),
{
    lemma_overlaps_symmetric(a.writes, b.writes);
}

proof fn lemma_overlaps_symmetric(left: Set<Resource>, right: Set<Resource>)
    ensures
        overlaps(left, right) == overlaps(right, left),
{
    if exists|x: Resource| #[trigger] left.contains(x) && right.contains(x) {
        let x = choose|x: Resource| #[trigger] left.contains(x) && right.contains(x);
        assert(right.contains(x) && left.contains(x));
    }
    if exists|x: Resource| #[trigger] right.contains(x) && left.contains(x) {
        let x = choose|x: Resource| #[trigger] right.contains(x) && left.contains(x);
        assert(left.contains(x) && right.contains(x));
    }
}

/// Unknown work conflicts with everything that touches the host.
pub proof fn unknown_work_conflicts_with_the_host(other: Effects)
    requires
        other.touches_any_host_resource(),
    ensures
        Effects::unknown().conflicts(other),
{
}

/// Network access conflicts with any network write, whatever the endpoints.
pub proof fn network_endpoints_alias(writer: Effects, other: Effects)
    requires
        any_network(writer.writes),
        any_network(other.reads) || any_network(other.writes),
    ensures
        writer.conflicts(other),
{
}

/// Work that is verified pure conflicts with nothing.
pub proof fn pure_work_conflicts_with_nothing(a: Effects, b: Effects)
    requires
        a.verified_pure_infallible(),
    ensures
        !a.conflicts(b),
{
}

/// Governed state is not the host's: work that touches nothing else conflicts
/// with no work that touches the host alone.
pub proof fn governed_state_is_not_the_host(a: Effects, b: Effects)
    requires
        a.actor is None,
        forall|x: Resource| #[trigger] a.reads.union(a.writes).contains(x) ==> x.governed(),
        forall|x: Resource| #[trigger] b.reads.union(b.writes).contains(x) ==> x.host(),
    ensures
        !a.conflicts(b),
{
    assert forall|x: Resource| #[trigger] a.reads.contains(x) implies x.governed() by {
        assert(a.reads.union(a.writes).contains(x));
    }
    assert forall|x: Resource| #[trigger] a.writes.contains(x) implies x.governed() by {
        assert(a.reads.union(a.writes).contains(x));
    }
    assert forall|x: Resource| #[trigger] b.reads.contains(x) implies x.host() by {
        assert(b.reads.union(b.writes).contains(x));
    }
    assert forall|x: Resource| #[trigger] b.writes.contains(x) implies x.host() by {
        assert(b.reads.union(b.writes).contains(x));
    }
}

/// What a source declares of an operation's purity.
#[derive(Clone, Copy, Debug, PartialEq, Eq, Structural)]
pub enum DeclaredPurity {
    Pure,
    Unknown,
}

/// Source-level constraints on an operation's effects.
#[derive(Debug, PartialEq, Eq)]
pub struct EffectDeclaration {
    pub purity: Option<DeclaredPurity>,
    pub reads: ResourceSet,
    pub writes: ResourceSet,
    pub serial_host: bool,
}

/// Source-level constraints, as a value.
#[verifier::ext_equal]
pub ghost struct Declaration {
    pub purity: Option<DeclaredPurity>,
    pub reads: Set<Resource>,
    pub writes: Set<Resource>,
    pub serial_host: bool,
}

impl View for EffectDeclaration {
    type V = Declaration;

    open spec fn view(&self) -> Declaration {
        Declaration {
            purity: self.purity,
            reads: self.reads@,
            writes: self.writes@,
            serial_host: self.serial_host,
        }
    }
}

impl Clone for EffectDeclaration {
    fn clone(&self) -> (r: Self)
        ensures
            r@ == self@,
    {
        let r = EffectDeclaration {
            purity: self.purity,
            reads: self.reads.clone(),
            writes: self.writes.clone(),
            serial_host: self.serial_host,
        };
        assert(r@ =~= self@);
        r
    }
}

impl Declaration {
    /// No constraint.
    pub open spec fn none() -> Declaration {
        Declaration {
            purity: None,
            reads: Set::empty(),
            writes: Set::empty(),
            serial_host: false,
        }
    }

    /// Whether the declaration names host-observable state.
    pub open spec fn names_host(self) -> bool {
        self.serial_host || any_host(self.reads) || any_host(self.writes)
    }

    /// Whether the declaration names any resource.
    pub open spec fn names_resources(self) -> bool {
        self.serial_host || self.reads != Set::<Resource>::empty() || self.writes != Set::<
            Resource,
        >::empty()
    }

    /// The effects of an operation under this declaration.
    pub open spec fn applied(self, base: Effects) -> Effects {
        let pure_before = base.verified_pure_infallible();
        let unknown = self.purity == Some(DeclaredPurity::Unknown);
        let umbrella = unknown || self.serial_host || (pure_before && self.names_host());
        let host = if umbrella {
            set![Resource::HostWorld]
        } else {
            Set::empty()
        };
        Effects {
            deterministic: base.deterministic && !unknown,
            fallibility: if unknown {
                Fallibility::MayFail
            } else {
                base.fallibility
            },
            reads: base.reads.union(self.reads).union(host),
            writes: base.writes.union(self.writes).union(host),
            unknown: base.unknown || unknown,
            confidence: if unknown {
                EffectConfidence::Conservative
            } else if pure_before && self.names_resources() {
                EffectConfidence::UserDeclared
            } else {
                base.confidence
            },
            ..base
        }
    }

    /// Whether the declaration may be applied at all.
    pub open spec fn admissible(self, base: Effects) -> bool {
        self.purity == Some(DeclaredPurity::Pure) ==> base.verified_pure_infallible()
    }
}

/// What is said of a purity that was not verified.
pub open spec fn upgrade_refused() -> Seq<char> {
    "`effects=pure` cannot upgrade an unverified, effectful, or fallible operation"@
}

/// The resource that an item of a declaration names, or what is wrong with it.
pub open spec fn resource_named(item: Seq<char>) -> Result<Resource, Seq<char>> {
    if item == "stdio"@ {
        Ok(Resource::Stdio)
    } else if item == "network:*"@ || item == "network"@ {
        Ok(Resource::NetworkUnknown)
    } else if item == "host:*"@ || item == "hostworld"@ {
        Ok(Resource::HostWorld)
    } else if item == "evaluator"@ {
        Ok(Resource::EvaluatorState)
    } else {
        let colon = position_from(item, 0, ':');
        if colon >= item.len() {
            Err("invalid resource `"@ + item + "`; expected `kind:value`"@)
        } else if colon + 1 >= item.len() {
            Err("resource `"@ + item + "` has an empty identity"@)
        } else {
            kind_named(item, item.take(colon), item.skip(colon + 1))
        }
    }
}

/// The resource of the given kind and value.
pub open spec fn kind_named(item: Seq<char>, kind: Seq<char>, value: Seq<char>) -> Result<
    Resource,
    Seq<char>,
> {
    if kind == "project"@ {
        if value[0] == '/' {
            Err("project resource `"@ + value + "` must be relative to the project root"@)
        } else {
            Ok(Resource::ProjectPath(value))
        }
    } else if kind == "host"@ {
        Ok(Resource::HostPath(value))
    } else if kind == "env"@ {
        if identifier(value) {
            Ok(Resource::EnvVar(value))
        } else {
            Err("invalid environment variable `"@ + value + "`"@)
        }
    } else if kind == "scope"@ {
        if identifier(value) {
            Ok(Resource::ScopeBinding(value))
        } else {
            Err("invalid scope binding `"@ + value + "`"@)
        }
    } else if kind == "network"@ {
        Ok(Resource::Network(value))
    } else if kind == "service"@ {
        Ok(Resource::Service(value))
    } else if kind == "actor"@ {
        match actor_named(value) {
            Ok(actor) => Ok(Resource::ActorState(actor)),
            Err(error) => Err(error),
        }
    } else {
        Err(
            "unknown resource kind `"@ + kind + "` in `"@ + item
                + "`; expected project, host, env, scope, network, service, or actor"@,
        )
    }
}

/// The actor that `language[environment]` names, or what is wrong with it.
pub open spec fn actor_named(value: Seq<char>) -> Result<Actor, Seq<char>> {
    let open = last_position(value.drop_last(), '[');
    if value.len() == 0 || value.last() != ']' || open < 0 {
        Err("invalid actor resource `"@ + value + "`; expected `language[environment]`"@)
    } else {
        let language = value.take(open);
        let number = value.subrange(open + 1, value.len() - 1);
        if language.len() == 0 {
            Err("actor resource language must not be empty"@)
        } else if unsigned(number) is None || unsigned(number)->Some_0 > u32::MAX {
            Err("invalid actor environment `"@ + number + "`"@)
        } else if unsigned(number)->Some_0 == u32::MAX {
            Err("actor resources require an explicit persistent environment"@)
        } else {
            Ok(Actor { language, environment: unsigned(number)->Some_0 as u32 })
        }
    }
}

proof fn lemma_actor_reads_back(actor: Actor)
    requires
        actor.language.len() > 0,
        actor.environment != u32::MAX,
    ensures
        actor_named(actor.text()) == Ok::<Actor, Seq<char>>(actor),
{
    reveal_strlit("[");
    reveal_strlit("]");
    let number = decimal(actor.environment as nat);
    let value = actor.text();
    let open = actor.language.len() as int;
    decimal_spells(actor.environment as nat);
    assert(value =~= actor.language + seq!['['] + number + seq![']']);
    let inner = value.drop_last();
    assert(inner =~= actor.language + seq!['['] + number);
    lemma_last_position(inner, '[');
    assert(inner[open] == '[');
    assert forall|j: int| open < j < inner.len() implies inner[j] != '[' by {
        assert(inner[j] == number[j - open - 1]);
    }
    assert(last_position(inner, '[') == open);
    assert(value.take(open) =~= actor.language);
    assert(value.subrange(open + 1, value.len() - 1) =~= number);
    assert(number[0] != '+');
}

/// The text of a resource that a declaration can name, but for the host world
/// and the evaluator's state, names that resource again.
pub proof fn resource_names_read_back(item: Seq<char>)
    requires
        resource_named(item) matches Ok(resource) && !(resource is HostWorld) && !(resource
            is EvaluatorState),
    ensures
        resource_named(resource_named(item)->Ok_0.text()) == resource_named(item),
{
    let resource = resource_named(item)->Ok_0;
    reveal_strlit("stdio");
    reveal_strlit("network:*");
    assert("stdio"@[0] == 's');
    assert("network:*"@[0] == 'n');
    if item != "stdio"@ && item != "network:*"@ && item != "network"@ {
        reveal_strlit("project");
        reveal_strlit("project:");
        reveal_strlit("host");
        reveal_strlit("host:");
        reveal_strlit("env");
        reveal_strlit("env:");
        reveal_strlit("scope");
        reveal_strlit("scope:");
        reveal_strlit("network");
        reveal_strlit("network:");
        reveal_strlit("service");
        reveal_strlit("service:");
        let colon = position_from(item, 0, ':');
        lemma_position_from(item, 0, ':');
        let kind = item.take(colon);
        let value = item.skip(colon + 1);
        assert(item[colon] == ':');
        assert(item =~= kind + seq![':'] + value);
        if resource is ActorState {
            lemma_actor_name_reads_back(resource->ActorState_0);
        } else {
            assert(resource.text() =~= item);
        }
    }
}

proof fn lemma_actor_name_reads_back(actor: Actor)
    requires
        actor.language.len() > 0,
        actor.environment != u32::MAX,
    ensures
        resource_named(Resource::ActorState(actor).text()) == Ok::<Resource, Seq<char>>(
            Resource::ActorState(actor),
        ),
{
    reveal_strlit("actor");
    reveal_strlit("actor:");
    reveal_strlit("stdio");
    reveal_strlit("network:*");
    reveal_strlit("network");
    reveal_strlit("host:*");
    reveal_strlit("hostworld");
    reveal_strlit("evaluator");
    reveal_strlit("project");
    reveal_strlit("host");
    reveal_strlit("env");
    reveal_strlit("scope");
    reveal_strlit("service");
    let text = Resource::ActorState(actor).text();
    assert(text[0] == 'a');
    assert("stdio"@[0] == 's');
    assert("network:*"@[0] == 'n');
    assert("network"@[0] == 'n');
    assert("host:*"@[0] == 'h');
    assert("hostworld"@[0] == 'h');
    assert("evaluator"@[0] == 'e');
    assert(text[5] == ':');
    lemma_position_is(text, 0, ':', 5);
    assert(text.take(5) =~= "actor"@);
    assert(text.skip(6) =~= actor.text());
    assert("actor"@[0] == 'a');
    assert("project"@[0] == 'p');
    assert("host"@[0] == 'h');
    assert("env"@[0] == 'e');
    assert("scope"@[0] == 's');
    assert("service"@[0] == 's');
    lemma_actor_reads_back(actor);
}

/// The resources that a list of items names.
pub open spec fn items_named(list: Seq<char>, items: Seq<Seq<char>>) -> Result<
    Set<Resource>,
    Seq<char>,
>
    decreases items.len(),
{
    if items.len() == 0 {
        Ok(Set::empty())
    } else {
        match items_named(list, items.drop_last()) {
            Err(error) => Err(error),
            Ok(set) => {
                let item = trim(items.last());
                if item.len() == 0 {
                    Err("empty resource in `"@ + list + "`"@)
                } else {
                    match resource_named(item) {
                        Ok(resource) => Ok(set.insert(resource)),
                        Err(error) => Err(error),
                    }
                }
            },
        }
    }
}

/// The resources that a declaration's list names.
pub open spec fn resources_named(list: Seq<char>) -> Result<Set<Resource>, Seq<char>> {
    if trim(list).len() == 0 {
        Err("resource declaration must not be empty"@)
    } else {
        items_named(list, split_by(list, separators(seq!['+', ';'], false)))
    }
}

/// What has been declared so far, and which keys have been seen.
pub ghost struct Reading {
    pub declaration: Declaration,
    pub effects: bool,
    pub reads: bool,
    pub writes: bool,
    pub serial: bool,
}

impl Reading {
    pub open spec fn start() -> Reading {
        Reading {
            declaration: Declaration::none(),
            effects: false,
            reads: false,
            writes: false,
            serial: false,
        }
    }

    /// Reads one trimmed entry of a block attribute.
    pub open spec fn read(self, entry: Seq<char>) -> Result<Reading, Seq<char>> {
        if entry.len() == 0 {
            Err("empty block effect attribute"@)
        } else if let Some(value) = after_prefix(entry, "effects="@) {
            if self.effects {
                Err("duplicate `effects=` declaration"@)
            } else if value == "pure"@ {
                Ok(
                    Reading {
                        effects: true,
                        declaration: Declaration {
                            purity: Some(DeclaredPurity::Pure),
                            ..self.declaration
                        },
                        ..self
                    },
                )
            } else if value == "unknown"@ {
                Ok(
                    Reading {
                        effects: true,
                        declaration: Declaration {
                            purity: Some(DeclaredPurity::Unknown),
                            ..self.declaration
                        },
                        ..self
                    },
                )
            } else {
                Err(
                    "invalid effect classification `"@ + value
                        + "`; expected `pure` or `unknown`"@,
                )
            }
        } else if let Some(value) = after_prefix(entry, "reads="@) {
            if self.reads {
                Err("duplicate `reads=` declaration"@)
            } else {
                match resources_named(value) {
                    Err(error) => Err(error),
                    Ok(set) => Ok(
                        Reading {
                            reads: true,
                            declaration: Declaration { reads: set, ..self.declaration },
                            ..self
                        },
                    ),
                }
            }
        } else if let Some(value) = after_prefix(entry, "writes="@) {
            if self.writes {
                Err("duplicate `writes=` declaration"@)
            } else {
                match resources_named(value) {
                    Err(error) => Err(error),
                    Ok(set) => Ok(
                        Reading {
                            writes: true,
                            declaration: Declaration { writes: set, ..self.declaration },
                            ..self
                        },
                    ),
                }
            }
        } else if let Some(value) = after_prefix(entry, "serial="@) {
            if self.serial {
                Err("duplicate `serial=` declaration"@)
            } else if value != "host"@ {
                Err("invalid serialization domain `"@ + value + "`; expected `host`"@)
            } else {
                Ok(
                    Reading {
                        serial: true,
                        declaration: Declaration { serial_host: true, ..self.declaration },
                        ..self
                    },
                )
            }
        } else {
            Ok(self)
        }
    }

    /// Reads entries, one after the other.
    pub open spec fn read_all(entries: Seq<Seq<char>>) -> Result<Reading, Seq<char>>
        decreases entries.len(),
    {
        if entries.len() == 0 {
            Ok(Reading::start())
        } else {
            match Reading::read_all(entries.drop_last()) {
                Err(error) => Err(error),
                Ok(reading) => reading.read(trim(entries.last())),
            }
        }
    }
}

/// The entries of a block attribute.
pub open spec fn entries_of(attr: Seq<char>) -> Seq<Seq<char>> {
    split_by(attr, separators(seq![','], false))
}

/// What a block attribute declares, or what is wrong with it.
pub open spec fn declared(attr: Option<Seq<char>>) -> Result<Declaration, Seq<char>> {
    match attr {
        None => Ok(Declaration::none()),
        Some(text) => match Reading::read_all(entries_of(text)) {
            Ok(reading) => Ok(reading.declaration),
            Err(error) => Err(error),
        },
    }
}

/// The text of an attribute that may be missing.
pub open spec fn text_of(attr: Option<&str>) -> Option<Seq<char>> {
    match attr {
        Some(text) => Some(text@),
        None => None,
    }
}

fn whole(s: &[char]) -> (out: String)
    ensures
        out@ == s@,
{
    let out = string_of(s, 0, s.len());
    assert(out@ =~= s@);
    out
}

/// `before`, the characters of `s`, `after`.
fn around(before: &str, s: &[char], after: &str) -> (out: String)
    ensures
        out@ == before@ + s@ + after@,
{
    let mut out = before.to_owned();
    out.append(whole(s).as_str());
    out.append(after);
    out
}

fn is_identifier(s: &[char]) -> (r: bool)
    ensures
        r == identifier(s@),
{
    if s.len() == 0 || !begins_ident(s[0]) {
        return false;
    }
    let mut i: usize = 0;
    while i < s.len()
        invariant
            i <= s@.len(),
            forall|j: int| 0 <= j < i ==> ident_char(#[trigger] s@[j]),
        decreases s@.len() - i,
    {
        if !continues_ident(s[i]) {
            assert(!ident_char(s@[i as int]));
            return false;
        }
        i += 1;
    }
    true
}

fn parse_actor_resource(value: &[char]) -> (r: Result<ActorResourceId, String>)
    ensures
        match r {
            Ok(actor) => actor_named(value@) == Ok::<Actor, Seq<char>>(actor@),
            Err(error) => actor_named(value@) == Err::<Actor, Seq<char>>(error@),
        },
{
    let n: usize = value.len();
    if n > 0 && value[n - 1] == ']' {
        let head = slice_subrange(value, 0, n - 1);
        assert(head@ =~= value@.drop_last());
        if let Some(open) = crate::files::find_last(head, '[') {
            if open == 0 {
                assert(value@.take(0).len() == 0);
                return Err("actor resource language must not be empty".to_owned());
            }
            let number = slice_subrange(value, open + 1, n - 1);
            return match parse_bounded(number, u32::MAX as u64) {
                None => Err(around("invalid actor environment `", number, "`")),
                Some(environment) => if environment == u32::MAX as u64 {
                    Err("actor resources require an explicit persistent environment".to_owned())
                } else {
                    let language = string_of(value, 0, open);
                    assert(language@ =~= value@.take(open as int));
                    Ok(ActorResourceId::new(language.as_str(), environment as u32))
                },
            };
        }
    }
    Err(around("invalid actor resource `", value, "`; expected `language[environment]`"))
}

/// The resource that a text names, or why it names none.
pub fn parse_resource(item: &str) -> (r: Result<ResourceKey, String>)
    ensures
        match r {
            Ok(key) => resource_named(item@) == Ok::<Resource, Seq<char>>(key@),
            Err(error) => resource_named(item@) == Err::<Resource, Seq<char>>(error@),
        },
{
    read_resource(chars_of(item).as_slice())
}

fn read_resource(item: &[char]) -> (r: Result<ResourceKey, String>)
    ensures
        match r {
            Ok(key) => resource_named(item@) == Ok::<Resource, Seq<char>>(key@),
            Err(error) => resource_named(item@) == Err::<Resource, Seq<char>>(error@),
        },
{
    if eq_str_chars("stdio", item) {
        return Ok(ResourceKey::Stdio);
    }
    if eq_str_chars("network:*", item) || eq_str_chars("network", item) {
        return Ok(ResourceKey::NetworkUnknown);
    }
    if eq_str_chars("host:*", item) || eq_str_chars("hostworld", item) {
        return Ok(ResourceKey::HostWorld);
    }
    if eq_str_chars("evaluator", item) {
        return Ok(ResourceKey::EvaluatorState);
    }
    let colon = find_char(item, 0, ':');
    if colon >= item.len() {
        return Err(around("invalid resource `", item, "`; expected `kind:value`"));
    }
    let kind = slice_subrange(item, 0, colon);
    let value = slice_subrange(item, colon + 1, item.len());
    assert(kind@ =~= item@.take(colon as int));
    assert(value@ =~= item@.skip(colon + 1));
    if value.len() == 0 {
        return Err(around("resource `", item, "` has an empty identity"));
    }
    if eq_str_chars("project", kind) {
        if value[0] == '/' {
            return Err(
                around("project resource `", value, "` must be relative to the project root"),
            );
        }
        Ok(ResourceKey::ProjectPath(whole(value)))
    } else if eq_str_chars("host", kind) {
        Ok(ResourceKey::HostPath(whole(value)))
    } else if eq_str_chars("env", kind) {
        if !is_identifier(value) {
            return Err(around("invalid environment variable `", value, "`"));
        }
        Ok(ResourceKey::EnvVar(whole(value)))
    } else if eq_str_chars("scope", kind) {
        if !is_identifier(value) {
            return Err(around("invalid scope binding `", value, "`"));
        }
        Ok(ResourceKey::ScopeBinding(whole(value)))
    } else if eq_str_chars("network", kind) {
        Ok(ResourceKey::Network(whole(value)))
    } else if eq_str_chars("service", kind) {
        Ok(ResourceKey::Service(whole(value)))
    } else if eq_str_chars("actor", kind) {
        match parse_actor_resource(value) {
            Ok(actor) => Ok(ResourceKey::ActorState(actor)),
            Err(error) => Err(error),
        }
    } else {
        let mut error = around("unknown resource kind `", kind, "` in `");
        error.append(whole(item).as_str());
        error.append("`; expected project, host, env, scope, network, service, or actor");
        Err(error)
    }
}

fn parse_resources(list: &[char]) -> (r: Result<ResourceSet, String>)
    ensures
        match r {
            Ok(set) => resources_named(list@) == Ok::<Set<Resource>, Seq<char>>(set@),
            Err(error) => resources_named(list@) == Err::<Set<Resource>, Seq<char>>(error@),
        },
{
    if trim_slice(list).len() == 0 {
        return Err("resource declaration must not be empty".to_owned());
    }
    let marks: Vec<char> = vec!['+', ';'];
    assert(marks@ =~= seq!['+', ';']);
    let items = split(list, marks.as_slice(), false);
    let ghost all = texts(items@);
    assert(all.len() == items@.len());
    let mut set = ResourceSet::new();
    let mut i: usize = 0;
    assert(all.take(0).len() == 0);
    while i < items.len()
        invariant
            i <= items@.len(),
            all == texts(items@),
            all.len() == items@.len(),
            all == split_by(list@, separators(seq!['+', ';'], false)),
            trim(list@).len() > 0,
            items_named(list@, all.take(i as int)) == Ok::<Set<Resource>, Seq<char>>(set@),
        decreases items@.len() - i,
    {
        let item = trim_slice(items[i].as_slice());
        proof {
            assert(all.take(i + 1).drop_last() =~= all.take(i as int));
            assert(all.take(i + 1).last() == items@[i as int]@);
        }
        let found = if item.len() == 0 {
            Err(around("empty resource in `", list, "`"))
        } else {
            read_resource(item)
        };
        match found {
            Err(error) => {
                proof {
                    assert(items_named(list@, all.take(i + 1)) == Err::<Set<Resource>, Seq<char>>(
                        error@,
                    ));
                    lemma_items_fail(list@, all, i + 1);
                }
                return Err(error);
            },
            Ok(key) => {
                set.insert(key);
            },
        }
        i += 1;
    }
    assert(all.take(i as int) =~= all);
    Ok(set)
}

/// What is wrong with some items is wrong with the list.
proof fn lemma_items_fail(list: Seq<char>, items: Seq<Seq<char>>, k: int)
    requires
        0 <= k <= items.len(),
        items_named(list, items.take(k)) is Err,
    ensures
        items_named(list, items) == items_named(list, items.take(k)),
    decreases items.len() - k,
{
    if k == items.len() {
        assert(items.take(k) =~= items);
    } else {
        assert(items.take(k + 1).drop_last() =~= items.take(k));
        lemma_items_fail(list, items, k + 1);
    }
}

proof fn lemma_entries_fail(entries: Seq<Seq<char>>, k: int)
    requires
        0 <= k <= entries.len(),
        Reading::read_all(entries.take(k)) is Err,
    ensures
        Reading::read_all(entries) == Reading::read_all(entries.take(k)),
    decreases entries.len() - k,
{
    if k == entries.len() {
        assert(entries.take(k) =~= entries);
    } else {
        assert(entries.take(k + 1).drop_last() =~= entries.take(k));
        lemma_entries_fail(entries, k + 1);
    }
}

/// What has been declared so far, and which keys have been seen.
struct Reader {
    declaration: EffectDeclaration,
    effects: bool,
    reads: bool,
    writes: bool,
    serial: bool,
}

impl Reader {
    spec fn reading(self) -> Reading {
        Reading {
            declaration: self.declaration@,
            effects: self.effects,
            reads: self.reads,
            writes: self.writes,
            serial: self.serial,
        }
    }

    /// Reads one trimmed entry.
    fn read(&mut self, entry: &[char]) -> (r: Result<(), String>)
        ensures
            match r {
                Ok(_) => old(self).reading().read(entry@) == Ok::<Reading, Seq<char>>(
                    final(self).reading(),
                ),
                Err(error) => old(self).reading().read(entry@) == Err::<Reading, Seq<char>>(
                    error@,
                ),
            },
    {
        let ghost before = self.reading();
        if entry.len() == 0 {
            return Err("empty block effect attribute".to_owned());
        }
        if let Some(value) = crate::imports::strip(entry, "effects=") {
            if self.effects {
                return Err("duplicate `effects=` declaration".to_owned());
            }
            self.effects = true;
            if eq_str_chars("pure", value) {
                self.declaration.purity = Some(DeclaredPurity::Pure);
            } else if eq_str_chars("unknown", value) {
                self.declaration.purity = Some(DeclaredPurity::Unknown);
            } else {
                return Err(
                    around(
                        "invalid effect classification `",
                        value,
                        "`; expected `pure` or `unknown`",
                    ),
                );
            }
        } else if let Some(value) = crate::imports::strip(entry, "reads=") {
            if self.reads {
                return Err("duplicate `reads=` declaration".to_owned());
            }
            self.reads = true;
            match parse_resources(value) {
                Ok(set) => {
                    self.declaration.reads = set;
                },
                Err(error) => {
                    return Err(error);
                },
            }
        } else if let Some(value) = crate::imports::strip(entry, "writes=") {
            if self.writes {
                return Err("duplicate `writes=` declaration".to_owned());
            }
            self.writes = true;
            match parse_resources(value) {
                Ok(set) => {
                    self.declaration.writes = set;
                },
                Err(error) => {
                    return Err(error);
                },
            }
        } else if let Some(value) = crate::imports::strip(entry, "serial=") {
            if self.serial {
                return Err("duplicate `serial=` declaration".to_owned());
            }
            self.serial = true;
            if !eq_str_chars("host", value) {
                return Err(
                    around("invalid serialization domain `", value, "`; expected `host`"),
                );
            }
            self.declaration.serial_host = true;
        }
        Ok(())
    }
}

impl Default for EffectDeclaration {
    fn default() -> (r: EffectDeclaration)
        ensures
            r@ == Declaration::none(),
    {
        EffectDeclaration {
            purity: None,
            reads: ResourceSet::new(),
            writes: ResourceSet::new(),
            serial_host: false,
        }
    }
}

impl EffectDeclaration {
    pub fn is_empty(&self) -> (r: bool)
        ensures
            r == (self@ == Declaration::none()),
    {
        let r: bool = self.purity.is_none() && self.reads.is_empty() && self.writes.is_empty()
            && !self.serial_host;
        assert(r ==> self@ =~= Declaration::none());
        r
    }

    /// Whether an entry of a block attribute declares effects.
    pub fn recognizes_entry(entry: &str) -> (r: bool)
        ensures
            r == (starts_with(entry@, "effects="@) || starts_with(entry@, "reads="@)
                || starts_with(entry@, "writes="@) || starts_with(entry@, "serial="@)),
    {
        let chars = chars_of(entry);
        let s = chars.as_slice();
        crate::imports::strip(s, "effects=").is_some() || crate::imports::strip(
            s,
            "reads=",
        ).is_some() || crate::imports::strip(s, "writes=").is_some() || crate::imports::strip(
            s,
            "serial=",
        ).is_some()
    }

    /// Reads the effect entries of a comma-separated block attribute. Other
    /// entries are left to their own readers.
    pub fn parse(attr: Option<&str>) -> (r: Result<EffectDeclaration, String>)
        ensures
            match r {
                Ok(declaration) => declared(text_of(attr)) == Ok::<Declaration, Seq<char>>(
                    declaration@,
                ),
                Err(error) => declared(text_of(attr)) == Err::<Declaration, Seq<char>>(error@),
            },
    {
        let declaration = EffectDeclaration::default();
        let text = match attr {
            None => {
                return Ok(declaration);
            },
            Some(text) => text,
        };
        let chars = chars_of(text);
        let comma: Vec<char> = vec![','];
        assert(comma@ =~= seq![',']);
        let entries = split(chars.as_slice(), comma.as_slice(), false);
        let ghost all = texts(entries@);
        assert(all.len() == entries@.len());
        let mut reader = Reader {
            declaration,
            effects: false,
            reads: false,
            writes: false,
            serial: false,
        };
        let mut i: usize = 0;
        assert(all.take(0).len() == 0);
        while i < entries.len()
            invariant
                i <= entries@.len(),
                all == texts(entries@),
                all.len() == entries@.len(),
                all == entries_of(text@),
                attr == Some(text),
                Reading::read_all(all.take(i as int)) == Ok::<Reading, Seq<char>>(
                    reader.reading(),
                ),
            decreases entries@.len() - i,
        {
            proof {
                assert(all.take(i + 1).drop_last() =~= all.take(i as int));
                assert(all.take(i + 1).last() == entries@[i as int]@);
            }
            match reader.read(trim_slice(entries[i].as_slice())) {
                Ok(_) => {},
                Err(error) => {
                    proof {
                        assert(Reading::read_all(all.take(i + 1)) == Err::<Reading, Seq<char>>(
                            error@,
                        ));
                        lemma_entries_fail(all, i + 1);
                    }
                    return Err(error);
                },
            }
            i += 1;
        }
        assert(all.take(i as int) =~= all);
        Ok(reader.declaration)
    }

    /// Applies the declaration, as far as it only adds constraints.
    pub fn apply_checked(&self, base: EffectSummary, policy: EffectTrustPolicy) -> (r: Result<
        EffectSummary,
        String,
    >)
        ensures
            match r {
                Ok(summary) => self@.admissible(base@) && summary@ == self@.applied(base@),
                Err(error) => !self@.admissible(base@) && error@ == upgrade_refused(),
            },
    {
        match policy {
            EffectTrustPolicy::Strict => {},
        }
        let mut summary = base;
        let pure_before: bool = summary.is_verified_pure_infallible();
        let unknown: bool = match self.purity {
            Some(DeclaredPurity::Pure) => {
                if !pure_before {
                    return Err(
                        "`effects=pure` cannot upgrade an unverified, effectful, or fallible operation".to_owned(),
                    );
                }
                false
            },
            Some(DeclaredPurity::Unknown) => true,
            None => false,
        };
        if unknown {
            summary.deterministic = false;
            summary.fallibility = Fallibility::MayFail;
            summary.unknown = true;
            summary.confidence = EffectConfidence::Conservative;
        }
        let names_resources: bool = !self.reads.is_empty() || !self.writes.is_empty()
            || self.serial_host;
        let names_host: bool = self.serial_host || self.reads.any_host() || self.writes.any_host();
        summary.reads.extend(&self.reads);
        summary.writes.extend(&self.writes);
        // A declaration does not prove that the host footprint is complete: an
        // operation that had none stays tied to the host as a whole.
        if unknown || self.serial_host || (pure_before && names_host) {
            summary.reads.insert(ResourceKey::HostWorld);
            summary.writes.insert(ResourceKey::HostWorld);
        }
        if pure_before && names_resources && !unknown {
            summary.confidence = EffectConfidence::UserDeclared;
        }
        assert(summary@ =~= self@.applied(base@));
        Ok(summary)
    }
}

/// A declaration never weakens what was derived.
pub proof fn declarations_never_weaken(declaration: Declaration, base: Effects)
    ensures
        declaration.applied(base).at_least(base),
{
}

/// An operation that declares host-observable state conflicts with unknown
/// work, even if nothing was known of it before.
pub proof fn declared_host_state_stays_ordered(declaration: Declaration, base: Effects)
    requires
        declaration.names_host(),
    ensures
        declaration.applied(base).conflicts(Effects::unknown()),
{
    let after = declaration.applied(base);
    let unknown = Effects::unknown();
    assert(unknown.touches_host_world());
    if declaration.serial_host {
        assert(after.reads.contains(Resource::HostWorld) && Resource::HostWorld.host());
    } else if any_host(declaration.reads) {
        let x = choose|x: Resource| #[trigger] declaration.reads.contains(x) && x.host();
        assert(after.reads.contains(x));
    } else {
        let x = choose|x: Resource| #[trigger] declaration.writes.contains(x) && x.host();
        assert(after.writes.contains(x));
    }
}

/// Declaring an operation unknown gives it the effects of unknown work.
pub proof fn declared_unknown_is_unknown(declaration: Declaration, base: Effects)
    requires
        declaration.purity == Some(DeclaredPurity::Unknown),
    ensures
        declaration.applied(base).at_least(
            Effects { actor: base.actor, network: base.network, spawn: base.spawn, clock: base.clock, ..Effects::unknown() },
        ),
{
}

/// An empty declaration changes nothing.
pub proof fn empty_declarations_change_nothing(base: Effects)
    ensures
        Declaration::none().admissible(base),
        Declaration::none().applied(base) == base,
{
    assert(Declaration::none().applied(base) =~= base);
}

/// Source declarations name no governed resource.
pub proof fn declarations_name_nothing_governed(attr: Option<Seq<char>>, x: Resource)
    requires
        declared(attr) is Ok,
        declared(attr)->Ok_0.reads.contains(x) || declared(attr)->Ok_0.writes.contains(x),
    ensures
        !x.governed(),
{
    lemma_reading_not_governed(entries_of(attr->Some_0), x);
}

proof fn lemma_reading_not_governed(entries: Seq<Seq<char>>, x: Resource)
    ensures
        Reading::read_all(entries) matches Ok(reading) ==> (reading.declaration.reads.contains(x)
            || reading.declaration.writes.contains(x)) ==> !x.governed(),
    decreases entries.len(),
{
    if entries.len() > 0 {
        lemma_reading_not_governed(entries.drop_last(), x);
        let entry = trim(entries.last());
        if let Some(value) = after_prefix(entry, "reads="@) {
            lemma_items_not_governed(value, split_by(value, separators(seq!['+', ';'], false)), x);
        }
        if let Some(value) = after_prefix(entry, "writes="@) {
            lemma_items_not_governed(value, split_by(value, separators(seq!['+', ';'], false)), x);
        }
    }
}

proof fn lemma_items_not_governed(list: Seq<char>, items: Seq<Seq<char>>, x: Resource)
    ensures
        items_named(list, items) matches Ok(set) ==> set.contains(x) ==> !x.governed(),
    decreases items.len(),
{
    if items.len() > 0 {
        lemma_items_not_governed(list, items.drop_last(), x);
    }
}

/// Whether an attribute defers its block.
pub open spec fn deferred(attr: Option<Seq<char>>) -> bool {
    match attr {
        None => false,
        Some(text) => some_defers(entries_of(text)),
    }
}

/// Whether one of the entries of an attribute defers its block.
pub open spec fn some_defers(entries: Seq<Seq<char>>) -> bool {
    exists|i: int| 0 <= i < entries.len() && defers_block(#[trigger] entries[i])
}

/// Whether an entry of an attribute defers its block.
pub open spec fn defers_block(entry: Seq<char>) -> bool {
    trim(entry) == "lazy"@ || trim(entry) == "defer"@
}

/// Whether a backend is one of the renderers that are trusted to be pure.
pub open spec fn trusted_renderer(backend: BackendInterface) -> bool {
    &&& backend.pure
    &&& backend.execution == ExecutionMode::InlineValue
    &&& (backend.canonical@ == "html"@ || backend.canonical@ == "markdown"@ || backend.canonical@
        == "text"@ || backend.canonical@ == "latex"@)
}

/// Whether a backend is one of the renderers that are trusted to be pure.
pub fn is_trusted_renderer(backend: &BackendInterface) -> (r: bool)
    ensures
        r == trusted_renderer(*backend),
{
    backend.pure && backend.execution == ExecutionMode::InlineValue && (*backend.canonical.as_str()
        == *"html" || *backend.canonical.as_str() == *"markdown" || *backend.canonical.as_str()
        == *"text" || *backend.canonical.as_str() == *"latex")
}

fn defers(attr: &Option<String>) -> (r: bool)
    ensures
        r == deferred(attr_text(*attr)),
{
    let text = match attr {
        None => {
            return false;
        },
        Some(text) => text,
    };
    let chars = chars_of(text.as_str());
    let comma: Vec<char> = vec![','];
    assert(comma@ =~= seq![',']);
    let entries = split(chars.as_slice(), comma.as_slice(), false);
    let ghost all = texts(entries@);
    assert(all.len() == entries@.len());
    let mut i: usize = 0;
    while i < entries.len()
        invariant
            i <= entries@.len(),
            all == texts(entries@),
            all.len() == entries@.len(),
            all == entries_of(text@),
            attr_text(*attr) == Some(text@),
            forall|j: int|
                0 <= j < i ==> !defers_block(#[trigger] all[j]),
        decreases entries@.len() - i,
    {
        let entry = trim_slice(entries[i].as_slice());
        assert(all[i as int] == entries@[i as int]@);
        if eq_str_chars("lazy", entry) || eq_str_chars("defer", entry) {
            assert(defers_block(all[i as int]));
            return true;
        }
        i += 1;
    }
    false
}

/// The text of a stored attribute.
pub open spec fn attr_text(attr: Option<String>) -> Option<Seq<char>> {
    match attr {
        Some(text) => Some(text@),
        None => None,
    }
}

/// The effects of an executable block before its declaration.
pub open spec fn block_effects(
    env_id: u32,
    attr: Option<Seq<char>>,
    backend: BackendInterface,
) -> Effects {
    let base = if trusted_renderer(backend) && !deferred(attr) {
        Effects::pure()
    } else {
        Effects::conservative_evaluator()
    };
    if env_id != u32::MAX {
        base.with_actor(Actor { language: backend.canonical@, environment: env_id })
    } else {
        base
    }
}

/// The effects of one plan node, or what is wrong with its declaration.
pub open spec fn plan_node_effects(id: PlanNodeId, kind: PlanNodeKind) -> Result<
    Effects,
    Seq<char>,
> {
    match kind {
        PlanNodeKind::Text => Ok(Effects::pure()),
        PlanNodeKind::Load { name } => Ok(
            Effects {
                fallibility: Fallibility::MayFail,
                reads: set![Resource::ScopeBinding(name@)],
                ..Effects::pure()
            },
        ),
        PlanNodeKind::Store { name } => Ok(
            Effects { writes: set![Resource::ScopeBinding(name@)], ..Effects::pure() },
        ),
        PlanNodeKind::Group => Ok(Effects::pure()),
        PlanNodeKind::Call => Ok(Effects::conservative_evaluator()),
        PlanNodeKind::Request => Ok(Effects::conservative_evaluator()),
        PlanNodeKind::Schedule { kind: _ } => Ok(Effects::conservative_evaluator()),
        PlanNodeKind::Exec { env_id, attr, backend } => {
            let base = block_effects(env_id, attr_text(attr), backend);
            match declared(attr_text(attr)) {
                Err(error) => Err(node_error(id, error)),
                Ok(declaration) => if declaration.admissible(base) {
                    Ok(declaration.applied(base))
                } else {
                    Err(node_error(id, upgrade_refused()))
                },
            }
        },
    }
}

/// An error of one plan node.
pub open spec fn node_error(id: PlanNodeId, error: Seq<char>) -> Seq<char> {
    "plan node "@ + decimal(id.0 as nat) + ": "@ + error
}

fn about_node(id: PlanNodeId, error: &str) -> (out: String)
    ensures
        out@ == node_error(id, error@),
{
    let mut out = "plan node ".to_owned();
    push_decimal(&mut out, id.0 as u64);
    out.append(": ");
    out.append(error);
    out
}

/// Derives the conservative effects of one plan node.
pub fn effect_summary_for_plan_node(id: PlanNodeId, kind: &PlanNodeKind) -> (r: Result<
    EffectSummary,
    String,
>)
    ensures
        match r {
            Ok(summary) => plan_node_effects(id, *kind) == Ok::<Effects, Seq<char>>(summary@),
            Err(error) => plan_node_effects(id, *kind) == Err::<Effects, Seq<char>>(error@),
        },
{
    match kind {
        PlanNodeKind::Text => Ok(EffectSummary::pure()),
        PlanNodeKind::Load { name } => {
            let mut summary = EffectSummary::pure();
            summary.fallibility = Fallibility::MayFail;
            summary.reads.insert(ResourceKey::ScopeBinding(name.clone()));
            assert(plan_node_effects(id, *kind)->Ok_0 =~= summary@);
            Ok(summary)
        },
        PlanNodeKind::Store { name } => {
            let mut summary = EffectSummary::pure();
            summary.writes.insert(ResourceKey::ScopeBinding(name.clone()));
            assert(plan_node_effects(id, *kind)->Ok_0 =~= summary@);
            Ok(summary)
        },
        PlanNodeKind::Group => Ok(EffectSummary::pure()),
        PlanNodeKind::Call => Ok(EffectSummary::conservative_evaluator()),
        PlanNodeKind::Request => Ok(EffectSummary::conservative_evaluator()),
        PlanNodeKind::Schedule { kind: _ } => Ok(EffectSummary::conservative_evaluator()),
        PlanNodeKind::Exec { env_id, attr, backend } => {
            let mut summary = if is_trusted_renderer(backend) && !defers(attr) {
                EffectSummary::pure()
            } else {
                EffectSummary::conservative_evaluator()
            };
            // A marked environment is a persistent evaluator. Even renderers
            // without state get the token, so that a later change cannot make
            // an indexed block share state unseen.
            if *env_id != u32::MAX {
                summary = summary.with_actor_state(
                    ActorResourceId::new(backend.canonical.as_str(), *env_id),
                );
            }
            let text: Option<&str> = match attr {
                Some(text) => Some(text.as_str()),
                None => None,
            };
            assert(text_of(text) == attr_text(*attr));
            let declaration = match EffectDeclaration::parse(text) {
                Ok(declaration) => declaration,
                Err(error) => {
                    return Err(about_node(id, error.as_str()));
                },
            };
            match declaration.apply_checked(summary, EffectTrustPolicy::Strict) {
                Ok(summary) => Ok(summary),
                Err(error) => Err(about_node(id, error.as_str())),
            }
        },
    }
}

/// A block in a marked environment reads and writes the state of its actor,
/// and so conflicts with every other block on that actor.
pub proof fn blocks_on_one_actor_conflict(
    a: PlanNodeId,
    b: PlanNodeId,
    first: PlanNodeKind,
    second: PlanNodeKind,
)
    requires
        first is Exec,
        second is Exec,
        first->Exec_env_id != u32::MAX,
        first->Exec_env_id == second->Exec_env_id,
        first->Exec_backend.canonical@ == second->Exec_backend.canonical@,
        plan_node_effects(a, first) is Ok,
        plan_node_effects(b, second) is Ok,
    ensures
        plan_node_effects(a, first)->Ok_0.conflicts(plan_node_effects(b, second)->Ok_0),
{
}

} // verus!
