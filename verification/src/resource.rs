//! The resources whose state an operation may read or write, and sets of them.

use vstd::prelude::*;

use crate::text::{
    chars_of, comes_before, decimal, lemma_lex_total, lemma_lex_trans, lex_less, push_decimal,
};

verus! {

/// A persistent evaluator, by its language and environment. It has no process
/// generation: none is known.
#[derive(Debug, PartialEq, Eq, PartialOrd, Ord, Hash)]
pub struct ActorResourceId {
    pub canonical_language: String,
    pub environment: u32,
}

/// A persistent evaluator, as a value.
pub ghost struct Actor {
    pub language: Seq<char>,
    pub environment: u32,
}

impl View for ActorResourceId {
    type V = Actor;

    open spec fn view(&self) -> Actor {
        Actor { language: self.canonical_language@, environment: self.environment }
    }
}

impl Actor {
    pub open spec fn text(self) -> Seq<char> {
        self.language + "["@ + decimal(self.environment as nat) + "]"@
    }
}

impl ActorResourceId {
    pub fn new(canonical_language: &str, environment: u32) -> (actor: ActorResourceId)
        ensures
            actor@ == (Actor { language: canonical_language@, environment }),
    {
        ActorResourceId { canonical_language: canonical_language.to_owned(), environment }
    }

    /// The actor in words, as `language[environment]`.
    pub fn to_text(&self) -> (out: String)
        ensures
            out@ == self@.text(),
    {
        let mut out = self.canonical_language.clone();
        out.append("[");
        push_decimal(&mut out, self.environment as u64);
        out.append("]");
        out
    }

    /// Whether two actors are the same.
    pub fn same(&self, other: &ActorResourceId) -> (r: bool)
        ensures
            r == (self@ == other@),
    {
        *self.canonical_language.as_str() == *other.canonical_language.as_str() && self.environment
            == other.environment
    }
}

impl Clone for ActorResourceId {
    fn clone(&self) -> (r: Self)
        ensures
            r@ == self@,
    {
        ActorResourceId {
            canonical_language: self.canonical_language.clone(),
            environment: self.environment,
        }
    }
}

/// The canonical spelling of one exact governed identity.
#[derive(Debug, PartialEq, Eq, PartialOrd, Ord, Hash)]
pub struct GovernedIdentity {
    pub text: String,
}

/// A resource whose state an operation may consume or produce.
#[derive(Debug, PartialEq, Eq, PartialOrd, Ord, Hash)]
pub enum ResourceKey {
    /// Host-observable state that is not modelled precisely.
    HostWorld,
    /// One governed World epoch.
    WorldState(GovernedIdentity),
    /// One governed node generation.
    NodeState(GovernedIdentity),
    /// One governed execution-domain generation.
    DomainState(GovernedIdentity),
    /// One typed resource beneath a governed owner generation.
    GovernedResource(GovernedIdentity),
    /// One task-attempt generation.
    TaskState(GovernedIdentity),
    /// Publication state of one artifact in one World epoch.
    ArtifactState(GovernedIdentity),
    /// Mutable state of the evaluator itself.
    EvaluatorState,
    /// One scope binding.
    ScopeBinding(String),
    ProjectPath(String),
    HostPath(String),
    EnvVar(String),
    Stdio,
    Network(String),
    NetworkUnknown,
    Service(String),
    ActorState(ActorResourceId),
}

/// A resource, as a value.
pub ghost enum Resource {
    HostWorld,
    WorldState(Seq<char>),
    NodeState(Seq<char>),
    DomainState(Seq<char>),
    GovernedResource(Seq<char>),
    TaskState(Seq<char>),
    ArtifactState(Seq<char>),
    EvaluatorState,
    ScopeBinding(Seq<char>),
    ProjectPath(Seq<char>),
    HostPath(Seq<char>),
    EnvVar(Seq<char>),
    Stdio,
    Network(Seq<char>),
    NetworkUnknown,
    Service(Seq<char>),
    ActorState(Actor),
}

impl View for ResourceKey {
    type V = Resource;

    open spec fn view(&self) -> Resource {
        match *self {
            ResourceKey::HostWorld => Resource::HostWorld,
            ResourceKey::WorldState(id) => Resource::WorldState(id.text@),
            ResourceKey::NodeState(id) => Resource::NodeState(id.text@),
            ResourceKey::DomainState(id) => Resource::DomainState(id.text@),
            ResourceKey::GovernedResource(id) => Resource::GovernedResource(id.text@),
            ResourceKey::TaskState(id) => Resource::TaskState(id.text@),
            ResourceKey::ArtifactState(id) => Resource::ArtifactState(id.text@),
            ResourceKey::EvaluatorState => Resource::EvaluatorState,
            ResourceKey::ScopeBinding(name) => Resource::ScopeBinding(name@),
            ResourceKey::ProjectPath(path) => Resource::ProjectPath(path@),
            ResourceKey::HostPath(path) => Resource::HostPath(path@),
            ResourceKey::EnvVar(name) => Resource::EnvVar(name@),
            ResourceKey::Stdio => Resource::Stdio,
            ResourceKey::Network(endpoint) => Resource::Network(endpoint@),
            ResourceKey::NetworkUnknown => Resource::NetworkUnknown,
            ResourceKey::Service(name) => Resource::Service(name@),
            ResourceKey::ActorState(actor) => Resource::ActorState(actor@),
        }
    }
}

impl Resource {
    /// Whether `HostWorld` covers the resource.
    pub open spec fn host(self) -> bool {
        ||| self is HostWorld
        ||| self is ProjectPath
        ||| self is HostPath
        ||| self is EnvVar
        ||| self is Stdio
        ||| self is Network
        ||| self is NetworkUnknown
        ||| self is Service
    }

    /// Whether the resource belongs to the World vocabulary.
    pub open spec fn governed(self) -> bool {
        ||| self is WorldState
        ||| self is NodeState
        ||| self is DomainState
        ||| self is GovernedResource
        ||| self is TaskState
        ||| self is ArtifactState
    }

    /// Whether the resource is a network endpoint, known or not.
    pub open spec fn network(self) -> bool {
        self is Network || self is NetworkUnknown
    }

    pub open spec fn text(self) -> Seq<char> {
        match self {
            Resource::HostWorld => "HostWorld"@,
            Resource::WorldState(id) => "world-state:"@ + id,
            Resource::NodeState(id) => "node-state:"@ + id,
            Resource::DomainState(id) => "domain-state:"@ + id,
            Resource::GovernedResource(id) => "governed-resource:"@ + id,
            Resource::TaskState(id) => "task-state:"@ + id,
            Resource::ArtifactState(id) => "artifact-state:"@ + id,
            Resource::EvaluatorState => "EvaluatorState"@,
            Resource::ScopeBinding(name) => "scope:"@ + name,
            Resource::ProjectPath(path) => "project:"@ + path,
            Resource::HostPath(path) => "host:"@ + path,
            Resource::EnvVar(name) => "env:"@ + name,
            Resource::Stdio => "stdio"@,
            Resource::Network(endpoint) => "network:"@ + endpoint,
            Resource::NetworkUnknown => "network:*"@,
            Resource::Service(name) => "service:"@ + name,
            Resource::ActorState(actor) => "actor:"@ + actor.text(),
        }
    }

    /// The place of the resource's kind in the order of resources.
    pub open spec fn rank(self) -> int {
        match self {
            Resource::HostWorld => 0,
            Resource::WorldState(_) => 1,
            Resource::NodeState(_) => 2,
            Resource::DomainState(_) => 3,
            Resource::GovernedResource(_) => 4,
            Resource::TaskState(_) => 5,
            Resource::ArtifactState(_) => 6,
            Resource::EvaluatorState => 7,
            Resource::ScopeBinding(_) => 8,
            Resource::ProjectPath(_) => 9,
            Resource::HostPath(_) => 10,
            Resource::EnvVar(_) => 11,
            Resource::Stdio => 12,
            Resource::Network(_) => 13,
            Resource::NetworkUnknown => 14,
            Resource::Service(_) => 15,
            Resource::ActorState(_) => 16,
        }
    }

    /// What names the resource among those of its kind.
    pub open spec fn name(self) -> Seq<char> {
        match self {
            Resource::WorldState(id) => id,
            Resource::NodeState(id) => id,
            Resource::DomainState(id) => id,
            Resource::GovernedResource(id) => id,
            Resource::TaskState(id) => id,
            Resource::ArtifactState(id) => id,
            Resource::ScopeBinding(name) => name,
            Resource::ProjectPath(path) => path,
            Resource::HostPath(path) => path,
            Resource::EnvVar(name) => name,
            Resource::Network(endpoint) => endpoint,
            Resource::Service(name) => name,
            Resource::ActorState(actor) => actor.language,
            _ => Seq::empty(),
        }
    }

    /// What tells actors of one language apart.
    pub open spec fn number(self) -> u32 {
        match self {
            Resource::ActorState(actor) => actor.environment,
            _ => 0,
        }
    }

    /// Whether the resource comes before another: by kind, then by name, then
    /// by number.
    pub open spec fn less(self, other: Resource) -> bool {
        if self.rank() != other.rank() {
            self.rank() < other.rank()
        } else if self.name() != other.name() {
            lex_less(self.name(), other.name())
        } else {
            self.number() < other.number()
        }
    }
}

/// Any two resources are ordered one way, or are the same.
pub proof fn lemma_less_total(a: Resource, b: Resource)
    ensures
        a == b || a.less(b) || b.less(a),
        !(a.less(b) && b.less(a)),
        a == b ==> !a.less(b),
{
    lemma_lex_total(a.name(), b.name());
}

pub proof fn lemma_less_trans(a: Resource, b: Resource, c: Resource)
    requires
        a.less(b),
        b.less(c),
    ensures
        a.less(c),
{
    lemma_lex_total(a.name(), b.name());
    lemma_lex_total(b.name(), c.name());
    lemma_lex_total(a.name(), c.name());
    if a.rank() == b.rank() && b.rank() == c.rank() && a.name() != b.name() && b.name() != c.name() {
        lemma_lex_trans(a.name(), b.name(), c.name());
    }
}

impl ResourceKey {
    /// Whether this key names host-observable state covered by `HostWorld`.
    pub fn is_host_resource(&self) -> (r: bool)
        ensures
            r == self@.host(),
    {
        match self {
            ResourceKey::HostWorld => true,
            ResourceKey::ProjectPath(_) => true,
            ResourceKey::HostPath(_) => true,
            ResourceKey::EnvVar(_) => true,
            ResourceKey::Stdio => true,
            ResourceKey::Network(_) => true,
            ResourceKey::NetworkUnknown => true,
            ResourceKey::Service(_) => true,
            _ => false,
        }
    }

    /// Whether this key names state described by explicit World vocabulary.
    ///
    /// Governed keys do not alias `HostWorld`. They describe; they prove
    /// neither mediation nor authority.
    pub fn is_governed_resource(&self) -> (r: bool)
        ensures
            r == self@.governed(),
    {
        match self {
            ResourceKey::WorldState(_) => true,
            ResourceKey::NodeState(_) => true,
            ResourceKey::DomainState(_) => true,
            ResourceKey::GovernedResource(_) => true,
            ResourceKey::TaskState(_) => true,
            ResourceKey::ArtifactState(_) => true,
            _ => false,
        }
    }

    pub fn is_network(&self) -> (r: bool)
        ensures
            r == self@.network(),
    {
        match self {
            ResourceKey::Network(_) => true,
            ResourceKey::NetworkUnknown => true,
            _ => false,
        }
    }

    fn rank_of(&self) -> (r: u8)
        ensures
            r == self@.rank(),
    {
        match self {
            ResourceKey::HostWorld => 0,
            ResourceKey::WorldState(_) => 1,
            ResourceKey::NodeState(_) => 2,
            ResourceKey::DomainState(_) => 3,
            ResourceKey::GovernedResource(_) => 4,
            ResourceKey::TaskState(_) => 5,
            ResourceKey::ArtifactState(_) => 6,
            ResourceKey::EvaluatorState => 7,
            ResourceKey::ScopeBinding(_) => 8,
            ResourceKey::ProjectPath(_) => 9,
            ResourceKey::HostPath(_) => 10,
            ResourceKey::EnvVar(_) => 11,
            ResourceKey::Stdio => 12,
            ResourceKey::Network(_) => 13,
            ResourceKey::NetworkUnknown => 14,
            ResourceKey::Service(_) => 15,
            ResourceKey::ActorState(_) => 16,
        }
    }

    fn name_of(&self) -> (r: Vec<char>)
        ensures
            r@ == self@.name(),
    {
        match self {
            ResourceKey::WorldState(id) => chars_of(id.text.as_str()),
            ResourceKey::NodeState(id) => chars_of(id.text.as_str()),
            ResourceKey::DomainState(id) => chars_of(id.text.as_str()),
            ResourceKey::GovernedResource(id) => chars_of(id.text.as_str()),
            ResourceKey::TaskState(id) => chars_of(id.text.as_str()),
            ResourceKey::ArtifactState(id) => chars_of(id.text.as_str()),
            ResourceKey::ScopeBinding(name) => chars_of(name.as_str()),
            ResourceKey::ProjectPath(path) => chars_of(path.as_str()),
            ResourceKey::HostPath(path) => chars_of(path.as_str()),
            ResourceKey::EnvVar(name) => chars_of(name.as_str()),
            ResourceKey::Network(endpoint) => chars_of(endpoint.as_str()),
            ResourceKey::Service(name) => chars_of(name.as_str()),
            ResourceKey::ActorState(actor) => chars_of(actor.canonical_language.as_str()),
            _ => Vec::new(),
        }
    }

    fn number_of(&self) -> (r: u32)
        ensures
            r == self@.number(),
    {
        match self {
            ResourceKey::ActorState(actor) => actor.environment,
            _ => 0,
        }
    }

    /// Whether this key comes before another.
    pub fn precedes(&self, other: &ResourceKey) -> (r: bool)
        ensures
            r == self@.less(other@),
    {
        let a = self.rank_of();
        let b = other.rank_of();
        if a != b {
            return a < b;
        }
        let left = self.name_of();
        let right = other.name_of();
        if !crate::text::eq_chars(left.as_slice(), right.as_slice()) {
            return comes_before(left.as_slice(), right.as_slice());
        }
        self.number_of() < other.number_of()
    }

    /// Whether two keys name the same resource.
    pub fn same(&self, other: &ResourceKey) -> (r: bool)
        ensures
            r == (self@ == other@),
    {
        proof {
            lemma_less_total(self@, other@);
        }
        !self.precedes(other) && !other.precedes(self)
    }

    /// The resource in words, as `kind:name`.
    pub fn to_text(&self) -> (out: String)
        ensures
            out@ == self@.text(),
    {
        match self {
            ResourceKey::HostWorld => "HostWorld".to_owned(),
            ResourceKey::WorldState(id) => "world-state:".to_owned().concat(id.text.as_str()),
            ResourceKey::NodeState(id) => "node-state:".to_owned().concat(id.text.as_str()),
            ResourceKey::DomainState(id) => "domain-state:".to_owned().concat(id.text.as_str()),
            ResourceKey::GovernedResource(id) => "governed-resource:".to_owned().concat(
                id.text.as_str(),
            ),
            ResourceKey::TaskState(id) => "task-state:".to_owned().concat(id.text.as_str()),
            ResourceKey::ArtifactState(id) => "artifact-state:".to_owned().concat(
                id.text.as_str(),
            ),
            ResourceKey::EvaluatorState => "EvaluatorState".to_owned(),
            ResourceKey::ScopeBinding(name) => "scope:".to_owned().concat(name.as_str()),
            ResourceKey::ProjectPath(path) => "project:".to_owned().concat(path.as_str()),
            ResourceKey::HostPath(path) => "host:".to_owned().concat(path.as_str()),
            ResourceKey::EnvVar(name) => "env:".to_owned().concat(name.as_str()),
            ResourceKey::Stdio => "stdio".to_owned(),
            ResourceKey::Network(endpoint) => "network:".to_owned().concat(endpoint.as_str()),
            ResourceKey::NetworkUnknown => "network:*".to_owned(),
            ResourceKey::Service(name) => "service:".to_owned().concat(name.as_str()),
            ResourceKey::ActorState(actor) => "actor:".to_owned().concat(
                actor.to_text().as_str(),
            ),
        }
    }
}

impl Clone for GovernedIdentity {
    fn clone(&self) -> (r: Self)
        ensures
            r.text@ == self.text@,
    {
        GovernedIdentity { text: self.text.clone() }
    }
}

impl Clone for ResourceKey {
    fn clone(&self) -> (r: Self)
        ensures
            r@ == self@,
    {
        match self {
            ResourceKey::HostWorld => ResourceKey::HostWorld,
            ResourceKey::WorldState(id) => ResourceKey::WorldState(id.clone()),
            ResourceKey::NodeState(id) => ResourceKey::NodeState(id.clone()),
            ResourceKey::DomainState(id) => ResourceKey::DomainState(id.clone()),
            ResourceKey::GovernedResource(id) => ResourceKey::GovernedResource(id.clone()),
            ResourceKey::TaskState(id) => ResourceKey::TaskState(id.clone()),
            ResourceKey::ArtifactState(id) => ResourceKey::ArtifactState(id.clone()),
            ResourceKey::EvaluatorState => ResourceKey::EvaluatorState,
            ResourceKey::ScopeBinding(name) => ResourceKey::ScopeBinding(name.clone()),
            ResourceKey::ProjectPath(path) => ResourceKey::ProjectPath(path.clone()),
            ResourceKey::HostPath(path) => ResourceKey::HostPath(path.clone()),
            ResourceKey::EnvVar(name) => ResourceKey::EnvVar(name.clone()),
            ResourceKey::Stdio => ResourceKey::Stdio,
            ResourceKey::Network(endpoint) => ResourceKey::Network(endpoint.clone()),
            ResourceKey::NetworkUnknown => ResourceKey::NetworkUnknown,
            ResourceKey::Service(name) => ResourceKey::Service(name.clone()),
            ResourceKey::ActorState(actor) => ResourceKey::ActorState(actor.clone()),
        }
    }
}

/// The resources of a list of keys.
pub open spec fn resources(list: Seq<ResourceKey>) -> Seq<Resource> {
    list.map_values(|key: ResourceKey| key@)
}

/// Whether resources are listed in ascending order, each once.
pub open spec fn ascending(list: Seq<Resource>) -> bool {
    forall|i: int, j: int| 0 <= i < j < list.len() ==> (#[trigger] list[i]).less(#[trigger] list[j])
}

/// A set of resources, kept in ascending order.
#[derive(Debug, PartialEq, Eq)]
pub struct ResourceSet {
    items: Vec<ResourceKey>,
}

impl View for ResourceSet {
    type V = Set<Resource>;

    closed spec fn view(&self) -> Set<Resource> {
        resources(self.items@).to_set()
    }
}

impl ResourceSet {
    #[verifier::type_invariant]
    closed spec fn inv(self) -> bool {
        ascending(resources(self.items@))
    }

    pub fn new() -> (set: ResourceSet)
        ensures
            set@ == Set::<Resource>::empty(),
    {
        let items: Vec<ResourceKey> = Vec::new();
        assert(resources(items@) =~= Seq::empty());
        let set = ResourceSet { items };
        assert(set@ =~= Set::empty());
        set
    }

    /// The members, in ascending order, each once.
    pub fn as_slice(&self) -> (list: &[ResourceKey])
        ensures
            ascending(resources(list@)),
            resources(list@).to_set() == self@,
    {
        proof {
            use_type_invariant(self);
        }
        self.items.as_slice()
    }

    pub fn is_empty(&self) -> (r: bool)
        ensures
            r == (self@ == Set::<Resource>::empty()),
    {
        let r: bool = self.items.len() == 0;
        proof {
            let list = resources(self.items@);
            if r {
                assert(self@ =~= Set::empty());
            } else {
                assert(list.contains(list[0]));
                assert(self@.contains(list[0]));
            }
        }
        r
    }

    pub fn contains(&self, key: &ResourceKey) -> (r: bool)
        ensures
            r == self@.contains(key@),
    {
        let mut i: usize = 0;
        let ghost list = resources(self.items@);
        while i < self.items.len()
            invariant
                list == resources(self.items@),
                i <= self.items@.len(),
                forall|j: int| 0 <= j < i ==> #[trigger] list[j] != key@,
            decreases self.items@.len() - i,
        {
            assert(list[i as int] == self.items@[i as int]@);
            if self.items[i].same(key) {
                assert(list.contains(key@));
                return true;
            }
            i += 1;
        }
        false
    }

    /// Adds a resource.
    pub fn insert(&mut self, key: ResourceKey)
        ensures
            final(self)@ == old(self)@.insert(key@),
    {
        proof {
            use_type_invariant(&*self);
        }
        let ghost before = resources(self.items@);
        let mut i: usize = 0;
        while i < self.items.len() && self.items[i].precedes(&key)
            invariant
                *self == *old(self),
                before == resources(self.items@),
                ascending(before),
                i <= self.items@.len(),
                forall|j: int| 0 <= j < i ==> (#[trigger] before[j]).less(key@),
            decreases self.items@.len() - i,
        {
            assert(before[i as int] == self.items@[i as int]@);
            i += 1;
        }
        if i < self.items.len() {
            assert(before[i as int] == self.items@[i as int]@);
            if self.items[i].same(&key) {
                proof {
                    assert(before.contains(key@));
                    assert(self@ =~= self@.insert(key@));
                }
                return;
            }
        }
        proof {
            assert forall|j: int| i <= j < before.len() implies key@.less(#[trigger] before[j]) by {
                lemma_less_total(before[i as int], key@);
                if i < j {
                    lemma_less_trans(key@, before[i as int], before[j]);
                }
            }
            let after = before.insert(i as int, key@);
            lemma_inserted(before, i as int, key@);
            assert(resources(self.items@.insert(i as int, key)) =~= after);
        }
        let mut items: Vec<ResourceKey> = Vec::new();
        assert(resources(items@) =~= Seq::empty());
        std::mem::swap(&mut self.items, &mut items);
        items.insert(i, key);
        self.items = items;
        assert(self@ =~= old(self)@.insert(key@));
    }

    /// Takes a resource out.
    pub fn remove(&mut self, key: &ResourceKey)
        ensures
            final(self)@ == old(self)@.remove(key@),
    {
        proof {
            use_type_invariant(&*self);
        }
        let ghost before = resources(self.items@);
        let mut i: usize = 0;
        while i < self.items.len() && !self.items[i].same(key)
            invariant
                *self == *old(self),
                before == resources(self.items@),
                ascending(before),
                i <= self.items@.len(),
                forall|j: int| 0 <= j < i ==> #[trigger] before[j] != key@,
            decreases self.items@.len() - i,
        {
            assert(before[i as int] == self.items@[i as int]@);
            i += 1;
        }
        if i < self.items.len() {
            assert(before[i as int] == self.items@[i as int]@);
            proof {
                lemma_removed(before, i as int);
                assert(resources(self.items@.remove(i as int)) =~= before.remove(i as int));
            }
            let mut items: Vec<ResourceKey> = Vec::new();
            assert(resources(items@) =~= Seq::empty());
            std::mem::swap(&mut self.items, &mut items);
            let _ = items.remove(i);
            self.items = items;
        } else {
            assert(!before.contains(key@));
        }
        assert(self@ =~= old(self)@.remove(key@));
    }

    /// Adds every member of another set.
    pub fn extend(&mut self, other: &ResourceSet)
        ensures
            final(self)@ == old(self)@.union(other@),
    {
        let ghost list = resources(other.items@);
        let mut i: usize = 0;
        assert(self@ =~= old(self)@.union(list.take(0).to_set()));
        while i < other.items.len()
            invariant
                list == resources(other.items@),
                i <= other.items@.len(),
                self@ == old(self)@.union(list.take(i as int).to_set()),
            decreases other.items@.len() - i,
        {
            let ghost so_far = self@;
            let key = other.items[i].clone();
            assert(key@ == list[i as int]);
            self.insert(key);
            proof {
                lemma_take_set(list, i as int);
                assert(self@ =~= old(self)@.union(list.take(i + 1).to_set()));
            }
            i += 1;
        }
        assert(list.take(i as int) =~= list);
    }

    /// Whether some member is host-observable state.
    pub fn any_host(&self) -> (r: bool)
        ensures
            r == exists|x: Resource| #[trigger] self@.contains(x) && x.host(),
    {
        let ghost list = resources(self.items@);
        let mut i: usize = 0;
        while i < self.items.len()
            invariant
                list == resources(self.items@),
                i <= self.items@.len(),
                forall|j: int| 0 <= j < i ==> !(#[trigger] list[j]).host(),
            decreases self.items@.len() - i,
        {
            assert(list[i as int] == self.items@[i as int]@);
            if self.items[i].is_host_resource() {
                assert(self@.contains(list[i as int]));
                return true;
            }
            i += 1;
        }
        false
    }

    /// Whether some member is a network endpoint, known or not.
    pub fn any_network(&self) -> (r: bool)
        ensures
            r == exists|x: Resource| #[trigger] self@.contains(x) && x.network(),
    {
        let ghost list = resources(self.items@);
        let mut i: usize = 0;
        while i < self.items.len()
            invariant
                list == resources(self.items@),
                i <= self.items@.len(),
                forall|j: int| 0 <= j < i ==> !(#[trigger] list[j]).network(),
            decreases self.items@.len() - i,
        {
            assert(list[i as int] == self.items@[i as int]@);
            if self.items[i].is_network() {
                assert(self@.contains(list[i as int]));
                return true;
            }
            i += 1;
        }
        false
    }

    /// Whether some member is an exact network endpoint.
    pub fn any_endpoint(&self) -> (r: bool)
        ensures
            r == exists|x: Resource| #[trigger] self@.contains(x) && x is Network,
    {
        let ghost list = resources(self.items@);
        let mut i: usize = 0;
        while i < self.items.len()
            invariant
                list == resources(self.items@),
                i <= self.items@.len(),
                forall|j: int| 0 <= j < i ==> !((#[trigger] list[j]) is Network),
            decreases self.items@.len() - i,
        {
            assert(list[i as int] == self.items@[i as int]@);
            if let ResourceKey::Network(_) = &self.items[i] {
                assert(self@.contains(list[i as int]));
                return true;
            }
            i += 1;
        }
        false
    }

    /// Whether two sets share a member.
    pub fn meets(&self, other: &ResourceSet) -> (r: bool)
        ensures
            r == exists|x: Resource| #[trigger] self@.contains(x) && other@.contains(x),
    {
        let ghost list = resources(self.items@);
        let mut i: usize = 0;
        while i < self.items.len()
            invariant
                list == resources(self.items@),
                i <= self.items@.len(),
                forall|j: int| 0 <= j < i ==> !other@.contains(#[trigger] list[j]),
            decreases self.items@.len() - i,
        {
            assert(list[i as int] == self.items@[i as int]@);
            if other.contains(&self.items[i]) {
                assert(self@.contains(list[i as int]));
                return true;
            }
            i += 1;
        }
        false
    }

    /// Whether every member is a scope binding.
    pub fn only_scope_bindings(&self) -> (r: bool)
        ensures
            r == forall|x: Resource| #[trigger] self@.contains(x) ==> x is ScopeBinding,
    {
        let ghost list = resources(self.items@);
        let mut i: usize = 0;
        while i < self.items.len()
            invariant
                list == resources(self.items@),
                i <= self.items@.len(),
                forall|j: int| 0 <= j < i ==> (#[trigger] list[j]) is ScopeBinding,
            decreases self.items@.len() - i,
        {
            assert(list[i as int] == self.items@[i as int]@);
            match &self.items[i] {
                ResourceKey::ScopeBinding(_) => {},
                _ => {
                    assert(self@.contains(list[i as int]));
                    return false;
                },
            }
            i += 1;
        }
        true
    }
}

impl Clone for ResourceSet {
    fn clone(&self) -> (r: Self)
        ensures
            r@ == self@,
    {
        let mut r = ResourceSet::new();
        r.extend(self);
        assert(r@ =~= self@);
        r
    }
}

proof fn lemma_inserted(before: Seq<Resource>, i: int, x: Resource)
    requires
        ascending(before),
        0 <= i <= before.len(),
        forall|j: int| 0 <= j < i ==> (#[trigger] before[j]).less(x),
        forall|j: int| i <= j < before.len() ==> x.less(#[trigger] before[j]),
    ensures
        ascending(before.insert(i, x)),
        before.insert(i, x).to_set() == before.to_set().insert(x),
{
    let after = before.insert(i, x);
    assert forall|a: int, b: int| 0 <= a < b < after.len() implies (#[trigger] after[a]).less(
        #[trigger] after[b],
    ) by {
        let p = if a < i { a } else { a - 1 };
        let q = if b < i { b } else { b - 1 };
        if a != i {
            assert(after[a] == before[p]);
        }
        if b != i {
            assert(after[b] == before[q]);
        }
    }
    assert forall|t: Resource| after.to_set().contains(t) == before.to_set().insert(x).contains(t) by {
        if after.contains(t) {
            let a = choose|a: int| 0 <= a < after.len() && after[a] == t;
            if a < i {
                assert(before[a] == t);
            } else if a > i {
                assert(before[a - 1] == t);
            }
        }
        if before.contains(t) {
            let a = choose|a: int| 0 <= a < before.len() && before[a] == t;
            if a < i {
                assert(after[a] == t);
            } else {
                assert(after[a + 1] == t);
            }
        }
        assert(after[i] == x);
    }
    assert(after.to_set() =~= before.to_set().insert(x));
}

proof fn lemma_removed(before: Seq<Resource>, i: int)
    requires
        ascending(before),
        0 <= i < before.len(),
    ensures
        ascending(before.remove(i)),
        before.remove(i).to_set() == before.to_set().remove(before[i]),
{
    let after = before.remove(i);
    assert forall|a: int, b: int| 0 <= a < b < after.len() implies (#[trigger] after[a]).less(
        #[trigger] after[b],
    ) by {
        let p = if a < i { a } else { a + 1 };
        let q = if b < i { b } else { b + 1 };
        assert(after[a] == before[p]);
        assert(after[b] == before[q]);
    }
    assert forall|t: Resource|
        after.to_set().contains(t) == before.to_set().remove(before[i]).contains(t) by {
        if after.contains(t) {
            let a = choose|a: int| 0 <= a < after.len() && after[a] == t;
            let p = if a < i { a } else { a + 1 };
            assert(before[p] == t);
            lemma_less_total(before[p], before[i]);
            if p < i {
                assert(before[p].less(before[i]));
            } else {
                assert(before[i].less(before[p]));
            }
        }
        if before.contains(t) && t != before[i] {
            let a = choose|a: int| 0 <= a < before.len() && before[a] == t;
            if a < i {
                assert(after[a] == t);
            } else {
                assert(after[a - 1] == t);
            }
        }
    }
    assert(after.to_set() =~= before.to_set().remove(before[i]));
}

proof fn lemma_take_set(list: Seq<Resource>, i: int)
    requires
        0 <= i < list.len(),
    ensures
        list.take(i + 1).to_set() == list.take(i).to_set().insert(list[i]),
{
    let a = list.take(i + 1);
    let b = list.take(i);
    assert forall|t: Resource| a.to_set().contains(t) == b.to_set().insert(list[i]).contains(t) by {
        if a.contains(t) {
            let k = choose|k: int| 0 <= k < a.len() && a[k] == t;
            if k < i {
                assert(b[k] == t);
            }
        }
        if b.contains(t) {
            let k = choose|k: int| 0 <= k < b.len() && b[k] == t;
            assert(a[k] == t);
        }
        assert(a[i] == list[i]);
    }
    assert(a.to_set() =~= b.to_set().insert(list[i]));
}

} // verus!
