//! Which adapter an operation describes.
//!
//! Nothing is dispatched here. Evidence binds the decision; the executor later
//! verifies and realises that exact adapter.

use vstd::prelude::*;

use crate::effects::{
    is_trusted_renderer, trusted_renderer, EffectConfidence, EffectSummary, Effects, Fallibility,
};
use crate::environment::EnvironmentRefV2;
use crate::ir::{
    ExecutionMode, ExecutionPlan, OIr, PlanEdgeKind, PlanNodeId, PlanNodeKind, PlanScheduleKind,
    SpliceRenderer,
};
use crate::resource::Resource;

verus! {

/// The adapter that prepares an operation. The runtime may hold it against the
/// admitted program, but may not choose another.
#[derive(Clone, Copy, Debug, PartialEq, Eq, Structural)]
pub enum DispatchAdapterV1 {
    CoordinatorV1,
    OScopeLoadV1,
    TrustedInlineRendererV1,
    AutonomousEphemeralShimV1,
}

impl DispatchAdapterV1 {
    pub fn name(self) -> (text: &'static str)
        ensures
            text@ == (match self {
                DispatchAdapterV1::CoordinatorV1 => "coordinator/v1"@,
                DispatchAdapterV1::OScopeLoadV1 => "o-scope-load/v1"@,
                DispatchAdapterV1::TrustedInlineRendererV1 => "trusted-inline-renderer/v1"@,
                DispatchAdapterV1::AutonomousEphemeralShimV1 => "autonomous-ephemeral-shim/v1"@,
            }),
    {
        match self {
            DispatchAdapterV1::CoordinatorV1 => "coordinator/v1",
            DispatchAdapterV1::OScopeLoadV1 => "o-scope-load/v1",
            DispatchAdapterV1::TrustedInlineRendererV1 => "trusted-inline-renderer/v1",
            DispatchAdapterV1::AutonomousEphemeralShimV1 => "autonomous-ephemeral-shim/v1",
        }
    }

    pub fn is_local_worker(self) -> (r: bool)
        ensures
            r == (self != DispatchAdapterV1::CoordinatorV1),
    {
        match self {
            DispatchAdapterV1::CoordinatorV1 => false,
            _ => true,
        }
    }
}

/// A task that a local worker may run.
#[derive(Debug)]
pub enum TaskKind {
    Renderer { renderer: SpliceRenderer, canonical: String },
    Load { name: String },
    EphemeralShim { language: String, renderer: SpliceRenderer },
}

/// A task, as a value.
pub ghost enum Task {
    Renderer { renderer: SpliceRenderer, canonical: Seq<char> },
    Load { name: Seq<char> },
    EphemeralShim { language: Seq<char>, renderer: SpliceRenderer },
}

impl View for TaskKind {
    type V = Task;

    open spec fn view(&self) -> Task {
        match *self {
            TaskKind::Renderer { renderer, canonical } => Task::Renderer {
                renderer,
                canonical: canonical@,
            },
            TaskKind::Load { name } => Task::Load { name: name@ },
            TaskKind::EphemeralShim { language, renderer } => Task::EphemeralShim {
                language: language@,
                renderer,
            },
        }
    }
}

impl Clone for TaskKind {
    fn clone(&self) -> (r: Self)
        ensures
            r@ == self@,
    {
        match self {
            TaskKind::Renderer { renderer, canonical } => TaskKind::Renderer {
                renderer: *renderer,
                canonical: canonical.clone(),
            },
            TaskKind::Load { name } => TaskKind::Load { name: name.clone() },
            TaskKind::EphemeralShim { language, renderer } => TaskKind::EphemeralShim {
                language: language.clone(),
                renderer: *renderer,
            },
        }
    }
}

impl Task {
    /// The adapter that prepares the task.
    pub open spec fn adapter(self) -> DispatchAdapterV1 {
        match self {
            Task::Renderer { .. } => DispatchAdapterV1::TrustedInlineRendererV1,
            Task::Load { .. } => DispatchAdapterV1::OScopeLoadV1,
            Task::EphemeralShim { .. } => DispatchAdapterV1::AutonomousEphemeralShimV1,
        }
    }
}

impl TaskKind {
    /// The adapter that prepares the task.
    pub fn adapter(&self) -> (r: DispatchAdapterV1)
        ensures
            r == self@.adapter(),
    {
        match self {
            TaskKind::Renderer { .. } => DispatchAdapterV1::TrustedInlineRendererV1,
            TaskKind::Load { .. } => DispatchAdapterV1::OScopeLoadV1,
            TaskKind::EphemeralShim { .. } => DispatchAdapterV1::AutonomousEphemeralShimV1,
        }
    }
}

/// Whether a trusted renderer can be prepared from the source alone: nothing
/// under it loads, invokes, or runs another backend.
pub open spec fn statically_preparable(oir: OIr) -> bool
    decreases oir,
{
    match oir {
        OIr::Exec { env_id: _, attr, backend, body } => {
            &&& attr is None
            &&& trusted_renderer(backend)
            &&& forall|i: int|
                0 <= i < body@.len() ==> match #[trigger] body@[i] {
                    OIr::Text(_) => true,
                    OIr::Store { .. } => true,
                    OIr::Exec { .. } => statically_preparable(body@[i]),
                    OIr::Load(_) => false,
                    OIr::Invoke { .. } => false,
                }
        },
        _ => false,
    }
}

/// Whether a trusted renderer can be prepared from the source alone.
pub fn renderer_inputs_statically_preparable(oir: &OIr) -> (r: bool)
    ensures
        r == statically_preparable(*oir),
    decreases oir,
{
    match oir {
        OIr::Exec { env_id: _, attr, backend, body } => {
            if attr.is_some() || !is_trusted_renderer(backend) {
                return false;
            }
            let mut i: usize = 0;
            while i < body.len()
                invariant
                    *oir matches OIr::Exec { env_id: _, attr: a, backend: b, body: c } && a is None
                        && trusted_renderer(b) && c == *body,
                    i <= body@.len(),
                    forall|j: int|
                        0 <= j < i ==> match #[trigger] body@[j] {
                            OIr::Text(_) => true,
                            OIr::Store { .. } => true,
                            OIr::Exec { .. } => statically_preparable(body@[j]),
                            OIr::Load(_) => false,
                            OIr::Invoke { .. } => false,
                        },
                decreases body@.len() - i,
            {
                let child = &body[i];
                assert(decreases_to!(oir => body@[i as int]));
                let fine: bool = match child {
                    OIr::Text(_) => true,
                    OIr::Store { .. } => true,
                    OIr::Exec { .. } => renderer_inputs_statically_preparable(child),
                    OIr::Load(_) => false,
                    OIr::Invoke { .. } => false,
                };
                if !fine {
                    assert(body@[i as int] == *child);
                    return false;
                }
                i += 1;
            }
            true
        },
        _ => false,
    }
}

/// The nodes that a node is part of.
pub open spec fn parents(plan: ExecutionPlan, node: int) -> Seq<int> {
    parents_upto(plan, node, plan.edges@.len() as int)
}

/// The nodes that a node is part of, by the first `k` edges.
pub open spec fn parents_upto(plan: ExecutionPlan, node: int, k: int) -> Seq<int>
    decreases k,
{
    if k <= 0 {
        Seq::empty()
    } else {
        let edge = plan.edges@[k - 1];
        if edge.kind == PlanEdgeKind::PartOf && edge.from.0 == node {
            parents_upto(plan, node, k - 1).push(edge.to.0 as int)
        } else {
            parents_upto(plan, node, k - 1)
        }
    }
}

/// Whether the nearest schedule above a node that sets a policy is autonomous,
/// within `fuel` steps of only parents.
pub open spec fn autonomous_above(plan: ExecutionPlan, node: int, fuel: nat) -> bool
    decreases fuel,
{
    let above = parents(plan, node);
    if fuel == 0 || above.len() != 1 {
        false
    } else {
        match plan.nodes@[above[0]].kind {
            PlanNodeKind::Schedule { kind: PlanScheduleKind::Autonomous } => true,
            PlanNodeKind::Schedule { kind: PlanScheduleKind::Lazy } => false,
            _ => autonomous_above(plan, above[0], (fuel - 1) as nat),
        }
    }
}

/// Whether the walk up the only parents of a node meets an autonomous schedule
/// after exactly `steps` steps, and no other schedule that sets a policy before.
spec fn meets_at(plan: ExecutionPlan, node: int, steps: nat) -> bool
    decreases steps,
{
    let above = parents(plan, node);
    &&& steps > 0
    &&& above.len() == 1
    &&& match plan.nodes@[above[0]].kind {
        PlanNodeKind::Schedule { kind: PlanScheduleKind::Autonomous } => steps == 1,
        PlanNodeKind::Schedule { kind: PlanScheduleKind::Lazy } => false,
        _ => meets_at(plan, above[0], (steps - 1) as nat),
    }
}

/// The nodes that the first `steps` steps of the walk start from.
spec fn walk(plan: ExecutionPlan, node: int, steps: nat) -> Seq<int>
    decreases steps,
{
    if steps == 0 {
        Seq::empty()
    } else {
        seq![node] + walk(plan, parents(plan, node)[0], (steps - 1) as nat)
    }
}

proof fn lemma_meets_once(plan: ExecutionPlan, node: int, a: nat, b: nat)
    requires
        meets_at(plan, node, a),
        meets_at(plan, node, b),
    ensures
        a == b,
    decreases a,
{
    let above = parents(plan, node)[0];
    match plan.nodes@[above].kind {
        PlanNodeKind::Schedule { kind: PlanScheduleKind::Autonomous } => {},
        PlanNodeKind::Schedule { kind: PlanScheduleKind::Lazy } => {},
        _ => {
            lemma_meets_once(plan, above, (a - 1) as nat, (b - 1) as nat);
        },
    }
}

proof fn lemma_parents_inside(plan: ExecutionPlan, node: int, k: int)
    requires
        plan.wf(),
        0 <= k <= plan.edges@.len(),
    ensures
        forall|i: int|
            0 <= i < parents_upto(plan, node, k).len() ==> 0 <= (#[trigger] parents_upto(
                plan,
                node,
                k,
            )[i]) < plan.nodes@.len(),
    decreases k,
{
    if k > 0 {
        lemma_parents_inside(plan, node, k - 1);
        let before = parents_upto(plan, node, k - 1);
        let edge = plan.edges@[k - 1];
        assert forall|i: int| 0 <= i < parents_upto(plan, node, k).len() implies 0 <= (
        #[trigger] parents_upto(plan, node, k)[i]) < plan.nodes@.len() by {
            if i < before.len() {
                assert(parents_upto(plan, node, k)[i] == before[i]);
            }
        }
    }
}

proof fn lemma_walk(plan: ExecutionPlan, node: int, steps: nat)
    requires
        plan.wf(),
        0 <= node < plan.nodes@.len(),
        meets_at(plan, node, steps),
    ensures
        walk(plan, node, steps).len() == steps,
        forall|i: int|
            0 <= i < steps ==> 0 <= (#[trigger] walk(plan, node, steps)[i]) < plan.nodes@.len()
                && meets_at(plan, walk(plan, node, steps)[i], (steps - i) as nat),
    decreases steps,
{
    let above = parents(plan, node)[0];
    lemma_parents_inside(plan, node, plan.edges@.len() as int);
    if steps > 1 {
        lemma_walk(plan, above, (steps - 1) as nat);
        assert forall|i: int| 0 <= i < steps implies 0 <= (#[trigger] walk(plan, node, steps)[i])
            < plan.nodes@.len() && meets_at(
            plan,
            walk(plan, node, steps)[i],
            (steps - i) as nat,
        ) by {
            if i > 0 {
                assert(walk(plan, node, steps)[i] == walk(plan, above, (steps - 1) as nat)[i - 1]);
            }
        }
    } else {
        assert(walk(plan, above, 0).len() == 0);
    }
}

proof fn lemma_meets(plan: ExecutionPlan, node: int, fuel: nat) -> (steps: nat)
    requires
        autonomous_above(plan, node, fuel),
    ensures
        meets_at(plan, node, steps),
        steps <= fuel,
    decreases fuel,
{
    let above = parents(plan, node)[0];
    match plan.nodes@[above].kind {
        PlanNodeKind::Schedule { kind: PlanScheduleKind::Autonomous } => 1,
        _ => lemma_meets(plan, above, (fuel - 1) as nat) + 1,
    }
}

proof fn lemma_met(plan: ExecutionPlan, node: int, steps: nat, fuel: nat)
    requires
        meets_at(plan, node, steps),
        steps <= fuel,
    ensures
        autonomous_above(plan, node, fuel),
    decreases steps,
{
    let above = parents(plan, node)[0];
    match plan.nodes@[above].kind {
        PlanNodeKind::Schedule { kind: PlanScheduleKind::Autonomous } => {},
        PlanNodeKind::Schedule { kind: PlanScheduleKind::Lazy } => {},
        _ => {
            lemma_met(plan, above, (steps - 1) as nat, (fuel - 1) as nat);
        },
    }
}

/// A policy counts from however far above: as many steps as the plan has nodes
/// find it wherever any number of steps would, even where the plan has cycles.
pub proof fn policies_count_from_any_height(plan: ExecutionPlan, node: int, fuel: nat)
    requires
        plan.wf(),
        0 <= node < plan.nodes@.len(),
        autonomous_above(plan, node, fuel),
    ensures
        autonomous_above(plan, node, plan.nodes@.len()),
{
    let steps = lemma_meets(plan, node, fuel);
    lemma_walk(plan, node, steps);
    let path = walk(plan, node, steps);
    assert forall|i: int, j: int| 0 <= i < path.len() && 0 <= j < path.len() && i != j implies path[i]
        != path[j] by {
        if path[i] == path[j] {
            lemma_meets_once(plan, path[i], (steps - i) as nat, (steps - j) as nat);
        }
    }
    path.unique_seq_to_set();
    vstd::set_lib::lemma_int_range(0, plan.nodes@.len() as int);
    assert(path.to_set().subset_of(vstd::set_lib::set_int_range(0, plan.nodes@.len() as int)));
    vstd::set_lib::lemma_len_subset(
        path.to_set(),
        vstd::set_lib::set_int_range(0, plan.nodes@.len() as int),
    );
    lemma_met(plan, node, steps, plan.nodes@.len());
}

/// The only parent of a node, if it has exactly one.
fn only_parent(plan: &ExecutionPlan, node: usize) -> (r: Option<usize>)
    requires
        plan.wf(),
    ensures
        r is Some <==> parents(*plan, node as int).len() == 1,
        r matches Some(p) ==> parents(*plan, node as int)[0] == p && p < plan.nodes@.len(),
{
    let mut found: Option<usize> = None;
    let mut many: bool = false;
    let mut k: usize = 0;
    while k < plan.edges.len()
        invariant
            plan.wf(),
            k <= plan.edges@.len(),
            many <==> parents_upto(*plan, node as int, k as int).len() > 1,
            !many ==> match found {
                None => parents_upto(*plan, node as int, k as int).len() == 0,
                Some(p) => parents_upto(*plan, node as int, k as int) == seq![p as int] && p
                    < plan.nodes@.len(),
            },
        decreases plan.edges@.len() - k,
    {
        let edge = plan.edges[k];
        let ghost before = parents_upto(*plan, node as int, k as int);
        if edge.kind == PlanEdgeKind::PartOf && edge.from.0 == node {
            if found.is_some() {
                many = true;
            }
            assert(before.len() == 0 ==> before.push(edge.to.0 as int) =~= seq![edge.to.0 as int]);
            found = Some(edge.to.0);
        }
        k += 1;
    }
    if many {
        None
    } else {
        found
    }
}

fn nearest_policy_schedule_is_autonomous(plan: &ExecutionPlan, node: usize) -> (r: bool)
    requires
        plan.wf(),
    ensures
        r == autonomous_above(*plan, node as int, plan.nodes@.len()),
{
    let mut current: usize = node;
    let mut left: usize = plan.nodes.len();
    while left > 0
        invariant
            plan.wf(),
            left <= plan.nodes@.len(),
            autonomous_above(*plan, node as int, plan.nodes@.len()) == autonomous_above(
                *plan,
                current as int,
                left as nat,
            ),
        decreases left,
    {
        let parent = match only_parent(plan, current) {
            None => {
                return false;
            },
            Some(parent) => parent,
        };
        match &plan.nodes[parent].kind {
            PlanNodeKind::Schedule { kind: PlanScheduleKind::Autonomous } => {
                return true;
            },
            PlanNodeKind::Schedule { kind: PlanScheduleKind::Lazy } => {
                return false;
            },
            _ => {},
        }
        current = parent;
        left -= 1;
    }
    false
}

/// The first group that a node is part of, from edge `i` on.
pub open spec fn first_group(plan: ExecutionPlan, node: int, i: int) -> Option<PlanNodeId>
    decreases plan.edges@.len() - i,
{
    if i < 0 || i >= plan.edges@.len() {
        None
    } else {
        let edge = plan.edges@[i];
        if edge.kind == PlanEdgeKind::PartOf && edge.from.0 == node
            && plan.nodes@[edge.to.0 as int].kind is Group {
            Some(edge.to)
        } else {
            first_group(plan, node, i + 1)
        }
    }
}

/// Whether an operation is a bare hosted shim in a fresh environment whose
/// body is only text and stores.
pub open spec fn bare_shim(oir: OIr) -> bool {
    match oir {
        OIr::Exec { env_id, attr, backend, body } => {
            &&& EnvironmentRefV2::decoding(env_id).fresh()
            &&& attr is None
            &&& backend.execution == ExecutionMode::Shim
            &&& inert(body@)
        },
        _ => false,
    }
}

/// Whether a body is only text and stores.
pub open spec fn inert(body: Seq<OIr>) -> bool {
    forall|i: int| 0 <= i < body.len() ==> (#[trigger] body[i]) is Text || body[i] is Store
}

/// The coordination group that lets a bare shim run out of order, if the
/// nearest policy above that group is autonomous.
pub open spec fn autonomous_group(plan: ExecutionPlan, node: PlanNodeId, oir: OIr) -> Option<
    PlanNodeId,
> {
    if !bare_shim(oir) {
        None
    } else {
        match first_group(plan, node.0 as int, 0) {
            None => None,
            Some(group) => if autonomous_above(plan, group.0 as int, plan.nodes@.len()) {
                Some(group)
            } else {
                None
            },
        }
    }
}

fn is_bare_shim(oir: &OIr) -> (r: bool)
    ensures
        r == bare_shim(*oir),
{
    match oir {
        OIr::Exec { env_id, attr, backend, body } => {
            if !EnvironmentRefV2::from_encoded(*env_id).is_fresh() || attr.is_some()
                || backend.execution != ExecutionMode::Shim {
                return false;
            }
            let mut i: usize = 0;
            while i < body.len()
                invariant
                    *oir matches OIr::Exec { env_id: _, attr: _, backend: _, body: c } && c == *body,
                    i <= body@.len(),
                    forall|j: int| 0 <= j < i ==> (#[trigger] body@[j]) is Text || body@[j] is Store,
                decreases body@.len() - i,
            {
                match &body[i] {
                    OIr::Text(_) => {},
                    OIr::Store { .. } => {},
                    _ => {
                        assert(!(body@[i as int] is Text || body@[i as int] is Store));
                        assert(!inert(body@));
                        return false;
                    },
                }
                i += 1;
            }
            assert(inert(body@));
            true
        },
        _ => false,
    }
}

/// The explicit coordination group that authorises one bare hosted shim to run
/// out of order.
///
/// This is a policy and not a proof of independence: the shim stays unknown,
/// and only the nearest explicit autonomous schedule opts it in.
pub fn autonomous_ephemeral_group(plan: &ExecutionPlan, node: PlanNodeId, oir: &OIr) -> (r: Option<
    PlanNodeId,
>)
    requires
        plan.wf(),
    ensures
        r == autonomous_group(*plan, node, *oir),
{
    if !is_bare_shim(oir) {
        return None;
    }
    let mut i: usize = 0;
    while i < plan.edges.len()
        invariant
            plan.wf(),
            bare_shim(*oir),
            i <= plan.edges@.len(),
            first_group(*plan, node.0 as int, 0) == first_group(*plan, node.0 as int, i as int),
        decreases plan.edges@.len() - i,
    {
        let edge = plan.edges[i];
        if edge.kind == PlanEdgeKind::PartOf && edge.from.0 == node.0 {
            if let PlanNodeKind::Group = &plan.nodes[edge.to.0].kind {
                return if nearest_policy_schedule_is_autonomous(plan, edge.to.0) {
                    Some(edge.to)
                } else {
                    None
                };
            }
        }
        i += 1;
    }
    None
}

/// The local task that a plan node describes, if it describes one.
pub open spec fn classified(plan: ExecutionPlan, oir: OIr, id: PlanNodeId) -> Option<Task> {
    match oir {
        OIr::Load(name) => Some(Task::Load { name: name@ }),
        OIr::Exec { env_id: _, attr: _, backend, body: _ } => if statically_preparable(oir) {
            Some(Task::Renderer { renderer: backend.renderer, canonical: backend.canonical@ })
        } else if autonomous_group(plan, id, oir) is Some {
            Some(
                Task::EphemeralShim { language: backend.canonical@, renderer: backend.renderer },
            )
        } else {
            None
        },
        _ => None,
    }
}

/// Classifies a plan node for which a local task adapter is available.
pub fn classify(plan: &ExecutionPlan, oir: &OIr, id: PlanNodeId) -> (r: Option<TaskKind>)
    requires
        plan.wf(),
    ensures
        match r {
            Some(task) => classified(*plan, *oir, id) == Some(task@),
            None => classified(*plan, *oir, id) is None,
        },
{
    match oir {
        OIr::Load(name) => Some(TaskKind::Load { name: name.clone() }),
        OIr::Exec { env_id: _, attr: _, backend, body: _ } => {
            if renderer_inputs_statically_preparable(oir) {
                Some(
                    TaskKind::Renderer {
                        renderer: backend.renderer,
                        canonical: backend.canonical.clone(),
                    },
                )
            } else if autonomous_ephemeral_group(plan, id, oir).is_some() {
                Some(
                    TaskKind::EphemeralShim {
                        language: backend.canonical.clone(),
                        renderer: backend.renderer,
                    },
                )
            } else {
                None
            }
        },
        _ => None,
    }
}

/// Whether an adapter still matches an admitted operation.
pub open spec fn matches_adapter(
    adapter: DispatchAdapterV1,
    plan: ExecutionPlan,
    id: PlanNodeId,
    oir: OIr,
) -> bool {
    match adapter {
        DispatchAdapterV1::OScopeLoadV1 => oir is Load,
        DispatchAdapterV1::TrustedInlineRendererV1 => statically_preparable(oir),
        DispatchAdapterV1::AutonomousEphemeralShimV1 => autonomous_group(plan, id, oir) is Some,
        DispatchAdapterV1::CoordinatorV1 => false,
    }
}

/// Confirms that an adapter still matches an admitted operation.
pub fn adapter_matches(
    adapter: DispatchAdapterV1,
    plan: &ExecutionPlan,
    id: PlanNodeId,
    oir: &OIr,
) -> (r: bool)
    requires
        plan.wf(),
    ensures
        r == matches_adapter(adapter, *plan, id, *oir),
{
    match adapter {
        DispatchAdapterV1::OScopeLoadV1 => match oir {
            OIr::Load(_) => true,
            _ => false,
        },
        DispatchAdapterV1::TrustedInlineRendererV1 => renderer_inputs_statically_preparable(oir),
        DispatchAdapterV1::AutonomousEphemeralShimV1 => autonomous_ephemeral_group(
            plan,
            id,
            oir,
        ).is_some(),
        DispatchAdapterV1::CoordinatorV1 => false,
    }
}

/// What a task is classified as, its adapter matches.
pub proof fn classified_tasks_match_their_adapter(plan: ExecutionPlan, oir: OIr, id: PlanNodeId)
    requires
        classified(plan, oir, id) is Some,
    ensures
        matches_adapter(classified(plan, oir, id)->Some_0.adapter(), plan, id, oir),
{
}

/// Where some adapter matches, the operation is classified, and no two
/// adapters match the same operation.
pub proof fn one_adapter_matches(
    plan: ExecutionPlan,
    oir: OIr,
    id: PlanNodeId,
    adapter: DispatchAdapterV1,
)
    requires
        matches_adapter(adapter, plan, id, oir),
    ensures
        classified(plan, oir, id) matches Some(task) && task.adapter() == adapter,
{
}

/// Whether every resource is a scope binding.
pub open spec fn only_bindings(set: Set<Resource>) -> bool {
    forall|x: Resource| #[trigger] set.contains(x) ==> x is ScopeBinding
}

/// Whether the effects of an operation allow a worker to run it.
pub open spec fn worker_safe(effects: Effects, oir: OIr) -> bool {
    match oir {
        OIr::Exec { env_id, attr: _, backend, body: _ } => if EnvironmentRefV2::decoding(
            env_id,
        ).fresh() && backend.execution == ExecutionMode::Shim {
            effects.unknown && effects.fallibility is MayFail && effects.actor is None
        } else {
            effects.verified_pure_infallible()
        },
        OIr::Load(_) => {
            &&& effects.confidence is Verified
            &&& effects.deterministic
            &&& effects.fallibility is MayFail
            &&& !effects.unknown
            &&& effects.actor is None
            &&& effects.writes == Set::<Resource>::empty()
            &&& only_bindings(effects.reads)
            &&& !effects.network
            &&& !effects.spawn
            &&& !effects.clock
        },
        _ => effects.verified_pure_infallible(),
    }
}

/// Whether the effects of an operation allow a worker to run it.
pub fn effect_contract_worker_safe(summary: &EffectSummary, oir: &OIr) -> (r: bool)
    ensures
        r == worker_safe(summary@, *oir),
{
    match oir {
        OIr::Exec { env_id, attr: _, backend, body: _ } => {
            if EnvironmentRefV2::from_encoded(*env_id).is_fresh() && backend.execution
                == ExecutionMode::Shim {
                summary.unknown && summary.fallibility == Fallibility::MayFail
                    && summary.actor_state.is_none()
            } else {
                summary.is_verified_pure_infallible()
            }
        },
        OIr::Load(_) => {
            summary.confidence == EffectConfidence::Verified && summary.deterministic
                && summary.fallibility == Fallibility::MayFail && !summary.unknown
                && summary.actor_state.is_none() && summary.writes.is_empty()
                && summary.reads.only_scope_bindings() && !summary.network && !summary.spawn
                && !summary.clock
        },
        _ => summary.is_verified_pure_infallible(),
    }
}

} // verus!
