//! What holds of the operations that are given to local workers, in terms of the
//! operations themselves.

use vstd::prelude::*;

use crate::dispatch_model::{
    autonomous_above, autonomous_group, classified, first_group, inert, matches_adapter, parents,
    parents_upto, statically_preparable, worker_safe, DispatchAdapterV1, Task,
};
use crate::effect_laws::{
    hosted, hosted_blocks_may_do_anything, names_keep_their_order,
    numbered_blocks_belong_to_their_actor,
};
use crate::effects::{plan_node_effects, Effects, Fallibility};
use crate::ir::{
    ExecutionMode, ExecutionPlan, OIr, PlanEdgeKind, PlanNodeId, PlanNodeKind, PlanScheduleKind,
};
use crate::resource::Resource;

verus! {

/// Whether an operation runs a bare hosted process: without an attribute, in no
/// environment or in one made for it alone, its body text and stores and nothing
/// that needs a value.
pub open spec fn runs_bare(oir: OIr) -> bool {
    match oir {
        OIr::Exec { env_id, attr, backend, body } => {
            &&& env_id == 0xffff_ffff || env_id == 0xffff_fffe
            &&& attr is None
            &&& backend.execution == ExecutionMode::Shim
            &&& forall|i: int|
                0 <= i < body@.len() ==> match #[trigger] body@[i] {
                    OIr::Text(_) => true,
                    OIr::Store { .. } => true,
                    OIr::Load(_) => false,
                    OIr::Invoke { .. } => false,
                    OIr::Exec { .. } => false,
                }
        },
        _ => false,
    }
}

/// Whether a node is part of another one.
pub open spec fn part_of(plan: ExecutionPlan, node: int, whole: int) -> bool {
    exists|k: int|
        0 <= k < plan.edges@.len() && (#[trigger] plan.edges@[k]).kind == PlanEdgeKind::PartOf
            && plan.edges@[k].from.0 == node && plan.edges@[k].to.0 == whole
}

/// Whether a chain of nodes leads up: each is part of the next and of nothing
/// else.
pub open spec fn leads_up(plan: ExecutionPlan, chain: Seq<int>) -> bool {
    forall|i: int, other: int|
        0 <= i < chain.len() - 1 ==> (#[trigger] part_of(plan, chain[i], other) <==> other
            == chain[i + 1])
}

/// Whether a node is a schedule of a kind.
pub open spec fn schedules(plan: ExecutionPlan, node: int, kind: PlanScheduleKind) -> bool {
    plan.nodes@[node].kind matches PlanNodeKind::Schedule { kind: k } && k == kind
}

proof fn lemma_parents_are(plan: ExecutionPlan, node: int, k: int)
    requires
        0 <= k <= plan.edges@.len(),
    ensures
        forall|j: int|
            0 <= j < parents_upto(plan, node, k).len() ==> part_of(
                plan,
                node,
                #[trigger] parents_upto(plan, node, k)[j],
            ),
        forall|e: int|
            0 <= e < k && (#[trigger] plan.edges@[e]).kind == PlanEdgeKind::PartOf
                && plan.edges@[e].from.0 == node ==> parents_upto(plan, node, k).contains(
                plan.edges@[e].to.0 as int,
            ),
    decreases k,
{
    if k > 0 {
        lemma_parents_are(plan, node, k - 1);
        let before = parents_upto(plan, node, k - 1);
        let now = parents_upto(plan, node, k);
        let edge = plan.edges@[k - 1];
        assert forall|j: int| 0 <= j < now.len() implies part_of(plan, node, #[trigger] now[j]) by {
            if j < before.len() {
                assert(now[j] == before[j]);
            } else {
                assert(edge.kind == PlanEdgeKind::PartOf && edge.from.0 == node);
            }
        }
        assert forall|e: int|
            0 <= e < k && (#[trigger] plan.edges@[e]).kind == PlanEdgeKind::PartOf
                && plan.edges@[e].from.0 == node implies now.contains(plan.edges@[e].to.0 as int) by {
            if e < k - 1 {
                let at = choose|at: int|
                    0 <= at < before.len() && before[at] == plan.edges@[e].to.0 as int;
                assert(now[at] == before[at]);
            } else {
                assert(now[now.len() - 1] == edge.to.0 as int);
            }
        }
    }
}

/// Where a policy is autonomous, a chain of only parents leads to an autonomous
/// schedule, and no lazy one stands on the way.
proof fn lemma_chain(plan: ExecutionPlan, node: int, fuel: nat) -> (chain: Seq<int>)
    requires
        autonomous_above(plan, node, fuel),
    ensures
        chain.len() > 1,
        chain[0] == node,
        leads_up(plan, chain),
        schedules(plan, chain.last(), PlanScheduleKind::Autonomous),
        forall|i: int|
            0 < i < chain.len() - 1 ==> !schedules(plan, #[trigger] chain[i], PlanScheduleKind::Lazy)
                && !schedules(plan, chain[i], PlanScheduleKind::Autonomous),
    decreases fuel,
{
    let list = parents(plan, node);
    let above = list[0];
    lemma_parents_are(plan, node, plan.edges@.len() as int);
    assert(part_of(plan, node, above));
    assert forall|other: int| #[trigger] part_of(plan, node, other) implies other == above by {
        let e = choose|e: int|
            0 <= e < plan.edges@.len() && (#[trigger] plan.edges@[e]).kind == PlanEdgeKind::PartOf
                && plan.edges@[e].from.0 == node && plan.edges@[e].to.0 == other;
        assert(list.contains(plan.edges@[e].to.0 as int));
    }
    if schedules(plan, above, PlanScheduleKind::Autonomous) {
        seq![node, above]
    } else {
        let rest = lemma_chain(plan, above, (fuel - 1) as nat);
        let chain = seq![node] + rest;
        assert forall|i: int, other: int| 0 <= i < chain.len() - 1 implies (#[trigger] part_of(
            plan,
            chain[i],
            other,
        ) <==> other == chain[i + 1]) by {
            if i > 0 {
                assert(chain[i] == rest[i - 1] && chain[i + 1] == rest[i]);
                assert(part_of(plan, rest[i - 1], other) <==> other == rest[i - 1 + 1]);
            } else {
                assert(chain[1] == rest[0]);
            }
        }
        assert forall|i: int| 0 < i < chain.len() - 1 implies !schedules(
            plan,
            #[trigger] chain[i],
            PlanScheduleKind::Lazy,
        ) && !schedules(plan, chain[i], PlanScheduleKind::Autonomous) by {
            assert(chain[i] == rest[i - 1]);
            if i == 1 {
                assert(chain[1] == above);
            }
        }
        assert(chain.last() == rest.last());
        chain
    }
}

proof fn lemma_first_group(plan: ExecutionPlan, node: int, i: int)
    requires
        0 <= i,
    ensures
        first_group(plan, node, i) matches Some(group) ==> part_of(plan, node, group.0 as int)
            && plan.nodes@[group.0 as int].kind is Group,
    decreases plan.edges@.len() - i,
{
    if i < plan.edges@.len() {
        let edge = plan.edges@[i];
        if edge.kind == PlanEdgeKind::PartOf && edge.from.0 == node
            && plan.nodes@[edge.to.0 as int].kind is Group {
        } else {
            lemma_first_group(plan, node, i + 1);
        }
    }
}

/// Only a bare hosted process is let out of order, and only by a group that it is
/// part of, above which an autonomous schedule comes before any lazy one. Gives
/// the way up to that schedule.
pub proof fn only_bare_processes_run_out_of_order(
    plan: ExecutionPlan,
    node: PlanNodeId,
    oir: OIr,
) -> (chain: Seq<int>)
    requires
        autonomous_group(plan, node, oir) is Some,
    ensures
        runs_bare(oir),
        chain.len() > 1,
        chain[0] == autonomous_group(plan, node, oir)->Some_0.0,
        part_of(plan, node.0 as int, chain[0]),
        plan.nodes@[chain[0]].kind is Group,
        leads_up(plan, chain),
        schedules(plan, chain.last(), PlanScheduleKind::Autonomous),
        forall|i: int|
            0 < i < chain.len() - 1 ==> !schedules(plan, #[trigger] chain[i], PlanScheduleKind::Lazy),
{
    let group = autonomous_group(plan, node, oir)->Some_0;
    lemma_first_group(plan, node.0 as int, 0);
    lemma_chain(plan, group.0 as int, plan.nodes@.len())
}

/// A body with anything in it that loads, invokes or runs is let out of order by
/// no group, and is no task of a shim.
pub proof fn bodies_that_need_values_stay(
    plan: ExecutionPlan,
    node: PlanNodeId,
    oir: OIr,
    i: int,
)
    requires
        oir is Exec,
        0 <= i < oir->Exec_body@.len(),
        oir->Exec_body@[i] is Load || oir->Exec_body@[i] is Invoke || oir->Exec_body@[i] is Exec,
    ensures
        autonomous_group(plan, node, oir) is None,
        !(classified(plan, oir, node) matches Some(task) && task is EphemeralShim),
        !matches_adapter(DispatchAdapterV1::AutonomousEphemeralShimV1, plan, node, oir),
{
    let body = oir->Exec_body@;
    assert(!(body[i] is Text || body[i] is Store));
}

/// A bare hosted process in a group under an autonomous schedule is let out of
/// order by the first group that it is part of.
pub proof fn bare_processes_under_autonomy_run_out_of_order(
    plan: ExecutionPlan,
    node: PlanNodeId,
    oir: OIr,
    group: PlanNodeId,
    edge: int,
    above: int,
)
    requires
        plan.wf(),
        runs_bare(oir),
        0 <= edge < plan.edges@.len(),
        plan.edges@[edge].kind == PlanEdgeKind::PartOf,
        plan.edges@[edge].from == node,
        plan.edges@[edge].to == group,
        plan.nodes@[group.0 as int].kind is Group,
        forall|k: int| 0 <= k < edge ==> (#[trigger] plan.edges@[k]).from != node,
        0 <= above < plan.edges@.len(),
        plan.edges@[above].kind == PlanEdgeKind::PartOf,
        plan.edges@[above].from == group,
        schedules(plan, plan.edges@[above].to.0 as int, PlanScheduleKind::Autonomous),
        forall|k: int|
            0 <= k < plan.edges@.len() && k != above ==> (#[trigger] plan.edges@[k]).from != group
                || plan.edges@[k].kind != PlanEdgeKind::PartOf,
    ensures
        autonomous_group(plan, node, oir) == Some(group),
        classified(plan, oir, node) matches Some(task) && task is EphemeralShim,
{
    let body = oir->Exec_body@;
    assert(inert(body)) by {
        assert forall|i: int| 0 <= i < body.len() implies (#[trigger] body[i]) is Text || body[i]
            is Store by {}
    }
    lemma_group_found(plan, node, group, edge, 0);
    lemma_only_above(plan, group.0 as int, above, plan.edges@.len() as int);
    let list = parents(plan, group.0 as int);
    assert(list == seq![plan.edges@[above].to.0 as int]);
    assert(plan.nodes@.len() > 0);
    assert(autonomous_above(plan, group.0 as int, plan.nodes@.len()));
}

proof fn lemma_group_found(
    plan: ExecutionPlan,
    node: PlanNodeId,
    group: PlanNodeId,
    edge: int,
    i: int,
)
    requires
        0 <= i <= edge < plan.edges@.len(),
        plan.edges@[edge].kind == PlanEdgeKind::PartOf,
        plan.edges@[edge].from == node,
        plan.edges@[edge].to == group,
        plan.nodes@[group.0 as int].kind is Group,
        forall|k: int| 0 <= k < edge ==> (#[trigger] plan.edges@[k]).from != node,
    ensures
        first_group(plan, node.0 as int, i) == Some(group),
    decreases edge - i,
{
    if i < edge {
        assert(plan.edges@[i].from != node);
        lemma_group_found(plan, node, group, edge, i + 1);
    }
}

proof fn lemma_only_above(plan: ExecutionPlan, node: int, above: int, k: int)
    requires
        0 <= above < plan.edges@.len(),
        0 <= k <= plan.edges@.len(),
        plan.edges@[above].kind == PlanEdgeKind::PartOf,
        plan.edges@[above].from.0 == node,
        forall|e: int|
            0 <= e < plan.edges@.len() && e != above ==> (#[trigger] plan.edges@[e]).from.0 != node
                || plan.edges@[e].kind != PlanEdgeKind::PartOf,
    ensures
        parents_upto(plan, node, k) == (if k > above {
            seq![plan.edges@[above].to.0 as int]
        } else {
            Seq::empty()
        }),
    decreases k,
{
    if k > 0 {
        lemma_only_above(plan, node, above, k - 1);
        if k - 1 != above {
            assert(plan.edges@[k - 1].from.0 != node || plan.edges@[k - 1].kind
                != PlanEdgeKind::PartOf);
        } else {
            assert(parents_upto(plan, node, k) =~= seq![plan.edges@[above].to.0 as int]);
        }
    }
}

/// What stands below an operation, by the places of the bodies that lead there.
pub open spec fn below(oir: OIr, path: Seq<int>) -> Option<OIr>
    decreases path.len(),
{
    if path.len() == 0 {
        Some(oir)
    } else {
        match oir {
            OIr::Exec { env_id: _, attr: _, backend: _, body } => if 0 <= path[0] < body@.len() {
                below(body@[path[0]], path.skip(1))
            } else {
                None
            },
            _ => None,
        }
    }
}

/// Wherever one looks below a renderer that is prepared from its source, there is
/// text, a store, or a renderer that is known to be pure and has no attribute:
/// nothing loads, invokes or runs anything else.
pub proof fn prepared_renderers_need_nothing(oir: OIr, path: Seq<int>)
    requires
        statically_preparable(oir),
        below(oir, path) is Some,
    ensures
        match below(oir, path)->Some_0 {
            OIr::Text(_) => true,
            OIr::Store { .. } => true,
            OIr::Load(_) => false,
            OIr::Invoke { .. } => false,
            OIr::Exec { env_id: _, attr, backend, body: _ } => attr is None && !hosted(backend),
        },
    decreases path.len(),
{
    if path.len() > 0 {
        let body = oir->Exec_body@;
        let child = body[path[0]];
        if path.skip(1).len() == 0 {
            assert(below(child, path.skip(1)) == Some(child));
            if child is Exec {
                assert(below(child, Seq::empty()) == Some(child));
                prepared_renderers_need_nothing(child, path.skip(1));
            }
        } else {
            assert(child is Exec);
            prepared_renderers_need_nothing(child, path.skip(1));
        }
    }
}

/// A renderer that is known to be pure, with no attribute and with nothing but
/// text and stores in it, is prepared from its source.
pub proof fn plain_renderers_are_prepared(oir: OIr)
    requires
        oir is Exec,
        oir->Exec_attr is None,
        !hosted(oir->Exec_backend),
        forall|i: int|
            0 <= i < oir->Exec_body@.len() ==> (#[trigger] oir->Exec_body@[i]) is Text
                || oir->Exec_body@[i] is Store,
    ensures
        statically_preparable(oir),
{
}

/// What an operation is given to a worker as, and under which name: a load under
/// the name that it loads, a renderer or a hosted process under its backend's, and
/// nothing else is given away. Renderers are pure and hosted processes are bare.
pub proof fn tasks_are_what_they_run(plan: ExecutionPlan, oir: OIr, id: PlanNodeId)
    ensures
        match classified(plan, oir, id) {
            Some(Task::Load { name }) => oir is Load && oir->Load_0@ == name,
            Some(Task::Renderer { renderer, canonical }) => oir is Exec && oir->Exec_attr is None
                && !hosted(oir->Exec_backend) && renderer == oir->Exec_backend.renderer
                && canonical == oir->Exec_backend.canonical@,
            Some(Task::EphemeralShim { language, renderer }) => runs_bare(oir) && language
                == oir->Exec_backend.canonical@ && renderer == oir->Exec_backend.renderer,
            None => !(oir is Load),
        },
        oir is Text || oir is Store || oir is Invoke ==> classified(plan, oir, id) is None,
{
    if let Some(Task::EphemeralShim { .. }) = classified(plan, oir, id) {
        let chain = only_bare_processes_run_out_of_order(plan, id, oir);
    }
}

/// Each task has an adapter of its own, and the coordinator's is that of none.
pub proof fn adapters_tell_tasks_apart(a: Task, b: Task)
    ensures
        a.adapter() == b.adapter() <==> (a is Load && b is Load) || (a is Renderer && b
            is Renderer) || (a is EphemeralShim && b is EphemeralShim),
        a.adapter() != DispatchAdapterV1::CoordinatorV1,
        a is Load ==> a.adapter() == DispatchAdapterV1::OScopeLoadV1,
        a is Renderer ==> a.adapter() == DispatchAdapterV1::TrustedInlineRendererV1,
        a is EphemeralShim ==> a.adapter() == DispatchAdapterV1::AutonomousEphemeralShimV1,
{
}

/// Whether a plan node is the operation that a lowered expression describes.
pub open spec fn describes(oir: OIr, kind: PlanNodeKind) -> bool {
    match (oir, kind) {
        (OIr::Load(name), PlanNodeKind::Load { name: n }) => name@ == n@,
        (
            OIr::Exec { env_id, attr, backend, body: _ },
            PlanNodeKind::Exec { env_id: e, attr: a, backend: b },
        ) => env_id == e && attr == a && backend.canonical@ == b.canonical@ && backend.pure
            == b.pure && backend.execution == b.execution && backend.renderer == b.renderer,
        _ => false,
    }
}

/// Every task, outside a numbered environment, has effects that allow a worker to
/// run it.
pub proof fn tasks_are_safe_for_workers(
    plan: ExecutionPlan,
    oir: OIr,
    id: PlanNodeId,
    kind: PlanNodeKind,
)
    requires
        classified(plan, oir, id) is Some,
        describes(oir, kind),
        oir is Exec ==> oir->Exec_env_id == u32::MAX,
    ensures
        plan_node_effects(id, kind) is Ok,
        worker_safe(plan_node_effects(id, kind)->Ok_0, oir),
{
    tasks_are_what_they_run(plan, oir, id);
    if oir is Exec {
        let base = crate::effects::block_effects(
            kind->Exec_env_id,
            crate::effects::attr_text(kind->Exec_attr),
            kind->Exec_backend,
        );
        crate::effects::empty_declarations_change_nothing(base);
        assert(plan_node_effects(id, kind) is Ok);
        numbered_blocks_belong_to_their_actor(id, kind);
        if classified(plan, oir, id)->Some_0 is EphemeralShim {
            hosted_blocks_may_do_anything(id, kind);
        }
    } else {
        names_keep_their_order(id, kind, id, kind);
    }
}

/// What a worker may run is on no actor. Beside hosted processes of their own it
/// writes nothing, knows all that it touches, and touches neither the network, the
/// clock nor other processes; and all but a load cannot fail.
pub proof fn workers_run_nothing_that_others_see(effects: Effects, oir: OIr)
    requires
        worker_safe(effects, oir),
    ensures
        effects.actor is None,
        oir is Exec && oir->Exec_backend.execution == ExecutionMode::Shim && (oir->Exec_env_id
            == 0xffff_ffff || oir->Exec_env_id == 0xffff_fffe) ==> effects.unknown
            && effects.fallibility == Fallibility::MayFail,
        !(oir is Exec && oir->Exec_backend.execution == ExecutionMode::Shim && (oir->Exec_env_id
            == 0xffff_ffff || oir->Exec_env_id == 0xffff_fffe)) ==> {
            &&& effects.writes == Set::<Resource>::empty()
            &&& effects.deterministic
            &&& !effects.unknown
            &&& !effects.network
            &&& !effects.spawn
            &&& !effects.clock
            &&& oir is Load <==> effects.fallibility == Fallibility::MayFail
            &&& forall|x: Resource|
                #[trigger] effects.reads.contains(x) ==> oir is Load && x is ScopeBinding
        },
{
}

} // verus!
