use o_lang::dispatch_model::{
    adapter_matches, autonomous_ephemeral_group, classify, effect_contract_worker_safe,
    renderer_inputs_statically_preparable, DispatchAdapterV1, TaskKind,
};
use o_lang::effects::{EffectConfidence, EffectSummary, Fallibility};
use o_lang::files::{default_extension_map, SourceFile};
use o_lang::graph::{reachable, strongly_connected_components};
use o_lang::ir::{
    BackendInterface, ExecutionMode, ExecutionPlan, OIr, PlanEdge, PlanEdgeKind, PlanNode,
    PlanNodeId, PlanNodeKind, PlanScheduleKind, SpliceRenderer,
};
use o_lang::link::dependency_order_plan;
use o_lang::order::{dependency_order, OrderedNode};
use o_lang::plan::{assign_waves, slot_order};
use o_lang::resource::{ActorResourceId, ResourceKey};

fn nodes(list: &[OrderedNode]) -> Vec<usize> {
    list.iter().map(|n| n.node).collect()
}

#[test]
fn components_hold_what_reaches_each_other() {
    let adjacency = vec![vec![1], vec![2], vec![1], vec![]];
    let reverse = vec![vec![], vec![0, 2], vec![1], vec![]];
    let mut components = strongly_connected_components(&adjacency, &reverse);
    components.sort();
    assert_eq!(components, [vec![0], vec![1, 2], vec![3]]);
    assert_eq!(reachable(&adjacency, 0), [true, true, true, false]);
    assert_eq!(reachable(&adjacency, 2), [false, true, true, false]);
}

#[test]
fn dependencies_precede_their_dependents() {
    assert_eq!(nodes(&dependency_order(&[vec![2], vec![], vec![]])), [1, 2, 0]);
    assert_eq!(nodes(&dependency_order(&[vec![], vec![], vec![]])), [0, 1, 2]);
    assert!(dependency_order(&[]).is_empty());
    let chain = dependency_order(&[vec![1], vec![2], vec![]]);
    assert_eq!(nodes(&chain), [2, 1, 0]);
    assert_eq!(chain[1].dependencies, [2]);
    assert!(chain.iter().all(|n| !n.barrier));
}

#[test]
fn cycles_stand_together_behind_a_barrier() {
    let out = dependency_order(&[vec![1], vec![0], vec![]]);
    assert_eq!(nodes(&out), [0, 1, 2]);
    assert!(out[0].barrier && out[1].barrier && !out[2].barrier);
    let waves = assign_waves(&out);
    assert!(waves[0] < waves[1]);
    assert_eq!(nodes(&dependency_order(&[vec![0]])), [0]);
}

#[test]
fn groups_keep_their_places() {
    // Places 0 and 2 belong to one group, 1 and 3 to another.
    let out = slot_order(&[7, 9, 7, 9], &[vec![2], vec![3], vec![], vec![]]);
    assert_eq!(nodes(&out), [2, 3, 0, 1]);
    assert_eq!(assign_waves(&out), [0, 0, 1, 1]);
}

#[test]
fn waves_wait_for_what_a_file_imports() {
    let file = |name: &str, content: &str| SourceFile {
        path: format!("/w/{name}"),
        content: content.to_string(),
    };
    let out = dependency_order_plan(
        &[
            file("a.py", "import b\nimport c\n"),
            file("b.py", "import d\n"),
            file("c.py", "import d\n"),
            file("d.py", "x = 1\n"),
        ],
        &default_extension_map(),
    );
    let list: Vec<(usize, usize)> = out.iter().map(|f| (f.file, f.wave)).collect();
    assert_eq!(list, [(3, 0), (1, 1), (2, 1), (0, 2)]);
}

fn backend(name: &str, execution: ExecutionMode, pure: bool) -> BackendInterface {
    BackendInterface { canonical: name.into(), pure, execution, renderer: SpliceRenderer(4) }
}

fn exec(env_id: u32, attr: Option<&str>, b: BackendInterface, body: Vec<OIr>) -> OIr {
    OIr::Exec { env_id, attr: attr.map(|s| s.to_string()), backend: b, body }
}

fn html(body: Vec<OIr>) -> OIr {
    exec(0, None, backend("html", ExecutionMode::InlineValue, true), body)
}

fn fresh_shim() -> OIr {
    exec(u32::MAX, None, backend("python", ExecutionMode::Shim, false), vec![OIr::Text("1".into())])
}

fn plan(kinds: Vec<PlanNodeKind>, edges: &[(usize, usize)]) -> ExecutionPlan {
    ExecutionPlan {
        nodes: kinds.into_iter().map(|kind| PlanNode { kind }).collect(),
        edges: edges
            .iter()
            .map(|(a, b)| PlanEdge {
                from: PlanNodeId(*a),
                to: PlanNodeId(*b),
                kind: PlanEdgeKind::PartOf,
            })
            .collect(),
    }
}

fn scheduled(kind: PlanScheduleKind) -> ExecutionPlan {
    plan(
        vec![
            PlanNodeKind::Text,
            PlanNodeKind::Group,
            PlanNodeKind::Call,
            PlanNodeKind::Schedule { kind },
        ],
        &[(0, 1), (1, 2), (2, 3)],
    )
}

#[test]
fn renderers_are_prepared_from_source_alone() {
    assert!(renderer_inputs_statically_preparable(&html(vec![
        OIr::Text("a".into()),
        OIr::Store { name: "x".into() },
        html(vec![]),
    ])));
    assert!(!renderer_inputs_statically_preparable(&html(vec![OIr::Load("x".into())])));
    assert!(!renderer_inputs_statically_preparable(&html(vec![html(vec![OIr::Invoke {
        name: "f".into()
    }])])));
    assert!(!renderer_inputs_statically_preparable(&exec(
        0,
        Some("a"),
        backend("html", ExecutionMode::InlineValue, true),
        vec![]
    )));
    assert!(!renderer_inputs_statically_preparable(&OIr::Text("a".into())));
}

#[test]
fn the_nearest_policy_decides() {
    let id = PlanNodeId(0);
    let shim = fresh_shim();
    let autonomous = scheduled(PlanScheduleKind::Autonomous);
    assert_eq!(autonomous_ephemeral_group(&autonomous, id, &shim), Some(PlanNodeId(1)));
    assert_eq!(autonomous_ephemeral_group(&scheduled(PlanScheduleKind::Lazy), id, &shim), None);
    assert_eq!(autonomous_ephemeral_group(&scheduled(PlanScheduleKind::Other), id, &shim), None);
    let two_parents = plan(
        vec![
            PlanNodeKind::Text,
            PlanNodeKind::Group,
            PlanNodeKind::Schedule { kind: PlanScheduleKind::Autonomous },
            PlanNodeKind::Call,
        ],
        &[(0, 1), (1, 2), (1, 3)],
    );
    assert_eq!(autonomous_ephemeral_group(&two_parents, id, &shim), None);
    let cycle = plan(
        vec![PlanNodeKind::Text, PlanNodeKind::Group, PlanNodeKind::Call],
        &[(0, 1), (1, 2), (2, 1)],
    );
    assert_eq!(autonomous_ephemeral_group(&cycle, id, &shim), None);
}

#[test]
fn tasks_match_their_own_adapter_only() {
    let id = PlanNodeId(0);
    let autonomous = scheduled(PlanScheduleKind::Autonomous);
    let all = [
        DispatchAdapterV1::CoordinatorV1,
        DispatchAdapterV1::OScopeLoadV1,
        DispatchAdapterV1::TrustedInlineRendererV1,
        DispatchAdapterV1::AutonomousEphemeralShimV1,
    ];
    for (oir, expected) in [
        (OIr::Load("x".into()), Some(DispatchAdapterV1::OScopeLoadV1)),
        (html(vec![]), Some(DispatchAdapterV1::TrustedInlineRendererV1)),
        (fresh_shim(), Some(DispatchAdapterV1::AutonomousEphemeralShimV1)),
        (OIr::Text("a".into()), None),
        (exec(3, None, backend("python", ExecutionMode::Shim, false), vec![]), None),
    ] {
        let task = classify(&autonomous, &oir, id);
        assert_eq!(task.as_ref().map(|t| t.adapter()), expected);
        for adapter in all {
            assert_eq!(adapter_matches(adapter, &autonomous, id, &oir), Some(adapter) == expected);
        }
    }
    match classify(&autonomous, &fresh_shim(), id) {
        Some(TaskKind::EphemeralShim { language, renderer }) => {
            assert_eq!(language, "python");
            assert_eq!(renderer, SpliceRenderer(4));
        }
        other => panic!("{other:?}"),
    }
    assert!(all.iter().filter(|a| a.is_local_worker()).count() == 3);
    assert_eq!(DispatchAdapterV1::CoordinatorV1.name(), "coordinator/v1");
}

#[test]
fn workers_run_only_what_they_may() {
    assert!(effect_contract_worker_safe(&EffectSummary::pure(), &html(vec![])));
    assert!(!effect_contract_worker_safe(&EffectSummary::unknown(), &html(vec![])));
    assert!(effect_contract_worker_safe(&EffectSummary::unknown(), &fresh_shim()));
    assert!(!effect_contract_worker_safe(&EffectSummary::pure(), &fresh_shim()));
    let owned = EffectSummary::unknown().with_actor_state(ActorResourceId::new("python", 1));
    assert!(!effect_contract_worker_safe(&owned, &fresh_shim()));
    let load = OIr::Load("x".into());
    let mut summary = EffectSummary::pure();
    assert!(!effect_contract_worker_safe(&summary, &load));
    summary.fallibility = Fallibility::MayFail;
    summary.reads.insert(ResourceKey::ScopeBinding("x".into()));
    assert_eq!(summary.confidence, EffectConfidence::Verified);
    assert!(effect_contract_worker_safe(&summary, &load));
    summary.reads.insert(ResourceKey::Stdio);
    assert!(!effect_contract_worker_safe(&summary, &load));
}
