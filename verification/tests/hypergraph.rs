use o_lang::environment::{EPHEMERAL_ENV_ID, LINKER_ISOLATED_ENV_ID};
use o_lang::hypergraph::{
    abbreviate_dot_value, executable_op_label, hgraph_to_dot, op_kind_label, ExecutableOp, Execution,
    HGraph, HNode, HNodeKind, OpKind, Port, PortRole, ReadyInputPolicy, Relation,
};
use o_lang::resource::{ActorResourceId, ResourceKey};

fn assert_dot_vertex_style(dot: &str, id: &str, shape: &str, color: &str) {
    let prefix = format!("    {id} [");
    let line = dot
        .lines()
        .find(|line| line.starts_with(&prefix))
        .unwrap_or_else(|| panic!("missing DOT vertex {id}"));
    assert!(
        line.contains(&format!("shape = \"{shape}\"")),
        "DOT vertex {id} has wrong shape: {line}"
    );
    assert!(
        line.contains(&format!("color = \"{color}\"")),
        "DOT vertex {id} has wrong color: {line}"
    );
}

#[test]
fn dot_renders_directed_execute_ports_and_distinct_synthetic_nodes() {
    let node = |id, kind| HNode { id, kind };
    let graph = HGraph {
        nodes: vec![
            node(0, HNodeKind::Value { value: None, actor: Some(("python".into(), 0)) }),
            node(1, HNodeKind::ResourceState { resource: ResourceKey::HostWorld, version: 0 }),
            node(2, HNodeKind::ResourceState {
                resource: ResourceKey::ActorState(ActorResourceId::new("python", 0)),
                version: 0,
            }),
            node(3, HNodeKind::Completion { plan_node: 0 }),
            node(4, HNodeKind::BranchControl { label: "then".into(), version: 0 }),
            node(5, HNodeKind::AdmissionEvidence { plan_node: 0, fact: "pure".into() }),
        ],
        relations: vec![Relation {
            id: 9,
            kind: OpKind::Sequence,
            ports: vec![
                Port { node: 0, role: PortRole::Input },
                Port { node: 3, role: PortRole::Output },
            ],
        }],
        executions: vec![Execution {
            edge: 7,
            plan_node: 0,
            ordinal: 0,
            op: ExecutableOp::EvalBackend { lang: "python".into(), env: 0 },
            ready: ReadyInputPolicy::All,
            inputs: vec![1, 2, 8],
            outputs: vec![0, 3],
            value_output: 0,
        }],
    };
    let dot = hgraph_to_dot(&graph);

    assert_dot_vertex_style(&dot, "n0", "ellipse", "#89b4fa");
    assert_dot_vertex_style(&dot, "n1", "hexagon", "#74c7ec");
    assert_dot_vertex_style(&dot, "n2", "doubleoctagon", "#cba6f7");
    assert_dot_vertex_style(&dot, "n3", "diamond", "#a6e3a1");
    assert_dot_vertex_style(&dot, "n4", "octagon", "#f9e2af");
    assert_dot_vertex_style(&dot, "n5", "octagon", "#f9e2af");
    assert!(dot.contains("HostWorld@0"));
    assert!(dot.contains("ActorState(python[0])@0"));
    assert!(dot.contains("Completion(P"));
    assert!(dot.contains("Control(then)@0"));
    assert!(dot.contains("Evidence(pure:P0)"));

    for info in &graph.executions {
        let execute = format!("execute{}", info.edge);
        assert_dot_vertex_style(&dot, &execute, "box", "#f38ba8");
        for input in &info.inputs {
            let arrow = format!("n{} -> {execute} [", input);
            assert_eq!(dot.matches(&arrow).count(), 1, "{arrow}");
        }
        for output in &info.outputs {
            let arrow = format!("{execute} -> n{} [", output);
            assert_eq!(dot.matches(&arrow).count(), 1, "{arrow}");
        }
    }
    assert!(dot.contains("n8 -> execute7 [label = \"input:missing-node\""));
    assert!(dot.contains("execute7 -> n0 [label = \"result\""));
    assert!(dot.contains("execute7 -> n3 [label = \"completion\""));
    assert_dot_vertex_style(&dot, "constraint9", "diamond", "#6c7086");
    assert!(dot.contains("n0 -> constraint9 [") && !dot.contains("constraint9 -> n0 ["));
    assert!(dot.starts_with("digraph hgraph {\n    graph ["));
    assert!(dot.ends_with("}\n"));
}

#[test]
fn dot_preserves_inout_port_direction() {
    let graph = HGraph {
        nodes: vec![HNode {
            id: 0,
            kind: HNodeKind::Value { value: Some("null".into()), actor: None },
        }],
        relations: vec![Relation {
            id: 0,
            kind: OpKind::Additive,
            ports: vec![Port { node: 0, role: PortRole::InOut }],
        }],
        executions: vec![],
    };
    let dot = hgraph_to_dot(&graph);
    assert!(dot.contains("n0 -> constraint0 ["));
    assert!(dot.contains("constraint0 -> n0 ["));
    assert!(dot.contains("Value N0\\nnull"));
}

#[test]
fn operations_are_called_by_what_they_do() {
    let eval = |env| {
        executable_op_label(
            &ExecutableOp::EvalBackend { lang: "py".into(), env },
            ReadyInputPolicy::All,
        )
    };
    assert_eq!(eval(EPHEMERAL_ENV_ID), "eval:py");
    assert_eq!(eval(LINKER_ISOLATED_ENV_ID), "eval:py[*]");
    assert_eq!(eval(3), "eval:py[3]");
    let select = |policy: &str, ready| {
        executable_op_label(&ExecutableOp::SelectRoute { policy: policy.into() }, ready)
    };
    assert_eq!(
        select("fallback", ReadyInputPolicy::OrderedFirstSuccess),
        "select-route:fallback\ninputs:ordered-first-success"
    );
    assert_eq!(
        select("any_success", ReadyInputPolicy::Invalid),
        "select-route:any_success\ninputs:invalid"
    );
    assert_eq!(select("all", ReadyInputPolicy::Invalid), "select-route:all");
    assert_eq!(op_kind_label(&OpKind::CacheMemo { cacheable: false }), "cache:bypass");
    assert_eq!(
        op_kind_label(&OpKind::BackendCrossing { from_lang: "a".into(), to_lang: "b".into() }),
        "crossing:a→b"
    );
}

#[test]
fn long_values_are_shortened() {
    assert_eq!(abbreviate_dot_value("ééé", 3), "ééé");
    assert_eq!(abbreviate_dot_value("éééé", 3), "ééé…");
}
