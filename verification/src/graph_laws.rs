//! What holds of drawn graphs and lowered programs: what they are drawn from stands
//! in them, each thing where it belongs.

use vstd::prelude::*;

use crate::hypergraph::{
    all_executions, arrow_line, drawn, execution_lines, input_arrow, node_label, node_style,
    nodes_are_drawn, operation_text, operation_vertex, operations_show_every_input,
    operations_show_every_output, output_arrow, picture, port_arrows, relations_show_every_port,
    vertex_line, ExecutableOp, Execution, HGraph, HNode, HNodeKind, PortRole, ReadyInputPolicy,
};
use crate::quoting::{c_quoted, dot_quoted, html_quoted, label_quoted};
use crate::receipt::Declared;
use crate::receipt_graph::{
    dot_edges, dot_flow, dot_head, dot_steps, dot_text, edge_text, lower_row, lowered, middle_row,
    node_text, page_text, page_width, step_row, upper_row,
};
use crate::receipt_text::{C_HEAD, C_MIDDLE, C_TAIL, PAGE_HEAD, PAGE_STYLE};
use crate::text::{decimal, starts_with};
use crate::text_laws::{lemma_occurs_within, occurs};

verus! {

proof fn lemma_drawn_occurs(text: Seq<char>, part: Seq<char>)
    requires
        drawn(text, part),
    ensures
        occurs(part, text),
{
    let at = choose|at: int|
        0 <= at <= text.len() - part.len() && #[trigger] text.subrange(at, at + part.len()) == part;
    assert(text =~= text.take(at) + part + text.skip(at + part.len())) by {
        assert forall|i: int| at <= i < at + part.len() implies text[i] == part[i - at] by {
            assert(text.subrange(at, at + part.len())[i - at] == text[i]);
        }
    }
}

proof fn lemma_arrow_starts(from: Seq<char>, to: Seq<char>, label: Seq<char>, relation: bool)
    ensures
        occurs(
            "    "@ + from + " -> "@ + to + " [label = \""@ + label_quoted(label) + "\","@,
            arrow_line(from, to, label, relation),
        ),
{
    reveal_strlit("\",");
    reveal_strlit("\", color = \"#6c7086\", style = \"dashed\"];\n");
    reveal_strlit("\", color = \"#f38ba8\", style = \"solid\"];\n");
    let none = Seq::<char>::empty();
    let style = if relation {
        "\", color = \"#6c7086\", style = \"dashed\"];\n"@
    } else {
        "\", color = \"#f38ba8\", style = \"solid\"];\n"@
    };
    assert(style =~= "\","@ + style.skip(2));
    let part = "    "@ + from + " -> "@ + to + " [label = \""@ + label_quoted(label) + "\","@;
    assert(arrow_line(from, to, label, relation) =~= none + part + style.skip(2));
}

/// Every input of an operation is drawn as an arrow from the input to the
/// operation, and every output as an arrow from the operation to the output; the
/// one that holds its value is named as the result.
pub proof fn arrows_lead_through_operations(g: HGraph, k: int, i: int)
    requires
        0 <= k < g.executions@.len(),
    ensures
        0 <= i < g.executions@[k].inputs@.len() ==> occurs(
            "    "@ + ("n"@ + decimal(g.executions@[k].inputs@[i] as nat)) + " -> "@ + ("execute"@
                + decimal(g.executions@[k].edge as nat)) + " [label = \""@,
            picture(g),
        ),
        0 <= i < g.executions@[k].inputs@.len() ==> occurs(
            "    "@ + ("n"@ + decimal(g.executions@[k].inputs@[i] as nat)) + " -> "@ + ("execute"@
                + decimal(g.executions@[k].edge as nat)) + " [label = \""@ + label_quoted(
                "input:"@ + crate::hypergraph::port_of(g.nodes@, g.executions@[k].inputs@[i]),
            ) + "\","@,
            picture(g),
        ),
        0 <= i < g.executions@[k].outputs@.len() && g.executions@[k].outputs@[i]
            != g.executions@[k].value_output ==> occurs(
            "    "@ + ("execute"@ + decimal(g.executions@[k].edge as nat)) + " -> "@ + ("n"@
                + decimal(g.executions@[k].outputs@[i] as nat)) + " [label = \""@ + label_quoted(
                crate::hypergraph::port_of(g.nodes@, g.executions@[k].outputs@[i]),
            ) + "\","@,
            picture(g),
        ),
        0 <= i < g.executions@[k].outputs@.len() ==> occurs(
            "    "@ + ("execute"@ + decimal(g.executions@[k].edge as nat)) + " -> "@ + ("n"@
                + decimal(g.executions@[k].outputs@[i] as nat)) + " [label = \""@,
            picture(g),
        ),
        0 <= i < g.executions@[k].outputs@.len() && g.executions@[k].outputs@[i]
            == g.executions@[k].value_output ==> occurs(
            "    "@ + ("execute"@ + decimal(g.executions@[k].edge as nat)) + " -> "@ + ("n"@
                + decimal(g.executions@[k].outputs@[i] as nat)) + " [label = \""@ + label_quoted(
                "result"@,
            ) + "\","@,
            picture(g),
        ),
{
    let e = g.executions@[k];
    let vertex = "execute"@ + decimal(e.edge as nat);
    if 0 <= i < e.inputs@.len() {
        let node = "n"@ + decimal(e.inputs@[i] as nat);
        operations_show_every_input(g, k, i);
        lemma_drawn_occurs(picture(g), input_arrow(g.nodes@, e.edge, e.inputs@[i]));
        lemma_shown(
            node,
            vertex,
            "input:"@ + crate::hypergraph::port_of(g.nodes@, e.inputs@[i]),
            false,
            picture(g),
        );
    }
    if 0 <= i < e.outputs@.len() {
        let node = "n"@ + decimal(e.outputs@[i] as nat);
        operations_show_every_output(g, k, i);
        lemma_drawn_occurs(
            picture(g),
            output_arrow(g.nodes@, e.edge, e.value_output, e.outputs@[i]),
        );
        let label = if e.outputs@[i] == e.value_output {
            "result"@
        } else {
            crate::hypergraph::port_of(g.nodes@, e.outputs@[i])
        };
        lemma_shown(vertex, node, label, false, picture(g));
    }
}

proof fn lemma_shown(
    from: Seq<char>,
    to: Seq<char>,
    label: Seq<char>,
    relation: bool,
    whole: Seq<char>,
)
    requires
        occurs(arrow_line(from, to, label, relation), whole),
    ensures
        occurs("    "@ + from + " -> "@ + to + " [label = \""@, whole),
        occurs(
            "    "@ + from + " -> "@ + to + " [label = \""@ + label_quoted(label) + "\","@,
            whole,
        ),
{
    lemma_arrow_starts(from, to, label, relation);
    let short = "    "@ + from + " -> "@ + to + " [label = \""@;
    let long = short + label_quoted(label) + "\","@;
    let none = Seq::<char>::empty();
    assert(long =~= none + short + (label_quoted(label) + "\","@));
    assert(occurs(short, long));
    lemma_occurs_within(long, arrow_line(from, to, label, relation), whole);
    lemma_occurs_within(short, long, whole);
}

/// Every port of a relation that takes something in is drawn as an arrow into the
/// relation, and every one that gives something out as an arrow out of it.
pub proof fn arrows_lead_through_relations(g: HGraph, k: int, i: int)
    requires
        0 <= k < g.relations@.len(),
        0 <= i < g.relations@[k].ports@.len(),
    ensures
        ({
            let r = g.relations@[k];
            let port = r.ports@[i];
            let vertex = "constraint"@ + decimal(r.id as nat);
            let node = "n"@ + decimal(port.node as nat);
            &&& port.role == PortRole::Input || port.role == PortRole::InOut ==> occurs(
                "    "@ + node + " -> "@ + vertex + " [label = \""@,
                picture(g),
            )
            &&& port.role == PortRole::Output || port.role == PortRole::InOut ==> occurs(
                "    "@ + vertex + " -> "@ + node + " [label = \""@,
                picture(g),
            )
        }),
{
    let r = g.relations@[k];
    let port = r.ports@[i];
    let vertex = "constraint"@ + decimal(r.id as nat);
    let node = "n"@ + decimal(port.node as nat);
    relations_show_every_port(g, k, i);
    let both = port_arrows(r.id, port);
    lemma_drawn_occurs(picture(g), both);
    let none = Seq::<char>::empty();
    let into = arrow_line(node, vertex, "in"@, true);
    let out = arrow_line(vertex, node, "out"@, true);
    if port.role is Input {
        assert(both =~= none + into + none);
    } else if port.role is Output {
        assert(both =~= none + out + none);
    } else {
        assert(both =~= none + into + out);
        assert(both =~= into + out + none);
    }
    if port.role is Input || port.role is InOut {
        lemma_occurs_within(into, both, picture(g));
        lemma_shown(node, vertex, "in"@, true, picture(g));
    }
    if port.role is Output || port.role is InOut {
        lemma_occurs_within(out, both, picture(g));
        lemma_shown(vertex, node, "out"@, true, picture(g));
    }
}

/// Every node is drawn under its number, with its label.
pub proof fn nodes_are_drawn_under_their_number(g: HGraph, i: int)
    requires
        0 <= i < g.nodes@.len(),
    ensures
        occurs(
            "    n"@ + decimal(g.nodes@[i].id as nat) + " [label = \""@ + label_quoted(
                node_label(g.nodes@[i]),
            ),
            picture(g),
        ),
{
    nodes_are_drawn(g, i);
    let node = g.nodes@[i];
    let line = vertex_line("n"@ + decimal(node.id as nat), node_label(node), node_style(node));
    lemma_drawn_occurs(picture(g), line);
    reveal_strlit("    n");
    reveal_strlit("    ");
    reveal_strlit("n");
    let part = "    n"@ + decimal(node.id as nat) + " [label = \""@ + label_quoted(node_label(node));
    let none = Seq::<char>::empty();
    assert("    n"@ =~= "    "@ + "n"@);
    assert(line =~= none + part + crate::hypergraph::style_text(node_style(node)));
    lemma_occurs_within(part, line, picture(g));
}

/// The label of a node starts with what it is, and names what it is of.
pub proof fn labels_say_what_a_node_is(node: crate::hypergraph::HNode)
    ensures
        match node.kind {
            HNodeKind::Value { .. } => starts_with(
                node_label(node),
                "Value N"@ + decimal(node.id as nat),
            ),
            HNodeKind::ResourceState { resource, version } => starts_with(
                node_label(node),
                if resource@ is ActorState {
                    "ActorState("@ + resource@->ActorState_0.text() + ")@"@ + decimal(version as nat)
                } else {
                    resource@.text() + "@"@ + decimal(version as nat)
                },
            ),
            HNodeKind::Completion { plan_node } => starts_with(
                node_label(node),
                "Completion(P"@ + decimal(plan_node as nat) + ")"@,
            ),
            HNodeKind::BranchControl { label, version } => starts_with(
                node_label(node),
                "Control("@ + label@ + ")@"@ + decimal(version as nat),
            ),
            HNodeKind::AdmissionEvidence { plan_node, fact } => starts_with(
                node_label(node),
                "Evidence("@ + fact@ + ":P"@ + decimal(plan_node as nat) + ")"@,
            ),
        },
{
    reveal_strlit(")");
    reveal_strlit(")\nN");
    assert(")\nN"@ =~= ")"@ + ")\nN"@.skip(1));
    let label = node_label(node);
    match node.kind {
        HNodeKind::Value { .. } => {
            let start = "Value N"@ + decimal(node.id as nat);
            assert(label.take(start.len() as int) =~= start);
        },
        HNodeKind::ResourceState { resource, version } => {
            if resource@ is ActorState {
                let start = "ActorState("@ + resource@->ActorState_0.text() + ")@"@ + decimal(
                    version as nat,
                );
                assert(label.take(start.len() as int) =~= start);
            } else {
                let start = resource@.text() + "@"@ + decimal(version as nat);
                assert(label.take(start.len() as int) =~= start);
            }
        },
        HNodeKind::Completion { plan_node } => {
            let start = "Completion(P"@ + decimal(plan_node as nat) + ")"@;
            assert(label.take(start.len() as int) =~= start);
        },
        HNodeKind::BranchControl { label: name, version } => {
            let start = "Control("@ + name@ + ")@"@ + decimal(version as nat);
            assert(label.take(start.len() as int) =~= start);
        },
        HNodeKind::AdmissionEvidence { plan_node, fact } => {
            let start = "Evidence("@ + fact@ + ":P"@ + decimal(plan_node as nat) + ")"@;
            assert(label.take(start.len() as int) =~= start);
        },
    }
}

proof fn lemma_grown(before: Seq<char>, more: Seq<char>, part: Seq<char>)
    requires
        occurs(part, before),
    ensures
        occurs(part, before + more),
{
    assert(before + more =~= Seq::<char>::empty() + before + more);
    lemma_occurs_within(part, before, before + more);
}

proof fn lemma_at_end(before: Seq<char>, part: Seq<char>)
    ensures
        occurs(part, before + part),
{
    assert(before + part =~= before + part + Seq::<char>::empty());
}

/// The node of a step.
pub open spec fn step_node(place: nat, name: Seq<char>) -> Seq<char> {
    "  step_"@ + decimal(place) + " [label=\"step "@ + decimal(place + 1) + "\\n"@ + dot_quoted(name)
        + "\"];\n"@
}

/// The edge from a step to the next.
pub open spec fn step_edge(place: nat) -> Seq<char> {
    "  step_"@ + decimal(place) + " -> step_"@ + decimal(place + 1) + ";\n"@
}

proof fn lemma_step_node(steps: Seq<Seq<char>>, i: int)
    requires
        0 <= i < steps.len(),
    ensures
        occurs(step_node(i as nat, steps[i]), dot_steps(steps)),
    decreases steps.len(),
{
    let init = steps.drop_last();
    let last = step_node((steps.len() - 1) as nat, steps.last());
    assert(dot_steps(steps) =~= dot_steps(init) + last);
    if i == steps.len() - 1 {
        lemma_at_end(dot_steps(init), last);
    } else {
        lemma_step_node(init, i);
        assert(init[i] == steps[i]);
        lemma_grown(dot_steps(init), last, step_node(i as nat, steps[i]));
    }
}

proof fn lemma_step_edge(count: nat, i: int)
    requires
        0 <= i < count,
    ensures
        occurs(step_edge(i as nat), dot_edges(count)),
    decreases count,
{
    let before = dot_edges((count - 1) as nat);
    let last = step_edge((count - 1) as nat);
    assert(dot_edges(count) =~= before + last);
    if i == count - 1 {
        lemma_at_end(before, last);
    } else {
        lemma_step_edge((count - 1) as nat, i);
        lemma_grown(before, last, step_edge(i as nat));
    }
}

/// The graph of a receipt shows every step under its place, and leads from what is
/// read through the steps, in their order, to what is written.
pub proof fn receipts_draw_every_step(d: Declared, i: int)
    requires
        0 <= i < d.steps.len(),
    ensures
        occurs(step_node(i as nat, d.steps[i]), dot_text(d)),
        i + 1 < d.steps.len() ==> occurs(step_edge(i as nat), dot_text(d)),
        occurs("  input -> step_0;\n"@, dot_text(d)),
        occurs(
            "  step_"@ + decimal((d.steps.len() - 1) as nat) + " -> output_file;\n"@,
            dot_text(d),
        ),
        occurs(
            "group: "@ + dot_quoted(d.group) + "\\npolicy: "@ + dot_quoted(d.policy)
                + "\\ninvariant: "@ + dot_quoted(d.invariant),
            dot_text(d),
        ),
        occurs(
            "  output_file [label=\"write\\n"@ + dot_quoted(crate::files::last_part(d.write))
                + "\"];\n"@,
            dot_text(d),
        ),
        occurs(
            "input [label=\"read\\n"@ + dot_quoted(crate::files::last_part(d.read)) + "\"];\n"@,
            dot_text(d),
        ),
{
    let text = dot_text(d);
    let head = dot_head(d);
    let steps = dot_steps(d.steps);
    let target = "  output_file [label=\"write\\n"@ + dot_quoted(crate::files::last_part(d.write))
        + "\"];\n"@;
    let flow = dot_flow(d.steps.len());
    let end = "  contract -> step_0 [label=\"orders\"];\n}\n"@;
    assert(text =~= head + steps + target + flow + end);
    lemma_parts(head, steps, target, flow, end);
    lemma_step_node(d.steps, i);
    lemma_occurs_within(step_node(i as nat, d.steps[i]), steps, text);
    let n = d.steps.len();
    let first = "  input -> step_0;\n"@;
    let edges = dot_edges((n - 1) as nat);
    let last = "  step_"@ + decimal((n - 1) as nat) + " -> output_file;\n"@;
    let none = Seq::<char>::empty();
    assert(flow =~= first + edges + last);
    assert(flow =~= none + first + (edges + last));
    assert(flow =~= (first + edges) + last + none);
    lemma_occurs_within(first, flow, text);
    lemma_occurs_within(last, flow, text);
    if i + 1 < n {
        lemma_step_edge((n - 1) as nat, i);
        assert(occurs(edges, flow));
        lemma_occurs_within(step_edge(i as nat), edges, flow);
        lemma_occurs_within(step_edge(i as nat), flow, text);
    }
    lemma_head(d);
    lemma_occurs_within(
        "group: "@ + dot_quoted(d.group) + "\\npolicy: "@ + dot_quoted(d.policy)
            + "\\ninvariant: "@ + dot_quoted(d.invariant),
        head,
        text,
    );
    lemma_occurs_within(
        "input [label=\"read\\n"@ + dot_quoted(crate::files::last_part(d.read)) + "\"];\n"@,
        head,
        text,
    );
}

/// The vertex of an operation.
pub open spec fn operation_start(e: Execution) -> Seq<char> {
    "    "@ + ("execute"@ + decimal(e.edge as nat)) + " [label = \""@ + label_quoted(
        "Execute E"@ + decimal(e.edge as nat) + "\nP"@ + decimal(e.plan_node as nat) + " ordinal "@
            + decimal(e.ordinal as nat) + "\n"@ + operation_text(e.op, e.ready),
    )
}

proof fn lemma_vertex(nodes: Seq<HNode>, list: Seq<Execution>, k: int)
    requires
        0 <= k < list.len(),
    ensures
        occurs(operation_start(list[k]), all_executions(nodes, list)),
    decreases list.len(),
{
    let init = list.drop_last();
    let last = list.last();
    let before = all_executions(nodes, init);
    let own = execution_lines(nodes, last);
    assert(all_executions(nodes, list) == before + own);
    if k == list.len() - 1 {
        let start = operation_start(last);
        let none = Seq::<char>::empty();
        let vertex = operation_vertex(last);
        let style = crate::hypergraph::style_text(crate::hypergraph::DotStyle::Execute);
        assert(vertex == start + style);
        assert(start + style =~= none + start + style);
        let a = crate::hypergraph::input_lines(nodes, last.edge, last.inputs@);
        let b = crate::hypergraph::output_lines(
            nodes,
            last.edge,
            last.value_output,
            last.outputs@,
        );
        assert(own == vertex + a + b);
        assert(vertex + a + b =~= none + vertex + (a + b));
        lemma_occurs_within(start, vertex, own);
        lemma_at_end(before, own);
        lemma_occurs_within(start, own, before + own);
    } else {
        lemma_vertex(nodes, init, k);
        assert(init[k] == list[k]);
        lemma_grown(before, own, operation_start(list[k]));
    }
}

/// Every operation is drawn under its number, with the operation of the plan that it
/// is, its place among those, and what it does.
pub proof fn operations_are_drawn_under_their_number(g: HGraph, k: int)
    requires
        0 <= k < g.executions@.len(),
    ensures
        occurs(operation_start(g.executions@[k]), picture(g)),
{
    lemma_vertex(g.nodes@, g.executions@, k);
    let all = all_executions(g.nodes@, g.executions@);
    let foot = "}\n"@;
    let head = picture(g).take(picture(g).len() - foot.len() - all.len());
    assert(picture(g) =~= head + all + foot);
    lemma_occurs_within(operation_start(g.executions@[k]), all, picture(g));
}

/// What an operation is called says what it does, and to what.
pub proof fn operations_are_called_by_what_they_do(op: ExecutableOp, ready: ReadyInputPolicy)
    ensures
        match op {
            ExecutableOp::Store => operation_text(op, ready) == "store"@,
            ExecutableOp::LoadBinding => operation_text(op, ready) == "load binding"@,
            ExecutableOp::Invoke { fn_name, mode } => operation_text(op, ready) == "invoke:"@
                + fn_name@ + " ("@ + mode@ + ")"@,
            ExecutableOp::EvalBackend { lang, env } => starts_with(
                operation_text(op, ready),
                "eval:"@ + lang@,
            ),
            ExecutableOp::InlineBackend { lang } => operation_text(op, ready) == "inline:"@ + lang@,
            ExecutableOp::ForceRequest { kind } => operation_text(op, ready) == "force-request:"@
                + kind@,
            ExecutableOp::Request { kind } => operation_text(op, ready) == "request:"@ + kind@,
            ExecutableOp::Group { mode } => operation_text(op, ready) == "group:"@ + mode@,
            ExecutableOp::Schedule { kind } => operation_text(op, ready) == "schedule:"@ + kind@,
            ExecutableOp::MaterializeProject => operation_text(op, ready)
                == "materialize-project"@,
            ExecutableOp::BuildRoute { route_id } => operation_text(op, ready) == "build-route:"@
                + route_id@,
            ExecutableOp::RunRoute { route_id } => operation_text(op, ready) == "run-route:"@
                + route_id@,
            ExecutableOp::SelectRoute { policy } => starts_with(
                operation_text(op, ready),
                "select-route:"@ + policy@,
            ),
            ExecutableOp::CompareRouteResults => operation_text(op, ready)
                == "compare-route-results"@,
        },
{
    let text = operation_text(op, ready);
    match op {
        ExecutableOp::EvalBackend { lang, env } => {
            let start = "eval:"@ + lang@;
            assert(text.take(start.len() as int) =~= start);
        },
        ExecutableOp::SelectRoute { policy } => {
            let start = "select-route:"@ + policy@;
            assert(text.take(start.len() as int) =~= start);
        },
        _ => {},
    }
}

/// What an operation uses of a node is the node's own kind, and that of the node that
/// has the number.
pub proof fn ports_are_named_by_their_node(nodes: Seq<HNode>, id: u64, k: int)
    requires
        0 <= k < nodes.len(),
        nodes[k].id == id,
        forall|j: int| k < j < nodes.len() ==> (#[trigger] nodes[j]).id != id,
    ensures
        crate::hypergraph::port_of(nodes, id) == match nodes[k].kind {
            HNodeKind::Value { .. } => "value"@,
            HNodeKind::ResourceState { resource, .. } => if resource@ is ActorState {
                "actor-state"@
            } else {
                "resource-state"@
            },
            HNodeKind::Completion { .. } => "completion"@,
            HNodeKind::BranchControl { .. } => "control"@,
            HNodeKind::AdmissionEvidence { .. } => "admission-evidence"@,
        },
    decreases nodes.len(),
{
    assert(nodes.last() == nodes[nodes.len() - 1]);
    if k < nodes.len() - 1 {
        let init = nodes.drop_last();
        assert(init[k] == nodes[k]);
        assert forall|j: int| k < j < init.len() implies (#[trigger] init[j]).id != id by {
            assert(init[j] == nodes[j]);
        }
        ports_are_named_by_their_node(init, id, k);
    }
}

proof fn lemma_parts(a: Seq<char>, b: Seq<char>, c: Seq<char>, d: Seq<char>, e: Seq<char>)
    ensures
        occurs(a, a + b + c + d + e),
        occurs(b, a + b + c + d + e),
        occurs(c, a + b + c + d + e),
        occurs(d, a + b + c + d + e),
        occurs(e, a + b + c + d + e),
{
    let none = Seq::<char>::empty();
    let text = a + b + c + d + e;
    assert(text =~= none + a + (b + c + d + e));
    assert(text =~= a + b + (c + d + e));
    assert(text =~= (a + b) + c + (d + e));
    assert(text =~= (a + b + c) + d + e);
    assert(text =~= (a + b + c + d) + e + none);
}

proof fn lemma_head(d: Declared)
    ensures
        occurs(
            "group: "@ + dot_quoted(d.group) + "\\npolicy: "@ + dot_quoted(d.policy)
                + "\\ninvariant: "@ + dot_quoted(d.invariant),
            dot_head(d),
        ),
        occurs(
            "input [label=\"read\\n"@ + dot_quoted(crate::files::last_part(d.read)) + "\"];\n"@,
            dot_head(d),
        ),
{
    reveal_strlit("group: ");
    reveal_strlit("input [label=\"read\\n");
    reveal_strlit("digraph semantic_receipt {\n  rankdir=LR;\n  graph [bgcolor=\"#0a0a0b\", pad=\"0.3\", nodesep=\"0.45\", ranksep=\"0.65\"];\n  node [shape=box, style=\"rounded,filled\", fontname=\"Fira Code\", fontsize=11, color=\"#c48a5a\", fillcolor=\"#161616\", fontcolor=\"#e6e2d6\"];\n  edge [fontname=\"Fira Code\", fontsize=10, color=\"#5f7f8e\", fontcolor=\"#c48a5a\", arrowsize=0.8];\n  source [label=\"O source\\nmain.O\"];\n  contract [label=\"group: ");
    reveal_strlit("\"];\n  lowered [label=\"lowered C\\nnormalize_pipeline.c\"];\n  executable [label=\"compiled artifact\"];\n  output [label=\"runtime output\"];\n  receipt [label=\"semantic receipt\\nJSON + visible graph\"];\n  source -> contract -> lowered -> executable -> output -> receipt;\n  input [label=\"read\\n");
    let first = "digraph semantic_receipt {\n  rankdir=LR;\n  graph [bgcolor=\"#0a0a0b\", pad=\"0.3\", nodesep=\"0.45\", ranksep=\"0.65\"];\n  node [shape=box, style=\"rounded,filled\", fontname=\"Fira Code\", fontsize=11, color=\"#c48a5a\", fillcolor=\"#161616\", fontcolor=\"#e6e2d6\"];\n  edge [fontname=\"Fira Code\", fontsize=10, color=\"#5f7f8e\", fontcolor=\"#c48a5a\", arrowsize=0.8];\n  source [label=\"O source\\nmain.O\"];\n  contract [label=\"group: "@;
    let second = "\"];\n  lowered [label=\"lowered C\\nnormalize_pipeline.c\"];\n  executable [label=\"compiled artifact\"];\n  output [label=\"runtime output\"];\n  receipt [label=\"semantic receipt\\nJSON + visible graph\"];\n  source -> contract -> lowered -> executable -> output -> receipt;\n  input [label=\"read\\n"@;
    let one = "group: "@;
    let two = "input [label=\"read\\n"@;
    let a = first.take(first.len() - one.len());
    let b = second.take(second.len() - two.len());
    assert(first =~= a + one) by {
        assert(first.skip(first.len() - one.len()) =~= one);
    }
    assert(second =~= b + two) by {
        assert(second.skip(second.len() - two.len()) =~= two);
    }
    let x = dot_quoted(d.group) + "\\npolicy: "@ + dot_quoted(d.policy) + "\\ninvariant: "@
        + dot_quoted(d.invariant);
    let y = dot_quoted(crate::files::last_part(d.read));
    let foot = "\"];\n"@;
    let text = dot_head(d);
    assert(text =~= first + x + second + y + foot);
    lemma_headed(a, one, x, b, two, y, foot);
    assert("group: "@ + dot_quoted(d.group) + "\\npolicy: "@ + dot_quoted(d.policy)
        + "\\ninvariant: "@ + dot_quoted(d.invariant) =~= one + x);
}

proof fn lemma_headed(
    a: Seq<char>,
    one: Seq<char>,
    x: Seq<char>,
    b: Seq<char>,
    two: Seq<char>,
    y: Seq<char>,
    foot: Seq<char>,
)
    ensures
        ({
            let text = (a + one) + x + (b + two) + y + foot;
            occurs(one + x, text) && occurs(two + y + foot, text)
        }),
{
    let text = (a + one) + x + (b + two) + y + foot;
    let none = Seq::<char>::empty();
    assert(text =~= a + (one + x) + ((b + two) + y + foot));
    assert(text =~= ((a + one) + x + b) + (two + y + foot) + none);
}

/// The page of a receipt shows every step by its place and its name, and what is
/// read and what is written.
pub proof fn pages_show_every_step(d: Declared, dot: Seq<char>, i: int)
    requires
        0 <= i < d.steps.len(),
    ensures
        occurs(">"@ + html_quoted(d.steps[i]) + "</text>"@, page_text(d, dot)),
        occurs(
            ">"@ + html_quoted("step "@ + decimal((i + 1) as nat)) + "</text>"@,
            page_text(d, dot),
        ),
        occurs(
            ">"@ + html_quoted(crate::files::last_part(d.read)) + "</text>"@,
            page_text(d, dot),
        ),
        occurs(
            ">"@ + html_quoted(crate::files::last_part(d.write)) + "</text>"@,
            page_text(d, dot),
        ),
{
    lemma_middle(d, dot);
    lemma_row(d);
    lemma_ends(d);
    lemma_steps(d, i);
    let s = ">"@ + html_quoted(d.steps[i]) + "</text>"@;
    let t = ">"@ + html_quoted("step "@ + decimal((i + 1) as nat)) + "</text>"@;
    let r = ">"@ + html_quoted(crate::files::last_part(d.read)) + "</text>"@;
    let w = ">"@ + html_quoted(crate::files::last_part(d.write)) + "</text>"@;
    let m = middle_row(d);
    lemma_occurs_within(s, step_row(d.steps), m);
    lemma_occurs_within(s, m, page_text(d, dot));
    lemma_occurs_within(t, step_row(d.steps), m);
    lemma_occurs_within(t, m, page_text(d, dot));
    lemma_occurs_within(r, m, page_text(d, dot));
    lemma_occurs_within(w, m, page_text(d, dot));
}

proof fn lemma_row(d: Declared)
    ensures
        occurs(step_row(d.steps), middle_row(d)),
        occurs(
            node_text(70, 270, 138, 72, "read"@, crate::files::last_part(d.read), "effect"@),
            middle_row(d),
        ),
        occurs(
            node_text(
                (248 + 178 * d.steps.len()) as nat,
                270,
                138,
                72,
                "write"@,
                crate::files::last_part(d.write),
                "effect"@,
            ),
            middle_row(d),
        ),
{
    let n = d.steps.len();
    lemma_parts(
        node_text(70, 270, 138, 72, "read"@, crate::files::last_part(d.read), "effect"@),
        step_row(d.steps),
        node_text(
            (248 + 178 * n) as nat,
            270,
            138,
            72,
            "write"@,
            crate::files::last_part(d.write),
            "effect"@,
        ),
        edge_text((208 + 178 * n) as nat, 306, (248 + 178 * n) as nat, 306, ""@),
        edge_text(362, 148, 362, 270, "orders"@),
    );
}

proof fn lemma_ends(d: Declared)
    ensures
        occurs(
            ">"@ + html_quoted(crate::files::last_part(d.read)) + "</text>"@,
            middle_row(d),
        ),
        occurs(
            ">"@ + html_quoted(crate::files::last_part(d.write)) + "</text>"@,
            middle_row(d),
        ),
{
    lemma_row(d);
    let x = (248 + 178 * d.steps.len()) as nat;
    let read = crate::files::last_part(d.read);
    let write = crate::files::last_part(d.write);
    lemma_box(70, 270, 138, 72, "read"@, read, "effect"@);
    lemma_box(x, 270, 138, 72, "write"@, write, "effect"@);
    lemma_occurs_within(
        ">"@ + html_quoted(read) + "</text>"@,
        node_text(70, 270, 138, 72, "read"@, read, "effect"@),
        middle_row(d),
    );
    lemma_occurs_within(
        ">"@ + html_quoted(write) + "</text>"@,
        node_text(x, 270, 138, 72, "write"@, write, "effect"@),
        middle_row(d),
    );
}

proof fn lemma_steps(d: Declared, i: int)
    requires
        0 <= i < d.steps.len(),
    ensures
        occurs(">"@ + html_quoted(d.steps[i]) + "</text>"@, step_row(d.steps)),
        occurs(
            ">"@ + html_quoted("step "@ + decimal((i + 1) as nat)) + "</text>"@,
            step_row(d.steps),
        ),
{
    let x = (70 + 178 * (i + 1)) as nat;
    let title = "step "@ + decimal((i + 1) as nat);
    let own = node_text(x, 270, 138, 72, title, d.steps[i], "step"@);
    lemma_step_box(d.steps, i);
    lemma_box(x, 270, 138, 72, title, d.steps[i], "step"@);
    lemma_occurs_within(">"@ + html_quoted(d.steps[i]) + "</text>"@, own, step_row(d.steps));
    lemma_occurs_within(">"@ + html_quoted(title) + "</text>"@, own, step_row(d.steps));
}

proof fn lemma_middle(d: Declared, dot: Seq<char>)
    ensures
        occurs(middle_row(d), page_text(d, dot)),
{
    let a = PAGE_HEAD@ + html_quoted(d.group + " semantic graph"@) + PAGE_STYLE@ + html_quoted(
        d.group + " semantic graph"@,
    ) + "</h1>\n<p>policy: "@ + html_quoted(d.policy) + "; invariant: "@ + html_quoted(d.invariant)
        + "; intent: "@ + html_quoted(d.intent) + "</p>\n<svg viewBox=\"0 0 "@ + decimal(
        page_width(d.steps.len()),
    ) + " 560\" role=\"img\" aria-label=\""@ + html_quoted("O-Git semantic receipt graph"@)
        + "\">\n"@ + upper_row(d);
    lemma_second(
        a,
        middle_row(d),
        lower_row(),
        "\n</svg>\n<pre>"@,
        html_quoted(dot),
        "</pre>\n</main>\n</body>\n</html>\n"@,
    );
}

proof fn lemma_second(
    a: Seq<char>,
    m: Seq<char>,
    b: Seq<char>,
    c: Seq<char>,
    e: Seq<char>,
    f: Seq<char>,
)
    ensures
        occurs(m, a + m + b + c + e + f),
{
    assert(a + m + b + c + e + f =~= a + m + (b + c + e + f));
}

proof fn lemma_box(
    x: nat,
    y: nat,
    w: nat,
    h: nat,
    title: Seq<char>,
    detail: Seq<char>,
    class: Seq<char>,
)
    ensures
        occurs(
            ">"@ + html_quoted(detail) + "</text>"@,
            node_text(x, y, w, h, title, detail, class),
        ),
        occurs(">"@ + html_quoted(title) + "</text>"@, node_text(x, y, w, h, title, detail, class)),
{
    reveal_strlit(">");
    reveal_strlit("\">");
    reveal_strlit("\"");
    reveal_strlit("</text>");
    reveal_strlit("</text>\n</g>\n");
    reveal_strlit("\n</g>\n");
    reveal_strlit("</text>\n  <text class=\"detail\" x=\"");
    reveal_strlit("\n  <text class=\"detail\" x=\"");
    assert("\">"@ =~= "\""@ + ">"@);
    assert("</text>\n</g>\n"@ =~= "</text>"@ + "\n</g>\n"@);
    assert("</text>\n  <text class=\"detail\" x=\""@ =~= "</text>"@
        + "\n  <text class=\"detail\" x=\""@);
    let text = node_text(x, y, w, h, title, detail, class);
    let a = "<g class=\"node "@ + html_quoted(class) + "\">\n  <rect x=\""@ + decimal(x) + "\" y=\""@
        + decimal(y) + "\" width=\""@ + decimal(w) + "\" height=\""@ + decimal(h)
        + "\" />\n  <text class=\"title\" x=\""@ + decimal(x + 14) + "\" y=\""@ + decimal(y + 29);
    let t = html_quoted(title);
    let m = "</text>\n  <text class=\"detail\" x=\""@;
    let b = decimal(x + 14) + "\" y=\""@ + decimal(y + 53);
    let e = html_quoted(detail);
    let f = "</text>\n</g>\n"@;
    assert(text =~= a + "\">"@ + t + m + b + "\">"@ + e + f);
    lemma_boxed(a, t, "\n  <text class=\"detail\" x=\""@, b, e, "\n</g>\n"@);
    assert(text =~= a + ("\""@ + ">"@) + t + ("</text>"@ + "\n  <text class=\"detail\" x=\""@) + b + (
    "\""@ + ">"@) + e + ("</text>"@ + "\n</g>\n"@));
}

proof fn lemma_boxed(
    a: Seq<char>,
    t: Seq<char>,
    m: Seq<char>,
    b: Seq<char>,
    e: Seq<char>,
    f: Seq<char>,
)
    ensures
        ({
            let text = a + ("\""@ + ">"@) + t + ("</text>"@ + m) + b + ("\""@ + ">"@) + e + ("</text>"@
                + f);
            occurs(">"@ + t + "</text>"@, text) && occurs(">"@ + e + "</text>"@, text)
        }),
{
    let q = "\""@;
    let g = ">"@;
    let c = "</text>"@;
    let text = a + (q + g) + t + (c + m) + b + (q + g) + e + (c + f);
    assert(text =~= (a + q) + (g + t + c) + (m + b + (q + g) + e + (c + f)));
    assert(text =~= (a + (q + g) + t + (c + m) + b + q) + (g + e + c) + f);
}

proof fn lemma_step_box(steps: Seq<Seq<char>>, i: int)
    requires
        0 <= i < steps.len(),
    ensures
        occurs(
            node_text(
                (70 + 178 * (i + 1)) as nat,
                270,
                138,
                72,
                "step "@ + decimal((i + 1) as nat),
                steps[i],
                "step"@,
            ),
            step_row(steps),
        ),
    decreases steps.len(),
{
    let init = steps.drop_last();
    let n = steps.len();
    let own = node_text(
        (70 + 178 * (i + 1)) as nat,
        270,
        138,
        72,
        "step "@ + decimal((i + 1) as nat),
        steps[i],
        "step"@,
    );
    let last = node_text(
        (70 + 178 * n) as nat,
        270,
        138,
        72,
        "step "@ + decimal(n),
        steps.last(),
        "step"@,
    );
    let edge = edge_text(
        (30 + 178 * n) as nat,
        306,
        (70 + 178 * n) as nat,
        306,
        ""@,
    );
    assert(step_row(steps) == step_row(init) + last + edge);
    if i == n - 1 {
        assert(own == last);
        assert(step_row(init) + last + edge =~= step_row(init) + own + edge);
    } else {
        lemma_step_box(init, i);
        assert(init[i] == steps[i]);
        lemma_grown(step_row(init), last + edge, own);
        assert(step_row(init) + (last + edge) =~= step_row(init) + last + edge);
    }
}

/// The lowered program reads the file that the group reads, and writes the one that
/// it writes.
pub proof fn lowered_programs_keep_their_files(read: Seq<char>, write: Seq<char>)
    ensures
        occurs("const char *input_path = \""@ + c_quoted(read) + "\";\n"@, lowered(read, write)),
        occurs("const char *output_path = \""@ + c_quoted(write) + "\";\n"@, lowered(read, write)),
{
    reveal_strlit("\";\n");
    reveal_strlit("const char *input_path = \"");
    reveal_strlit("const char *output_path = \"");
    reveal_strlit("#include <stdio.h>\n#include <stdlib.h>\n\nstatic void print_values(FILE *stream, const double *values, int count) {\n    fputs(\"normalized: [\", stream);\n    for (int i = 0; i < count; ++i) {\n        fprintf(stream, \"%.2f\", values[i]);\n        if (i + 1 < count) {\n            fputs(\", \", stream);\n        }\n    }\n    fputs(\"]\", stream);\n}\n\nint main(void) {\n    const char *input_path = \"");
    reveal_strlit("\";\n    const char *output_path = \"");
    reveal_strlit("\";\n    FILE *input = fopen(input_path, \"r\");\n    if (!input) {\n        perror(input_path);\n        return 1;\n    }\n\n    double input_values[64];\n    int input_count = 0;\n    while (input_count < 64 && fscanf(input, \"%lf\", &input_values[input_count]) == 1) {\n        input_count += 1;\n    }\n    fclose(input);\n\n    if (input_count == 0) {\n        fprintf(stderr, \"no input values found in %s\\n\", input_path);\n        return 1;\n    }\n\n    double max_value = input_values[0];\n    for (int i = 1; i < input_count; ++i) {\n        if (input_values[i] > max_value) {\n            max_value = input_values[i];\n        }\n    }\n    if (max_value == 0.0) {\n        fprintf(stderr, \"cannot normalize by zero\\n\");\n        return 1;\n    }\n\n    double output_values[64];\n    for (int i = 0; i < input_count; ++i) {\n        output_values[i] = input_values[i] / max_value;\n    }\n\n    FILE *output = fopen(output_path, \"w\");\n    if (!output) {\n        perror(output_path);\n        return 1;\n    }\n\n    print_values(stdout, output_values, input_count);\n    fputc('\\n', stdout);\n    print_values(output, output_values, input_count);\n    fputc('\\n', output);\n    fclose(output);\n\n    return 0;\n}\n");
    let foot = "\";\n"@;
    let one = "const char *input_path = \""@;
    let two = "const char *output_path = \""@;
    let h = C_HEAD@.take(C_HEAD@.len() - one.len());
    let m = C_MIDDLE@.skip(3).take(C_MIDDLE@.len() - 3 - two.len());
    let t = C_TAIL@.skip(3);
    assert(C_HEAD@ == "#include <stdio.h>\n#include <stdlib.h>\n\nstatic void print_values(FILE *stream, const double *values, int count) {\n    fputs(\"normalized: [\", stream);\n    for (int i = 0; i < count; ++i) {\n        fprintf(stream, \"%.2f\", values[i]);\n        if (i + 1 < count) {\n            fputs(\", \", stream);\n        }\n    }\n    fputs(\"]\", stream);\n}\n\nint main(void) {\n    const char *input_path = \""@);
    assert(C_MIDDLE@ == "\";\n    const char *output_path = \""@);
    assert(C_TAIL@ == "\";\n    FILE *input = fopen(input_path, \"r\");\n    if (!input) {\n        perror(input_path);\n        return 1;\n    }\n\n    double input_values[64];\n    int input_count = 0;\n    while (input_count < 64 && fscanf(input, \"%lf\", &input_values[input_count]) == 1) {\n        input_count += 1;\n    }\n    fclose(input);\n\n    if (input_count == 0) {\n        fprintf(stderr, \"no input values found in %s\\n\", input_path);\n        return 1;\n    }\n\n    double max_value = input_values[0];\n    for (int i = 1; i < input_count; ++i) {\n        if (input_values[i] > max_value) {\n            max_value = input_values[i];\n        }\n    }\n    if (max_value == 0.0) {\n        fprintf(stderr, \"cannot normalize by zero\\n\");\n        return 1;\n    }\n\n    double output_values[64];\n    for (int i = 0; i < input_count; ++i) {\n        output_values[i] = input_values[i] / max_value;\n    }\n\n    FILE *output = fopen(output_path, \"w\");\n    if (!output) {\n        perror(output_path);\n        return 1;\n    }\n\n    print_values(stdout, output_values, input_count);\n    fputc('\\n', stdout);\n    print_values(output, output_values, input_count);\n    fputc('\\n', output);\n    fclose(output);\n\n    return 0;\n}\n"@);
    assert(C_HEAD@ =~= h + one) by {
        assert(C_HEAD@.skip(C_HEAD@.len() - one.len()) =~= one);
    }
    assert(C_MIDDLE@ =~= foot + m + two) by {
        assert(C_MIDDLE@.take(3) =~= foot);
        assert(C_MIDDLE@.skip(C_MIDDLE@.len() - two.len()) =~= two);
    }
    assert(C_TAIL@ =~= foot + t) by {
        assert(C_TAIL@.take(3) =~= foot);
    }
    lemma_lowered(h, one, c_quoted(read), foot, m, two, c_quoted(write), t);
}

proof fn lemma_lowered(
    h: Seq<char>,
    one: Seq<char>,
    a: Seq<char>,
    foot: Seq<char>,
    m: Seq<char>,
    two: Seq<char>,
    b: Seq<char>,
    t: Seq<char>,
)
    ensures
        ({
            let text = (h + one) + a + (foot + m + two) + b + (foot + t);
            occurs(one + a + foot, text) && occurs(two + b + foot, text)
        }),
{
    let text = (h + one) + a + (foot + m + two) + b + (foot + t);
    assert(text =~= h + (one + a + foot) + (m + two + b + (foot + t)));
    assert(text =~= ((h + one) + a + foot + m) + (two + b + foot) + t);
}

} // verus!
