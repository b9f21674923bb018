//! The execution graph of a program, as a picture.

use vstd::prelude::*;

use crate::environment::EnvironmentRefV2;
use crate::quoting::{label_escape, label_quoted};
use crate::resource::{Resource, ResourceKey};
use crate::text::{chars_of, decimal, decimal_spells, push_decimal, string_of};

verus! {

/// What a node of the graph stands for.
#[derive(Debug)]
pub enum HNodeKind {
    /// A value; what it is, and whose, where that is known.
    Value { value: Option<String>, actor: Option<(String, u32)> },
    /// A state of a resource.
    ResourceState { resource: ResourceKey, version: u64 },
    /// That an operation has ended.
    Completion { plan_node: usize },
    /// That a branch is taken.
    BranchControl { label: String, version: u64 },
    /// That something is known of an operation.
    AdmissionEvidence { plan_node: usize, fact: String },
}

/// A node of the graph.
#[derive(Debug)]
pub struct HNode {
    pub id: u64,
    pub kind: HNodeKind,
}

/// Which way a relation uses a node.
#[derive(Clone, Copy, Debug, PartialEq, Eq, Structural)]
pub enum PortRole {
    Input,
    Output,
    InOut,
}

/// A node that a relation uses.
#[derive(Clone, Copy, Debug, PartialEq, Eq, Structural)]
pub struct Port {
    pub node: u64,
    pub role: PortRole,
}

/// What a relation says of its nodes.
#[derive(Debug)]
pub enum OpKind {
    Additive,
    Multiplicative,
    Bitwise,
    Ordered,
    Bounded,
    AbiFixed,
    Dereferenceable,
    DataFlow,
    StructuralBarrier,
    Sequence,
    Batch,
    All,
    Any,
    Race,
    FieldAccess { field: String },
    Request { kind: String },
    Schedule { kind: String },
    X86 { mnemonic: String },
    OcoreOp { kind: String },
    ActorSerial { lang: String, env: u32 },
    CacheMemo { cacheable: bool },
    BackendCrossing { from_lang: String, to_lang: String },
}

/// A relation between nodes.
#[derive(Debug)]
pub struct Relation {
    pub id: u64,
    pub kind: OpKind,
    pub ports: Vec<Port>,
}

/// What an operation does.
#[derive(Debug)]
pub enum ExecutableOp {
    Store,
    LoadBinding,
    Invoke { fn_name: String, mode: String },
    EvalBackend { lang: String, env: u32 },
    InlineBackend { lang: String },
    ForceRequest { kind: String },
    Request { kind: String },
    Group { mode: String },
    Schedule { kind: String },
    MaterializeProject,
    BuildRoute { route_id: String },
    RunRoute { route_id: String },
    SelectRoute { policy: String },
    CompareRouteResults,
}

/// When an operation's inputs are ready.
#[derive(Clone, Copy, Debug, PartialEq, Eq, Structural)]
pub enum ReadyInputPolicy {
    All,
    OrderedFirstSuccess,
    /// It cannot be told.
    Invalid,
}

/// An operation: its inputs, its outputs, and which of these is its value.
#[derive(Debug)]
pub struct Execution {
    pub edge: u64,
    pub plan_node: usize,
    pub ordinal: u64,
    pub op: ExecutableOp,
    pub ready: ReadyInputPolicy,
    pub inputs: Vec<u64>,
    pub outputs: Vec<u64>,
    pub value_output: u64,
}

/// An execution graph.
#[derive(Debug)]
pub struct HGraph {
    pub nodes: Vec<HNode>,
    pub relations: Vec<Relation>,
    /// The operations, in order.
    pub executions: Vec<Execution>,
}

/// What a relation is called.
pub open spec fn kind_text(kind: OpKind) -> Seq<char> {
    match kind {
        OpKind::Additive => "additive"@,
        OpKind::Multiplicative => "multiplicative"@,
        OpKind::Bitwise => "bitwise"@,
        OpKind::Ordered => "ordered"@,
        OpKind::Bounded => "bounded"@,
        OpKind::AbiFixed => "abi_fixed"@,
        OpKind::Dereferenceable => "deref"@,
        OpKind::DataFlow => "dataflow"@,
        OpKind::StructuralBarrier => "structural"@,
        OpKind::Sequence => "sequence"@,
        OpKind::Batch => "batch"@,
        OpKind::All => "all"@,
        OpKind::Any => "any"@,
        OpKind::Race => "race"@,
        OpKind::FieldAccess { field } => "field:"@ + field@,
        OpKind::Request { kind } => "request:"@ + kind@,
        OpKind::Schedule { kind } => "schedule:"@ + kind@,
        OpKind::X86 { mnemonic } => "x86:"@ + mnemonic@,
        OpKind::OcoreOp { kind } => "ocore:"@ + kind@,
        OpKind::ActorSerial { lang, env } => "actor_serial("@ + lang@ + "/"@ + decimal(env as nat)
            + ")"@,
        OpKind::CacheMemo { cacheable } => if cacheable {
            "cache:memo"@
        } else {
            "cache:bypass"@
        },
        OpKind::BackendCrossing { from_lang, to_lang } => "crossing:"@ + from_lang@ + "\u{2192}"@
            + to_lang@,
    }
}

/// What a relation is called.
pub fn op_kind_label(kind: &OpKind) -> (out: String)
    ensures
        out@ == kind_text(*kind),
{
    match kind {
        OpKind::Additive => "additive".to_owned(),
        OpKind::Multiplicative => "multiplicative".to_owned(),
        OpKind::Bitwise => "bitwise".to_owned(),
        OpKind::Ordered => "ordered".to_owned(),
        OpKind::Bounded => "bounded".to_owned(),
        OpKind::AbiFixed => "abi_fixed".to_owned(),
        OpKind::Dereferenceable => "deref".to_owned(),
        OpKind::DataFlow => "dataflow".to_owned(),
        OpKind::StructuralBarrier => "structural".to_owned(),
        OpKind::Sequence => "sequence".to_owned(),
        OpKind::Batch => "batch".to_owned(),
        OpKind::All => "all".to_owned(),
        OpKind::Any => "any".to_owned(),
        OpKind::Race => "race".to_owned(),
        OpKind::FieldAccess { field } => "field:".to_owned().concat(field.as_str()),
        OpKind::Request { kind } => "request:".to_owned().concat(kind.as_str()),
        OpKind::Schedule { kind } => "schedule:".to_owned().concat(kind.as_str()),
        OpKind::X86 { mnemonic } => "x86:".to_owned().concat(mnemonic.as_str()),
        OpKind::OcoreOp { kind } => "ocore:".to_owned().concat(kind.as_str()),
        OpKind::ActorSerial { lang, env } => {
            let mut out = "actor_serial(".to_owned();
            out.append(lang.as_str());
            out.append("/");
            push_decimal(&mut out, *env as u64);
            out.append(")");
            out
        },
        OpKind::CacheMemo { cacheable } => if *cacheable {
            "cache:memo".to_owned()
        } else {
            "cache:bypass".to_owned()
        },
        OpKind::BackendCrossing { from_lang, to_lang } => {
            let mut out = "crossing:".to_owned();
            out.append(from_lang.as_str());
            out.append("\u{2192}");
            out.append(to_lang.as_str());
            out
        },
    }
}

/// What an operation is called.
pub open spec fn operation_text(op: ExecutableOp, ready: ReadyInputPolicy) -> Seq<char> {
    match op {
        ExecutableOp::Store => "store"@,
        ExecutableOp::LoadBinding => "load binding"@,
        ExecutableOp::Invoke { fn_name, mode } => "invoke:"@ + fn_name@ + " ("@ + mode@ + ")"@,
        ExecutableOp::EvalBackend { lang, env } => match EnvironmentRefV2::decoding(env) {
            EnvironmentRefV2::Ephemeral => "eval:"@ + lang@,
            EnvironmentRefV2::LinkerIsolated => "eval:"@ + lang@ + "[*]"@,
            EnvironmentRefV2::Persistent(id) => "eval:"@ + lang@ + "["@ + decimal(id as nat) + "]"@,
        },
        ExecutableOp::InlineBackend { lang } => "inline:"@ + lang@,
        ExecutableOp::ForceRequest { kind } => "force-request:"@ + kind@,
        ExecutableOp::Request { kind } => "request:"@ + kind@,
        ExecutableOp::Group { mode } => "group:"@ + mode@,
        ExecutableOp::Schedule { kind } => "schedule:"@ + kind@,
        ExecutableOp::MaterializeProject => "materialize-project"@,
        ExecutableOp::BuildRoute { route_id } => "build-route:"@ + route_id@,
        ExecutableOp::RunRoute { route_id } => "run-route:"@ + route_id@,
        ExecutableOp::SelectRoute { policy } => "select-route:"@ + policy@ + (match ready {
            ReadyInputPolicy::OrderedFirstSuccess => "\ninputs:ordered-first-success"@,
            ReadyInputPolicy::Invalid => if policy@ == "fallback"@ || policy@ == "any_success"@ {
                "\ninputs:invalid"@
            } else {
                ""@
            },
            ReadyInputPolicy::All => ""@,
        }),
        ExecutableOp::CompareRouteResults => "compare-route-results"@,
    }
}

/// What an operation is called.
pub fn executable_op_label(op: &ExecutableOp, ready: ReadyInputPolicy) -> (out: String)
    ensures
        out@ == operation_text(*op, ready),
{
    match op {
        ExecutableOp::Store => "store".to_owned(),
        ExecutableOp::LoadBinding => "load binding".to_owned(),
        ExecutableOp::Invoke { fn_name, mode } => {
            let mut out = "invoke:".to_owned();
            out.append(fn_name.as_str());
            out.append(" (");
            out.append(mode.as_str());
            out.append(")");
            out
        },
        ExecutableOp::EvalBackend { lang, env } => {
            let mut out = "eval:".to_owned();
            out.append(lang.as_str());
            match EnvironmentRefV2::from_encoded(*env) {
                EnvironmentRefV2::Ephemeral => {},
                EnvironmentRefV2::LinkerIsolated => {
                    out.append("[*]");
                },
                EnvironmentRefV2::Persistent(id) => {
                    out.append("[");
                    push_decimal(&mut out, id as u64);
                    out.append("]");
                },
            }
            out
        },
        ExecutableOp::InlineBackend { lang } => "inline:".to_owned().concat(lang.as_str()),
        ExecutableOp::ForceRequest { kind } => "force-request:".to_owned().concat(kind.as_str()),
        ExecutableOp::Request { kind } => "request:".to_owned().concat(kind.as_str()),
        ExecutableOp::Group { mode } => "group:".to_owned().concat(mode.as_str()),
        ExecutableOp::Schedule { kind } => "schedule:".to_owned().concat(kind.as_str()),
        ExecutableOp::MaterializeProject => "materialize-project".to_owned(),
        ExecutableOp::BuildRoute { route_id } => "build-route:".to_owned().concat(
            route_id.as_str(),
        ),
        ExecutableOp::RunRoute { route_id } => "run-route:".to_owned().concat(route_id.as_str()),
        ExecutableOp::SelectRoute { policy } => {
            let mut out = "select-route:".to_owned();
            out.append(policy.as_str());
            match ready {
                ReadyInputPolicy::OrderedFirstSuccess => {
                    out.append("\ninputs:ordered-first-success");
                },
                ReadyInputPolicy::Invalid => {
                    if *policy.as_str() == *"fallback" || *policy.as_str() == *"any_success" {
                        out.append("\ninputs:invalid");
                    } else {
                        out.append("");
                    }
                },
                ReadyInputPolicy::All => {
                    out.append("");
                },
            }
            out
        },
        ExecutableOp::CompareRouteResults => "compare-route-results".to_owned(),
    }
}

/// How a vertex of the picture looks.
#[derive(Clone, Copy, Debug, PartialEq, Eq, Structural)]
pub enum DotStyle {
    Value,
    Resource,
    ActorState,
    Completion,
    Control,
    Execute,
    Constraint,
}

/// The end of a vertex's line.
pub open spec fn style_text(style: DotStyle) -> Seq<char> {
    match style {
        DotStyle::Value => "\", shape = \"ellipse\", style = \"filled\", fillcolor = \"#1e1e2e\", color = \"#89b4fa\", penwidth = \"1\"];\n"@,
        DotStyle::Resource => "\", shape = \"hexagon\", style = \"filled\", fillcolor = \"#243447\", color = \"#74c7ec\", penwidth = \"1\"];\n"@,
        DotStyle::ActorState => "\", shape = \"doubleoctagon\", style = \"filled,bold\", fillcolor = \"#3b3154\", color = \"#cba6f7\", penwidth = \"2\"];\n"@,
        DotStyle::Completion => "\", shape = \"diamond\", style = \"filled\", fillcolor = \"#24352d\", color = \"#a6e3a1\", penwidth = \"1\"];\n"@,
        DotStyle::Control => "\", shape = \"octagon\", style = \"filled\", fillcolor = \"#403827\", color = \"#f9e2af\", penwidth = \"1\"];\n"@,
        DotStyle::Execute => "\", shape = \"box\", style = \"rounded,filled,bold\", fillcolor = \"#452f3b\", color = \"#f38ba8\", penwidth = \"2\"];\n"@,
        DotStyle::Constraint => "\", shape = \"diamond\", style = \"filled,dashed\", fillcolor = \"#313244\", color = \"#6c7086\", penwidth = \"1\"];\n"@,
    }
}

fn style_end(style: DotStyle) -> (text: &'static str)
    ensures
        text@ == style_text(style),
{
    match style {
        DotStyle::Value => "\", shape = \"ellipse\", style = \"filled\", fillcolor = \"#1e1e2e\", color = \"#89b4fa\", penwidth = \"1\"];\n",
        DotStyle::Resource => "\", shape = \"hexagon\", style = \"filled\", fillcolor = \"#243447\", color = \"#74c7ec\", penwidth = \"1\"];\n",
        DotStyle::ActorState => "\", shape = \"doubleoctagon\", style = \"filled,bold\", fillcolor = \"#3b3154\", color = \"#cba6f7\", penwidth = \"2\"];\n",
        DotStyle::Completion => "\", shape = \"diamond\", style = \"filled\", fillcolor = \"#24352d\", color = \"#a6e3a1\", penwidth = \"1\"];\n",
        DotStyle::Control => "\", shape = \"octagon\", style = \"filled\", fillcolor = \"#403827\", color = \"#f9e2af\", penwidth = \"1\"];\n",
        DotStyle::Execute => "\", shape = \"box\", style = \"rounded,filled,bold\", fillcolor = \"#452f3b\", color = \"#f38ba8\", penwidth = \"2\"];\n",
        DotStyle::Constraint => "\", shape = \"diamond\", style = \"filled,dashed\", fillcolor = \"#313244\", color = \"#6c7086\", penwidth = \"1\"];\n",
    }
}

/// A text that is shortened where it is long.
pub open spec fn abbreviated(value: Seq<char>, most: nat) -> Seq<char> {
    if value.len() > most {
        value.take(most as int) + "\u{2026}"@
    } else {
        value
    }
}

/// A text that is shortened where it is long.
pub fn abbreviate_dot_value(value: &str, max_chars: usize) -> (out: String)
    ensures
        out@ == abbreviated(value@, max_chars as nat),
{
    let chars = chars_of(value);
    if chars.len() > max_chars {
        let mut out = string_of(chars.as_slice(), 0, max_chars);
        assert(out@ =~= value@.take(max_chars as int));
        out.append("\u{2026}");
        out
    } else {
        value.to_owned()
    }
}

/// How a node is called in the picture.
pub open spec fn node_label(node: HNode) -> Seq<char> {
    match node.kind {
        HNodeKind::Value { value, actor } => "Value N"@ + decimal(node.id as nat) + (match value {
            Some(text) => "\n"@ + abbreviated(text@, 40),
            None => ""@,
        }) + (match actor {
            Some((lang, env)) => "\nactor("@ + lang@ + "/"@ + decimal(env as nat) + ")"@,
            None => ""@,
        }),
        HNodeKind::ResourceState { resource, version } => match resource@ {
            Resource::ActorState(actor) => "ActorState("@ + actor.text() + ")@"@ + decimal(
                version as nat,
            ) + "\nN"@ + decimal(node.id as nat),
            _ => resource@.text() + "@"@ + decimal(version as nat) + "\nResource N"@ + decimal(
                node.id as nat,
            ),
        },
        HNodeKind::Completion { plan_node } => "Completion(P"@ + decimal(plan_node as nat) + ")\nN"@
            + decimal(node.id as nat),
        HNodeKind::BranchControl { label, version } => "Control("@ + label@ + ")@"@ + decimal(
            version as nat,
        ) + "\nN"@ + decimal(node.id as nat),
        HNodeKind::AdmissionEvidence { plan_node, fact } => "Evidence("@ + fact@ + ":P"@ + decimal(
            plan_node as nat,
        ) + ")\nN"@ + decimal(node.id as nat),
    }
}

/// How a node looks in the picture.
pub open spec fn node_style(node: HNode) -> DotStyle {
    match node.kind {
        HNodeKind::Value { .. } => DotStyle::Value,
        HNodeKind::ResourceState { resource, .. } => if resource@ is ActorState {
            DotStyle::ActorState
        } else {
            DotStyle::Resource
        },
        HNodeKind::Completion { .. } => DotStyle::Completion,
        HNodeKind::BranchControl { .. } => DotStyle::Control,
        HNodeKind::AdmissionEvidence { .. } => DotStyle::Control,
    }
}

fn value_label(id: u64, value: &Option<String>, actor: &Option<(String, u32)>) -> (label: String)
    ensures
        label@ == "Value N"@ + decimal(id as nat) + (match *value {
            Some(text) => "\n"@ + abbreviated(text@, 40),
            None => ""@,
        }) + (match *actor {
            Some((lang, env)) => "\nactor("@ + lang@ + "/"@ + decimal(env as nat) + ")"@,
            None => ""@,
        }),
{
    let mut label = "Value N".to_owned();
    push_decimal(&mut label, id);
    match value {
        Some(text) => {
            let mut shown = "\n".to_owned();
            shown.append(abbreviate_dot_value(text.as_str(), 40).as_str());
            label.append(shown.as_str());
        },
        None => {
            label.append("");
        },
    }
    match actor {
        Some(pair) => {
            let mut shown = "\nactor(".to_owned();
            shown.append(pair.0.as_str());
            shown.append("/");
            push_decimal(&mut shown, pair.1 as u64);
            shown.append(")");
            label.append(shown.as_str());
        },
        None => {
            label.append("");
        },
    }
    label
}

/// How a node is called and looks in the picture.
pub fn hnode_dot_appearance(node: &HNode) -> (r: (String, DotStyle))
    ensures
        r.0@ == node_label(*node),
        r.1 == node_style(*node),
{
    match &node.kind {
        HNodeKind::Value { value, actor } => (value_label(node.id, value, actor), DotStyle::Value),
        HNodeKind::ResourceState { resource, version } => match resource {
            ResourceKey::ActorState(actor) => {
                let mut label = "ActorState(".to_owned();
                label.append(actor.to_text().as_str());
                label.append(")@");
                push_decimal(&mut label, *version);
                label.append("\nN");
                push_decimal(&mut label, node.id);
                (label, DotStyle::ActorState)
            },
            _ => {
                let mut label = resource.to_text();
                label.append("@");
                push_decimal(&mut label, *version);
                label.append("\nResource N");
                push_decimal(&mut label, node.id);
                (label, DotStyle::Resource)
            },
        },
        HNodeKind::Completion { plan_node } => {
            let mut label = "Completion(P".to_owned();
            push_decimal(&mut label, *plan_node as u64);
            label.append(")\nN");
            push_decimal(&mut label, node.id);
            (label, DotStyle::Completion)
        },
        HNodeKind::BranchControl { label: name, version } => {
            let mut label = "Control(".to_owned();
            label.append(name.as_str());
            label.append(")@");
            push_decimal(&mut label, *version);
            label.append("\nN");
            push_decimal(&mut label, node.id);
            (label, DotStyle::Control)
        },
        HNodeKind::AdmissionEvidence { plan_node, fact } => {
            let mut label = "Evidence(".to_owned();
            label.append(fact.as_str());
            label.append(":P");
            push_decimal(&mut label, *plan_node as u64);
            label.append(")\nN");
            push_decimal(&mut label, node.id);
            (label, DotStyle::Control)
        },
    }
}

/// What an operation uses of a node.
pub open spec fn port_text(kind: HNodeKind) -> Seq<char> {
    match kind {
        HNodeKind::Value { .. } => "value"@,
        HNodeKind::ResourceState { resource, .. } => if resource@ is ActorState {
            "actor-state"@
        } else {
            "resource-state"@
        },
        HNodeKind::Completion { .. } => "completion"@,
        HNodeKind::BranchControl { .. } => "control"@,
        HNodeKind::AdmissionEvidence { .. } => "admission-evidence"@,
    }
}

/// What an operation uses of the node with a number.
pub open spec fn port_of(nodes: Seq<HNode>, id: u64) -> Seq<char>
    decreases nodes.len(),
{
    if nodes.len() == 0 {
        "missing-node"@
    } else if nodes.last().id == id {
        port_text(nodes.last().kind)
    } else {
        port_of(nodes.drop_last(), id)
    }
}

fn kind_port(kind: &HNodeKind) -> (text: &'static str)
    ensures
        text@ == port_text(*kind),
{
    match kind {
        HNodeKind::Value { value: _, actor: _ } => "value",
        HNodeKind::ResourceState { resource, version: _ } => match resource {
            ResourceKey::ActorState(_) => "actor-state",
            _ => "resource-state",
        },
        HNodeKind::Completion { plan_node: _ } => "completion",
        HNodeKind::BranchControl { label: _, version: _ } => "control",
        HNodeKind::AdmissionEvidence { plan_node: _, fact: _ } => "admission-evidence",
    }
}

/// What an operation uses of the node with a number.
pub fn hnode_port_label(nodes: &Vec<HNode>, id: u64) -> (text: &'static str)
    ensures
        text@ == port_of(nodes@, id),
{
    let mut i: usize = nodes.len();
    assert(nodes@.take(i as int) =~= nodes@);
    while i > 0
        invariant
            i <= nodes@.len(),
            port_of(nodes@, id) == port_of(nodes@.take(i as int), id),
        decreases i,
    {
        assert(nodes@.take(i as int).drop_last() =~= nodes@.take(i - 1));
        assert(nodes@.take(i as int).last() == nodes@[i - 1]);
        i -= 1;
        if nodes[i].id == id {
            return kind_port(&nodes[i].kind);
        }
    }
    assert(nodes@.take(0).len() == 0);
    "missing-node"
}

/// The line of a vertex.
pub open spec fn vertex_line(id: Seq<char>, label: Seq<char>, style: DotStyle) -> Seq<char> {
    "    "@ + id + " [label = \""@ + label_quoted(label) + style_text(style)
}

/// Writes the line of a vertex.
pub fn push_dot_vertex(out: &mut String, id: &str, label: &str, style: DotStyle)
    ensures
        final(out)@ == old(out)@ + vertex_line(id@, label@, style),
{
    let mut line = "    ".to_owned();
    line.append(id);
    line.append(" [label = \"");
    line.append(label_escape(label).as_str());
    line.append(style_end(style));
    out.append(line.as_str());
}

/// The line of an arrow, of a relation or of an operation.
pub open spec fn arrow_line(
    from: Seq<char>,
    to: Seq<char>,
    label: Seq<char>,
    relation: bool,
) -> Seq<char> {
    "    "@ + from + " -> "@ + to + " [label = \""@ + label_quoted(label) + (if relation {
        "\", color = \"#6c7086\", style = \"dashed\"];\n"@
    } else {
        "\", color = \"#f38ba8\", style = \"solid\"];\n"@
    })
}

/// Writes the line of an arrow, of a relation or of an operation.
pub fn push_dot_arrow(out: &mut String, from: &str, to: &str, label: &str, relation: bool)
    ensures
        final(out)@ == old(out)@ + arrow_line(from@, to@, label@, relation),
{
    let mut line = "    ".to_owned();
    line.append(from);
    line.append(" -> ");
    line.append(to);
    line.append(" [label = \"");
    line.append(label_escape(label).as_str());
    if relation {
        line.append("\", color = \"#6c7086\", style = \"dashed\"];\n");
    } else {
        line.append("\", color = \"#f38ba8\", style = \"solid\"];\n");
    }
    out.append(line.as_str());
}

fn named(prefix: &str, id: u64) -> (out: String)
    ensures
        out@ == prefix@ + decimal(id as nat),
{
    let mut out = prefix.to_owned();
    push_decimal(&mut out, id);
    out
}

/// The vertices of the nodes.
pub open spec fn node_lines(nodes: Seq<HNode>) -> Seq<char>
    decreases nodes.len(),
{
    if nodes.len() == 0 {
        Seq::empty()
    } else {
        node_lines(nodes.drop_last()) + vertex_line(
            "n"@ + decimal(nodes.last().id as nat),
            node_label(nodes.last()),
            node_style(nodes.last()),
        )
    }
}

/// The arrows of one port: into the relation's vertex, out of it, or both.
pub open spec fn port_arrows(relation: u64, port: Port) -> Seq<char> {
    let vertex = "constraint"@ + decimal(relation as nat);
    let node = "n"@ + decimal(port.node as nat);
    (if port.role is Input || port.role is InOut {
        arrow_line(node, vertex, "in"@, true)
    } else {
        Seq::empty()
    }) + (if port.role is Output || port.role is InOut {
        arrow_line(vertex, node, "out"@, true)
    } else {
        Seq::empty()
    })
}

pub open spec fn ports_lines(relation: u64, ports: Seq<Port>) -> Seq<char>
    decreases ports.len(),
{
    if ports.len() == 0 {
        Seq::empty()
    } else {
        ports_lines(relation, ports.drop_last()) + port_arrows(relation, ports.last())
    }
}

/// The vertex and the arrows of a relation.
pub open spec fn relation_lines(r: Relation) -> Seq<char> {
    vertex_line(
        "constraint"@ + decimal(r.id as nat),
        "Constraint E"@ + decimal(r.id as nat) + "\n"@ + kind_text(r.kind),
        DotStyle::Constraint,
    ) + ports_lines(r.id, r.ports@)
}

pub open spec fn all_relations(list: Seq<Relation>) -> Seq<char>
    decreases list.len(),
{
    if list.len() == 0 {
        Seq::empty()
    } else {
        all_relations(list.drop_last()) + relation_lines(list.last())
    }
}

pub open spec fn input_lines(nodes: Seq<HNode>, edge: u64, inputs: Seq<u64>) -> Seq<char>
    decreases inputs.len(),
{
    if inputs.len() == 0 {
        Seq::empty()
    } else {
        input_lines(nodes, edge, inputs.drop_last()) + arrow_line(
            "n"@ + decimal(inputs.last() as nat),
            "execute"@ + decimal(edge as nat),
            "input:"@ + port_of(nodes, inputs.last()),
            false,
        )
    }
}

pub open spec fn output_lines(nodes: Seq<HNode>, edge: u64, value: u64, outputs: Seq<u64>) -> Seq<
    char,
>
    decreases outputs.len(),
{
    if outputs.len() == 0 {
        Seq::empty()
    } else {
        output_lines(nodes, edge, value, outputs.drop_last()) + arrow_line(
            "execute"@ + decimal(edge as nat),
            "n"@ + decimal(outputs.last() as nat),
            if outputs.last() == value {
                "result"@
            } else {
                port_of(nodes, outputs.last())
            },
            false,
        )
    }
}

/// The vertex of an operation.
pub open spec fn operation_vertex(e: Execution) -> Seq<char> {
    vertex_line(
        "execute"@ + decimal(e.edge as nat),
        "Execute E"@ + decimal(e.edge as nat) + "\nP"@ + decimal(e.plan_node as nat) + " ordinal "@
            + decimal(e.ordinal as nat) + "\n"@ + operation_text(e.op, e.ready),
        DotStyle::Execute,
    )
}

/// The vertex and the arrows of an operation.
pub open spec fn execution_lines(nodes: Seq<HNode>, e: Execution) -> Seq<char> {
    operation_vertex(e) + input_lines(nodes, e.edge, e.inputs@) + output_lines(
        nodes,
        e.edge,
        e.value_output,
        e.outputs@,
    )
}

pub open spec fn all_executions(nodes: Seq<HNode>, list: Seq<Execution>) -> Seq<char>
    decreases list.len(),
{
    if list.len() == 0 {
        Seq::empty()
    } else {
        all_executions(nodes, list.drop_last()) + execution_lines(nodes, list.last())
    }
}

/// The picture of a graph.
pub open spec fn picture(g: HGraph) -> Seq<char> {
    "digraph hgraph {\n    graph [bgcolor = \"#11111b\", rankdir = \"LR\"];\n    node [fontname = \"FiraCode\", fontcolor = \"#cdd6f4\"];\n    edge [fontname = \"FiraCode\", fontcolor = \"#bac2de\", color = \"#bac2de\"];\n"@
        + node_lines(g.nodes@) + all_relations(g.relations@) + all_executions(
        g.nodes@,
        g.executions@,
    ) + "}\n"@
}

fn write_nodes(nodes: &Vec<HNode>) -> (out: String)
    ensures
        out@ == node_lines(nodes@),
{
    let mut out = String::new();
    let mut i: usize = 0;
    assert(out@ =~= node_lines(nodes@.take(0)));
    while i < nodes.len()
        invariant
            i <= nodes@.len(),
            out@ == node_lines(nodes@.take(i as int)),
        decreases nodes@.len() - i,
    {
        assert(nodes@.take(i + 1).drop_last() =~= nodes@.take(i as int));
        let (label, style) = hnode_dot_appearance(&nodes[i]);
        push_dot_vertex(&mut out, named("n", nodes[i].id).as_str(), label.as_str(), style);
        i += 1;
    }
    assert(nodes@.take(i as int) =~= nodes@);
    out
}

fn write_port(relation: u64, port: Port) -> (out: String)
    ensures
        out@ == port_arrows(relation, port),
{
    let vertex = named("constraint", relation);
    let node = named("n", port.node);
    let mut out = String::new();
    match port.role {
        PortRole::Input => {
            push_dot_arrow(&mut out, node.as_str(), vertex.as_str(), "in", true);
        },
        PortRole::Output => {
            push_dot_arrow(&mut out, vertex.as_str(), node.as_str(), "out", true);
        },
        PortRole::InOut => {
            push_dot_arrow(&mut out, node.as_str(), vertex.as_str(), "in", true);
            push_dot_arrow(&mut out, vertex.as_str(), node.as_str(), "out", true);
        },
    }
    assert(out@ =~= port_arrows(relation, port));
    out
}

fn write_relation(r: &Relation) -> (out: String)
    ensures
        out@ == relation_lines(*r),
{
    let mut label = "Constraint E".to_owned();
    push_decimal(&mut label, r.id);
    label.append("\n");
    label.append(op_kind_label(&r.kind).as_str());
    let mut ports = String::new();
    let mut i: usize = 0;
    assert(ports@ =~= ports_lines(r.id, r.ports@.take(0)));
    while i < r.ports.len()
        invariant
            i <= r.ports@.len(),
            ports@ == ports_lines(r.id, r.ports@.take(i as int)),
        decreases r.ports@.len() - i,
    {
        assert(r.ports@.take(i + 1).drop_last() =~= r.ports@.take(i as int));
        ports.append(write_port(r.id, r.ports[i]).as_str());
        i += 1;
    }
    assert(r.ports@.take(i as int) =~= r.ports@);
    let mut out = String::new();
    push_dot_vertex(
        &mut out,
        named("constraint", r.id).as_str(),
        label.as_str(),
        DotStyle::Constraint,
    );
    out.append(ports.as_str());
    assert(out@ =~= relation_lines(*r));
    out
}

fn write_inputs(nodes: &Vec<HNode>, edge: u64, inputs: &Vec<u64>) -> (out: String)
    ensures
        out@ == input_lines(nodes@, edge, inputs@),
{
    let vertex = named("execute", edge);
    let mut out = String::new();
    let mut i: usize = 0;
    assert(out@ =~= input_lines(nodes@, edge, inputs@.take(0)));
    while i < inputs.len()
        invariant
            i <= inputs@.len(),
            vertex@ == "execute"@ + decimal(edge as nat),
            out@ == input_lines(nodes@, edge, inputs@.take(i as int)),
        decreases inputs@.len() - i,
    {
        assert(inputs@.take(i + 1).drop_last() =~= inputs@.take(i as int));
        assert(inputs@.take(i + 1).last() == inputs@[i as int]);
        let id: u64 = inputs[i];
        let label = "input:".to_owned().concat(hnode_port_label(nodes, id));
        push_dot_arrow(&mut out, named("n", id).as_str(), vertex.as_str(), label.as_str(), false);
        i += 1;
    }
    assert(inputs@.take(i as int) =~= inputs@);
    out
}

fn write_outputs(nodes: &Vec<HNode>, edge: u64, value: u64, outputs: &Vec<u64>) -> (out: String)
    ensures
        out@ == output_lines(nodes@, edge, value, outputs@),
{
    let vertex = named("execute", edge);
    let mut out = String::new();
    let mut i: usize = 0;
    assert(out@ =~= output_lines(nodes@, edge, value, outputs@.take(0)));
    while i < outputs.len()
        invariant
            i <= outputs@.len(),
            vertex@ == "execute"@ + decimal(edge as nat),
            out@ == output_lines(nodes@, edge, value, outputs@.take(i as int)),
        decreases outputs@.len() - i,
    {
        assert(outputs@.take(i + 1).drop_last() =~= outputs@.take(i as int));
        assert(outputs@.take(i + 1).last() == outputs@[i as int]);
        let id: u64 = outputs[i];
        let label = if id == value {
            "result"
        } else {
            hnode_port_label(nodes, id)
        };
        push_dot_arrow(&mut out, vertex.as_str(), named("n", id).as_str(), label, false);
        i += 1;
    }
    assert(outputs@.take(i as int) =~= outputs@);
    out
}

fn write_execution(nodes: &Vec<HNode>, e: &Execution) -> (out: String)
    ensures
        out@ == execution_lines(nodes@, *e),
{
    let mut label = "Execute E".to_owned();
    push_decimal(&mut label, e.edge);
    label.append("\nP");
    push_decimal(&mut label, e.plan_node as u64);
    label.append(" ordinal ");
    push_decimal(&mut label, e.ordinal);
    label.append("\n");
    label.append(executable_op_label(&e.op, e.ready).as_str());
    let mut out = String::new();
    push_dot_vertex(
        &mut out,
        named("execute", e.edge).as_str(),
        label.as_str(),
        DotStyle::Execute,
    );
    out.append(write_inputs(nodes, e.edge, &e.inputs).as_str());
    out.append(write_outputs(nodes, e.edge, e.value_output, &e.outputs).as_str());
    assert(out@ =~= execution_lines(nodes@, *e));
    out
}

fn write_relations(list: &Vec<Relation>) -> (out: String)
    ensures
        out@ == all_relations(list@),
{
    let mut out = String::new();
    let mut i: usize = 0;
    assert(out@ =~= all_relations(list@.take(0)));
    while i < list.len()
        invariant
            i <= list@.len(),
            out@ == all_relations(list@.take(i as int)),
        decreases list@.len() - i,
    {
        assert(list@.take(i + 1).drop_last() =~= list@.take(i as int));
        out.append(write_relation(&list[i]).as_str());
        i += 1;
    }
    assert(list@.take(i as int) =~= list@);
    out
}

fn write_executions(nodes: &Vec<HNode>, list: &Vec<Execution>) -> (out: String)
    ensures
        out@ == all_executions(nodes@, list@),
{
    let mut out = String::new();
    let mut i: usize = 0;
    assert(out@ =~= all_executions(nodes@, list@.take(0)));
    while i < list.len()
        invariant
            i <= list@.len(),
            out@ == all_executions(nodes@, list@.take(i as int)),
        decreases list@.len() - i,
    {
        assert(list@.take(i + 1).drop_last() =~= list@.take(i as int));
        out.append(write_execution(nodes, &list[i]).as_str());
        i += 1;
    }
    assert(list@.take(i as int) =~= list@);
    out
}

/// The picture of a graph: a vertex for each node, for each relation and for
/// each operation, and the arrows between them as they are used.
pub fn hgraph_to_dot(graph: &HGraph) -> (out: String)
    ensures
        out@ == picture(*graph),
{
    let mut out = "digraph hgraph {\n    graph [bgcolor = \"#11111b\", rankdir = \"LR\"];\n    node [fontname = \"FiraCode\", fontcolor = \"#cdd6f4\"];\n    edge [fontname = \"FiraCode\", fontcolor = \"#bac2de\", color = \"#bac2de\"];\n".to_owned();
    out.append(write_nodes(&graph.nodes).as_str());
    out.append(write_relations(&graph.relations).as_str());
    out.append(write_executions(&graph.nodes, &graph.executions).as_str());
    out.append("}\n");
    out
}

/// Whether a text stands somewhere in another.
pub open spec fn drawn(text: Seq<char>, part: Seq<char>) -> bool {
    exists|at: int|
        0 <= at <= text.len() - part.len() && #[trigger] text.subrange(at, at + part.len()) == part
}

proof fn lemma_drawn_here(before: Seq<char>, part: Seq<char>, after: Seq<char>)
    ensures
        drawn(before + part + after, part),
{
    let text = before + part + after;
    assert(text.subrange(before.len() as int, (before.len() + part.len()) as int) =~= part);
}

proof fn lemma_drawn_inside(before: Seq<char>, middle: Seq<char>, after: Seq<char>, part: Seq<char>)
    requires
        drawn(middle, part),
    ensures
        drawn(before + middle + after, part),
{
    let text = before + middle + after;
    let at = choose|at: int|
        0 <= at <= middle.len() - part.len() && #[trigger] middle.subrange(at, at + part.len())
            == part;
    let place = before.len() + at;
    assert(text.subrange(place, place + part.len()) =~= middle.subrange(at, at + part.len()));
}

proof fn lemma_node_drawn(nodes: Seq<HNode>, i: int)
    requires
        0 <= i < nodes.len(),
    ensures
        drawn(
            node_lines(nodes),
            vertex_line("n"@ + decimal(nodes[i].id as nat), node_label(nodes[i]), node_style(nodes[i])),
        ),
    decreases nodes.len(),
{
    let before = node_lines(nodes.drop_last());
    let last = vertex_line(
        "n"@ + decimal(nodes.last().id as nat),
        node_label(nodes.last()),
        node_style(nodes.last()),
    );
    let nothing = Seq::<char>::empty();
    if i == nodes.len() - 1 {
        lemma_drawn_here(before, last, nothing);
        assert(before + last + nothing =~= node_lines(nodes));
    } else {
        lemma_node_drawn(nodes.drop_last(), i);
        assert(nodes.drop_last()[i] == nodes[i]);
        let part = vertex_line(
            "n"@ + decimal(nodes[i].id as nat),
            node_label(nodes[i]),
            node_style(nodes[i]),
        );
        lemma_drawn_inside(nothing, before, last, part);
        assert(nothing + before + last =~= node_lines(nodes));
    }
}

proof fn lemma_port_drawn(relation: u64, ports: Seq<Port>, i: int)
    requires
        0 <= i < ports.len(),
    ensures
        drawn(ports_lines(relation, ports), port_arrows(relation, ports[i])),
    decreases ports.len(),
{
    let before = ports_lines(relation, ports.drop_last());
    let last = port_arrows(relation, ports.last());
    let nothing = Seq::<char>::empty();
    if i == ports.len() - 1 {
        lemma_drawn_here(before, last, nothing);
        assert(before + last + nothing =~= ports_lines(relation, ports));
    } else {
        lemma_port_drawn(relation, ports.drop_last(), i);
        lemma_drawn_inside(nothing, before, last, port_arrows(relation, ports[i]));
        assert(nothing + before + last =~= ports_lines(relation, ports));
    }
}

proof fn lemma_relation_drawn(list: Seq<Relation>, k: int, part: Seq<char>)
    requires
        0 <= k < list.len(),
        drawn(relation_lines(list[k]), part),
    ensures
        drawn(all_relations(list), part),
    decreases list.len(),
{
    let before = all_relations(list.drop_last());
    let last = relation_lines(list.last());
    let nothing = Seq::<char>::empty();
    if k == list.len() - 1 {
        lemma_drawn_inside(before, last, nothing, part);
        assert(before + last + nothing =~= all_relations(list));
    } else {
        lemma_relation_drawn(list.drop_last(), k, part);
        lemma_drawn_inside(nothing, before, last, part);
        assert(nothing + before + last =~= all_relations(list));
    }
}

proof fn lemma_execution_drawn(nodes: Seq<HNode>, list: Seq<Execution>, k: int, part: Seq<char>)
    requires
        0 <= k < list.len(),
        drawn(execution_lines(nodes, list[k]), part),
    ensures
        drawn(all_executions(nodes, list), part),
    decreases list.len(),
{
    let before = all_executions(nodes, list.drop_last());
    let last = execution_lines(nodes, list.last());
    let nothing = Seq::<char>::empty();
    if k == list.len() - 1 {
        lemma_drawn_inside(before, last, nothing, part);
        assert(before + last + nothing =~= all_executions(nodes, list));
    } else {
        lemma_execution_drawn(nodes, list.drop_last(), k, part);
        lemma_drawn_inside(nothing, before, last, part);
        assert(nothing + before + last =~= all_executions(nodes, list));
    }
}

/// The arrow into an operation from one of its inputs.
pub open spec fn input_arrow(nodes: Seq<HNode>, edge: u64, input: u64) -> Seq<char> {
    arrow_line(
        "n"@ + decimal(input as nat),
        "execute"@ + decimal(edge as nat),
        "input:"@ + port_of(nodes, input),
        false,
    )
}

/// The arrow out of an operation to one of its outputs.
pub open spec fn output_arrow(nodes: Seq<HNode>, edge: u64, value: u64, output: u64) -> Seq<char> {
    arrow_line(
        "execute"@ + decimal(edge as nat),
        "n"@ + decimal(output as nat),
        if output == value {
            "result"@
        } else {
            port_of(nodes, output)
        },
        false,
    )
}

proof fn lemma_input_drawn(nodes: Seq<HNode>, edge: u64, inputs: Seq<u64>, i: int)
    requires
        0 <= i < inputs.len(),
    ensures
        drawn(input_lines(nodes, edge, inputs), input_arrow(nodes, edge, inputs[i])),
    decreases inputs.len(),
{
    let before = input_lines(nodes, edge, inputs.drop_last());
    let last = input_arrow(nodes, edge, inputs.last());
    let nothing = Seq::<char>::empty();
    if i == inputs.len() - 1 {
        lemma_drawn_here(before, last, nothing);
        assert(before + last + nothing =~= input_lines(nodes, edge, inputs));
    } else {
        lemma_input_drawn(nodes, edge, inputs.drop_last(), i);
        lemma_drawn_inside(nothing, before, last, input_arrow(nodes, edge, inputs[i]));
        assert(nothing + before + last =~= input_lines(nodes, edge, inputs));
    }
}

proof fn lemma_output_drawn(nodes: Seq<HNode>, edge: u64, value: u64, outputs: Seq<u64>, i: int)
    requires
        0 <= i < outputs.len(),
    ensures
        drawn(
            output_lines(nodes, edge, value, outputs),
            output_arrow(nodes, edge, value, outputs[i]),
        ),
    decreases outputs.len(),
{
    let before = output_lines(nodes, edge, value, outputs.drop_last());
    let last = output_arrow(nodes, edge, value, outputs.last());
    let nothing = Seq::<char>::empty();
    if i == outputs.len() - 1 {
        lemma_drawn_here(before, last, nothing);
        assert(before + last + nothing =~= output_lines(nodes, edge, value, outputs));
    } else {
        lemma_output_drawn(nodes, edge, value, outputs.drop_last(), i);
        lemma_drawn_inside(nothing, before, last, output_arrow(nodes, edge, value, outputs[i]));
        assert(nothing + before + last =~= output_lines(nodes, edge, value, outputs));
    }
}

proof fn lemma_picture(g: HGraph, part: Seq<char>)
    requires
        drawn(node_lines(g.nodes@), part) || drawn(all_relations(g.relations@), part) || drawn(
            all_executions(g.nodes@, g.executions@),
            part,
        ),
    ensures
        drawn(picture(g), part),
{
    let head = "digraph hgraph {\n    graph [bgcolor = \"#11111b\", rankdir = \"LR\"];\n    node [fontname = \"FiraCode\", fontcolor = \"#cdd6f4\"];\n    edge [fontname = \"FiraCode\", fontcolor = \"#bac2de\", color = \"#bac2de\"];\n"@;
    let nodes = node_lines(g.nodes@);
    let relations = all_relations(g.relations@);
    let executions = all_executions(g.nodes@, g.executions@);
    if drawn(nodes, part) {
        lemma_drawn_inside(head, nodes, relations + executions + "}\n"@, part);
        assert(head + nodes + (relations + executions + "}\n"@) =~= picture(g));
    } else if drawn(relations, part) {
        lemma_drawn_inside(head + nodes, relations, executions + "}\n"@, part);
        assert(head + nodes + relations + (executions + "}\n"@) =~= picture(g));
    } else {
        lemma_drawn_inside(head + nodes + relations, executions, "}\n"@, part);
    }
}

/// Every node of a graph has its vertex in the picture.
pub proof fn nodes_are_drawn(g: HGraph, i: int)
    requires
        0 <= i < g.nodes@.len(),
    ensures
        drawn(
            picture(g),
            vertex_line(
                "n"@ + decimal(g.nodes@[i].id as nat),
                node_label(g.nodes@[i]),
                node_style(g.nodes@[i]),
            ),
        ),
{
    lemma_node_drawn(g.nodes@, i);
    lemma_picture(
        g,
        vertex_line(
            "n"@ + decimal(g.nodes@[i].id as nat),
            node_label(g.nodes@[i]),
            node_style(g.nodes@[i]),
        ),
    );
}

/// Every port of a relation has its arrows in the picture: into the relation's
/// vertex, out of it, or both, as the port is used.
pub proof fn relations_show_every_port(g: HGraph, k: int, i: int)
    requires
        0 <= k < g.relations@.len(),
        0 <= i < g.relations@[k].ports@.len(),
    ensures
        drawn(picture(g), port_arrows(g.relations@[k].id, g.relations@[k].ports@[i])),
{
    let r = g.relations@[k];
    let part = port_arrows(r.id, r.ports@[i]);
    lemma_port_drawn(r.id, r.ports@, i);
    let vertex = vertex_line(
        "constraint"@ + decimal(r.id as nat),
        "Constraint E"@ + decimal(r.id as nat) + "\n"@ + kind_text(r.kind),
        DotStyle::Constraint,
    );
    let nothing = Seq::<char>::empty();
    lemma_drawn_inside(vertex, ports_lines(r.id, r.ports@), nothing, part);
    assert(vertex + ports_lines(r.id, r.ports@) + nothing =~= relation_lines(r));
    lemma_relation_drawn(g.relations@, k, part);
    lemma_picture(g, part);
}

/// Every input of an operation has its arrow into the operation's vertex in the
/// picture.
pub proof fn operations_show_every_input(g: HGraph, k: int, i: int)
    requires
        0 <= k < g.executions@.len(),
        0 <= i < g.executions@[k].inputs@.len(),
    ensures
        drawn(
            picture(g),
            input_arrow(g.nodes@, g.executions@[k].edge, g.executions@[k].inputs@[i]),
        ),
{
    let e = g.executions@[k];
    let part = input_arrow(g.nodes@, e.edge, e.inputs@[i]);
    lemma_input_drawn(g.nodes@, e.edge, e.inputs@, i);
    let vertex = operation_vertex(e);
    let inputs = input_lines(g.nodes@, e.edge, e.inputs@);
    let outputs = output_lines(g.nodes@, e.edge, e.value_output, e.outputs@);
    lemma_drawn_inside(vertex, inputs, outputs, part);
    assert(vertex + inputs + outputs =~= execution_lines(g.nodes@, e));
    lemma_execution_drawn(g.nodes@, g.executions@, k, part);
    lemma_picture(g, part);
}

/// Every output of an operation has its arrow out of the operation's vertex in
/// the picture.
pub proof fn operations_show_every_output(g: HGraph, k: int, i: int)
    requires
        0 <= k < g.executions@.len(),
        0 <= i < g.executions@[k].outputs@.len(),
    ensures
        drawn(
            picture(g),
            output_arrow(
                g.nodes@,
                g.executions@[k].edge,
                g.executions@[k].value_output,
                g.executions@[k].outputs@[i],
            ),
        ),
{
    let e = g.executions@[k];
    let part = output_arrow(g.nodes@, e.edge, e.value_output, e.outputs@[i]);
    lemma_output_drawn(g.nodes@, e.edge, e.value_output, e.outputs@, i);
    let vertex = operation_vertex(e);
    let inputs = input_lines(g.nodes@, e.edge, e.inputs@);
    let outputs = output_lines(g.nodes@, e.edge, e.value_output, e.outputs@);
    let nothing = Seq::<char>::empty();
    lemma_drawn_inside(vertex + inputs, outputs, nothing, part);
    assert(vertex + inputs + outputs + nothing =~= execution_lines(g.nodes@, e));
    lemma_execution_drawn(g.nodes@, g.executions@, k, part);
    lemma_picture(g, part);
}

/// The vertices of nodes, relations and operations have names of their own, and
/// two of one kind share a name only where they share a number.
pub proof fn vertices_are_told_apart(a: nat, b: nat)
    ensures
        "n"@ + decimal(a) != "constraint"@ + decimal(b),
        "n"@ + decimal(a) != "execute"@ + decimal(b),
        "constraint"@ + decimal(a) != "execute"@ + decimal(b),
        "n"@ + decimal(a) == "n"@ + decimal(b) ==> a == b,
        "constraint"@ + decimal(a) == "constraint"@ + decimal(b) ==> a == b,
        "execute"@ + decimal(a) == "execute"@ + decimal(b) ==> a == b,
{
    reveal_strlit("n");
    reveal_strlit("constraint");
    reveal_strlit("execute");
    decimal_spells(a);
    decimal_spells(b);
    assert(("n"@ + decimal(a))[0] == 'n');
    assert(("constraint"@ + decimal(b))[0] == 'c');
    assert(("constraint"@ + decimal(a))[0] == 'c');
    assert(("execute"@ + decimal(b))[0] == 'e');
    assert(("n"@ + decimal(a)).skip(1) =~= decimal(a));
    assert(("n"@ + decimal(b)).skip(1) =~= decimal(b));
    assert(("constraint"@ + decimal(a)).skip(10) =~= decimal(a));
    assert(("constraint"@ + decimal(b)).skip(10) =~= decimal(b));
    assert(("execute"@ + decimal(a)).skip(7) =~= decimal(a));
    assert(("execute"@ + decimal(b)).skip(7) =~= decimal(b));
}

} // verus!
