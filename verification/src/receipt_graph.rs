//! The lowered program of a semantic receipt, and its graph as DOT and as a
//! page.

use vstd::prelude::*;

use crate::quoting::{c_escape, c_quoted, dot_escape, dot_quoted, html_escape, html_quoted};
use crate::receipt::{Declared, DemoProgram};
use crate::receipt_text::{ARROW, C_HEAD, C_MIDDLE, C_TAIL, PAGE_HEAD, PAGE_STYLE};
use crate::text::{chars_of, decimal, push_decimal, string_of, views};

verus! {

/// The last name of a path.
pub fn leaf_name(path: &str) -> (out: String)
    ensures
        out@ == crate::files::last_part(path@),
{
    let chars = chars_of(path);
    let name = crate::files::last_part_of(chars.as_slice());
    let out = string_of(name, 0, name.len());
    assert(out@ =~= name@);
    out
}

/// The program that a group is lowered to.
pub open spec fn lowered(read: Seq<char>, write: Seq<char>) -> Seq<char> {
    C_HEAD@ + c_quoted(read) + C_MIDDLE@ + c_quoted(write) + C_TAIL@
}

/// Lowers a group to C.
pub fn c_lowering(program: &DemoProgram) -> (out: String)
    ensures
        out@ == lowered(program@.read, program@.write),
{
    let mut out = C_HEAD.to_owned();
    out.append(c_escape(program.effects.read.as_str()).as_str());
    out.append(C_MIDDLE);
    out.append(c_escape(program.effects.write.as_str()).as_str());
    out.append(C_TAIL);
    out
}

/// The nodes of the steps.
pub open spec fn dot_steps(steps: Seq<Seq<char>>) -> Seq<char>
    decreases steps.len(),
{
    if steps.len() == 0 {
        Seq::empty()
    } else {
        dot_steps(steps.drop_last()) + "  step_"@ + decimal((steps.len() - 1) as nat)
            + " [label=\"step "@ + decimal(steps.len()) + "\\n"@ + dot_quoted(steps.last())
            + "\"];\n"@
    }
}

/// The edges from each of the first steps to the next.
pub open spec fn dot_edges(count: nat) -> Seq<char>
    decreases count,
{
    if count == 0 {
        Seq::empty()
    } else {
        dot_edges((count - 1) as nat) + "  step_"@ + decimal((count - 1) as nat) + " -> step_"@
            + decimal(count) + ";\n"@
    }
}

/// The head of the graph.
pub open spec fn dot_head(d: Declared) -> Seq<char> {
    "digraph semantic_receipt {\n  rankdir=LR;\n  graph [bgcolor=\"#0a0a0b\", pad=\"0.3\", nodesep=\"0.45\", ranksep=\"0.65\"];\n  node [shape=box, style=\"rounded,filled\", fontname=\"Fira Code\", fontsize=11, color=\"#c48a5a\", fillcolor=\"#161616\", fontcolor=\"#e6e2d6\"];\n  edge [fontname=\"Fira Code\", fontsize=10, color=\"#5f7f8e\", fontcolor=\"#c48a5a\", arrowsize=0.8];\n  source [label=\"O source\\nmain.O\"];\n  contract [label=\"group: "@
        + dot_quoted(d.group) + "\\npolicy: "@ + dot_quoted(d.policy) + "\\ninvariant: "@
        + dot_quoted(d.invariant)
        + "\"];\n  lowered [label=\"lowered C\\nnormalize_pipeline.c\"];\n  executable [label=\"compiled artifact\"];\n  output [label=\"runtime output\"];\n  receipt [label=\"semantic receipt\\nJSON + visible graph\"];\n  source -> contract -> lowered -> executable -> output -> receipt;\n  input [label=\"read\\n"@
        + dot_quoted(crate::files::last_part(d.read)) + "\"];\n"@
}

/// The edges of the steps.
pub open spec fn dot_flow(count: nat) -> Seq<char> {
    if count == 0 {
        Seq::empty()
    } else {
        "  input -> step_0;\n"@ + dot_edges((count - 1) as nat) + "  step_"@ + decimal(
            (count - 1) as nat,
        ) + " -> output_file;\n"@
    }
}

/// The graph of a receipt.
pub open spec fn dot_text(d: Declared) -> Seq<char> {
    dot_head(d) + dot_steps(d.steps) + "  output_file [label=\"write\\n"@ + dot_quoted(
        crate::files::last_part(d.write),
    ) + "\"];\n"@ + dot_flow(d.steps.len()) + "  contract -> step_0 [label=\"orders\"];\n}\n"@
}

fn write_dot_head(program: &DemoProgram) -> (out: String)
    ensures
        out@ == dot_head(program@),
{
    let mut out = "digraph semantic_receipt {\n  rankdir=LR;\n  graph [bgcolor=\"#0a0a0b\", pad=\"0.3\", nodesep=\"0.45\", ranksep=\"0.65\"];\n  node [shape=box, style=\"rounded,filled\", fontname=\"Fira Code\", fontsize=11, color=\"#c48a5a\", fillcolor=\"#161616\", fontcolor=\"#e6e2d6\"];\n  edge [fontname=\"Fira Code\", fontsize=10, color=\"#5f7f8e\", fontcolor=\"#c48a5a\", arrowsize=0.8];\n  source [label=\"O source\\nmain.O\"];\n  contract [label=\"group: ".to_owned();
    out.append(dot_escape(program.group.as_str()).as_str());
    out.append("\\npolicy: ");
    out.append(dot_escape(program.policy.as_str()).as_str());
    out.append("\\ninvariant: ");
    out.append(dot_escape(program.invariant.as_str()).as_str());
    out.append(
        "\"];\n  lowered [label=\"lowered C\\nnormalize_pipeline.c\"];\n  executable [label=\"compiled artifact\"];\n  output [label=\"runtime output\"];\n  receipt [label=\"semantic receipt\\nJSON + visible graph\"];\n  source -> contract -> lowered -> executable -> output -> receipt;\n  input [label=\"read\\n",
    );
    out.append(dot_escape(leaf_name(program.effects.read.as_str()).as_str()).as_str());
    out.append("\"];\n");
    out
}

fn write_dot_steps(steps: &Vec<String>) -> (out: String)
    ensures
        out@ == dot_steps(views(steps@)),
{
    let ghost all = views(steps@);
    let mut out = String::new();
    let mut i: usize = 0;
    assert(out@ =~= dot_steps(all.take(0)));
    while i < steps.len()
        invariant
            all == views(steps@),
            i <= steps@.len(),
            out@ == dot_steps(all.take(i as int)),
        decreases steps@.len() - i,
    {
        assert(all.take(i + 1).drop_last() =~= all.take(i as int));
        assert(all.take(i + 1).last() == steps@[i as int]@);
        out.append("  step_");
        push_decimal(&mut out, i as u64);
        out.append(" [label=\"step ");
        push_decimal(&mut out, (i + 1) as u64);
        out.append("\\n");
        out.append(dot_escape(steps[i].as_str()).as_str());
        out.append("\"];\n");
        i += 1;
    }
    assert(all.take(i as int) =~= all);
    out
}

fn write_dot_flow(count: usize) -> (out: String)
    ensures
        out@ == dot_flow(count as nat),
{
    if count == 0 {
        let none = String::new();
        assert(none@ =~= dot_flow(0));
        return none;
    }
    let mut edges = String::new();
    let mut i: usize = 0;
    assert(edges@ =~= dot_edges(0));
    while i < count - 1
        invariant
            i < count,
            edges@ == dot_edges(i as nat),
        decreases count - i,
    {
        edges.append("  step_");
        push_decimal(&mut edges, i as u64);
        edges.append(" -> step_");
        push_decimal(&mut edges, (i + 1) as u64);
        edges.append(";\n");
        i += 1;
    }
    let mut out = "  input -> step_0;\n".to_owned();
    out.append(edges.as_str());
    out.append("  step_");
    push_decimal(&mut out, (count - 1) as u64);
    out.append(" -> output_file;\n");
    out
}

/// The graph of a receipt, as DOT.
pub fn render_semantic_dot(program: &DemoProgram) -> (out: String)
    ensures
        out@ == dot_text(program@),
{
    let mut out = write_dot_head(program);
    out.append(write_dot_steps(&program.steps).as_str());
    out.append("  output_file [label=\"write\\n");
    out.append(dot_escape(leaf_name(program.effects.write.as_str()).as_str()).as_str());
    out.append("\"];\n");
    assert(views(program.steps@).len() == program.steps@.len());
    out.append(write_dot_flow(program.steps.len()).as_str());
    out.append("  contract -> step_0 [label=\"orders\"];\n}\n");
    out
}

/// A box of the page.
pub open spec fn node_text(
    x: nat,
    y: nat,
    w: nat,
    h: nat,
    title: Seq<char>,
    detail: Seq<char>,
    class: Seq<char>,
) -> Seq<char> {
    "<g class=\"node "@ + html_quoted(class) + "\">\n  <rect x=\""@ + decimal(x) + "\" y=\""@
        + decimal(y) + "\" width=\""@ + decimal(w) + "\" height=\""@ + decimal(h)
        + "\" />\n  <text class=\"title\" x=\""@ + decimal(x + 14) + "\" y=\""@ + decimal(y + 29)
        + "\">"@ + html_quoted(title) + "</text>\n  <text class=\"detail\" x=\""@ + decimal(x + 14)
        + "\" y=\""@ + decimal(y + 53) + "\">"@ + html_quoted(detail) + "</text>\n</g>\n"@
}

/// A box of the page.
pub fn svg_node(x: u64, y: u64, w: u64, h: u64, title: &str, detail: &str, class: &str) -> (out:
    String)
    requires
        x + 14 <= u64::MAX,
        y + 53 <= u64::MAX,
    ensures
        out@ == node_text(x as nat, y as nat, w as nat, h as nat, title@, detail@, class@),
{
    let mut out = "<g class=\"node ".to_owned();
    out.append(html_escape(class).as_str());
    out.append("\">\n  <rect x=\"");
    push_decimal(&mut out, x);
    out.append("\" y=\"");
    push_decimal(&mut out, y);
    out.append("\" width=\"");
    push_decimal(&mut out, w);
    out.append("\" height=\"");
    push_decimal(&mut out, h);
    out.append("\" />\n  <text class=\"title\" x=\"");
    push_decimal(&mut out, x + 14);
    out.append("\" y=\"");
    push_decimal(&mut out, y + 29);
    out.append("\">");
    out.append(html_escape(title).as_str());
    out.append("</text>\n  <text class=\"detail\" x=\"");
    push_decimal(&mut out, x + 14);
    out.append("\" y=\"");
    push_decimal(&mut out, y + 53);
    out.append("\">");
    out.append(html_escape(detail).as_str());
    out.append("</text>\n</g>\n");
    out
}

/// The text beside an arrow.
pub open spec fn edge_label(x1: nat, y1: nat, x2: nat, label: Seq<char>) -> Seq<char> {
    if label.len() == 0 {
        Seq::empty()
    } else {
        "<text class=\"edge-label\" x=\""@ + decimal(((x1 + x2) / 2 - 18) as nat) + "\" y=\""@
            + decimal(
            if y1 < 8 {
                0
            } else {
                (y1 - 8) as nat
            },
        ) + "\">"@ + html_quoted(label) + "</text>\n"@
    }
}

/// An arrow of the page.
pub open spec fn edge_text(x1: nat, y1: nat, x2: nat, y2: nat, label: Seq<char>) -> Seq<char> {
    "<line class=\"edge\" x1=\""@ + decimal(x1) + "\" y1=\""@ + decimal(y1) + "\" x2=\""@ + decimal(
        x2,
    ) + "\" y2=\""@ + decimal(y2) + "\" marker-end=\"url(#arrow)\" />\n"@ + edge_label(
        x1,
        y1,
        x2,
        label,
    )
}

/// An arrow of the page.
pub fn svg_edge(x1: u64, y1: u64, x2: u64, y2: u64, label: &str) -> (out: String)
    requires
        label@.len() > 0 ==> 36 <= x1 + x2 <= u64::MAX,
    ensures
        out@ == edge_text(x1 as nat, y1 as nat, x2 as nat, y2 as nat, label@),
{
    let mut beside = String::new();
    assert(beside@ =~= Seq::empty());
    if label.unicode_len() > 0 {
        beside = "<text class=\"edge-label\" x=\"".to_owned();
        push_decimal(&mut beside, (x1 + x2) / 2 - 18);
        beside.append("\" y=\"");
        push_decimal(
            &mut beside,
            if y1 < 8 {
                0
            } else {
                y1 - 8
            },
        );
        beside.append("\">");
        beside.append(html_escape(label).as_str());
        beside.append("</text>\n");
    }
    let mut out = "<line class=\"edge\" x1=\"".to_owned();
    push_decimal(&mut out, x1);
    out.append("\" y1=\"");
    push_decimal(&mut out, y1);
    out.append("\" x2=\"");
    push_decimal(&mut out, x2);
    out.append("\" y2=\"");
    push_decimal(&mut out, y2);
    out.append("\" marker-end=\"url(#arrow)\" />\n");
    out.append(beside.as_str());
    out
}

/// The upper row of the page: what a source goes through.
pub open spec fn upper_row(d: Declared) -> Seq<char> {
    ARROW@ + node_text(55, 70, 165, 78, "O source"@, "main.O"@, "source"@) + node_text(
        270,
        70,
        185,
        78,
        "Semantic contract"@,
        d.group + " / "@ + d.policy,
        "contract"@,
    ) + node_text(505, 70, 165, 78, "Lowered C"@, "normalize_pipeline.c"@, "lowered"@) + node_text(
        720,
        70,
        165,
        78,
        "Executable"@,
        "compiled artifact"@,
        "runtime"@,
    ) + node_text(935, 70, 165, 78, "Receipt"@, "JSON + graph"@, "receipt"@) + edge_text(
        220,
        109,
        270,
        109,
        "declares"@,
    ) + edge_text(455, 109, 505, 109, "lowers"@) + edge_text(670, 109, 720, 109, "builds"@)
        + edge_text(885, 109, 935, 109, "records"@)
}

/// The boxes of the steps, each with the arrow that leads to it.
pub open spec fn step_row(steps: Seq<Seq<char>>) -> Seq<char>
    decreases steps.len(),
{
    if steps.len() == 0 {
        Seq::empty()
    } else {
        step_row(steps.drop_last()) + node_text(
            (70 + 178 * steps.len()) as nat,
            270,
            138,
            72,
            "step "@ + decimal(steps.len()),
            steps.last(),
            "step"@,
        ) + edge_text(
            (30 + 178 * steps.len()) as nat,
            306,
            (70 + 178 * steps.len()) as nat,
            306,
            ""@,
        )
    }
}

/// The middle row of the page: the steps between what is read and written.
pub open spec fn middle_row(d: Declared) -> Seq<char> {
    let n = d.steps.len();
    node_text(70, 270, 138, 72, "read"@, crate::files::last_part(d.read), "effect"@) + step_row(
        d.steps,
    ) + node_text(
        (248 + 178 * n) as nat,
        270,
        138,
        72,
        "write"@,
        crate::files::last_part(d.write),
        "effect"@,
    ) + edge_text((208 + 178 * n) as nat, 306, (248 + 178 * n) as nat, 306, ""@) + edge_text(
        362,
        148,
        362,
        270,
        "orders"@,
    )
}

/// The lower row of the page: what the lowering costs.
pub open spec fn lower_row() -> Seq<char> {
    node_text(70, 455, 205, 70, "coordination cost"@, "high"@, "cost"@) + node_text(
        320,
        455,
        205,
        70,
        "type shape cost"@,
        "low"@,
        "cost"@,
    ) + node_text(570, 455, 205, 70, "effect safety cost"@, "medium"@, "cost"@) + node_text(
        820,
        455,
        205,
        70,
        "intent cost"@,
        "low"@,
        "cost"@,
    )
}

/// The width of the page's drawing.
pub open spec fn page_width(steps: nat) -> nat {
    if 516 + 178 * steps > 1120 {
        516 + 178 * steps
    } else {
        1120
    }
}

/// The page of a receipt.
pub open spec fn page_text(d: Declared, dot: Seq<char>) -> Seq<char> {
    PAGE_HEAD@ + html_quoted(d.group + " semantic graph"@) + PAGE_STYLE@ + html_quoted(
        d.group + " semantic graph"@,
    ) + "</h1>\n<p>policy: "@ + html_quoted(d.policy) + "; invariant: "@ + html_quoted(d.invariant)
        + "; intent: "@ + html_quoted(d.intent) + "</p>\n<svg viewBox=\"0 0 "@ + decimal(
        page_width(d.steps.len()),
    ) + " 560\" role=\"img\" aria-label=\""@ + html_quoted("O-Git semantic receipt graph"@)
        + "\">\n"@ + upper_row(d) + middle_row(d) + lower_row() + "\n</svg>\n<pre>"@ + html_quoted(
        dot,
    ) + "</pre>\n</main>\n</body>\n</html>\n"@
}

fn write_upper_row(program: &DemoProgram) -> (out: String)
    ensures
        out@ == upper_row(program@),
{
    let mut contract = program.group.clone();
    contract.append(" / ");
    contract.append(program.policy.as_str());
    proof {
        reveal_strlit("declares");
    }
    let mut out = ARROW.to_owned();
    out.append(svg_node(55, 70, 165, 78, "O source", "main.O", "source").as_str());
    out.append(
        svg_node(270, 70, 185, 78, "Semantic contract", contract.as_str(), "contract").as_str(),
    );
    out.append(
        svg_node(505, 70, 165, 78, "Lowered C", "normalize_pipeline.c", "lowered").as_str(),
    );
    out.append(svg_node(720, 70, 165, 78, "Executable", "compiled artifact", "runtime").as_str());
    out.append(svg_node(935, 70, 165, 78, "Receipt", "JSON + graph", "receipt").as_str());
    out.append(svg_edge(220, 109, 270, 109, "declares").as_str());
    out.append(svg_edge(455, 109, 505, 109, "lowers").as_str());
    out.append(svg_edge(670, 109, 720, 109, "builds").as_str());
    out.append(svg_edge(885, 109, 935, 109, "records").as_str());
    out
}

fn write_step_row(steps: &Vec<String>) -> (out: String)
    requires
        586 + 178 * steps@.len() <= u64::MAX,
    ensures
        out@ == step_row(views(steps@)),
{
    let ghost all = views(steps@);
    let mut out = String::new();
    let mut i: usize = 0;
    proof {
        reveal_strlit("");
    }
    assert(out@ =~= step_row(all.take(0)));
    while i < steps.len()
        invariant
            586 + 178 * steps@.len() <= u64::MAX,
            ""@.len() == 0,
            all == views(steps@),
            i <= steps@.len(),
            out@ == step_row(all.take(i as int)),
        decreases steps@.len() - i,
    {
        assert(all.take(i + 1).drop_last() =~= all.take(i as int));
        assert(all.take(i + 1).last() == steps@[i as int]@);
        let place: u64 = (i + 1) as u64;
        let x: u64 = 70 + 178 * place;
        let mut title = "step ".to_owned();
        push_decimal(&mut title, place);
        out.append(svg_node(x, 270, 138, 72, title.as_str(), steps[i].as_str(), "step").as_str());
        out.append(svg_edge(x - 40, 306, x, 306, "").as_str());
        i += 1;
    }
    assert(all.take(i as int) =~= all);
    out
}

fn write_middle_row(program: &DemoProgram) -> (out: String)
    requires
        586 + 178 * program.steps@.len() <= u64::MAX,
    ensures
        out@ == middle_row(program@),
{
    proof {
        reveal_strlit("");
    }
    assert(views(program.steps@).len() == program.steps@.len());
    let x: u64 = 248 + 178 * (program.steps.len() as u64);
    let mut out = svg_node(
        70,
        270,
        138,
        72,
        "read",
        leaf_name(program.effects.read.as_str()).as_str(),
        "effect",
    );
    out.append(write_step_row(&program.steps).as_str());
    out.append(
        svg_node(
            x,
            270,
            138,
            72,
            "write",
            leaf_name(program.effects.write.as_str()).as_str(),
            "effect",
        ).as_str(),
    );
    out.append(svg_edge(x - 40, 306, x, 306, "").as_str());
    out.append(svg_edge(362, 148, 362, 270, "orders").as_str());
    out
}

fn write_lower_row() -> (out: String)
    ensures
        out@ == lower_row(),
{
    let mut out = svg_node(70, 455, 205, 70, "coordination cost", "high", "cost");
    out.append(svg_node(320, 455, 205, 70, "type shape cost", "low", "cost").as_str());
    out.append(svg_node(570, 455, 205, 70, "effect safety cost", "medium", "cost").as_str());
    out.append(svg_node(820, 455, 205, 70, "intent cost", "low", "cost").as_str());
    out
}

/// The graph of a receipt, as a page.
pub fn render_semantic_graph_html(program: &DemoProgram, dot: &str) -> (out: String)
    requires
        586 + 178 * program.steps@.len() <= u64::MAX,
    ensures
        out@ == page_text(program@, dot@),
{
    assert(views(program.steps@).len() == program.steps@.len());
    let wide: u64 = 516 + 178 * (program.steps.len() as u64);
    let width: u64 = if wide > 1120 {
        wide
    } else {
        1120
    };
    let mut title = program.group.clone();
    title.append(" semantic graph");
    let heading = html_escape(title.as_str());
    let mut out = PAGE_HEAD.to_owned();
    out.append(heading.as_str());
    out.append(PAGE_STYLE);
    out.append(heading.as_str());
    out.append("</h1>\n<p>policy: ");
    out.append(html_escape(program.policy.as_str()).as_str());
    out.append("; invariant: ");
    out.append(html_escape(program.invariant.as_str()).as_str());
    out.append("; intent: ");
    out.append(html_escape(program.intent.as_str()).as_str());
    out.append("</p>\n<svg viewBox=\"0 0 ");
    push_decimal(&mut out, width);
    out.append(" 560\" role=\"img\" aria-label=\"");
    out.append(html_escape("O-Git semantic receipt graph").as_str());
    out.append("\">\n");
    out.append(write_upper_row(program).as_str());
    out.append(write_middle_row(program).as_str());
    out.append(write_lower_row().as_str());
    out.append("\n</svg>\n<pre>");
    out.append(html_escape(dot).as_str());
    out.append("</pre>\n</main>\n</body>\n</html>\n");
    out
}

} // verus!
