use o_lang::quoting::{c_escape, dot_escape, html_escape, label_escape};
use o_lang::receipt::{
    build_receipt, display_path, parse_demo_program, parse_effects, semantic_changes, semantic_diff,
    DemoError, DemoPaths,
};
use o_lang::receipt_graph::{c_lowering, render_semantic_dot, render_semantic_graph_html};
use o_lang::receipt_text::{DEMO_EAGER_SOURCE, DEMO_SOURCE};

#[test]
fn parses_demo_metadata() {
    let program = parse_demo_program(DEMO_SOURCE).unwrap();
    assert_eq!(program.group, "normalize_pipeline");
    assert_eq!(program.policy, "lazy");
    assert_eq!(program.invariant, "output_count == input_count");
    assert_eq!(program.effects.read, "examples/group_pipeline/input.txt");
    assert_eq!(program.effects.write, "examples/group_pipeline/output.txt");
    assert_eq!(program.steps, vec!["load", "normalize", "emit"]);
}

#[test]
fn lazy_to_eager_policy_change_reports_demand_model() {
    let old = parse_demo_program(DEMO_SOURCE).unwrap();
    let new = parse_demo_program(DEMO_EAGER_SOURCE).unwrap();
    let changes = semantic_changes(&old, &new);
    assert_eq!(changes.len(), 1);
    assert_eq!(changes[0].category, "policy");
    assert_eq!(changes[0].meaning, "runtime demand model changed");
    assert!(changes[0]
        .implications
        .iter()
        .any(|s| s.contains("file reads may happen before")));
}

#[test]
fn renders_visible_graph_artifacts() {
    let program = parse_demo_program(DEMO_SOURCE).unwrap();
    let dot = render_semantic_dot(&program);
    assert!(dot.contains("policy: lazy"));
    assert!(dot.contains("step_0 -> step_1"));

    let html = render_semantic_graph_html(&program, &dot);
    assert!(html.contains("normalize_pipeline semantic graph"));
    assert!(html.contains("output_count == input_count"));
    assert!(html.contains("<svg"));
}

fn source(lines: &[&str]) -> String {
    lines.iter().map(|l| format!("# ogit: {l}\n")).collect()
}

const ALL: [&str; 6] = [
    "group g",
    "policy lazy",
    "invariant i",
    "effects read in write out",
    "steps a -> b",
    "intent t",
];

#[test]
fn every_declaration_is_needed() {
    assert!(parse_demo_program(&source(&ALL)).is_ok());
    let errors = [
        DemoError::NoGroup,
        DemoError::NoPolicy,
        DemoError::NoInvariant,
        DemoError::NoEffects,
        DemoError::NoSteps,
        DemoError::NoIntent,
    ];
    for (i, expected) in errors.into_iter().enumerate() {
        let rest: Vec<&str> = ALL
            .iter()
            .enumerate()
            .filter(|(k, _)| *k != i)
            .map(|(_, l)| *l)
            .collect();
        assert_eq!(parse_demo_program(&source(&rest)).unwrap_err(), expected);
    }
    let short = source(&["group g", "policy p", "invariant i", "effects read a write b", "steps a -> ->", "intent t"]);
    assert_eq!(parse_demo_program(&short).unwrap_err(), DemoError::TooFewSteps);
    assert_eq!(
        DemoError::TooFewSteps.to_text(),
        "semantic receipt demo needs at least two ordered steps"
    );
}

#[test]
fn the_last_declaration_counts() {
    let mut lines = ALL.to_vec();
    lines.push("policy eager");
    assert_eq!(parse_demo_program(&source(&lines)).unwrap().policy, "eager");
}

#[test]
fn effects_name_two_paths() {
    let effects = parse_effects("read a write b read c").unwrap();
    assert_eq!((effects.read.as_str(), effects.write.as_str()), ("c", "b"));
    assert_eq!(parse_effects("read").unwrap_err(), DemoError::ReadWithoutPath);
    assert_eq!(parse_effects("read a write").unwrap_err(), DemoError::WriteWithoutPath);
    assert_eq!(parse_effects("write b").unwrap_err(), DemoError::NoRead);
    assert_eq!(parse_effects("read a").unwrap_err(), DemoError::NoWrite);
}

#[test]
fn changes_are_reported_both_ways() {
    let a = parse_demo_program(&source(&ALL)).unwrap();
    let b = parse_demo_program(&source(&[
        "group g", "policy later", "invariant j", "effects read in2 write out", "steps b -> a", "intent t",
    ]))
    .unwrap();
    let there = semantic_changes(&a, &b);
    let back = semantic_changes(&b, &a);
    let kinds: Vec<&str> = there.iter().map(|c| c.category).collect();
    assert_eq!(kinds, ["policy", "invariant", "effects", "dependency order"]);
    for (x, y) in there.iter().zip(&back) {
        assert_eq!(x.before, y.after);
        assert_eq!(x.after, y.before);
    }
    assert_eq!(there[0].implications[0], "policy changed from `lazy` to `later`");
    assert_eq!(there[3].before, "a -> b");
    assert!(semantic_changes(&a, &a).is_empty());
    assert!(semantic_diff("x", "y", &a, &a).contains("NO SEMANTIC CHANGE:"));
    assert!(semantic_diff("x", "y", &a, &b).contains("DEPENDENCY ORDER CHANGED:\n  subject: g\n"));
}

#[test]
fn receipts_say_what_is_lost() {
    let program = parse_demo_program(DEMO_SOURCE).unwrap();
    let paths = DemoPaths::new("/repo", "");
    let receipt = build_receipt("/repo", &paths, &program, "normalized");
    assert_eq!(receipt.source, "examples/group_pipeline/main.O");
    assert_eq!(receipt.preserved[0], "data dependency order: load -> normalize -> emit");
    assert_eq!(receipt.erased[0], "lazy execution policy");
    let text = receipt.to_text("/repo", &paths.receipt);
    assert!(text.contains("ERASED:\n  - lazy execution policy\n"));
    assert!(text.contains("Receipt saved:\n  .ogit/receipts/semantic-receipt-001.json\n"));
    assert_eq!(display_path("/repo", "/elsewhere/x"), "/elsewhere/x");
}

#[test]
fn lowered_programs_quote_their_paths() {
    let program = parse_demo_program(&source(&[
        "group g", "policy p", "invariant i", "effects read a\"b\\c write out", "steps a -> b", "intent t",
    ]))
    .unwrap();
    let text = c_lowering(&program);
    assert!(text.starts_with("#include <stdio.h>\n"));
    assert!(text.contains("const char *input_path = \"a\\\"b\\\\c\";"));
    assert!(text.contains("const char *output_path = \"out\";"));
}

#[test]
fn escapes_are_exact() {
    assert_eq!(c_escape("a\\\"b"), "a\\\\\\\"b");
    assert_eq!(dot_escape("a\nb\"\\"), "a\\nb\\\"\\\\");
    assert_eq!(label_escape("a\r\nb"), "a\\r\\nb");
    assert_eq!(html_escape("<a href=\"x\">&"), "&lt;a href=&quot;x&quot;&gt;&amp;");
}
