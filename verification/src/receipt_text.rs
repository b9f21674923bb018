//! The fixed texts of semantic receipts.

use vstd::prelude::*;

verus! {

/// A group that is run when it is asked for.
pub const DEMO_SOURCE: &'static str = r#"#!/usr/bin/env O
# O-Git semantic receipt demo: What Compilation Forgets.
# This file is intentionally tiny. O-Git reads the `# ogit:` declarations
# below as semantic source facts, then lowers the executable part to plain C.
#
# ogit: group normalize_pipeline
# ogit: policy lazy
# ogit: invariant output_count == input_count
# ogit: effects read examples/group_pipeline/input.txt write examples/group_pipeline/output.txt
# ogit: steps load -> normalize -> emit
# ogit: intent normalize only when requested

let load_data = python{defer,fs_read}^(
with open("examples/group_pipeline/input.txt", "r", encoding="utf-8") as f:
    __oval_result__ = [float(x) for x in f.read().split()]
)_python{defer,fs_read}

let normalize_data = python{defer}^(
values = [1, 2, 3, 4, 5]
scale = max(values)
__oval_result__ = [round(v / scale, 2) for v in values]
)_python{defer}

let emit_result = python{defer,fs_write}^(
values = [0.20, 0.40, 0.60, 0.80, 1.00]
with open("examples/group_pipeline/output.txt", "w", encoding="utf-8") as f:
    f.write("normalized: " + str(values) + "\n")
__oval_result__ = "normalized: " + str(values)
)_python{defer,fs_write}

let normalize_pipeline = lazy(batch($load_data, $normalize_data, $emit_result))

markdown^(
# normalize_pipeline

- policy: lazy
- invariant: output_count == input_count
- effects: read input.txt, write output.txt
- steps: load -> normalize -> emit
- group value: `$normalize_pipeline`
)_markdown
"#;

/// The same group, run when it is made.
pub const DEMO_EAGER_SOURCE: &'static str = r#"#!/usr/bin/env O
# O-Git semantic receipt demo: What Compilation Forgets.
# This variant changes exactly the semantic policy line.
#
# ogit: group normalize_pipeline
# ogit: policy eager
# ogit: invariant output_count == input_count
# ogit: effects read examples/group_pipeline/input.txt write examples/group_pipeline/output.txt
# ogit: steps load -> normalize -> emit
# ogit: intent normalize during construction rather than on demand

let load_data = python{defer,fs_read}^(
with open("examples/group_pipeline/input.txt", "r", encoding="utf-8") as f:
    __oval_result__ = [float(x) for x in f.read().split()]
)_python{defer,fs_read}

let normalize_data = python{defer}^(
values = [1, 2, 3, 4, 5]
scale = max(values)
__oval_result__ = [round(v / scale, 2) for v in values]
)_python{defer}

let emit_result = python{defer,fs_write}^(
values = [0.20, 0.40, 0.60, 0.80, 1.00]
with open("examples/group_pipeline/output.txt", "w", encoding="utf-8") as f:
    f.write("normalized: " + str(values) + "\n")
__oval_result__ = "normalized: " + str(values)
)_python{defer,fs_write}

let normalize_pipeline = batch($load_data, $normalize_data, $emit_result)

markdown^(
# normalize_pipeline

- policy: eager
- invariant: output_count == input_count
- effects: read input.txt, write output.txt
- steps: load -> normalize -> emit
- group value: `$normalize_pipeline`
)_markdown
"#;

/// What the group reads.
pub const DEMO_INPUT: &'static str = "1 2 3 4 5\n";

/// The lowered program, up to the path that it reads.
pub const C_HEAD: &'static str = r##"#include <stdio.h>
#include <stdlib.h>

static void print_values(FILE *stream, const double *values, int count) {
    fputs("normalized: [", stream);
    for (int i = 0; i < count; ++i) {
        fprintf(stream, "%.2f", values[i]);
        if (i + 1 < count) {
            fputs(", ", stream);
        }
    }
    fputs("]", stream);
}

int main(void) {
    const char *input_path = ""##;

/// The lowered program, between the two paths.
pub const C_MIDDLE: &'static str = r##"";
    const char *output_path = ""##;

/// The lowered program, after the path that it writes.
pub const C_TAIL: &'static str = r##"";
    FILE *input = fopen(input_path, "r");
    if (!input) {
        perror(input_path);
        return 1;
    }

    double input_values[64];
    int input_count = 0;
    while (input_count < 64 && fscanf(input, "%lf", &input_values[input_count]) == 1) {
        input_count += 1;
    }
    fclose(input);

    if (input_count == 0) {
        fprintf(stderr, "no input values found in %s\n", input_path);
        return 1;
    }

    double max_value = input_values[0];
    for (int i = 1; i < input_count; ++i) {
        if (input_values[i] > max_value) {
            max_value = input_values[i];
        }
    }
    if (max_value == 0.0) {
        fprintf(stderr, "cannot normalize by zero\n");
        return 1;
    }

    double output_values[64];
    for (int i = 0; i < input_count; ++i) {
        output_values[i] = input_values[i] / max_value;
    }

    FILE *output = fopen(output_path, "w");
    if (!output) {
        perror(output_path);
        return 1;
    }

    print_values(stdout, output_values, input_count);
    fputc('\n', stdout);
    print_values(output, output_values, input_count);
    fputc('\n', output);
    fclose(output);

    return 0;
}
"##;

/// The page, up to its title.
pub const PAGE_HEAD: &'static str = r##"<!doctype html>
<html lang="en">
<head>
<meta charset="utf-8">
<meta name="viewport" content="width=device-width, initial-scale=1">
<title>"##;

/// The page, between its title and its heading.
pub const PAGE_STYLE: &'static str = r##"</title>
<style>
:root {
  color-scheme: dark;
  --bg: #0a0a0b;
  --panel: #141414;
  --ink: #e6e2d6;
  --muted: #9c9788;
  --copper: #c48a5a;
  --steel: #3f5c6b;
  --green: #3d5f4a;
  --red: #8c2f23;
}
body {
  margin: 0;
  background: var(--bg);
  color: var(--ink);
  font: 14px/1.5 "Fira Code", Menlo, Consolas, monospace;
}
main {
  max-width: 1180px;
  margin: 0 auto;
  padding: 28px;
}
h1 {
  margin: 0 0 8px;
  font-size: 24px;
  font-weight: 700;
}
p {
  margin: 0 0 22px;
  color: var(--muted);
}
svg {
  width: 100%;
  height: auto;
  display: block;
  background: #101011;
  border: 1px solid #2a2926;
}
.node rect {
  fill: #161616;
  stroke: var(--copper);
  stroke-width: 1.5;
  rx: 6;
}
.node.source rect { stroke: #5f7f8e; }
.node.contract rect { stroke: var(--copper); }
.node.lowered rect { stroke: #6c7a4f; }
.node.runtime rect { stroke: #3d5f4a; }
.node.receipt rect { stroke: #8c6dc8; }
.node.effect rect { stroke: #3f5c6b; }
.node.step rect { stroke: #c48a5a; }
.node.cost rect { stroke: #8c2f23; }
.title {
  fill: var(--ink);
  font-size: 14px;
  font-weight: 700;
}
.detail {
  fill: var(--muted);
  font-size: 12px;
}
.edge {
  stroke: #5f7f8e;
  stroke-width: 1.7;
}
.edge-label {
  fill: var(--copper);
  font-size: 11px;
}
pre {
  margin-top: 20px;
  padding: 16px;
  overflow: auto;
  background: #111;
  border: 1px solid #2a2926;
  color: var(--muted);
}
</style>
</head>
<body>
<main>
<h1>"##;

/// The head of the arrows.
pub const ARROW: &'static str = r##"<defs>
  <marker id="arrow" markerWidth="10" markerHeight="10" refX="8" refY="3" orient="auto" markerUnits="strokeWidth">
    <path d="M0,0 L0,6 L9,3 z" fill="#5f7f8e" />
  </marker>
</defs>
"##;

} // verus!
