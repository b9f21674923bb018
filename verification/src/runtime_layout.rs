//! The files of a generated package's library.

use vstd::prelude::*;

verus! {

/// Where the files of every generated library stand, below its sources.
pub open spec fn runtime_paths() -> Seq<Seq<char>> {
    seq![
        "value.rs"@,
        "capability.rs"@,
        "environment.rs"@,
        "parser.rs"@,
        "ir.rs"@,
        "backend_catalog.rs"@,
        "backend_catalog.inc.rs"@,
        "execution_contract.rs"@,
        "eval_core.rs"@,
        "eval.rs"@,
        "process.rs"@,
        "backend.rs"@,
        "backend_morphism.rs"@,
        "backend_state.rs"@,
        "nix_ops.rs"@,
        "nixos_ops.rs"@,
        "scheduler.rs"@,
        "canonical_cbor.rs"@,
        "dispatch_model.rs"@,
        "syntax_dialect.rs"@,
        "wire.rs"@,
        "effects.rs"@,
        "runtime_exec.rs"@,
        "placement/mod.rs"@,
        "placement/projection.rs"@,
        "placement/protocol/mod.rs"@,
        "placement/protocol/candidate.rs"@,
        "placement/protocol/catalog.rs"@,
        "placement/protocol/digest.rs"@,
        "placement/protocol/error.rs"@,
        "placement/protocol/records.rs"@,
        "placement/protocol/requirement.rs"@,
        "placement/protocol/state.rs"@,
        "placement/protocol/target.rs"@,
        "placement/protocol/warrant.rs"@,
        "registry/mod.rs"@,
        "registry/bundle/mod.rs"@,
        "registry/placement_compat.rs"@,
        "evidence/mod.rs"@,
        "evidence/fact.rs"@,
        "evidence/analyze.rs"@,
        "evidence/admit.rs"@,
        "evidence/intent.rs"@,
        "evidence/profile.rs"@,
        "world/mod.rs"@,
        "world/codec.rs"@,
        "world/identity.rs"@,
        "world/identity_wire.rs"@,
        "world/grounding.rs"@,
        "world/protocol.rs"@,
        "world/receipt.rs"@,
        "world/receipt_codec.rs"@,
        "world/value.rs"@,
        "world/value_codec.rs"@,
        "hgraph/mod.rs"@,
        "hgraph/graph.rs"@,
        "hgraph/kinds.rs"@,
        "hgraph/from_oir.rs"@,
        "hgraph/schedule.rs"@,
        "hgraph/solve.rs"@,
        "executor/mod.rs"@,
        "executor/actor.rs"@,
        "executor/cancellation.rs"@,
        "executor/coordinator.rs"@,
        "executor/effects.rs"@,
        "executor/parallel.rs"@,
        "executor/pool.rs"@,
        "executor/task.rs"@,
        "executor/trace.rs"@,
    ]
}

/// Where the files for projects stand, below a library's sources.
pub open spec fn project_paths() -> Seq<Seq<char>> {
    seq![
        "project/mod.rs"@,
        "project/bundle.rs"@,
        "project/deployment.rs"@,
        "project/discover.rs"@,
        "project/executor.rs"@,
        "project/launch.rs"@,
        "project/logical.rs"@,
        "project/lower.rs"@,
        "project/manifest.rs"@,
        "project/materialize.rs"@,
        "project/model.rs"@,
        "project/plan.rs"@,
        "project/runtime.rs"@,
        "project/runtime_graph.rs"@,
        "project/trace.rs"@,
        "project/world_execution.rs"@,
        "project/ecosystems/mod.rs"@,
        "project/ecosystems/c_family.rs"@,
        "project/ecosystems/dotnet.rs"@,
        "project/ecosystems/generic.rs"@,
        "project/ecosystems/haskell_ocaml.rs"@,
        "project/ecosystems/java.rs"@,
        "project/ecosystems/javascript.rs"@,
        "project/ecosystems/nix.rs"@,
        "project/ecosystems/python.rs"@,
        "project/ecosystems/rust.rs"@,
        "project/ecosystems/shell.rs"@,
    ]
}

pub open spec fn path_views(list: Seq<&'static str>) -> Seq<Seq<char>> {
    list.map_values(|s: &'static str| s@)
}

/// Where the files of every generated library stand, in the order in which they
/// are written.
pub fn runtime_source_paths() -> (out: Vec<&'static str>)
    ensures
        path_views(out@) == runtime_paths(),
{
    let out: Vec<&'static str> = vec![
        "value.rs",
        "capability.rs",
        "environment.rs",
        "parser.rs",
        "ir.rs",
        "backend_catalog.rs",
        "backend_catalog.inc.rs",
        "execution_contract.rs",
        "eval_core.rs",
        "eval.rs",
        "process.rs",
        "backend.rs",
        "backend_morphism.rs",
        "backend_state.rs",
        "nix_ops.rs",
        "nixos_ops.rs",
        "scheduler.rs",
        "canonical_cbor.rs",
        "dispatch_model.rs",
        "syntax_dialect.rs",
        "wire.rs",
        "effects.rs",
        "runtime_exec.rs",
        "placement/mod.rs",
        "placement/projection.rs",
        "placement/protocol/mod.rs",
        "placement/protocol/candidate.rs",
        "placement/protocol/catalog.rs",
        "placement/protocol/digest.rs",
        "placement/protocol/error.rs",
        "placement/protocol/records.rs",
        "placement/protocol/requirement.rs",
        "placement/protocol/state.rs",
        "placement/protocol/target.rs",
        "placement/protocol/warrant.rs",
        "registry/mod.rs",
        "registry/bundle/mod.rs",
        "registry/placement_compat.rs",
        "evidence/mod.rs",
        "evidence/fact.rs",
        "evidence/analyze.rs",
        "evidence/admit.rs",
        "evidence/intent.rs",
        "evidence/profile.rs",
        "world/mod.rs",
        "world/codec.rs",
        "world/identity.rs",
        "world/identity_wire.rs",
        "world/grounding.rs",
        "world/protocol.rs",
        "world/receipt.rs",
        "world/receipt_codec.rs",
        "world/value.rs",
        "world/value_codec.rs",
        "hgraph/mod.rs",
        "hgraph/graph.rs",
        "hgraph/kinds.rs",
        "hgraph/from_oir.rs",
        "hgraph/schedule.rs",
        "hgraph/solve.rs",
        "executor/mod.rs",
        "executor/actor.rs",
        "executor/cancellation.rs",
        "executor/coordinator.rs",
        "executor/effects.rs",
        "executor/parallel.rs",
        "executor/pool.rs",
        "executor/task.rs",
        "executor/trace.rs",
    ];
    assert(path_views(out@) =~= runtime_paths());
    out
}

/// Where the files for projects stand, in the order in which they are written.
pub fn project_source_paths() -> (out: Vec<&'static str>)
    ensures
        path_views(out@) == project_paths(),
{
    let out: Vec<&'static str> = vec![
        "project/mod.rs",
        "project/bundle.rs",
        "project/deployment.rs",
        "project/discover.rs",
        "project/executor.rs",
        "project/launch.rs",
        "project/logical.rs",
        "project/lower.rs",
        "project/manifest.rs",
        "project/materialize.rs",
        "project/model.rs",
        "project/plan.rs",
        "project/runtime.rs",
        "project/runtime_graph.rs",
        "project/trace.rs",
        "project/world_execution.rs",
        "project/ecosystems/mod.rs",
        "project/ecosystems/c_family.rs",
        "project/ecosystems/dotnet.rs",
        "project/ecosystems/generic.rs",
        "project/ecosystems/haskell_ocaml.rs",
        "project/ecosystems/java.rs",
        "project/ecosystems/javascript.rs",
        "project/ecosystems/nix.rs",
        "project/ecosystems/python.rs",
        "project/ecosystems/rust.rs",
        "project/ecosystems/shell.rs",
    ];
    assert(path_views(out@) =~= project_paths());
    out
}

} // verus!
