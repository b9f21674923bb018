//! The fixed texts of generated programs.

use vstd::prelude::*;

verus! {

/// The program of a compiled project, part 1.
pub const PROJECT_MAIN_0: &'static str = r####"// AUTO-GENERATED by olangc. DO NOT EDIT.

use ::"####;

/// The program of a compiled project, part 2.
pub const PROJECT_MAIN_1: &'static str = r####"::project::RoutePolicy;
use ::"####;

/// The program of a compiled project, part 3.
pub const PROJECT_MAIN_2: &'static str = r####"::project::executor::{
    execute_selection_with_configured_executor, write_project_attempt_trace,
    ProjectExecutionError, PROJECT_EXECUTOR_ENV,
};
use ::"####;

/// The program of a compiled project, part 4.
pub const PROJECT_MAIN_3: &'static str = r####"::project::runtime::RunOptions;

/// The serialized project bundle, embedded at compile time.
const PROJECT_BUNDLE: &[u8] = include_bytes!("project_bundle.json");

#[cfg(not(target_family = "wasm"))]
const EMBEDDED_SHIMS: &[(&str, &[u8])] = &[
"####;

/// The program of a compiled project, part 5.
pub const PROJECT_MAIN_4: &'static str = r####"
];

fn main() -> anyhow::Result<()> {
    if ::"####;

/// The program of a compiled project, part 6.
pub const PROJECT_MAIN_5: &'static str = r####"::backend::run_backend_from_env_args()? {
        return Ok(());
    }

    #[cfg(not(target_family = "wasm"))]
    let _ = EMBEDDED_SHIMS;

    let bundle = ::"####;

/// The program of a compiled project, part 7.
pub const PROJECT_MAIN_6: &'static str = r####"::project::bundle::deserialize(PROJECT_BUNDLE)?;

    let args: Vec<String> = std::env::args().skip(1).collect();
    let mut list_routes = false;
    let mut route: Option<String> = None;
    let mut policy: Option<String> = None;
    let mut trace_out: Option<std::path::PathBuf> = None;
    let mut i = 0;
    while i < args.len() {
        match args[i].as_str() {
            "--list-routes" => list_routes = true,
            "--route" => {
                i += 1;
                route = Some(
                    args.get(i)
                        .filter(|value| !value.starts_with("--"))
                        .cloned()
                        .ok_or_else(|| anyhow::anyhow!("--route requires a value"))?,
                );
            }
            "--routes-policy" => {
                i += 1;
                policy = Some(
                    args.get(i)
                        .filter(|value| !value.starts_with("--"))
                        .cloned()
                        .ok_or_else(|| anyhow::anyhow!("--routes-policy requires a value"))?,
                );
            }
            "--project-trace-out" => {
                i += 1;
                trace_out = Some(std::path::PathBuf::from(
                    args.get(i)
                        .filter(|value| !value.starts_with("--"))
                        .cloned()
                        .ok_or_else(|| anyhow::anyhow!("--project-trace-out requires a path"))?,
                ));
            }
            other => return Err(anyhow::anyhow!("unknown argument: {other}")),
        }
        i += 1;
    }

    if list_routes {
        if trace_out.is_some() {
            return Err(anyhow::anyhow!(
                "--project-trace-out requires project execution and cannot be combined with --list-routes"
            ));
        }
        print!("{}", bundle.route_table());
        return Ok(());
    }

    if trace_out.is_some()
        && std::env::var_os(PROJECT_EXECUTOR_ENV).as_deref()
            != Some(std::ffi::OsStr::new("hgraph"))
    {
        return Err(anyhow::anyhow!(
            "--project-trace-out requires {PROJECT_EXECUTOR_ENV}=hgraph; the legacy project runtime does not produce a Project HGraph attempt trace"
        ));
    }

    let policy = policy
        .as_deref()
        .map(RoutePolicy::parse_checked)
        .transpose()
        .map_err(anyhow::Error::msg)?;
    let opts = RunOptions::default();
    let execution = match execute_selection_with_configured_executor(
        &bundle,
        route.as_deref(),
        policy,
        &opts,
    ) {
        Ok(execution) => execution,
        Err(error) => {
            if let (Some(path), Some(project_error)) = (
                trace_out.as_deref(),
                error.downcast_ref::<ProjectExecutionError>(),
            ) {
                if let Err(trace_error) = write_project_attempt_trace(path, &project_error.trace) {
                    return Err(error.context(format!(
                        "additionally failed to retain the Project HGraph attempt trace: {trace_error:#}"
                    )));
                }
            }
            return Err(error);
        }
    };
    if let Some(path) = trace_out.as_deref() {
        let trace = execution.trace.as_ref().ok_or_else(|| anyhow::anyhow!(
            "HGraph project execution returned no Project HGraph attempt trace"
        ))?;
        write_project_attempt_trace(path, trace)?;
    }
    let results = execution.results;
    for result in &results {
        print!("{}", result.summary());
    }
    if !results.iter().any(|r| r.succeeded()) {
        std::process::exit(1);
    }
    Ok(())
}
"####;

/// The program of a compiled source, part 1.
pub const MAIN_0: &'static str = r####"// AUTO-GENERATED by olangc. DO NOT EDIT.

use "####;

/// The program of a compiled source, part 2.
pub const MAIN_1: &'static str = r####"::eval::Evaluator;
use "####;

/// The program of a compiled source, part 3.
pub const MAIN_2: &'static str = r####"::parser::Parser;
use "####;

/// The program of a compiled source, part 4.
pub const MAIN_3: &'static str = r####"::value::OValue;
use std::collections::HashSet;

/// The compiled .O program source, embedded at compile time.
const PROGRAM_SOURCE: &str = include_str!("####;

/// The program of a compiled source, part 5.
pub const MAIN_4: &'static str = r####");
const BACKEND_GRANTS: &[&str] = &[
"####;

/// The program of a compiled source, part 6.
pub const MAIN_5: &'static str = r####"
];

#[cfg(not(target_family = "wasm"))]
/// Backend shim scripts, embedded as raw bytes at compile time.
/// Extracted to a per-invocation temp directory at startup and cleaned up on exit.
const EMBEDDED_SHIMS: &[(&str, &[u8])] = &[
"####;

/// The program of a compiled source, part 7.
pub const MAIN_6: &'static str = r####"
];

#[cfg(not(target_family = "wasm"))]
struct ShimGuard(std::path::PathBuf);

#[cfg(not(target_family = "wasm"))]
impl Drop for ShimGuard {
    fn drop(&mut self) {
        let _ = std::fs::remove_dir_all(&self.0);
    }
}

fn main() -> anyhow::Result<()> {
    use anyhow::Context as _;

    if "####;

/// The program of a compiled source, part 8.
pub const MAIN_7: &'static str = r####"::backend::run_backend_from_env_args()? {
        return Ok(());
    }

    #[cfg(not(target_family = "wasm"))]
    let shim_dir = {
        // Extract embedded shims to a private temp directory for this invocation.
        let dir = std::env::current_dir()
            .unwrap_or_else(|_| std::path::PathBuf::from("."))
            .join(format!(".o_shims_{}", std::process::id()));
        std::fs::create_dir_all(&dir)?;

        for (name, content) in EMBEDDED_SHIMS {
            let dest = dir.join(name);
            std::fs::write(&dest, content)
                .with_context(|| format!("failed to extract shim {name}"))?;
            #[cfg(unix)]
            {
                use std::os::unix::fs::PermissionsExt as _;
                std::fs::set_permissions(&dest, std::fs::Permissions::from_mode(0o755))?;
            }
        }
        dir
    };
    #[cfg(target_family = "wasm")]
    let shim_dir = std::path::PathBuf::from(".");

    #[cfg(not(target_family = "wasm"))]
    let _guard = ShimGuard(shim_dir.clone());

    let registered_backends: HashSet<String> =
        "####;

/// The program of a compiled source, part 9.
pub const MAIN_8: &'static str = r####"::ir::BackendRegistry::global().registered_backend_tags();

    let mut source = PROGRAM_SOURCE.to_string();
    if source.starts_with("#!") {
        if let Some(newline) = source.find('\n') {
            source = source[newline + 1..].to_string();
        } else {
            source.clear();
        }
    }

    let mut parser = Parser::new(&source, &registered_backends);
    let nodes = parser.parse().context("failed to parse embedded program")?;

    let mut evaluator = Evaluator::new(shim_dir)
        .with_registered_backends(registered_backends);
    let mut scope = std::collections::HashMap::new();
    for grant in BACKEND_GRANTS {
        evaluator.install_backend_grant(grant, &mut scope)?;
    }
    let result = evaluator
        .eval_document_with_scope(nodes, &mut scope)
        .context("failed to evaluate program")?;

    match result {
        OValue::Html { v } => print!("{v}"),
        OValue::Text { v } => print!("{}", v.utf8),
        other => println!("{other}"),
    }

    Ok(())
}
"####;

/// The manifest of a generated package, part 1.
pub const MANIFEST_0: &'static str = r####"[package]
name    = ""####;

/// The manifest of a generated package, part 2.
pub const MANIFEST_1: &'static str = r####""
version = ""####;

/// The manifest of a generated package, part 3.
pub const MANIFEST_2: &'static str = r####""
edition = "2021"
rust-version = ""####;

/// The manifest of a generated package, part 4.
pub const MANIFEST_3: &'static str = r####""
publish = false

[package.metadata.ostadix]
embedded-runtime-license = ""####;

/// The manifest of a generated package, part 5.
pub const MANIFEST_4: &'static str = r####""
embedded-input-license-policy = "retained-by-source"

[lib]
name = ""####;

/// The manifest of a generated package, part 6.
pub const MANIFEST_5: &'static str = r####""
path = "src/lib.rs"

[[bin]]
name = ""####;

/// The manifest of a generated package, part 7.
pub const MANIFEST_6: &'static str = r####""
path = "src/main.rs"

[dependencies]
serde      = { version = "1", features = ["derive"] }
serde_json = { version = "1", features = ["preserve_order"] }
base64     = "0.22"
toml       = "0.8"
which      = "6"
semver     = { version = "1", features = ["serde"] }
sha2       = "0.10"
hex        = "0.4"
ed25519-dalek = "2"
num-bigint = { version = "0.4", features = ["serde"] }
num-traits = "0.2"
bitflags   = "2"
getrandom  = "0.4.3"
thiserror  = "2"
anyhow     = "1"
clap       = { version = "4", features = ["derive"] }
"####;

/// The manifest of a generated package, part 8.
pub const MANIFEST_7: &'static str = r####"
[target.'cfg(unix)'.dependencies]
libc       = "0.2"

[profile.release]
opt-level     = 3
lto           = "fat"
codegen-units = 1
panic         = "abort"
strip         = "symbols"

[profile.dev.package.sha2]
opt-level = 3
"####;

/// The library of a generated package, up to the module of projects.
pub const LIB_0: &'static str = r####"// AUTO-GENERATED by olangc. DO NOT EDIT.
//
// Runtime library crate — all pub items are part of the public API surface,
// so the compiler treats them as reachable regardless of whether the binary
// calls them directly.

pub mod value;
mod capability;
pub mod environment;
pub mod backend;
pub(crate) mod backend_catalog;
pub mod backend_morphism;
pub mod backend_state;
pub mod parser;
#[path = "placement/protocol/mod.rs"]
pub(crate) mod placement_protocol;
pub mod placement;
pub mod registry;
pub mod ir;
pub mod effects;
pub mod execution_contract;
pub(crate) mod eval_core;
pub mod evidence;
pub mod hgraph;
pub mod executor;
pub mod eval;
pub mod process;
pub mod nix_ops;
pub mod nixos_ops;
pub mod runtime_exec;
pub mod scheduler;
#[path = "world/identity.rs"]
pub mod resource_identity;
pub mod world;
"####;

/// The library of a generated package, after the module of projects.
pub const LIB_1: &'static str = r####"mod canonical_cbor;
mod dispatch_model;
pub mod syntax_dialect;
pub mod wire;
"####;

} // verus!
