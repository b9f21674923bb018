use o_lang::codegen::{
    build_arguments, built_binary_path, canonicalize_output, derive_bin_name, generate_cargo_toml,
    generate_lib_rs, generate_main_rs, generate_project_main_rs, generated_lib_name, shim_entry,
    sanitize_program_filename, GENERATED_PACKAGE_NAME, GENERATED_PACKAGE_VERSION,
};
use o_lang::compile_options::{
    compile_or_run_project, output_path, project_output_path, parse_grounding_world, parse_plan_node_selector, schedule_why_origins,
    source_mode, validate_admission_inspection, CompileError, CompileOptions, CompileTarget,
    ProjectMode, ScheduleExplanationFormat, SelectorError, SourceMode, SourceSpan,
};
use o_lang::ir::PlanNodeId;
use o_lang::lockfile::{
    find_root, generate_cargo_lock, generated_dependencies, lock_text, LockError, LockPackage,
};
use o_lang::runtime_layout::{project_source_paths, runtime_source_paths};

#[test]
fn generated_project_main_handles_project_crate_name() {
    let main = generate_project_main_rs("project", &[]);
    assert!(main.contains("use ::ostadix_generated_project::project::RoutePolicy;"));
    assert!(main.contains("::ostadix_generated_project::project::bundle::deserialize"));
    assert!(!main.contains("use project::project::{self"));
    assert!(main.contains("--route requires a value"));
    assert!(main.contains("RoutePolicy::parse_checked"));
    assert!(main.contains("--project-trace-out requires a path"));
    assert!(main.contains("execute_selection_with_configured_executor"));
    assert!(main.contains("write_project_attempt_trace"));
    assert!(main.contains("ProjectExecutionError"));
}

#[test]
fn generated_programs_hold_their_parts() {
    let shims = vec![shim_entry("python.sh")];
    assert_eq!(
        shims[0],
        "    (\"python.sh\", include_bytes!(\"shims/python.sh\")),"
    );
    let main = generate_main_rs("my-app", "program.O", &shims, &["py=\"x\"".to_string()]);
    assert!(main.contains("use ostadix_generated_my_app::eval::Evaluator;"));
    assert!(main.contains("include_str!(\"program.O\")"));
    assert!(main.contains("    \"py=\\\"x\\\"\",\n"));
    assert!(main.contains(&shims[0]));
    let none = generate_main_rs("a", "program.O", &[], &[]);
    assert!(none.contains("    // no shims bundled\n"));
    assert!(none.contains("const BACKEND_GRANTS: &[&str] = &[\n\n];"));
}

#[test]
fn generated_libraries_hold_projects_only_where_asked() {
    assert!(!generate_lib_rs(false).contains("pub mod project;"));
    assert!(generate_lib_rs(true).contains("pub mod world;\npub mod project;\nmod canonical_cbor;\n"));
    assert_eq!(generated_lib_name("serde"), "ostadix_generated_serde");
    assert_eq!(generated_lib_name("a-b"), "ostadix_generated_a_b");
}

#[test]
fn generated_runtime_manifests_inherit_root_license_policy() {
    for include_project in [false, true] {
        let generated = generate_cargo_toml("generated-runtime", include_project, "1.85", "MIT");
        let manifest = toml::from_str::<toml::Value>(&generated)
            .expect("generated Cargo.toml must remain structurally valid");
        let package = manifest
            .get("package")
            .and_then(toml::Value::as_table)
            .expect("generated Cargo.toml must contain a package table");
        assert_eq!(
            package.get("publish").and_then(toml::Value::as_bool),
            Some(false),
            "generated runtimes are build artifacts, not publishable crates"
        );
        assert_eq!(
            package.get("rust-version").and_then(toml::Value::as_str),
            Some("1.85"),
            "generated runtimes must retain the package MSRV"
        );
        assert!(
            package.get("license").is_none(),
            "a mixed generated package must not relicense embedded input source"
        );
        let policy = package
            .get("metadata")
            .and_then(toml::Value::as_table)
            .and_then(|metadata| metadata.get("ostadix"))
            .and_then(toml::Value::as_table)
            .expect("generated Cargo.toml must declare component license policy");
        assert_eq!(
            policy.get("embedded-runtime-license").and_then(toml::Value::as_str),
            Some("MIT"),
            "generated runtimes must identify the embedded runtime license"
        );
        assert_eq!(
            policy.get("embedded-input-license-policy").and_then(toml::Value::as_str),
            Some("retained-by-source"),
            "generated runtimes must preserve the input source's license policy"
        );
        assert_eq!(
            package.get("name").and_then(toml::Value::as_str),
            Some(GENERATED_PACKAGE_NAME)
        );
        assert_eq!(
            manifest
                .get("dependencies")
                .and_then(toml::Value::as_table)
                .map(|d| d.contains_key("ignore")),
            Some(include_project)
        );
    }
}

#[test]
fn program_names_suit_a_package() {
    for (path, name) in [
        ("out/my app.bin", "my_app"),
        ("1st", "_1st"),
        ("", "program"),
        ("..", "program"),
        (".", "program"),
        ("dir/app/", "app"),
        ("é", "_"),
        ("ok-name_2", "ok-name_2"),
    ] {
        assert_eq!(derive_bin_name(path), name, "{path}");
    }
    assert_eq!(sanitize_program_filename("x/y.O"), "program.O");
    assert_eq!(built_binary_path("/b", "a", false, ""), "/b/target/release/a");
    assert_eq!(built_binary_path("/b", "a", false, ".exe"), "/b/target/release/a.exe");
    assert_eq!(
        built_binary_path("/b", "a", true, ".exe"),
        "/b/target/wasm32-wasip1/release/a.wasm"
    );
    assert_eq!(built_binary_path("/", "a", false, ""), "/target/release/a");
    assert_eq!(built_binary_path("", "a", false, ""), "target/release/a");
    assert_eq!(built_binary_path("/b/", "/x/a", false, ""), "/x/a");
    assert_eq!(canonicalize_output("/x", "/cwd"), "/x");
    assert_eq!(canonicalize_output("x", "/cwd"), "/cwd/x");
    assert_eq!(canonicalize_output("x", "/"), "/x");
    assert_eq!(build_arguments(true).len(), 5);
    assert_eq!(build_arguments(false), ["build", "--release", "--locked"]);
}

fn ir() -> CompileOptions {
    CompileOptions::new(CompileTarget::Ir)
}

#[test]
fn explain_schedule_cli_is_an_ir_only_inspection_surface() {
    let mut options = ir();
    options.explain_schedule = true;
    validate_admission_inspection(&options).unwrap();
    options.workers = Some(3);
    validate_admission_inspection(&options).unwrap();
    options.workers = Some(0);
    assert_eq!(validate_admission_inspection(&options), Err(CompileError::NoWorkers));

    let mut without_explanation = ir();
    without_explanation.workers = Some(3);
    assert_eq!(
        validate_admission_inspection(&without_explanation),
        Err(CompileError::WorkersAlone)
    );

    let mut script = CompileOptions::new(CompileTarget::Script);
    script.explain_schedule = true;
    assert_eq!(validate_admission_inspection(&script), Err(CompileError::ScheduleTarget));

    let mut format = ir();
    format.format = Some(ScheduleExplanationFormat::Json);
    assert_eq!(validate_admission_inspection(&format), Err(CompileError::FormatAlone));
    format.explain_schedule = true;
    validate_admission_inspection(&format).unwrap();
    format.grounding = true;
    assert_eq!(validate_admission_inspection(&format), Err(CompileError::JsonNotAlone));
}

#[test]
fn execution_intent_json_cli_is_a_standalone_ir_view() {
    let mut intent = ir();
    intent.execution_intent_json = true;
    validate_admission_inspection(&intent).unwrap();

    let mut script = CompileOptions::new(CompileTarget::Script);
    script.execution_intent_json = true;
    assert_eq!(validate_admission_inspection(&script), Err(CompileError::IntentTarget));
    intent.explain_schedule = true;
    assert_eq!(validate_admission_inspection(&intent), Err(CompileError::IntentNotAlone));
    intent.explain_schedule = false;
    intent.grounding = true;
    assert_eq!(validate_admission_inspection(&intent), Err(CompileError::IntentNotAlone));
}

#[test]
fn why_cli_requires_a_canonical_plan_id_and_ir_only_flags() {
    for (text, expected) in [("P0", 0), ("P7", 7), ("P184", 184)] {
        assert_eq!(
            parse_plan_node_selector(text).unwrap(),
            PlanNodeId(expected)
        );
    }
    for malformed in ["", "P", "p1", "N1", "1", "P01", "P-1", "P 1"] {
        assert!(
            parse_plan_node_selector(malformed).is_err(),
            "accepted malformed selector {malformed:?}"
        );
    }
    assert_eq!(
        parse_plan_node_selector("P99999999999999999999"),
        Err(SelectorError::TooLarge)
    );

    let mut why = ir();
    why.why = Some(PlanNodeId(7));
    validate_admission_inspection(&why).unwrap();

    let mut script = CompileOptions::new(CompileTarget::Script);
    script.why = Some(PlanNodeId(1));
    assert_eq!(validate_admission_inspection(&script), Err(CompileError::WhyTarget));
    why.explain_schedule = true;
    assert_eq!(validate_admission_inspection(&why), Err(CompileError::WhyAndSchedule));
    why.explain_schedule = false;
    why.grounding = true;
    assert_eq!(validate_admission_inspection(&why), Err(CompileError::WhyAndWorld));
}

#[test]
fn grounding_cli_binds_an_exact_nonzero_world_epoch() {
    let mut options = ir();
    options.grounding = true;
    options.world_id = Some("desk".into());
    options.world_epoch = Some(4);
    assert_eq!(
        parse_grounding_world(&options).unwrap().unwrap().to_text(),
        "desk@4"
    );
    options.world_epoch = Some(0);
    assert!(parse_grounding_world(&options).is_err());
    options.world_epoch = None;
    assert_eq!(parse_grounding_world(&options).unwrap_err(), CompileError::NoEpoch);
    options.world_id = None;
    options.world_epoch = Some(2);
    assert_eq!(parse_grounding_world(&options).unwrap_err(), CompileError::NoWorld);
    options.grounding = false;
    assert_eq!(parse_grounding_world(&options).unwrap_err(), CompileError::WorldWithoutGrounding);
    let mut dot = CompileOptions::new(CompileTarget::Dot);
    dot.grounding = true;
    assert_eq!(parse_grounding_world(&dot).unwrap_err(), CompileError::GroundingTarget);
}

#[test]
fn inputs_and_targets_decide_what_happens() {
    let binary = CompileOptions::new(CompileTarget::Binary);
    assert_eq!(source_mode(&binary), Ok(SourceMode::Build { wasm: false }));
    assert_eq!(compile_or_run_project(&binary, false), Ok(ProjectMode::Build { wasm: false }));
    let mut options = ir();
    assert_eq!(source_mode(&options), Ok(SourceMode::ShowPlan));
    options.grounding = true;
    assert_eq!(source_mode(&options), Ok(SourceMode::ShowGrounding));
    assert_eq!(compile_or_run_project(&options, true), Err(CompileError::ProjectGrounding));
    options.grounding = false;
    options.why = Some(PlanNodeId(0));
    assert_eq!(compile_or_run_project(&options, true), Err(CompileError::ProjectSchedule));
    let mut script = CompileOptions::new(CompileTarget::Script);
    script.project_trace_out = Some("attempt.json".into());
    assert_eq!(source_mode(&script), Err(CompileError::RouteWithoutProject));
    assert_eq!(compile_or_run_project(&script, false), Err(CompileError::TraceWithoutGraph));
    assert_eq!(compile_or_run_project(&script, true), Ok(ProjectMode::Run));
    script.routes_policy = Some("all".into());
    assert_eq!(compile_or_run_project(&script, true), Err(CompileError::PolicyWithoutRoute));
    let mut wasm = CompileOptions::new(CompileTarget::Wasm);
    wasm.route = Some("r".into());
    assert_eq!(compile_or_run_project(&wasm, true), Err(CompileError::RouteAtCompileTime));
    wasm.route = None;
    wasm.project_trace_out = Some("x".into());
    assert_eq!(compile_or_run_project(&wasm, true), Err(CompileError::TraceTarget));
    let mut intent = ir();
    intent.execution_intent_json = true;
    assert_eq!(compile_or_run_project(&intent, true), Err(CompileError::ProjectIntent));
}

#[test]
fn origins_bind_the_source_they_are_of() {
    let span = |n: u64| SourceSpan {
        start_byte: n,
        end_byte: n + 1,
        start_line: 1,
        start_column: n + 1,
        end_line: 1,
        end_column: n + 2,
    };
    let text = schedule_why_origins("abc", "a \"b\".O", &[1, 0, 1], &[span(0), span(1)]).unwrap();
    assert!(text.starts_with("; SourceOrigin oexec.source-origin/v1\nsource-binding sha256=ba7816bf8f01cfea414140de5dae2223b00361a396177a9cb410ff61f20015ad bytes=3 path=\"a \\\"b\\\".O\"\n"), "{text}");
    assert!(text.contains("source-origin operation=P0 bytes=0..1 start=1:1 end=1:2\nsource-origin operation=P1 bytes=1..2 start=1:2 end=1:3\n"));
    assert_eq!(schedule_why_origins("abc", "a.O", &[0, 5], &[span(0)]), Err(5));
}

fn package(name: &str, version: &str, source: bool, deps: Option<&[&str]>) -> LockPackage {
    LockPackage {
        name: name.into(),
        version: version.into(),
        source: if source { Some("registry".into()) } else { None },
        checksum: None,
        dependencies: deps.map(|d| d.iter().map(|s| s.to_string()).collect()),
    }
}

fn workspace() -> Vec<LockPackage> {
    let needed = [
        "anyhow", "base64", "bitflags 2.0.0", "clap", "ed25519-dalek", "getrandom", "hex", "libc",
        "num-bigint", "num-traits", "semver", "serde", "serde_json", "sha2", "thiserror", "toml",
        "which", "ignore", "unneeded",
    ];
    let mut list = vec![package("o-lang", "1.0.0", false, Some(&needed))];
    for name in needed {
        let name = name.split(' ').next().unwrap();
        let deps: Option<&[&str]> = if name == "serde_json" {
            Some(&["serde", "itoa"])
        } else if name == "unneeded" {
            Some(&["nowhere"])
        } else {
            None
        };
        list.push(package(name, "2.0.0", true, deps));
    }
    list.push(package("bitflags", "1.0.0", true, None));
    list.push(package("itoa", "1.0.0", true, None));
    list
}

#[test]
fn generated_runtime_build_contract_projects_lock_and_toolchain() {
    for include_project in [false, true] {
        let out = generate_cargo_lock(workspace(), "o-lang", "1.0.0", include_project).unwrap();
        let generated: Vec<&LockPackage> = out
            .iter()
            .filter(|p| p.name == GENERATED_PACKAGE_NAME && p.source.is_none())
            .collect();
        assert_eq!(generated.len(), 1);
        assert_eq!(generated[0].version, GENERATED_PACKAGE_VERSION);
        let deps = generated[0].dependencies.as_ref().unwrap();
        assert_eq!(deps.len(), if include_project { 18 } else { 17 });
        assert_eq!(deps.contains(&"ignore".to_string()), include_project);
        assert!(deps.windows(2).all(|w| w[0] < w[1]));
        assert!(out.iter().any(|p| p.name == "itoa"), "needed by a dependency");
        assert!(!out.iter().any(|p| p.name == "unneeded"));
        assert!(!out.iter().any(|p| p.name == "bitflags" && p.version == "1.0.0"));
        assert_eq!(out.iter().any(|p| p.name == "ignore"), include_project);
    }
}

#[test]
fn locks_that_do_not_resolve_are_refused() {
    assert!(matches!(
        generate_cargo_lock(workspace(), "o-lang", "9.9.9", false),
        Err(LockError::NoRoot)
    ));
    let mut twice = workspace();
    twice.push(package("o-lang", "1.0.0", false, None));
    assert!(find_root(&twice, "o-lang", "1.0.0").is_err());
    assert_eq!(find_root(&workspace(), "o-lang", "1.0.0").unwrap(), 0);
    let bare = vec![package("o-lang", "1.0.0", false, None)];
    assert!(matches!(
        generate_cargo_lock(bare, "o-lang", "1.0.0", false),
        Err(LockError::NoDependencies)
    ));
    match generated_dependencies(&vec!["a 1".into()], &vec!["b".into(), "a".into()]) {
        Err(LockError::Dependency(name)) => assert_eq!(name, "b"),
        other => panic!("{other:?}"),
    }
    let mut missing = workspace();
    missing.retain(|p| p.name != "itoa");
    match generate_cargo_lock(missing, "o-lang", "1.0.0", false) {
        Err(error) => assert_eq!(
            error.to_text(),
            "generated Cargo.lock dependency `itoa` resolves to 0 package entries"
        ),
        Ok(_) => panic!("a dependency is missing"),
    }
    let mut qualified = workspace();
    for p in qualified.iter_mut() {
        if p.name == "serde_json" {
            p.dependencies = Some(vec!["serde 2.0.0 (registry)".into()]);
        }
    }
    assert!(matches!(
        generate_cargo_lock(qualified, "o-lang", "1.0.0", false),
        Err(LockError::Qualified(_))
    ));
    let mut empty = workspace();
    for p in empty.iter_mut() {
        if p.name == "serde_json" {
            p.dependencies = Some(vec!["  ".into()]);
        }
    }
    assert!(matches!(
        generate_cargo_lock(empty, "o-lang", "1.0.0", false),
        Err(LockError::EmptyCoordinate)
    ));
}

#[test]
fn library_files_are_laid_out_once() {
    let mut paths = runtime_source_paths();
    paths.extend(project_source_paths());
    assert!(paths.contains(&"hgraph/solve.rs"));
    assert!(paths.contains(&"project/ecosystems/shell.rs"));
    let count = paths.len();
    paths.sort_unstable();
    paths.dedup();
    assert_eq!(paths.len(), count);
}

#[test]
fn generated_libraries_name_the_runtime_modules() {
    let lib_rs = generate_lib_rs(false);
    for line in [
        "pub mod effects;",
        "pub mod execution_contract;",
        "pub(crate) mod eval_core;",
        "pub mod environment;",
        "pub(crate) mod backend_catalog;",
        "pub mod backend_morphism;",
        "pub mod backend_state;",
        "#[path = \"placement/protocol/mod.rs\"]",
        "pub(crate) mod placement_protocol;",
        "pub mod placement;",
        "pub mod registry;",
        "pub mod evidence;",
        "pub mod hgraph;",
        "pub mod executor;",
        "pub mod runtime_exec;",
        "pub mod resource_identity;",
        "pub mod world;",
        "mod canonical_cbor;",
        "mod dispatch_model;",
        "pub mod syntax_dialect;",
    ] {
        assert!(lib_rs.contains(line), "{line}");
    }
    assert_eq!(lib_rs.matches("mod eval_core;").count(), 1);
    assert_eq!(lib_rs.matches("mod backend_state;").count(), 1);
    assert!(generate_cargo_toml("generated-runtime", false, "1.85", "MIT")
        .contains("ed25519-dalek = \"2\""));
}

#[test]
fn outputs_are_named_by_what_is_asked_or_the_input() {
    let path = |asked: Option<&str>, input: &str, wasm: bool| output_path(asked, input, wasm);
    assert_eq!(path(None, "dir/program.O", false).unwrap(), "program");
    assert_eq!(path(None, "dir/program.O", true).unwrap(), "program.wasm");
    assert_eq!(path(None, "a/b.tar.O/./", false).unwrap(), "b.tar");
    assert_eq!(path(None, "a/b.tar.O", true).unwrap(), "b.wasm");
    assert_eq!(path(None, ".hidden", false).unwrap(), ".hidden");
    assert_eq!(path(Some("out/app.bin"), "..", true).unwrap(), "out/app.wasm");
    assert_eq!(path(Some("out/app/"), "x.O", true).unwrap(), "out/app.wasm");
    assert_eq!(path(Some("out/.."), "x.O", true).unwrap(), "out/..");
    assert_eq!(path(Some("/"), "x.O", true).unwrap(), "/");
    assert_eq!(path(Some("app"), "..", false).unwrap(), "app");
    for input in ["", "/", "..", "a/..", "."] {
        assert_eq!(path(None, input, false), Err(CompileError::NoStem), "{input}");
    }
}

#[test]
fn projects_are_named_by_what_is_asked_their_directory_or_the_input() {
    let path = project_output_path;
    assert_eq!(path(Some("out/app.bin"), Some("demo"), "x.O", true), "out/app.wasm");
    assert_eq!(path(None, Some("demo"), "dir", false), "demo");
    assert_eq!(path(None, Some("demo.v1"), "dir", true), "demo.wasm");
    assert_eq!(path(None, None, "dir/bundle.O", false), "bundle");
    assert_eq!(path(None, None, "dir/bundle.O", true), "bundle.wasm");
    assert_eq!(path(None, None, "..", false), "project");
    assert_eq!(path(None, None, "/", true), "project.wasm");
}

#[test]
fn paths_are_quoted_as_json() {
    let text = schedule_why_origins("", "a\u{1}\u{8}\t\n\u{c}\r\u{1f}\u{7f}\\é", &[], &[]).unwrap();
    assert!(
        text.contains("path=\"a\\u0001\\b\\t\\n\\f\\r\\u001f\u{7f}\\\\é\"\n"),
        "{text}"
    );
}

#[test]
fn locks_say_where_they_come_from() {
    assert_eq!(
        lock_text("version = 4\n"),
        "# This file is @generated by olangc from the Ostadix workspace lock.\n# It is not intended for manual editing.\nversion = 4\n"
    );
}
