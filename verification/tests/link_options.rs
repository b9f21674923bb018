use o_lang::document::ParallelLinkMode;
use o_lang::files::default_extension_map;
use o_lang::link_options::{
    add_mappings, ensure_project_compatible_flags, has_project_intent, link_cautions, link_mode,
    mesh_execution_config, parse_lang, resolve_shim_dir, InputKinds, LangError, LinkMode,
    LinkOptions, MeshLocalFallbackMode, MeshMode, RunRefusal, UsageError,
};
use o_lang::unlink::registered_backends;

fn options() -> LinkOptions {
    LinkOptions::new(vec!["project".into()])
}

const NOTHING: InputKinds = InputKinds {
    one_directory: false,
    some_directory: false,
    lifted_project: false,
};

const DIRECTORY: InputKinds = InputKinds {
    one_directory: true,
    some_directory: true,
    lifted_project: false,
};

#[test]
fn mesh_cli_defaults_to_prefer_and_builds_exact_config() {
    let mut cli = options();
    cli.run = true;
    cli.mesh = Some(MeshMode::Prefer);
    assert!(has_project_intent(&cli));

    let config = mesh_execution_config(&cli).expect("--mesh must construct mesh config");
    assert_eq!(config.requirement, MeshMode::Prefer);
    assert_eq!(config.max_retries, 2);
    assert_eq!(config.local_fallback, MeshLocalFallbackMode::PreSend);
    assert!(config.discover_lan);
    assert_eq!(config.discovery_timeout_ms, 750);
    assert_eq!(config.peer_root, None);
    assert_eq!(config.trace_out, None);
    assert!(!config.explain);
}

#[test]
fn mesh_cli_maps_required_mode_and_all_overrides() {
    let mut cli = options();
    cli.run = true;
    cli.mesh = Some(MeshMode::Required);
    cli.mesh_retries = 5;
    cli.mesh_local_fallback = MeshLocalFallbackMode::Idempotent;
    cli.mesh_discovery_timeout_ms = 1250;
    cli.mesh_no_lan_discovery = true;
    cli.mesh_peer_root = Some("peer-state".into());
    cli.mesh_trace_out = Some("mesh-attempt.json".into());
    cli.explain_mesh = true;

    let config = mesh_execution_config(&cli).expect("--mesh must construct mesh config");
    assert_eq!(config.requirement, MeshMode::Required);
    assert_eq!(config.max_retries, 5);
    assert_eq!(config.local_fallback, MeshLocalFallbackMode::Idempotent);
    assert!(!config.discover_lan);
    assert_eq!(config.discovery_timeout_ms, 1_250);
    assert_eq!(config.peer_root.as_deref(), Some("peer-state"));
    assert_eq!(config.trace_out.as_deref(), Some("mesh-attempt.json"));
    assert!(config.explain);
}

#[test]
fn mesh_is_project_only_while_parallel_remains_literal_only() {
    let mut mesh_parallel = options();
    mesh_parallel.run = true;
    mesh_parallel.mesh = Some(MeshMode::Prefer);
    mesh_parallel.parallel = Some(ParallelLinkMode::Autonomous);
    let error = ensure_project_compatible_flags(&mesh_parallel).unwrap_err();
    assert!(error.contains("--parallel"));

    let mut literal_parallel = options();
    literal_parallel.parallel = Some(ParallelLinkMode::Autonomous);
    assert!(!has_project_intent(&literal_parallel));
    assert!(mesh_execution_config(&literal_parallel).is_none());
}

#[test]
fn incompatible_options_are_all_named() {
    let mut cli = options();
    cli.lang = vec!["txt=markdown".into()];
    cli.no_validate = true;
    cli.explain_parallel = true;
    assert_eq!(
        ensure_project_compatible_flags(&cli).unwrap_err(),
        "--lang, --no-validate, --explain-parallel configure literal per-file linking and cannot be used in project mode; remove --project or add --literal to select literal link-only mode"
    );
}

#[test]
fn a_bare_directory_is_linked_and_run() {
    let cli = options();
    assert_eq!(
        link_mode(&cli, DIRECTORY).unwrap(),
        LinkMode::Literal { run: true, implied: true }
    );
    assert_eq!(link_cautions(&cli, DIRECTORY).len(), 2);
    let mut literal = options();
    literal.literal = true;
    assert_eq!(
        link_mode(&literal, DIRECTORY).unwrap(),
        LinkMode::Literal { run: false, implied: false }
    );
    literal.parallel = Some(ParallelLinkMode::Verified);
    assert!(link_cautions(&literal, DIRECTORY)[1].starts_with("warning: verified parallel groups"));
    assert!(link_cautions(&cli, NOTHING).is_empty());
    assert_eq!(
        link_mode(&cli, NOTHING).unwrap(),
        LinkMode::Literal { run: false, implied: false }
    );
}

#[test]
fn projects_are_recognized() {
    let mut cli = options();
    cli.project = true;
    assert_eq!(link_mode(&cli, DIRECTORY).unwrap(), LinkMode::Project);
    let mut lifted = NOTHING;
    lifted.lifted_project = true;
    assert_eq!(link_mode(&options(), lifted).unwrap(), LinkMode::Project);
    let mut literal = options();
    literal.literal = true;
    assert_eq!(
        link_mode(&literal, lifted).unwrap(),
        LinkMode::Literal { run: false, implied: false }
    );
    let mut list = options();
    list.list_routes = true;
    assert_eq!(link_mode(&list, DIRECTORY).unwrap(), LinkMode::ListRoutes);
}

#[test]
fn contradictions_are_refused() {
    let refused = |cli: &LinkOptions, kinds: InputKinds| link_mode(cli, kinds).unwrap_err();
    let mut cli = options();
    cli.literal = true;
    cli.project = true;
    assert!(matches!(refused(&cli, DIRECTORY), UsageError::LiteralProject));
    let mut cli = options();
    cli.list_routes = true;
    cli.run = true;
    assert!(matches!(refused(&cli, DIRECTORY), UsageError::ListRoutesRun));
    let mut cli = options();
    cli.route = Some("r".into());
    assert!(matches!(refused(&cli, DIRECTORY), UsageError::RouteWithoutRun));
    let mut cli = options();
    cli.to_stdout = true;
    assert!(matches!(refused(&cli, DIRECTORY), UsageError::BareStdout));
    let mut cli = options();
    cli.backend_grants = vec!["g".into()];
    assert!(matches!(refused(&cli, NOTHING), UsageError::GrantWithoutRun));
    let mut cli = options();
    cli.project = true;
    cli.verbose_skips = true;
    let error = refused(&cli, DIRECTORY);
    assert!(error.to_text().starts_with("--verbose-skips configure literal"));
    let mut several = NOTHING;
    several.some_directory = true;
    assert!(matches!(refused(&options(), several), UsageError::DirectoriesWithoutLiteral));
}

#[test]
fn mappings_extend_the_map() {
    let backends = registered_backends();
    assert_eq!(
        parse_lang("..txt=markdown", &backends).unwrap(),
        ("txt".to_string(), "markdown".to_string())
    );
    assert_eq!(parse_lang("txt", &backends), Err(LangError::NoPair));
    assert_eq!(parse_lang("txt=klingon", &backends), Err(LangError::NotRegistered));
    let mut map = default_extension_map();
    add_mappings(&mut map, &["txt=markdown".into(), "py=bash".into()], &backends).unwrap();
    assert_eq!(map.get("txt").unwrap(), "markdown");
    assert_eq!(map.get("py").unwrap(), "bash");
    let failed = add_mappings(&mut map, &["a=python".into(), "b".into()], &backends);
    assert_eq!(failed, Err((1, LangError::NoPair)));
}

#[test]
fn shims_come_from_the_first_place_named() {
    let some = |s: &str| Some(s.to_string());
    assert_eq!(resolve_shim_dir(&some("a"), &some("b"), &some("c")), "a");
    assert_eq!(resolve_shim_dir(&None, &some("b"), &some("c")), "b");
    assert_eq!(resolve_shim_dir(&None, &None, &some("c")), "c");
    assert_eq!(resolve_shim_dir(&None, &None, &None), "backends");
}

#[test]
fn runs_need_a_route_and_traces_need_a_graph() {
    let mut cli = options();
    cli.run = true;
    cli.project_trace_out = Some("attempt.json".into());
    assert_eq!(cli.run_refusal(false, true), Some(RunRefusal::NoDefaultRoute));
    assert_eq!(cli.run_refusal(true, false), Some(RunRefusal::TraceWithoutGraph));
    assert_eq!(cli.run_refusal(true, true), None);
    cli.route = Some("r".into());
    assert_eq!(cli.run_refusal(false, true), None);
    assert_eq!(cli.project_exclusions(), ["attempt.json"]);
    cli.run = false;
    assert_eq!(cli.project_exclusions(), ["combined.O", "attempt.json"]);
}
