use o_lang::collect::Collector;
use o_lang::document::{
    add_shebang, catalog_covers, link_files, link_files_with_options, marker_path, strip_shebang, CatalogEntry,
    LinkError, MarkerProblem, ParallelLinkMode,
};
use o_lang::files::{default_extension_map, file_backend, module_stems, SourceFile};
use o_lang::imports::imported_modules;
use o_lang::ir::ExecutionMode;
use o_lang::link::{dependency_order_plan, order_by_deps};
use o_lang::paths::{compute_marker_root, Anchor};
use o_lang::unlink::{registered_backends, unlink_source};

fn file(name: &str, content: &str) -> SourceFile {
    SourceFile { path: format!("/work/{name}"), content: content.to_string() }
}

fn catalog() -> Vec<CatalogEntry> {
    let mut list = Vec::new();
    for tag in registered_backends() {
        let inline = tag == "html" || tag == "markdown" || tag == "text" || tag == "latex";
        list.push(CatalogEntry {
            tag,
            pure: inline,
            execution: if inline { ExecutionMode::InlineValue } else { ExecutionMode::Shim },
        });
    }
    list
}

fn parallel(files: &[SourceFile], mode: ParallelLinkMode, required: bool) -> Result<String, LinkError> {
    link_files_with_options(
        files,
        "/work",
        &default_extension_map(),
        &registered_backends(),
        &catalog(),
        Some(mode),
        required,
    )
    .map(|program| program.text)
}

fn plain(files: &[SourceFile]) -> String {
    link_files(files, "/work", &default_extension_map(), &registered_backends()).unwrap().text
}

fn names(paths: Vec<String>) -> Vec<String> {
    paths.into_iter().map(|p| p.rsplit('/').next().unwrap().to_string()).collect()
}

#[test]
fn default_map_covers_common_scripts() {
    let map = default_extension_map();
    assert_eq!(map.get("py").unwrap(), "python");
    assert_eq!(map.get("sh").unwrap(), "bash");
    assert_eq!(map.get("html").unwrap(), "html");
    assert_eq!(map.get("md").unwrap(), "markdown");
}

#[test]
fn unknown_and_extensionless_text_use_inert_text_backend() {
    let map = default_extension_map();
    assert_eq!(file_backend("component.svelte", &map), "text");
    assert_eq!(file_backend("module.ts", &map), "text");
    assert_eq!(file_backend("README", &map), "text");
    assert_eq!(file_backend("program.O", &map), "");
    assert_eq!(file_backend("a.py/", &map), "python");
    assert_eq!(file_backend("a.py/.", &map), "python");
    assert_eq!(file_backend("a.py/..", &map), "text");
}

#[test]
fn link_files_synthesizes_fresh_intent_without_numeric_identities() {
    let combined = plain(&[
        file("a.py", "x = 1\n"),
        file("b.py", "y = 2\n"),
        file("c.sh", "echo hi\n"),
    ]);
    assert_eq!(combined.matches("python[*]^(").count(), 2, "{combined}");
    assert_eq!(combined.matches(")_python[*]").count(), 2, "{combined}");
    assert!(combined.contains("bash[*]^("), "{combined}");
    assert!(!combined.contains("python[0]^(") && !combined.contains("python[1]^("));
}

#[test]
fn linker_isolated_environment_markers_parse_cleanly() {
    let combined = plain(&[file("a.py", "x = 1\n"), file("b.py", "y = 2\n")]);
    let entries = unlink_source(&combined).unwrap();
    assert_eq!(
        entries,
        vec![
            ("a.py".to_string(), "x = 1\n".to_string()),
            ("b.py".to_string(), "y = 2\n".to_string()),
        ]
    );
}

#[test]
fn python_files_ordered_by_import_dependency() {
    let combined = plain(&[
        file("a.py", "def helper(): pass\n"),
        file("b.py", "from a import helper\nhelper()\n"),
    ]);
    let pos_a = combined.find("# ── a.py ──").expect("a.py marker not found");
    let pos_b = combined.find("# ── b.py ──").expect("b.py marker not found");
    assert!(pos_a < pos_b);
    let slot0_start = combined[pos_a..].find("python[*]^(").unwrap() + pos_a;
    let slot0_end = combined[slot0_start..].find(")_python[*]").unwrap() + slot0_start;
    let slot0_body = &combined[slot0_start..slot0_end];
    assert!(slot0_body.contains("def helper"));
}

#[test]
fn autonomous_parallel_wraps_fresh_sections_and_preserves_member_order() {
    let combined = parallel(
        &[file("a.py", "print('a')\n"), file("b.sh", "printf b\n")],
        ParallelLinkMode::Autonomous,
        true,
    )
    .unwrap();
    assert!(combined.contains("autonomous(batch("), "{combined}");
    assert_eq!(
        combined.matches("autonomous(batch(").count(),
        1,
        "independent sections should share one wave:\n{combined}"
    );
    assert!(combined.find("# ── a.py ──").unwrap() < combined.find("# ── b.sh ──").unwrap());
}

#[test]
fn autonomous_parallel_emits_dependency_chain_as_barrier_waves() {
    let combined = parallel(
        &[
            file("a.py", "VALUE = 40\n"),
            file("b.py", "from a import VALUE\nNEXT = VALUE + 1\n"),
            file("c.py", "from b import NEXT\nprint(NEXT + 1)\n"),
        ],
        ParallelLinkMode::Autonomous,
        true,
    )
    .unwrap();
    let waves = combined.split("autonomous(batch(").skip(1).collect::<Vec<_>>();
    assert_eq!(waves.len(), 3, "dependency chain must have three waves:\n{combined}");
    assert!(waves[0].contains("# ── a.py ──"), "{combined}");
    assert!(waves[1].contains("# ── b.py ──"), "{combined}");
    assert!(waves[2].contains("# ── c.py ──"), "{combined}");
}

#[test]
fn autonomous_parallel_keeps_independent_dependents_in_one_wave() {
    let combined = parallel(
        &[
            file("a.py", "VALUE = 40\n"),
            file("b.py", "from a import VALUE\nprint(VALUE + 1)\n"),
            file("c.py", "from a import VALUE\nprint(VALUE + 2)\n"),
        ],
        ParallelLinkMode::Autonomous,
        true,
    )
    .unwrap();
    let waves = combined.split("autonomous(batch(").skip(1).collect::<Vec<_>>();
    assert_eq!(waves.len(), 2, "fanout should use two waves:\n{combined}");
    assert!(waves[0].contains("# ── a.py ──"), "{combined}");
    assert!(waves[1].contains("# ── b.py ──"), "{combined}");
    assert!(waves[1].contains("# ── c.py ──"), "{combined}");
}

#[test]
fn autonomous_parallel_serializes_dependency_cycles_in_input_order() {
    let combined = parallel(
        &[file("a.py", "import b\nprint('a')\n"), file("b.py", "import a\nprint('b')\n")],
        ParallelLinkMode::Autonomous,
        true,
    )
    .unwrap();
    let waves = combined.split("autonomous(batch(").skip(1).collect::<Vec<_>>();
    assert_eq!(waves.len(), 2, "cycle fallback must remain serial:\n{combined}");
    assert!(waves[0].contains("# ── a.py ──"), "{combined}");
    assert!(waves[1].contains("# ── b.py ──"), "{combined}");
}

#[test]
fn autonomous_parallel_keeps_cycle_dependents_after_the_cycle() {
    let combined = parallel(
        &[
            file("a_consumer.py", "from y_cycle import RIGHT\nprint(RIGHT)\n"),
            file("y_cycle.py", "from z_cycle import VALUE\nRIGHT = VALUE\n"),
            file("z_cycle.py", "from y_cycle import RIGHT\nVALUE = RIGHT\n"),
        ],
        ParallelLinkMode::Autonomous,
        true,
    )
    .unwrap();
    let pos_consumer = combined.find("# ── a_consumer.py ──").unwrap();
    let pos_y = combined.find("# ── y_cycle.py ──").unwrap();
    let pos_z = combined.find("# ── z_cycle.py ──").unwrap();
    assert!(pos_y < pos_z, "cycle fallback must preserve input order");
    assert!(
        pos_z < pos_consumer,
        "a dependent outside the SCC must follow the entire cycle:\n{combined}"
    );
    assert_eq!(
        combined.matches("autonomous(batch(").count(),
        3,
        "cycle members and their consumer each require a barrier wave:\n{combined}"
    );
}

#[test]
fn autonomous_parallel_emits_diamond_as_antichain_waves() {
    let combined = parallel(
        &[
            file("a.py", "VALUE = 40\n"),
            file("b.py", "from a import VALUE\nLEFT = VALUE + 1\n"),
            file("c.py", "from a import VALUE\nRIGHT = VALUE + 2\n"),
            file("d.py", "from b import LEFT\nfrom c import RIGHT\nprint(LEFT + RIGHT)\n"),
        ],
        ParallelLinkMode::Autonomous,
        true,
    )
    .unwrap();
    let waves = combined.split("autonomous(batch(").skip(1).collect::<Vec<_>>();
    assert_eq!(waves.len(), 3, "diamond should use three waves:\n{combined}");
    assert!(waves[0].contains("# ── a.py ──"), "{combined}");
    assert!(waves[1].contains("# ── b.py ──"), "{combined}");
    assert!(waves[1].contains("# ── c.py ──"), "{combined}");
    assert!(waves[2].contains("# ── d.py ──"), "{combined}");
    assert!(
        waves[1].find("# ── b.py ──").unwrap() < waves[1].find("# ── c.py ──").unwrap(),
        "antichain result members must retain deterministic input order"
    );
}

#[test]
fn verified_parallel_keeps_hosted_shims_sequential() {
    let files = [file("a.html", "<p>a</p>\n"), file("b.py", "print('b')\n")];
    let combined = parallel(&files, ParallelLinkMode::Verified, false).unwrap();
    assert_eq!(combined.matches("autonomous(batch(").count(), 1, "{combined}");
    assert!(combined.contains("html[*]^("));
    assert!(combined.contains("python[*]^("));

    let required = parallel(&files, ParallelLinkMode::Verified, true).unwrap_err();
    match required {
        LinkError::NotParallel { rejected } => {
            assert!(rejected.iter().any(|line| line.contains("b.py")), "{rejected:?}")
        }
        LinkError::Marker { .. } => panic!("unexpected marker problem"),
    }
}

#[test]
fn python_import_ordering_import_statement() {
    // c.py imports from b, b imports from a.
    let ordered = order_by_deps(
        &[
            file("a.py", "VALUE = 42\n"),
            file("b.py", "import a\n"),
            file("c.py", "import b\n"),
        ],
        &default_extension_map(),
    );
    assert_eq!(names(ordered), ["a.py", "b.py", "c.py"]);
}

#[test]
fn dependency_ordering_covers_hosted_language_import_forms() {
    let cases = [
        ("a.py", "z.py", "from .z import value\n"),
        ("a.js", "z.js", "import { value } from './z.js';\n"),
        ("a.rs", "z.rs", "mod z;\n"),
        ("a.c", "z.h", "#include \"z.h\"\n"),
        ("A.java", "Z.java", "import local.Z;\n"),
        ("A.hs", "Z.hs", "import Z\n"),
        ("a.rb", "z.rb", "require_relative './z'\n"),
        ("a.ml", "z.ml", "open Z\n"),
        ("a.rkt", "z.rkt", "(require \"z.rkt\")\n"),
        ("a.sh", "z.sh", "source ./z.sh\n"),
        ("a.nix", "z.nix", "let z = import ./z.nix; in z\n"),
        ("A.cs", "Z.cs", "using Z;\n"),
        ("a.m", "z.m", "run('z.m')\n"),
        ("a.wl", "z.wl", "Get[\"z.wl\"]\n"),
    ];

    for (importer, dependency, source) in cases {
        let ordered = order_by_deps(
            &[file(importer, source), file(dependency, "dependency\n")],
            &default_extension_map(),
        );
        let found = names(ordered);
        let dependency_position = found.iter().position(|name| name == dependency).unwrap();
        let importer_position = found.iter().position(|name| name == importer).unwrap();
        assert!(
            dependency_position < importer_position,
            "{importer} did not follow {dependency}: {found:?}"
        );
    }
}

#[test]
fn dependency_ordering_does_not_reorder_different_languages() {
    let ordered = order_by_deps(
        &[file("a.py", "x = 1\n"), file("b.sh", "echo hi\n"), file("c.py", "import a\n")],
        &default_extension_map(),
    );
    let found = names(ordered);
    let pos_a = found.iter().position(|n| n == "a.py").unwrap();
    let pos_c = found.iter().position(|n| n == "c.py").unwrap();
    assert!(pos_a < pos_c, "a.py must come before c.py, got {:?}", found);
    assert_eq!(found[1], "b.sh");
}

#[test]
fn cyclic_deps_do_not_panic() {
    let ordered = order_by_deps(
        &[file("a.py", "import b\n"), file("b.py", "import a\n")],
        &default_extension_map(),
    );
    assert_eq!(ordered.len(), 2);
}

#[test]
fn marker_paths_are_relative_to_the_input_root() {
    let files = [SourceFile {
        path: "/tmp/project/src/nested/main.py".into(),
        content: "print('ok')".into(),
    }];
    let combined = link_files(
        &files,
        "/tmp/project",
        &default_extension_map(),
        &registered_backends(),
    )
    .unwrap()
    .text;
    assert!(combined.contains("# ── src/nested/main.py ──"));
    assert!(!combined.contains("/tmp/project"));
    assert!(combined.contains("# o-link-section-bytes: "));
}

#[test]
fn marker_paths_stay_below_their_root() {
    assert_eq!(marker_path("/a/b/c.py", "/a").unwrap(), "b/c.py");
    assert_eq!(marker_path("/c.py", "/").unwrap(), "c.py");
    assert_eq!(marker_path("/b/c.py", "/a"), Err(MarkerProblem::OutsideRoot));
    assert_eq!(marker_path("/a", "/a"), Err(MarkerProblem::Unsafe));
    assert_eq!(marker_path("/a/../c.py", "/a"), Err(MarkerProblem::OutsideRoot));
    assert_eq!(marker_path("/r//a.py", "/r").unwrap(), "a.py");
    assert_eq!(marker_path("/r/x/../b/./a.py", "/r/./").unwrap(), "b/a.py");
    assert_eq!(marker_path("/r/a.py", "/r/x/.."), Err(MarkerProblem::OutsideRoot));
    assert_eq!(marker_path("/r/a.py", ""), Err(MarkerProblem::Unsafe));
    assert_eq!(marker_path("/a/b\nc.py", "/a"), Err(MarkerProblem::LineBreak));
}

#[test]
fn linked_files_are_recovered_byte_for_byte() {
    let contents = [
        ("a.py", "doc = 'python^(1)_python[*] $HOME \\$x'\n"),
        ("b.sh", "#!/bin/bash\necho ${HOME} $PATH\n# ── fake.py ──\n"),
        ("c.txt", ""),
        ("d.c", "#include <stdio.h>\nint main(void) { return 0; }"),
        ("e.md", "é → ü\r\n\r\n"),
    ];
    let files: Vec<SourceFile> = contents.iter().map(|(n, c)| file(n, c)).collect();
    let combined = plain(&files);
    let entries = unlink_source(&combined).unwrap();
    assert_eq!(entries.len(), contents.len());
    for (name, content) in contents {
        let found = entries.iter().find(|(path, _)| path == name).unwrap();
        assert_eq!(found.1, content, "{name}");
    }
    let shebang = add_shebang(&combined);
    assert!(shebang.starts_with("#!/usr/bin/env o\n"));
    assert_eq!(strip_shebang(&shebang), combined);
    assert_eq!(unlink_source(&shebang).unwrap(), entries);
}

#[test]
fn stems_name_a_file_from_every_source_root() {
    let stems = module_stems("/work/src/pkg/mod.py");
    assert!(stems.contains(&"mod".to_string()), "{stems:?}");
    assert!(stems.contains(&"pkg.mod".to_string()), "{stems:?}");
}

#[test]
fn imports_are_read_by_the_language_of_the_file() {
    let map = default_extension_map();
    let found = imported_modules("import a.b, c as d\nfrom .e import f\n", &map, "x.py");
    assert!(found.contains(&"a.b".to_string()), "{found:?}");
    assert!(found.contains(&"c".to_string()), "{found:?}");
    assert!(found.contains(&"e".to_string()), "{found:?}");
    assert!(imported_modules("import a\n", &map, "x.txt").is_empty());
}

#[test]
fn explicit_symlink_keeps_its_lexical_marker_path() {
    // The alias leads to /work/target/target.py, and is taken under its own name.
    let mut collector = Collector::new(None);
    assert!(collector.push_unique("/work/alias.py", "/work/target/target.py"));
    let root = compute_marker_root(&[Anchor { path: collector.files[0].clone(), is_dir: false }]);
    let files = [SourceFile {
        path: collector.files[0].clone(),
        content: "print('target')\n".to_string(),
    }];
    let combined = link_files(
        &files,
        &root.unwrap(),
        &default_extension_map(),
        &registered_backends(),
    )
    .unwrap()
    .text;
    assert!(combined.contains("# ── alias.py ──"));
    assert!(!combined.contains("# ── target/target.py ──"));
}

#[test]
fn catalogs_cover_what_they_hold() {
    let files = [file("a.py", "1\n"), file("b.O", "python^(1)_python\n")];
    let map = default_extension_map();
    assert!(catalog_covers(&files, &map, &catalog()));
    assert!(!catalog_covers(&files, &map, &[]));
    assert!(catalog_covers(&files[1..], &map, &[]));
}

#[test]
fn module_names_follow_the_components_of_a_path() {
    assert_eq!(module_stems("pkg//a.py"), ["a", "pkg.a"]);
    assert_eq!(module_stems("./pkg/./a.py/"), ["a", "pkg.a"]);
    assert_eq!(module_stems("x/../pkg/a.py"), ["a", "pkg.a"]);
    assert_eq!(module_stems("src/.venv/a.py"), ["a"]);
    assert!(module_stems("pkg/__init__.py").is_empty());
    assert!(module_stems("pkg/..").is_empty());
    assert!(module_stems("/").is_empty());
}

#[test]
fn files_of_one_path_are_waited_for_as_one() {
    let file = |path: &str, content: &str| SourceFile {
        path: path.to_string(),
        content: content.to_string(),
    };
    let waves = |again: &str| {
        let files = [
            file("/w/b.py", "x = 1\n"),
            file("/w/x.sh", "source ./y.sh\n"),
            file("/w/y.sh", "source ./x.sh\n"),
            file(again, "x = 1\n"),
            file("/w/a.py", "import b\n"),
        ];
        dependency_order_plan(&files, &default_extension_map())
            .iter()
            .map(|entry| (entry.file, entry.wave))
            .collect::<Vec<_>>()
    };
    let expected = [(0, 0), (1, 1), (2, 2), (3, 2), (4, 3)];
    assert_eq!(waves("/w/b.py"), expected);
    assert_eq!(waves("/w//./b.py"), expected);
    assert_eq!(waves("/w/v/b.py")[4], (4, 2));
}
