use o_lang::collect::{
    in_name_order, is_generated_olink_output, CollectedFiles, Collector, Content, Entry, EntryAction,
    SkippedPath,
};
use o_lang::components::{lies_under, path_below, same_path};
use o_lang::paths::{absolute_path, common_path_root, compute_marker_root, Anchor};
use o_lang::rules::{deciding_verdict, ignore_lines, ignored_by, load_ignore_rules};
use o_lang::outside::IgnoreVerdict;

#[test]
fn skip_report_is_aggregated_unless_verbose() {
    let collection = CollectedFiles {
        files: vec!["selected.py".into()],
        marker_root: ".".into(),
        skipped: vec![
            SkippedPath { path: "one.bin".into(), reason: "not UTF-8 text".into() },
            SkippedPath { path: "two.bin".into(), reason: "not UTF-8 text".into() },
            SkippedPath { path: ".hidden".into(), reason: "hidden path".into() },
        ],
    };

    assert_eq!(
        collection.report_lines(false),
        vec![
            "warning: skipped 1 path (hidden path)",
            "warning: skipped 2 paths (not UTF-8 text)",
            "o-link scan: 1 selected, 3 skipped",
        ]
    );
    let verbose = collection.report_lines(true);
    assert_eq!(verbose.len(), 4);
    assert!(verbose[0].contains("one.bin"));
    assert!(verbose[1].contains("two.bin"));
    assert!(verbose[2].contains(".hidden"));
}

fn entry(name: &str, is_dir: bool, is_file: bool, ignored_by: Option<&str>) -> Entry {
    Entry {
        path: format!("/w/{name}"),
        name: name.to_string(),
        is_dir,
        is_file,
        ignored_by: ignored_by.map(|s| s.to_string()),
    }
}

#[test]
fn collect_dedupes_overlapping_inputs() {
    let mut c = Collector::new(None);
    assert!(c.enter("/w", "/w"));
    c.read("/w/a.py", "/w/a.py", Content::Text("x = 1\n"));
    assert!(!c.push_unique("/w/./a.py", "/w/a.py"));
    assert_eq!(c.files, ["/w/a.py"]);
    assert_eq!(c.skipped[0].reason, "duplicate or symlink alias");
}

#[test]
fn collect_excludes_output_and_binary_files() {
    let mut c = Collector::new(Some("/w/out.O".into()));
    c.read("/w/a.py", "/w/a.py", Content::Text("x = 1\n"));
    c.read("/w/blob.py", "/w/blob.py", Content::NotText);
    c.read("/w/out.O", "/w/out.O", Content::Text("stale combined output\n"));
    c.read("/w/locked", "/w/locked", Content::Unreadable("denied"));
    assert_eq!(c.files, ["/w/a.py"]);
    let reasons: Vec<&str> = c.skipped.iter().map(|s| s.reason.as_str()).collect();
    assert_eq!(reasons, ["not UTF-8 text", "output file", "read error: denied"]);
}

#[test]
fn directory_walk_skips_generated_olink_outputs() {
    let mut c = Collector::new(None);
    c.read("a.py", "a.py", Content::Text("x = 1\n"));
    c.read("ordinary.O", "ordinary.O", Content::Text("python^(1)_python\n"));
    for (name, text) in [
        ("combined.O", "# Linked by o-link: single-file .O program\npython^(2)_python\n"),
        ("project.O", "# Ostadix-lang lifted project\n# generated bundle\n"),
        ("executable.O", "#!/usr/bin/env o\n# Linked by o-link: generated\n"),
        ("carriage.O", "#!/usr/bin/env o\r\n# Linked by o-link: generated\n"),
    ] {
        assert!(is_generated_olink_output(text), "{name}");
        c.read(name, name, Content::Text(text));
    }
    assert_eq!(c.files, ["a.py", "ordinary.O"]);
    assert_eq!(c.skipped.len(), 4);
    assert!(c.skipped.iter().all(|s| s.reason == "generated o-link output"));
}

#[test]
fn entries_are_left_out_for_the_first_reason() {
    let mut c = Collector::new(None);
    assert!(matches!(c.judge(&entry("src", true, false, None)), EntryAction::Walk));
    assert!(matches!(c.judge(&entry("a.py", false, true, None)), EntryAction::Read));
    assert!(matches!(c.judge(&entry("pipe", false, false, None)), EntryAction::Pass));
    for (e, expected) in [
        (entry(".git", true, false, Some("/w/.gitignore")), "ignored by /w/.gitignore"),
        (entry(".git", true, false, None), "hidden path"),
        (entry("target", true, false, None), "built-in excluded directory"),
        (entry("node_modules", true, false, None), "built-in excluded directory"),
    ] {
        match c.judge(&e) {
            EntryAction::LeaveOut(reason) => assert_eq!(reason, expected),
            other => panic!("{other:?}"),
        }
    }
    assert!(matches!(c.judge(&entry("target", false, true, None)), EntryAction::Read));
    assert_eq!(c.skipped.len(), 5);
}

#[test]
fn walk_survives_symlink_loops() {
    let mut c = Collector::new(None);
    assert!(c.enter("/w", "/real/w"));
    assert!(c.enter("/w/sub", "/real/w/sub"));
    assert!(!c.enter("/w/sub/loop", "/real/w"));
    assert_eq!(c.skipped[0].reason, "directory already visited through another path");
    assert!(!c.enter("/w/sub/again", "/real//w/./sub/"));
    assert_eq!(c.directories.len(), 2);
}

#[test]
fn marker_paths_use_the_common_root_of_multiple_inputs() {
    let root = compute_marker_root(&[
        Anchor { path: "/w/left/src".into(), is_dir: true },
        Anchor { path: "/w/right/lib".into(), is_dir: true },
        Anchor { path: "/w/left/src/main.py".into(), is_dir: false },
        Anchor { path: "/w/right/lib/util.py".into(), is_dir: false },
    ]);
    assert_eq!(root.unwrap(), "/w");
    assert_eq!(compute_marker_root(&[]), None);
    assert_eq!(
        compute_marker_root(&[Anchor { path: "/w/a.py".into(), is_dir: false }]).unwrap(),
        "/w"
    );
}

#[test]
fn paths_become_absolute_once_and_for_all() {
    for (path, expected) in [
        ("/a/./b//c/../d", "/a/b/d"),
        ("x/y", "/cwd/x/y"),
        ("../x", "/x"),
        ("/../..", "/"),
        ("", "/cwd"),
    ] {
        let made = absolute_path(path, "/cwd");
        assert_eq!(made, expected);
        assert_eq!(absolute_path(&made, "/elsewhere"), made);
    }
    let list: Vec<String> = ["/a/b/c", "/a/b", "/a/bx"].iter().map(|s| s.to_string()).collect();
    assert_eq!(common_path_root(&list).unwrap(), "/a");
    assert_eq!(common_path_root(&[]), None);
    assert_eq!(path_below("/a/b", "/a"), Some("b".into()));
    assert_eq!(path_below("/ab", "/a"), None);
    let root = |list: &[&str]| {
        common_path_root(&list.iter().map(|s| s.to_string()).collect::<Vec<_>>())
    };
    assert_eq!(root(&["a"]).unwrap(), "a");
    assert_eq!(root(&["a", "b"]), None);
    assert_eq!(root(&["a//b/c", "a/./b/d"]).unwrap(), "a/b");
    assert_eq!(root(&["./a/b", "./a"]).unwrap(), "./a");
    assert_eq!(root(&["a", "/a"]), None);
    assert_eq!(root(&["/x", "/y"]).unwrap(), "/");
    assert_eq!(root(&["../a", "../b"]).unwrap(), "..");
    let names: Vec<String> = ["b", "a", "c"].iter().map(|s| s.to_string()).collect();
    assert_eq!(in_name_order(&names), ["a", "b", "c"]);
}

#[test]
fn directory_walk_keeps_unknown_text_and_records_real_skips() {
    let git = load_ignore_rules("/w", "/w/.gitignore", "*.py\n!keep.py\ncache/\n").unwrap();
    let own = load_ignore_rules("/w", "/w/.olinkignore", "notes.txt\n").unwrap();
    assert!(git.faults.is_empty() && own.faults.is_empty());
    let rules = vec![git.rules, own.rules];
    assert_eq!(ignored_by(&rules, "/w/ignored.py", false), Some("/w/.gitignore".into()));
    assert_eq!(ignored_by(&rules, "/w/keep.py", false), None);
    assert_eq!(ignored_by(&rules, "/w/cache", true), Some("/w/.gitignore".into()));
    assert_eq!(ignored_by(&rules, "/w/cache", false), None);
    assert_eq!(ignored_by(&rules, "/w/notes.txt", false), Some("/w/.olinkignore".into()));
    assert_eq!(ignored_by(&rules, "/w/README", false), None);
    assert_eq!(ignored_by(&rules, "/w/unknown.xyz", false), None);
}

#[test]
fn later_ignore_files_overrule_earlier_ones() {
    let outer = load_ignore_rules("/w", "/w/.gitignore", "*.py\n").unwrap();
    let inner = load_ignore_rules("/w/sub", "/w/sub/.gitignore", "!a.py\n").unwrap();
    let rules = vec![outer.rules, inner.rules];
    assert_eq!(ignored_by(&rules, "/w/sub/a.py", false), None);
    assert_eq!(ignored_by(&rules, "/w/sub/b.py", false), Some("/w/.gitignore".into()));
    let verdicts = [IgnoreVerdict::Ignored, IgnoreVerdict::Kept, IgnoreVerdict::Ignored, IgnoreVerdict::Silent];
    assert_eq!(deciding_verdict(&verdicts), Some(2));
    assert_eq!(deciding_verdict(&verdicts[..2]), None);
    assert_eq!(deciding_verdict(&[]), None);
}

#[test]
fn ignore_files_are_read_line_by_line() {
    assert_eq!(ignore_lines("\u{feff}a\r\n\nb"), ["a", "", "b"]);
    assert!(ignore_lines("").is_empty());
    let marked = load_ignore_rules("/w", "/w/.gitignore", "\u{feff}a.txt\n").unwrap();
    assert_eq!(
        ignored_by(&[marked.rules], "/w/a.txt", false),
        Some("/w/.gitignore".into())
    );
    let broken = load_ignore_rules("/w", "/w/.gitignore", "{a,b\nc.txt\n").unwrap();
    assert_eq!(broken.faults.len(), 1);
    assert!(broken.faults[0].contains("{a,b"), "{:?}", broken.faults);
    assert_eq!(
        ignored_by(&[broken.rules], "/w/c.txt", false),
        Some("/w/.gitignore".into())
    );
}

#[test]
fn default_walk_records_excluded_subtrees_without_descending() {
    let rules = vec![load_ignore_rules("/w", "/w/.gitignore", "cache/\n").unwrap().rules];
    let listing = [("/w/.gitignore", false), ("/w/.hidden", true), ("/w/cache", true), ("/w/keep.py", false)];
    let below = [
        ("/w/.hidden", vec!["/w/.hidden/deep", "/w/.hidden/deep/a.py"]),
        ("/w/cache", vec!["/w/cache/deep", "/w/cache/deep/generated.py"]),
    ];
    let walk = |enumerate: bool| {
        let mut c = Collector::new(None);
        assert!(c.enter("/w", "/w"));
        for (path, is_dir) in listing {
            let entry = Entry {
                path: path.to_string(),
                name: path["/w/".len()..].to_string(),
                is_dir,
                is_file: !is_dir,
                ignored_by: ignored_by(&rules, path, is_dir),
            };
            match c.judge(&entry) {
                EntryAction::Read => c.read(path, path, Content::Text("print('keep')\n")),
                EntryAction::LeaveOut(reason) => {
                    for (root, inner) in &below {
                        if enumerate && *root == path {
                            for each in inner {
                                c.pass(each, &reason);
                            }
                        }
                    }
                }
                other => panic!("{other:?}"),
            }
        }
        c
    };
    let bounded = walk(false);
    assert_eq!(bounded.files.len(), 1);
    assert_eq!(bounded.skipped.iter().filter(|s| s.path.ends_with("/.hidden")).count(), 1);
    assert_eq!(bounded.skipped.iter().filter(|s| s.reason.contains(".gitignore")).count(), 1);
    assert!(!bounded.skipped.iter().any(|s| s.path.ends_with(".hidden/deep/a.py")));
    assert!(!bounded.skipped.iter().any(|s| s.path.ends_with("cache/deep/generated.py")));
    let verbose = walk(true);
    assert!(verbose.skipped.iter().any(|s| s.path.ends_with(".hidden/deep/a.py")));
    assert!(verbose.skipped.iter().any(|s| s.path.ends_with("cache/deep/generated.py")));
}

#[test]
fn paths_are_compared_by_their_components() {
    assert!(same_path("a/b", "a//b") && same_path("a/b/", "a/./b") && same_path("/a", "//a/."));
    assert!(!same_path("a", "./a") && !same_path("/a", "a") && !same_path("a/../b", "b"));
    assert!(same_path("", ""));
    assert!(lies_under("/a//b", "/a/") && lies_under("/a", "/") && lies_under("a", ""));
    assert!(!lies_under("/ab", "/a") && !lies_under("a", "/"));
    for (path, root, rest) in [
        ("/r//a", "/r", "a"),
        ("/r/./a/./b/", "/r/", "a/./b"),
        ("/r", "/r", ""),
        ("a/b", "", "a/b"),
        ("/", "", "/"),
        ("./a", ".", "a"),
        ("/r/../a", "/r", "../a"),
        ("/.r/.s", "/.r", ".s"),
    ] {
        assert_eq!(path_below(path, root).as_deref(), Some(rest), "{path} below {root}");
    }
    assert_eq!(path_below("./a", "a"), None);
}
