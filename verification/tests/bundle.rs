use o_lang::bundle::{
    check_environment, check_top, digest_of, execution_profile, relative, relocated_link_target,
    reserved_and_taken, EmbedError,
};
use o_lang::embed::{
    activate, apply_environment, check_file, embed, enter_rootfs_if_requested,
    fresh_runtime_directory, install_bootstrap, runtime_directory, take_out_steps, Activation, Gate,
    RuntimeBundle, TakeOutStep,
};
use o_lang::gather::{gather, FoundBundle, FoundEntry, FoundVariable};
use o_lang::launch::{
    after_attempt, child_environment, denied_calls, directory_stream, entry_steps, exit_like, identity_map,
    init_next, mount_last, mounts_first, outcome, prepare_mount_filter, prepare_root,
    ranges_to_close, refuse_launch, reserved_paths, Ending, EntryStep, FilterStep, InitPhase,
    LaunchError, Machine, MountCall, RootAction, Transfer, WaitEvent,
};
use o_lang::rootfs::{parse_hex, verify_active, ActiveEvidence, RootfsError};
use o_lang::sorting::sorted_places;

const SCHEMA: &str = "ostadix.embedded-runtime/v1";

fn file(name: &str, bytes: &[u8], mode: u32) -> FoundEntry {
    FoundEntry {
        name: name.into(),
        is_directory: false,
        link: None,
        below: Some(name.into()),
        is_file: true,
        mode,
        bytes: bytes.to_vec(),
    }
}

fn directory(name: &str, mode: u32) -> FoundEntry {
    FoundEntry {
        name: name.into(),
        is_directory: true,
        link: None,
        below: Some(name.into()),
        is_file: false,
        mode,
        bytes: Vec::new(),
    }
}

/// A link that says `link` and comes to the file `below`, if that lies in the
/// tree.
fn link(name: &str, link: &str, below: Option<&str>) -> FoundEntry {
    FoundEntry {
        name: name.into(),
        is_directory: false,
        link: Some(link.into()),
        below: below.map(str::to_owned),
        is_file: true,
        mode: 0o100755,
        bytes: Vec::new(),
    }
}

fn variable(key: &str, value: &str, inside: bool) -> FoundVariable {
    FoundVariable { key: key.into(), value: value.into(), inside }
}

/// A tree with a manifest and a command.
fn fixture() -> FoundBundle {
    let manifest = br#"{"schema":"ostadix.embedded-runtime/v1"}"#;
    FoundBundle {
        schema: SCHEMA.into(),
        execution: None,
        taken: vec!["bin".into(), "runtime.json".into()],
        has_commands: true,
        environment: Vec::new(),
        entries: vec![
            directory("bin", 0o40755),
            file("bin/example", b"runtime payload", 0o100755),
            file("runtime.json", manifest, 0o100644),
        ],
    }
}

fn rootfs_fixture() -> FoundBundle {
    let mut found = fixture();
    found.execution = Some("linux-rootfs-v1".into());
    found
}

fn refusal(found: &FoundBundle) -> String {
    match embed(found, MAIN) {
        Err(error) => error.to_text(),
        Ok(_) => panic!("the tree is embedded"),
    }
}

const MAIN: &str = "fn main() -> anyhow::Result<()> {\n    backend::run_backend_from_env_args()?;\n    #[cfg(not(target_family = \"wasm\"))]\n    let shim_dir = foo();\n    Ok(())\n}";

#[test]
fn rootfs_gate_precedes_multicall_and_binds_the_image_inventory() {
    let sources = embed(&rootfs_fixture(), MAIN).unwrap();
    assert!(
        sources.main.find("enter_rootfs_if_requested").unwrap()
            < sources.main.find("run_backend_from_env_args").unwrap()
    );
    let value: serde_json::Value = serde_json::from_str(&sources.inventory).unwrap();
    let canonical = serde_json::to_vec(&value).unwrap();
    assert_eq!(canonical, sources.inventory.as_bytes());
    let digest = digest_of(&canonical);
    assert!(sources.data.contains(&format!("Some({digest:?})")));
    let mut taken = rootfs_fixture();
    taken.taken.push("proc".into());
    taken.entries.push(directory("proc", 0o40755));
    assert!(refusal(&taken).contains("reserved rootfs"));
}

#[test]
fn embeds_bytes_inventory_and_closed_command_search() {
    let main = "    #[cfg(not(target_family = \"wasm\"))]\n    let shim_dir = foo();";
    let mut found = fixture();
    found.entries.insert(2, directory("lib", 0o40755));
    found.entries.insert(3, directory("lib/empty", 0o40700));
    let sources = embed(&found, main).unwrap();
    let inventory: serde_json::Value = serde_json::from_str(&sources.inventory).unwrap();
    assert_eq!(inventory["command_lookup"], "bundle-only");
    assert_eq!(inventory["execution"], "host");
    assert!(inventory["directories"]
        .as_array()
        .unwrap()
        .iter()
        .any(|dir| dir["path"] == "lib/empty"));
    assert_eq!(
        inventory["files"][0]["sha256"],
        digest_of(b"runtime payload")
    );
    assert_eq!(
        digest_of(b"abc"),
        "ba7816bf8f01cfea414140de5dae2223b00361a396177a9cb410ff61f20015ad"
    );
    assert!(sources.main.contains("embedded_runtime::activate()?"));
    assert!(sources.data.contains("const ROOTFS_IMAGE: Option<&str> = None;\n"));
    assert!(sources.data.contains("(\"bin/example\", include_bytes!(\"payload-0\"), 493, "));
    assert!(sources.data.contains("(\"lib/empty\", 448),\n"));
    assert_eq!(sources.payloads[0].name, "payload-0");
    assert_eq!(sources.payloads[0].bytes, b"runtime payload");
    assert_eq!(sources.payloads.len(), 2);
}

#[test]
fn refuses_external_symlinks_and_environment_escape() {
    let mut found = fixture();
    found.entries.insert(1, link("bin/escape", "/elsewhere/file", None));
    assert!(refusal(&found).contains("escapes"));

    let mut found = fixture();
    found.environment = vec![variable("PYTHONHOME", "${BUNDLE}/../outside", true)];
    assert!(refusal(&found).contains("inside bundle"));
}

#[test]
fn variables_lead_into_the_tree() {
    let refused = |key: &str, value: &str, inside: bool| {
        let mut found = fixture();
        found.environment = vec![variable(key, value, inside)];
        embed(&found, MAIN).unwrap_err()
    };
    assert!(matches!(refused("PATH", "${BUNDLE}/bin", true), EmbedError::EnvironmentKey(_)));
    assert!(matches!(refused("PYTHONPATH", "/usr/lib", true), EmbedError::EnvironmentValue));
    assert!(matches!(
        refused("PYTHONPATH", "${BUNDLE}/a:b", true),
        EmbedError::EnvironmentOutside
    ));
    assert!(matches!(
        refused("PYTHONPATH", "${BUNDLE}/lib", false),
        EmbedError::EnvironmentEscapes
    ));
    assert_eq!(check_environment("PYTHONPATH", "${BUNDLE}/lib", true).unwrap(), "lib");
    let mut found = fixture();
    found.environment = vec![variable("PYTHONHOME", "${BUNDLE}/lib", true)];
    let sources = embed(&found, MAIN).unwrap();
    assert!(sources.data.contains("(\"PYTHONHOME\", \"${BUNDLE}/lib\"),\n"));
    assert!(sources.inventory.contains("\"environment\":{\"PYTHONHOME\":\"${BUNDLE}/lib\"}"));
}

#[test]
fn preserves_relative_file_links_and_relocates_absolute_targets() {
    let main = "    #[cfg(not(target_family = \"wasm\"))]\n    let shim_dir = foo();";
    let mut found = fixture();
    found.entries = vec![
        directory("bin", 0o40755),
        link("bin/absolute", "/src/bundle/libexec/example", Some("libexec/example")),
        link("bin/chain", "example", Some("libexec/example")),
        link("bin/example", "../libexec/./example", Some("libexec/example")),
        directory("libexec", 0o40755),
        file("libexec/example", b"runtime payload", 0o100755),
        file("runtime.json", b"{}", 0o100644),
    ];
    let sources = embed(&found, main).unwrap();
    let inventory: serde_json::Value = serde_json::from_str(&sources.inventory).unwrap();
    let expected: serde_json::Value = serde_json::from_str(
        r#"[
            {"path":"bin/absolute", "target":"../libexec/example", "target_mode":493},
            {"path":"bin/chain", "target":"example", "target_mode":493},
            {"path":"bin/example", "target":"../libexec/./example", "target_mode":493}
        ]"#,
    )
    .unwrap();
    assert_eq!(inventory["symlinks"], expected);
    assert!(!inventory["files"]
        .as_array()
        .unwrap()
        .iter()
        .any(|file| file["path"].as_str().unwrap().starts_with("bin/")));
    assert!(sources.data.contains("const SYMLINKS:"));
    assert_eq!(relocated_link_target(0, "/src/bundle/a", "a"), Some("a".into()));
}

#[test]
fn refuses_directory_links_and_relative_targets_that_leave_then_reenter_root() {
    let mut found = fixture();
    let mut to_directory = link("directory-link", "bin", Some("bin"));
    to_directory.is_file = false;
    found.entries.push(to_directory);
    assert!(refusal(&found).contains("internal file links only"));

    let mut found = fixture();
    found.entries.push(link("bin/reenter", "../../root/bin/example", Some("bin/example")));
    assert!(refusal(&found).contains("target escapes"));
}

#[test]
fn entries_are_judged_where_they_are_embedded() {
    let mut found = fixture();
    found.entries.push(file("../x", b"", 0o644));
    assert!(matches!(embed(&found, MAIN), Err(EmbedError::InvalidPath(_))));
    let mut found = fixture();
    found.entries.push(link("top", ".", Some("")));
    assert!(matches!(embed(&found, MAIN), Err(EmbedError::NotAFile(_))));
    let mut found = fixture();
    found.has_commands = false;
    assert!(matches!(embed(&found, MAIN), Err(EmbedError::NoCommands)));
    let mut found = fixture();
    found.schema = "x".into();
    assert!(matches!(embed(&found, MAIN), Err(EmbedError::Schema)));
    let mut found = fixture();
    found.execution = Some("vm".into());
    assert!(matches!(embed(&found, MAIN), Err(EmbedError::Profile(_))));

    let tree = gather(&fixture()).unwrap();
    assert_eq!(tree.files().len(), 2);
    assert_eq!(tree.files()[0].mode, 0o755);
    assert_eq!(tree.directories()[0].mode, 0o755);
    assert!(tree.links().is_empty() && tree.environment().is_empty());
    assert!(tree.has_command() && !tree.is_rootfs());

    let taken = vec!["proc".to_string()];
    assert!(check_top(false, &taken, true).is_ok());
    assert!(matches!(check_top(true, &taken, true), Err(EmbedError::Reserved(_))));
    assert!(matches!(check_top(false, &taken, false), Err(EmbedError::NoCommands)));
    assert_eq!(reserved_and_taken(&["bin".to_string()]), None);
}

#[test]
fn trees_are_embedded_in_the_order_of_a_walk() {
    let mut found = fixture();
    found.entries = vec![
        file("runtime.json", b"{}", 0o100644),
        file("bin.d", b"", 0o100644),
        file("bin/z", b"z", 0o100755),
        directory("lib", 0o40755),
        file("bin/a/x", b"x", 0o100644),
        directory("bin/a", 0o40755),
        directory("bin", 0o40755),
    ];
    found.environment = vec![
        variable("RUBYLIB", "${BUNDLE}/lib", true),
        variable("GEM_HOME", "${BUNDLE}/first", true),
        variable("GEM_HOME", "${BUNDLE}/second", true),
    ];
    let tree = gather(&found).unwrap();
    let files = tree.files().iter().map(|f| f.name.as_str()).collect::<Vec<_>>();
    assert_eq!(files, ["bin/a/x", "bin/z", "bin.d", "runtime.json"]);
    let directories = tree.directories().iter().map(|d| d.name.as_str()).collect::<Vec<_>>();
    assert_eq!(directories, ["bin", "bin/a", "lib"]);
    assert_eq!(
        tree.environment(),
        &[
            ("GEM_HOME".to_string(), "${BUNDLE}/second".to_string()),
            ("RUBYLIB".to_string(), "${BUNDLE}/lib".to_string()),
        ]
    );
    found.entries[0].is_file = false;
    found.entries[2].is_file = false;
    match embed(&found, MAIN) {
        Err(EmbedError::NotAFile(name)) => assert_eq!(name, "bin/z"),
        other => panic!("{other:?}"),
    }
    let list: Vec<Vec<Vec<char>>> = ["b", "a", "a", "A"]
        .iter()
        .map(|name| vec![name.chars().collect()])
        .collect();
    assert_eq!(sorted_places(&list), [3, 1, 2, 0]);
}

#[test]
fn launches_are_refused_before_anything_is_changed() {
    let run = vec!["bin".to_string(), "run".to_string()];
    let bin = vec!["bin".to_string()];
    let streams = [Some(0o100644), None, Some(0o040755)];
    match refuse_launch(&streams, &run) {
        Err(error) => {
            assert!(matches!(error, LaunchError::DirectoryStream(2)));
            assert_eq!(error.to_text(), "rootfs standard stream 2 is a directory");
        }
        Ok(()) => panic!("a stream is a directory"),
    }
    match refuse_launch(&[Some(0o020600)], &run) {
        Err(error) => {
            assert_eq!(error.to_text(), "reserved rootfs execution path already exists: run");
        }
        Ok(()) => panic!("a reserved name is taken"),
    }
    assert!(refuse_launch(&[Some(0o020600), None, None], &bin).is_ok());
    let calls = denied_calls();
    assert_eq!(calls.len(), 11);
    assert_eq!(calls[0], MountCall::Mount);
    assert_eq!(calls[10], MountCall::SetMountAttributes);
}

#[test]
fn paths_lead_below_or_not() {
    for path in ["a", "a/b", "a/./b", "a/", "a//b", "a/."] {
        assert!(relative(path), "{path}");
    }
    for path in ["", "/a", "./a", "..", "a/../b", "a/.."] {
        assert!(!relative(path), "{path}");
    }
}

#[test]
fn profiles_are_known_by_name() {
    let schema = "ostadix.embedded-runtime/v1";
    assert_eq!(execution_profile(schema, None).unwrap(), false);
    assert_eq!(execution_profile(schema, Some("host")).unwrap(), false);
    assert_eq!(execution_profile(schema, Some("linux-rootfs-v1")).unwrap(), true);
    assert!(matches!(execution_profile("x", None), Err(EmbedError::Schema)));
    match execution_profile(schema, Some("vm")) {
        Err(error) => assert_eq!(error.to_text(), "unsupported embedded execution profile vm"),
        Ok(_) => panic!("unknown profile"),
    }
}

#[test]
fn trees_without_commands_and_programs_without_places_are_refused() {
    let mut bare = fixture();
    bare.entries[1].mode = 0o100644;
    assert!(matches!(embed(&bare, MAIN), Err(EmbedError::NoExecutable)));
    assert!(matches!(embed(&fixture(), "fn main() {}"), Err(EmbedError::InsertionPoint)));
    let doubled = format!("{MAIN}\n{MAIN}");
    assert!(matches!(embed(&rootfs_fixture(), &doubled), Err(EmbedError::EntryPoint)));
    assert!(matches!(install_bootstrap("", true), Err(EmbedError::EntryPoint)));
    let text = install_bootstrap(MAIN, false).unwrap();
    assert!(text.starts_with("mod embedded_runtime;\nfn main()"));
    assert!(!text.contains("enter_rootfs_if_requested"));
}

#[test]
fn activation_follows_entering() {
    assert_eq!(activate(false, false).unwrap(), Activation::TakeOut);
    assert_eq!(activate(true, true).unwrap(), Activation::InPlace);
    assert!(matches!(activate(true, false), Err(EmbedError::NotEntered)));
    assert_eq!(enter_rootfs_if_requested(false, false), Gate::Open);
    assert_eq!(enter_rootfs_if_requested(true, true), Gate::Inside);
    assert_eq!(enter_rootfs_if_requested(true, false), Gate::Enter);
    assert_eq!(RuntimeBundle::removal_mode(0o055), 0o755);
    assert!(check_file("a", b"abc", &digest_of(b"abc")).is_ok());
    assert!(matches!(check_file("a", b"abd", &digest_of(b"abc")), Err(EmbedError::Digest(_))));
}

#[test]
fn environments_are_closed_over_the_tree() {
    let list = vec![("GEM_HOME".to_string(), "${BUNDLE}/gems".to_string())];
    assert_eq!(
        apply_environment("/tmp/x", &list).unwrap(),
        [
            ("PATH".to_string(), "/tmp/x/bin".to_string()),
            ("GEM_HOME".to_string(), "/tmp/x/gems".to_string()),
        ]
    );
    assert_eq!(apply_environment("/", &[]).unwrap()[0].1, "/bin");
    let bad = vec![("GEM_HOME".to_string(), "gems".to_string())];
    assert!(matches!(apply_environment("/", &bad), Err(EmbedError::Template)));
}

#[test]
fn trees_are_taken_out_to_places_of_their_own() {
    assert_eq!(runtime_directory(7, &[1, 0xff]), "ostadix-runtime-7-01ff");
    let first = fresh_runtime_directory(7).unwrap();
    let second = fresh_runtime_directory(7).unwrap();
    assert_eq!(first.len(), "ostadix-runtime-7-".len() + 32);
    assert_ne!(first, second);
    assert_eq!(
        take_out_steps(2, 1, 1),
        [
            TakeOutStep::MakeDirectory(0),
            TakeOutStep::MakeDirectory(1),
            TakeOutStep::WriteFile(0),
            TakeOutStep::MakeLink(0),
            TakeOutStep::SetMode(1),
            TakeOutStep::SetMode(0),
        ]
    );
}

fn evidence() -> ActiveEvidence {
    ActiveEvidence {
        claimed: "image".into(),
        stored: "image".into(),
        uid_map: "         0       1000          1\n".into(),
        gid_map: "0 1000 1\n".into(),
        status: "CapInh:\t0000000000000000\nCapPrm:\t0\nCapEff:\t0\nCapBnd:\t0\nCapAmb:\t0\n".into(),
        no_new_privileges: 1,
    }
}

#[test]
fn activity_is_believed_only_with_all_evidence() {
    assert_eq!(verify_active("image", None), Ok(false));
    assert_eq!(verify_active("image", Some(&evidence())), Ok(true));
    assert_eq!(verify_active("other", Some(&evidence())), Err(RootfsError::ImageMismatch));
    let mut e = evidence();
    e.gid_map = "0 1000 2\n".into();
    assert_eq!(verify_active("image", Some(&e)), Err(RootfsError::Identities));
    let mut e = evidence();
    e.status = e.status.replace("CapBnd:\t0", "CapBnd:\tff");
    assert_eq!(verify_active("image", Some(&e)), Err(RootfsError::Capabilities));
    let mut e = evidence();
    e.status = e.status.replace("CapAmb", "Other");
    assert_eq!(verify_active("image", Some(&e)), Err(RootfsError::NoCapabilities));
    let mut e = evidence();
    e.status = e.status.replace("CapEff:\t0", "CapEff:\tx");
    assert_eq!(verify_active("image", Some(&e)), Err(RootfsError::BadCapabilities));
    let mut e = evidence();
    e.no_new_privileges = 0;
    assert_eq!(verify_active("image", Some(&e)), Err(RootfsError::Privileges));
}

#[test]
fn hexadecimal_numbers_fit_or_fail() {
    let hex = |s: &str| parse_hex(&s.chars().collect::<Vec<_>>());
    assert_eq!(hex("ff"), Some(255));
    assert_eq!(hex("+Fe"), Some(254));
    assert_eq!(hex("ffffffffffffffff"), Some(u64::MAX));
    assert_eq!(hex("10000000000000000"), None);
    assert_eq!(hex(""), None);
    assert_eq!(hex("+"), None);
    assert_eq!(hex("g"), None);
}

/// Runs a filter as the kernel does.
fn judge(filter: &[FilterStep], machine: u32, call: u32) -> u32 {
    let mut at = 0usize;
    let mut word = 0u32;
    loop {
        let step = filter[at];
        match step.code {
            0x20 => {
                word = if step.k == 0 { call } else { machine };
                at += 1;
            }
            0x15 => at += 1 + usize::from(if word == step.k { step.jt } else { step.jf }),
            0x35 => at += 1 + usize::from(if word >= step.k { step.jt } else { step.jf }),
            0x06 => return step.k,
            other => panic!("{other}"),
        }
    }
}

#[test]
fn mount_calls_are_refused_by_the_filter() {
    let x86 = prepare_mount_filter(Machine::X86, &[165, 166], 1, 38);
    assert_eq!(x86.len(), 11);
    assert_eq!(judge(&x86, 0xc000003e, 165), 0x50001);
    assert_eq!(judge(&x86, 0xc000003e, 166), 0x50001);
    assert_eq!(judge(&x86, 0xc000003e, 1), 0x7fff0000);
    assert_eq!(judge(&x86, 0xc000003e, 0x40000001), 0x50000 | 38);
    assert_eq!(judge(&x86, 0xc00000b7, 1), 0x80000000);
    let arm = prepare_mount_filter(Machine::Arm, &[40], 1, 38);
    assert_eq!(judge(&arm, 0xc00000b7, 0x40000001), 0x7fff0000);
    assert_eq!(judge(&arm, 0xc00000b7, 40), 0x50001);
}

#[test]
fn images_are_set_up_before_the_program_runs() {
    assert_eq!(reserved_paths().len(), 7);
    let actions = prepare_root("/r", "abc");
    assert_eq!(actions.len(), 18);
    assert!(matches!(&actions[0], RootAction::MakeDirectory(p) if p == "/r/.ostadix"));
    assert!(matches!(&actions[8], RootAction::WriteText(p, t) if p == "/r/.ostadix/image.sha256" && t == "abc"));
    assert_eq!(child_environment("abc")[0], ("O_EMBEDDED_ROOTFS_IMAGE".into(), "abc".into()));
    assert_eq!(identity_map(1000), "0 1000 1\n");
    let mounts = mounts_first("/r");
    assert_eq!(mounts.len(), 11);
    assert!(mounts[2..6].iter().all(|m| m.kind == Some("tmpfs") && m.flags.no_devices));
    assert!(mounts[10].flags.read_only && mounts[10].flags.no_exec);
    assert!(mount_last().flags.read_only);
    let steps = entry_steps();
    let place = |s: EntryStep| steps.iter().position(|x| *x == s).unwrap();
    assert!(place(EntryStep::InstallFilter) < place(EntryStep::ForkRunner));
    assert!(place(EntryStep::ChangeRoot) < place(EntryStep::DetachOldRoot));
    assert!(place(EntryStep::DropCapabilities) < place(EntryStep::InstallFilter));
    assert_eq!(directory_stream(&[Some(0o100644), None, Some(0o040755)]), Some(2));
    assert_eq!(directory_stream(&[Some(0o020600)]), None);
}

#[test]
fn outcomes_are_handed_on() {
    let mut phase = InitPhase::Running;
    for event in [
        WaitEvent::Ended { process: 9, status: 5 },
        WaitEvent::Interrupted,
        WaitEvent::Ended { process: 2, status: 256 },
        WaitEvent::Ended { process: 8, status: 9 },
        WaitEvent::NoProcesses,
    ] {
        phase = init_next(2, phase, event);
    }
    assert_eq!(phase, InitPhase::Reporting { status: 256 });
    assert_eq!(init_next(2, InitPhase::Running, WaitEvent::NoProcesses), InitPhase::Failed);
    assert_eq!(outcome(0, Some(256)), Ending::Code { code: 1 });
    assert_eq!(outcome(9, None), Ending::Signal { signal: 9, code: 137 });
    assert_eq!(outcome(0x7f, None), Ending::Code { code: 0 });
    assert_eq!(exit_like(Some(3), None), (None, 3));
    assert_eq!(exit_like(None, None), (None, 125));
    assert_eq!(exit_like(None, Some(15)), (Some(15), 143));
    assert_eq!(after_attempt(0, 4, -1, true), Transfer::More(0));
    assert_eq!(after_attempt(0, 4, -1, false), Transfer::Failed);
    assert_eq!(after_attempt(1, 4, 2, false), Transfer::More(3));
    assert_eq!(after_attempt(1, 4, 3, false), Transfer::Done);
    assert_eq!(after_attempt(1, 4, 0, false), Transfer::Failed);
}

#[test]
fn descriptors_are_closed_around_those_kept() {
    assert_eq!(ranges_to_close(&[]), [(3, u32::MAX)]);
    assert_eq!(ranges_to_close(&[5, 6, 9]), [(3, 4), (7, 8), (10, u32::MAX)]);
    assert_eq!(ranges_to_close(&[0, 3]), [(4, u32::MAX)]);
}
