use o_lang::doctor::{doctor, prime_status_lines, BatteryFacts, CheckLevel, DeviceFacts};

fn ready() -> DeviceFacts {
    DeviceFacts {
        model: Some("Phone".into()),
        soc: None,
        architecture: "aarch64".into(),
        android: true,
        release: Some("15".into()),
        api: Some("35".into()),
        termux: true,
        cpuset: Some("/top-app".into()),
        allowed: "0-7".into(),
        allowed_count: 8,
        prime_core: Some(7),
        prime_available: Some(true),
        total_mib: Some(16000),
        available_mib: None,
        battery: None,
        rustc: Some("rustc 1".into()),
        cargo: Some("cargo 1".into()),
        clang: None,
        linker: None,
        sccache: true,
        ccache: false,
        project_root: "/home/o".into(),
        checkout: true,
        backends_dir: "/home/o/backends".into(),
        backends_present: true,
        evaluator: Some("/home/o/O".into()),
        private_storage: true,
        effective_uid: Some(10402),
    }
}

#[test]
fn a_ready_device_has_no_failure() {
    let report = doctor(&ready());
    assert!(report.ready);
    assert_eq!(report.checks.len(), 13);
    assert!(report.checks.iter().all(|c| c.level != CheckLevel::Fail));
    let warned: Vec<&str> = report
        .checks
        .iter()
        .filter(|c| c.level == CheckLevel::Warn)
        .map(|c| c.name)
        .collect();
    assert_eq!(warned, ["native-toolchain", "compiler-cache"]);
}

#[test]
fn each_requirement_is_needed() {
    let mut list: Vec<(&str, DeviceFacts)> = Vec::new();
    let mut f = ready();
    f.android = false;
    list.push(("android", f));
    let mut f = ready();
    f.termux = false;
    list.push(("termux", f));
    let mut f = ready();
    f.architecture = "x86_64".into();
    list.push(("architecture", f));
    let mut f = ready();
    f.checkout = false;
    list.push(("project", f));
    let mut f = ready();
    f.evaluator = None;
    list.push(("evaluator", f));
    let mut f = ready();
    f.backends_present = false;
    list.push(("backends", f));
    let mut f = ready();
    f.cargo = None;
    list.push(("rust-toolchain", f));
    for (name, facts) in list {
        let report = doctor(&facts);
        assert!(!report.ready, "{name}");
        let failed: Vec<&str> = report
            .checks
            .iter()
            .filter(|c| c.level == CheckLevel::Fail)
            .map(|c| c.name)
            .collect();
        assert_eq!(failed, [name]);
        assert_eq!(report.lines().last().unwrap(), "doctor: not ready");
    }
}

#[test]
fn reports_line_up() {
    let report = doctor(&ready());
    let lines = report.lines();
    assert_eq!(lines[0], "[ok  ] android            Android properties are available");
    assert_eq!(lines[8], "[warn] native-toolchain   Clang or LLD is unavailable; C17/AOT builds may fail");
    assert_eq!(lines[9], "[warn] compiler-cache     sccache=true, ccache=false");
    assert_eq!(lines[13], "doctor: ready");
}

#[test]
fn the_prime_core_may_be_withheld() {
    let mut facts = ready();
    facts.prime_available = Some(false);
    facts.cpuset = None;
    let report = doctor(&facts);
    assert_eq!(report.checks[10].level, CheckLevel::Info);
    assert_eq!(
        report.checks[10].detail,
        "CPU 7 is currently withheld by the scheduler; explicit prime mode can request top-app"
    );
}

#[test]
fn the_status_shows_what_is_known() {
    let mut facts = ready();
    facts.battery = Some(BatteryFacts {
        percentage: Some("81.0".into()),
        temperature: None,
        health: Some("GOOD".into()),
        status: None,
    });
    let lines = facts.status_lines();
    assert_eq!(lines[0], "device:      Phone / unavailable");
    assert_eq!(lines[1], "android:     15 (API 35) / aarch64");
    assert_eq!(lines[2], "scheduler:   /top-app / CPUs 0-7 (8 available)");
    assert_eq!(lines[3], "prime:       CPU 7 available now");
    assert_eq!(lines[4], "memory:      16000 MiB total / unavailable MiB available");
    assert_eq!(lines[5], "battery:     81.0% / unavailable C / GOOD / unavailable");
    assert_eq!(lines[11], "privilege:   uid 10402 (status did not probe su)");
    assert_eq!(lines.len(), 12);
}

#[test]
fn one_process_is_shown_alone() {
    assert_eq!(
        prime_status_lines(4, 10402, &None, "", Some(7), Some(false)),
        [
            "pid:         4 (uid 10402)",
            "cpuset:      unavailable",
            "allowed:     unavailable",
            "prime:       CPU 7 withheld",
        ]
    );
}
