//! What is known of a device, whether that makes it ready, and how both are
//! shown.

use vstd::prelude::*;

use crate::text::{decimal, push_decimal, views};

verus! {

/// The battery, its numbers as they are shown.
#[derive(Debug)]
pub struct BatteryFacts {
    pub percentage: Option<String>,
    pub temperature: Option<String>,
    pub health: Option<String>,
    pub status: Option<String>,
}

/// What was found out about a device.
#[derive(Debug)]
pub struct DeviceFacts {
    pub model: Option<String>,
    pub soc: Option<String>,
    pub architecture: String,
    pub android: bool,
    pub release: Option<String>,
    pub api: Option<String>,
    pub termux: bool,
    pub cpuset: Option<String>,
    pub allowed: String,
    pub allowed_count: u64,
    pub prime_core: Option<u32>,
    pub prime_available: Option<bool>,
    pub total_mib: Option<u64>,
    pub available_mib: Option<u64>,
    pub battery: Option<BatteryFacts>,
    pub rustc: Option<String>,
    pub cargo: Option<String>,
    pub clang: Option<String>,
    pub linker: Option<String>,
    pub sccache: bool,
    pub ccache: bool,
    pub project_root: String,
    /// Whether the project root holds a manifest.
    pub checkout: bool,
    pub backends_dir: String,
    /// Whether the backend directory is there.
    pub backends_present: bool,
    pub evaluator: Option<String>,
    pub private_storage: bool,
    pub effective_uid: Option<u32>,
}

/// A text, or that it is unavailable.
pub open spec fn shown(value: Option<String>) -> Seq<char> {
    match value {
        Some(text) => text@,
        None => "unavailable"@,
    }
}

/// A text, or that it is unavailable.
pub fn show(value: &Option<String>) -> (text: &str)
    ensures
        text@ == shown(*value),
{
    match value {
        Some(text) => text.as_str(),
        None => "unavailable",
    }
}

/// A number, or that it is unavailable.
pub open spec fn number_shown(value: Option<u64>) -> Seq<char> {
    match value {
        Some(n) => decimal(n as nat),
        None => "unavailable"@,
    }
}

/// A number, or that it is unavailable.
pub fn show_number(value: Option<u64>) -> (text: String)
    ensures
        text@ == number_shown(value),
{
    match value {
        Some(n) => {
            let mut text = String::new();
            push_decimal(&mut text, n);
            assert(text@ =~= decimal(n as nat));
            text
        },
        None => "unavailable".to_owned(),
    }
}

/// A text, or that it is unavailable where it is empty.
pub open spec fn nonempty_shown(value: Seq<char>) -> Seq<char> {
    if value.len() == 0 {
        "unavailable"@
    } else {
        value
    }
}

/// A text, or that it is unavailable where it is empty.
pub fn empty_as_unavailable(value: &str) -> (text: &str)
    ensures
        text@ == nonempty_shown(value@),
{
    if value.unicode_len() == 0 {
        "unavailable"
    } else {
        value
    }
}

/// The line on the prime CPU.
pub open spec fn prime_line_text(core: Option<u32>, available: Option<bool>) -> Seq<char> {
    match (core, available) {
        (Some(cpu), Some(true)) => "prime:       CPU "@ + decimal(cpu as nat) + " available now"@,
        (Some(cpu), Some(false)) => "prime:       CPU "@ + decimal(cpu as nat)
            + " withheld; use --prime or `prime attach PID`"@,
        _ => "prime:       unavailable"@,
    }
}

fn prime_line(core: Option<u32>, available: Option<bool>) -> (text: String)
    ensures
        text@ == prime_line_text(core, available),
{
    match (core, available) {
        (Some(cpu), Some(yes)) => {
            let mut text = "prime:       CPU ".to_owned();
            push_decimal(&mut text, cpu as u64);
            if yes {
                text.append(" available now");
            } else {
                text.append(" withheld; use --prime or `prime attach PID`");
            }
            text
        },
        _ => "prime:       unavailable".to_owned(),
    }
}

impl DeviceFacts {
    /// The lines of the status report, down to the memory.
    pub open spec fn first_lines(self) -> Seq<Seq<char>> {
        seq![
            "device:      "@ + shown(self.model) + " / "@ + shown(self.soc),
            "android:     "@ + shown(self.release) + " (API "@ + shown(self.api) + ") / "@
                + self.architecture@,
            "scheduler:   "@ + shown(self.cpuset) + " / CPUs "@ + nonempty_shown(self.allowed@)
                + " ("@ + decimal(self.allowed_count as nat) + " available)"@,
            prime_line_text(self.prime_core, self.prime_available),
            "memory:      "@ + number_shown(self.total_mib) + " MiB total / "@ + number_shown(
                self.available_mib,
            ) + " MiB available"@,
        ]
    }

    /// The line on the battery, where there is one.
    pub open spec fn battery_lines(self) -> Seq<Seq<char>> {
        match self.battery {
            Some(battery) => seq![
                "battery:     "@ + shown(battery.percentage) + "% / "@ + shown(battery.temperature)
                    + " C / "@ + shown(battery.health) + " / "@ + shown(battery.status),
            ],
            None => Seq::empty(),
        }
    }

    /// The lines of the status report after the battery.
    pub open spec fn last_lines(self) -> Seq<Seq<char>> {
        seq![
            "rust:        "@ + shown(self.rustc),
            "linker:      "@ + shown(self.linker),
            "O binary:    "@ + shown(self.evaluator),
            "project:     "@ + self.project_root@,
            "backends:    "@ + self.backends_dir@,
            "privilege:   uid "@ + (match self.effective_uid {
                Some(uid) => decimal(uid as nat),
                None => "unavailable"@,
            }) + " (status did not probe su)"@,
        ]
    }

    /// The status report.
    pub fn status_lines(&self) -> (out: Vec<String>)
        ensures
            views(out@) == self.first_lines() + self.battery_lines()
                + self.last_lines(),
    {
        let mut device = "device:      ".to_owned();
        device.append(show(&self.model));
        device.append(" / ");
        device.append(show(&self.soc));
        let mut android = "android:     ".to_owned();
        android.append(show(&self.release));
        android.append(" (API ");
        android.append(show(&self.api));
        android.append(") / ");
        android.append(self.architecture.as_str());
        let mut scheduler = "scheduler:   ".to_owned();
        scheduler.append(show(&self.cpuset));
        scheduler.append(" / CPUs ");
        scheduler.append(empty_as_unavailable(self.allowed.as_str()));
        scheduler.append(" (");
        push_decimal(&mut scheduler, self.allowed_count);
        scheduler.append(" available)");
        let mut memory = "memory:      ".to_owned();
        memory.append(show_number(self.total_mib).as_str());
        memory.append(" MiB total / ");
        memory.append(show_number(self.available_mib).as_str());
        memory.append(" MiB available");
        let mut out = vec![
            device,
            android,
            scheduler,
            prime_line(self.prime_core, self.prime_available),
            memory,
        ];
        assert(views(out@) =~= self.first_lines());
        match &self.battery {
            Some(battery) => {
                let mut line = "battery:     ".to_owned();
                line.append(show(&battery.percentage));
                line.append("% / ");
                line.append(show(&battery.temperature));
                line.append(" C / ");
                line.append(show(&battery.health));
                line.append(" / ");
                line.append(show(&battery.status));
                out.push(line);
            },
            None => {},
        }
        assert(views(out@) =~= self.first_lines() + self.battery_lines());
        let ghost before = views(out@);
        let mut rust = "rust:        ".to_owned();
        rust.append(show(&self.rustc));
        let mut linker = "linker:      ".to_owned();
        linker.append(show(&self.linker));
        let mut evaluator = "O binary:    ".to_owned();
        evaluator.append(show(&self.evaluator));
        let mut project = "project:     ".to_owned();
        project.append(self.project_root.as_str());
        let mut backends = "backends:    ".to_owned();
        backends.append(self.backends_dir.as_str());
        let mut privilege = "privilege:   uid ".to_owned();
        match self.effective_uid {
            Some(uid) => {
                push_decimal(&mut privilege, uid as u64);
            },
            None => {
                privilege.append("unavailable");
            },
        }
        privilege.append(" (status did not probe su)");
        out.push(rust);
        out.push(linker);
        out.push(evaluator);
        out.push(project);
        out.push(backends);
        out.push(privilege);
        assert(views(out@) =~= before + self.last_lines());
        out
    }
}

/// How a check went.
#[derive(Clone, Copy, Debug, PartialEq, Eq, Structural)]
pub enum CheckLevel {
    Pass,
    Info,
    Warn,
    Fail,
}

impl CheckLevel {
    pub open spec fn name(self) -> Seq<char> {
        match self {
            CheckLevel::Pass => "ok"@,
            CheckLevel::Info => "info"@,
            CheckLevel::Warn => "warn"@,
            CheckLevel::Fail => "fail"@,
        }
    }

    /// The level, as it is shown.
    pub fn label(self) -> (text: &'static str)
        ensures
            text@ == self.name(),
    {
        match self {
            CheckLevel::Pass => "ok",
            CheckLevel::Info => "info",
            CheckLevel::Warn => "warn",
            CheckLevel::Fail => "fail",
        }
    }
}

/// One finding of the doctor.
#[derive(Debug)]
pub struct DoctorCheck {
    pub name: &'static str,
    pub level: CheckLevel,
    pub detail: String,
}

/// A finding, its texts as sequences.
pub ghost struct Finding {
    pub name: Seq<char>,
    pub level: CheckLevel,
    pub detail: Seq<char>,
}

impl DoctorCheck {
    pub open spec fn finding(self) -> Finding {
        Finding { name: self.name@, level: self.level, detail: self.detail@ }
    }
}

pub open spec fn findings(checks: Seq<DoctorCheck>) -> Seq<Finding> {
    checks.map_values(|c: DoctorCheck| c.finding())
}

/// A finding on something that should hold, and that has to where it is
/// required.
pub open spec fn verdict(
    name: Seq<char>,
    passed: bool,
    pass_detail: Seq<char>,
    fail_detail: Seq<char>,
    required: bool,
) -> Finding {
    Finding {
        name,
        level: if passed {
            CheckLevel::Pass
        } else if required {
            CheckLevel::Fail
        } else {
            CheckLevel::Warn
        },
        detail: if passed {
            pass_detail
        } else {
            fail_detail
        },
    }
}

/// A finding on something that should hold, and that has to where it is
/// required.
pub fn check(
    name: &'static str,
    passed: bool,
    pass_detail: &str,
    fail_detail: &str,
    required: bool,
) -> (r: DoctorCheck)
    ensures
        r.finding() == verdict(name@, passed, pass_detail@, fail_detail@, required),
{
    DoctorCheck {
        name,
        level: if passed {
            CheckLevel::Pass
        } else if required {
            CheckLevel::Fail
        } else {
            CheckLevel::Warn
        },
        detail: if passed {
            pass_detail.to_owned()
        } else {
            fail_detail.to_owned()
        },
    }
}

pub open spec fn truth(value: bool) -> Seq<char> {
    if value {
        "true"@
    } else {
        "false"@
    }
}

fn truth_text(value: bool) -> (text: &'static str)
    ensures
        text@ == truth(value),
{
    if value {
        "true"
    } else {
        "false"
    }
}

impl DeviceFacts {
    /// The findings on the device and the project.
    pub open spec fn host_findings(self) -> Seq<Finding> {
        seq![
            verdict(
                "android"@,
                self.android,
                "Android properties are available"@,
                "not running in an Android userspace"@,
                true,
            ),
            verdict(
                "termux"@,
                self.termux,
                "Termux environment detected"@,
                "Termux environment was not detected"@,
                true,
            ),
            verdict(
                "architecture"@,
                self.architecture@ == "aarch64"@,
                "native aarch64 userspace"@,
                "expected aarch64, found "@ + self.architecture@,
                true,
            ),
            verdict(
                "project"@,
                self.checkout,
                self.project_root@ + " is an Ostadix checkout"@,
                "missing "@ + self.project_root@ + "/Cargo.toml"@,
                true,
            ),
            verdict(
                "private-storage"@,
                self.private_storage,
                "project is in Termux private storage"@,
                "project path is not recognized as Termux private storage"@,
                false,
            ),
        ]
    }

    /// The findings on the programs that the project needs.
    pub open spec fn tool_findings(self) -> Seq<Finding> {
        seq![
            verdict(
                "evaluator"@,
                self.evaluator is Some,
                "optimized O evaluator found"@,
                "optimized O evaluator is not built or on PATH"@,
                true,
            ),
            verdict(
                "backends"@,
                self.backends_present,
                "backend directory found"@,
                "missing "@ + self.backends_dir@,
                true,
            ),
            verdict(
                "rust-toolchain"@,
                self.rustc is Some && self.cargo is Some,
                "rustc and Cargo found"@,
                "rustc or Cargo is unavailable"@,
                true,
            ),
            verdict(
                "native-toolchain"@,
                self.clang is Some && self.linker is Some,
                "Clang and LLD found"@,
                "Clang or LLD is unavailable; C17/AOT builds may fail"@,
                false,
            ),
            Finding {
                name: "compiler-cache"@,
                level: if self.sccache && self.ccache {
                    CheckLevel::Pass
                } else {
                    CheckLevel::Warn
                },
                detail: "sccache="@ + truth(self.sccache) + ", ccache="@ + truth(self.ccache),
            },
        ]
    }

    /// What is found of the prime CPU.
    pub open spec fn prime_finding(self) -> Finding {
        Finding {
            name: "prime-core"@,
            level: match self.prime_available {
                Some(true) => CheckLevel::Pass,
                Some(false) => CheckLevel::Info,
                None => CheckLevel::Warn,
            },
            detail: match (self.prime_core, self.prime_available) {
                (Some(cpu), Some(true)) => "CPU "@ + decimal(cpu as nat)
                    + " is in the live affinity mask"@,
                (Some(cpu), Some(false)) => "CPU "@ + decimal(cpu as nat)
                    + " is currently withheld by "@ + (match self.cpuset {
                    Some(text) => text@,
                    None => "the scheduler"@,
                }) + "; explicit prime mode can request top-app"@,
                _ => "could not identify a prime CPU"@,
            },
        }
    }

    /// What is said in any case.
    pub open spec fn safety_findings(self) -> Seq<Finding> {
        seq![
            Finding {
                name: "root-surface"@,
                level: CheckLevel::Info,
                detail: "doctor does not probe su; only an explicit prime mutation may invoke it"@,
            },
            Finding {
                name: "thermal-safety"@,
                level: CheckLevel::Info,
                detail: "no governor, thermal, SELinux, boot, module, or root-hiding changes"@,
            },
        ]
    }

    /// All that the doctor finds.
    pub open spec fn diagnosis(self) -> Seq<Finding> {
        self.host_findings() + self.tool_findings() + seq![self.prime_finding()]
            + self.safety_findings()
    }

    /// Whether all that is required is there.
    pub open spec fn ready(self) -> bool {
        &&& self.android
        &&& self.termux
        &&& self.architecture@ == "aarch64"@
        &&& self.checkout
        &&& self.evaluator is Some
        &&& self.backends_present
        &&& self.rustc is Some
        &&& self.cargo is Some
    }
}

/// A device is ready exactly when no finding on it is a failure.
pub proof fn ready_devices_fail_no_check(facts: DeviceFacts)
    ensures
        facts.ready() <==> forall|i: int|
            0 <= i < facts.diagnosis().len() ==> !((#[trigger] facts.diagnosis()[i]).level is Fail),
{
    let all = facts.diagnosis();
    assert(all[0] == facts.host_findings()[0]);
    assert(all[1] == facts.host_findings()[1]);
    assert(all[2] == facts.host_findings()[2]);
    assert(all[3] == facts.host_findings()[3]);
    assert(all[4] == facts.host_findings()[4]);
    assert(all[5] == facts.tool_findings()[0]);
    assert(all[6] == facts.tool_findings()[1]);
    assert(all[7] == facts.tool_findings()[2]);
    assert(all[8] == facts.tool_findings()[3]);
    assert(all[9] == facts.tool_findings()[4]);
    assert(all[10] == facts.prime_finding());
    assert(all[11] == facts.safety_findings()[0]);
    assert(all[12] == facts.safety_findings()[1]);
    assert(all.len() == 13);
}

/// The doctor's report.
#[derive(Debug)]
pub struct DoctorReport {
    pub ready: bool,
    pub checks: Vec<DoctorCheck>,
}

fn host_checks(facts: &DeviceFacts) -> (out: Vec<DoctorCheck>)
    ensures
        findings(out@) == facts.host_findings(),
{
    let mut found = "expected aarch64, found ".to_owned();
    found.append(facts.architecture.as_str());
    let mut project = facts.project_root.clone();
    project.append(" is an Ostadix checkout");
    let mut missing = "missing ".to_owned();
    missing.append(facts.project_root.as_str());
    missing.append("/Cargo.toml");
    let out = vec![
        check(
            "android",
            facts.android,
            "Android properties are available",
            "not running in an Android userspace",
            true,
        ),
        check(
            "termux",
            facts.termux,
            "Termux environment detected",
            "Termux environment was not detected",
            true,
        ),
        check(
            "architecture",
            *facts.architecture.as_str() == *"aarch64",
            "native aarch64 userspace",
            found.as_str(),
            true,
        ),
        check("project", facts.checkout, project.as_str(), missing.as_str(), true),
        check(
            "private-storage",
            facts.private_storage,
            "project is in Termux private storage",
            "project path is not recognized as Termux private storage",
            false,
        ),
    ];
    assert(findings(out@) =~= facts.host_findings());
    out
}

fn tool_checks(facts: &DeviceFacts) -> (out: Vec<DoctorCheck>)
    ensures
        findings(out@) == facts.tool_findings(),
{
    let mut missing = "missing ".to_owned();
    missing.append(facts.backends_dir.as_str());
    let mut caches = "sccache=".to_owned();
    caches.append(truth_text(facts.sccache));
    caches.append(", ccache=");
    caches.append(truth_text(facts.ccache));
    let out = vec![
        check(
            "evaluator",
            facts.evaluator.is_some(),
            "optimized O evaluator found",
            "optimized O evaluator is not built or on PATH",
            true,
        ),
        check(
            "backends",
            facts.backends_present,
            "backend directory found",
            missing.as_str(),
            true,
        ),
        check(
            "rust-toolchain",
            facts.rustc.is_some() && facts.cargo.is_some(),
            "rustc and Cargo found",
            "rustc or Cargo is unavailable",
            true,
        ),
        check(
            "native-toolchain",
            facts.clang.is_some() && facts.linker.is_some(),
            "Clang and LLD found",
            "Clang or LLD is unavailable; C17/AOT builds may fail",
            false,
        ),
        DoctorCheck {
            name: "compiler-cache",
            level: if facts.sccache && facts.ccache {
                CheckLevel::Pass
            } else {
                CheckLevel::Warn
            },
            detail: caches,
        },
    ];
    assert(findings(out@) =~= facts.tool_findings());
    out
}

fn prime_check(facts: &DeviceFacts) -> (r: DoctorCheck)
    ensures
        r.finding() == facts.prime_finding(),
{
    let level = match facts.prime_available {
        Some(yes) => if yes {
            CheckLevel::Pass
        } else {
            CheckLevel::Info
        },
        None => CheckLevel::Warn,
    };
    let detail = match (facts.prime_core, facts.prime_available) {
        (Some(cpu), Some(yes)) => {
            let mut text = "CPU ".to_owned();
            push_decimal(&mut text, cpu as u64);
            if yes {
                text.append(" is in the live affinity mask");
            } else {
                text.append(" is currently withheld by ");
                match &facts.cpuset {
                    Some(set) => {
                        text.append(set.as_str());
                    },
                    None => {
                        text.append("the scheduler");
                    },
                }
                text.append("; explicit prime mode can request top-app");
            }
            text
        },
        _ => "could not identify a prime CPU".to_owned(),
    };
    DoctorCheck { name: "prime-core", level, detail }
}

fn push_checks(out: &mut Vec<DoctorCheck>, more: Vec<DoctorCheck>)
    ensures
        findings(final(out)@) == findings(old(out)@) + findings(more@),
{
    let ghost before = out@;
    let mut more = more;
    let ghost added = more@;
    out.append(&mut more);
    assert(findings(out@) =~= findings(before) + findings(added));
}

/// Whether a device is ready to build and run the language.
pub fn doctor(facts: &DeviceFacts) -> (report: DoctorReport)
    ensures
        findings(report.checks@) == facts.diagnosis(),
        report.ready == facts.ready(),
{
    let mut checks = host_checks(facts);
    push_checks(&mut checks, tool_checks(facts));
    let rest = vec![
        prime_check(facts),
        DoctorCheck {
            name: "root-surface",
            level: CheckLevel::Info,
            detail: "doctor does not probe su; only an explicit prime mutation may invoke it".to_owned(),
        },
        DoctorCheck {
            name: "thermal-safety",
            level: CheckLevel::Info,
            detail: "no governor, thermal, SELinux, boot, module, or root-hiding changes".to_owned(),
        },
    ];
    assert(findings(rest@) =~= seq![facts.prime_finding()] + facts.safety_findings());
    push_checks(&mut checks, rest);
    assert(findings(checks@) =~= facts.diagnosis());
    let mut ready: bool = true;
    let mut i: usize = 0;
    while i < checks.len()
        invariant
            i <= checks@.len(),
            findings(checks@) == facts.diagnosis(),
            ready == forall|k: int|
                0 <= k < i ==> !((#[trigger] facts.diagnosis()[k]).level is Fail),
        decreases checks@.len() - i,
    {
        assert(facts.diagnosis()[i as int] == checks@[i as int].finding());
        match checks[i].level {
            CheckLevel::Fail => {
                ready = false;
            },
            _ => {},
        }
        i += 1;
    }
    proof {
        ready_devices_fail_no_check(*facts);
        assert(facts.diagnosis().len() == checks@.len());
    }
    DoctorReport { ready, checks }
}

/// Text filled up with blanks to a width.
pub open spec fn padded(s: Seq<char>, width: nat) -> Seq<char>
    decreases width - s.len(),
{
    if s.len() >= width {
        s
    } else {
        padded(s.push(' '), width)
    }
}

fn push_padded(out: &mut String, text: &str, width: usize)
    ensures
        final(out)@ == old(out)@ + padded(text@, width as nat),
{
    let ghost before = out@;
    out.append(text);
    let mut n: usize = text.unicode_len();
    let ghost mut sofar: Seq<char> = text@;
    while n < width
        invariant
            n == sofar.len(),
            out@ == before + sofar,
            padded(sofar, width as nat) == padded(text@, width as nat),
        decreases width - n,
    {
        out.push(' ');
        proof {
            sofar = sofar.push(' ');
            assert(out@ =~= before + sofar);
        }
        n += 1;
    }
}

impl DoctorReport {
    /// The line on one finding.
    pub open spec fn line(finding: Finding) -> Seq<char> {
        "["@ + padded(finding.level.name(), 4) + "] "@ + padded(finding.name, 18) + " "@
            + finding.detail
    }

    pub open spec fn text_lines(self) -> Seq<Seq<char>> {
        findings(self.checks@).map_values(|f: Finding| Self::line(f)).push(
            if self.ready {
                "doctor: ready"@
            } else {
                "doctor: not ready"@
            },
        )
    }

    /// The report: a line for each finding, and the outcome.
    pub fn lines(&self) -> (out: Vec<String>)
        ensures
            views(out@) == self.text_lines(),
    {
        let ghost expected = findings(self.checks@).map_values(|f: Finding| Self::line(f));
        let mut out: Vec<String> = Vec::new();
        let mut i: usize = 0;
        assert(views(out@) =~= expected.take(0));
        while i < self.checks.len()
            invariant
                i <= self.checks@.len(),
                expected == findings(self.checks@).map_values(|f: Finding| Self::line(f)),
                views(out@) == expected.take(i as int),
            decreases self.checks@.len() - i,
        {
            let item = &self.checks[i];
            let mut line = "[".to_owned();
            push_padded(&mut line, item.level.label(), 4);
            line.append("] ");
            push_padded(&mut line, item.name, 18);
            line.append(" ");
            line.append(item.detail.as_str());
            assert(expected[i as int] == Self::line(self.checks@[i as int].finding()));
            assert(line@ =~= expected[i as int]);
            let ghost before = views(out@);
            out.push(line);
            assert(views(out@) =~= before.push(expected[i as int]));
            assert(before.push(expected[i as int]) =~= expected.take(i + 1));
            i += 1;
        }
        assert(expected.take(i as int) =~= expected);
        out.push(
            if self.ready {
                "doctor: ready".to_owned()
            } else {
                "doctor: not ready".to_owned()
            },
        );
        assert(views(out@) =~= self.text_lines());
        out
    }
}

/// The placement of one process.
pub open spec fn prime_status_text(
    pid: u32,
    uid: u32,
    cpuset: Option<String>,
    allowed: Seq<char>,
    prime_core: Option<u32>,
    prime_available: Option<bool>,
) -> Seq<Seq<char>> {
    seq![
        "pid:         "@ + decimal(pid as nat) + " (uid "@ + decimal(uid as nat) + ")"@,
        "cpuset:      "@ + shown(cpuset),
        "allowed:     "@ + nonempty_shown(allowed),
        match (prime_core, prime_available) {
            (Some(cpu), Some(true)) => "prime:       CPU "@ + decimal(cpu as nat) + " available"@,
            (Some(cpu), Some(false)) => "prime:       CPU "@ + decimal(cpu as nat) + " withheld"@,
            _ => "prime:       unavailable"@,
        },
    ]
}

/// The placement of one process.
pub fn prime_status_lines(
    pid: u32,
    uid: u32,
    cpuset: &Option<String>,
    allowed: &str,
    prime_core: Option<u32>,
    prime_available: Option<bool>,
) -> (out: Vec<String>)
    ensures
        views(out@) == prime_status_text(
            pid,
            uid,
            *cpuset,
            allowed@,
            prime_core,
            prime_available,
        ),
{
    let mut first = "pid:         ".to_owned();
    push_decimal(&mut first, pid as u64);
    first.append(" (uid ");
    push_decimal(&mut first, uid as u64);
    first.append(")");
    let mut second = "cpuset:      ".to_owned();
    second.append(show(cpuset));
    let mut third = "allowed:     ".to_owned();
    third.append(empty_as_unavailable(allowed));
    let fourth = match (prime_core, prime_available) {
        (Some(cpu), Some(yes)) => {
            let mut text = "prime:       CPU ".to_owned();
            push_decimal(&mut text, cpu as u64);
            if yes {
                text.append(" available");
            } else {
                text.append(" withheld");
            }
            text
        },
        _ => "prime:       unavailable".to_owned(),
    };
    let out = vec![first, second, third, fourth];
    assert(views(out@) =~= prime_status_text(
        pid,
        uid,
        *cpuset,
        allowed@,
        prime_core,
        prime_available,
    ));
    out
}

} // verus!
