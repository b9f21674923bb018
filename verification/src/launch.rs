//! How an embedded root filesystem is entered: the filter that keeps it closed,
//! the steps that set it up, and how the outcome is handed on.

use vstd::prelude::*;

use crate::bundle::{first_taken, reserved_and_taken};
use crate::paths::{join_path, joined_path};
use crate::rootfs::ACTIVE_ENV;
use crate::text::{decimal, push_decimal, views};

verus! {

/// One instruction of a system call filter.
#[derive(Clone, Copy, Debug, PartialEq, Eq, Structural)]
pub struct FilterStep {
    pub code: u16,
    pub jt: u8,
    pub jf: u8,
    pub k: u32,
}

impl FilterStep {
    /// How many instructions are passed over.
    pub open spec fn jump(self, holds: bool) -> nat {
        if holds {
            self.jt as nat
        } else {
            self.jf as nat
        }
    }
}

/// Loads a word of the call that is judged.
pub const LOAD: u16 = 0x20;

/// Jumps on whether the loaded word is a number.
pub const JEQ: u16 = 0x15;

/// Jumps on whether the loaded word is at least a number.
pub const JGE: u16 = 0x35;

/// Ends with a judgement.
pub const RET: u16 = 0x06;

/// The judgement that ends the process.
pub const KILL: u32 = 0x8000_0000;

/// The judgement that lets the call through.
pub const ALLOW: u32 = 0x7fff_0000;

/// The number from which on calls follow another convention on some machines.
pub const OTHER_CONVENTION: u32 = 0x4000_0000;

/// The machines that the filter is known for.
#[derive(Clone, Copy, Debug, PartialEq, Eq, Structural)]
pub enum Machine {
    X86,
    Arm,
}

impl Machine {
    /// The number by which the kernel knows the machine.
    pub open spec fn number(self) -> u32 {
        match self {
            Machine::X86 => 0xc000_003e,
            Machine::Arm => 0xc000_00b7,
        }
    }

    pub fn to_number(self) -> (n: u32)
        ensures
            n == self.number(),
    {
        match self {
            Machine::X86 => 0xc000_003e,
            Machine::Arm => 0xc000_00b7,
        }
    }
}

/// The judgement that refuses a call with an error number.
pub open spec fn refusal(errno: u16) -> u32 {
    0x0005_0000u32 | errno as u32
}

fn refusal_of(errno: u16) -> (k: u32)
    ensures
        k == refusal(errno),
{
    0x0005_0000u32 | errno as u32
}

/// What a filter says of a call, from an instruction on, with a loaded word.
pub open spec fn judged(
    filter: Seq<FilterStep>,
    at: int,
    word: u32,
    machine: u32,
    call: u32,
) -> Option<u32>
    decreases vstd::math::max(0, filter.len() - at),
{
    if at < 0 || at >= filter.len() {
        None
    } else {
        let step = filter[at];
        if step.code == LOAD {
            if step.k == 0 {
                judged(filter, at + 1, call, machine, call)
            } else if step.k == 4 {
                judged(filter, at + 1, machine, machine, call)
            } else {
                None
            }
        } else if step.code == JEQ {
            judged(
                filter,
                at + 1 + step.jump(word == step.k),
                word,
                machine,
                call,
            )
        } else if step.code == JGE {
            judged(
                filter,
                at + 1 + step.jump(word >= step.k),
                word,
                machine,
                call,
            )
        } else if step.code == RET {
            Some(step.k)
        } else {
            None
        }
    }
}

/// The start of the filter: calls of another machine, or of another convention,
/// are dealt with here.
pub open spec fn filter_head(machine: Machine, enosys: u16) -> Seq<FilterStep> {
    let common = seq![
        FilterStep { code: LOAD, jt: 0, jf: 0, k: 4 },
        FilterStep { code: JEQ, jt: 1, jf: 0, k: machine.number() },
        FilterStep { code: RET, jt: 0, jf: 0, k: KILL },
        FilterStep { code: LOAD, jt: 0, jf: 0, k: 0 },
    ];
    match machine {
        Machine::X86 => common + seq![
            FilterStep { code: JGE, jt: 0, jf: 1, k: OTHER_CONVENTION },
            FilterStep { code: RET, jt: 0, jf: 0, k: refusal(enosys) },
        ],
        Machine::Arm => common,
    }
}

/// The part of the filter that refuses calls.
pub open spec fn filter_refusals(denied: Seq<u32>, eperm: u16) -> Seq<FilterStep>
    decreases denied.len(),
{
    if denied.len() == 0 {
        Seq::empty()
    } else {
        filter_refusals(denied.drop_last(), eperm) + seq![
            FilterStep { code: JEQ, jt: 0, jf: 1, k: denied.last() },
            FilterStep { code: RET, jt: 0, jf: 0, k: refusal(eperm) },
        ]
    }
}

/// The filter that refuses some calls and lets the others through.
pub open spec fn mount_filter(machine: Machine, denied: Seq<u32>, eperm: u16, enosys: u16) -> Seq<
    FilterStep,
> {
    filter_head(machine, enosys) + filter_refusals(denied, eperm) + seq![
        FilterStep { code: RET, jt: 0, jf: 0, k: ALLOW },
    ]
}

/// The filter that refuses the calls that change mounts, by their numbers on
/// the machine, and lets the others through.
pub fn prepare_mount_filter(machine: Machine, denied: &[u32], eperm: u16, enosys: u16) -> (out: Vec<
    FilterStep,
>)
    ensures
        out@ == mount_filter(machine, denied@, eperm, enosys),
{
    let mut out: Vec<FilterStep> = vec![
        FilterStep { code: LOAD, jt: 0, jf: 0, k: 4 },
        FilterStep { code: JEQ, jt: 1, jf: 0, k: machine.to_number() },
        FilterStep { code: RET, jt: 0, jf: 0, k: KILL },
        FilterStep { code: LOAD, jt: 0, jf: 0, k: 0 },
    ];
    match machine {
        Machine::X86 => {
            out.push(FilterStep { code: JGE, jt: 0, jf: 1, k: OTHER_CONVENTION });
            out.push(FilterStep { code: RET, jt: 0, jf: 0, k: refusal_of(enosys) });
        },
        Machine::Arm => {},
    }
    let ghost head = filter_head(machine, enosys);
    assert(out@ =~= head);
    let mut i: usize = 0;
    assert(head + filter_refusals(denied@.take(0), eperm) =~= head);
    while i < denied.len()
        invariant
            i <= denied@.len(),
            out@ == head + filter_refusals(denied@.take(i as int), eperm),
        decreases denied@.len() - i,
    {
        let ghost before = filter_refusals(denied@.take(i as int), eperm);
        assert(denied@.take(i + 1).drop_last() =~= denied@.take(i as int));
        assert(denied@.take(i + 1).last() == denied@[i as int]);
        out.push(FilterStep { code: JEQ, jt: 0, jf: 1, k: denied[i] });
        out.push(FilterStep { code: RET, jt: 0, jf: 0, k: refusal_of(eperm) });
        assert(out@ =~= head + filter_refusals(denied@.take(i + 1), eperm));
        i += 1;
    }
    assert(denied@.take(i as int) =~= denied@);
    out.push(FilterStep { code: RET, jt: 0, jf: 0, k: ALLOW });
    assert(out@ =~= mount_filter(machine, denied@, eperm, enosys));
    out
}

proof fn lemma_refusals(denied: Seq<u32>, eperm: u16, k: int)
    requires
        0 <= k < denied.len(),
    ensures
        filter_refusals(denied, eperm).len() == 2 * denied.len(),
        filter_refusals(denied, eperm)[2 * k] == (FilterStep {
            code: JEQ,
            jt: 0,
            jf: 1,
            k: denied[k],
        }),
        filter_refusals(denied, eperm)[2 * k + 1] == (FilterStep {
            code: RET,
            jt: 0,
            jf: 0,
            k: refusal(eperm),
        }),
    decreases denied.len(),
{
    let init = denied.drop_last();
    lemma_refusals_len(init, eperm);
    if k < denied.len() - 1 {
        lemma_refusals(init, eperm, k);
    }
}

proof fn lemma_refusals_len(denied: Seq<u32>, eperm: u16)
    ensures
        filter_refusals(denied, eperm).len() == 2 * denied.len(),
    decreases denied.len(),
{
    if denied.len() > 0 {
        lemma_refusals_len(denied.drop_last(), eperm);
    }
}

proof fn lemma_judged_refusals(
    machine: Machine,
    denied: Seq<u32>,
    eperm: u16,
    enosys: u16,
    call: u32,
    k: int,
)
    requires
        0 <= k <= denied.len(),
    ensures
        judged(
            mount_filter(machine, denied, eperm, enosys),
            filter_head(machine, enosys).len() + 2 * k,
            call,
            machine.number(),
            call,
        ) == Some(
            if denied.skip(k).contains(call) {
                refusal(eperm)
            } else {
                ALLOW
            },
        ),
    decreases denied.len() - k,
{
    let filter = mount_filter(machine, denied, eperm, enosys);
    let head = filter_head(machine, enosys).len();
    lemma_refusals_len(denied, eperm);
    if k == denied.len() {
        assert(filter[head + 2 * k] == (FilterStep { code: RET, jt: 0, jf: 0, k: ALLOW }));
        assert(denied.skip(k).len() == 0);
    } else {
        lemma_refusals(denied, eperm, k);
        assert(filter[head + 2 * k] == filter_refusals(denied, eperm)[2 * k]);
        assert(filter[head + 2 * k + 1] == filter_refusals(denied, eperm)[2 * k + 1]);
        lemma_judged_refusals(machine, denied, eperm, enosys, call, k + 1);
        assert(denied.skip(k)[0] == denied[k]);
        if denied[k] == call {
            assert(denied.skip(k).contains(call));
            assert(judged(filter, head + 2 * k + 1, call, machine.number(), call) == Some(
                refusal(eperm),
            ));
        } else {
            if denied.skip(k).contains(call) {
                let j = choose|j: int| 0 <= j < denied.skip(k).len() && denied.skip(k)[j] == call;
                assert(denied.skip(k + 1)[j - 1] == call);
            }
            if denied.skip(k + 1).contains(call) {
                let rest = denied.skip(k + 1);
                let j = choose|j: int| 0 <= j < rest.len() && rest[j] == call;
                assert(denied.skip(k)[j + 1] == call);
            }
            assert(head + 2 * (k + 1) == head + 2 * k + 2);
        }
    }
}

/// Calls that change mounts are refused, calls of another machine end the
/// process, calls of another convention are unknown, and all others go through.
pub proof fn mount_changes_are_refused(
    machine: Machine,
    denied: Seq<u32>,
    eperm: u16,
    enosys: u16,
    caller: u32,
    call: u32,
)
    ensures
        judged(mount_filter(machine, denied, eperm, enosys), 0, 0, caller, call) == Some(
            if caller != machine.number() {
                KILL
            } else if machine is X86 && call >= OTHER_CONVENTION {
                refusal(enosys)
            } else if denied.contains(call) {
                refusal(eperm)
            } else {
                ALLOW
            },
        ),
{
    let filter = mount_filter(machine, denied, eperm, enosys);
    let head = filter_head(machine, enosys);
    assert(filter[0] == head[0] && filter[1] == head[1] && filter[2] == head[2] && filter[3]
        == head[3]);
    lemma_judged_refusals(machine, denied, eperm, enosys, call, 0);
    assert(denied.skip(0) =~= denied);
    assert(judged(filter, 0, 0, caller, call) == judged(filter, 1, caller, caller, call));
    if caller != machine.number() {
        assert(judged(filter, 2, caller, caller, call) == Some(KILL));
    } else {
        assert(judged(filter, 1, caller, caller, call) == judged(filter, 3, caller, caller, call));
        assert(judged(filter, 3, caller, caller, call) == judged(filter, 4, call, caller, call));
        if machine is X86 {
            assert(filter[4] == head[4] && filter[5] == head[5]);
            assert(head.len() == 6);
            if call >= OTHER_CONVENTION {
                assert(judged(filter, 5, call, caller, call) == Some(refusal(enosys)));
            } else {
                assert(judged(filter, 4, call, caller, call) == judged(
                    filter,
                    6,
                    call,
                    caller,
                    call,
                ));
            }
        } else {
            assert(head.len() == 4);
        }
    }
}

/// The calls that are refused inside an image: those that change mounts, roots
/// or namespaces.
#[derive(Clone, Copy, Debug, PartialEq, Eq, Structural)]
pub enum MountCall {
    Mount,
    Unmount,
    PivotRoot,
    ChangeRoot,
    SetNamespace,
    OpenTree,
    MoveMount,
    OpenFilesystem,
    ConfigureFilesystem,
    MountFilesystem,
    SetMountAttributes,
}

/// The calls that are refused inside an image, in the order of the filter.
pub open spec fn denied() -> Seq<MountCall> {
    seq![
        MountCall::Mount,
        MountCall::Unmount,
        MountCall::PivotRoot,
        MountCall::ChangeRoot,
        MountCall::SetNamespace,
        MountCall::OpenTree,
        MountCall::MoveMount,
        MountCall::OpenFilesystem,
        MountCall::ConfigureFilesystem,
        MountCall::MountFilesystem,
        MountCall::SetMountAttributes,
    ]
}

/// The calls that are refused inside an image, in the order of the filter.
pub fn denied_calls() -> (out: Vec<MountCall>)
    ensures
        out@ == denied(),
{
    let out: Vec<MountCall> = vec![
        MountCall::Mount,
        MountCall::Unmount,
        MountCall::PivotRoot,
        MountCall::ChangeRoot,
        MountCall::SetNamespace,
        MountCall::OpenTree,
        MountCall::MoveMount,
        MountCall::OpenFilesystem,
        MountCall::ConfigureFilesystem,
        MountCall::MountFilesystem,
        MountCall::SetMountAttributes,
    ];
    assert(out@ =~= denied());
    out
}

/// Every call that changes mounts is refused.
pub proof fn every_mount_call_is_denied(call: MountCall)
    ensures
        denied().contains(call),
{
    let i: int = match call {
        MountCall::Mount => 0,
        MountCall::Unmount => 1,
        MountCall::PivotRoot => 2,
        MountCall::ChangeRoot => 3,
        MountCall::SetNamespace => 4,
        MountCall::OpenTree => 5,
        MountCall::MoveMount => 6,
        MountCall::OpenFilesystem => 7,
        MountCall::ConfigureFilesystem => 8,
        MountCall::MountFilesystem => 9,
        MountCall::SetMountAttributes => 10,
    };
    assert(denied()[i] == call);
}

/// Whether a mode is that of a directory.
pub open spec fn directory_mode(mode: Option<u32>) -> bool {
    mode is Some && mode->Some_0 & 0o170000u32 == 0o040000u32
}

/// The first stream that is a directory, by the modes of the streams that are
/// open.
pub open spec fn first_directory(modes: Seq<Option<u32>>) -> Option<int>
    decreases modes.len(),
{
    if modes.len() == 0 {
        None
    } else {
        match first_directory(modes.drop_last()) {
            Some(i) => Some(i),
            None => if directory_mode(modes.last()) {
                Some(modes.len() - 1)
            } else {
                None
            },
        }
    }
}

proof fn lemma_first_directory(modes: Seq<Option<u32>>, i: int)
    requires
        0 <= i <= modes.len(),
        first_directory(modes.take(i)) is Some,
    ensures
        first_directory(modes) == first_directory(modes.take(i)),
    decreases modes.len(),
{
    if i == modes.len() {
        assert(modes.take(i) =~= modes);
    } else {
        assert(modes.drop_last().take(i) =~= modes.take(i));
        lemma_first_directory(modes.drop_last(), i);
    }
}

/// The first standard stream that is a directory, by the modes of the streams
/// that are open.
pub fn directory_stream(modes: &[Option<u32>]) -> (r: Option<usize>)
    ensures
        match r {
            Some(i) => first_directory(modes@) == Some(i as int) && i < modes@.len(),
            None => first_directory(modes@) is None,
        },
{
    let mut i: usize = 0;
    assert(modes@.take(0).len() == 0);
    while i < modes.len()
        invariant
            i <= modes@.len(),
            first_directory(modes@.take(i as int)) is None,
        decreases modes@.len() - i,
    {
        assert(modes@.take(i + 1).drop_last() =~= modes@.take(i as int));
        assert(modes@.take(i + 1).last() == modes@[i as int]);
        let is_directory = match modes[i] {
            Some(mode) => mode & 0o170000u32 == 0o040000u32,
            None => false,
        };
        if is_directory {
            proof {
                lemma_first_directory(modes@, i + 1);
            }
            return Some(i);
        }
        i += 1;
    }
    assert(modes@.take(i as int) =~= modes@);
    None
}

/// Why an image is not entered.
#[derive(Debug)]
pub enum LaunchError {
    /// A standard stream is a directory.
    DirectoryStream(usize),
    /// A name at the top is taken that belongs to the execution.
    Reserved(&'static str),
}

/// Why an image is not entered, its texts as sequences.
pub ghost enum LaunchFault {
    DirectoryStream(int),
    Reserved(Seq<char>),
}

impl LaunchError {
    pub open spec fn fault(self) -> LaunchFault {
        match self {
            LaunchError::DirectoryStream(stream) => LaunchFault::DirectoryStream(stream as int),
            LaunchError::Reserved(name) => LaunchFault::Reserved(name@),
        }
    }

    pub fn to_text(&self) -> (out: String)
        ensures
            out@ == (match self.fault() {
                LaunchFault::DirectoryStream(stream) => "rootfs standard stream "@ + decimal(
                    stream as nat,
                ) + " is a directory"@,
                LaunchFault::Reserved(name) => "reserved rootfs execution path already exists: "@
                    + name,
            }),
    {
        match self {
            LaunchError::DirectoryStream(stream) => {
                let mut out = "rootfs standard stream ".to_owned();
                push_decimal(&mut out, *stream as u64);
                out.append(" is a directory");
                out
            },
            LaunchError::Reserved(name) => {
                "reserved rootfs execution path already exists: ".to_owned().concat(name)
            },
        }
    }
}

/// Why an image is not entered, if it is not: a standard stream that is a
/// directory would lead out of it, and then no reserved name may be taken.
pub open spec fn launch_fault(modes: Seq<Option<u32>>, taken: Seq<Seq<char>>) -> Option<LaunchFault> {
    match first_directory(modes) {
        Some(stream) => Some(LaunchFault::DirectoryStream(stream)),
        None => match first_taken(reserved_names(), taken) {
            Some(name) => Some(LaunchFault::Reserved(name)),
            None => None,
        },
    }
}

/// Checks, before an image is entered, the standard streams by their modes and
/// the names that are taken at its top.
pub fn refuse_launch(streams: &[Option<u32>], taken: &[String]) -> (r: Result<(), LaunchError>)
    ensures
        match r {
            Ok(_) => launch_fault(streams@, views(taken@)) is None,
            Err(error) => launch_fault(streams@, views(taken@)) == Some(error.fault()),
        },
{
    match directory_stream(streams) {
        Some(stream) => {
            return Err(LaunchError::DirectoryStream(stream));
        },
        None => {},
    }
    match reserved_and_taken(taken) {
        Some(name) => Err(LaunchError::Reserved(name)),
        None => Ok(()),
    }
}

/// The names at the top of an image that belong to its execution.
pub open spec fn reserved_names() -> Seq<Seq<char>> {
    seq![".ostadix"@, ".old-root"@, "proc"@, "dev"@, "tmp"@, "work"@, "run"@]
}

/// The names at the top of an image that belong to its execution.
pub fn reserved_paths() -> (out: Vec<&'static str>)
    ensures
        out@.map_values(|s: &'static str| s@) == reserved_names(),
{
    let out: Vec<&'static str> = vec![".ostadix", ".old-root", "proc", "dev", "tmp", "work", "run"];
    assert(out@.map_values(|s: &'static str| s@) =~= reserved_names());
    out
}

/// Something done to an image before it is entered.
#[derive(Debug)]
pub enum RootAction {
    /// Makes a directory that is not there yet.
    MakeDirectory(String),
    /// Copies the running program to a path and makes it executable.
    CopyRunner(String),
    /// Writes a text to a path.
    WriteText(String, String),
    /// Makes a link at a path, to a target.
    Link(String, String),
}

/// Something done to an image, its texts as sequences.
pub ghost enum RootDeed {
    MakeDirectory(Seq<char>),
    CopyRunner(Seq<char>),
    WriteText(Seq<char>, Seq<char>),
    Link(Seq<char>, Seq<char>),
}

impl View for RootAction {
    type V = RootDeed;

    open spec fn view(&self) -> RootDeed {
        match self {
            RootAction::MakeDirectory(path) => RootDeed::MakeDirectory(path@),
            RootAction::CopyRunner(path) => RootDeed::CopyRunner(path@),
            RootAction::WriteText(path, text) => RootDeed::WriteText(path@, text@),
            RootAction::Link(path, target) => RootDeed::Link(path@, target@),
        }
    }
}

pub open spec fn deeds(list: Seq<RootAction>) -> Seq<RootDeed> {
    list.map_values(|a: RootAction| a@)
}

/// What is done to an image before it is entered.
pub open spec fn preparation(root: Seq<char>, image: Seq<char>) -> Seq<RootDeed> {
    seq![
        RootDeed::MakeDirectory(joined_path(root, ".ostadix"@)),
        RootDeed::MakeDirectory(joined_path(root, ".old-root"@)),
        RootDeed::MakeDirectory(joined_path(root, "proc"@)),
        RootDeed::MakeDirectory(joined_path(root, "dev"@)),
        RootDeed::MakeDirectory(joined_path(root, "tmp"@)),
        RootDeed::MakeDirectory(joined_path(root, "work"@)),
        RootDeed::MakeDirectory(joined_path(root, "run"@)),
        RootDeed::CopyRunner(joined_path(root, ".ostadix/runner"@)),
        RootDeed::WriteText(joined_path(root, ".ostadix/image.sha256"@), image),
        RootDeed::WriteText(joined_path(root, "dev/null"@), ""@),
        RootDeed::WriteText(joined_path(root, "dev/zero"@), ""@),
        RootDeed::WriteText(joined_path(root, "dev/random"@), ""@),
        RootDeed::WriteText(joined_path(root, "dev/urandom"@), ""@),
        RootDeed::Link(joined_path(root, "dev/fd"@), "/proc/self/fd"@),
        RootDeed::Link(joined_path(root, "dev/stdin"@), "/proc/self/fd/0"@),
        RootDeed::Link(joined_path(root, "dev/stdout"@), "/proc/self/fd/1"@),
        RootDeed::Link(joined_path(root, "dev/stderr"@), "/proc/self/fd/2"@),
        RootDeed::MakeDirectory(joined_path(root, "dev/shm"@)),
    ]
}

/// What is done to an image before it is entered.
pub fn prepare_root(root: &str, image: &str) -> (out: Vec<RootAction>)
    ensures
        deeds(out@) == preparation(root@, image@),
{
    let out: Vec<RootAction> = vec![
        RootAction::MakeDirectory(join_path(root, ".ostadix")),
        RootAction::MakeDirectory(join_path(root, ".old-root")),
        RootAction::MakeDirectory(join_path(root, "proc")),
        RootAction::MakeDirectory(join_path(root, "dev")),
        RootAction::MakeDirectory(join_path(root, "tmp")),
        RootAction::MakeDirectory(join_path(root, "work")),
        RootAction::MakeDirectory(join_path(root, "run")),
        RootAction::CopyRunner(join_path(root, ".ostadix/runner")),
        RootAction::WriteText(join_path(root, ".ostadix/image.sha256"), image.to_owned()),
        RootAction::WriteText(join_path(root, "dev/null"), "".to_owned()),
        RootAction::WriteText(join_path(root, "dev/zero"), "".to_owned()),
        RootAction::WriteText(join_path(root, "dev/random"), "".to_owned()),
        RootAction::WriteText(join_path(root, "dev/urandom"), "".to_owned()),
        RootAction::Link(join_path(root, "dev/fd"), "/proc/self/fd".to_owned()),
        RootAction::Link(join_path(root, "dev/stdin"), "/proc/self/fd/0".to_owned()),
        RootAction::Link(join_path(root, "dev/stdout"), "/proc/self/fd/1".to_owned()),
        RootAction::Link(join_path(root, "dev/stderr"), "/proc/self/fd/2".to_owned()),
        RootAction::MakeDirectory(join_path(root, "dev/shm")),
    ];
    assert(deeds(out@) =~= preparation(root@, image@));
    out
}

/// The whole environment of the program inside an image.
pub open spec fn image_environment(image: Seq<char>) -> Seq<(Seq<char>, Seq<char>)> {
    seq![
        (ACTIVE_ENV@, image),
        ("PATH"@, "/bin"@),
        ("HOME"@, "/work"@),
        ("TMPDIR"@, "/tmp"@),
        ("XDG_CACHE_HOME"@, "/work/.cache"@),
        ("LANG"@, "C.UTF-8"@),
        ("TZ"@, "UTC"@),
    ]
}

pub open spec fn pair_views(list: Seq<(String, String)>) -> Seq<(Seq<char>, Seq<char>)> {
    list.map_values(|p: (String, String)| (p.0@, p.1@))
}

/// The whole environment of the program inside an image: nothing of the
/// caller's is left.
pub fn child_environment(image: &str) -> (out: Vec<(String, String)>)
    ensures
        pair_views(out@) == image_environment(image@),
{
    let out: Vec<(String, String)> = vec![
        (ACTIVE_ENV.to_owned(), image.to_owned()),
        ("PATH".to_owned(), "/bin".to_owned()),
        ("HOME".to_owned(), "/work".to_owned()),
        ("TMPDIR".to_owned(), "/tmp".to_owned()),
        ("XDG_CACHE_HOME".to_owned(), "/work/.cache".to_owned()),
        ("LANG".to_owned(), "C.UTF-8".to_owned()),
        ("TZ".to_owned(), "UTC".to_owned()),
    ];
    assert(pair_views(out@) =~= image_environment(image@));
    out
}

/// The map of one identity to number 0.
pub open spec fn identity_map_text(id: u32) -> Seq<char> {
    "0 "@ + decimal(id as nat) + " 1\n"@
}

/// The map of one identity to number 0.
pub fn identity_map(id: u32) -> (out: String)
    ensures
        out@ == identity_map_text(id),
{
    let mut out = "0 ".to_owned();
    push_decimal(&mut out, id as u64);
    out.append(" 1\n");
    out
}

/// How something is mounted.
#[derive(Clone, Copy, Debug, PartialEq, Eq, Structural)]
pub struct MountFlags {
    pub recursive: bool,
    pub private: bool,
    pub bind: bool,
    pub remount: bool,
    pub read_only: bool,
    pub no_setuid: bool,
    pub no_devices: bool,
    pub no_exec: bool,
}

/// A plain mount.
pub open spec fn no_flags() -> MountFlags {
    MountFlags {
        recursive: false,
        private: false,
        bind: false,
        remount: false,
        read_only: false,
        no_setuid: false,
        no_devices: false,
        no_exec: false,
    }
}

/// Something mounted.
#[derive(Debug)]
pub struct Mount {
    pub source: Option<String>,
    pub target: String,
    pub kind: Option<&'static str>,
    pub flags: MountFlags,
    pub data: Option<&'static str>,
}

/// Something mounted, its texts as sequences.
pub ghost struct MountFact {
    pub source: Option<Seq<char>>,
    pub target: Seq<char>,
    pub kind: Option<Seq<char>>,
    pub flags: MountFlags,
    pub data: Option<Seq<char>>,
}

pub open spec fn static_view(text: Option<&'static str>) -> Option<Seq<char>> {
    match text {
        Some(text) => Some(text@),
        None => None,
    }
}

impl View for Mount {
    type V = MountFact;

    open spec fn view(&self) -> MountFact {
        MountFact {
            source: crate::text::shown_as(self.source),
            target: self.target@,
            kind: static_view(self.kind),
            flags: self.flags,
            data: static_view(self.data),
        }
    }
}

pub open spec fn mount_facts(list: Seq<Mount>) -> Seq<MountFact> {
    list.map_values(|m: Mount| m@)
}

/// Memory that is open to all and forgotten at the end.
pub open spec fn scratch_mount(target: Seq<char>) -> MountFact {
    MountFact {
        source: Some("tmpfs"@),
        target,
        kind: Some("tmpfs"@),
        flags: MountFlags { no_setuid: true, no_devices: true, ..no_flags() },
        data: Some("mode=1777"@),
    }
}

/// A device of the caller's.
pub open spec fn device_mount(device: Seq<char>, root: Seq<char>) -> MountFact {
    MountFact {
        source: Some("/dev/"@ + device),
        target: joined_path(root, "dev/"@ + device),
        kind: None,
        flags: MountFlags { bind: true, ..no_flags() },
        data: None,
    }
}

/// What is mounted before the root is changed, in this order.
pub open spec fn mounts_before_pivot(root: Seq<char>) -> Seq<MountFact> {
    seq![
        MountFact {
            source: None,
            target: "/"@,
            kind: None,
            flags: MountFlags { recursive: true, private: true, ..no_flags() },
            data: None,
        },
        MountFact {
            source: Some(root),
            target: root,
            kind: None,
            flags: MountFlags { bind: true, recursive: true, ..no_flags() },
            data: None,
        },
        scratch_mount(joined_path(root, "tmp"@)),
        scratch_mount(joined_path(root, "work"@)),
        scratch_mount(joined_path(root, "run"@)),
        scratch_mount(joined_path(root, "dev/shm"@)),
        device_mount("null"@, root),
        device_mount("zero"@, root),
        device_mount("random"@, root),
        device_mount("urandom"@, root),
        MountFact {
            source: Some("proc"@),
            target: joined_path(root, "proc"@),
            kind: Some("proc"@),
            flags: MountFlags {
                no_setuid: true,
                no_devices: true,
                no_exec: true,
                read_only: true,
                ..no_flags()
            },
            data: None,
        },
    ]
}

/// How the root is mounted once it has been changed.
pub open spec fn mount_after_pivot() -> MountFact {
    MountFact {
        source: None,
        target: "/"@,
        kind: None,
        flags: MountFlags {
            remount: true,
            bind: true,
            read_only: true,
            no_setuid: true,
            no_devices: true,
            ..no_flags()
        },
        data: None,
    }
}

fn scratch(target: String) -> (m: Mount)
    ensures
        m@ == scratch_mount(target@),
{
    let flags = MountFlags {
        recursive: false,
        private: false,
        bind: false,
        remount: false,
        read_only: false,
        no_setuid: true,
        no_devices: true,
        no_exec: false,
    };
    Mount {
        source: Some("tmpfs".to_owned()),
        target,
        kind: Some("tmpfs"),
        flags,
        data: Some("mode=1777"),
    }
}

fn device(name: &str, root: &str) -> (m: Mount)
    ensures
        m@ == device_mount(name@, root@),
{
    let flags = MountFlags {
        recursive: false,
        private: false,
        bind: true,
        remount: false,
        read_only: false,
        no_setuid: false,
        no_devices: false,
        no_exec: false,
    };
    Mount {
        source: Some("/dev/".to_owned().concat(name)),
        target: join_path(root, "dev/".to_owned().concat(name).as_str()),
        kind: None,
        flags,
        data: None,
    }
}

/// What is mounted before the root is changed, in this order.
pub fn mounts_first(root: &str) -> (out: Vec<Mount>)
    ensures
        mount_facts(out@) == mounts_before_pivot(root@),
{
    let own = Mount {
        source: None,
        target: "/".to_owned(),
        kind: None,
        flags: MountFlags {
            recursive: true,
            private: true,
            bind: false,
            remount: false,
            read_only: false,
            no_setuid: false,
            no_devices: false,
            no_exec: false,
        },
        data: None,
    };
    let bound = Mount {
        source: Some(root.to_owned()),
        target: root.to_owned(),
        kind: None,
        flags: MountFlags {
            recursive: true,
            private: false,
            bind: true,
            remount: false,
            read_only: false,
            no_setuid: false,
            no_devices: false,
            no_exec: false,
        },
        data: None,
    };
    let processes = Mount {
        source: Some("proc".to_owned()),
        target: join_path(root, "proc"),
        kind: Some("proc"),
        flags: MountFlags {
            recursive: false,
            private: false,
            bind: false,
            remount: false,
            read_only: true,
            no_setuid: true,
            no_devices: true,
            no_exec: true,
        },
        data: None,
    };
    let out: Vec<Mount> = vec![
        own,
        bound,
        scratch(join_path(root, "tmp")),
        scratch(join_path(root, "work")),
        scratch(join_path(root, "run")),
        scratch(join_path(root, "dev/shm")),
        device("null", root),
        device("zero", root),
        device("random", root),
        device("urandom", root),
        processes,
    ];
    assert(mount_facts(out@) =~= mounts_before_pivot(root@));
    out
}

/// How the root is mounted once it has been changed.
pub fn mount_last() -> (m: Mount)
    ensures
        m@ == mount_after_pivot(),
{
    Mount {
        source: None,
        target: "/".to_owned(),
        kind: None,
        flags: MountFlags {
            recursive: false,
            private: false,
            bind: true,
            remount: true,
            read_only: true,
            no_setuid: true,
            no_devices: true,
            no_exec: false,
        },
        data: None,
    }
}

/// A step on the way into an image.
#[derive(Clone, Copy, Debug, PartialEq, Eq, Structural)]
pub enum EntryStep {
    /// Dies when its parent does.
    DieWithParent,
    /// Makes sure that the caller is still its parent.
    CheckCaller,
    /// Enters a user namespace of its own.
    OwnUsers,
    /// Gives up changing groups.
    DenyGroups,
    /// Maps the caller's user and group to number 0.
    MapUser,
    MapGroup,
    /// Enters namespaces of its own for mounts, processes, networks, messages
    /// and names.
    OwnNamespaces,
    NameHost,
    /// Becomes the first process of the namespace; the caller waits.
    ForkInit,
    /// Makes sure that the caller is still waiting.
    CheckWaiting,
    /// Mounts what is mounted before the root is changed.
    MountFirst,
    /// Brings up the network that leads nowhere.
    RaiseLoopback,
    EnterRoot,
    ChangeRoot,
    EnterTop,
    DetachOldRoot,
    RemoveOldRoot,
    /// Makes the root read-only.
    SealRoot,
    EnterWork,
    /// Gives up gaining privileges.
    NoNewPrivileges,
    /// Gives up the capabilities that it could still gain.
    DropBounds,
    /// Gives up the capabilities that it has.
    DropCapabilities,
    InstallFilter,
    BlockSignals,
    ForwardSignals,
    /// Becomes the program; the first process waits.
    ForkRunner,
    /// Makes sure that the first process is its parent.
    CheckFirst,
    RestoreSignals,
    /// Leaves nothing open but the standard streams.
    CloseOnExec,
}

/// The steps into an image, in order.
pub open spec fn entry_sequence() -> Seq<EntryStep> {
    seq![
        EntryStep::DieWithParent,
        EntryStep::CheckCaller,
        EntryStep::OwnUsers,
        EntryStep::DenyGroups,
        EntryStep::MapUser,
        EntryStep::MapGroup,
        EntryStep::OwnNamespaces,
        EntryStep::NameHost,
        EntryStep::ForkInit,
        EntryStep::DieWithParent,
        EntryStep::CheckWaiting,
        EntryStep::MountFirst,
        EntryStep::RaiseLoopback,
        EntryStep::EnterRoot,
        EntryStep::ChangeRoot,
        EntryStep::EnterTop,
        EntryStep::DetachOldRoot,
        EntryStep::RemoveOldRoot,
        EntryStep::SealRoot,
        EntryStep::EnterWork,
        EntryStep::NoNewPrivileges,
        EntryStep::DropBounds,
        EntryStep::DropCapabilities,
        EntryStep::InstallFilter,
        EntryStep::BlockSignals,
        EntryStep::ForwardSignals,
        EntryStep::ForkRunner,
        EntryStep::DieWithParent,
        EntryStep::CheckFirst,
        EntryStep::RestoreSignals,
        EntryStep::CloseOnExec,
    ]
}

/// The steps into an image, in order.
pub fn entry_steps() -> (out: Vec<EntryStep>)
    ensures
        out@ == entry_sequence(),
{
    let out: Vec<EntryStep> = vec![
        EntryStep::DieWithParent,
        EntryStep::CheckCaller,
        EntryStep::OwnUsers,
        EntryStep::DenyGroups,
        EntryStep::MapUser,
        EntryStep::MapGroup,
        EntryStep::OwnNamespaces,
        EntryStep::NameHost,
        EntryStep::ForkInit,
        EntryStep::DieWithParent,
        EntryStep::CheckWaiting,
        EntryStep::MountFirst,
        EntryStep::RaiseLoopback,
        EntryStep::EnterRoot,
        EntryStep::ChangeRoot,
        EntryStep::EnterTop,
        EntryStep::DetachOldRoot,
        EntryStep::RemoveOldRoot,
        EntryStep::SealRoot,
        EntryStep::EnterWork,
        EntryStep::NoNewPrivileges,
        EntryStep::DropBounds,
        EntryStep::DropCapabilities,
        EntryStep::InstallFilter,
        EntryStep::BlockSignals,
        EntryStep::ForwardSignals,
        EntryStep::ForkRunner,
        EntryStep::DieWithParent,
        EntryStep::CheckFirst,
        EntryStep::RestoreSignals,
        EntryStep::CloseOnExec,
    ];
    assert(out@ =~= entry_sequence());
    out
}

/// Whether a step closes the image off.
pub open spec fn closes(step: EntryStep) -> bool {
    step is OwnUsers || step is OwnNamespaces || step is ChangeRoot || step is DetachOldRoot || step
        is SealRoot || step is NoNewPrivileges || step is DropBounds || step is DropCapabilities
        || step is InstallFilter
}

/// Every step that closes the image off is taken before the program exists.
pub proof fn the_program_starts_inside(i: int, j: int)
    requires
        0 <= i < entry_sequence().len(),
        0 <= j < entry_sequence().len(),
        closes(entry_sequence()[i]),
        entry_sequence()[j] is ForkRunner,
    ensures
        i < j,
{
}

/// What the first process of an image waits for.
#[derive(Clone, Copy, Debug, PartialEq, Eq, Structural)]
pub enum InitPhase {
    /// The program.
    Running,
    /// All others, now that the program has ended.
    Draining { status: i32 },
    /// Nothing: the program's status is handed on.
    Reporting { status: i32 },
    /// Nothing: waiting failed.
    Failed,
}

/// What waiting brought.
#[derive(Clone, Copy, Debug, PartialEq, Eq, Structural)]
pub enum WaitEvent {
    Ended { process: i32, status: i32 },
    Interrupted,
    NoProcesses,
    Failed,
}

/// The phase after waiting. The rest of the processes are to be killed where
/// `Running` turns into `Draining`.
pub open spec fn init_after(program: i32, phase: InitPhase, event: WaitEvent) -> InitPhase {
    match phase {
        InitPhase::Running => match event {
            WaitEvent::Ended { process, status } => if process == program {
                InitPhase::Draining { status }
            } else {
                InitPhase::Running
            },
            WaitEvent::Interrupted => InitPhase::Running,
            WaitEvent::NoProcesses => InitPhase::Failed,
            WaitEvent::Failed => InitPhase::Failed,
        },
        InitPhase::Draining { status } => match event {
            WaitEvent::Ended { .. } => phase,
            WaitEvent::Interrupted => phase,
            WaitEvent::NoProcesses => InitPhase::Reporting { status },
            WaitEvent::Failed => InitPhase::Failed,
        },
        InitPhase::Reporting { .. } => phase,
        InitPhase::Failed => phase,
    }
}

/// The phase after waiting.
pub fn init_next(program: i32, phase: InitPhase, event: WaitEvent) -> (next: InitPhase)
    ensures
        next == init_after(program, phase, event),
{
    match phase {
        InitPhase::Running => match event {
            WaitEvent::Ended { process, status } => if process == program {
                InitPhase::Draining { status }
            } else {
                InitPhase::Running
            },
            WaitEvent::Interrupted => InitPhase::Running,
            WaitEvent::NoProcesses => InitPhase::Failed,
            WaitEvent::Failed => InitPhase::Failed,
        },
        InitPhase::Draining { status } => match event {
            WaitEvent::Ended { process: _, status: _ } => phase,
            WaitEvent::Interrupted => phase,
            WaitEvent::NoProcesses => InitPhase::Reporting { status },
            WaitEvent::Failed => InitPhase::Failed,
        },
        InitPhase::Reporting { status: _ } => phase,
        InitPhase::Failed => phase,
    }
}

/// The phase after some events.
pub open spec fn init_run(program: i32, events: Seq<WaitEvent>) -> InitPhase
    decreases events.len(),
{
    if events.len() == 0 {
        InitPhase::Running
    } else {
        init_after(program, init_run(program, events.drop_last()), events.last())
    }
}

/// The status that is handed on is the one that the program itself ended with,
/// whatever else ended before or after it.
pub proof fn the_programs_status_is_reported(program: i32, events: Seq<WaitEvent>)
    ensures
        match init_run(program, events) {
            InitPhase::Draining { status } => events.contains(
                WaitEvent::Ended { process: program, status },
            ),
            InitPhase::Reporting { status } => events.contains(
                WaitEvent::Ended { process: program, status },
            ) && events.contains(WaitEvent::NoProcesses),
            _ => true,
        },
    decreases events.len(),
{
    if events.len() > 0 {
        let before = events.drop_last();
        the_programs_status_is_reported(program, before);
        assert(events.last() == events[events.len() - 1]);
        assert forall|e: WaitEvent| before.contains(e) implies events.contains(e) by {
            let k = choose|k: int| 0 <= k < before.len() && before[k] == e;
            assert(events[k] == e);
        }
    }
}

/// How far a transfer has come.
#[derive(Clone, Copy, Debug, PartialEq, Eq, Structural)]
pub enum Transfer {
    /// So much is done, and more is to do.
    More(usize),
    Done,
    Failed,
}

/// How far a transfer has come after an attempt: an interrupted one is made
/// again, one that moved nothing has failed.
pub fn after_attempt(done: usize, length: usize, count: i64, interrupted: bool) -> (r: Transfer)
    requires
        done < length,
        count <= length - done,
    ensures
        r == (if count < 0 && interrupted {
            Transfer::More(done)
        } else if count <= 0 {
            Transfer::Failed
        } else if done + count == length {
            Transfer::Done
        } else {
            Transfer::More((done + count) as usize)
        }),
{
    if count < 0 && interrupted {
        Transfer::More(done)
    } else if count <= 0 {
        Transfer::Failed
    } else {
        let now: usize = done + count as usize;
        if now == length {
            Transfer::Done
        } else {
            Transfer::More(now)
        }
    }
}

/// How a process ended.
#[derive(Clone, Copy, Debug, PartialEq, Eq, Structural)]
pub enum Ending {
    /// By a signal; where that cannot be repeated, with this code.
    Signal { signal: u32, code: u32 },
    Code { code: u32 },
}

/// How a process ended, by the status that waiting for it gave.
pub open spec fn ending_of(status: u32) -> Ending {
    let signal = status % 128;
    if signal != 0 && signal != 127 {
        Ending::Signal { signal: signal as u32, code: (128 + signal) as u32 }
    } else {
        Ending::Code { code: (status / 256 % 256) as u32 }
    }
}

/// How a process ended, by its own status or by the one that it handed on.
pub fn outcome(own: u32, received: Option<u32>) -> (r: Ending)
    ensures
        r == ending_of(
            match received {
                Some(status) => status,
                None => own,
            },
        ),
{
    let status: u32 = match received {
        Some(status) => status,
        None => own,
    };
    let signal: u32 = status % 128;
    if signal != 0 && signal != 127 {
        Ending::Signal { signal, code: 128 + signal }
    } else {
        Ending::Code { code: status / 256 % 256 }
    }
}

/// How to end like a process that ended with a code or by a signal.
pub fn exit_like(code: Option<i32>, signal: Option<i32>) -> (r: (Option<i32>, i32))
    requires
        signal is Some ==> signal->Some_0 <= i32::MAX - 128,
    ensures
        r.0 == signal,
        r.1 == (match signal {
            Some(n) => 128 + n,
            None => match code {
                Some(n) => n as int,
                None => 125,
            },
        }),
{
    match signal {
        Some(n) => (Some(n), 128 + n),
        None => (
            None,
            match code {
                Some(n) => n,
                None => 125,
            },
        ),
    }
}

/// Whether a number lies in one of several ranges.
pub open spec fn in_ranges(ranges: Seq<(u32, u32)>, d: u32) -> bool {
    exists|i: int| 0 <= i < ranges.len() && (#[trigger] ranges[i]).0 <= d <= ranges[i].1
}

/// Whether a descriptor is one of those to keep.
pub open spec fn is_kept(kept: Seq<i32>, d: u32) -> bool {
    exists|i: int| 0 <= i < kept.len() && #[trigger] kept[i] == d
}

/// The ranges of descriptors to close: all but the standard streams and those
/// to keep, which are given in ascending order.
pub fn ranges_to_close(kept: &[i32]) -> (out: Vec<(u32, u32)>)
    requires
        forall|i: int, j: int| 0 <= i < j < kept@.len() ==> kept@[i] < kept@[j],
    ensures
        forall|d: u32| in_ranges(out@, d) <==> (3 <= d && !is_kept(kept@, d)),
        forall|i: int| 0 <= i < out@.len() ==> (#[trigger] out@[i]).0 <= out@[i].1,
{
    let mut out: Vec<(u32, u32)> = Vec::new();
    let mut first: u32 = 3;
    let mut i: usize = 0;
    while i < kept.len()
        invariant
            i <= kept@.len(),
            3 <= first,
            first <= 0x8000_0000,
            forall|a: int, b: int| 0 <= a < b < kept@.len() ==> kept@[a] < kept@[b],
            forall|k: int| i <= k < kept@.len() ==> first <= kept@[k] || kept@[k] < 3,
            forall|k: int| 0 <= k < i ==> (#[trigger] kept@[k]) < first,
            forall|d: u32| in_ranges(out@, d) <==> (3 <= d < first && !is_kept(kept@, d)),
            forall|k: int| 0 <= k < out@.len() ==> (#[trigger] out@[k]).0 <= out@[k].1,
        decreases kept@.len() - i,
    {
        let signed: i32 = kept[i];
        if signed >= 3 {
            let descriptor: u32 = signed as u32;
            assert(first <= descriptor);
            let ghost before = out@;
            let ghost was: u32 = first;
            if first < descriptor {
                out.push((first, descriptor - 1));
            }
            first = descriptor + 1;
            proof {
                assert forall|d: u32| in_ranges(out@, d) <==> (3 <= d < first && !is_kept(kept@, d)) by {
                    if in_ranges(out@, d) {
                        let k = choose|k: int|
                            0 <= k < out@.len() && (#[trigger] out@[k]).0 <= d <= out@[k].1;
                        if k < before.len() {
                            assert(before[k] == out@[k]);
                            assert(in_ranges(before, d));
                        } else {
                            assert(was <= d <= descriptor - 1);
                            if is_kept(kept@, d) {
                                let m = choose|m: int|
                                    0 <= m < kept@.len() && #[trigger] kept@[m] == d;
                                if m < i {
                                    assert(kept@[m] < was);
                                } else if m > i {
                                    assert(kept@[i as int] < kept@[m]);
                                }
                            }
                        }
                    }
                    if 3 <= d < first && !is_kept(kept@, d) {
                        if d < was {
                            assert(in_ranges(before, d));
                            let k = choose|k: int|
                                0 <= k < before.len() && (#[trigger] before[k]).0 <= d
                                    <= before[k].1;
                            assert(out@[k] == before[k]);
                        } else {
                            assert(d != descriptor) by {
                                if d == descriptor {
                                    assert(kept@[i as int] == d);
                                }
                            }
                            assert(out@[out@.len() - 1] == (was, (descriptor - 1) as u32));
                        }
                    }
                }
                assert forall|k: int| i < k < kept@.len() implies first <= kept@[k] || kept@[k] < 3 by {
                    assert(kept@[i as int] < kept@[k]);
                }
            }
        }
        i += 1;
    }
    let ghost before = out@;
    out.push((first, u32::MAX));
    proof {
        assert forall|d: u32| in_ranges(out@, d) <==> (3 <= d && !is_kept(kept@, d)) by {
            if in_ranges(out@, d) {
                let k = choose|k: int|
                    0 <= k < out@.len() && (#[trigger] out@[k]).0 <= d <= out@[k].1;
                if k < before.len() {
                    assert(before[k] == out@[k]);
                    assert(in_ranges(before, d));
                } else if is_kept(kept@, d) {
                    let m = choose|m: int| 0 <= m < kept@.len() && #[trigger] kept@[m] == d;
                    assert(kept@[m] < first);
                }
            }
            if 3 <= d && !is_kept(kept@, d) {
                if d < first {
                    assert(in_ranges(before, d));
                    let k = choose|k: int|
                        0 <= k < before.len() && (#[trigger] before[k]).0 <= d <= before[k].1;
                    assert(out@[k] == before[k]);
                } else {
                    assert(out@[out@.len() - 1] == (first, u32::MAX));
                }
            }
        }
    }
    out
}

} // verus!
