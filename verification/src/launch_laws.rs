//! What holds of the way into an image: what is laid out, mounted and handed on.

use vstd::prelude::*;

use crate::launch::{
    ending_of, entry_sequence, identity_map_text, image_environment, mount_after_pivot,
    mounts_before_pivot, preparation, reserved_names, Ending, EntryStep, MountFact, RootDeed,
};
use crate::paths::joined_path;
use crate::text::decimal;
use crate::text_laws::occurs;

verus! {

/// Every directory that belongs to the execution of an image is made in it.
pub proof fn reserved_directories_are_made(root: Seq<char>, image: Seq<char>, k: int)
    requires
        0 <= k < reserved_names().len(),
    ensures
        preparation(root, image).contains(
            RootDeed::MakeDirectory(joined_path(root, reserved_names()[k])),
        ),
{
    let list = preparation(root, image);
    assert(list[k] == RootDeed::MakeDirectory(joined_path(root, reserved_names()[k])));
}

/// The directories at the top come first: nothing else is laid out before them.
pub proof fn images_are_laid_out_in_order(root: Seq<char>, image: Seq<char>, i: int)
    requires
        0 <= i < preparation(root, image).len(),
    ensures
        i < reserved_names().len() ==> preparation(root, image)[i] == RootDeed::MakeDirectory(
            joined_path(root, reserved_names()[i]),
        ),
{
}

/// The image carries the program that runs it, and its own identity.
pub proof fn images_carry_their_runner(root: Seq<char>, image: Seq<char>)
    ensures
        preparation(root, image).contains(
            RootDeed::CopyRunner(joined_path(root, ".ostadix/runner"@)),
        ),
        preparation(root, image).contains(
            RootDeed::WriteText(joined_path(root, ".ostadix/image.sha256"@), image),
        ),
{
    let list = preparation(root, image);
    assert(list[7] == RootDeed::CopyRunner(joined_path(root, ".ostadix/runner"@)));
    assert(list[8] == RootDeed::WriteText(joined_path(root, ".ostadix/image.sha256"@), image));
}

/// The devices of an image.
pub open spec fn device(name: Seq<char>) -> bool {
    name == "null"@ || name == "zero"@ || name == "random"@ || name == "urandom"@
}

proof fn lemma_device_paths()
    ensures
        "dev/"@ + "null"@ == "dev/null"@,
        "dev/"@ + "zero"@ == "dev/zero"@,
        "dev/"@ + "random"@ == "dev/random"@,
        "dev/"@ + "urandom"@ == "dev/urandom"@,
{
    reveal_strlit("dev/");
    reveal_strlit("null");
    reveal_strlit("zero");
    reveal_strlit("random");
    reveal_strlit("urandom");
    reveal_strlit("dev/null");
    reveal_strlit("dev/zero");
    reveal_strlit("dev/random");
    reveal_strlit("dev/urandom");
    assert("dev/"@ + "null"@ =~= "dev/null"@);
    assert("dev/"@ + "zero"@ =~= "dev/zero"@);
    assert("dev/"@ + "random"@ =~= "dev/random"@);
    assert("dev/"@ + "urandom"@ =~= "dev/urandom"@);
}

/// Every device of an image is the caller's device of the same name, mounted onto
/// an empty file that was laid out for it.
pub proof fn devices_are_the_callers(root: Seq<char>, image: Seq<char>, name: Seq<char>)
    requires
        device(name),
    ensures
        preparation(root, image).contains(
            RootDeed::WriteText(joined_path(root, "dev/"@ + name), ""@),
        ),
        exists|i: int|
            0 <= i < mounts_before_pivot(root).len() && {
                let m = #[trigger] mounts_before_pivot(root)[i];
                &&& m.source == Some("/dev/"@ + name)
                &&& m.target == joined_path(root, "dev/"@ + name)
                &&& m.flags.bind
                &&& !m.flags.recursive
                &&& !m.flags.remount
            },
{
    lemma_device_paths();
    let list = preparation(root, image);
    let mounts = mounts_before_pivot(root);
    let at = if name == "null"@ {
        0int
    } else if name == "zero"@ {
        1
    } else if name == "random"@ {
        2
    } else {
        3
    };
    assert(list[9 + at] == RootDeed::WriteText(joined_path(root, "dev/"@ + name), ""@));
    assert(mounts[6 + at].source == Some("/dev/"@ + name));
}

/// The standard streams of an image are those of the process that asks for them.
pub proof fn streams_are_the_processes_own(root: Seq<char>, image: Seq<char>)
    ensures
        preparation(root, image).contains(
            RootDeed::Link(joined_path(root, "dev/fd"@), "/proc/self/fd"@),
        ),
        preparation(root, image).contains(
            RootDeed::Link(joined_path(root, "dev/stdin"@), "/proc/self/fd/"@ + decimal(0)),
        ),
        preparation(root, image).contains(
            RootDeed::Link(joined_path(root, "dev/stdout"@), "/proc/self/fd/"@ + decimal(1)),
        ),
        preparation(root, image).contains(
            RootDeed::Link(joined_path(root, "dev/stderr"@), "/proc/self/fd/"@ + decimal(2)),
        ),
{
    reveal_strlit("/proc/self/fd/");
    reveal_strlit("/proc/self/fd/0");
    reveal_strlit("/proc/self/fd/1");
    reveal_strlit("/proc/self/fd/2");
    assert("/proc/self/fd/"@ + decimal(0) =~= "/proc/self/fd/0"@);
    assert("/proc/self/fd/"@ + decimal(1) =~= "/proc/self/fd/1"@);
    assert("/proc/self/fd/"@ + decimal(2) =~= "/proc/self/fd/2"@);
    let list = preparation(root, image);
    assert(list[13] == RootDeed::Link(joined_path(root, "dev/fd"@), "/proc/self/fd"@));
    assert(list[14] == RootDeed::Link(joined_path(root, "dev/stdin"@), "/proc/self/fd/0"@));
    assert(list[15] == RootDeed::Link(joined_path(root, "dev/stdout"@), "/proc/self/fd/1"@));
    assert(list[16] == RootDeed::Link(joined_path(root, "dev/stderr"@), "/proc/self/fd/2"@));
}

/// Whether a directory of an image is there to be written to.
pub open spec fn writable(name: Seq<char>) -> bool {
    name == "tmp"@ || name == "work"@ || name == "run"@ || name == "dev/shm"@
}

/// What is mounted for a program to write to is memory of its own, with no devices
/// and no way to other rights, on a directory that was made for it.
pub proof fn writable_places_are_forgotten(root: Seq<char>, image: Seq<char>, name: Seq<char>)
    requires
        writable(name),
    ensures
        preparation(root, image).contains(RootDeed::MakeDirectory(joined_path(root, name))),
        exists|i: int|
            0 <= i < mounts_before_pivot(root).len() && {
                let m = #[trigger] mounts_before_pivot(root)[i];
                &&& m.target == joined_path(root, name)
                &&& m.kind == Some("tmpfs"@)
                &&& m.data == Some("mode=1777"@)
                &&& m.flags.no_setuid
                &&& m.flags.no_devices
                &&& !m.flags.bind
                &&& !m.flags.read_only
            },
{
    let list = preparation(root, image);
    let mounts = mounts_before_pivot(root);
    let (made, at) = if name == "tmp"@ {
        (4int, 2int)
    } else if name == "work"@ {
        (5, 3)
    } else if name == "run"@ {
        (6, 4)
    } else {
        (17, 5)
    };
    assert(list[made] == RootDeed::MakeDirectory(joined_path(root, name)));
    assert(mounts[at].target == joined_path(root, name));
}

/// Whether something is shared with the caller.
pub open spec fn shared(m: MountFact) -> bool {
    m.flags.bind
}

/// Nothing reaches the caller: first the mounts are made private, and nothing of
/// the caller's is mounted but the image itself and the devices. Nothing but the
/// image and memory can be run from, and in memory nothing gains rights.
pub proof fn mounts_stay_inside(root: Seq<char>, i: int)
    requires
        0 <= i < mounts_before_pivot(root).len(),
    ensures
        mounts_before_pivot(root)[0].target == "/"@,
        mounts_before_pivot(root)[0].flags.private,
        mounts_before_pivot(root)[0].flags.recursive,
        mounts_before_pivot(root)[1].source == Some(root),
        mounts_before_pivot(root)[1].target == root,
        mounts_before_pivot(root)[1].flags.recursive,
        ({
            let m = mounts_before_pivot(root)[i];
            &&& m.flags.private ==> i == 0
            &&& shared(m) ==> m.source == Some(root) || exists|name: Seq<char>| #[trigger]
                device(name) && m.source == Some("/dev/"@ + name)
            &&& i > 0 && !shared(m) ==> m.flags.no_setuid && m.flags.no_devices
            &&& m.kind == Some("proc"@) ==> m.target == joined_path(root, "proc"@)
                && m.flags.read_only && m.flags.no_exec
        }),
{
    reveal_strlit("proc");
    reveal_strlit("tmpfs");
    assert("proc"@.len() != "tmpfs"@.len());
    assert(device("null"@) && device("zero"@) && device("random"@) && device("urandom"@));
}

/// The root that a program sees is read-only, with no devices of its own and no way
/// to other rights.
pub proof fn roots_are_sealed()
    ensures
        mount_after_pivot().target == "/"@,
        mount_after_pivot().flags.remount,
        mount_after_pivot().flags.bind,
        mount_after_pivot().flags.read_only,
        mount_after_pivot().flags.no_setuid,
        mount_after_pivot().flags.no_devices,
        !mount_after_pivot().flags.recursive,
{
}

/// The place of a step on the way into an image.
pub open spec fn step_at(step: EntryStep, i: int) -> bool {
    0 <= i < entry_sequence().len() && entry_sequence()[i] == step
}

/// The steps into an image are taken in an order in which each can be taken: the
/// identities are mapped in a user namespace of its own, after setting groups is
/// denied; mounting comes after the namespaces, the change of the root after
/// mounting, and its sealing after the old root is gone; the filter, which refuses
/// mounting, comes after all of these; and nothing stays open for the program.
pub proof fn steps_come_when_they_can(a: int, b: int)
    ensures
        step_at(EntryStep::OwnUsers, a) && step_at(EntryStep::DenyGroups, b) ==> a < b,
        step_at(EntryStep::DenyGroups, a) && step_at(EntryStep::MapGroup, b) ==> a < b,
        step_at(EntryStep::OwnUsers, a) && step_at(EntryStep::MapUser, b) ==> a < b,
        step_at(EntryStep::MapUser, a) && step_at(EntryStep::OwnNamespaces, b) ==> a < b,
        step_at(EntryStep::MapGroup, a) && step_at(EntryStep::OwnNamespaces, b) ==> a < b,
        step_at(EntryStep::OwnNamespaces, a) && step_at(EntryStep::NameHost, b) ==> a < b,
        step_at(EntryStep::OwnNamespaces, a) && step_at(EntryStep::ForkInit, b) ==> a < b,
        step_at(EntryStep::ForkInit, a) && step_at(EntryStep::MountFirst, b) ==> a < b,
        step_at(EntryStep::MountFirst, a) && step_at(EntryStep::ChangeRoot, b) ==> a < b,
        step_at(EntryStep::EnterRoot, a) && step_at(EntryStep::ChangeRoot, b) ==> a + 1 == b,
        step_at(EntryStep::ChangeRoot, a) && step_at(EntryStep::EnterTop, b) ==> a + 1 == b,
        step_at(EntryStep::ChangeRoot, a) && step_at(EntryStep::DetachOldRoot, b) ==> a < b,
        step_at(EntryStep::DetachOldRoot, a) && step_at(EntryStep::RemoveOldRoot, b) ==> a < b,
        step_at(EntryStep::RemoveOldRoot, a) && step_at(EntryStep::SealRoot, b) ==> a < b,
        step_at(EntryStep::SealRoot, a) && step_at(EntryStep::InstallFilter, b) ==> a < b,
        step_at(EntryStep::NoNewPrivileges, a) && step_at(EntryStep::InstallFilter, b) ==> a < b,
        step_at(EntryStep::DropBounds, a) && step_at(EntryStep::DropCapabilities, b) ==> a < b,
        step_at(EntryStep::BlockSignals, a) && step_at(EntryStep::ForkRunner, b) ==> a < b,
        step_at(EntryStep::ForkRunner, a) && step_at(EntryStep::RestoreSignals, b) ==> a < b,
        step_at(EntryStep::CloseOnExec, a) ==> a == entry_sequence().len() - 1,
        step_at(EntryStep::ForkInit, a) || step_at(EntryStep::ForkRunner, a) ==> step_at(
            EntryStep::DieWithParent,
            a + 1,
        ),
        step_at(EntryStep::DieWithParent, 0),
{
}

/// Of every step but the one that ties a process to its parent, there is one.
pub proof fn steps_are_taken_once(step: EntryStep)
    requires
        !(step is DieWithParent),
    ensures
        exists|i: int| #[trigger] step_at(step, i),
        forall|i: int, j: int| #[trigger] step_at(step, i) && #[trigger] step_at(step, j) ==> i == j,
{
    let list = entry_sequence();
    assert(step_at(list[1], 1) && step_at(list[2], 2) && step_at(list[3], 3) && step_at(list[4], 4)
        && step_at(list[5], 5) && step_at(list[6], 6) && step_at(list[7], 7) && step_at(list[8], 8));
    assert(step_at(list[10], 10) && step_at(list[11], 11) && step_at(list[12], 12) && step_at(
        list[13],
        13,
    ) && step_at(list[14], 14) && step_at(list[15], 15) && step_at(list[16], 16) && step_at(
        list[17],
        17,
    ));
    assert(step_at(list[18], 18) && step_at(list[19], 19) && step_at(list[20], 20) && step_at(
        list[21],
        21,
    ) && step_at(list[22], 22) && step_at(list[23], 23) && step_at(list[24], 24) && step_at(
        list[25],
        25,
    ));
    assert(step_at(list[26], 26) && step_at(list[28], 28) && step_at(list[29], 29) && step_at(
        list[30],
        30,
    ));
}

/// The program inside an image is told which image it is in, finds programs in the
/// image alone, and keeps what it writes where that is forgotten. It gets no other
/// variable.
pub proof fn programs_see_their_image_alone(image: Seq<char>)
    ensures
        image_environment(image).contains(("O_EMBEDDED_ROOTFS_IMAGE"@, image)),
        image_environment(image).contains(("PATH"@, "/bin"@)),
        image_environment(image).contains(("HOME"@, "/work"@)),
        image_environment(image).contains(("TMPDIR"@, "/tmp"@)),
        image_environment(image).contains(("XDG_CACHE_HOME"@, "/work/.cache"@)),
        image_environment(image).contains(("LANG"@, "C.UTF-8"@)),
        image_environment(image).contains(("TZ"@, "UTC"@)),
        image_environment(image).len() == 7,
{
    let list = image_environment(image);
    assert(list[0] == ("O_EMBEDDED_ROOTFS_IMAGE"@, image));
    assert(list[1] == ("PATH"@, "/bin"@));
    assert(list[2] == ("HOME"@, "/work"@));
    assert(list[3] == ("TMPDIR"@, "/tmp"@));
    assert(list[4] == ("XDG_CACHE_HOME"@, "/work/.cache"@));
    assert(list[5] == ("LANG"@, "C.UTF-8"@));
    assert(list[6] == ("TZ"@, "UTC"@));
}

/// The map of identities maps the caller's one, and no other, to the first.
pub proof fn identities_map_to_the_first(id: u32)
    ensures
        identity_map_text(id) == decimal(0) + " "@ + decimal(id as nat) + " "@ + decimal(1) + "\n"@,
{
    reveal_strlit("0 ");
    reveal_strlit(" ");
    reveal_strlit(" 1\n");
    reveal_strlit("\n");
    assert(decimal(0) =~= seq!['0']);
    assert(decimal(1) =~= seq!['1']);
    assert(identity_map_text(id) =~= decimal(0) + " "@ + decimal(id as nat) + " "@ + decimal(1)
        + "\n"@);
}

/// A status is read as it was made: the code that a process ended with, or the
/// signal that ended it, with or without a dump of memory; and the code that stands
/// for a signal is above every signal by 128.
pub proof fn statuses_are_read_as_made(code: u32, signal: u32)
    ensures
        code < 256 ==> ending_of((code * 256) as u32) == (Ending::Code { code }),
        0 < signal < 127 ==> ending_of(signal) == (Ending::Signal {
            signal,
            code: (128 + signal) as u32,
        }),
        0 < signal < 127 ==> ending_of((128 + signal) as u32) == (Ending::Signal {
            signal,
            code: (128 + signal) as u32,
        }),
{
    if code < 256 {
        let status = (code * 256) as u32;
        assert(status == code * 256);
        assert(status % 128 == 0) by (nonlinear_arith)
            requires
                status == code * 256,
        ;
    }
}

} // verus!
