//! What holds of reports on a device, and of what they are read from.

use vstd::prelude::*;

use crate::cpu::listed_cpus;
use crate::device::{c_arguments, trimmed_lines};
use crate::doctor::{padded, prime_line_text, CheckLevel, DeviceFacts, DoctorReport};
use crate::embed::{data_source, embedded, inventory_text};
use crate::gather::{gathered, FoundBundle};
use crate::launch::{directory_mode, first_directory, launch_fault, LaunchFault};
use crate::process::{allowed_cpus, app_uid, processor_line, processors};
use crate::session_args::tier_name;
use crate::text::{
    after_line, decimal, is_space, lemma_position_is, position_from, starts_with, trim,
    without_return,
};
use crate::text_laws::{blank, lemma_line_read, trimming_takes_the_blanks};
use crate::tree_laws::tops_leave_room_for_the_execution;
use crate::unlink::{files_of, first_unterminated, SectionText};

verus! {

/// An identity belongs to an app exactly where what is left of its user's hundred
/// thousand is among the ten thousand that are for apps, whoever the user is.
pub proof fn apps_have_their_identities(user: nat, app: nat)
    requires
        app < 100_000,
        user * 100_000 + app <= u32::MAX,
    ensures
        app_uid((user * 100_000 + app) as u32) <==> 10_000 <= app < 20_000,
{
    let uid = (user * 100_000 + app) as u32;
    assert(uid == user * 100_000 + app);
    assert((user * 100_000 + app) % 100_000 == app) by (nonlinear_arith)
        requires
            app < 100_000,
    ;
}

proof fn lemma_plain_line(line: Seq<char>, rest: Seq<char>)
    requires
        !line.contains('\n'),
        line.len() > 0,
        line.last() != '\r',
    ensures
        without_return(line + seq!['\n'] + rest) == line,
        after_line(line + seq!['\n'] + rest) == rest,
{
    lemma_line_read(line, rest);
    let s = line + seq!['\n'] + rest;
    let p = line.len() as int;
    assert(s[p - 1] == line[p - 1]);
    assert(s.take(p) =~= line);
}

proof fn lemma_digits(n: nat)
    ensures
        decimal(n).len() > 0,
        forall|i: int|
            0 <= i < decimal(n).len() ==> !is_space(#[trigger] decimal(n)[i]) && decimal(n)[i]
                != '\n' && decimal(n)[i] != '\r' && decimal(n)[i] != ':',
        crate::text::unsigned(decimal(n)) == Some(n),
{
    crate::text::decimal_spells(n);
    let text = decimal(n);
    assert forall|i: int| 0 <= i < text.len() implies !is_space(#[trigger] text[i]) && text[i]
        != '\n' && text[i] != '\r' && text[i] != ':' by {
        assert(crate::text::is_ascii_digit(text[i]));
    }
    assert(crate::text::is_ascii_digit(text[0]));
}

/// A line that names a processor adds that one to those that the rest names.
pub proof fn processors_are_counted_line_by_line(
    gap: Seq<char>,
    more: Seq<char>,
    n: u32,
    rest: Seq<char>,
)
    requires
        blank(gap),
        blank(more),
    ensures
        processors(
            ("processor"@ + gap + ":"@ + more + decimal(n as nat)) + seq!['\n'] + rest,
        ) == processors(rest).insert(n),
        processors(Seq::empty()) == Set::<u32>::empty(),
{
    reveal_strlit("processor");
    reveal_strlit(":");
    lemma_digits(n as nat);
    let d = decimal(n as nat);
    let none = Seq::<char>::empty();
    let key = "processor"@;
    let line = key + gap + ":"@ + more + d;
    let k = (key.len() + gap.len()) as int;
    assert forall|i: int| 0 <= i < line.len() implies #[trigger] line[i] != '\n' && line[i] != '\r'
        && (line[i] == ':' <==> i == k) by {
        if i < key.len() {
            assert(line[i] == key[i]);
        } else if i < k {
            assert(line[i] == gap[i - key.len()]);
        } else if i == k {
        } else if i < k + 1 + more.len() {
            assert(line[i] == more[i - k - 1]);
        } else {
            assert(line[i] == d[i - k - 1 - more.len()]);
        }
    }
    assert(line[k] == ':');
    lemma_plain_line(line, rest);
    lemma_position_is(line, 0, ':', k);
    assert(line.take(k) =~= none + key + gap);
    trimming_takes_the_blanks(none, key, gap);
    assert(line.skip(k + 1) =~= more + d + none);
    trimming_takes_the_blanks(more, d, none);
    assert(processor_line(line) == Some(n));
}

/// A line that names no processor adds none.
pub proof fn other_lines_name_no_processor(line: Seq<char>, rest: Seq<char>)
    requires
        !line.contains('\n'),
        !line.contains(':'),
        line.len() > 0,
        line.last() != '\r',
    ensures
        processors(line + seq!['\n'] + rest) == processors(rest),
{
    lemma_plain_line(line, rest);
    crate::text::lemma_position_from(line, 0, ':');
    let k = position_from(line, 0, ':');
    if k < line.len() {
        assert(line.contains(line[k]));
    }
}

/// The processors that a process may run on are those of the line that lists them.
pub proof fn allowed_processors_are_read_from_their_line(
    gap: Seq<char>,
    list: Seq<char>,
    rest: Seq<char>,
)
    requires
        blank(gap),
        !list.contains('\n'),
        list.len() > 0,
        !is_space(list[0]),
        !is_space(list.last()),
    ensures
        listed_cpus(list) matches Ok(set) ==> allowed_cpus(
            ("Cpus_allowed_list:"@ + gap + list) + seq!['\n'] + rest,
        ) == Some(set),
        listed_cpus(list) is Err ==> allowed_cpus(
            ("Cpus_allowed_list:"@ + gap + list) + seq!['\n'] + rest,
        ) is None,
        allowed_cpus(Seq::empty()) is None,
{
    reveal_strlit("Cpus_allowed_list:");
    let none = Seq::<char>::empty();
    let key = "Cpus_allowed_list:"@;
    let line = key + gap + list;
    let g = (key.len() + gap.len()) as int;
    assert(!line.contains('\n')) by {
        if line.contains('\n') {
            let i = choose|i: int| 0 <= i < line.len() && line[i] == '\n';
            if i < key.len() {
                assert(line[i] == key[i]);
            } else if i < g {
                assert(line[i] == gap[i - key.len()]);
            } else {
                assert(list[i - g] == '\n');
            }
        }
    }
    assert(line.last() == list.last());
    lemma_plain_line(line, rest);
    assert(line.take(key.len() as int) =~= key);
    assert(line.skip(key.len() as int) =~= gap + list + none);
    trimming_takes_the_blanks(gap, list, none);
    assert((line + seq!['\n'] + rest).len() > 0);
}

/// Of a text every line counts that is not blank, without what is blank around it.
pub proof fn lines_are_read_without_blanks(
    gap: Seq<char>,
    line: Seq<char>,
    more: Seq<char>,
    rest: Seq<char>,
)
    requires
        blank(gap),
        blank(more),
        !line.contains('\n'),
        line.len() > 0,
        !is_space(line[0]),
        !is_space(line.last()),
    ensures
        trimmed_lines((gap + line + more) + seq!['\n'] + rest) == seq![line] + trimmed_lines(rest),
        trimmed_lines(seq!['\n'] + rest) == trimmed_lines(rest),
        trimmed_lines(Seq::empty()).len() == 0,
{
    let whole = gap + line + more;
    assert(!whole.contains('\n')) by {
        if whole.contains('\n') {
            let i = choose|i: int| 0 <= i < whole.len() && whole[i] == '\n';
            if i < gap.len() {
                assert(whole[i] == gap[i]);
            } else if i < gap.len() + line.len() {
                assert(line[i - gap.len()] == '\n');
            } else {
                assert(whole[i] == more[i - gap.len() - line.len()]);
            }
        }
    }
    if more.len() > 0 {
        assert(whole.last() == more[more.len() - 1]);
    } else {
        assert(whole.last() == line.last());
    }
    lemma_plain_line(whole, rest);
    trimming_takes_the_blanks(gap, line, more);
    let none = Seq::<char>::empty();
    lemma_line_read(none, rest);
    assert(none + seq!['\n'] + rest =~= seq!['\n'] + rest);
    let s = seq!['\n'] + rest;
    assert(without_return(s) =~= none);
    assert(trim(none).len() == 0);
}

proof fn lemma_first_directory(modes: Seq<Option<u32>>)
    ensures
        first_directory(modes) is None <==> forall|i: int|
            0 <= i < modes.len() ==> !directory_mode(#[trigger] modes[i]),
        first_directory(modes) matches Some(k) ==> 0 <= k < modes.len() && directory_mode(modes[k]),
    decreases modes.len(),
{
    if modes.len() > 0 {
        let init = modes.drop_last();
        lemma_first_directory(init);
        assert(modes.last() == modes[modes.len() - 1]);
        assert(forall|i: int| 0 <= i < init.len() ==> #[trigger] init[i] == modes[i]);
        if first_directory(modes) is None {
            assert forall|i: int| 0 <= i < modes.len() implies !directory_mode(
                #[trigger] modes[i],
            ) by {
                if i < init.len() {
                    assert(!directory_mode(init[i]));
                }
            }
        }
    }
}

/// An image is entered exactly where no standard stream is a directory and none of
/// the names is taken that belong to its execution.
pub proof fn images_are_entered_with_plain_streams(
    modes: Seq<Option<u32>>,
    taken: Seq<Seq<char>>,
)
    ensures
        launch_fault(modes, taken) is None <==> (forall|i: int|
            0 <= i < modes.len() ==> !directory_mode(#[trigger] modes[i])) && !taken.contains(
            ".ostadix"@,
        ) && !taken.contains(".old-root"@) && !taken.contains("proc"@) && !taken.contains("dev"@)
            && !taken.contains("tmp"@) && !taken.contains("work"@) && !taken.contains("run"@),
        launch_fault(modes, taken) matches Some(LaunchFault::DirectoryStream(k)) ==> 0 <= k
            < modes.len() && directory_mode(modes[k]),
{
    lemma_first_directory(modes);
    tops_leave_room_for_the_execution(true, taken, true);
}

/// A stream is a directory by its kind, whatever its permissions are; a stream that
/// is closed is none.
pub proof fn directories_are_told_by_their_kind(permissions: u32)
    requires
        permissions <= 0o7777,
    ensures
        directory_mode(Some((0o040000 + permissions) as u32)),
        !directory_mode(Some((0o100000 + permissions) as u32)),
        !directory_mode(Some((0o020000 + permissions) as u32)),
        !directory_mode(Some((0o010000 + permissions) as u32)),
        !directory_mode(Some((0o140000 + permissions) as u32)),
        !directory_mode(Some((0o060000 + permissions) as u32)),
        !directory_mode(None),
{
    let a = (0o040000 + permissions) as u32;
    let b = (0o100000 + permissions) as u32;
    let c = (0o020000 + permissions) as u32;
    let d = (0o010000 + permissions) as u32;
    let e = (0o140000 + permissions) as u32;
    let f = (0o060000 + permissions) as u32;
    assert(a & 0o170000u32 == 0o040000u32) by (bit_vector)
        requires
            a == 0o040000 + permissions,
            permissions <= 0o7777,
    ;
    assert(b & 0o170000u32 == 0o100000u32) by (bit_vector)
        requires
            b == 0o100000 + permissions,
            permissions <= 0o7777,
    ;
    assert(c & 0o170000u32 == 0o020000u32) by (bit_vector)
        requires
            c == 0o020000 + permissions,
            permissions <= 0o7777,
    ;
    assert(d & 0o170000u32 == 0o010000u32) by (bit_vector)
        requires
            d == 0o010000 + permissions,
            permissions <= 0o7777,
    ;
    assert(e & 0o170000u32 == 0o140000u32) by (bit_vector)
        requires
            e == 0o140000 + permissions,
            permissions <= 0o7777,
    ;
    assert(f & 0o170000u32 == 0o060000u32) by (bit_vector)
        requires
            f == 0o060000 + permissions,
            permissions <= 0o7777,
    ;
}

/// A text is filled up with blanks to a width, and never cut.
pub proof fn columns_are_filled_up(s: Seq<char>, width: nat)
    ensures
        starts_with(padded(s, width), s),
        padded(s, width).len() == if s.len() >= width {
            s.len()
        } else {
            width
        },
        forall|i: int| s.len() <= i < padded(s, width).len() ==> #[trigger] padded(s, width)[i] == ' ',
    decreases width - s.len(),
{
    if s.len() < width {
        columns_are_filled_up(s.push(' '), width);
        let all = padded(s, width);
        let more = s.push(' ');
        assert(all.take(s.len() as int) =~= s) by {
            assert forall|i: int| 0 <= i < s.len() implies all[i] == s[i] by {
                assert(all.take(more.len() as int)[i] == more[i]);
            }
        }
        assert(all[s.len() as int] == ' ') by {
            assert(all.take(more.len() as int)[s.len() as int] == more[s.len() as int]);
        }
    } else {
        assert(padded(s, width).take(s.len() as int) =~= s);
    }
}

/// A report has a line for every finding, with how it stands, what it is on and what
/// was found, and ends with whether the device is ready.
pub proof fn reports_have_a_line_for_every_finding(report: DoctorReport, i: int)
    requires
        0 <= i < report.checks@.len(),
    ensures
        report.text_lines().len() == report.checks@.len() + 1,
        report.text_lines()[i] == "["@ + padded(report.checks@[i].level.name(), 4) + "] "@ + padded(
            report.checks@[i].name@,
            18,
        ) + " "@ + report.checks@[i].detail@,
        report.text_lines().last() == if report.ready {
            "doctor: ready"@
        } else {
            "doctor: not ready"@
        },
        CheckLevel::Pass.name() == "ok"@,
        CheckLevel::Info.name() == "info"@,
        CheckLevel::Warn.name() == "warn"@,
        CheckLevel::Fail.name() == "fail"@,
{
}

/// The line on the prime processor says which it is, and whether it can be used.
pub proof fn the_prime_processor_is_named(cpu: u32, available: bool)
    ensures
        prime_line_text(Some(cpu), Some(true)) == "prime:       CPU "@ + decimal(cpu as nat)
            + " available now"@,
        prime_line_text(Some(cpu), Some(false)) == "prime:       CPU "@ + decimal(cpu as nat)
            + " withheld; use --prime or `prime attach PID`"@,
        prime_line_text(None, Some(available)) == "prime:       unavailable"@,
        prime_line_text(Some(cpu), None) == "prime:       unavailable"@,
{
}

/// The status of a device names the device, what it runs, where it may run and how
/// much memory it has.
pub proof fn statuses_name_what_is_known(facts: DeviceFacts)
    ensures
        facts.model is Some && facts.soc is Some ==> facts.first_lines().contains(
            "device:      "@ + facts.model->Some_0@ + " / "@ + facts.soc->Some_0@,
        ),
        facts.release is Some && facts.api is Some ==> facts.first_lines().contains(
            "android:     "@ + facts.release->Some_0@ + " (API "@ + facts.api->Some_0@ + ") / "@
                + facts.architecture@,
        ),
        facts.cpuset is Some && facts.allowed@.len() > 0 ==> facts.first_lines().contains(
            "scheduler:   "@ + facts.cpuset->Some_0@ + " / CPUs "@ + facts.allowed@ + " ("@
                + decimal(facts.allowed_count as nat) + " available)"@,
        ),
        facts.total_mib is Some && facts.available_mib is Some ==> facts.first_lines().contains(
            "memory:      "@ + decimal(facts.total_mib->Some_0 as nat) + " MiB total / "@ + decimal(
                facts.available_mib->Some_0 as nat,
            ) + " MiB available"@,
        ),
        facts.rustc is Some ==> facts.last_lines().contains(
            "rust:        "@ + facts.rustc->Some_0@,
        ),
        facts.linker is Some ==> facts.last_lines().contains(
            "linker:      "@ + facts.linker->Some_0@,
        ),
        facts.evaluator is Some ==> facts.last_lines().contains(
            "O binary:    "@ + facts.evaluator->Some_0@,
        ),
        facts.last_lines().contains("project:     "@ + facts.project_root@),
        facts.last_lines().contains("backends:    "@ + facts.backends_dir@),
        facts.effective_uid is Some ==> facts.last_lines().contains(
            "privilege:   uid "@ + decimal(facts.effective_uid->Some_0 as nat)
                + " (status did not probe su)"@,
        ),
        facts.battery is None <==> facts.battery_lines().len() == 0,
        facts.model is None && facts.soc is None ==> facts.first_lines().contains(
            "device:      "@ + "unavailable"@ + " / "@ + "unavailable"@,
        ),
{
    let first = facts.first_lines();
    let last = facts.last_lines();
    assert(first[0] == first[0] && first[1] == first[1] && first[2] == first[2] && first[4]
        == first[4]);
    assert(last[0] == last[0] && last[1] == last[1] && last[2] == last[2] && last[3] == last[3]
        && last[4] == last[4] && last[5] == last[5]);
}

/// A build in C is done anew, with as many jobs as were asked for and by way of the
/// cache that was found.
pub proof fn builds_take_the_jobs_they_may(jobs: u64, cache: Seq<char>)
    ensures
        c_arguments(jobs, None).contains("-j"@ + decimal(jobs as nat)),
        c_arguments(jobs, None).contains("CC=clang"@),
        c_arguments(jobs, Some(cache)).contains("-j"@ + decimal(jobs as nat)),
        c_arguments(jobs, Some(cache)).contains("CC="@ + cache + " clang"@),
        c_arguments(jobs, None).contains("-B"@),
        c_arguments(jobs, None)[0] == "-C"@ && c_arguments(jobs, None)[1] == "c_cpp"@,
        c_arguments(jobs, None).last() == "all"@,
{
    let plain = c_arguments(jobs, None);
    let cached = c_arguments(jobs, Some(cache));
    assert(plain[3] == "-j"@ + decimal(jobs as nat) && cached[3] == "-j"@ + decimal(jobs as nat));
    assert(plain[4] == "CC=clang"@ && cached[4] == "CC="@ + cache + " clang"@);
    assert(plain[2] == "-B"@);
}

/// What is embedded is the tree that was gathered, with the bytes of every file under
/// its place, and a tree without a command is refused.
pub proof fn embedded_sources_hold_the_tree(found: FoundBundle, main: Seq<char>, i: int)
    ensures
        embedded(found, main) matches Ok(sources) ==> {
            &&& gathered(found) is Ok
            &&& gathered(found)->Ok_0.runs()
            &&& sources.data == data_source(gathered(found)->Ok_0)
            &&& sources.inventory == inventory_text(gathered(found)->Ok_0)
            &&& sources.payloads.len() == gathered(found)->Ok_0.files.len()
            &&& 0 <= i < sources.payloads.len() ==> sources.payloads[i] == (
                "payload-"@ + decimal(i as nat),
                gathered(found)->Ok_0.files[i].bytes,
            )
        },
        gathered(found) matches Err(fault) ==> embedded(found, main) == Err::<
            crate::embed::Sources,
            crate::bundle::EmbedFault,
        >(fault),
        gathered(found) is Ok && !gathered(found)->Ok_0.runs() ==> embedded(found, main) is Err,
{
}

/// Every tier of state has a name of its own.
pub proof fn tiers_are_told_apart(
    a: crate::authority::SessionStateTierArg,
    b: crate::authority::SessionStateTierArg,
)
    ensures
        tier_name(a) == tier_name(b) ==> a == b,
{
    reveal_strlit("stateless");
    reveal_strlit("checkpoint-restore");
    reveal_strlit("replay-reconstructible");
    reveal_strlit("live-actor-only");
    assert("stateless"@.len() == 9 && "checkpoint-restore"@.len() == 18
        && "replay-reconstructible"@.len() == 22 && "live-actor-only"@.len() == 15);
}

/// A document cannot be taken apart exactly where one of its sections has a block
/// without its end, and then that section is named.
pub proof fn unfinished_sections_are_named(list: Seq<SectionText>, tags: Set<Seq<char>>)
    ensures
        first_unterminated(list, tags) is Some <==> files_of(list, tags) is None,
        first_unterminated(list, tags) matches Some(path) ==> exists|i: int|
            0 <= i < list.len() && (#[trigger] list[i]).path == path
                && crate::unlink::section_content(list[i], tags) is Unterminated,
    decreases list.len(),
{
    if list.len() > 0 {
        let rest = list.skip(1);
        unfinished_sections_are_named(rest, tags);
        if crate::unlink::section_content(list[0], tags) is Unterminated {
            assert(list[0].path == first_unterminated(list, tags)->Some_0);
        } else if first_unterminated(rest, tags) is Some {
            let path = first_unterminated(rest, tags)->Some_0;
            let i = choose|i: int|
                0 <= i < rest.len() && (#[trigger] rest[i]).path == path
                    && crate::unlink::section_content(rest[i], tags) is Unterminated;
            assert(list[i + 1] == rest[i]);
        }
    }
}

} // verus!
