//! The host controller's rules: what makes a device ready, how prime mode is
//! applied and taken back, and what is shown of it all.

use vstd::prelude::*;
use vstd::slice::slice_subrange;

use crate::cpu::{ascending, format_cpu_list, insert_number, ranges_text};
use crate::components::{lies_under, under};
use crate::process::number32;
use crate::text::{
    after_line, chars_of, decimal, holds_text, lemma_after_line, parse_bounded, push_decimal,
    read_line, replace_all, replaced, starts_with, string_of, trim, trim_slice, unsigned, views,
};

verus! {

/// A value in single quotes, so that a shell reads it as one word.
pub open spec fn quoted(value: Seq<char>) -> Seq<char> {
    seq!['\''] + replaced(value, seq!['\''], seq!['\'', '"', '\'', '"', '\'']) + seq!['\'']
}

/// A value in single quotes, so that a shell reads it as one word.
pub fn shell_quote(value: &str) -> (out: String)
    ensures
        out@ == quoted(value@),
{
    let chars = chars_of(value);
    let quote: Vec<char> = vec!['\''];
    let escaped: Vec<char> = vec!['\'', '"', '\'', '"', '\''];
    assert(quote@ =~= seq!['\'']);
    assert(escaped@ =~= seq!['\'', '"', '\'', '"', '\'']);
    let inner = replace_all(chars.as_slice(), quote.as_slice(), escaped.as_slice());
    let mut out = String::new();
    out.push('\'');
    let text = string_of(inner.as_slice(), 0, inner.len());
    assert(text@ =~= inner@);
    out.append(text.as_str());
    out.push('\'');
    assert(out@ =~= quoted(value@));
    out
}

/// The word that a shell reads from quoted text; `mode` is the quote that is
/// open, or a blank. `None` where a quote is left open or a character stands
/// outside quotes.
pub open spec fn shell_word(s: Seq<char>, mode: char) -> Option<Seq<char>>
    decreases s.len(),
{
    if s.len() == 0 {
        if mode == ' ' {
            Some(Seq::empty())
        } else {
            None
        }
    } else if mode == ' ' {
        if s[0] == '\'' || s[0] == '"' {
            shell_word(s.skip(1), s[0])
        } else {
            None
        }
    } else if s[0] == mode {
        shell_word(s.skip(1), ' ')
    } else {
        match shell_word(s.skip(1), mode) {
            Some(rest) => Some(seq![s[0]] + rest),
            None => None,
        }
    }
}

proof fn lemma_inside_quotes(value: Seq<char>)
    ensures
        shell_word(
            replaced(value, seq!['\''], seq!['\'', '"', '\'', '"', '\'']) + seq!['\''],
            '\'',
        ) == Some(value),
    decreases value.len(),
{
    let quote = seq!['\''];
    let escaped = seq!['\'', '"', '\'', '"', '\''];
    let tail = replaced(value, quote, escaped) + quote;
    if value.len() == 0 {
        assert(tail =~= quote);
        assert(quote.skip(1) =~= Seq::empty());
        assert(shell_word(Seq::empty(), ' ') == Some(Seq::<char>::empty()));
        assert(value =~= Seq::empty());
    } else {
        let rest = value.skip(1);
        lemma_inside_quotes(rest);
        let after = replaced(rest, quote, escaped) + quote;
        if value[0] == '\'' {
            assert(value.take(1) =~= quote);
            assert(value.skip(quote.len() as int) =~= rest);
            assert(tail =~= escaped + after);
            assert(tail[0] == '\'' && tail[1] == '"' && tail[2] == '\'' && tail[3] == '"' && tail[4]
                == '\'');
            let t1 = tail.skip(1);
            let t2 = t1.skip(1);
            let t3 = t2.skip(1);
            let t4 = t3.skip(1);
            let t5 = t4.skip(1);
            assert(t5 =~= after);
            assert(t1[0] == '"' && t2[0] == '\'' && t3[0] == '"' && t4[0] == '\'');
            assert(shell_word(t4, ' ') == shell_word(t5, '\''));
            assert(shell_word(t3, '"') == shell_word(t4, ' '));
            assert(shell_word(t2, '"') == Some(seq!['\''] + rest));
            assert(shell_word(t1, ' ') == shell_word(t2, '"'));
            assert(value =~= seq!['\''] + rest);
        } else {
            assert(!starts_with(value, quote)) by {
                if starts_with(value, quote) {
                    assert(value.take(1)[0] == '\'');
                }
            }
            assert(tail =~= seq![value[0]] + after);
            assert(tail.skip(1) =~= after);
            assert(value =~= seq![value[0]] + rest);
        }
    }
}

/// A shell reads a quoted value as that value, and no character of it stands
/// outside quotes.
pub proof fn quoted_values_are_one_word(value: Seq<char>)
    ensures
        shell_word(quoted(value), ' ') == Some(value),
{
    let inner = replaced(value, seq!['\''], seq!['\'', '"', '\'', '"', '\'']) + seq!['\''];
    lemma_inside_quotes(value);
    assert(quoted(value) =~= seq!['\''] + inner);
    assert(quoted(value).skip(1) =~= inner);
}

/// Which way a process is moved.
#[derive(Clone, Copy, Debug, PartialEq, Eq, Structural)]
pub enum PrimeAction {
    Attach,
    Release,
}

impl PrimeAction {
    pub fn name(self) -> (text: &'static str)
        ensures
            text@ == (match self {
                PrimeAction::Attach => "attach"@,
                PrimeAction::Release => "release"@,
            }),
    {
        match self {
            PrimeAction::Attach => "attach",
            PrimeAction::Release => "release",
        }
    }

    /// The task profile that the action applies.
    pub fn profile(self) -> (text: &'static str)
        ensures
            text@ == (match self {
                PrimeAction::Attach => "CPUSET_SP_TOP_APP"@,
                PrimeAction::Release => "CPUSET_SP_FOREGROUND"@,
            }),
    {
        match self {
            PrimeAction::Attach => "CPUSET_SP_TOP_APP",
            PrimeAction::Release => "CPUSET_SP_FOREGROUND",
        }
    }

    /// The group that the process ends up in.
    pub fn group(self) -> (text: &'static str)
        ensures
            text@ == (match self {
                PrimeAction::Attach => "top-app"@,
                PrimeAction::Release => "foreground"@,
            }),
    {
        match self {
            PrimeAction::Attach => "top-app",
            PrimeAction::Release => "foreground",
        }
    }

    /// The directory of the CPU set that stands in for a missing profile.
    pub fn cpuset_directory(self) -> (text: &'static str)
        ensures
            text@ == (match self {
                PrimeAction::Attach => "/dev/cpuset/top-app"@,
                PrimeAction::Release => "/dev/cpuset/foreground"@,
            }),
    {
        match self {
            PrimeAction::Attach => "/dev/cpuset/top-app",
            PrimeAction::Release => "/dev/cpuset/foreground",
        }
    }
}

/// How a profile change failed.
#[derive(Debug)]
pub enum ProfileFailure<E> {
    /// The change failed and there was nothing to take back.
    Failed(E),
    /// The change failed; the foreground profile was restored.
    RolledBack(E),
    /// The change failed, and so did taking it back.
    RollbackFailed { error: E, rollback: E },
}

/// Applies a profile change. An attach that fails is taken back, whatever the
/// failure; a release is not. An attach that went well is left as it is: nothing
/// but a failure of the change lets it be taken back.
pub fn run_profile_transaction<T, E, A: FnOnce() -> Result<T, E>, R: FnOnce() -> Result<(), E>>(
    action: PrimeAction,
    apply: A,
    rollback: R,
) -> (r: Result<T, ProfileFailure<E>>)
    requires
        apply.requires(()),
        forall|error: E|
            action is Attach && #[trigger] apply.ensures((), Err::<T, E>(error))
                ==> rollback.requires(()),
    ensures
        match r {
            Ok(value) => apply.ensures((), Ok(value)),
            Err(ProfileFailure::Failed(error)) => action is Release && apply.ensures(
                (),
                Err(error),
            ),
            Err(ProfileFailure::RolledBack(error)) => action is Attach && apply.ensures(
                (),
                Err(error),
            ) && rollback.ensures((), Ok(())),
            Err(ProfileFailure::RollbackFailed { error, rollback: second }) => action is Attach
                && apply.ensures((), Err(error)) && rollback.ensures((), Err(second)),
        },
{
    match apply() {
        Ok(value) => Ok(value),
        Err(error) => match action {
            PrimeAction::Attach => match rollback() {
                Ok(done) => {
                    assert(done == ());
                    Err(ProfileFailure::RolledBack(error))
                },
                Err(second) => Err(ProfileFailure::RollbackFailed { error, rollback: second }),
            },
            PrimeAction::Release => Err(ProfileFailure::Failed(error)),
        },
    }
}

/// The root command that applies prime mode to a process.
pub open spec fn prime_command_text(
    helper: Seq<char>,
    action: Seq<char>,
    pid: u32,
    uid: u32,
    start_time: u64,
) -> Seq<char> {
    "exec "@ + quoted(helper) + " __prime-apply "@ + action + " "@ + decimal(pid as nat) + " "@
        + decimal(uid as nat) + " "@ + decimal(start_time as nat)
}

/// The root command that applies prime mode to a process.
pub fn prime_root_command(
    helper: &str,
    action: PrimeAction,
    pid: u32,
    uid: u32,
    start_time: u64,
) -> (out: String)
    ensures
        out@ == prime_command_text(
            helper@,
            match action {
                PrimeAction::Attach => "attach"@,
                PrimeAction::Release => "release"@,
            },
            pid,
            uid,
            start_time,
        ),
{
    let mut out = "exec ".to_owned();
    out.append(shell_quote(helper).as_str());
    out.append(" __prime-apply ");
    out.append(action.name());
    out.append(" ");
    push_decimal(&mut out, pid as u64);
    out.append(" ");
    push_decimal(&mut out, uid as u64);
    out.append(" ");
    push_decimal(&mut out, start_time);
    out
}

/// The command line of quoted arguments.
pub open spec fn quoted_arguments(arguments: Seq<Seq<char>>) -> Seq<char>
    decreases arguments.len(),
{
    if arguments.len() == 0 {
        "exec"@
    } else {
        quoted_arguments(arguments.drop_last()) + " "@ + quoted(arguments.last())
    }
}

/// The root command that runs the given arguments.
pub fn root_run_command(arguments: &[String]) -> (out: String)
    requires
        arguments@.len() > 0,
    ensures
        out@ == quoted_arguments(views(arguments@)),
{
    let ghost all = views(arguments@);
    let mut out = "exec".to_owned();
    let mut i: usize = 0;
    assert(all.take(0).len() == 0);
    while i < arguments.len()
        invariant
            all == views(arguments@),
            i <= arguments@.len(),
            out@ == quoted_arguments(all.take(i as int)),
        decreases arguments@.len() - i,
    {
        assert(all.take(i + 1).drop_last() =~= all.take(i as int));
        assert(all.take(i + 1).last() == arguments@[i as int]@);
        out.append(" ");
        out.append(shell_quote(arguments[i].as_str()).as_str());
        i += 1;
    }
    assert(all.take(i as int) =~= all);
    out
}

/// A number of jobs given as text, if it is a positive one.
pub open spec fn positive(value: Seq<char>) -> Option<u64> {
    match unsigned(value) {
        Some(n) => if 0 < n <= u64::MAX {
            Some(n as u64)
        } else {
            None
        },
        None => None,
    }
}

/// How many jobs to run: those asked for, else those that the environment
/// gives as a positive number, else the usual number.
pub fn effective_jobs(asked: Option<u64>, environment: Option<&str>, usual: u64) -> (jobs: u64)
    ensures
        jobs == match asked {
            Some(n) => n,
            None => match environment {
                Some(text) => match positive(text@) {
                    Some(n) => n,
                    None => usual,
                },
                None => usual,
            },
        },
{
    match asked {
        Some(n) => n,
        None => match environment {
            Some(text) => {
                let chars = chars_of(text);
                match parse_bounded(chars.as_slice(), u64::MAX) {
                    Some(n) => if n > 0 {
                        n
                    } else {
                        usual
                    },
                    None => usual,
                }
            },
            None => usual,
        },
    }
}

/// Whether a number of jobs may be asked for.
pub fn jobs_allowed(jobs: Option<u64>) -> (r: bool)
    ensures
        r == (jobs != Some(0u64)),
{
    match jobs {
        Some(n) => n != 0,
        None => true,
    }
}

/// The exit code that passes on how a child ended: its own code, or 128 and
/// its signal, where that is an exit code; else 1.
pub fn exit_status_code(code: Option<i32>, signal: Option<i32>) -> (r: u8)
    ensures
        r == match code {
            Some(c) => if 0 <= c <= 255 {
                c as int
            } else {
                1
            },
            None => match signal {
                Some(s) => if 0 <= 128 + s <= 255 {
                    128 + s
                } else {
                    1
                },
                None => 1,
            },
        },
{
    match code {
        Some(c) => if 0 <= c && c <= 255 {
            c as u8
        } else {
            1
        },
        None => match signal {
            Some(s) => if -128 <= s && s <= 127 {
                (128 + s) as u8
            } else {
                1
            },
            None => 1,
        },
    }
}

/// Whether a path lies under one of the private directories of an app.
pub fn is_private_path(path: &str, roots: &[String]) -> (r: bool)
    ensures
        r == exists|i: int| 0 <= i < roots@.len() && under(path@, (#[trigger] roots@[i])@),
{
    let mut i: usize = 0;
    while i < roots.len()
        invariant
            i <= roots@.len(),
            forall|j: int| 0 <= j < i ==> !under(path@, (#[trigger] roots@[j])@),
        decreases roots@.len() - i,
    {
        if lies_under(path, roots[i].as_str()) {
            return true;
        }
        i += 1;
    }
    false
}

/// Texts without repetitions: each where it stands first.
pub open spec fn without_repeats(list: Seq<Seq<char>>) -> Seq<Seq<char>>
    decreases list.len(),
{
    if list.len() == 0 {
        list
    } else {
        let before = without_repeats(list.drop_last());
        if list.drop_last().contains(list.last()) {
            before
        } else {
            before.push(list.last())
        }
    }
}

/// Search paths without repetitions: each where it stands first.
pub fn unique_paths(paths: &[String]) -> (out: Vec<String>)
    ensures
        views(out@) == without_repeats(views(paths@)),
{
    let ghost all = views(paths@);
    let mut out: Vec<String> = Vec::new();
    let mut i: usize = 0;
    assert(views(out@) =~= all.take(0));
    while i < paths.len()
        invariant
            all == views(paths@),
            i <= paths@.len(),
            views(out@) == without_repeats(all.take(i as int)),
        decreases paths@.len() - i,
    {
        let mut seen: bool = false;
        let mut j: usize = 0;
        while j < i && !seen
            invariant
                all == views(paths@),
                j <= i < paths@.len(),
                seen ==> all.take(i as int).contains(all[i as int]),
                !seen ==> forall|k: int| 0 <= k < j ==> all[k] != all[i as int],
            decreases i - j + (if seen { 0int } else { 1int }),
        {
            assert(all[j as int] == paths@[j as int]@);
            assert(all[i as int] == paths@[i as int]@);
            if *paths[j].as_str() == *paths[i].as_str() {
                seen = true;
                assert(all.take(i as int)[j as int] == all[i as int]);
            } else {
                j += 1;
            }
        }
        proof {
            assert(all.take(i + 1).drop_last() =~= all.take(i as int));
            assert(all.take(i + 1).last() == all[i as int]);
            if !seen {
                assert(!all.take(i as int).contains(all[i as int]));
            }
        }
        if !seen {
            let ghost before = views(out@);
            out.push(paths[i].clone());
            assert(views(out@) =~= before.push(all[i as int]));
        }
        i += 1;
    }
    assert(all.take(i as int) =~= all);
    out
}

/// A text, unless it is blank, without the whitespace around it.
pub fn trimmed_text(value: &str) -> (r: Option<String>)
    ensures
        match r {
            Some(text) => text@ == trim(value@) && text@.len() > 0,
            None => trim(value@).len() == 0,
        },
{
    let chars = chars_of(value);
    let t = trim_slice(chars.as_slice());
    if t.len() == 0 {
        None
    } else {
        let text = string_of(t, 0, t.len());
        assert(text@ =~= t@);
        Some(text)
    }
}

/// The lines of a text that are not blank, without the whitespace around them.
pub open spec fn trimmed_lines(text: Seq<char>) -> Seq<Seq<char>>
    decreases text.len() via trimmed_lines_decreases
{
    if text.len() == 0 {
        Seq::empty()
    } else {
        let line = trim(crate::text::without_return(text));
        let rest = trimmed_lines(after_line(text));
        if line.len() == 0 {
            rest
        } else {
            seq![line] + rest
        }
    }
}

#[via_fn]
proof fn trimmed_lines_decreases(text: Seq<char>) {
    lemma_after_line(text);
}

/// The lines of a text that are not blank.
pub fn nonblank_lines(text: &str) -> (out: Vec<String>)
    ensures
        views(out@) == trimmed_lines(text@),
{
    let chars = chars_of(text);
    let mut rest = chars.as_slice();
    let mut out: Vec<String> = Vec::new();
    assert(views(out@) + trimmed_lines(rest@) =~= trimmed_lines(text@));
    while rest.len() > 0
        invariant
            views(out@) + trimmed_lines(rest@) == trimmed_lines(text@),
        decreases rest@.len(),
    {
        let (end, next) = read_line(rest);
        let raw = slice_subrange(rest, 0, end);
        assert(raw@ =~= rest@.take(end as int));
        let line = trim_slice(raw);
        let after = slice_subrange(rest, next, rest.len());
        assert(after@ =~= rest@.skip(next as int));
        if line.len() > 0 {
            let kept = string_of(line, 0, line.len());
            assert(kept@ =~= line@);
            let ghost before = views(out@);
            out.push(kept);
            assert(views(out@) =~= before.push(line@));
            assert(views(out@) + trimmed_lines(after@) =~= before + (seq![line@] + trimmed_lines(
                after@,
            )));
        }
        rest = after;
    }
    assert(views(out@) + Seq::<Seq<char>>::empty() =~= views(out@));
    out
}

/// Whether the environment looks like Termux.
pub fn looks_like_termux(version_set: bool, prefix: Option<&str>, files_present: bool) -> (r: bool)
    ensures
        r == (version_set || (prefix is Some && holds_text(prefix->Some_0@, "com.termux"@))
            || files_present),
{
    if version_set || files_present {
        return true;
    }
    match prefix {
        Some(text) => {
            let chars = chars_of(text);
            let part = chars_of("com.termux");
            crate::text::find_part(chars.as_slice(), part.as_slice()).is_some()
        },
        None => false,
    }
}

/// How much of the CPU set a guarded command asks for.
#[derive(Clone, Copy, Debug, PartialEq, Eq, Structural)]
pub enum PrimeAffinity {
    /// Every CPU of the group, for parallel work.
    Available,
    /// The prime CPU alone.
    Pinned,
}

/// What the prime guard does next.
#[derive(Clone, Copy, Debug, PartialEq, Eq, Structural)]
pub enum GuardStep {
    /// Remember the affinity that is to be restored.
    Capture,
    /// Ask for the top-app profile.
    Attach,
    /// Pin execution to the prime CPU.
    Pin,
    /// Restore the remembered affinity.
    Unpin,
    /// Ask for the foreground profile.
    Release,
    /// The guard is held.
    Held,
    /// The guard could not be had.
    Failed,
}

/// Where acquiring a guard starts.
pub fn guard_start(enabled: bool, affinity: PrimeAffinity) -> (step: GuardStep)
    ensures
        step == (if !enabled {
            GuardStep::Held
        } else if affinity is Pinned {
            GuardStep::Capture
        } else {
            GuardStep::Attach
        }),
{
    if !enabled {
        GuardStep::Held
    } else {
        match affinity {
            PrimeAffinity::Pinned => GuardStep::Capture,
            PrimeAffinity::Available => GuardStep::Attach,
        }
    }
}

/// The step after one that went well or did not.
pub open spec fn guard_after(step: GuardStep, went_well: bool, affinity: PrimeAffinity) -> GuardStep {
    match step {
        GuardStep::Capture => if went_well {
            GuardStep::Attach
        } else {
            GuardStep::Failed
        },
        GuardStep::Attach => if !went_well {
            GuardStep::Failed
        } else if affinity is Pinned {
            GuardStep::Pin
        } else {
            GuardStep::Held
        },
        GuardStep::Pin => if went_well {
            GuardStep::Held
        } else {
            GuardStep::Unpin
        },
        GuardStep::Unpin => GuardStep::Release,
        GuardStep::Release => GuardStep::Failed,
        GuardStep::Held => GuardStep::Held,
        GuardStep::Failed => GuardStep::Failed,
    }
}

/// The step after one that went well or did not.
pub fn guard_next(step: GuardStep, went_well: bool, affinity: PrimeAffinity) -> (next: GuardStep)
    ensures
        next == guard_after(step, went_well, affinity),
{
    match step {
        GuardStep::Capture => if went_well {
            GuardStep::Attach
        } else {
            GuardStep::Failed
        },
        GuardStep::Attach => if !went_well {
            GuardStep::Failed
        } else {
            match affinity {
                PrimeAffinity::Pinned => GuardStep::Pin,
                PrimeAffinity::Available => GuardStep::Held,
            }
        },
        GuardStep::Pin => if went_well {
            GuardStep::Held
        } else {
            GuardStep::Unpin
        },
        GuardStep::Unpin => GuardStep::Release,
        GuardStep::Release => GuardStep::Failed,
        GuardStep::Held => GuardStep::Held,
        GuardStep::Failed => GuardStep::Failed,
    }
}

/// The step reached after a number of outcomes.
pub open spec fn guard_run(
    start: GuardStep,
    outcomes: Seq<bool>,
    affinity: PrimeAffinity,
) -> GuardStep
    decreases outcomes.len(),
{
    if outcomes.len() == 0 {
        start
    } else {
        guard_after(guard_run(start, outcomes.drop_last(), affinity), outcomes.last(), affinity)
    }
}

/// A process that got the top-app profile is never left with it by a guard that
/// failed: some step before the failure asked for the foreground profile.
pub proof fn failed_guards_are_released(outcomes: Seq<bool>, affinity: PrimeAffinity)
    requires
        outcomes.len() > 0,
        outcomes[0],
        guard_run(GuardStep::Attach, outcomes, affinity) is Failed,
    ensures
        exists|k: int|
            0 < k < outcomes.len() && #[trigger] guard_run(
                GuardStep::Attach,
                outcomes.take(k),
                affinity,
            ) is Release,
    decreases outcomes.len(),
{
    let before = outcomes.drop_last();
    let last = guard_run(GuardStep::Attach, before, affinity);
    assert(outcomes.take(outcomes.len() - 1) =~= before);
    if before.len() == 0 {
        assert(last == GuardStep::Attach);
    } else if last is Release {
        assert(guard_run(GuardStep::Attach, outcomes.take(outcomes.len() - 1), affinity) is Release);
    } else if last is Failed {
        failed_guards_are_released(before, affinity);
        let k = choose|k: int|
            0 < k < before.len() && #[trigger] guard_run(
                GuardStep::Attach,
                before.take(k),
                affinity,
            ) is Release;
        assert(outcomes.take(k) =~= before.take(k));
    } else {
        lemma_guard_moves_on(before, affinity);
    }
}

proof fn lemma_guard_moves_on(outcomes: Seq<bool>, affinity: PrimeAffinity)
    requires
        outcomes.len() > 0,
        outcomes[0],
    ensures
        !(guard_run(GuardStep::Attach, outcomes, affinity) is Attach),
        !(guard_run(GuardStep::Attach, outcomes, affinity) is Capture),
    decreases outcomes.len(),
{
    let before = outcomes.drop_last();
    if before.len() == 0 {
        assert(guard_run(GuardStep::Attach, before, affinity) == GuardStep::Attach);
        assert(outcomes.last() == outcomes[0]);
    } else {
        lemma_guard_moves_on(before, affinity);
    }
}

/// What dropping a guard does next.
#[derive(Clone, Copy, Debug, PartialEq, Eq, Structural)]
pub enum DropStep {
    /// Restore the remembered affinity.
    Restore,
    /// Ask for the foreground profile; then try the affinity again, or not.
    Release { retry: bool },
    /// Restore the remembered affinity once more.
    Retry,
    Done,
}

/// Where dropping a guard starts.
pub fn drop_start(held: bool, captured: bool) -> (step: DropStep)
    ensures
        step == (if !held {
            DropStep::Done
        } else if captured {
            DropStep::Restore
        } else {
            (DropStep::Release { retry: false })
        }),
{
    if !held {
        DropStep::Done
    } else if captured {
        DropStep::Restore
    } else {
        DropStep::Release { retry: false }
    }
}

/// The step after one that went well or did not: the foreground profile is asked
/// for whatever came before, and an affinity that could not be restored is tried
/// once more after that.
pub fn drop_next(step: DropStep, went_well: bool) -> (next: DropStep)
    ensures
        next == match step {
            DropStep::Restore => (DropStep::Release { retry: !went_well }),
            DropStep::Release { retry } => if retry {
                DropStep::Retry
            } else {
                DropStep::Done
            },
            DropStep::Retry => DropStep::Done,
            DropStep::Done => DropStep::Done,
        },
{
    match step {
        DropStep::Restore => DropStep::Release { retry: !went_well },
        DropStep::Release { retry } => if retry {
            DropStep::Retry
        } else {
            DropStep::Done
        },
        DropStep::Retry => DropStep::Done,
        DropStep::Done => DropStep::Done,
    }
}

/// The numbers among the names of a process's threads.
pub open spec fn thread_numbers(names: Seq<Seq<char>>) -> Set<u32>
    decreases names.len(),
{
    if names.len() == 0 {
        Set::empty()
    } else {
        let before = thread_numbers(names.drop_last());
        match number32(names.last()) {
            Some(n) => before.insert(n),
            None => before,
        }
    }
}

/// The threads of a process, in ascending order.
pub fn thread_ids(names: &[String]) -> (out: Vec<u32>)
    ensures
        ascending(out@),
        out@.to_set() == thread_numbers(views(names@)),
{
    let ghost all = views(names@);
    let mut out: Vec<u32> = Vec::new();
    let mut i: usize = 0;
    assert(out@.to_set() =~= Set::empty());
    assert(all.take(0).len() == 0);
    while i < names.len()
        invariant
            all == views(names@),
            i <= names@.len(),
            ascending(out@),
            out@.to_set() == thread_numbers(all.take(i as int)),
        decreases names@.len() - i,
    {
        assert(all.take(i + 1).drop_last() =~= all.take(i as int));
        assert(all.take(i + 1).last() == names@[i as int]@);
        let chars = chars_of(names[i].as_str());
        match parse_bounded(chars.as_slice(), u32::MAX as u64) {
            Some(n) => {
                insert_number(&mut out, n as u32);
            },
            None => {},
        }
        i += 1;
    }
    assert(all.take(i as int) =~= all);
    out
}

/// Why an attach that was applied did not give what was asked for.
pub open spec fn withheld_text(cpu: u32, pid: u32, allowed: Seq<char>) -> Seq<char> {
    "Android applied top-app, but CPU "@ + decimal(cpu as nat) + " is still outside PID "@ + decimal(
        pid as nat,
    ) + " affinity ("@ + allowed + ")"@
}

/// Whether a profile change took hold: an attach has to make the prime CPU
/// available, where that can be told. Gives the message otherwise.
pub fn confirm_profile(
    action: PrimeAction,
    pid: u32,
    prime_core: Option<u32>,
    prime_available: Option<bool>,
    allowed: &str,
) -> (r: Result<(), String>)
    ensures
        r is Ok <==> !(action is Attach && prime_available == Some(false)),
        r is Err ==> r->Err_0@ == withheld_text(
            match prime_core {
                Some(cpu) => cpu,
                None => 0,
            },
            pid,
            allowed@,
        ),
{
    let withheld = match (action, prime_available) {
        (PrimeAction::Attach, Some(false)) => true,
        _ => false,
    };
    if !withheld {
        return Ok(());
    }
    let cpu: u32 = match prime_core {
        Some(cpu) => cpu,
        None => 0,
    };
    let mut out = "Android applied top-app, but CPU ".to_owned();
    push_decimal(&mut out, cpu as u64);
    out.append(" is still outside PID ");
    push_decimal(&mut out, pid as u64);
    out.append(" affinity (");
    out.append(allowed);
    out.append(")");
    Err(out)
}

/// Whether pinning took hold. Gives the message otherwise.
pub fn confirm_pinned(cpu: u32, live: &[u32]) -> (r: Result<(), String>)
    ensures
        r is Ok <==> live@ == seq![cpu],
        forall|list: Seq<u32>|
            #![trigger ascending(list)]
            r is Err && ascending(list) && list.to_set() == live@.to_set() ==> r->Err_0@
                == "requested CPU "@ + decimal(cpu as nat) + ", but the live affinity is "@
                + ranges_text(list, 0),
{
    if live.len() == 1 && live[0] == cpu {
        assert(live@ =~= seq![cpu]);
        return Ok(());
    }
    assert(live@ == seq![cpu] ==> live@.len() == 1 && live@[0] == cpu);
    let mut out = "requested CPU ".to_owned();
    push_decimal(&mut out, cpu as u64);
    out.append(", but the live affinity is ");
    out.append(format_cpu_list(live).as_str());
    Err(out)
}

/// What is built.
#[derive(Clone, Copy, Debug, PartialEq, Eq, Structural)]
pub enum BuildTarget {
    Rust,
    C17,
    All,
}

impl BuildTarget {
    /// Whether the part in Rust is built, and whether the part in C is.
    pub fn parts(self) -> (r: (bool, bool))
        ensures
            r.0 == !(self is C17),
            r.1 == !(self is Rust),
    {
        match self {
            BuildTarget::Rust => (true, false),
            BuildTarget::C17 => (false, true),
            BuildTarget::All => (true, true),
        }
    }
}

/// The flags of the build in C.
pub const NATIVE_CFLAGS: &'static str = "-std=c17 -Wall -Wextra -Wpedantic -O3 -mcpu=native -flto=thin -Iinclude -D_POSIX_C_SOURCE=200809L -D_XOPEN_SOURCE=700";

/// The flags of the linker in C.
pub const NATIVE_LDFLAGS: &'static str = "-pthread -fuse-ld=lld -flto=thin";

/// The flags of the build in Rust.
pub const NATIVE_RUSTFLAGS: &'static str = "-C target-cpu=native -C linker=clang -C link-arg=-fuse-ld=lld";

/// The arguments of the build in C, by way of a cache where there is one.
pub open spec fn c_arguments(jobs: u64, cache: Option<Seq<char>>) -> Seq<Seq<char>> {
    seq![
        "-C"@,
        "c_cpp"@,
        "-B"@,
        "-j"@ + decimal(jobs as nat),
        (match cache {
            Some(path) => "CC="@ + path + " clang"@,
            None => "CC=clang"@,
        }),
        "CFLAGS="@ + NATIVE_CFLAGS@,
        "LDFLAGS="@ + NATIVE_LDFLAGS@,
        "all"@,
    ]
}

/// The arguments of the build in C, by way of a cache where there is one.
pub fn c17_arguments(jobs: u64, cache: &Option<String>) -> (out: Vec<String>)
    ensures
        views(out@) == c_arguments(jobs, crate::text::shown_as(*cache)),
{
    let mut count = "-j".to_owned();
    push_decimal(&mut count, jobs);
    let compiler = match cache {
        Some(path) => {
            let mut text = "CC=".to_owned();
            text.append(path.as_str());
            text.append(" clang");
            text
        },
        None => "CC=clang".to_owned(),
    };
    let out: Vec<String> = vec![
        "-C".to_owned(),
        "c_cpp".to_owned(),
        "-B".to_owned(),
        count,
        compiler,
        "CFLAGS=".to_owned().concat(NATIVE_CFLAGS),
        "LDFLAGS=".to_owned().concat(NATIVE_LDFLAGS),
        "all".to_owned(),
    ];
    assert(views(out@) =~= c_arguments(jobs, crate::text::shown_as(*cache)));
    out
}

/// What is said of a process that was moved.
pub open spec fn moved_text(
    pid: u32,
    group: Seq<char>,
    cpuset: Seq<char>,
    allowed: Seq<char>,
) -> Seq<char> {
    "ostadix-device: PID "@ + decimal(pid as nat) + " -> "@ + group + " (cpuset "@ + cpuset
        + ", CPUs "@ + allowed + ")"@
}

/// What is said of a process that was moved.
pub fn moved_line(pid: u32, action: PrimeAction, cpuset: &Option<String>, allowed: &str) -> (out:
    String)
    ensures
        out@ == moved_text(
            pid,
            match action {
                PrimeAction::Attach => "top-app"@,
                PrimeAction::Release => "foreground"@,
            },
            crate::doctor::shown(*cpuset),
            crate::doctor::nonempty_shown(allowed@),
        ),
{
    let mut out = "ostadix-device: PID ".to_owned();
    push_decimal(&mut out, pid as u64);
    out.append(" -> ");
    out.append(action.group());
    out.append(" (cpuset ");
    out.append(crate::doctor::show(cpuset));
    out.append(", CPUs ");
    out.append(crate::doctor::empty_as_unavailable(allowed));
    out.append(")");
    out
}

} // verus!
