//! What holds of the findings on a device and of what is read of its processes.

use vstd::prelude::*;

use crate::device::{guard_run, thread_numbers, GuardStep, PrimeAffinity};
use crate::doctor::{CheckLevel, DeviceFacts, Finding};
use crate::files::{last_position, lemma_last_position};
use crate::process::{
    line_with, meminfo_line, meminfo_value, number32, number64, start_time, uids, UidError,
};
use crate::receipt_laws::{lemma_words_blank_by, lemma_words_step, one_word};
use crate::text::{
    decimal, decimal_spells, is_ascii_digit, is_space, lemma_position_is, position_from,
    without_return, words,
};
use crate::text_laws::{blank, lemma_line_read, lemma_starts, lemma_word_first};

verus! {

/// Whether a diagnosis finds something of a name, and each time at that level.
pub open spec fn finds(list: Seq<Finding>, name: Seq<char>, level: CheckLevel) -> bool {
    &&& exists|i: int| 0 <= i < list.len() && (#[trigger] list[i]).name == name
    &&& forall|i: int| 0 <= i < list.len() && (#[trigger] list[i]).name == name ==> list[i].level == level
}

/// Each finding says of the device what it is named after: those that are needed
/// pass or fail, and the others pass or warn.
pub proof fn findings_say_what_is_found(facts: DeviceFacts)
    ensures
        ({
            let all = facts.diagnosis();
            let needed = |passed: bool| if passed { CheckLevel::Pass } else { CheckLevel::Fail };
            let wanted = |passed: bool| if passed { CheckLevel::Pass } else { CheckLevel::Warn };
            &&& finds(all, "android"@, needed(facts.android))
            &&& finds(all, "termux"@, needed(facts.termux))
            &&& finds(all, "architecture"@, needed(facts.architecture@ == "aarch64"@))
            &&& finds(all, "project"@, needed(facts.checkout))
            &&& finds(all, "private-storage"@, wanted(facts.private_storage))
            &&& finds(all, "evaluator"@, needed(facts.evaluator is Some))
            &&& finds(all, "backends"@, needed(facts.backends_present))
            &&& finds(
                all,
                "rust-toolchain"@,
                needed(facts.rustc is Some && facts.cargo is Some),
            )
            &&& finds(
                all,
                "native-toolchain"@,
                wanted(facts.clang is Some && facts.linker is Some),
            )
            &&& finds(all, "compiler-cache"@, wanted(facts.sccache && facts.ccache))
            &&& facts.prime_available == Some(true) ==> finds(
                all,
                "prime-core"@,
                CheckLevel::Pass,
            )
            &&& facts.prime_available == Some(false) ==> finds(
                all,
                "prime-core"@,
                CheckLevel::Info,
            )
            &&& facts.prime_available is None ==> finds(all, "prime-core"@, CheckLevel::Warn)
            &&& all.len() == 13
        }),
{
    reveal_strlit("android");
    reveal_strlit("termux");
    reveal_strlit("architecture");
    reveal_strlit("project");
    reveal_strlit("private-storage");
    reveal_strlit("evaluator");
    reveal_strlit("backends");
    reveal_strlit("rust-toolchain");
    reveal_strlit("native-toolchain");
    reveal_strlit("compiler-cache");
    reveal_strlit("prime-core");
    reveal_strlit("root-surface");
    reveal_strlit("thermal-safety");
    let all = facts.diagnosis();
    assert("android"@.len() == 7 && "termux"@.len() == 6 && "architecture"@.len() == 12
        && "project"@.len() == 7 && "private-storage"@.len() == 15 && "evaluator"@.len() == 9
        && "backends"@.len() == 8 && "rust-toolchain"@.len() == 14 && "native-toolchain"@.len() == 16
        && "compiler-cache"@.len() == 14 && "prime-core"@.len() == 10 && "root-surface"@.len() == 12
        && "thermal-safety"@.len() == 14);
    assert("android"@[0] == 'a' && "project"@[0] == 'p' && "architecture"@[0] == 'a'
        && "root-surface"@[0] == 'r' && "rust-toolchain"@[0] == 'r' && "compiler-cache"@[0] == 'c'
        && "thermal-safety"@[0] == 't');
    assert(all.len() == 13);
    assert(all[0].name == "android"@ && all[1].name == "termux"@ && all[2].name == "architecture"@
        && all[3].name == "project"@ && all[4].name == "private-storage"@ && all[5].name
        == "evaluator"@ && all[6].name == "backends"@ && all[7].name == "rust-toolchain"@
        && all[8].name == "native-toolchain"@ && all[9].name == "compiler-cache"@ && all[10].name
        == "prime-core"@ && all[11].name == "root-surface"@ && all[12].name == "thermal-safety"@);
}

/// A device is ready exactly where everything that is needed is there.
pub proof fn ready_devices_have_everything(facts: DeviceFacts)
    ensures
        facts.ready() <==> facts.android && facts.termux && facts.architecture@ == "aarch64"@
            && facts.checkout && facts.evaluator is Some && facts.backends_present && facts.rustc
            is Some && facts.cargo is Some,
{
}

proof fn lemma_number(n: nat)
    ensures
        n <= u64::MAX ==> number64(decimal(n)) == Some(n as u64),
        n <= u32::MAX ==> number32(decimal(n)) == Some(n as u32),
        one_word(decimal(n)),
        decimal(n)[0] != '+',
{
    decimal_spells(n);
    let d = decimal(n);
    assert(is_ascii_digit(d[0]));
    assert forall|i: int| 0 <= i < d.len() implies !is_space(#[trigger] d[i]) by {
        assert(is_ascii_digit(d[i]));
    }
}

/// A line that starts with a prefix is found behind lines that do not.
proof fn lemma_line_found(before: Seq<char>, prefix: Seq<char>, s: Seq<char>)
    requires
        before.len() > 0 ==> before.last() == '\n',
        line_with(before, prefix) is None,
    ensures
        line_with(before + s, prefix) == line_with(s, prefix),
    decreases before.len(),
{
    if before.len() > 0 {
        let p = position_from(before, 0, '\n');
        crate::text::lemma_position_from(before, 0, '\n');
        let line = before.take(p);
        let rest = before.skip(p + 1);
        if p == before.len() {
            assert(before[before.len() - 1] != '\n');
        }
        assert(!line.contains('\n')) by {
            if line.contains('\n') {
                let j = choose|j: int| 0 <= j < line.len() && line[j] == '\n';
                assert(before[j] == '\n');
            }
        }
        assert(before =~= line + seq!['\n'] + rest);
        assert(before + s =~= line + seq!['\n'] + (rest + s));
        lemma_line_read(line, rest);
        lemma_line_read(line, rest + s);
        assert(without_return(before) =~= without_return(before + s)) by {
            if p > 0 {
                assert((before + s)[p - 1] == before[p - 1]);
                assert((before + s).take(p - 1) =~= before.take(p - 1));
            }
            assert((before + s).take(p) =~= before.take(p));
        }
        if rest.len() > 0 {
            assert(rest.last() == before.last());
        }
        lemma_line_found(rest, prefix, s);
    } else {
        assert(before + s =~= s);
    }
}

/// The identities of a process are those on its line, in that order.
pub proof fn identities_are_read_in_order(
    before: Seq<char>,
    a: u32,
    b: u32,
    c: u32,
    d: u32,
    after: Seq<char>,
)
    requires
        before.len() > 0 ==> before.last() == '\n',
        line_with(before, "Uid:"@) is None,
    ensures
        uids(
            before + ("Uid:\t"@ + decimal(a as nat) + "\t"@ + decimal(b as nat) + "\t"@ + decimal(
                c as nat,
            ) + "\t"@ + decimal(d as nat) + "\n"@ + after),
        ) == Ok::<Seq<u32>, UidError>(seq![a, b, c, d]),
{
    reveal_strlit("Uid:");
    reveal_strlit("Uid:\t");
    reveal_strlit("\t");
    reveal_strlit("\n");
    let x = decimal(a as nat);
    let y = decimal(b as nat);
    let z = decimal(c as nat);
    let w = decimal(d as nat);
    lemma_number(a as nat);
    lemma_number(b as nat);
    lemma_number(c as nat);
    lemma_number(d as nat);
    let tab = seq!['\t'];
    let line = "Uid:"@ + (tab + (x + (tab + (y + (tab + (z + (tab + w)))))));
    let s = "Uid:\t"@ + x + "\t"@ + y + "\t"@ + z + "\t"@ + w + "\n"@ + after;
    assert(s =~= line + seq!['\n'] + after);
    lemma_digits_only(x);
    lemma_digits_only(y);
    lemma_digits_only(z);
    lemma_digits_only(w);
    assert(!line.contains('\n')) by {
        if line.contains('\n') {
            let j = choose|j: int| 0 <= j < line.len() && line[j] == '\n';
            let n1 = 5 + x.len();
            let n2 = n1 + 1 + y.len();
            let n3 = n2 + 1 + z.len();
            if 5 <= j < n1 {
                assert(x[j - 5] == '\n');
            } else if n1 < j < n2 {
                assert(y[j - n1 - 1] == '\n');
            } else if n2 < j < n3 {
                assert(z[j - n2 - 1] == '\n');
            } else if n3 < j {
                assert(w[j - n3 - 1] == '\n');
            }
        }
    }
    lemma_line_found(before, "Uid:"@, s);
    lemma_line_read(line, after);
    assert(w.len() > 0);
    assert(line.last() == w.last());
    assert(is_ascii_digit(w[w.len() - 1]));
    assert(s[line.len() - 1] == line.last());
    assert(without_return(s) =~= line);
    lemma_starts("Uid:"@, tab + (x + (tab + (y + (tab + (z + (tab + w)))))));
    let none = Seq::<char>::empty();
    assert(one_word("Uid:"@));
    lemma_words_step(w, none);
    assert(w + none =~= w);
    assert(words(none) =~= Seq::<Seq<char>>::empty());
    lemma_words_blank_by('\t', w);
    lemma_words_step(z, tab + w);
    let s3 = z + (tab + w);
    lemma_words_blank_by('\t', s3);
    lemma_words_step(y, tab + s3);
    let s2 = y + (tab + s3);
    lemma_words_blank_by('\t', s2);
    lemma_words_step(x, tab + s2);
    let s1 = x + (tab + s2);
    lemma_words_blank_by('\t', s1);
    lemma_words_step("Uid:"@, tab + s1);
    let all = words(line);
    assert(all =~= seq!["Uid:"@, x, y, z, w]);
    let values = all.skip(1);
    assert(values =~= seq![x, y, z, w]);
    assert(values.map_values(|v: Seq<char>| number32(v)->Some_0) =~= seq![a, b, c, d]);
}

proof fn lemma_digits_only(d: Seq<char>)
    requires
        one_word(d),
    ensures
        forall|i: int| 0 <= i < d.len() ==> #[trigger] d[i] != '\n',
{
    assert forall|i: int| 0 <= i < d.len() implies #[trigger] d[i] != '\n' by {
        assert(!is_space(d[i]));
    }
}

/// A process started when the twentieth field behind its command says, whatever
/// brackets the command has in it.
pub proof fn start_times_stand_behind_the_command(head: Seq<char>, rest: Seq<char>, n: u64)
    requires
        !rest.contains(')'),
        words(rest).len() > 19,
        words(rest)[19] == decimal(n as nat),
    ensures
        start_time(head + seq![')'] + rest) is Ok,
        start_time(head + seq![')'] + rest)->Ok_0 == n,
{
    let stat = head + seq![')'] + rest;
    lemma_last_position(stat, ')');
    let end = last_position(stat, ')');
    assert(stat[head.len() as int] == ')');
    if end > head.len() {
        assert(rest[end - head.len() - 1] == ')');
    }
    assert(stat.skip(end + 1) =~= rest);
    lemma_number(n as nat);
}

/// Memory is told by the number on the first line of its name.
pub proof fn memory_is_read_by_name(key: Seq<char>, gap: Seq<char>, n: u64, q: Seq<char>, after: Seq<char>)
    requires
        !key.contains(':'),
        !key.contains('\n'),
        blank(gap),
        !q.contains('\n'),
        q.len() > 0 ==> q[0] == ' ',
    ensures
        meminfo_value(
            (key + seq![':'] + gap + decimal(n as nat) + q) + seq!['\n'] + after,
            key,
        ) == Some(n),
{
    let d = decimal(n as nat);
    lemma_number(n as nat);
    let line = key + seq![':'] + gap + d + q;
    let s = line + seq!['\n'] + after;
    lemma_digits_only(d);
    assert(!line.contains('\n')) by {
        if line.contains('\n') {
            let j = choose|j: int| 0 <= j < line.len() && line[j] == '\n';
            let k = key.len();
            let g = k + 1 + gap.len();
            if j < k {
                assert(key[j] == '\n');
            } else if k < j < g {
                assert(gap[j - k - 1] == '\n');
            } else if g <= j < g + d.len() {
                assert(d[j - g] == '\n');
            } else if j >= g + d.len() {
                assert(q[j - g - d.len()] == '\n');
            }
        }
    }
    lemma_line_read(line, after);
    let read = without_return(s);
    let p = line.len() as int;
    let m = if p > 0 && s[p - 1] == '\r' { p - 1 } else { p };
    assert(read =~= line.take(m)) by {
        assert(s.take(p) =~= line);
        assert(p > 0 ==> s.take(p - 1) =~= line.take(p - 1));
    }
    let start = key.len() + 1 + gap.len() + d.len();
    let tail = q.take(m - start);
    if s[p - 1] == '\r' {
        assert(s[p - 1] == line[p - 1]);
        if q.len() == 0 {
            assert(line[p - 1] == d[d.len() - 1]);
            assert(!is_space(d[d.len() - 1]));
        }
    }
    assert(read =~= key + seq![':'] + gap + d + tail);
    let colon = key.len() as int;
    assert forall|j: int| 0 <= j < colon implies read[j] != ':' by {
        assert(read[j] == key[j]);
        assert(key.contains(key[j]));
    }
    assert(read[colon] == ':');
    lemma_position_is(read, 0, ':', colon);
    assert(read.take(colon) =~= key);
    assert(read.skip(colon + 1) =~= gap + d + tail);
    lemma_word_first(gap, d, tail);
    assert(meminfo_line(read, key) == Some(n));
}

/// Every thread is counted that has a number for its name, and nothing else is.
pub proof fn threads_are_told_by_number(names: Seq<Seq<char>>, n: u32)
    ensures
        thread_numbers(names).contains(n) <==> exists|i: int|
            0 <= i < names.len() && number32(#[trigger] names[i]) == Some(n),
        names.contains(decimal(n as nat)) ==> thread_numbers(names).contains(n),
    decreases names.len(),
{
    lemma_number(n as nat);
    if names.len() > 0 {
        let init = names.drop_last();
        threads_are_told_by_number(init, n);
        assert(names[names.len() - 1] == names.last());
        if exists|i: int| 0 <= i < init.len() && number32(#[trigger] init[i]) == Some(n) {
            let i = choose|i: int| 0 <= i < init.len() && number32(#[trigger] init[i]) == Some(n);
            assert(names[i] == init[i]);
        }
        if exists|i: int| 0 <= i < names.len() && number32(#[trigger] names[i]) == Some(n) {
            let i = choose|i: int| 0 <= i < names.len() && number32(#[trigger] names[i]) == Some(n);
            if i < init.len() {
                assert(init[i] == names[i]);
            }
        }
    }
    if names.contains(decimal(n as nat)) {
        let i = choose|i: int| 0 <= i < names.len() && names[i] == decimal(n as nat);
        assert(number32(names[i]) == Some(n));
    }
}

/// A guard for which everything goes well first captures what there is, where it
/// pins a processor, then attaches, then pins, and holds from then on; without a
/// processor to pin it attaches and holds.
pub proof fn guards_hold_when_all_goes_well(outcomes: Seq<bool>, affinity: PrimeAffinity)
    requires
        forall|i: int| 0 <= i < outcomes.len() ==> #[trigger] outcomes[i],
    ensures
        affinity == PrimeAffinity::Pinned ==> guard_run(GuardStep::Capture, outcomes, affinity) == (
        if outcomes.len() == 0 {
            GuardStep::Capture
        } else if outcomes.len() == 1 {
            GuardStep::Attach
        } else if outcomes.len() == 2 {
            GuardStep::Pin
        } else {
            GuardStep::Held
        }),
        affinity == PrimeAffinity::Available ==> guard_run(GuardStep::Attach, outcomes, affinity)
            == (if outcomes.len() == 0 {
            GuardStep::Attach
        } else {
            GuardStep::Held
        }),
    decreases outcomes.len(),
{
    if outcomes.len() > 0 {
        let init = outcomes.drop_last();
        assert forall|i: int| 0 <= i < init.len() implies #[trigger] init[i] by {
            assert(outcomes[i]);
        }
        guards_hold_when_all_goes_well(init, affinity);
        assert(outcomes[outcomes.len() - 1]);
    }
}

} // verus!
