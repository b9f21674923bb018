//! Semantic receipts: what a source declares of a group of steps, what a change
//! of it means, and what is lost when it is lowered.

use vstd::prelude::*;
use vstd::slice::slice_subrange;

use crate::components::{below, path_below};
use crate::paths::{join_path, joined_path};
use crate::text::{
    chars_of, eq_str_chars, join, joined, lines,
    split_at_text, split_lines, split_text, split_words, starts_with, starts_with_chars, string_of,
    texts, trim, trim_slice, views, words,
};

verus! {

/// The files that a group reads and writes.
#[derive(Debug)]
pub struct Effects {
    pub read: String,
    pub write: String,
}

/// What a source declares of a group.
#[derive(Debug)]
pub struct DemoProgram {
    pub group: String,
    pub policy: String,
    pub invariant: String,
    pub effects: Effects,
    pub steps: Vec<String>,
    pub intent: String,
}

/// What a source declares of a group, its texts as sequences.
pub ghost struct Declared {
    pub group: Seq<char>,
    pub policy: Seq<char>,
    pub invariant: Seq<char>,
    pub read: Seq<char>,
    pub write: Seq<char>,
    pub steps: Seq<Seq<char>>,
    pub intent: Seq<char>,
}

impl View for DemoProgram {
    type V = Declared;

    open spec fn view(&self) -> Declared {
        Declared {
            group: self.group@,
            policy: self.policy@,
            invariant: self.invariant@,
            read: self.effects.read@,
            write: self.effects.write@,
            steps: views(self.steps@),
            intent: self.intent@,
        }
    }
}

/// Why a source cannot be read.
#[derive(Clone, Copy, Debug, PartialEq, Eq, Structural)]
pub enum DemoError {
    ReadWithoutPath,
    WriteWithoutPath,
    NoRead,
    NoWrite,
    NoGroup,
    NoPolicy,
    NoInvariant,
    NoEffects,
    NoSteps,
    NoIntent,
    TooFewSteps,
}

impl DemoError {
    pub fn to_text(self) -> (text: &'static str)
        ensures
            text@ == (match self {
                DemoError::ReadWithoutPath => "effects declaration has `read` without a path"@,
                DemoError::WriteWithoutPath => "effects declaration has `write` without a path"@,
                DemoError::NoRead => "effects declaration missing `read PATH`"@,
                DemoError::NoWrite => "effects declaration missing `write PATH`"@,
                DemoError::NoGroup => "missing `# ogit: group ...` declaration"@,
                DemoError::NoPolicy => "missing `# ogit: policy ...` declaration"@,
                DemoError::NoInvariant => "missing `# ogit: invariant ...` declaration"@,
                DemoError::NoEffects => "missing `# ogit: effects ...` declaration"@,
                DemoError::NoSteps => "missing `# ogit: steps ...` declaration"@,
                DemoError::NoIntent => "missing `# ogit: intent ...` declaration"@,
                DemoError::TooFewSteps => "semantic receipt demo needs at least two ordered steps"@,
            }),
    {
        match self {
            DemoError::ReadWithoutPath => "effects declaration has `read` without a path",
            DemoError::WriteWithoutPath => "effects declaration has `write` without a path",
            DemoError::NoRead => "effects declaration missing `read PATH`",
            DemoError::NoWrite => "effects declaration missing `write PATH`",
            DemoError::NoGroup => "missing `# ogit: group ...` declaration",
            DemoError::NoPolicy => "missing `# ogit: policy ...` declaration",
            DemoError::NoInvariant => "missing `# ogit: invariant ...` declaration",
            DemoError::NoEffects => "missing `# ogit: effects ...` declaration",
            DemoError::NoSteps => "missing `# ogit: steps ...` declaration",
            DemoError::NoIntent => "missing `# ogit: intent ...` declaration",
            DemoError::TooFewSteps => "semantic receipt demo needs at least two ordered steps",
        }
    }
}

/// The paths that words name behind `read` and `write`, the later one where
/// there are two, with those found before.
pub open spec fn named_paths(
    list: Seq<Seq<char>>,
    read: Option<Seq<char>>,
    write: Option<Seq<char>>,
) -> Result<(Seq<char>, Seq<char>), DemoError>
    decreases list.len(),
{
    if list.len() == 0 {
        match (read, write) {
            (None, _) => Err(DemoError::NoRead),
            (Some(_), None) => Err(DemoError::NoWrite),
            (Some(r), Some(w)) => Ok((r, w)),
        }
    } else if list[0] == "read"@ {
        if list.len() < 2 {
            Err(DemoError::ReadWithoutPath)
        } else {
            named_paths(list.skip(2), Some(list[1]), write)
        }
    } else if list[0] == "write"@ {
        if list.len() < 2 {
            Err(DemoError::WriteWithoutPath)
        } else {
            named_paths(list.skip(2), read, Some(list[1]))
        }
    } else {
        named_paths(list.skip(1), read, write)
    }
}

/// The files that a declaration of effects names.
pub open spec fn declared_paths(value: Seq<char>) -> Result<(Seq<char>, Seq<char>), DemoError> {
    named_paths(words(value), None, None)
}

fn text_of(chars: &[char]) -> (out: String)
    ensures
        out@ == chars@,
{
    let out = string_of(chars, 0, chars.len());
    assert(out@ =~= chars@);
    out
}

/// Reads a declaration of effects.
pub fn parse_effects(value: &str) -> (r: Result<Effects, DemoError>)
    ensures
        match r {
            Ok(effects) => declared_paths(value@) == Ok::<(Seq<char>, Seq<char>), DemoError>(
                (effects.read@, effects.write@),
            ),
            Err(error) => declared_paths(value@) == Err::<(Seq<char>, Seq<char>), DemoError>(error),
        },
{
    let parts = split_words(chars_of(value).as_slice());
    let ghost all = texts(parts@);
    let n: usize = parts.len();
    let mut read: Option<String> = None;
    let mut write: Option<String> = None;
    let mut i: usize = 0;
    assert(all.skip(0) =~= all);
    while i < n
        invariant
            n == parts@.len(),
            all == texts(parts@),
            all == words(value@),
            i <= n,
            named_paths(
                all.skip(i as int),
                crate::text::shown_as(read),
                crate::text::shown_as(write),
            ) == declared_paths(value@),
        decreases n - i,
    {
        let ghost rest = all.skip(i as int);
        assert(rest[0] == parts@[i as int]@);
        assert(rest.skip(1) =~= all.skip(i + 1));
        let word = parts[i].as_slice();
        if eq_str_chars("read", word) {
            if i + 1 >= n {
                return Err(DemoError::ReadWithoutPath);
            }
            assert(rest[1] == parts@[i + 1]@);
            assert(rest.skip(2) =~= all.skip(i + 2));
            read = Some(text_of(parts[i + 1].as_slice()));
            i += 2;
        } else if eq_str_chars("write", word) {
            if i + 1 >= n {
                return Err(DemoError::WriteWithoutPath);
            }
            assert(rest[1] == parts@[i + 1]@);
            assert(rest.skip(2) =~= all.skip(i + 2));
            write = Some(text_of(parts[i + 1].as_slice()));
            i += 2;
        } else {
            i += 1;
        }
    }
    match (read, write) {
        (None, _) => Err(DemoError::NoRead),
        (Some(_), None) => Err(DemoError::NoWrite),
        (Some(read), Some(write)) => Ok(Effects { read, write }),
    }
}

/// What a line declares under a name, if it declares anything under it.
pub open spec fn declaration(line: Seq<char>, key: Seq<char>) -> Option<Seq<char>> {
    let t = trim(line);
    let prefix = "# ogit: "@;
    if !starts_with(t, prefix) {
        None
    } else if !starts_with(t.skip(prefix.len() as int), key) {
        None
    } else {
        Some(t.skip(prefix.len() as int).skip(key.len() as int))
    }
}

/// What the last line that declares anything under a name declares.
pub open spec fn last_declared(list: Seq<Seq<char>>, key: Seq<char>) -> Option<Seq<char>>
    decreases list.len(),
{
    if list.len() == 0 {
        None
    } else {
        match declaration(list.last(), key) {
            Some(value) => Some(value),
            None => last_declared(list.drop_last(), key),
        }
    }
}

/// What is wrong with the first declaration of effects that cannot be read.
pub open spec fn first_fault(list: Seq<Seq<char>>) -> Option<DemoError>
    decreases list.len(),
{
    if list.len() == 0 {
        None
    } else {
        match first_fault(list.drop_last()) {
            Some(error) => Some(error),
            None => match declaration(list.last(), "effects "@) {
                Some(value) => match declared_paths(value) {
                    Ok(_) => None,
                    Err(error) => Some(error),
                },
                None => None,
            },
        }
    }
}

/// The texts of a list that are not blank, without the whitespace around them.
pub open spec fn nonblank(list: Seq<Seq<char>>) -> Seq<Seq<char>>
    decreases list.len(),
{
    if list.len() == 0 {
        list
    } else {
        let before = nonblank(list.drop_last());
        if trim(list.last()).len() == 0 {
            before
        } else {
            before.push(trim(list.last()))
        }
    }
}

/// The steps that a declaration names.
pub open spec fn declared_steps(value: Seq<char>) -> Seq<Seq<char>> {
    nonblank(split_text(value, "->"@))
}

/// What a source declares: under each name, what the last line says.
pub open spec fn declared(source: Seq<char>) -> Result<Declared, DemoError> {
    let list = lines(source);
    match first_fault(list) {
        Some(error) => Err(error),
        None => match last_declared(list, "group "@) {
            None => Err(DemoError::NoGroup),
            Some(group) => match last_declared(list, "policy "@) {
                None => Err(DemoError::NoPolicy),
                Some(policy) => match last_declared(list, "invariant "@) {
                    None => Err(DemoError::NoInvariant),
                    Some(condition) => match last_declared(list, "effects "@) {
                        None => Err(DemoError::NoEffects),
                        Some(effects) => match last_declared(list, "steps "@) {
                            None => Err(DemoError::NoSteps),
                            Some(steps) => match last_declared(list, "intent "@) {
                                None => Err(DemoError::NoIntent),
                                Some(intent) => if declared_steps(steps).len() < 2 {
                                    Err(DemoError::TooFewSteps)
                                } else {
                                    Ok(
                                        Declared {
                                            group: trim(group),
                                            policy: trim(policy),
                                            invariant: trim(condition),
                                            read: declared_paths(effects)->Ok_0.0,
                                            write: declared_paths(effects)->Ok_0.1,
                                            steps: declared_steps(steps),
                                            intent: trim(intent),
                                        },
                                    )
                                },
                            },
                        },
                    },
                },
            },
        },
    }
}

fn read_steps(value: &[char]) -> (out: Vec<String>)
    ensures
        views(out@) == declared_steps(value@),
{
    let arrow = chars_of("->");
    proof {
        reveal_strlit("->");
    }
    let parts = split_at_text(value, arrow.as_slice());
    let ghost all = texts(parts@);
    let mut out: Vec<String> = Vec::new();
    let mut i: usize = 0;
    assert(views(out@) =~= nonblank(all.take(0)));
    while i < parts.len()
        invariant
            all == texts(parts@),
            i <= parts@.len(),
            views(out@) == nonblank(all.take(i as int)),
        decreases parts@.len() - i,
    {
        assert(all.take(i + 1).drop_last() =~= all.take(i as int));
        assert(all.take(i + 1).last() == parts@[i as int]@);
        let t = trim_slice(parts[i].as_slice());
        if t.len() > 0 {
            let ghost before = views(out@);
            out.push(text_of(t));
            assert(views(out@) =~= before.push(t@));
        }
        i += 1;
    }
    assert(all.take(i as int) =~= all);
    out
}

fn declared_value<'a>(line: &'a [char], key: &str) -> (r: Option<&'a [char]>)
    ensures
        match r {
            Some(value) => declaration(line@, key@) == Some(value@),
            None => declaration(line@, key@) is None,
        },
{
    let t = trim_slice(line);
    let prefix = chars_of("# ogit: ");
    if !starts_with_chars(t, prefix.as_slice()) {
        return None;
    }
    let rest = slice_subrange(t, prefix.len(), t.len());
    assert(rest@ =~= t@.skip(prefix@.len() as int));
    let name = chars_of(key);
    if !starts_with_chars(rest, name.as_slice()) {
        return None;
    }
    let value = slice_subrange(rest, name.len(), rest.len());
    assert(value@ =~= rest@.skip(name@.len() as int));
    Some(value)
}

/// The last of several lines that declares anything under a name, and what.
fn last_value(list: &Vec<Vec<char>>, key: &str) -> (r: Option<Vec<char>>)
    ensures
        match r {
            Some(value) => last_declared(texts(list@), key@) == Some(value@),
            None => last_declared(texts(list@), key@) is None,
        },
{
    let ghost all = texts(list@);
    let mut i: usize = list.len();
    assert(all.take(i as int) =~= all);
    while i > 0
        invariant
            all == texts(list@),
            i <= list@.len(),
            last_declared(all, key@) == last_declared(all.take(i as int), key@),
        decreases i,
    {
        assert(all.take(i as int).drop_last() =~= all.take(i - 1));
        assert(all.take(i as int).last() == list@[i - 1]@);
        i -= 1;
        match declared_value(list[i].as_slice(), key) {
            Some(value) => {
                return Some(vstd::slice::slice_to_vec(value));
            },
            None => {},
        }
    }
    assert(all.take(0).len() == 0);
    None
}

proof fn lemma_first_fault(list: Seq<Seq<char>>, i: int)
    requires
        0 <= i <= list.len(),
        first_fault(list.take(i)) is Some,
    ensures
        first_fault(list) == first_fault(list.take(i)),
    decreases list.len(),
{
    if i == list.len() {
        assert(list.take(i) =~= list);
    } else {
        assert(list.drop_last().take(i) =~= list.take(i));
        lemma_first_fault(list.drop_last(), i);
    }
}

proof fn lemma_no_fault(list: Seq<Seq<char>>)
    requires
        first_fault(list) is None,
        last_declared(list, "effects "@) is Some,
    ensures
        declared_paths(last_declared(list, "effects "@)->Some_0) is Ok,
    decreases list.len(),
{
    if declaration(list.last(), "effects "@) is None {
        lemma_no_fault(list.drop_last());
    }
}

fn effects_fault(list: &Vec<Vec<char>>) -> (r: Option<DemoError>)
    ensures
        r == first_fault(texts(list@)),
{
    let ghost all = texts(list@);
    let mut i: usize = 0;
    assert(all.take(0).len() == 0);
    while i < list.len()
        invariant
            all == texts(list@),
            i <= list@.len(),
            first_fault(all.take(i as int)) is None,
        decreases list@.len() - i,
    {
        assert(all.take(i + 1).drop_last() =~= all.take(i as int));
        assert(all.take(i + 1).last() == list@[i as int]@);
        match declared_value(list[i].as_slice(), "effects ") {
            Some(value) => match parse_effects(text_of(value).as_str()) {
                Ok(_) => {},
                Err(error) => {
                    proof {
                        lemma_first_fault(all, i + 1);
                    }
                    return Some(error);
                },
            },
            None => {},
        }
        i += 1;
    }
    assert(all.take(i as int) =~= all);
    None
}

fn trimmed(value: &Vec<char>) -> (out: String)
    ensures
        out@ == trim(value@),
{
    text_of(trim_slice(value.as_slice()))
}

/// Reads what a source declares.
pub fn parse_demo_program(source: &str) -> (r: Result<DemoProgram, DemoError>)
    ensures
        match r {
            Ok(program) => declared(source@) == Ok::<Declared, DemoError>(program@),
            Err(error) => declared(source@) == Err::<Declared, DemoError>(error),
        },
{
    let list = split_lines(chars_of(source).as_slice());
    match effects_fault(&list) {
        Some(error) => {
            return Err(error);
        },
        None => {},
    }
    let group = match last_value(&list, "group ") {
        Some(value) => trimmed(&value),
        None => {
            return Err(DemoError::NoGroup);
        },
    };
    let policy = match last_value(&list, "policy ") {
        Some(value) => trimmed(&value),
        None => {
            return Err(DemoError::NoPolicy);
        },
    };
    let condition = match last_value(&list, "invariant ") {
        Some(value) => trimmed(&value),
        None => {
            return Err(DemoError::NoInvariant);
        },
    };
    let effects_value = match last_value(&list, "effects ") {
        Some(value) => value,
        None => {
            return Err(DemoError::NoEffects);
        },
    };
    proof {
        lemma_no_fault(lines(source@));
    }
    let steps = match last_value(&list, "steps ") {
        Some(value) => read_steps(value.as_slice()),
        None => {
            return Err(DemoError::NoSteps);
        },
    };
    let intent = match last_value(&list, "intent ") {
        Some(value) => trimmed(&value),
        None => {
            return Err(DemoError::NoIntent);
        },
    };
    assert(views(steps@).len() == steps@.len());
    if steps.len() < 2 {
        return Err(DemoError::TooFewSteps);
    }
    match parse_effects(text_of(effects_value.as_slice()).as_str()) {
        Ok(effects) => Ok(
            DemoProgram { group, policy, invariant: condition, effects, steps, intent },
        ),
        Err(error) => Err(error),
    }
}

/// A change in what a source means.
#[derive(Debug)]
pub struct SemanticChange {
    pub category: &'static str,
    pub subject: String,
    pub before: String,
    pub after: String,
    pub meaning: &'static str,
    pub implications: Vec<String>,
}

/// A change in what a source means, its texts as sequences.
pub ghost struct Change {
    pub category: Seq<char>,
    pub subject: Seq<char>,
    pub before: Seq<char>,
    pub after: Seq<char>,
    pub meaning: Seq<char>,
    pub implications: Seq<Seq<char>>,
}

impl View for SemanticChange {
    type V = Change;

    open spec fn view(&self) -> Change {
        Change {
            category: self.category@,
            subject: self.subject@,
            before: self.before@,
            after: self.after@,
            meaning: self.meaning@,
            implications: views(self.implications@),
        }
    }
}

/// What a change of policy implies.
pub open spec fn policy_consequences(old: Seq<char>, new: Seq<char>) -> Seq<Seq<char>> {
    if old == "lazy"@ && new == "eager"@ {
        seq![
            "upfront execution may increase"@,
            "file reads may happen before the result is demanded"@,
            "side-effect timing moves earlier in the program lifecycle"@,
            "author intent changed from deferred coordination to immediate execution"@,
        ]
    } else if old == "eager"@ && new == "lazy"@ {
        seq![
            "work may be delayed until a consumer demands the result"@,
            "file reads and writes may occur later than before"@,
            "runtime latency can move from construction time to demand time"@,
        ]
    } else {
        seq![
            "policy changed from `"@ + old + "` to `"@ + new + "`"@,
            "execution timing and side-effect visibility should be reviewed"@,
        ]
    }
}

/// What a change of policy implies.
pub fn policy_implications(old: &str, new: &str) -> (out: Vec<String>)
    ensures
        views(out@) == policy_consequences(old@, new@),
{
    let out: Vec<String> = if *old == *"lazy" && *new == *"eager" {
        vec![
            "upfront execution may increase".to_owned(),
            "file reads may happen before the result is demanded".to_owned(),
            "side-effect timing moves earlier in the program lifecycle".to_owned(),
            "author intent changed from deferred coordination to immediate execution".to_owned(),
        ]
    } else if *old == *"eager" && *new == *"lazy" {
        vec![
            "work may be delayed until a consumer demands the result".to_owned(),
            "file reads and writes may occur later than before".to_owned(),
            "runtime latency can move from construction time to demand time".to_owned(),
        ]
    } else {
        let mut text = "policy changed from `".to_owned();
        text.append(old);
        text.append("` to `");
        text.append(new);
        text.append("`");
        vec![text, "execution timing and side-effect visibility should be reviewed".to_owned()]
    };
    assert(views(out@) =~= policy_consequences(old@, new@));
    out
}

pub open spec fn policy_change(old: Declared, new: Declared) -> Change {
    Change {
        category: "policy"@,
        subject: old.group,
        before: old.policy,
        after: new.policy,
        meaning: "runtime demand model changed"@,
        implications: policy_consequences(old.policy, new.policy),
    }
}

pub open spec fn invariant_change(old: Declared, new: Declared) -> Change {
    Change {
        category: "invariant"@,
        subject: old.group,
        before: old.invariant,
        after: new.invariant,
        meaning: "the correctness condition attached to the group changed"@,
        implications: seq![
            "receipts generated before and after the change are not directly equivalent"@,
            "a target that omits runtime checks may silently accept the new condition"@,
        ],
    }
}

pub open spec fn effects_change(old: Declared, new: Declared) -> Change {
    Change {
        category: "effects"@,
        subject: old.group,
        before: "read "@ + old.read + ", write "@ + old.write,
        after: "read "@ + new.read + ", write "@ + new.write,
        meaning: "the declared IO boundary changed"@,
        implications: seq![
            "runtime authority and reproducibility assumptions changed"@,
            "ordinary Git sees text, but O-Git sees a boundary change"@,
        ],
    }
}

pub open spec fn steps_change(old: Declared, new: Declared) -> Change {
    Change {
        category: "dependency order"@,
        subject: old.group,
        before: joined(old.steps, " -> "@),
        after: joined(new.steps, " -> "@),
        meaning: "the coordinated task order changed"@,
        implications: seq![
            "dataflow may no longer match the original author intent"@,
            "lowered targets may still compile while executing a different pipeline"@,
        ],
    }
}

/// A change, where there is one.
pub open spec fn reported(present: bool, change: Change) -> Seq<Change> {
    if present {
        seq![change]
    } else {
        Seq::empty()
    }
}

/// What changed in what a source means.
pub open spec fn changes(old: Declared, new: Declared) -> Seq<Change> {
    reported(old.policy != new.policy, policy_change(old, new)) + reported(
        old.invariant != new.invariant,
        invariant_change(old, new),
    ) + reported(old.read != new.read || old.write != new.write, effects_change(old, new))
        + reported(old.steps != new.steps, steps_change(old, new))
}

/// No change is reported exactly when policy, invariant, effects and steps are
/// the same.
pub proof fn equal_contracts_report_nothing(old: Declared, new: Declared)
    ensures
        changes(old, new).len() == 0 <==> (old.policy == new.policy && old.invariant
            == new.invariant && old.read == new.read && old.write == new.write && old.steps
            == new.steps),
{
}

/// Swapping two sources swaps what every change was before and after.
pub proof fn changes_run_both_ways(old: Declared, new: Declared, i: int)
    requires
        0 <= i < changes(old, new).len(),
    ensures
        changes(new, old).len() == changes(old, new).len(),
        changes(new, old)[i].category == changes(old, new)[i].category,
        changes(new, old)[i].before == changes(old, new)[i].after,
        changes(new, old)[i].after == changes(old, new)[i].before,
{
}

/// Changes, their texts as sequences.
pub open spec fn change_views(list: Seq<SemanticChange>) -> Seq<Change> {
    list.map_values(|c: SemanticChange| c@)
}

fn same_steps(a: &Vec<String>, b: &Vec<String>) -> (r: bool)
    ensures
        r == (views(a@) == views(b@)),
{
    assert(views(a@).len() == a@.len() && views(b@).len() == b@.len());
    if a.len() != b.len() {
        return false;
    }
    let mut i: usize = 0;
    while i < a.len()
        invariant
            a@.len() == b@.len(),
            i <= a@.len(),
            forall|j: int| 0 <= j < i ==> views(a@)[j] == views(b@)[j],
        decreases a@.len() - i,
    {
        assert(views(a@)[i as int] == a@[i as int]@);
        assert(views(b@)[i as int] == b@[i as int]@);
        if *a[i].as_str() != *b[i].as_str() {
            return false;
        }
        i += 1;
    }
    assert(views(a@) =~= views(b@));
    true
}

fn effects_text(effects: &Effects) -> (out: String)
    ensures
        out@ == "read "@ + effects.read@ + ", write "@ + effects.write@,
{
    let mut out = "read ".to_owned();
    out.append(effects.read.as_str());
    out.append(", write ");
    out.append(effects.write.as_str());
    out
}

fn push_change(out: &mut Vec<SemanticChange>, change: SemanticChange)
    ensures
        change_views(final(out)@) == change_views(old(out)@) + seq![change@],
{
    let ghost before = change_views(out@);
    out.push(change);
    assert(change_views(out@) =~= before + seq![change@]);
}

/// What changed in what a source means.
pub fn semantic_changes(old_program: &DemoProgram, new_program: &DemoProgram) -> (out: Vec<
    SemanticChange,
>)
    ensures
        change_views(out@) == changes(old_program@, new_program@),
{
    let a = old_program;
    let b = new_program;
    let ghost none = Seq::<Change>::empty();
    let mut out: Vec<SemanticChange> = Vec::new();
    assert(change_views(out@) =~= none);
    if *a.policy.as_str() != *b.policy.as_str() {
        push_change(
            &mut out,
            SemanticChange {
                category: "policy",
                subject: a.group.clone(),
                before: a.policy.clone(),
                after: b.policy.clone(),
                meaning: "runtime demand model changed",
                implications: policy_implications(a.policy.as_str(), b.policy.as_str()),
            },
        );
    }
    let ghost first = reported(a.policy@ != b.policy@, policy_change(a@, b@));
    assert(change_views(out@) =~= first);
    if *a.invariant.as_str() != *b.invariant.as_str() {
        let implications: Vec<String> = vec![
            "receipts generated before and after the change are not directly equivalent".to_owned(),
            "a target that omits runtime checks may silently accept the new condition".to_owned(),
        ];
        assert(views(implications@) =~= invariant_change(a@, b@).implications);
        push_change(
            &mut out,
            SemanticChange {
                category: "invariant",
                subject: a.group.clone(),
                before: a.invariant.clone(),
                after: b.invariant.clone(),
                meaning: "the correctness condition attached to the group changed",
                implications,
            },
        );
    }
    let ghost second = first + reported(a.invariant@ != b.invariant@, invariant_change(a@, b@));
    assert(change_views(out@) =~= second);
    if *a.effects.read.as_str() != *b.effects.read.as_str() || *a.effects.write.as_str()
        != *b.effects.write.as_str() {
        let implications: Vec<String> = vec![
            "runtime authority and reproducibility assumptions changed".to_owned(),
            "ordinary Git sees text, but O-Git sees a boundary change".to_owned(),
        ];
        assert(views(implications@) =~= effects_change(a@, b@).implications);
        push_change(
            &mut out,
            SemanticChange {
                category: "effects",
                subject: a.group.clone(),
                before: effects_text(&a.effects),
                after: effects_text(&b.effects),
                meaning: "the declared IO boundary changed",
                implications,
            },
        );
    }
    let ghost third = second + reported(
        a.effects.read@ != b.effects.read@ || a.effects.write@ != b.effects.write@,
        effects_change(a@, b@),
    );
    assert(change_views(out@) =~= third);
    if !same_steps(&a.steps, &b.steps) {
        let implications: Vec<String> = vec![
            "dataflow may no longer match the original author intent".to_owned(),
            "lowered targets may still compile while executing a different pipeline".to_owned(),
        ];
        assert(views(implications@) =~= steps_change(a@, b@).implications);
        push_change(
            &mut out,
            SemanticChange {
                category: "dependency order",
                subject: a.group.clone(),
                before: join(a.steps.as_slice(), " -> "),
                after: join(b.steps.as_slice(), " -> "),
                meaning: "the coordinated task order changed",
                implications,
            },
        );
    }
    assert(change_views(out@) =~= changes(a@, b@));
    out
}

/// Where the files of the demonstration stand.
#[derive(Debug)]
pub struct DemoPaths {
    pub source: String,
    pub eager_source: String,
    pub input: String,
    pub generated_dir: String,
    pub c_target: String,
    pub executable: String,
    pub graph_html: String,
    pub graph_dot: String,
    pub receipt_dir: String,
    pub receipt: String,
}

impl DemoPaths {
    /// The files below a root; an executable has a name of its own on some
    /// systems.
    pub fn new(root: &str, executable_suffix: &str) -> (paths: DemoPaths)
        ensures
            paths.source@ == joined_path(root@, "examples/group_pipeline/main.O"@),
            paths.eager_source@ == joined_path(root@, "examples/group_pipeline/main.eager.O"@),
            paths.input@ == joined_path(root@, "examples/group_pipeline/input.txt"@),
            paths.generated_dir@ == joined_path(root@, "examples/group_pipeline/generated"@),
            paths.c_target@ == joined_path(
                root@,
                "examples/group_pipeline/generated/normalize_pipeline.c"@,
            ),
            paths.executable@ == joined_path(
                root@,
                "examples/group_pipeline/generated/normalize_pipeline"@ + executable_suffix@,
            ),
            paths.graph_html@ == joined_path(
                root@,
                "examples/group_pipeline/generated/semantic_graph.html"@,
            ),
            paths.graph_dot@ == joined_path(
                root@,
                "examples/group_pipeline/generated/semantic_graph.dot"@,
            ),
            paths.receipt_dir@ == joined_path(root@, ".ogit/receipts"@),
            paths.receipt@ == joined_path(root@, ".ogit/receipts/semantic-receipt-001.json"@),
    {
        DemoPaths {
            source: join_path(root, "examples/group_pipeline/main.O"),
            eager_source: join_path(root, "examples/group_pipeline/main.eager.O"),
            input: join_path(root, "examples/group_pipeline/input.txt"),
            generated_dir: join_path(root, "examples/group_pipeline/generated"),
            c_target: join_path(root, "examples/group_pipeline/generated/normalize_pipeline.c"),
            executable: join_path(
                root,
                "examples/group_pipeline/generated/normalize_pipeline".to_owned().concat(
                    executable_suffix,
                ).as_str(),
            ),
            graph_html: join_path(root, "examples/group_pipeline/generated/semantic_graph.html"),
            graph_dot: join_path(root, "examples/group_pipeline/generated/semantic_graph.dot"),
            receipt_dir: join_path(root, ".ogit/receipts"),
            receipt: join_path(root, ".ogit/receipts/semantic-receipt-001.json"),
        }
    }
}

/// A path as it is shown: below the root where it lies there.
pub open spec fn displayed(root: Seq<char>, path: Seq<char>) -> Seq<char> {
    match below(path, root) {
        Some(rest) => rest,
        None => path,
    }
}

/// A path as it is shown: below the root where it lies there.
pub fn display_path(root: &str, path: &str) -> (out: String)
    ensures
        out@ == displayed(root@, path@),
{
    match path_below(path, root) {
        Some(rest) => rest,
        None => path.to_owned(),
    }
}

/// How much of each side of the meaning a lowering costs.
#[derive(Debug)]
pub struct SemanticCost {
    pub coordination: &'static str,
    pub type_shape: &'static str,
    pub effect_safety: &'static str,
    pub intent_preservation: &'static str,
}

/// What is lost and kept when a group is lowered.
#[derive(Debug)]
pub struct SemanticReceipt<'a> {
    pub artifact: &'static str,
    /// What the source declares of the group.
    pub group: &'a DemoProgram,
    pub source: String,
    pub lowered_target: String,
    pub executable: String,
    pub graph_html: String,
    pub graph_dot: String,
    pub program_output: String,
    pub preserved: Vec<String>,
    pub lowered: Vec<String>,
    pub erased: Vec<String>,
    pub assumed: Vec<String>,
    pub runtime_implications: Vec<String>,
    pub semantic_cost: SemanticCost,
}

/// What the lowering keeps.
pub open spec fn preserved_facts(d: Declared) -> Seq<Seq<char>> {
    seq![
        "data dependency order: "@ + joined(d.steps, " -> "@),
        "input/output numeric type shape"@,
        "deterministic numeric computation"@,
    ]
}

/// What the lowering turns into something else.
pub open spec fn lowered_facts(d: Declared) -> Seq<Seq<char>> {
    seq![
        "group `"@ + d.group + "` -> C function sequence"@,
        "declared effects -> runtime file calls"@,
    ]
}

/// What the lowering loses.
pub open spec fn erased_facts(d: Declared) -> Seq<Seq<char>> {
    seq![
        d.policy + " execution policy"@,
        "explicit group boundary"@,
        "invariant: "@ + d.invariant,
        "author-level intent: `"@ + d.intent + "`"@,
    ]
}

/// What the lowered program relies on.
pub open spec fn assumed_facts() -> Seq<Seq<char>> {
    seq![
        "filesystem access exists at runtime"@,
        "target runtime does not enforce group policy"@,
        "invariant remains a receipt fact unless checked externally"@,
    ]
}

/// What the lowering implies for a run.
pub open spec fn implied_facts() -> Seq<Seq<char>> {
    seq![
        "compiled C preserves the result but cannot natively carry the group contract"@,
        "effect timing is now a property of ordinary file calls"@,
    ]
}

/// The receipt of a group.
pub fn build_receipt<'a>(
    root: &str,
    paths: &DemoPaths,
    program: &'a DemoProgram,
    program_output: &str,
) -> (receipt: SemanticReceipt<'a>)
    ensures
        receipt.artifact@ == "O-Git Semantic Receipt Demo"@,
        receipt.group == program,
        receipt.source@ == displayed(root@, paths.source@),
        receipt.lowered_target@ == displayed(root@, paths.c_target@),
        receipt.executable@ == displayed(root@, paths.executable@),
        receipt.graph_html@ == displayed(root@, paths.graph_html@),
        receipt.graph_dot@ == displayed(root@, paths.graph_dot@),
        receipt.program_output@ == program_output@,
        views(receipt.preserved@) == preserved_facts(program@),
        views(receipt.lowered@) == lowered_facts(program@),
        views(receipt.erased@) == erased_facts(program@),
        views(receipt.assumed@) == assumed_facts(),
        views(receipt.runtime_implications@) == implied_facts(),
        receipt.semantic_cost.coordination@ == "high"@,
        receipt.semantic_cost.type_shape@ == "low"@,
        receipt.semantic_cost.effect_safety@ == "medium"@,
        receipt.semantic_cost.intent_preservation@ == "low"@,
{
    let mut order = "data dependency order: ".to_owned();
    order.append(join(program.steps.as_slice(), " -> ").as_str());
    let preserved: Vec<String> = vec![
        order,
        "input/output numeric type shape".to_owned(),
        "deterministic numeric computation".to_owned(),
    ];
    assert(views(preserved@) =~= preserved_facts(program@));
    let mut group = "group `".to_owned();
    group.append(program.group.as_str());
    group.append("` -> C function sequence");
    let lowered: Vec<String> = vec![group, "declared effects -> runtime file calls".to_owned()];
    assert(views(lowered@) =~= lowered_facts(program@));
    let mut policy = program.policy.clone();
    policy.append(" execution policy");
    let mut condition = "invariant: ".to_owned();
    condition.append(program.invariant.as_str());
    let mut intent = "author-level intent: `".to_owned();
    intent.append(program.intent.as_str());
    intent.append("`");
    let erased: Vec<String> = vec![
        policy,
        "explicit group boundary".to_owned(),
        condition,
        intent,
    ];
    assert(views(erased@) =~= erased_facts(program@));
    let assumed: Vec<String> = vec![
        "filesystem access exists at runtime".to_owned(),
        "target runtime does not enforce group policy".to_owned(),
        "invariant remains a receipt fact unless checked externally".to_owned(),
    ];
    assert(views(assumed@) =~= assumed_facts());
    let runtime_implications: Vec<String> = vec![
        "compiled C preserves the result but cannot natively carry the group contract".to_owned(),
        "effect timing is now a property of ordinary file calls".to_owned(),
    ];
    assert(views(runtime_implications@) =~= implied_facts());
    SemanticReceipt {
        artifact: "O-Git Semantic Receipt Demo",
        group: program,
        source: display_path(root, paths.source.as_str()),
        lowered_target: display_path(root, paths.c_target.as_str()),
        executable: display_path(root, paths.executable.as_str()),
        graph_html: display_path(root, paths.graph_html.as_str()),
        graph_dot: display_path(root, paths.graph_dot.as_str()),
        program_output: program_output.to_owned(),
        preserved,
        lowered,
        erased,
        assumed,
        runtime_implications,
        semantic_cost: SemanticCost {
            coordination: "high",
            type_shape: "low",
            effect_safety: "medium",
            intent_preservation: "low",
        },
    }
}

/// Texts as a list under a name.
pub open spec fn section_text(name: Seq<char>, items: Seq<Seq<char>>) -> Seq<char> {
    name + ":\n"@ + items_text(items, "  - "@) + "\n"@
}

/// Texts as a list.
pub open spec fn items_text(items: Seq<Seq<char>>, mark: Seq<char>) -> Seq<char>
    decreases items.len(),
{
    if items.len() == 0 {
        Seq::empty()
    } else {
        items_text(items.drop_last(), mark) + mark + items.last() + "\n"@
    }
}

fn write_items(items: &Vec<String>, mark: &str) -> (out: String)
    ensures
        out@ == items_text(views(items@), mark@),
{
    let ghost all = views(items@);
    let mut out = String::new();
    let mut i: usize = 0;
    assert(out@ =~= items_text(all.take(0), mark@));
    while i < items.len()
        invariant
            all == views(items@),
            i <= items@.len(),
            out@ == items_text(all.take(i as int), mark@),
        decreases items@.len() - i,
    {
        assert(all.take(i + 1).drop_last() =~= all.take(i as int));
        assert(all.take(i + 1).last() == items@[i as int]@);
        out.append(mark);
        out.append(items[i].as_str());
        out.append("\n");
        i += 1;
    }
    assert(all.take(i as int) =~= all);
    out
}

fn write_section(name: &str, items: &Vec<String>) -> (out: String)
    ensures
        out@ == section_text(name@, views(items@)),
{
    let mut out = name.to_owned();
    out.append(":\n");
    out.append(write_items(items, "  - ").as_str());
    out.append("\n");
    out
}

/// A receipt as it is shown, with the place where it was saved.
pub open spec fn receipt_text(root: Seq<char>, saved: Seq<char>, r: SemanticReceipt) -> Seq<char> {
    "O-Git semantic receipt:\n\n"@ + section_text("PRESERVED"@, views(r.preserved@))
        + section_text("LOWERED"@, views(r.lowered@)) + section_text("ERASED"@, views(r.erased@))
        + section_text("ASSUMED"@, views(r.assumed@))
        + "SEMANTIC COST:\n  coordination: "@ + r.semantic_cost.coordination@ + "\n  type-shape: "@
        + r.semantic_cost.type_shape@ + "\n  effect-safety: "@ + r.semantic_cost.effect_safety@
        + "\n  intent-preservation: "@ + r.semantic_cost.intent_preservation@
        + "\n\nReceipt saved:\n  "@ + displayed(root, saved) + "\nVisible graph saved:\n  "@
        + r.graph_html@ + "\nDOT graph saved:\n  "@ + r.graph_dot@ + "\nOpen it with:\n  open "@
        + joined_path(root, r.graph_html@) + "\n"@
}

impl SemanticReceipt<'_> {
    /// The receipt as it is shown, with the place where it was saved.
    pub fn to_text(&self, root: &str, saved: &str) -> (out: String)
        ensures
            out@ == receipt_text(root@, saved@, *self),
    {
        let mut out = "O-Git semantic receipt:\n\n".to_owned();
        out.append(write_section("PRESERVED", &self.preserved).as_str());
        out.append(write_section("LOWERED", &self.lowered).as_str());
        out.append(write_section("ERASED", &self.erased).as_str());
        out.append(write_section("ASSUMED", &self.assumed).as_str());
        out.append("SEMANTIC COST:\n  coordination: ");
        out.append(self.semantic_cost.coordination);
        out.append("\n  type-shape: ");
        out.append(self.semantic_cost.type_shape);
        out.append("\n  effect-safety: ");
        out.append(self.semantic_cost.effect_safety);
        out.append("\n  intent-preservation: ");
        out.append(self.semantic_cost.intent_preservation);
        out.append("\n\nReceipt saved:\n  ");
        out.append(display_path(root, saved).as_str());
        out.append("\nVisible graph saved:\n  ");
        out.append(self.graph_html.as_str());
        out.append("\nDOT graph saved:\n  ");
        out.append(self.graph_dot.as_str());
        out.append("\nOpen it with:\n  open ");
        out.append(join_path(root, self.graph_html.as_str()).as_str());
        out.append("\n");
        out
    }
}

/// A letter as a capital, others as they are.
pub open spec fn capital(c: char) -> char {
    if 'a' <= c && c <= 'z' {
        (c as u32 - 32) as char
    } else {
        c
    }
}

/// A change as it is shown.
pub open spec fn change_text(c: Change) -> Seq<char> {
    c.category.map_values(|x: char| capital(x)) + " CHANGED:\n  subject: "@ + c.subject
        + "\n  before: "@ + c.before + "\n  after:  "@ + c.after + "\n  meaning: "@ + c.meaning
        + "\n  implications:\n"@ + items_text(c.implications, "    - "@) + "\n"@
}

/// Changes as they are shown.
pub open spec fn changes_text(list: Seq<Change>) -> Seq<char>
    decreases list.len(),
{
    if list.len() == 0 {
        Seq::empty()
    } else {
        changes_text(list.drop_last()) + change_text(list.last())
    }
}

/// What changed between two sources, as it is shown.
pub open spec fn diff_text(
    old_path: Seq<char>,
    new_path: Seq<char>,
    list: Seq<Change>,
) -> Seq<char> {
    "O-Git semantic diff:\n  old: "@ + old_path + "\n  new: "@ + new_path + "\n\n"@ + (
    if list.len() == 0 {
        "NO SEMANTIC CHANGE:\n  The O-Git declarations describe the same group contract.\n"@
    } else {
        changes_text(list)
    })
}

fn capitals(text: &str) -> (out: String)
    ensures
        out@ == text@.map_values(|x: char| capital(x)),
{
    let chars = chars_of(text);
    let ghost expected = text@.map_values(|x: char| capital(x));
    let mut out = String::new();
    let mut i: usize = 0;
    assert(out@ =~= expected.take(0));
    while i < chars.len()
        invariant
            chars@ == text@,
            expected == text@.map_values(|x: char| capital(x)),
            i <= chars@.len(),
            out@ == expected.take(i as int),
        decreases chars@.len() - i,
    {
        let c: char = chars[i];
        let big: char = if 'a' <= c && c <= 'z' {
            (c as u8 - 32) as char
        } else {
            c
        };
        assert(big == expected[i as int]);
        out.push(big);
        assert(out@ =~= expected.take(i + 1));
        i += 1;
    }
    assert(expected.take(i as int) =~= expected);
    out
}

impl SemanticChange {
    /// The change as it is shown.
    pub fn to_text(&self) -> (out: String)
        ensures
            out@ == change_text(self@),
    {
        let mut out = capitals(self.category);
        out.append(" CHANGED:\n  subject: ");
        out.append(self.subject.as_str());
        out.append("\n  before: ");
        out.append(self.before.as_str());
        out.append("\n  after:  ");
        out.append(self.after.as_str());
        out.append("\n  meaning: ");
        out.append(self.meaning);
        out.append("\n  implications:\n");
        out.append(write_items(&self.implications, "    - ").as_str());
        out.append("\n");
        out
    }
}

/// What changed between two sources, as it is shown.
pub fn semantic_diff(
    old_path: &str,
    new_path: &str,
    old_program: &DemoProgram,
    new_program: &DemoProgram,
) -> (out: String)
    ensures
        out@ == diff_text(old_path@, new_path@, changes(old_program@, new_program@)),
{
    let list = semantic_changes(old_program, new_program);
    let ghost all = changes(old_program@, new_program@);
    let mut rest = String::new();
    assert(change_views(list@).len() == list@.len());
    if list.len() == 0 {
        rest.append(
            "NO SEMANTIC CHANGE:\n  The O-Git declarations describe the same group contract.\n",
        );
        assert(rest@
            =~= "NO SEMANTIC CHANGE:\n  The O-Git declarations describe the same group contract.\n"@);
    } else {
        let mut i: usize = 0;
        assert(rest@ =~= changes_text(all.take(0)));
        while i < list.len()
            invariant
                all == change_views(list@),
                i <= list@.len(),
                rest@ == changes_text(all.take(i as int)),
            decreases list@.len() - i,
        {
            assert(all.take(i + 1).drop_last() =~= all.take(i as int));
            assert(all.take(i + 1).last() == list@[i as int]@);
            rest.append(list[i].to_text().as_str());
            i += 1;
        }
        assert(all.take(i as int) =~= all);
    }
    let mut out = "O-Git semantic diff:\n  old: ".to_owned();
    out.append(old_path);
    out.append("\n  new: ");
    out.append(new_path);
    out.append("\n\n");
    out.append(rest.as_str());
    out
}

} // verus!
