//! Ignore files: which of several, if any, leaves a path out.

use vstd::prelude::*;
use vstd::slice::slice_subrange;

use crate::outside::{
    add_rule_line, finish_rules, ignore_verdict, line_fault, ready_rules, rules_fault,
    rules_matched, start_rules, IgnoreVerdict,
};
use crate::text::{chars_of, lines, read_line, string_of, trim_start_part, trim_start_text, views};

verus! {

/// The rules of one ignore file.
#[derive(Debug)]
pub struct IgnoreRules {
    pub source: String,
    pub matcher: ignore::gitignore::Gitignore,
}

/// The lines of an ignore file: a byte order mark at its start is no part of the
/// first.
pub open spec fn rule_lines(text: Seq<char>) -> Seq<Seq<char>> {
    let all = lines(text);
    if all.len() == 0 {
        all
    } else {
        seq![trim_start_text(all[0], seq!['\u{feff}'])] + all.skip(1)
    }
}

/// The lines of an ignore file that say nothing that can be used.
pub open spec fn faults(list: Seq<Seq<char>>) -> Seq<Seq<char>>
    decreases list.len(),
{
    if list.len() == 0 {
        Seq::empty()
    } else {
        let before = faults(list.drop_last());
        match line_fault(list.last()) {
            Some(fault) => before.push(fault),
            None => before,
        }
    }
}

/// The lines of an ignore file.
pub fn ignore_lines(text: &str) -> (out: Vec<String>)
    ensures
        views(out@) == rule_lines(text@),
{
    let chars = chars_of(text);
    let mut rest = chars.as_slice();
    let mark: Vec<char> = vec!['\u{feff}'];
    assert(mark@ =~= seq!['\u{feff}']);
    let mut out: Vec<String> = Vec::new();
    if rest.len() == 0 {
        assert(lines(text@).len() == 0);
        assert(views(out@) =~= rule_lines(text@));
        return out;
    }
    let (end, next) = read_line(rest);
    let raw = slice_subrange(rest, 0, end);
    assert(raw@ =~= rest@.take(end as int));
    let line = trim_start_part(raw, mark.as_slice());
    let first = string_of(line, 0, line.len());
    assert(first@ =~= line@);
    out.push(first);
    let after = slice_subrange(rest, next, rest.len());
    assert(after@ =~= rest@.skip(next as int));
    proof {
        let all = lines(text@);
        assert(all[0] == raw@);
        assert(all.skip(1) =~= lines(after@));
        assert(views(out@) =~= seq![line@]);
    }
    rest = after;
    while rest.len() > 0
        invariant
            views(out@) + lines(rest@) == rule_lines(text@),
        decreases rest@.len(),
    {
        let (end, next) = read_line(rest);
        let raw = slice_subrange(rest, 0, end);
        assert(raw@ =~= rest@.take(end as int));
        let line = string_of(raw, 0, raw.len());
        assert(line@ =~= raw@);
        let ghost before = views(out@);
        out.push(line);
        assert(views(out@) =~= before.push(raw@));
        let after = slice_subrange(rest, next, rest.len());
        assert(after@ =~= rest@.skip(next as int));
        assert(views(out@) + lines(after@) =~= before + (seq![raw@] + lines(after@)));
        rest = after;
    }
    assert(views(out@) + Seq::<Seq<char>>::empty() =~= views(out@));
    out
}

/// Rules, and what is wrong with some of the lines that they were read from.
pub struct LoadedRules {
    pub rules: IgnoreRules,
    pub faults: Vec<String>,
}

/// Reads an ignore file: the rules of the lines that can be used, and what is
/// wrong with the others; or what is wrong with the rules taken together.
pub fn load_ignore_rules(dir: &str, source: &str, text: &str) -> (r: Result<LoadedRules, String>)
    ensures
        match r {
            Ok(loaded) => rules_fault(rule_lines(text@)) is None && loaded.rules.source@ == source@
                && ready_rules(loaded.rules.matcher) == (dir@, rule_lines(text@)) && views(
                loaded.faults@,
            ) == faults(rule_lines(text@)),
            Err(fault) => rules_fault(rule_lines(text@)) == Some(fault@),
        },
{
    let list = ignore_lines(text);
    let ghost all = rule_lines(text@);
    let mut builder = start_rules(dir);
    let mut wrong: Vec<String> = Vec::new();
    let mut i: usize = 0;
    assert(all.take(0) =~= Seq::<Seq<char>>::empty());
    assert(views(wrong@) =~= faults(all.take(0)));
    while i < list.len()
        invariant
            i <= list@.len(),
            all == views(list@),
            crate::outside::gathered_rules(builder) == (dir@, all.take(i as int)),
            views(wrong@) == faults(all.take(i as int)),
        decreases list@.len() - i,
    {
        let ghost before = views(wrong@);
        assert(all[i as int] == list@[i as int]@);
        assert(all.take(i + 1).drop_last() =~= all.take(i as int));
        assert(all.take(i + 1) =~= all.take(i as int).push(all[i as int]));
        match add_rule_line(&mut builder, list[i].as_str()) {
            Ok(_) => {},
            Err(fault) => {
                let ghost said = fault@;
                wrong.push(fault);
                assert(views(wrong@) =~= before.push(said));
            },
        }
        i += 1;
    }
    assert(all.take(i as int) =~= all);
    match finish_rules(&builder) {
        Ok(matcher) => Ok(
            LoadedRules { rules: IgnoreRules { source: source.to_owned(), matcher }, faults: wrong },
        ),
        Err(fault) => Err(fault),
    }
}

/// Which of several verdicts, in the order of their files, leaves a path out:
/// the last one that is not silent decides, and does so if it ignores the path.
pub open spec fn deciding(verdicts: Seq<IgnoreVerdict>) -> Option<int>
    decreases verdicts.len(),
{
    if verdicts.len() == 0 {
        None
    } else {
        match verdicts.last() {
            IgnoreVerdict::Silent => deciding(verdicts.drop_last()),
            IgnoreVerdict::Ignored => Some(verdicts.len() - 1),
            IgnoreVerdict::Kept => None,
        }
    }
}

/// Which of several verdicts, in the order of their files, leaves a path out.
pub fn deciding_verdict(verdicts: &[IgnoreVerdict]) -> (r: Option<usize>)
    ensures
        r is None <==> deciding(verdicts@) is None,
        r is Some ==> deciding(verdicts@) == Some(r->Some_0 as int) && r->Some_0 < verdicts@.len(),
{
    let mut i: usize = verdicts.len();
    assert(verdicts@.take(i as int) =~= verdicts@);
    while i > 0
        invariant
            i <= verdicts@.len(),
            deciding(verdicts@.take(i as int)) == deciding(verdicts@),
        decreases i,
    {
        assert(verdicts@.take(i as int).drop_last() =~= verdicts@.take(i - 1));
        assert(verdicts@.take(i as int).last() == verdicts@[i - 1]);
        i -= 1;
        match verdicts[i] {
            IgnoreVerdict::Silent => {},
            IgnoreVerdict::Ignored => {
                return Some(i);
            },
            IgnoreVerdict::Kept => {
                return None;
            },
        }
    }
    assert(verdicts@.take(0).len() == 0);
    None
}

/// What each of several ignore files says of a path.
pub open spec fn verdicts(rules: Seq<IgnoreRules>, path: Seq<char>, is_dir: bool) -> Seq<
    IgnoreVerdict,
> {
    rules.map_values(
        |r: IgnoreRules|
            ignore_verdict(ready_rules(r.matcher).0, ready_rules(r.matcher).1, path, is_dir),
    )
}

/// The ignore file that leaves a path out, if one does.
pub fn ignored_by(rules: &[IgnoreRules], path: &str, is_dir: bool) -> (r: Option<String>)
    ensures
        match r {
            Some(source) => deciding(verdicts(rules@, path@, is_dir)) is Some && source@
                == rules@[deciding(verdicts(rules@, path@, is_dir))->Some_0].source@,
            None => deciding(verdicts(rules@, path@, is_dir)) is None,
        },
{
    let ghost all = verdicts(rules@, path@, is_dir);
    let mut said: Vec<IgnoreVerdict> = Vec::new();
    let mut i: usize = 0;
    while i < rules.len()
        invariant
            i <= rules@.len(),
            all == verdicts(rules@, path@, is_dir),
            said@ =~= all.take(i as int),
        decreases rules@.len() - i,
    {
        said.push(rules_matched(&rules[i].matcher, path, is_dir));
        i += 1;
    }
    assert(all.take(i as int) =~= all);
    match deciding_verdict(said.as_slice()) {
        Some(k) => Some(rules[k].source.clone()),
        None => None,
    }
}

/// A later ignore file that says anything of a path overrules those before it.
pub proof fn later_files_overrule(earlier: Seq<IgnoreVerdict>, later: IgnoreVerdict)
    requires
        !(later is Silent),
    ensures
        deciding(earlier.push(later)) == (if later is Ignored {
            Some(earlier.len() as int)
        } else {
            None
        }),
{
    assert(earlier.push(later).last() == later);
}

} // verus!
