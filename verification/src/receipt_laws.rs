//! What holds of reported changes and receipts, in terms of the sources that they
//! speak of.

use vstd::prelude::*;

use crate::receipt::{
    change_text, changes, changes_text, declaration, declared, declared_paths, declared_steps,
    diff_text, erased_facts, first_fault, items_text, last_declared, lowered_facts, named_paths,
    nonblank, preserved_facts, receipt_text, section_text, Change, Declared, DemoError,
    SemanticReceipt,
};
use crate::text::{
    find_text, first_word, is_space, joined, lines, spaces, split_text, starts_with, trim,
    trim_start_by, views, words,
};
use crate::text_laws::{
    joining_few, joining_goes_through, lemma_found_at, lemma_not_found, lemma_occurs_within,
    lemma_starts, lemma_trimmed, lemma_word_first, lines_go_through, occurs, one_line_is_read,
};

verus! {

/// A change tells what was and what is: before is of the old source and after of
/// the new one, under the name of the old group. The two differ in what the change
/// is about.
pub proof fn changes_lead_from_old_to_new(old: Declared, new: Declared, i: int)
    requires
        0 <= i < changes(old, new).len(),
    ensures
        ({
            let change = changes(old, new)[i];
            &&& change.subject == old.group
            &&& {
                ||| {
                    &&& change.category == "policy"@
                    &&& change.before == old.policy
                    &&& change.after == new.policy
                    &&& old.policy != new.policy
                }
                ||| {
                    &&& change.category == "invariant"@
                    &&& change.before == old.invariant
                    &&& change.after == new.invariant
                    &&& old.invariant != new.invariant
                }
                ||| {
                    &&& change.category == "effects"@
                    &&& change.before == "read "@ + old.read + ", write "@ + old.write
                    &&& change.after == "read "@ + new.read + ", write "@ + new.write
                    &&& old.read != new.read || old.write != new.write
                }
                ||| {
                    &&& change.category == "dependency order"@
                    &&& change.before == joined(old.steps, " -> "@)
                    &&& change.after == joined(new.steps, " -> "@)
                    &&& old.steps != new.steps
                }
            }
        }),
{
}

/// Whether some change is of a category.
pub open spec fn reports(list: Seq<Change>, category: Seq<char>) -> bool {
    exists|i: int| 0 <= i < list.len() && (#[trigger] list[i]).category == category
}

/// Whatever differs is reported, and nothing is reported twice.
pub proof fn every_difference_is_reported(old: Declared, new: Declared)
    ensures
        reports(changes(old, new), "policy"@) <==> old.policy != new.policy,
        reports(changes(old, new), "invariant"@) <==> old.invariant != new.invariant,
        reports(changes(old, new), "effects"@) <==> (old.read != new.read || old.write
            != new.write),
        reports(changes(old, new), "dependency order"@) <==> old.steps != new.steps,
        forall|i: int, j: int|
            0 <= i < j < changes(old, new).len() ==> (#[trigger] changes(old, new)[i]).category != (
            #[trigger] changes(old, new)[j]).category,
{
    reveal_strlit("policy");
    reveal_strlit("invariant");
    reveal_strlit("effects");
    reveal_strlit("dependency order");
    assert("policy"@[0] == 'p' && "invariant"@[0] == 'i' && "effects"@[0] == 'e'
        && "dependency order"@[0] == 'd');
    let list = changes(old, new);
    let p: int = if old.policy != new.policy {
        1
    } else {
        0
    };
    let q: int = if old.invariant != new.invariant {
        p + 1
    } else {
        p
    };
    let r: int = if old.read != new.read || old.write != new.write {
        q + 1
    } else {
        q
    };
    if old.policy != new.policy {
        assert(list[0].category == "policy"@);
    }
    if old.invariant != new.invariant {
        assert(list[p].category == "invariant"@);
    }
    if old.read != new.read || old.write != new.write {
        assert(list[q].category == "effects"@);
    }
    if old.steps != new.steps {
        assert(list[r].category == "dependency order"@);
    }
}

/// A policy that changed between two that are not the known ones is told by its
/// names; between the known ones, what it implies depends on the direction.
pub proof fn policies_imply_by_direction(old: Declared, new: Declared, i: int)
    requires
        0 <= i < changes(old, new).len(),
        changes(old, new)[i].category == "policy"@,
    ensures
        ({
            let told = changes(old, new)[i].implications;
            &&& told.len() > 0
            &&& old.policy == "lazy"@ && new.policy == "eager"@ ==> told.contains(
                "side-effect timing moves earlier in the program lifecycle"@,
            )
            &&& old.policy == "eager"@ && new.policy == "lazy"@ ==> told.contains(
                "work may be delayed until a consumer demands the result"@,
            )
            &&& (old.policy != "lazy"@ && old.policy != "eager"@) || (new.policy != "lazy"@
                && new.policy != "eager"@) ==> told.contains(
                "policy changed from `"@ + old.policy + "` to `"@ + new.policy + "`"@,
            )
        }),
{
    every_difference_is_reported(old, new);
    reveal_strlit("policy");
    reveal_strlit("invariant");
    reveal_strlit("effects");
    reveal_strlit("dependency order");
    assert("policy"@[0] == 'p' && "invariant"@[0] == 'i' && "effects"@[0] == 'e'
        && "dependency order"@[0] == 'd');
    reveal_strlit("lazy");
    reveal_strlit("eager");
    assert("lazy"@.len() != "eager"@.len());
    changes_lead_from_old_to_new(old, new, i);
    assert(i == 0);
    let told = changes(old, new)[i].implications;
    assert(told == crate::receipt::policy_consequences(old.policy, new.policy));
    if old.policy == "lazy"@ && new.policy == "eager"@ {
        assert(told[2] == "side-effect timing moves earlier in the program lifecycle"@);
    } else {
        assert(told[0] == told[0]);
        assert(told.contains(told[0]));
    }
}

proof fn lemma_changes_shown(list: Seq<Change>, i: int)
    requires
        0 <= i < list.len(),
    ensures
        occurs(change_text(list[i]), changes_text(list)),
    decreases list.len(),
{
    let init = list.drop_last();
    if i == list.len() - 1 {
        let a = changes_text(init);
        assert(changes_text(list) =~= a + change_text(list[i]) + Seq::<char>::empty());
    } else {
        lemma_changes_shown(init, i);
        assert(init[i] == list[i]);
        let part = change_text(list[i]);
        let (a, b) = choose|a: Seq<char>, b: Seq<char>|
            changes_text(init) == #[trigger] (a + part + b);
        assert(changes_text(list) =~= a + part + (b + change_text(list.last())));
    }
}

proof fn lemma_items_shown(items: Seq<Seq<char>>, mark: Seq<char>, i: int)
    requires
        0 <= i < items.len(),
    ensures
        occurs(mark + items[i] + "\n"@, items_text(items, mark)),
    decreases items.len(),
{
    let init = items.drop_last();
    let part = mark + items[i] + "\n"@;
    if i == items.len() - 1 {
        let a = items_text(init, mark);
        assert(items_text(items, mark) =~= a + part + Seq::<char>::empty());
    } else {
        lemma_items_shown(init, mark, i);
        assert(init[i] == items[i]);
        let (a, b) = choose|a: Seq<char>, b: Seq<char>|
            items_text(init, mark) == #[trigger] (a + part + b);
        assert(items_text(items, mark) =~= a + part + (b + mark + items.last() + "\n"@));
    }
}

/// A diff names the old file as old and the new one as new, and shows of every
/// change what was before and what is after, with everything that it implies.
pub proof fn diffs_show_every_change(
    old_path: Seq<char>,
    new_path: Seq<char>,
    list: Seq<Change>,
    i: int,
    k: int,
)
    requires
        0 <= i < list.len(),
    ensures
        ({
            let shown = diff_text(old_path, new_path, list);
            &&& occurs("old: "@ + old_path + "\n"@, shown)
            &&& occurs("new: "@ + new_path + "\n"@, shown)
            &&& occurs("subject: "@ + list[i].subject + "\n"@, shown)
            &&& occurs("before: "@ + list[i].before + "\n"@, shown)
            &&& occurs("after:  "@ + list[i].after + "\n"@, shown)
            &&& occurs("meaning: "@ + list[i].meaning + "\n"@, shown)
            &&& 0 <= k < list[i].implications.len() ==> occurs(
                "- "@ + list[i].implications[k] + "\n"@,
                shown,
            )
        }),
{
    let shown = diff_text(old_path, new_path, list);
    let c = list[i];
    let text = change_text(c);
    lemma_changes_shown(list, i);
    let none = Seq::<char>::empty();
    reveal_strlit("O-Git semantic diff:\n  old: ");
    reveal_strlit("O-Git semantic diff:\n  ");
    reveal_strlit("old: ");
    reveal_strlit("\n");
    reveal_strlit("\n  new: ");
    reveal_strlit("  new: ");
    reveal_strlit("  ");
    reveal_strlit("new: ");
    reveal_strlit("\n\n");
    reveal_strlit("- ");
    reveal_strlit("    - ");
    reveal_strlit("    ");
    assert("O-Git semantic diff:\n  old: "@ =~= "O-Git semantic diff:\n  "@ + "old: "@);
    assert("\n  new: "@ =~= "\n"@ + "  new: "@);
    assert("  new: "@ =~= "  "@ + "new: "@);
    assert("\n\n"@ =~= "\n"@ + "\n"@);
    let body = changes_text(list);
    assert(shown =~= "O-Git semantic diff:\n  "@ + ("old: "@ + old_path + "\n"@) + ("  new: "@
        + new_path + "\n\n"@ + body));
    assert(shown =~= ("O-Git semantic diff:\n  old: "@ + old_path + "\n"@ + "  "@) + ("new: "@
        + new_path + "\n"@) + ("\n"@ + body));
    assert(shown =~= ("O-Git semantic diff:\n  old: "@ + old_path + "\n  new: "@ + new_path
        + "\n\n"@) + body + none);
    assert(occurs(body, shown));
    lemma_occurs_within(text, body, shown);
    lemma_change_parts(c);
    lemma_occurs_within("subject: "@ + c.subject + "\n"@, text, shown);
    lemma_occurs_within("before: "@ + c.before + "\n"@, text, shown);
    lemma_occurs_within("after:  "@ + c.after + "\n"@, text, shown);
    lemma_occurs_within("meaning: "@ + c.meaning + "\n"@, text, shown);
    if 0 <= k < c.implications.len() {
        let item = c.implications[k];
        lemma_items_shown(c.implications, "    - "@, k);
        let line = "    - "@ + item + "\n"@;
        assert("    - "@ =~= "    "@ + "- "@);
        assert(line =~= "    "@ + ("- "@ + item + "\n"@) + none);
        assert(occurs("- "@ + item + "\n"@, line));
        lemma_occurs_within("- "@ + item + "\n"@, line, items_text(c.implications, "    - "@));
        lemma_occurs_within(
            "- "@ + item + "\n"@,
            items_text(c.implications, "    - "@),
            text,
        );
        lemma_occurs_within("- "@ + item + "\n"@, text, shown);
    }
}

proof fn lemma_change_parts(c: Change)
    ensures
        occurs("subject: "@ + c.subject + "\n"@, change_text(c)),
        occurs("before: "@ + c.before + "\n"@, change_text(c)),
        occurs("after:  "@ + c.after + "\n"@, change_text(c)),
        occurs("meaning: "@ + c.meaning + "\n"@, change_text(c)),
        occurs(items_text(c.implications, "    - "@), change_text(c)),
{
    let text = change_text(c);
    let head = c.category.map_values(|x: char| crate::receipt::capital(x));
    let items = items_text(c.implications, "    - "@);
    reveal_strlit(" CHANGED:\n  subject: ");
    reveal_strlit(" CHANGED:\n  ");
    reveal_strlit("subject: ");
    reveal_strlit("\n  before: ");
    reveal_strlit("before: ");
    reveal_strlit("\n  after:  ");
    reveal_strlit("after:  ");
    reveal_strlit("\n  meaning: ");
    reveal_strlit("meaning: ");
    reveal_strlit("\n  implications:\n");
    reveal_strlit("  implications:\n");
    reveal_strlit("\n");
    reveal_strlit("  ");
    assert(" CHANGED:\n  subject: "@ =~= " CHANGED:\n  "@ + "subject: "@);
    assert("\n  before: "@ =~= "\n"@ + "  "@ + "before: "@);
    assert("\n  after:  "@ =~= "\n"@ + "  "@ + "after:  "@);
    assert("\n  meaning: "@ =~= "\n"@ + "  "@ + "meaning: "@);
    assert("\n  implications:\n"@ =~= "\n"@ + "  implications:\n"@);
    let s0 = head + " CHANGED:\n  "@;
    let s1 = "subject: "@ + c.subject + "\n"@;
    let s2 = "before: "@ + c.before + "\n"@;
    let s3 = "after:  "@ + c.after + "\n"@;
    let s4 = "meaning: "@ + c.meaning + "\n"@;
    let gap = "  "@;
    let s5 = "  implications:\n"@ + items + "\n"@;
    assert(text =~= s0 + s1 + (gap + s2 + gap + s3 + gap + s4 + s5));
    assert(text =~= (s0 + s1 + gap) + s2 + (gap + s3 + gap + s4 + s5));
    assert(text =~= (s0 + s1 + gap + s2 + gap) + s3 + (gap + s4 + s5));
    assert(text =~= (s0 + s1 + gap + s2 + gap + s3 + gap) + s4 + s5);
    assert(text =~= (s0 + s1 + gap + s2 + gap + s3 + gap + s4 + "  implications:\n"@) + items
        + "\n"@);
}

/// What is lost and kept names what the source declares.
pub proof fn receipts_name_what_is_declared(d: Declared)
    ensures
        erased_facts(d).contains(d.policy + " execution policy"@),
        erased_facts(d).contains("invariant: "@ + d.invariant),
        erased_facts(d).contains("author-level intent: `"@ + d.intent + "`"@),
        erased_facts(d).contains("explicit group boundary"@),
        preserved_facts(d).contains("data dependency order: "@ + joined(d.steps, " -> "@)),
        lowered_facts(d).contains("group `"@ + d.group + "` -> C function sequence"@),
{
    let e = erased_facts(d);
    assert(e[0] == d.policy + " execution policy"@);
    assert(e[1] == "explicit group boundary"@);
    assert(e[2] == "invariant: "@ + d.invariant);
    assert(e[3] == "author-level intent: `"@ + d.intent + "`"@);
    assert(preserved_facts(d)[0] == "data dependency order: "@ + joined(d.steps, " -> "@));
    assert(lowered_facts(d)[0] == "group `"@ + d.group + "` -> C function sequence"@);
}

proof fn lemma_section(name: Seq<char>, items: Seq<Seq<char>>, i: int)
    requires
        0 <= i < items.len(),
    ensures
        occurs("  - "@ + items[i] + "\n"@, section_text(name, items)),
{
    lemma_items_shown(items, "  - "@, i);
    let list = items_text(items, "  - "@);
    assert(section_text(name, items) =~= (name + ":\n"@) + list + "\n"@);
    lemma_occurs_within("  - "@ + items[i] + "\n"@, list, section_text(name, items));
}

proof fn lemma_parts(
    s0: Seq<char>,
    s1: Seq<char>,
    s2: Seq<char>,
    s3: Seq<char>,
    s4: Seq<char>,
    s5: Seq<char>,
)
    ensures
        occurs(s1, s0 + s1 + s2 + s3 + s4 + s5),
        occurs(s2, s0 + s1 + s2 + s3 + s4 + s5),
        occurs(s3, s0 + s1 + s2 + s3 + s4 + s5),
        occurs(s4, s0 + s1 + s2 + s3 + s4 + s5),
{
    let text = s0 + s1 + s2 + s3 + s4 + s5;
    assert(text =~= s0 + s1 + (s2 + s3 + s4 + s5));
    assert(text =~= (s0 + s1) + s2 + (s3 + s4 + s5));
    assert(text =~= (s0 + s1 + s2) + s3 + (s4 + s5));
    assert(text =~= (s0 + s1 + s2 + s3) + s4 + s5);
}

/// A receipt shows everything that it holds, each item on a line of its own.
pub proof fn receipts_show_every_item(
    root: Seq<char>,
    saved: Seq<char>,
    r: SemanticReceipt,
    item: Seq<char>,
)
    requires
        views(r.preserved@).contains(item) || views(r.lowered@).contains(item) || views(
            r.erased@,
        ).contains(item) || views(r.assumed@).contains(item),
    ensures
        occurs("  - "@ + item + "\n"@, receipt_text(root, saved, r)),
{
    let text = receipt_text(root, saved, r);
    let s0 = "O-Git semantic receipt:\n\n"@;
    let s1 = section_text("PRESERVED"@, views(r.preserved@));
    let s2 = section_text("LOWERED"@, views(r.lowered@));
    let s3 = section_text("ERASED"@, views(r.erased@));
    let s4 = section_text("ASSUMED"@, views(r.assumed@));
    let s5 = text.skip((s0 + s1 + s2 + s3 + s4).len() as int);
    assert(text =~= s0 + s1 + s2 + s3 + s4 + s5);
    lemma_parts(s0, s1, s2, s3, s4, s5);
    let line = "  - "@ + item + "\n"@;
    if views(r.preserved@).contains(item) {
        let list = views(r.preserved@);
        let i = choose|i: int| 0 <= i < list.len() && list[i] == item;
        lemma_section("PRESERVED"@, list, i);
        lemma_occurs_within(line, s1, text);
    } else if views(r.lowered@).contains(item) {
        let list = views(r.lowered@);
        let i = choose|i: int| 0 <= i < list.len() && list[i] == item;
        lemma_section("LOWERED"@, list, i);
        lemma_occurs_within(line, s2, text);
    } else if views(r.erased@).contains(item) {
        let list = views(r.erased@);
        let i = choose|i: int| 0 <= i < list.len() && list[i] == item;
        lemma_section("ERASED"@, list, i);
        lemma_occurs_within(line, s3, text);
    } else {
        let list = views(r.assumed@);
        let i = choose|i: int| 0 <= i < list.len() && list[i] == item;
        lemma_section("ASSUMED"@, list, i);
        lemma_occurs_within(line, s4, text);
    }
}

/// Whether a text has no space at its ends and no line break in it.
pub open spec fn on_one_line(s: Seq<char>) -> bool {
    &&& s.len() > 0
    &&& !is_space(s[0])
    &&& !is_space(s.last())
    &&& !s.contains('\n')
}

/// A source with one more line.
pub open spec fn with_line(source: Seq<char>, line: Seq<char>) -> Seq<char> {
    source + (line + seq!['\n'])
}

proof fn lemma_with_line(source: Seq<char>, line: Seq<char>)
    requires
        source.len() > 0 ==> source.last() == '\n',
        on_one_line(line),
    ensures
        lines(with_line(source, line)) == lines(source).push(line),
{
    assert(line.last() != '\r');
    one_line_is_read(line);
    if source.len() > 0 {
        lines_go_through(source, line + seq!['\n']);
        assert(lines(source) + seq![line] =~= lines(source).push(line));
    } else {
        assert(with_line(source, line) =~= line + seq!['\n']);
        assert(lines(source).len() == 0);
        assert(lines(source).push(line) =~= seq![line]);
    }
}

proof fn lemma_one_more(list: Seq<Seq<char>>, line: Seq<char>, key: Seq<char>)
    ensures
        last_declared(list.push(line), key) == match declaration(line, key) {
            Some(value) => Some(value),
            None => last_declared(list, key),
        },
        first_fault(list.push(line)) == match first_fault(list) {
            Some(error) => Some(error),
            None => match declaration(line, "effects "@) {
                Some(value) => match declared_paths(value) {
                    Ok(_) => None,
                    Err(error) => Some(error),
                },
                None => None,
            },
        },
{
    let all = list.push(line);
    assert(all.last() == line);
    assert(all.drop_last() =~= list);
}

/// What a line says under each of the names.
proof fn lemma_line_says(key: Seq<char>, value: Seq<char>)
    requires
        on_one_line(value),
        key == "group "@ || key == "policy "@ || key == "invariant "@ || key == "effects "@ || key
            == "steps "@ || key == "intent "@,
    ensures
        on_one_line("# ogit: "@ + key + value),
        declaration("# ogit: "@ + key + value, key) == Some(value),
        forall|other: Seq<char>|
            other != key && (other == "group "@ || other == "policy "@ || other == "invariant "@
                || other == "effects "@ || other == "steps "@ || other == "intent "@)
                ==> (#[trigger] declaration("# ogit: "@ + key + value, other)) is None,
{
    reveal_strlit("# ogit: ");
    reveal_strlit("group ");
    reveal_strlit("policy ");
    reveal_strlit("invariant ");
    reveal_strlit("effects ");
    reveal_strlit("steps ");
    reveal_strlit("intent ");
    let prefix = "# ogit: "@;
    let line = prefix + key + value;
    let rest = key + value;
    assert(line =~= prefix + rest);
    assert(line[0] == '#' && line.last() == value.last());
    if line.contains('\n') {
        let j = choose|j: int| 0 <= j < line.len() && line[j] == '\n';
        if j < prefix.len() {
            assert(prefix[j] == '\n');
        } else if j < prefix.len() + key.len() {
            assert(key[j - prefix.len()] == '\n');
        } else {
            assert(value[j - prefix.len() - key.len()] == '\n');
            assert(value.contains('\n'));
        }
    }
    lemma_trimmed(line);
    lemma_starts(prefix, rest);
    lemma_starts(key, value);
    assert forall|other: Seq<char>|
        other != key && (other == "group "@ || other == "policy "@ || other == "invariant "@
            || other == "effects "@ || other == "steps "@ || other == "intent "@) implies (
    #[trigger] declaration(line, other)) is None by {
        if starts_with(rest, other) {
            let t = rest.take(other.len() as int);
            assert(t[0] == rest[0] && t[2] == rest[2]);
            assert(rest[0] == key[0] && rest[2] == key[2]);
            assert(other[0] == key[0] && other[2] == key[2]);
        }
    }
}

/// A line that declares nothing changes nothing.
pub proof fn other_lines_declare_nothing(source: Seq<char>, line: Seq<char>)
    requires
        source.len() > 0 ==> source.last() == '\n',
        on_one_line(line),
        !starts_with(line, "# ogit: "@),
    ensures
        declared(with_line(source, line)) == declared(source),
{
    lemma_with_line(source, line);
    lemma_trimmed(line);
    let list = lines(source);
    lemma_one_more(list, line, "group "@);
    lemma_one_more(list, line, "policy "@);
    lemma_one_more(list, line, "invariant "@);
    lemma_one_more(list, line, "effects "@);
    lemma_one_more(list, line, "steps "@);
    lemma_one_more(list, line, "intent "@);
}

proof fn lemma_keys_differ()
    ensures
        "group "@ != "policy "@,
        "group "@ != "invariant "@,
        "group "@ != "effects "@,
        "group "@ != "steps "@,
        "group "@ != "intent "@,
        "policy "@ != "invariant "@,
        "policy "@ != "effects "@,
        "policy "@ != "steps "@,
        "policy "@ != "intent "@,
        "invariant "@ != "effects "@,
        "invariant "@ != "steps "@,
        "invariant "@ != "intent "@,
        "effects "@ != "steps "@,
        "effects "@ != "intent "@,
        "steps "@ != "intent "@,
{
    reveal_strlit("group ");
    reveal_strlit("policy ");
    reveal_strlit("invariant ");
    reveal_strlit("effects ");
    reveal_strlit("steps ");
    reveal_strlit("intent ");
    assert("group "@[0] == 'g' && "policy "@[0] == 'p' && "invariant "@[2] == 'v' && "effects "@[0]
        == 'e' && "steps "@[0] == 's' && "intent "@[2] == 't' && "invariant "@[0] == 'i'
        && "intent "@[0] == 'i');
}

/// A later line declares its name anew, and leaves the other names alone.
pub proof fn later_lines_declare_anew(source: Seq<char>, value: Seq<char>)
    requires
        source.len() > 0 ==> source.last() == '\n',
        declared(source) is Ok,
        on_one_line(value),
    ensures
        declared(with_line(source, "# ogit: group "@ + value)) == Ok::<Declared, DemoError>(
            Declared { group: value, ..declared(source)->Ok_0 },
        ),
        declared(with_line(source, "# ogit: policy "@ + value)) == Ok::<Declared, DemoError>(
            Declared { policy: value, ..declared(source)->Ok_0 },
        ),
        declared(with_line(source, "# ogit: invariant "@ + value)) == Ok::<Declared, DemoError>(
            Declared { invariant: value, ..declared(source)->Ok_0 },
        ),
        declared(with_line(source, "# ogit: intent "@ + value)) == Ok::<Declared, DemoError>(
            Declared { intent: value, ..declared(source)->Ok_0 },
        ),
{
    lemma_literals();
    lemma_trimmed(value);
    lemma_declared_anew(source, "group "@, value);
    lemma_declared_anew(source, "policy "@, value);
    lemma_declared_anew(source, "invariant "@, value);
    lemma_declared_anew(source, "intent "@, value);
    lemma_keys_differ();
}

proof fn lemma_literals()
    ensures
        "# ogit: group "@ == "# ogit: "@ + "group "@,
        "# ogit: policy "@ == "# ogit: "@ + "policy "@,
        "# ogit: invariant "@ == "# ogit: "@ + "invariant "@,
        "# ogit: effects "@ == "# ogit: "@ + "effects "@,
        "# ogit: steps "@ == "# ogit: "@ + "steps "@,
        "# ogit: intent "@ == "# ogit: "@ + "intent "@,
{
    reveal_strlit("# ogit: ");
    reveal_strlit("group ");
    reveal_strlit("policy ");
    reveal_strlit("invariant ");
    reveal_strlit("effects ");
    reveal_strlit("steps ");
    reveal_strlit("intent ");
    reveal_strlit("# ogit: group ");
    reveal_strlit("# ogit: policy ");
    reveal_strlit("# ogit: invariant ");
    reveal_strlit("# ogit: effects ");
    reveal_strlit("# ogit: steps ");
    reveal_strlit("# ogit: intent ");
    assert("# ogit: group "@ =~= "# ogit: "@ + "group "@);
    assert("# ogit: policy "@ =~= "# ogit: "@ + "policy "@);
    assert("# ogit: invariant "@ =~= "# ogit: "@ + "invariant "@);
    assert("# ogit: effects "@ =~= "# ogit: "@ + "effects "@);
    assert("# ogit: steps "@ =~= "# ogit: "@ + "steps "@);
    assert("# ogit: intent "@ =~= "# ogit: "@ + "intent "@);
}

proof fn lemma_declared_anew(source: Seq<char>, key: Seq<char>, value: Seq<char>)
    requires
        source.len() > 0 ==> source.last() == '\n',
        declared(source) is Ok,
        on_one_line(value),
        key == "group "@ || key == "policy "@ || key == "invariant "@ || key == "steps "@ || key
            == "intent "@ || (key == "effects "@ && declared_paths(value) is Ok),
    ensures
        ({
            let list = lines(source);
            let more = lines(with_line(source, "# ogit: "@ + key + value));
            &&& first_fault(more) is None
            &&& last_declared(more, key) == Some(value)
            &&& "group "@ != key ==> last_declared(more, "group "@) == last_declared(list, "group "@)
            &&& "policy "@ != key ==> last_declared(more, "policy "@) == last_declared(
                list,
                "policy "@,
            )
            &&& "invariant "@ != key ==> last_declared(more, "invariant "@) == last_declared(
                list,
                "invariant "@,
            )
            &&& "effects "@ != key ==> last_declared(more, "effects "@) == last_declared(
                list,
                "effects "@,
            )
            &&& "steps "@ != key ==> last_declared(more, "steps "@) == last_declared(list, "steps "@)
            &&& "intent "@ != key ==> last_declared(more, "intent "@) == last_declared(
                list,
                "intent "@,
            )
        }),
{
    let line = "# ogit: "@ + key + value;
    let list = lines(source);
    lemma_line_says(key, value);
    lemma_with_line(source, line);
    lemma_keys_differ();
    lemma_one_more(list, line, key);
    lemma_one_more(list, line, "group "@);
    lemma_one_more(list, line, "policy "@);
    lemma_one_more(list, line, "invariant "@);
    lemma_one_more(list, line, "effects "@);
    lemma_one_more(list, line, "steps "@);
    lemma_one_more(list, line, "intent "@);
    assert("effects "@ != key ==> declaration(line, "effects "@) is None);
}

/// Whether a text is one word.
pub open spec fn one_word(s: Seq<char>) -> bool {
    s.len() > 0 && forall|i: int| 0 <= i < s.len() ==> !is_space(#[trigger] s[i])
}

/// A word in front of a text is its first one.
pub proof fn lemma_words_step(word: Seq<char>, rest: Seq<char>)
    requires
        one_word(word),
        rest.len() > 0 ==> is_space(rest[0]),
    ensures
        words(word + rest) == seq![word] + words(rest),
{
    let s = word + rest;
    let none = Seq::<char>::empty();
    lemma_word_first(none, word, rest);
    assert(none + word + rest =~= s);
    assert(!is_space(word[0]));
    assert(s[0] == word[0]);
    assert(trim_start_by(s, spaces()) == s);
    assert(s.skip(word.len() as int) =~= rest);
}

proof fn lemma_words_blank(rest: Seq<char>)
    ensures
        words(seq![' '] + rest) == words(rest),
{
    lemma_words_blank_by(' ', rest);
}

/// A blank in front of a text makes no word.
pub proof fn lemma_words_blank_by(c: char, rest: Seq<char>)
    requires
        is_space(c),
    ensures
        words(seq![c] + rest) == words(rest),
{
    let s = seq![c] + rest;
    assert(s[0] == c);
    assert(s.skip(1) =~= rest);
    let p = spaces();
    assert(p(c));
    assert(trim_start_by(s, p) == trim_start_by(rest, p));
    assert(first_word(s) == first_word(rest));
}

/// Effects declare what stands behind `read` as read and what stands behind `write`
/// as written, in either order.
pub proof fn effects_name_both_files(read: Seq<char>, write: Seq<char>)
    requires
        one_word(read),
        one_word(write),
    ensures
        declared_paths("read "@ + read + " write "@ + write) == Ok::<
            (Seq<char>, Seq<char>),
            DemoError,
        >((read, write)),
        declared_paths("write "@ + write + " read "@ + read) == Ok::<
            (Seq<char>, Seq<char>),
            DemoError,
        >((read, write)),
{
    reveal_strlit("read ");
    reveal_strlit("read");
    reveal_strlit(" read ");
    reveal_strlit("write ");
    reveal_strlit("write");
    reveal_strlit(" write ");
    lemma_pairs("read"@, read, "write"@, write);
    lemma_pairs("write"@, write, "read"@, read);
    assert("read "@ + read + " write "@ + write =~= "read"@ + (seq![' '] + (read + (seq![' '] + (
    "write"@ + (seq![' '] + write))))));
    assert("write "@ + write + " read "@ + read =~= "write"@ + (seq![' '] + (write + (seq![' '] + (
    "read"@ + (seq![' '] + read))))));
    assert("read"@[0] == 'r' && "write"@[0] == 'w');
    let one = seq!["read"@, read, "write"@, write];
    let two = seq!["write"@, write, "read"@, read];
    let none = Seq::<Seq<char>>::empty();
    assert(one.skip(2) =~= seq!["write"@, write]);
    assert(seq!["write"@, write].skip(2) =~= none);
    assert(two.skip(2) =~= seq!["read"@, read]);
    assert(seq!["read"@, read].skip(2) =~= none);
    assert(named_paths(none, Some(read), Some(write)) == Ok::<(Seq<char>, Seq<char>), DemoError>(
        (read, write),
    ));
    assert(named_paths(seq!["write"@, write], Some(read), None) == Ok::<
        (Seq<char>, Seq<char>),
        DemoError,
    >((read, write)));
    assert(named_paths(seq!["read"@, read], None, Some(write)) == Ok::<
        (Seq<char>, Seq<char>),
        DemoError,
    >((read, write)));
}

proof fn lemma_pairs(a: Seq<char>, b: Seq<char>, c: Seq<char>, d: Seq<char>)
    requires
        one_word(a),
        one_word(b),
        one_word(c),
        one_word(d),
    ensures
        words(a + (seq![' '] + (b + (seq![' '] + (c + (seq![' '] + d)))))) == seq![a, b, c, d],
{
    let none = Seq::<char>::empty();
    lemma_words_step(d, none);
    assert(d + none =~= d);
    assert(words(none) =~= Seq::<Seq<char>>::empty());
    lemma_words_blank(d);
    lemma_words_step(c, seq![' '] + d);
    let x = c + (seq![' '] + d);
    lemma_words_blank(x);
    lemma_words_step(b, seq![' '] + x);
    let y = b + (seq![' '] + x);
    lemma_words_blank(y);
    lemma_words_step(a, seq![' '] + y);
    assert(words(a + (seq![' '] + y)) =~= seq![a, b, c, d]);
}

/// A later line with effects declares both files anew.
pub proof fn later_effects_count(source: Seq<char>, read: Seq<char>, write: Seq<char>)
    requires
        source.len() > 0 ==> source.last() == '\n',
        declared(source) is Ok,
        one_word(read),
        one_word(write),
    ensures
        declared(with_line(source, "# ogit: effects read "@ + read + " write "@ + write)) == Ok::<
            Declared,
            DemoError,
        >(Declared { read, write, ..declared(source)->Ok_0 }),
{
    let value = "read "@ + read + " write "@ + write;
    effects_name_both_files(read, write);
    lemma_literals();
    reveal_strlit("read ");
    reveal_strlit(" write ");
    reveal_strlit("# ogit: effects read ");
    reveal_strlit("# ogit: effects ");
    assert("# ogit: effects read "@ + read + " write "@ + write =~= "# ogit: effects "@ + value);
    assert(value[0] == 'r' && value.last() == write.last());
    assert(!is_space(write[write.len() - 1]));
    if value.contains('\n') {
        let j = choose|j: int| 0 <= j < value.len() && value[j] == '\n';
        let n = 5 + read.len();
        if 5 <= j < n {
            assert(read[j - 5] == '\n');
        } else if j >= n + 7 {
            assert(write[j - n - 7] == '\n');
        }
    }
    lemma_declared_anew(source, "effects "@, value);
    lemma_keys_differ();
}

/// Whether a text can be the name of a step.
pub open spec fn step_name(s: Seq<char>) -> bool {
    &&& on_one_line(s)
    &&& forall|i: int| 0 <= i < s.len() ==> #[trigger] s[i] != '-' && s[i] != '>'
}

proof fn lemma_steps_read(steps: Seq<Seq<char>>)
    requires
        steps.len() > 0,
        forall|i: int| 0 <= i < steps.len() ==> step_name(#[trigger] steps[i]),
    ensures
        declared_steps(joined(steps, " -> "@)) == steps,
        joined(steps, " -> "@).len() > 0,
        joined(steps, " -> "@)[0] == steps[0][0],
        joined(steps, " -> "@).last() == steps.last().last(),
        !joined(steps, " -> "@).contains('\n'),
    decreases steps.len(),
{
    let arrow = "->"@;
    let sep = " -> "@;
    reveal_strlit("->");
    reveal_strlit(" -> ");
    let first = steps[0];
    assert(step_name(first));
    if steps.len() == 1 {
        joining_few(first, sep);
        assert(steps =~= seq![first]);
        assert forall|j: int| 0 <= j <= first.len() implies !starts_with(
            #[trigger] first.skip(j),
            arrow,
        ) by {
            if starts_with(first.skip(j), arrow) {
                assert(first.skip(j).take(2)[0] == first[j]);
                assert(arrow[0] == '-');
            }
        }
        lemma_not_found(first, arrow, 0);
        assert(split_text(first, arrow) == seq![first]);
        lemma_trimmed(first);
        lemma_nonblank(seq![first], seq![first]);
    } else {
        let tail = steps.skip(1);
        let head = seq![first];
        assert(steps =~= head + tail);
        assert forall|i: int| 0 <= i < tail.len() implies step_name(#[trigger] tail[i]) by {
            assert(tail[i] == steps[i + 1]);
        }
        lemma_steps_read(tail);
        joining_goes_through(head, tail, sep);
        joining_few(first, sep);
        let rest = joined(tail, sep);
        let s = joined(steps, sep);
        assert(s =~= first + sep + rest);
        let k = first.len() as int + 1;
        assert forall|j: int| 0 <= j < k implies !starts_with(#[trigger] s.skip(j), arrow) by {
            if starts_with(s.skip(j), arrow) {
                assert(s.skip(j).take(2)[0] == s[j]);
                assert(arrow[0] == '-');
                if j < first.len() {
                    assert(s[j] == first[j]);
                } else {
                    assert(s[j] == ' ');
                }
            }
        }
        assert(s[k] == '-' && s[k + 1] == '>');
        assert(s.skip(k).take(2) =~= arrow);
        lemma_found_at(s, arrow, 0, k);
        let left = s.take(k);
        let right = s.skip(k + 2);
        assert(left =~= first + seq![' ']);
        assert(right =~= seq![' '] + rest);
        assert(split_text(s, arrow) == seq![left] + split_text(right, arrow));
        let none = Seq::<char>::empty();
        crate::text_laws::trimming_takes_the_blanks(none, first, seq![' ']);
        assert(none + first + seq![' '] =~= left);
        lemma_split_blank(rest);
        let parts = split_text(rest, arrow);
        let moved = split_text(right, arrow);
        lemma_nonblank_same(parts, moved);
        lemma_nonblank_front(left, moved);
        assert(declared_steps(s) == seq![first] + declared_steps(rest));
        assert(tail.last() == steps.last());
        if s.contains('\n') {
            let j = choose|j: int| 0 <= j < s.len() && s[j] == '\n';
            if j < first.len() {
                assert(first[j] == '\n');
                assert(first.contains('\n'));
            } else if j >= first.len() + 4 {
                assert(rest[j - first.len() - 4] == '\n');
                assert(rest.contains('\n'));
            }
        }
    }
}

proof fn lemma_nonblank(list: Seq<Seq<char>>, steps: Seq<Seq<char>>)
    requires
        list.len() == 1,
        steps.len() == 1,
        trim(list[0]) == steps[0],
        steps[0].len() > 0,
    ensures
        nonblank(list) == steps,
{
    assert(list.drop_last().len() == 0);
    assert(nonblank(list.drop_last()) =~= Seq::<Seq<char>>::empty());
    assert(nonblank(list) =~= steps);
}

proof fn lemma_nonblank_front(first: Seq<char>, list: Seq<Seq<char>>)
    requires
        trim(first).len() > 0,
    ensures
        nonblank(seq![first] + list) == seq![trim(first)] + nonblank(list),
    decreases list.len(),
{
    let all = seq![first] + list;
    if list.len() == 0 {
        assert(all.drop_last().len() == 0);
        assert(nonblank(all.drop_last()) =~= Seq::<Seq<char>>::empty());
        assert(nonblank(all) =~= seq![trim(first)] + nonblank(list));
    } else {
        assert(all.drop_last() =~= seq![first] + list.drop_last());
        assert(all.last() == list.last());
        lemma_nonblank_front(first, list.drop_last());
        assert(nonblank(all) =~= seq![trim(first)] + nonblank(list));
    }
}

/// Texts that are the same but for space around them are the same steps.
proof fn lemma_nonblank_same(a: Seq<Seq<char>>, b: Seq<Seq<char>>)
    requires
        a.len() == b.len(),
        forall|i: int| 0 <= i < a.len() ==> trim(#[trigger] a[i]) == trim(b[i]),
    ensures
        nonblank(a) == nonblank(b),
    decreases a.len(),
{
    if a.len() > 0 {
        assert forall|i: int| 0 <= i < a.drop_last().len() implies trim(
            #[trigger] a.drop_last()[i],
        ) == trim(b.drop_last()[i]) by {
            assert(a.drop_last()[i] == a[i]);
        }
        lemma_nonblank_same(a.drop_last(), b.drop_last());
        assert(trim(a[a.len() - 1]) == trim(b[b.len() - 1]));
    } else {
        assert(a =~= b);
    }
}

proof fn lemma_trim_blank(s: Seq<char>)
    ensures
        trim(seq![' '] + s) == trim(s),
{
    let t = seq![' '] + s;
    let p = spaces();
    assert(t[0] == ' ' && p(' '));
    assert(t.skip(1) =~= s);
}

/// A blank in front of a text stands in front of its first part.
proof fn lemma_split_blank(s: Seq<char>)
    ensures
        ({
            let a = split_text(s, "->"@);
            let b = split_text(seq![' '] + s, "->"@);
            &&& a.len() == b.len()
            &&& forall|i: int| 0 <= i < a.len() ==> trim(#[trigger] a[i]) == trim(b[i])
        }),
{
    let arrow = "->"@;
    reveal_strlit("->");
    let t = seq![' '] + s;
    let k = find_text(s, arrow, 0);
    let m = find_text(t, arrow, 0);
    lemma_find_shift(s, 0);
    assert(t.skip(0) =~= t);
    assert(t.take(2)[0] == ' ' || t.len() < 2);
    assert(arrow[0] == '-');
    assert(!starts_with(t.skip(0), arrow));
    assert(m == find_text(t, arrow, 1));
    if k < 0 {
        assert(split_text(s, arrow) == seq![s]);
        assert(split_text(t, arrow) == seq![t]);
        lemma_trim_blank(s);
    } else {
        assert(m == k + 1);
        crate::text::lemma_find_text(s, arrow, 0);
        assert(t.take(m) =~= seq![' '] + s.take(k));
        assert(t.skip(m + 2) =~= s.skip(k + 2));
        lemma_trim_blank(s.take(k));
        let rest = split_text(s.skip(k + 2), arrow);
        assert(split_text(s, arrow) == seq![s.take(k)] + rest);
        assert(split_text(t, arrow) == seq![t.take(m)] + rest);
    }
}

proof fn lemma_find_shift(s: Seq<char>, i: int)
    requires
        0 <= i <= s.len() + 1,
    ensures
        ({
            let k = find_text(s, "->"@, i);
            find_text(seq![' '] + s, "->"@, i + 1) == (if k < 0 {
                -1
            } else {
                k + 1
            })
        }),
    decreases s.len() + 1 - i,
{
    let t = seq![' '] + s;
    if i <= s.len() {
        assert(t.skip(i + 1) =~= s.skip(i));
        lemma_find_shift(s, i + 1);
    }
}

/// A later line with steps declares them anew, in the order in which the arrows
/// lead.
pub proof fn later_steps_count(source: Seq<char>, steps: Seq<Seq<char>>)
    requires
        source.len() > 0 ==> source.last() == '\n',
        declared(source) is Ok,
        steps.len() >= 2,
        forall|i: int| 0 <= i < steps.len() ==> step_name(#[trigger] steps[i]),
    ensures
        declared(with_line(source, "# ogit: steps "@ + joined(steps, " -> "@))) == Ok::<
            Declared,
            DemoError,
        >(Declared { steps, ..declared(source)->Ok_0 }),
{
    let value = joined(steps, " -> "@);
    lemma_steps_read(steps);
    assert(step_name(steps[0]) && step_name(steps[steps.len() - 1]));
    lemma_literals();
    lemma_declared_anew(source, "steps "@, value);
    lemma_keys_differ();
}

/// A source is read only where each of the six names is declared on some line.
pub proof fn read_sources_declare_everything(source: Seq<char>, key: Seq<char>)
    requires
        declared(source) is Ok,
        key == "group "@ || key == "policy "@ || key == "invariant "@ || key == "effects "@ || key
            == "steps "@ || key == "intent "@,
    ensures
        exists|i: int|
            0 <= i < lines(source).len() && starts_with(
                trim(#[trigger] lines(source)[i]),
                "# ogit: "@ + key,
            ),
{
    lemma_declared_somewhere(lines(source), key);
}

proof fn lemma_declared_somewhere(list: Seq<Seq<char>>, key: Seq<char>)
    requires
        last_declared(list, key) is Some,
    ensures
        exists|i: int|
            0 <= i < list.len() && starts_with(trim(#[trigger] list[i]), "# ogit: "@ + key),
    decreases list.len(),
{
    if declaration(list.last(), key) is Some {
        let t = trim(list[list.len() - 1]);
        let prefix = "# ogit: "@;
        let both = prefix + key;
        assert(t.take(both.len() as int) =~= both) by {
            assert(t.take(prefix.len() as int) == prefix);
            assert(t.skip(prefix.len() as int).take(key.len() as int) == key);
            assert forall|j: int| 0 <= j < both.len() implies t[j] == both[j] by {
                if j < prefix.len() {
                    assert(t.take(prefix.len() as int)[j] == t[j]);
                } else {
                    assert(t.skip(prefix.len() as int).take(key.len() as int)[j - prefix.len()]
                        == t[j]);
                }
            }
        }
        assert(starts_with(trim(list[list.len() - 1]), both));
    } else {
        lemma_declared_somewhere(list.drop_last(), key);
        let i = choose|i: int|
            0 <= i < list.drop_last().len() && starts_with(
                trim(#[trigger] list.drop_last()[i]),
                "# ogit: "@ + key,
            );
        assert(list[i] == list.drop_last()[i]);
    }
}

} // verus!
