//! What holds of linked documents and of the files that they are made of.

use vstd::prelude::*;

use crate::collect::{generated, Collected, Content, Entry, EntryFate, Place};
use crate::document::{
    body_of, catalog_lookup, document, emitted, emitted_from, emitted_run, header, placement,
    rejected_sections, run_end, with_shebang, CatalogEntry, ParallelLinkMode, Placement,
    SectionPlan,
};
use crate::files::backend_of;
use crate::ir::ExecutionMode;
use crate::link::{FileText, Pairs};
use crate::text::{byte_len, decimal, ends_with, starts_with};
use crate::text_laws::{lemma_ends, lemma_starts};
use crate::unlink::SECTION_LENGTH_PREFIX;

verus! {

/// What stands between two sections that follow each other: a comma where they may
/// run at the same time, and otherwise the end of the batch of the one and the
/// start of the batch of the other, where they are in one.
pub open spec fn between(a: SectionPlan, b: SectionPlan) -> Seq<char> {
    if a.placement.parallel() && b.placement.parallel() && a.wave == b.wave {
        ",\n"@
    } else {
        batch_end(a) + batch_start(b)
    }
}

/// The start of the batch that a section is in, if it is in one.
pub open spec fn batch_start(a: SectionPlan) -> Seq<char> {
    if a.placement.parallel() {
        "\nautonomous(batch(\n"@
    } else {
        ""@
    }
}

/// The end of the batch that a section is in, if it is in one.
pub open spec fn batch_end(a: SectionPlan) -> Seq<char> {
    if a.placement.parallel() {
        "\n))\n"@
    } else {
        ""@
    }
}

/// A section: a marker line, a line with the number of its bytes, and its body,
/// which ends in a line feed.
pub open spec fn section(a: SectionPlan) -> Seq<char> {
    "\n# ── "@ + a.marker + " ──\n# o-link-section-bytes: "@ + decimal(byte_len(a.body)) + "\n"@
        + a.body + (if a.body.len() > 0 && a.body.last() == '\n' {
        ""@
    } else {
        "\n"@
    })
}

/// The sections from `i` on, with what stands between them and behind the last.
pub open spec fn strung(list: Seq<SectionPlan>, i: int) -> Seq<char>
    decreases list.len() - i,
{
    if 0 <= i < list.len() - 1 {
        section(list[i]) + between(list[i], list[i + 1]) + strung(list, i + 1)
    } else {
        section(list[i]) + batch_end(list[i])
    }
}

proof fn lemma_section(a: SectionPlan)
    ensures
        emitted(a.marker, a.body) == section(a),
{
    reveal_strlit("\n# ── ");
    reveal_strlit(" ──\n# o-link-section-bytes: ");
    reveal_strlit("# o-link-section-bytes: ");
    reveal_strlit("\n");
    reveal_strlit("");
    assert(SECTION_LENGTH_PREFIX@ == "# o-link-section-bytes: "@);
    let end = if a.body.len() > 0 && a.body.last() == '\n' {
        Seq::<char>::empty()
    } else {
        seq!['\n']
    };
    assert(seq!['\n'] + (seq!['#', ' ', '─', '─', ' '] + a.marker + seq![' ', '─', '─']) + seq!['\n'] + (
    SECTION_LENGTH_PREFIX@ + decimal(byte_len(a.body))) + seq!['\n'] + a.body + end =~= section(a));
}

proof fn lemma_run(list: Seq<SectionPlan>, i: int, end: int)
    requires
        0 <= i < end <= list.len(),
        forall|k: int| i <= k < end ==> (#[trigger] list[k]).placement.parallel() && list[k].wave
            == list[i].wave,
        end < list.len() ==> !(list[end].placement.parallel() && list[end].wave == list[i].wave),
    ensures
        strung(list, i) == emitted_run(list, i, end) + "))\n"@ + (if end < list.len() {
            batch_start(list[end]) + strung(list, end)
        } else {
            ""@
        }),
    decreases end - i,
{
    lemma_signs();
    lemma_section(list[i]);
    let own = section(list[i]);
    let close = "))\n"@;
    let feed = seq!['\n'];
    let tail = if end < list.len() {
        batch_start(list[end]) + strung(list, end)
    } else {
        ""@
    };
    assert(list[i].placement.parallel());
    if i + 1 < end {
        assert(list[i + 1].placement.parallel() && list[i + 1].wave == list[i].wave);
        assert forall|k: int| i + 1 <= k < end implies (#[trigger] list[k]).placement.parallel()
            && list[k].wave == list[i + 1].wave by {}
        lemma_run(list, i + 1, end);
        let more = emitted_run(list, i + 1, end);
        assert(strung(list, i) == own + ",\n"@ + strung(list, i + 1));
        assert(emitted_run(list, i, end) == own + ",\n"@ + more);
        lemma_regroup(own, ",\n"@, more, close, tail);
    } else {
        let none = Seq::<char>::empty();
        assert(emitted_run(list, i + 1, end) == none);
        assert(emitted_run(list, i, end) == own + feed + none);
        if end < list.len() {
            assert(list[i + 1] == list[end]);
            assert(strung(list, i) == own + (feed + close + batch_start(list[end])) + strung(
                list,
                end,
            ));
            lemma_regroup_end(own, feed, close, batch_start(list[end]), strung(list, end));
        } else {
            assert(strung(list, i) == own + (feed + close));
            lemma_regroup_end(own, feed, close, none, none);
            assert(own + (feed + close) =~= own + (feed + close + none) + none);
            assert(none + none =~= none);
        }
    }
}

proof fn lemma_signs()
    ensures
        ",\n"@ == seq![',', '\n'],
        "\n))\n"@ == seq!['\n'] + "))\n"@,
        ""@ == Seq::<char>::empty(),
{
    reveal_strlit(",\n");
    reveal_strlit("");
    reveal_strlit("\n))\n");
    reveal_strlit("))\n");
    assert("\n))\n"@ =~= seq!['\n'] + "))\n"@);
    assert(",\n"@ =~= seq![',', '\n']);
    assert(""@ =~= Seq::<char>::empty());
}

proof fn lemma_regroup(a: Seq<char>, b: Seq<char>, c: Seq<char>, d: Seq<char>, e: Seq<char>)
    ensures
        a + b + (c + d + e) == a + b + c + d + e,
{
    assert(a + b + (c + d + e) =~= a + b + c + d + e);
}

proof fn lemma_regroup_end(a: Seq<char>, b: Seq<char>, c: Seq<char>, d: Seq<char>, e: Seq<char>)
    ensures
        a + (b + c + d) + e == a + b + Seq::<char>::empty() + c + (d + e),
{
    assert(a + (b + c + d) + e =~= a + b + Seq::<char>::empty() + c + (d + e));
}

proof fn lemma_run_end(list: Seq<SectionPlan>, i: int, wave: int)
    requires
        0 <= i <= list.len(),
    ensures
        ({
            let end = run_end(list, i, wave);
            &&& i <= end <= list.len()
            &&& forall|k: int|
                i <= k < end ==> (#[trigger] list[k]).placement.parallel() && list[k].wave == wave
            &&& end < list.len() ==> !(list[end].placement.parallel() && list[end].wave == wave)
        }),
    decreases list.len() - i,
{
    if i < list.len() && list[i].placement.parallel() && list[i].wave == wave {
        lemma_run_end(list, i + 1, wave);
    }
}

proof fn lemma_strung(list: Seq<SectionPlan>, i: int)
    requires
        0 <= i < list.len(),
    ensures
        emitted_from(list, i) == batch_start(list[i]) + strung(list, i),
    decreases list.len() - i,
{
    lemma_signs();
    lemma_section(list[i]);
    let none = Seq::<char>::empty();
    let own = section(list[i]);
    if list[i].placement.parallel() {
        let wave = list[i].wave;
        let end = run_end(list, i + 1, wave);
        lemma_run_end(list, i + 1, wave);
        assert forall|k: int| i <= k < end implies (#[trigger] list[k]).placement.parallel()
            && list[k].wave == list[i].wave by {}
        lemma_run(list, i, end);
        if end < list.len() {
            lemma_strung(list, end);
        }
        lemma_regroup_run(
            "\nautonomous(batch(\n"@,
            emitted_run(list, i, end),
            "))\n"@,
            emitted_from(list, end),
        );
    } else if i + 1 < list.len() {
        lemma_strung(list, i + 1);
        lemma_regroup_plain(own, batch_start(list[i + 1]), strung(list, i + 1));
    } else {
        assert(emitted_from(list, i + 1) == none);
        lemma_regroup_plain(own, none, none);
    }
}

proof fn lemma_regroup_run(a: Seq<char>, b: Seq<char>, c: Seq<char>, d: Seq<char>)
    ensures
        a + b + c + d == a + (b + c + d),
{
    assert(a + b + c + d =~= a + (b + c + d));
}

proof fn lemma_regroup_plain(own: Seq<char>, b: Seq<char>, c: Seq<char>)
    ensures
        own + (b + c) == Seq::<char>::empty() + (own + (Seq::<char>::empty() + b) + c),
        own + Seq::<char>::empty() == Seq::<char>::empty() + (own + Seq::<char>::empty()),
{
    assert(own + (b + c) =~= Seq::<char>::empty() + (own + (Seq::<char>::empty() + b) + c));
    assert(own + Seq::<char>::empty() =~= Seq::<char>::empty() + (own + Seq::<char>::empty()));
}

/// A document is its header and its sections, in order: sections that follow each
/// other share a batch exactly where both may run beside others and they are of
/// one wave, and a section that may not run beside others stands in no batch.
pub proof fn documents_batch_by_wave(list: Seq<SectionPlan>)
    requires
        list.len() > 0,
    ensures
        document(list) == "# Linked by o-link: single-file .O program\n"@ + batch_start(list[0])
            + strung(list, 0),
        document(Seq::empty()) == "# Linked by o-link: single-file .O program\n"@,
{
    lemma_strung(list, 0);
    let none = Seq::<SectionPlan>::empty();
    assert(emitted_from(none, 0) == Seq::<char>::empty());
    assert(document(none) =~= header());
    assert(document(list) =~= "# Linked by o-link: single-file .O program\n"@ + batch_start(list[0])
        + strung(list, 0));
}

/// A section may run beside others only where that was asked for, and never one
/// that is an O document: with everything opted in, where its backend does not
/// splice syntax; with verified work alone, where it is pure and rendered in place.
pub proof fn placements_are_as_asked(
    parallel: Option<ParallelLinkMode>,
    inlined: bool,
    pure: bool,
    execution: ExecutionMode,
)
    ensures
        placement(parallel, inlined, Some((pure, execution))).parallel() <==> !inlined && match parallel {
            None => false,
            Some(ParallelLinkMode::Autonomous) => execution == ExecutionMode::InlineValue
                || execution == ExecutionMode::Shim,
            Some(ParallelLinkMode::Verified) => pure && execution == ExecutionMode::InlineValue,
        },
        !placement(None, inlined, None).parallel(),
        !placement(parallel, true, None).parallel(),
        parallel is None ==> placement(parallel, inlined, None) == Placement::NotRequested,
        parallel is Some && inlined ==> placement(parallel, inlined, None)
            == Placement::InlinedDocument,
{
}

/// The catalog says of a tag what its first entry for the tag says.
pub proof fn catalogs_go_by_the_first_entry(catalog: Seq<CatalogEntry>, tag: Seq<char>, i: int)
    requires
        0 <= i < catalog.len(),
        catalog[i].tag@ == tag,
        forall|k: int| 0 <= k < i ==> (#[trigger] catalog[k]).tag@ != tag,
    ensures
        catalog_lookup(catalog, tag) == Some((catalog[i].pure, catalog[i].execution)),
    decreases catalog.len(),
{
    if i > 0 {
        assert(catalog[0].tag@ != tag);
        let rest = catalog.skip(1);
        assert(rest[i - 1] == catalog[i]);
        assert forall|k: int| 0 <= k < i - 1 implies (#[trigger] rest[k]).tag@ != tag by {
            assert(rest[k] == catalog[k + 1]);
        }
        catalogs_go_by_the_first_entry(rest, tag, i - 1);
    }
}

/// Where all sections have to run beside others, the ones that may not are named,
/// each with its marker, and no others are.
pub proof fn refused_sections_are_named(list: Seq<SectionPlan>, i: int)
    requires
        0 <= i < list.len(),
    ensures
        !list[i].placement.parallel() ==> rejected_sections(list).contains(
            list[i].marker + " ("@ + list[i].placement.text() + ")"@,
        ),
        (forall|k: int| 0 <= k < list.len() ==> (#[trigger] list[k]).placement.parallel())
            ==> rejected_sections(list).len() == 0,
        rejected_sections(list).len() <= list.len(),
    decreases list.len(),
{
    reveal_strlit(" (");
    reveal_strlit(")");
    let init = list.drop_last();
    let last = list.last();
    let all = rejected_sections(list);
    let before = rejected_sections(init);
    let line = list[i].marker + " ("@ + list[i].placement.text() + ")"@;
    assert(line =~= list[i].marker + seq![' ', '('] + list[i].placement.text() + seq![')']);
    if init.len() > 0 {
        let k: int = if i < init.len() {
            i
        } else {
            0
        };
        refused_sections_are_named(init, k);
        if i < init.len() {
            assert(init[i] == list[i]);
            if !list[i].placement.parallel() {
                let at = choose|at: int| 0 <= at < before.len() && before[at] == line;
                assert(all[at] == line);
            }
        }
        if forall|k: int| 0 <= k < list.len() ==> (#[trigger] list[k]).placement.parallel() {
            assert forall|k: int| 0 <= k < init.len() implies (#[trigger] init[k]).placement.parallel() by {
                assert(init[k] == list[k]);
            }
            assert(list[list.len() - 1].placement.parallel());
        }
    } else {
        assert(before.len() == 0);
        assert(list[0] == last);
    }
    if i == list.len() - 1 && !last.placement.parallel() {
        assert(all[all.len() - 1] == line);
    }
}

/// A file that is no O document stands in a block of its language that asks for a
/// fresh environment, and an O document stands as it is, but for a first line that
/// makes it executable.
pub proof fn files_stand_in_fresh_blocks(file: FileText, pairs: Pairs, tags: Set<Seq<char>>)
    ensures
        ({
            let backend = backend_of(file.path, pairs);
            let body = body_of(file, pairs, tags);
            &&& backend.len() > 0 ==> starts_with(body, backend + "[*]^(\n"@) && ends_with(
                body,
                ")_"@ + backend + "[*]\n"@,
            )
            &&& backend.len() == 0 && !starts_with(file.content, "#!"@) ==> body == file.content
        }),
{
    reveal_strlit("[*]^(\n");
    reveal_strlit(")_");
    reveal_strlit("[*]\n");
    reveal_strlit("#!");
    let backend = backend_of(file.path, pairs);
    let body = body_of(file, pairs, tags);
    if backend.len() > 0 {
        let closer = crate::document::fresh_closer(backend);
        let middle = crate::escape::escape(file.content, closer, tags);
        let open = backend + "[*]^(\n"@;
        let close = ")_"@ + backend + "[*]\n"@;
        assert(body =~= open + (middle + close));
        lemma_starts(open, middle + close);
        assert(body =~= (open + middle) + close);
        lemma_ends(open + middle, close);
    } else if !starts_with(file.content, "#!"@) {
        if file.content.len() >= 2 && file.content[0] == '#' && file.content[1] == '!' {
            assert(file.content.take(2) =~= "#!"@);
        }
    }
}

/// A linked document is never linked again when it is found in a directory, with
/// or without the line that makes it executable.
pub proof fn documents_are_not_linked_again(
    list: Seq<SectionPlan>,
    c: Collected,
    path: Seq<char>,
    identity: Place,
)
    ensures
        generated(document(list)),
        generated(with_shebang(document(list))),
        forall|text: &str|
            text@ == document(list) || text@ == with_shebang(document(list)) ==> (
            #[trigger] c.reading(path, identity, Content::Text(text))).files == c.files,
{
    reveal_strlit("# Linked by o-link: single-file .O program\n");
    reveal_strlit("# Linked by o-link");
    reveal_strlit("#!/usr/bin/env o\r\n");
    reveal_strlit("#!/usr/bin/env o\n");
    let doc = document(list);
    assert(doc.take(18) =~= "# Linked by o-link"@);
    assert(doc[1] == ' ');
    assert("#!/usr/bin/env o\r\n"@[1] == '!' && "#!/usr/bin/env o\n"@[1] == '!');
    if starts_with(doc, "#!/usr/bin/env o\r\n"@) {
        assert(doc.take(18)[1] == doc[1]);
    }
    if starts_with(doc, "#!/usr/bin/env o\n"@) {
        assert(doc.take(17)[1] == doc[1]);
    }
    let marked = with_shebang(doc);
    lemma_starts("#!/usr/bin/env o\n"@, doc);
    assert(marked[16] == '\n');
    if starts_with(marked, "#!/usr/bin/env o\r\n"@) {
        assert(marked.take(18)[16] == marked[16]);
        assert("#!/usr/bin/env o\r\n"@[16] == '\r');
    }
}

/// Nothing that an ignore file leaves out, that is hidden, or that a build left
/// behind is linked; every other directory is walked and every other file read.
pub proof fn entries_are_walked_unless_excluded(entry: Entry)
    ensures
        entry.ignored_by is Some ==> entry.fate() is LeaveOut,
        starts_with(entry.name@, "."@) ==> entry.fate() is LeaveOut,
        entry.is_dir && (entry.name@ == "target"@ || entry.name@ == "node_modules"@ || entry.name@
            == "__pycache__"@ || entry.name@ == ".git"@) ==> entry.fate() is LeaveOut,
        entry.ignored_by is None && !starts_with(entry.name@, "."@) && entry.is_dir && entry.name@
            != "target"@ && entry.name@ != "node_modules"@ && entry.name@ != "__pycache__"@
            ==> entry.fate() is Walk,
        entry.ignored_by is None && !starts_with(entry.name@, "."@) && !entry.is_dir && entry.is_file
            ==> entry.fate() is Read,
        entry.ignored_by is None && !starts_with(entry.name@, "."@) && !entry.is_dir
            && !entry.is_file ==> entry.fate() is Pass,
        entry.ignored_by is Some ==> entry.fate() == EntryFate::LeaveOut(
            "ignored by "@ + entry.ignored_by->Some_0@,
        ),
{
    reveal_strlit(".");
    reveal_strlit(".git");
    let name = entry.name@;
    if name.len() > 0 {
        assert(name.take(1)[0] == name[0]);
        if name[0] == '.' {
            assert(name.take(1) =~= "."@);
        }
    }
    assert(".git"@[0] == '.');
}

/// Every text that is read in a directory and is no output of an earlier link is
/// linked once, under its path, unless it is the output or was taken before; what
/// is not text, or cannot be read, is not.
pub proof fn texts_are_linked(
    c: Collected,
    path: Seq<char>,
    identity: Place,
    text: &str,
    error: &str,
)
    ensures
        !generated(text@) && c.output != Some(identity) && !c.identities.contains(identity)
            ==> c.reading(path, identity, Content::Text(text)).files == c.files.push(path),
        c.output == Some(identity) || c.identities.contains(identity) ==> c.reading(
            path,
            identity,
            Content::Text(text),
        ).files == c.files,
        c.reading(path, identity, Content::NotText).files == c.files,
        c.reading(path, identity, Content::Unreadable(error)).files == c.files,
{
}

/// The marker of a file fits on a line.
pub proof fn markers_fit_on_a_line(path: Seq<char>, root: Seq<char>)
    ensures
        crate::document::marker_of(path, root) matches Ok(marker) ==> !marker.contains('\n')
            && !marker.contains('\r'),
{
}

} // verus!
