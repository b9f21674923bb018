//! What holds of documents that are taken apart, and of paths that are made plain.

use vstd::prelude::*;

use crate::document::with_shebang;
use crate::paths::{names, settled, slash};
use crate::text::{after_line, any_of, first_line, is_space, split_by, trim};
use crate::text_laws::{
    lemma_ends, lemma_line_read, lemma_trim_back, lemma_trim_front, lemma_trimmed,
    splitting_goes_through,
};
use crate::tree_laws::unslashed;
use crate::unlink::{
    next_marker, path_marker, raw_lines, sections, sized_body, strip_dashes, without_shebang,
    SectionText,
};

verus! {

/// Whether a text can be told from the blanks around it.
pub open spec fn untrimmed(path: Seq<char>) -> bool {
    path.len() > 0 && !is_space(path[0]) && !is_space(path.last())
}

proof fn lemma_marked(head: Seq<char>, path: Seq<char>, foot: Seq<char>)
    requires
        untrimmed(path),
        head == seq!['#', ' ', '─', '─'] || head == seq!['#', ' ', '-', '-'],
        foot == seq!['─', '─'] || foot == seq!['-', '-'],
    ensures
        path_marker(head + seq![' '] + path + seq![' '] + foot) == Some(path),
{
    let blank = seq![' '];
    let blanks = any_of(blank);
    let line = head + blank + path + blank + foot;
    assert(blank[0] == ' ');
    assert(blanks(' '));
    assert(!blanks(path[0])) by {
        if blanks(path[0]) {
            let k = choose|k: int| 0 <= k < blank.len() && blank[k] == path[0];
        }
    }
    assert(!blanks(path.last())) by {
        if blanks(path.last()) {
            let k = choose|k: int| 0 <= k < blank.len() && blank[k] == path.last();
        }
    }
    assert(line[0] == '#' && line.last() == foot[1]);
    assert(!is_space('#') && !is_space('─') && !is_space('-'));
    lemma_trimmed(line);
    assert(line[1] == ' ' && line[2] == head[2] && line[3] == head[3]);
    let rest = path + blank + foot;
    assert(line.skip(4) =~= blank + rest);
    assert(rest[0] == path[0]);
    lemma_trim_front(blank, rest, blanks);
    lemma_ends(path + blank, foot);
    assert(rest.take(rest.len() - 2) =~= path + blank);
    lemma_trim_back(path, blank, blanks);
    assert(strip_dashes(rest) == path);
    lemma_trimmed(path);
}

/// A line names a path between rules or between dashes, of either kind; what stands
/// on any other line names none.
pub proof fn markers_name_their_path(path: Seq<char>, line: Seq<char>)
    requires
        untrimmed(path),
    ensures
        path_marker("# ── "@ + path + " ──"@) == Some(path),
        path_marker("# -- "@ + path + " --"@) == Some(path),
        path_marker("# ── "@ + path + " --"@) == Some(path),
        untrimmed(line) && line[0] != '#' ==> path_marker(line) is None,
        untrimmed(line) && line.len() > 1 && line[1] != ' ' ==> path_marker(line) is None,
        untrimmed(line) && line.len() > 2 && line[2] != '─' && line[2] != '-' ==> path_marker(line)
            is None,
        path_marker(Seq::empty()) is None,
{
    reveal_strlit("# ── ");
    reveal_strlit("# -- ");
    reveal_strlit(" ──");
    reveal_strlit(" --");
    let rules = seq!['#', ' ', '─', '─'];
    let dashes = seq!['#', ' ', '-', '-'];
    let blank = seq![' '];
    lemma_marked(rules, path, seq!['─', '─']);
    lemma_marked(dashes, path, seq!['-', '-']);
    lemma_marked(rules, path, seq!['-', '-']);
    assert("# ── "@ + path + " ──"@ =~= rules + blank + path + blank + seq!['─', '─']);
    assert("# -- "@ + path + " --"@ =~= dashes + blank + path + blank + seq!['-', '-']);
    assert("# ── "@ + path + " --"@ =~= rules + blank + path + blank + seq!['-', '-']);
    if untrimmed(line) {
        lemma_trimmed(line);
    }
    assert(trim(Seq::<char>::empty()).len() == 0);
}

/// Whether no line of a text names a path.
pub open spec fn unmarked(s: Seq<char>) -> bool {
    next_marker(s) == s.len()
}

proof fn lemma_line(line: Seq<char>, rest: Seq<char>)
    requires
        !line.contains('\n'),
    ensures
        first_line(line + seq!['\n'] + rest) == line,
        after_line(line + seq!['\n'] + rest) == rest,
{
    lemma_line_read(line, rest);
}

/// A section is all that follows its marker, up to the next one or the end, unless
/// its length is given; what stands before the first marker is in none.
pub proof fn sections_reach_to_the_next_marker(
    line: Seq<char>,
    path: Seq<char>,
    body: Seq<char>,
)
    requires
        !line.contains('\n'),
        path_marker(line) == Some(path),
        sized_body(body) is None,
        unmarked(body),
    ensures
        sections(line + seq!['\n'] + body) == seq![SectionText { path, body, sized: false }],
        sections(Seq::empty()).len() == 0,
{
    lemma_line(line, body);
    let s = line + seq!['\n'] + body;
    let none = Seq::<char>::empty();
    assert(s.len() > 0);
    assert(body.take(body.len() as int) =~= body);
    assert(body.skip(body.len() as int) =~= none);
    assert(sections(none).len() == 0);
    assert(sections(s) =~= seq![SectionText { path, body, sized: false }]);
}

/// A line that names no path is passed over before the first section, and is part of
/// the section that it stands in.
pub proof fn other_lines_start_no_section(line: Seq<char>, rest: Seq<char>)
    requires
        !line.contains('\n'),
        path_marker(line) is None,
    ensures
        sections(line + seq!['\n'] + rest) == sections(rest),
        next_marker(line + seq!['\n'] + rest) == line.len() + 1 + next_marker(rest),
{
    lemma_line(line, rest);
    lemma_line_read(line, rest);
    let s = line + seq!['\n'] + rest;
    assert(s.len() > 0);
    assert(s.skip(line.len() as int + 1) =~= rest);
}

/// A marker ends the section before it.
pub proof fn markers_end_the_section_before(line: Seq<char>, rest: Seq<char>)
    requires
        !line.contains('\n'),
        path_marker(line) is Some,
    ensures
        next_marker(line + seq!['\n'] + rest) == 0,
{
    lemma_line(line, rest);
}

/// The lines of a source that is part of a document are its own, but for the line
/// that heads a document.
pub proof fn lines_of_sources_are_kept(line: Seq<char>, rest: Seq<char>, more: Seq<char>)
    requires
        !line.contains('\n'),
        line.len() > 0,
        line.last() != '\r',
        !more.contains('\n'),
        more.len() == 0 || more.last() != '\r',
    ensures
        !crate::text::starts_with(line, "# Linked by o-link"@) ==> raw_lines(
            line + seq!['\n'] + rest,
        ) == line + seq!['\n'] + raw_lines(rest),
        raw_lines("# Linked by o-link"@ + more + seq!['\n'] + rest) == raw_lines(rest),
{
    lemma_kept(line, rest);
    let head = "# Linked by o-link"@;
    assert(crate::unlink::GENERATED_HEADER@ == head);
    reveal_strlit("# Linked by o-link");
    let first = head + more;
    assert(!first.contains('\n')) by {
        if first.contains('\n') {
            let k = choose|k: int| 0 <= k < first.len() && first[k] == '\n';
            if k < head.len() {
                assert(first[k] == head[k]);
            } else {
                assert(more[k - head.len()] == '\n');
            }
        }
    }
    if more.len() > 0 {
        assert(first.last() == more.last());
    } else {
        assert(first.last() == head.last());
    }
    lemma_kept(first, rest);
    assert(first.take(head.len() as int) =~= head);
}

proof fn lemma_kept(line: Seq<char>, rest: Seq<char>)
    requires
        !line.contains('\n'),
        line.len() > 0,
        line.last() != '\r',
    ensures
        crate::text::without_return(line + seq!['\n'] + rest) == line,
        crate::text::starts_with(line, crate::unlink::GENERATED_HEADER@) ==> raw_lines(
            line + seq!['\n'] + rest,
        ) == raw_lines(rest),
        !crate::text::starts_with(line, crate::unlink::GENERATED_HEADER@) ==> raw_lines(
            line + seq!['\n'] + rest,
        ) == line + seq!['\n'] + raw_lines(rest),
{
    lemma_line_read(line, rest);
    let s = line + seq!['\n'] + rest;
    let p = line.len() as int;
    assert(s[p - 1] == line[p - 1]);
    assert(s.take(p) =~= line);
    assert(s.len() > 0);
    assert(line.push('\n') =~= line + seq!['\n']);
}

proof fn lemma_names(path: Seq<char>, part: Seq<char>)
    requires
        unslashed(part),
    ensures
        split_by(path + seq!['/'] + part, slash()) == split_by(path, slash()).push(part),
{
    let set = seq!['/'];
    assert(set[0] == '/');
    assert(set.contains('/'));
    let s = slash();
    assert forall|i: int| 0 <= i < part.len() implies !s(#[trigger] part[i]) by {
        if s(part[i]) {
            assert(set[0] == part[i]);
        }
    }
    crate::text_laws::lemma_split_whole(part, s);
    splitting_goes_through(path, '/', part, s);
    assert(split_by(path, s) + seq![part] =~= split_by(path, s).push(part));
}

/// A name behind a path is its last name; a dot or nothing changes no path; and two
/// dots take back the name before them, if there is one.
pub proof fn dots_take_back_names(path: Seq<char>, part: Seq<char>)
    requires
        unslashed(part),
    ensures
        part.len() > 0 && part != "."@ && part != ".."@ ==> names(path + "/"@ + part) == names(
            path,
        ).push(part),
        names(path + "/"@ + "."@) == names(path),
        names(path + "/"@) == names(path),
        names(path + "/"@ + ".."@) == (if names(path).len() == 0 {
            names(path)
        } else {
            names(path).drop_last()
        }),
        part.len() > 0 && part != "."@ && part != ".."@ ==> names(
            path + "/"@ + part + "/"@ + ".."@,
        ) == names(path),
{
    reveal_strlit("/");
    reveal_strlit(".");
    reveal_strlit("..");
    let cut = seq!['/'];
    let none = Seq::<char>::empty();
    let dot = seq!['.'];
    let dots = seq!['.', '.'];
    assert("/"@ =~= cut);
    assert("."@ =~= dot);
    assert(".."@ =~= dots);
    lemma_names(path, part);
    lemma_names(path, dot);
    lemma_names(path, dots);
    lemma_names(path, none);
    assert(path + cut + none =~= path + cut);
    let parts = split_by(path, slash());
    lemma_pushed(parts, part);
    lemma_pushed(parts, dot);
    lemma_pushed(parts, dots);
    lemma_pushed(parts, none);
    lemma_names(path + cut + part, dots);
    lemma_pushed(parts.push(part), dots);
    assert(names(path).push(part).drop_last() =~= names(path));
}

proof fn lemma_pushed(parts: Seq<Seq<char>>, part: Seq<char>)
    ensures
        part.len() == 0 || part == seq!['.'] ==> settled(parts.push(part)) == settled(parts),
        part == seq!['.', '.'] ==> settled(parts.push(part)) == (if settled(parts).len() == 0 {
            settled(parts)
        } else {
            settled(parts).drop_last()
        }),
        part.len() > 0 && part != seq!['.'] && part != seq!['.', '.'] ==> settled(
            parts.push(part),
        ) == settled(parts).push(part),
{
    assert(parts.push(part).drop_last() =~= parts);
    assert(parts.push(part).last() == part);
    assert(seq!['.', '.'].len() == 2 && seq!['.'].len() == 1);
}

/// A first line that makes a document executable is no part of it, whatever it says;
/// a document without one is all there, and one that is given one comes back.
pub proof fn first_lines_are_no_part_of_a_document(line: Seq<char>, rest: Seq<char>)
    requires
        !line.contains('\n'),
    ensures
        without_shebang("#!"@ + line + seq!['\n'] + rest) == rest,
        rest.len() < 2 || rest[0] != '#' || rest[1] != '!' ==> without_shebang(rest) == rest,
        with_shebang(rest) == "#!/usr/bin/env o\n"@ + rest,
        without_shebang(with_shebang(rest)) == rest,
{
    reveal_strlit("#!");
    reveal_strlit("#!/usr/bin/env o\n");
    lemma_first(line, rest);
    let own = seq!['/', 'u', 's', 'r', '/', 'b', 'i', 'n', '/', 'e', 'n', 'v', ' ', 'o'];
    assert(!own.contains('\n'));
    lemma_first(own, rest);
    assert(with_shebang(rest) =~= "#!"@ + own + seq!['\n'] + rest);
}

proof fn lemma_first(line: Seq<char>, rest: Seq<char>)
    requires
        !line.contains('\n'),
    ensures
        without_shebang("#!"@ + line + seq!['\n'] + rest) == rest,
{
    reveal_strlit("#!");
    let first = "#!"@ + line;
    assert(!first.contains('\n')) by {
        if first.contains('\n') {
            let k = choose|k: int| 0 <= k < first.len() && first[k] == '\n';
            if k >= 2 {
                assert(line[k - 2] == '\n');
            }
        }
    }
    lemma_line(first, rest);
    let s = first + seq!['\n'] + rest;
    assert(s[0] == '#' && s[1] == '!');
}

} // verus!
