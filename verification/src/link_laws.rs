//! What holds of the order in which files are linked, in terms of the files.

use vstd::prelude::*;

use crate::components::{components, start_of, step, steps_in};
use crate::files::{
    backend_of, dependency_group_of, dotted, extension, file_name, last_position,
    lemma_last_position, source_root, stem, stems,
};
use crate::graph::reaches;
use crate::import_forms::{
    every_line_counts, free_of, has_line, in_quotes, javascript_calls_import, quote,
};
use crate::import_laws::{module_word, modules_are_known_by_name, plain, source_ending};
use crate::imports::{imports, syntax_of};
use crate::link::{
    depends, file_steps, first_alike, first_same, group_keys, imported_names, lemma_depends_inside,
    resolve, FileText, Pairs,
};
use crate::paths::{settled_name, slash};
use crate::plan::{
    dependencies_run_first, lemma_slot, node_at, slot_of, slots_hold_every_node_once, wave,
};
use crate::text::split_by;
use crate::text_laws::{lemma_split_whole, splitting_goes_through};

verus! {

proof fn lemma_first_alike(files: Seq<FileText>, pairs: Pairs, i: int, from: int)
    requires
        0 <= from <= i < files.len(),
    ensures
        from <= first_alike(files, pairs, i, from) <= i,
        dependency_group_of(files[first_alike(files, pairs, i, from)].path, pairs)
            == dependency_group_of(files[i].path, pairs),
        forall|k: int|
            from <= k < first_alike(files, pairs, i, from) ==> dependency_group_of(
                (#[trigger] files[k]).path,
                pairs,
            ) != dependency_group_of(files[i].path, pairs),
    decreases i - from,
{
    if from < i && dependency_group_of(files[from].path, pairs) != dependency_group_of(
        files[i].path,
        pairs,
    ) {
        lemma_first_alike(files, pairs, i, from + 1);
    }
}

/// Two files are ordered together exactly where their languages are of one group.
pub proof fn groups_are_languages(files: Seq<FileText>, pairs: Pairs, i: int, j: int)
    requires
        0 <= i < files.len(),
        0 <= j < files.len(),
    ensures
        group_keys(files, pairs)[i] == group_keys(files, pairs)[j] <==> dependency_group_of(
            files[i].path,
            pairs,
        ) == dependency_group_of(files[j].path, pairs),
{
    lemma_first_alike(files, pairs, i, 0);
    lemma_first_alike(files, pairs, j, 0);
    let a = first_alike(files, pairs, i, 0);
    let b = first_alike(files, pairs, j, 0);
    if dependency_group_of(files[i].path, pairs) == dependency_group_of(files[j].path, pairs) {
        if a < b {
            assert(dependency_group_of(files[a].path, pairs) != dependency_group_of(
                files[j].path,
                pairs,
            ));
        } else if b < a {
            assert(dependency_group_of(files[b].path, pairs) != dependency_group_of(
                files[i].path,
                pairs,
            ));
        }
    }
}

proof fn lemma_resolves(
    files: Seq<FileText>,
    pairs: Pairs,
    i: int,
    name: Seq<char>,
    j: int,
    from: int,
)
    requires
        0 <= i < files.len(),
        0 <= from <= j < files.len(),
        dependency_group_of(files[i].path, pairs) == dependency_group_of(files[j].path, pairs),
        stems(files[j].path).contains(name),
        forall|k: int|
            0 <= k < j ==> dependency_group_of((#[trigger] files[k]).path, pairs)
                != dependency_group_of(files[i].path, pairs) || !stems(files[k].path).contains(name),
    ensures
        resolve(files, pairs, i, name, from) == j,
    decreases j - from,
{
    groups_are_languages(files, pairs, from, i);
    if from < j {
        assert(dependency_group_of(files[from].path, pairs) != dependency_group_of(
            files[i].path,
            pairs,
        ) || !stems(files[from].path).contains(name));
        lemma_resolves(files, pairs, i, name, j, from + 1);
    }
}

/// A file that imports a name depends on the first file of its language group that
/// can be imported under that name; where that file does not lead back to it, it
/// comes first in the linked program, and runs in an earlier wave.
pub proof fn imported_files_come_first(
    files: Seq<FileText>,
    pairs: Pairs,
    i: int,
    j: int,
    name: Seq<char>,
    p: int,
    q: int,
)
    requires
        0 <= i < files.len(),
        0 <= j < files.len(),
        i != j,
        imports(syntax_of(backend_of(files[i].path, pairs)), files[i].content).contains(name),
        dependency_group_of(files[i].path, pairs) == dependency_group_of(files[j].path, pairs),
        stems(files[j].path).contains(name),
        forall|k: int|
            0 <= k < j ==> dependency_group_of((#[trigger] files[k]).path, pairs)
                != dependency_group_of(files[i].path, pairs) || !stems(files[k].path).contains(name),
        !reaches(depends(files, pairs), j, i),
        0 <= p < files.len(),
        0 <= q < files.len(),
        node_at(group_keys(files, pairs), depends(files, pairs), p) == i,
        node_at(group_keys(files, pairs), depends(files, pairs), q) == j,
    ensures
        depends(files, pairs)(i, j),
        q < p,
        wave(file_steps(files, pairs), q) < wave(file_steps(files, pairs), p),
{
    let e = depends(files, pairs);
    let keys = group_keys(files, pairs);
    lemma_resolves(files, pairs, i, name, j, 0);
    assert(imported_names(files[i], pairs).contains(name));
    assert(e(i, j));
    lemma_depends_inside(files, pairs);
    let same = |x: int| first_same(files, x, 0);
    dependencies_run_first(keys, e, same, i, j);
    slots_hold_every_node_once(keys, e);
    assert(node_at(keys, e, slot_of(keys, e, i)) == i);
    assert(node_at(keys, e, slot_of(keys, e, j)) == j);
    assert(slot_of(keys, e, i) == p);
    assert(slot_of(keys, e, j) == q);
}

/// A file depends only on a file that can be imported under a name that it
/// imports, and that is of its own language group.
pub proof fn files_depend_on_imports_alone(files: Seq<FileText>, pairs: Pairs, i: int, j: int) -> (
name: Seq<char>)
    requires
        depends(files, pairs)(i, j),
    ensures
        0 <= i < files.len(),
        0 <= j < files.len(),
        i != j,
        imports(syntax_of(backend_of(files[i].path, pairs)), files[i].content).contains(name),
        stems(files[j].path).contains(name),
        dependency_group_of(files[i].path, pairs) == dependency_group_of(files[j].path, pairs),
{
    let name = choose|name: Seq<char>|
        #[trigger] imported_names(files[i], pairs).contains(name) && resolve(
            files,
            pairs,
            i,
            name,
            0,
        ) == j;
    lemma_resolved(files, pairs, i, name, 0);
    groups_are_languages(files, pairs, i, j);
    name
}

proof fn lemma_resolved(files: Seq<FileText>, pairs: Pairs, i: int, name: Seq<char>, from: int)
    requires
        0 <= from,
    ensures
        ({
            let j = resolve(files, pairs, i, name, from);
            0 <= j < files.len() ==> stems(files[j].path).contains(name) && first_alike(
                files,
                pairs,
                j,
                0,
            ) == first_alike(files, pairs, i, 0)
        }),
    decreases files.len() - from,
{
    if from < files.len() && !(first_alike(files, pairs, from, 0) == first_alike(files, pairs, i, 0)
        && stems(files[from].path).contains(name)) {
        lemma_resolved(files, pairs, i, name, from + 1);
    }
}

/// Every file is linked, none twice, and each in a place that a file of its
/// language group had.
pub proof fn files_change_places_within_their_language(
    files: Seq<FileText>,
    pairs: Pairs,
    i: int,
    p: int,
)
    requires
        0 <= i < files.len(),
        0 <= p < files.len(),
    ensures
        exists|q: int|
            0 <= q < files.len() && #[trigger] node_at(
                group_keys(files, pairs),
                depends(files, pairs),
                q,
            ) == i,
        ({
            let n = node_at(group_keys(files, pairs), depends(files, pairs), p);
            0 <= n < files.len() && dependency_group_of(files[n].path, pairs)
                == dependency_group_of(files[p].path, pairs)
        }),
{
    let e = depends(files, pairs);
    let keys = group_keys(files, pairs);
    lemma_depends_inside(files, pairs);
    slots_hold_every_node_once(keys, e);
    assert(node_at(keys, e, slot_of(keys, e, i)) == i);
    lemma_slot(keys, e, p);
    groups_are_languages(files, pairs, node_at(keys, e, p), p);
}

/// Whether a text can be the ending of a file: a dot and something without dots and
/// slashes.
pub open spec fn ending(e: Seq<char>) -> bool {
    e.len() > 1 && e[0] == '.' && forall|i: int|
        1 <= i < e.len() ==> #[trigger] e[i] != '.' && e[i] != '/'
}

/// Whether a text has neither dots nor slashes in it.
pub open spec fn dotless(m: Seq<char>) -> bool {
    m.len() > 0 && forall|i: int| 0 <= i < m.len() ==> #[trigger] m[i] != '.' && m[i] != '/'
}

proof fn lemma_last_component(p: Seq<char>, name: Seq<char>)
    requires
        p.len() > 0 ==> p.last() == '/',
        name.len() > 0,
        name[0] != '.',
        forall|i: int| 0 <= i < name.len() ==> #[trigger] name[i] != '/',
    ensures
        components(p + name).last() == name,
        components(p + name).len() > 0,
        settled_name(name),
        p.len() > 1 ==> components(p + name).drop_last() == components(p.drop_last()),
{
    let s = slash();
    let set = seq!['/'];
    assert(set[0] == '/');
    assert(set.contains('/'));
    assert forall|i: int| 0 <= i < name.len() implies !s(#[trigger] name[i]) by {
        if s(name[i]) {
            assert(set[0] == name[i]);
        }
    }
    lemma_split_whole(name, s);
    let path = p + name;
    let parts = split_by(path, s);
    assert(name != seq!['.'] && name != seq!['.', '.']) by {
        assert(seq!['.'][0] == '.' && seq!['.', '.'][0] == '.');
    }
    assert(!name.contains('/')) by {
        if name.contains('/') {
            let i = choose|i: int| 0 <= i < name.len() && name[i] == '/';
            assert(name[i] != '/');
        }
    }
    assert(step(name));
    if p.len() > 0 {
        let before = p.drop_last();
        assert(path =~= before + seq!['/'] + name);
        splitting_goes_through(before, '/', name, s);
        assert(parts.drop_last() =~= split_by(before, s));
        assert(parts.last() == name);
        if p.len() > 1 {
            assert(path[0] == before[0]);
            let left = split_by(before, s);
            assert(parts[0] == left[0]);
            assert(start_of(path) == start_of(before));
            assert(components(path).drop_last() =~= components(before));
        }
    } else {
        assert(path =~= name);
        assert(parts == seq![name]);
        assert(parts.drop_last().len() == 0);
    }
    assert(steps_in(parts).last() == name);
}

/// A file is known by its name without directory and ending, and its language by
/// the ending.
pub proof fn files_are_named_by_their_stem(p: Seq<char>, m: Seq<char>, e: Seq<char>)
    requires
        p.len() > 0 ==> p.last() == '/',
        dotless(m),
        e.len() == 0 || ending(e),
    ensures
        file_name(p + m + e) == m + e,
        stem(p + m + e) == m,
        extension(p + m + e) == if e.len() == 0 {
            None
        } else {
            Some(e.skip(1))
        },
{
    let name = m + e;
    assert(p + m + e =~= p + name);
    assert(name[0] == m[0]);
    assert forall|i: int| 0 <= i < name.len() implies #[trigger] name[i] != '/' by {
        if i >= m.len() {
            assert(name[i] == e[i - m.len()]);
        } else {
            assert(name[i] == m[i]);
        }
    }
    lemma_last_component(p, name);
    lemma_last_position(name, '.');
    let at = last_position(name, '.');
    if e.len() > 0 {
        assert(name[m.len() as int] == '.');
        if at > m.len() {
            assert(name[at] == e[at - m.len()]);
        }
        assert(at == m.len());
        assert(name.take(at) =~= m);
        assert(name.skip(at + 1) =~= e.skip(1));
    } else {
        assert(name =~= m);
        if at >= 0 {
            assert(name[at] == m[at]);
        }
    }
}

/// A file can be imported under its name, and under the name of its directory and
/// its own, unless that directory is where sources start.
pub proof fn files_are_imported_by_their_names(
    p: Seq<char>,
    d: Seq<char>,
    m: Seq<char>,
    e: Seq<char>,
)
    requires
        p.len() > 0 ==> p.last() == '/',
        dotless(d),
        dotless(m),
        m != "__init__"@,
        e.len() == 0 || ending(e),
    ensures
        stems(p + d + "/"@ + m + e).contains(m),
        d != "src"@ && d != "lib"@ && d != "source"@ && d != "tests"@ ==> stems(
            p + d + "/"@ + m + e,
        ).contains(d + seq!['.'] + m),
        d == "src"@ || d == "lib"@ || d == "source"@ || d == "tests"@ ==> stems(
            p + d + "/"@ + m + e,
        ) == seq![m],
        stems(p + m + e).contains(m),
{
    reveal_strlit("/");
    let up = p + d + "/"@;
    let path = p + d + "/"@ + m + e;
    assert(up.last() == '/');
    assert(path =~= up + m + e);
    files_are_named_by_their_stem(up, m, e);
    files_are_named_by_their_stem(p, m, e);
    let name = m + e;
    assert(up + m + e =~= up + name);
    assert forall|i: int| 0 <= i < name.len() implies #[trigger] name[i] != '/' by {
        if i >= m.len() {
            assert(name[i] == e[i - m.len()]);
        } else {
            assert(name[i] == m[i]);
        }
    }
    assert(name[0] == m[0]);
    lemma_last_component(up, name);
    lemma_last_component(p, d);
    assert(up.drop_last() =~= p + d);
    let above = components(up + name).drop_last();
    assert(above == components(p + d));
    assert(above.last() == d);
    let all = stems(path);
    assert(all[0] == m);
    let longer = d + seq!['.'] + m;
    if d != "src"@ && d != "lib"@ && d != "source"@ && d != "tests"@ {
        assert(d[0] != '.');
        assert(!source_root(d));
        let rest = dotted(above, m);
        assert(rest[0] == longer);
        assert(all[1] == longer);
    } else {
        assert(dotted(above, m) =~= Seq::<Seq<char>>::empty());
        assert(all =~= seq![m]);
    }
    assert(stems(p + m + e)[0] == m);
}

/// A JavaScript file that requires another by its path depends on it: where the
/// other does not lead back, it is linked first, and runs in an earlier wave.
pub proof fn required_files_come_first(
    files: Seq<FileText>,
    pairs: Pairs,
    i: int,
    j: int,
    m: Seq<char>,
    e: Seq<char>,
    before: Seq<char>,
    mark: char,
    after: Seq<char>,
    p: int,
    q: int,
)
    requires
        0 <= i < files.len(),
        0 <= j < files.len(),
        i != j,
        backend_of(files[i].path, pairs) == "javascript"@,
        module_word(m),
        e.len() == 0 || source_ending(e),
        quote(mark),
        free_of(before, "require("@),
        has_line(
            files[i].content,
            before + "require("@ + Seq::<char>::empty() + in_quotes(mark, "./"@ + m + e) + after,
        ),
        dependency_group_of(files[i].path, pairs) == dependency_group_of(files[j].path, pairs),
        stem(files[j].path) == m,
        file_name(files[j].path).len() > 0,
        m != "__init__"@,
        forall|k: int|
            0 <= k < j ==> dependency_group_of((#[trigger] files[k]).path, pairs)
                != dependency_group_of(files[i].path, pairs) || !stems(files[k].path).contains(m),
        !reaches(depends(files, pairs), j, i),
        0 <= p < files.len(),
        0 <= q < files.len(),
        node_at(group_keys(files, pairs), depends(files, pairs), p) == i,
        node_at(group_keys(files, pairs), depends(files, pairs), q) == j,
    ensures
        q < p,
        wave(file_steps(files, pairs), q) < wave(file_steps(files, pairs), p),
{
    let none = Seq::<char>::empty();
    let name = "./"@ + m + e;
    let line = before + "require("@ + none + in_quotes(mark, name) + after;
    lemma_no_mark(m, e, mark);
    javascript_calls_import(before, none, mark, name, after);
    every_line_counts(syntax_of("javascript"@), files[i].content, line);
    modules_are_known_by_name("./"@, m, e);
    assert(candidates_hold(name, m));
    assert(stems(files[j].path)[0] == m);
    imported_files_come_first(files, pairs, i, j, m, p, q);
}

spec fn candidates_hold(name: Seq<char>, m: Seq<char>) -> bool {
    crate::imports::candidates(name).contains(m)
}

proof fn lemma_no_mark(m: Seq<char>, e: Seq<char>, mark: char)
    requires
        module_word(m),
        e.len() == 0 || source_ending(e),
        quote(mark),
    ensures
        !("./"@ + m + e).contains(mark),
{
    reveal_strlit("./");
    reveal_strlit(".py");
    reveal_strlit(".js");
    reveal_strlit(".mjs");
    reveal_strlit(".cjs");
    reveal_strlit(".rs");
    reveal_strlit(".h");
    reveal_strlit(".hpp");
    reveal_strlit(".c");
    reveal_strlit(".cpp");
    reveal_strlit(".java");
    reveal_strlit(".hs");
    reveal_strlit(".rb");
    reveal_strlit(".ml");
    reveal_strlit(".rkt");
    reveal_strlit(".scm");
    reveal_strlit(".lisp");
    reveal_strlit(".sh");
    reveal_strlit(".nix");
    reveal_strlit(".wl");
    reveal_strlit(".m");
    let s = "./"@ + m + e;
    if s.contains(mark) {
        let i = choose|i: int| 0 <= i < s.len() && s[i] == mark;
        if 2 <= i < 2 + m.len() {
            assert(s[i] == m[i - 2]);
            assert(plain(m[i - 2]));
        } else if i >= 2 + m.len() {
            assert(s[i] == e[i - 2 - m.len()]);
        }
    }
}

} // verus!
