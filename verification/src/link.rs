//! Linking source files into one `.O` document.
//!
//! Every file becomes a section: a marker line with its path, a line with the
//! number of bytes of its body, and the body. An O document is its own body;
//! any other file is wrapped, escaped, in a block of its backend that asks for
//! a fresh environment.

use vstd::prelude::*;

use crate::components::{components, components_of, same_components};
use crate::files::{
    backend_of, dependency_group, dependency_group_of, ExtensionMap, module_stems, SourceFile,
    stems,
};
use crate::graph::{edges, ints, marked, no_marks, range_where, Relation, well_formed};
use crate::imports::{imported_modules, imports, syntax_of};
use crate::order::OrderedNode;
use crate::plan::{
    assign_waves, frontier_at, inside_groups, lemma_slot, named, node_at, slot_order, steps,
    steps_of, wave, Step,
};
use crate::text::{chars_of, list_contains, members, texts, views};

verus! {

/// A source file as texts.
pub ghost struct FileText {
    pub path: Seq<char>,
    pub content: Seq<char>,
}

/// Source files as texts.
pub open spec fn file_texts(files: Seq<SourceFile>) -> Seq<FileText> {
    files.map_values(|f: SourceFile| FileText { path: f.path@, content: f.content@ })
}

/// The pairs of an extension map.
pub type Pairs = Seq<(Seq<char>, Seq<char>)>;

/// The group of a file: the first file of the same dependency group.
pub open spec fn first_alike(files: Seq<FileText>, pairs: Pairs, i: int, from: int) -> int
    decreases i - from,
{
    if from >= i || dependency_group_of(files[from].path, pairs) == dependency_group_of(
        files[i].path,
        pairs,
    ) {
        if from >= i { i } else { from }
    } else {
        first_alike(files, pairs, i, from + 1)
    }
}

/// The groups of all files.
pub open spec fn group_keys(files: Seq<FileText>, pairs: Pairs) -> Seq<int> {
    Seq::new(files.len(), |i: int| first_alike(files, pairs, i, 0))
}

/// The first file from `from` on that has the path of file `i`.
pub open spec fn first_same(files: Seq<FileText>, i: int, from: int) -> int
    decreases i - from,
{
    if from >= i {
        i
    } else if components(files[from].path) == components(files[i].path) {
        from
    } else {
        first_same(files, i, from + 1)
    }
}

/// The steps in which files run: files of one path are waited for as one.
pub open spec fn file_steps(files: Seq<FileText>, pairs: Pairs) -> Seq<Step> {
    named(
        steps(group_keys(files, pairs), depends(files, pairs)),
        |i: int| first_same(files, i, 0),
    )
}

/// The first file from `from` on, in the group of file `i`, that can be
/// imported as `name`, or the number of files.
pub open spec fn resolve(
    files: Seq<FileText>,
    pairs: Pairs,
    i: int,
    name: Seq<char>,
    from: int,
) -> int
    decreases files.len() - from,
{
    if from < 0 || from >= files.len() {
        files.len() as int
    } else if first_alike(files, pairs, from, 0) == first_alike(files, pairs, i, 0) && stems(
        files[from].path,
    ).contains(name) {
        from
    } else {
        resolve(files, pairs, i, name, from + 1)
    }
}

/// Whether file `i` imports file `j` of its own group.
pub open spec fn depends(files: Seq<FileText>, pairs: Pairs) -> Relation {
    |i: int, j: int|
        {
            &&& 0 <= i < files.len()
            &&& 0 <= j < files.len()
            &&& i != j
            &&& exists|name: Seq<char>|
                #[trigger] imported_names(files[i], pairs).contains(name) && resolve(
                    files,
                    pairs,
                    i,
                    name,
                    0,
                ) == j
        }
}

/// The names that a file imports.
pub open spec fn imported_names(file: FileText, pairs: Pairs) -> Set<Seq<char>> {
    imports(syntax_of(backend_of(file.path, pairs)), file.content)
}

proof fn lemma_resolve(files: Seq<FileText>, pairs: Pairs, i: int, name: Seq<char>, from: int)
    requires
        0 <= from <= files.len(),
    ensures
        from <= resolve(files, pairs, i, name, from) <= files.len(),
        resolve(files, pairs, i, name, from) < files.len() ==> first_alike(
            files,
            pairs,
            resolve(files, pairs, i, name, from),
            0,
        ) == first_alike(files, pairs, i, 0),
    decreases files.len() - from,
{
    if from < files.len() && !(first_alike(files, pairs, from, 0) == first_alike(files, pairs, i, 0)
        && stems(files[from].path).contains(name)) {
        lemma_resolve(files, pairs, i, name, from + 1);
    }
}

/// Imports stay inside the groups.
pub proof fn lemma_depends_inside(files: Seq<FileText>, pairs: Pairs)
    ensures
        inside_groups(group_keys(files, pairs), depends(files, pairs)),
{
    assert forall|i: int, j: int| #[trigger] depends(files, pairs)(i, j) implies group_keys(
        files,
        pairs,
    )[i] == group_keys(files, pairs)[j] by {
        let name = choose|name: Seq<char>|
            #[trigger] imported_names(files[i], pairs).contains(name) && resolve(
                files,
                pairs,
                i,
                name,
                0,
            ) == j;
        lemma_resolve(files, pairs, i, name, 0);
    }
}

/// The groups of all files.
fn keys_of(files: &[SourceFile], ext_map: &ExtensionMap) -> (keys: Vec<usize>)
    ensures
        ints(keys@) == group_keys(file_texts(files@), ext_map.pairs()),
        keys@.len() == files@.len(),
{
    let ghost texts = file_texts(files@);
    let ghost pairs = ext_map.pairs();
    let mut groups: Vec<String> = Vec::new();
    let mut keys: Vec<usize> = Vec::new();
    let mut i: usize = 0;
    while i < files.len()
        invariant
            texts == file_texts(files@),
            pairs == ext_map.pairs(),
            i <= files@.len(),
            groups@.len() == i,
            keys@.len() == i,
            forall|j: int| 0 <= j < i ==> (#[trigger] groups@[j])@ == dependency_group_of(texts[j].path, pairs),
            forall|j: int| 0 <= j < i ==> (#[trigger] keys@[j]) == first_alike(texts, pairs, j, 0),
        decreases files@.len() - i,
    {
        let group = dependency_group(files[i].path.as_str(), ext_map);
        assert(texts[i as int].path == files@[i as int].path@);
        let mut j: usize = 0;
        while j < i && groups[j] != group
            invariant
                j <= i,
                i < files@.len(),
                texts.len() == files@.len(),
                groups@.len() == i,
                group@ == dependency_group_of(texts[i as int].path, pairs),
                forall|j: int|
                    0 <= j < i ==> (#[trigger] groups@[j])@ == dependency_group_of(texts[j].path, pairs),
                first_alike(texts, pairs, i as int, 0) == first_alike(
                    texts,
                    pairs,
                    i as int,
                    j as int,
                ),
            decreases i - j,
        {
            j += 1;
        }
        keys.push(j);
        groups.push(group);
        i += 1;
    }
    assert(ints(keys@) =~= group_keys(texts, pairs));
    keys
}

/// For every file the files that it imports.
#[verifier::rlimit(50)]
fn import_lists(files: &[SourceFile], ext_map: &ExtensionMap, keys: &[usize]) -> (lists: Vec<
    Vec<usize>,
>)
    requires
        ints(keys@) == group_keys(file_texts(files@), ext_map.pairs()),
        keys@.len() == files@.len(),
    ensures
        lists@.len() == files@.len(),
        well_formed(lists@),
        edges(lists@) == depends(file_texts(files@), ext_map.pairs()),
{
    let n: usize = files.len();
    let ghost texts = file_texts(files@);
    let ghost pairs = ext_map.pairs();
    let ghost e = depends(texts, pairs);
    let mut all_stems: Vec<Vec<String>> = Vec::new();
    let mut i: usize = 0;
    while i < n
        invariant
            n == files@.len(),
            texts == file_texts(files@),
            i <= n,
            all_stems@.len() == i,
            forall|j: int| 0 <= j < i ==> views((#[trigger] all_stems@[j])@) == stems(texts[j].path),
        decreases n - i,
    {
        assert(texts[i as int].path == files@[i as int].path@);
        all_stems.push(module_stems(files[i].path.as_str()));
        i += 1;
    }
    let mut lists: Vec<Vec<usize>> = Vec::new();
    i = 0;
    while i < n
        invariant
            n == files@.len(),
            texts == file_texts(files@),
            pairs == ext_map.pairs(),
            e == depends(texts, pairs),
            ints(keys@) == group_keys(texts, pairs),
            keys@.len() == n,
            all_stems@.len() == n,
            forall|j: int| 0 <= j < n ==> views((#[trigger] all_stems@[j])@) == stems(texts[j].path),
            i <= n,
            lists@.len() == i,
            forall|x: int| 0 <= x < i ==> #[trigger] row(e, n as int, x, lists@[x]@),
        decreases n - i,
    {
        let file = &files[i];
        assert(texts[i as int] == FileText { path: file.path@, content: file.content@ });
        let names = imported_modules(file.content.as_str(), ext_map, file.path.as_str());
        let mut marks = no_marks(n);
        let mut k: usize = 0;
        while k < names.len()
            invariant
                n == files@.len(),
                texts == file_texts(files@),
                texts.len() == n,
                pairs == ext_map.pairs(),
                e == depends(texts, pairs),
                ints(keys@) == group_keys(texts, pairs),
                keys@.len() == n,
                all_stems@.len() == n,
                forall|j: int|
                    0 <= j < n ==> views((#[trigger] all_stems@[j])@) == stems(texts[j].path),
                i < n,
                members(names@) == imported_names(texts[i as int], pairs),
                k <= names@.len(),
                marks@.len() == n,
                forall|j: int| 0 <= j < n && #[trigger] marks@[j] ==> e(i as int, j),
                forall|q: int|
                    0 <= q < k ==> {
                        let j = resolve(texts, pairs, i as int, (#[trigger] names@[q])@, 0);
                        0 <= j < n && j != i ==> marks@[j]
                    },
            decreases names@.len() - k,
        {
            let ghost name = names@[k as int]@;
            let wanted = chars_of(names[k].as_str());
            let mut j: usize = 0;
            while j < n && !(keys[j] == keys[i] && list_contains(
                all_stems[j].as_slice(),
                wanted.as_slice(),
            ))
                invariant
                    n == files@.len(),
                    texts.len() == n,
                    ints(keys@) == group_keys(texts, pairs),
                    keys@.len() == n,
                    all_stems@.len() == n,
                    forall|j: int|
                        0 <= j < n ==> views((#[trigger] all_stems@[j])@) == stems(texts[j].path),
                    i < n,
                    wanted@ == name,
                    j <= n,
                    resolve(texts, pairs, i as int, name, 0) == resolve(
                        texts,
                        pairs,
                        i as int,
                        name,
                        j as int,
                    ),
                decreases n - j,
            {
                assert(ints(keys@)[j as int] == keys@[j as int]);
                assert(ints(keys@)[i as int] == keys@[i as int]);
                j += 1;
            }
            if j < n {
                assert(ints(keys@)[j as int] == keys@[j as int]);
                assert(ints(keys@)[i as int] == keys@[i as int]);
                assert(resolve(texts, pairs, i as int, name, 0) == j);
                if j != i {
                    proof {
                        assert(views(names@)[k as int] == name);
                        assert(members(names@).contains(name));
                        assert(e(i as int, j as int));
                    }
                    marks.set(j, true);
                }
            }
            k += 1;
        }
        let list = marked(marks.as_slice());
        proof {
            let p = |x: int| marks@[x];
            crate::graph::lemma_range_where(n as int, p);
            assert forall|j: int| 0 <= j < n implies #[trigger] marks@[j] == e(i as int, j) by {
                if e(i as int, j) {
                    let name = choose|name: Seq<char>|
                        #[trigger] imported_names(texts[i as int], pairs).contains(name) && resolve(
                            texts,
                            pairs,
                            i as int,
                            name,
                            0,
                        ) == j;
                    assert(views(names@).contains(name));
                    let q = choose|q: int| 0 <= q < views(names@).len() && views(names@)[q] == name;
                    assert(names@[q]@ == name);
                }
            }
            lemma_row(e, n as int, i as int, list@, marks@);
        }
        lists.push(list);
        i += 1;
    }
    proof {
        assert forall|x: int, k: int| 0 <= x < n && 0 <= k < lists@[x]@.len() implies (
        #[trigger] lists@[x]@[k]) < lists@.len() by {
            assert(row(e, n as int, x, lists@[x]@));
        }
        assert forall|x: int, y: int| #[trigger] edges(lists@)(x, y) == e(x, y) by {
            if 0 <= x < n {
                assert(row(e, n as int, x, lists@[x]@));
            }
        }
        assert(edges(lists@) =~= e);
    }
    lists
}

/// Whether a list names what `x` depends on.
spec fn row(e: Relation, n: int, x: int, list: Seq<usize>) -> bool {
    &&& forall|k: int| 0 <= k < list.len() ==> (#[trigger] list[k]) < n
    &&& forall|y: int| #[trigger] e(x, y) == exists|k: int| 0 <= k < list.len() && #[trigger] list[k] == y
}

proof fn lemma_row(e: Relation, n: int, x: int, list: Seq<usize>, marks: Seq<bool>)
    requires
        marks.len() == n,
        ints(list) == range_where(n, |j: int| marks[j]),
        forall|k: int| 0 <= k < list.len() ==> (#[trigger] list[k]) < n,
        forall|j: int| 0 <= j < n ==> #[trigger] marks[j] == e(x, j),
        forall|j: int| #[trigger] e(x, j) ==> 0 <= j < n,
    ensures
        row(e, n, x, list),
{
    let p = |j: int| marks[j];
    crate::graph::lemma_range_where(n, p);
    assert forall|y: int| #[trigger] e(x, y) == exists|k: int| 0 <= k < list.len()
        && #[trigger] list[k] == y by {
        if e(x, y) {
            assert(p(y));
            assert(ints(list).contains(y));
            let k = choose|k: int| 0 <= k < ints(list).len() && ints(list)[k] == y;
            assert(list[k] == y);
        }
        if exists|k: int| 0 <= k < list.len() && #[trigger] list[k] == y {
            let k = choose|k: int| 0 <= k < list.len() && #[trigger] list[k] == y;
            assert(ints(list)[k] == y);
            assert(ints(list).contains(y));
            assert(p(y));
        }
    }
}

/// A file in its place, with the wave in which it may run.
#[derive(Clone, Copy, Debug)]
pub struct DependencyOrderedFile {
    /// The place of the file in the input.
    pub file: usize,
    pub wave: usize,
}

/// For each file, the first that has its path.
fn same_paths(files: &[SourceFile]) -> (out: Vec<usize>)
    ensures
        out@.len() == files@.len(),
        forall|i: int|
            0 <= i < out@.len() ==> (#[trigger] out@[i]) == first_same(file_texts(files@), i, 0)
                && out@[i] <= i,
{
    let ghost all = file_texts(files@);
    let mut lists: Vec<Vec<Vec<char>>> = Vec::new();
    let mut i: usize = 0;
    while i < files.len()
        invariant
            all == file_texts(files@),
            i <= files@.len(),
            lists@.len() == i,
            forall|q: int| 0 <= q < i ==> texts((#[trigger] lists@[q])@) == components(all[q].path),
        decreases files@.len() - i,
    {
        lists.push(components_of(chars_of(files[i].path.as_str()).as_slice()));
        i += 1;
    }
    let mut out: Vec<usize> = Vec::new();
    i = 0;
    while i < files.len()
        invariant
            all == file_texts(files@),
            i <= files@.len(),
            lists@.len() == files@.len(),
            forall|q: int|
                0 <= q < lists@.len() ==> texts((#[trigger] lists@[q])@) == components(all[q].path),
            out@.len() == i,
            forall|q: int|
                0 <= q < i ==> (#[trigger] out@[q]) == first_same(all, q, 0) && out@[q] <= q,
        decreases files@.len() - i,
    {
        let mut j: usize = 0;
        while j < i && !same_components(lists[j].as_slice(), lists[i].as_slice())
            invariant
                i < files@.len(),
                j <= i,
                lists@.len() == files@.len(),
                forall|q: int|
                    0 <= q < lists@.len() ==> texts((#[trigger] lists@[q])@) == components(
                        all[q].path,
                    ),
                first_same(all, i as int, 0) == first_same(all, i as int, j as int),
            decreases i - j,
        {
            j += 1;
        }
        out.push(j);
        i += 1;
    }
    out
}

/// Ordered nodes under other names.
fn named_nodes(list: &[OrderedNode], names: &[usize]) -> (out: Vec<OrderedNode>)
    requires
        names@.len() == list@.len(),
        forall|i: int| 0 <= i < names@.len() ==> (#[trigger] names@[i]) < names@.len(),
        forall|k: int| 0 <= k < list@.len() ==> (#[trigger] list@[k]).node < list@.len(),
        forall|k: int, m: int|
            0 <= k < list@.len() && 0 <= m < list@[k].dependencies@.len() ==> (
            #[trigger] list@[k].dependencies@[m]) < list@.len(),
    ensures
        out@.len() == list@.len(),
        steps_of(out@) == named(steps_of(list@), |i: int| names@[i] as int),
        forall|k: int| 0 <= k < out@.len() ==> (#[trigger] out@[k]).node < out@.len(),
        forall|k: int, m: int|
            0 <= k < out@.len() && 0 <= m < out@[k].dependencies@.len() ==> (
            #[trigger] out@[k].dependencies@[m]) < out@.len(),
{
    let ghost name = |i: int| names@[i] as int;
    let n: usize = list.len();
    let mut out: Vec<OrderedNode> = Vec::new();
    let mut k: usize = 0;
    while k < n
        invariant
            n == list@.len(),
            n == names@.len(),
            name == (|i: int| names@[i] as int),
            forall|i: int| 0 <= i < n ==> (#[trigger] names@[i]) < n,
            forall|k: int| 0 <= k < n ==> (#[trigger] list@[k]).node < n,
            forall|k: int, m: int|
                0 <= k < n && 0 <= m < list@[k].dependencies@.len() ==> (
                #[trigger] list@[k].dependencies@[m]) < n,
            k <= n,
            out@.len() == k,
            forall|q: int|
                0 <= q < k ==> steps_of(out@)[q] == #[trigger] named(steps_of(list@), name)[q],
            forall|q: int| 0 <= q < k ==> (#[trigger] out@[q]).node < n,
            forall|q: int, m: int|
                0 <= q < k && 0 <= m < out@[q].dependencies@.len() ==> (
                #[trigger] out@[q].dependencies@[m]) < n,
        decreases n - k,
    {
        let entry = &list[k];
        let mut dependencies: Vec<usize> = Vec::new();
        let mut m: usize = 0;
        while m < entry.dependencies.len()
            invariant
                n == names@.len(),
                forall|i: int| 0 <= i < n ==> (#[trigger] names@[i]) < n,
                forall|q: int|
                    0 <= q < entry.dependencies@.len() ==> (#[trigger] entry.dependencies@[q]) < n,
                m <= entry.dependencies@.len(),
                dependencies@.len() == m,
                forall|q: int|
                    0 <= q < m ==> (#[trigger] dependencies@[q]) == names@[entry.dependencies@[q] as int]
                        && dependencies@[q] < n,
            decreases entry.dependencies@.len() - m,
        {
            dependencies.push(names[entry.dependencies[m]]);
            m += 1;
        }
        assert(ints(dependencies@) =~= ints(entry.dependencies@).map_values(name));
        let ghost before = out@;
        out.push(OrderedNode { node: names[entry.node], dependencies, barrier: entry.barrier });
        proof {
            assert forall|q: int| 0 <= q < k + 1 implies steps_of(out@)[q] == #[trigger] named(
                steps_of(list@),
                name,
            )[q] by {
                if q < k {
                    assert(steps_of(before)[q] == named(steps_of(list@), name)[q]);
                    assert(out@[q] == before[q]);
                }
            }
        }
        k += 1;
    }
    assert(steps_of(out@) =~= named(steps_of(list@), name));
    out
}

/// Orders files so that each follows the files of its language that it
/// imports, and tells in which wave each may run.
pub fn dependency_order_plan(files: &[SourceFile], ext_map: &ExtensionMap) -> (out: Vec<
    DependencyOrderedFile,
>)
    ensures
        out@.len() == files@.len(),
        ({
            let keys = group_keys(file_texts(files@), ext_map.pairs());
            let e = depends(file_texts(files@), ext_map.pairs());
            forall|p: int|
                0 <= p < out@.len() ==> (#[trigger] out@[p]).file == node_at(keys, e, p)
                    && out@[p].wave == wave(file_steps(file_texts(files@), ext_map.pairs()), p)
                    && out@[p].file < files@.len()
        }),
{
    let ghost held = file_texts(files@);
    let ghost pairs = ext_map.pairs();
    let keys = keys_of(files, ext_map);
    let lists = import_lists(files, ext_map, keys.as_slice());
    let ghost k = group_keys(held, pairs);
    let ghost e = depends(held, pairs);
    proof {
        lemma_depends_inside(held, pairs);
    }
    let order = slot_order(keys.as_slice(), lists.as_slice());
    proof {
        assert forall|p: int| 0 <= p < order@.len() implies (#[trigger] order@[p]).node < order@.len() by {
            lemma_slot(k, e, p);
        }
        assert forall|p: int, m: int|
            0 <= p < order@.len() && 0 <= m < order@[p].dependencies@.len() implies (
        #[trigger] order@[p].dependencies@[m]) < order@.len() by {
            lemma_frontier_range(k, e, p, m);
            assert(ints(order@[p].dependencies@)[m] == order@[p].dependencies@[m]);
            assert(ints(order@[p].dependencies@).len() == order@[p].dependencies@.len());
        }
        assert(steps_of(order@) =~= steps(k, e));
    }
    let firsts = same_paths(files);
    let shown = named_nodes(order.as_slice(), firsts.as_slice());
    proof {
        let name = |i: int| first_same(held, i, 0);
        let by_first = |i: int| firsts@[i] as int;
        assert forall|q: int| 0 <= q < order@.len() implies named(steps_of(order@), by_first)[q]
            == #[trigger] named(steps(k, e), name)[q] by {
            let step = steps(k, e)[q];
            assert(steps_of(order@)[q] == step);
            assert(step.node == order@[q].node);
            assert forall|m: int| 0 <= m < step.dependencies.len() implies by_first(
                step.dependencies[m],
            ) == name(#[trigger] step.dependencies[m]) by {
                assert(order@[q].dependencies@[m] == step.dependencies[m]);
            }
            assert(step.dependencies.map_values(by_first) =~= step.dependencies.map_values(name));
        }
        assert(named(steps_of(order@), by_first) =~= file_steps(held, pairs));
    }
    let waves = assign_waves(shown.as_slice());
    let mut out: Vec<DependencyOrderedFile> = Vec::new();
    let mut p: usize = 0;
    while p < order.len()
        invariant
            p <= order@.len(),
            order@.len() == files@.len(),
            waves@.len() == order@.len(),
            out@.len() == p,
            forall|q: int| 0 <= q < order@.len() ==> (#[trigger] order@[q]).node < order@.len(),
            forall|q: int|
                0 <= q < p ==> (#[trigger] out@[q]).file == order@[q].node && out@[q].wave
                    == waves@[q],
        decreases order@.len() - p,
    {
        out.push(DependencyOrderedFile { file: order[p].node, wave: waves[p] });
        p += 1;
    }
    out
}

/// What a step waits for are files.
proof fn lemma_frontier_range(keys: Seq<int>, e: Relation, p: int, m: int)
    requires
        0 <= p < keys.len(),
        inside_groups(keys, e),
        0 <= m < frontier_at(keys, e, p).len(),
    ensures
        0 <= frontier_at(keys, e, p)[m] < keys.len(),
{
    let list = crate::plan::group_of(keys, p);
    let w = crate::plan::within(e, list);
    let a = crate::plan::local_at(keys, e, p);
    crate::graph::lemma_range_where(
        list.len() as int,
        |d: int| crate::order::waits_for(w, list.len() as int, a, d),
    );
    let d = crate::order::frontier(w, list.len() as int, a)[m];
    crate::plan::lemma_rank_of(keys, p, d);
}

/// Reorders files so that within each language those that are imported come
/// before those that import them. Files of different languages keep their
/// slots, and the members of a cycle their order.
pub fn order_by_deps(files: &[SourceFile], ext_map: &ExtensionMap) -> (paths: Vec<String>)
    ensures
        paths@.len() == files@.len(),
        ({
            let keys = group_keys(file_texts(files@), ext_map.pairs());
            let e = depends(file_texts(files@), ext_map.pairs());
            forall|p: int|
                0 <= p < paths@.len() ==> (#[trigger] paths@[p])@ == file_texts(
                    files@,
                )[node_at(keys, e, p)].path
        }),
{
    let plan = dependency_order_plan(files, ext_map);
    let mut paths: Vec<String> = Vec::new();
    let mut p: usize = 0;
    while p < plan.len()
        invariant
            p <= plan@.len(),
            plan@.len() == files@.len(),
            paths@.len() == p,
            forall|q: int| 0 <= q < plan@.len() ==> (#[trigger] plan@[q]).file < files@.len(),
            forall|q: int|
                0 <= q < p ==> (#[trigger] paths@[q])@ == files@[plan@[q].file as int].path@,
        decreases plan@.len() - p,
    {
        paths.push(files[plan[p].file].path.clone());
        p += 1;
    }
    paths
}

} // verus!
