//! A runtime tree that is to be embedded: what is found of it, what is refused,
//! and what is kept.

use vstd::prelude::*;
use vstd::slice::slice_to_vec;

use crate::bundle::{
    check_environment, check_top, depth_after, environment_problem, execution_profile, leads_below,
    profile_of, relative, relocated, relocated_link_target, steps_back, top_fault, EmbedError,
    EmbedFault,
};
use crate::components::{components, components_of};
use crate::launch::pair_views;
use crate::paths::slash;
use crate::sorting::{
    indices, order_of, orders_are_complete_and_ascend, place_less, places, sorted_places,
};
use crate::text::{
    chars_of, eq_str_chars, first_where, lemma_first_where, lemma_lex_total, lemma_lex_trans,
    lex_less, shown_as, split, split_by, starts_with, starts_with_chars, texts, views,
};

verus! {

/// A variable that a manifest sets.
#[derive(Debug)]
pub struct FoundVariable {
    pub key: String,
    pub value: String,
    /// The place that the value leads to lies in the tree.
    pub inside: bool,
}

/// An entry of a tree, as it is found.
#[derive(Debug)]
pub struct FoundEntry {
    /// The path of the entry, from the top of the tree.
    pub name: String,
    pub is_directory: bool,
    /// What a link says, where the entry is one.
    pub link: Option<String>,
    /// What the entry comes to, from the top of the tree, where that lies in the
    /// tree; nothing, where it is the top itself.
    pub below: Option<String>,
    /// What the entry comes to is a file.
    pub is_file: bool,
    /// The mode of a directory, or of what another entry comes to.
    pub mode: u32,
    pub bytes: Vec<u8>,
}

/// A tree with its manifest, as they are found, in whatever order.
#[derive(Debug)]
pub struct FoundBundle {
    pub schema: String,
    pub execution: Option<String>,
    /// The names at the top of the tree.
    pub taken: Vec<String>,
    /// There is a directory for commands.
    pub has_commands: bool,
    pub environment: Vec<FoundVariable>,
    pub entries: Vec<FoundEntry>,
}

/// A file of a tree.
pub ghost struct FileFacts {
    pub name: Seq<char>,
    pub bytes: Seq<u8>,
    pub mode: u32,
}

/// A link of a tree, with the mode of the file that it comes to.
pub ghost struct LinkFacts {
    pub name: Seq<char>,
    pub target: Seq<char>,
    pub mode: u32,
}

/// A directory of a tree.
pub ghost struct DirectoryFacts {
    pub name: Seq<char>,
    pub mode: u32,
}

/// A tree that is embedded.
pub ghost struct Tree {
    pub files: Seq<FileFacts>,
    pub directories: Seq<DirectoryFacts>,
    pub links: Seq<LinkFacts>,
    pub environment: Seq<(Seq<char>, Seq<char>)>,
    pub rootfs: bool,
}

/// The bits of a mode that are kept.
pub open spec fn kept_mode(mode: u32) -> u32 {
    mode & 0o777u32
}

/// How deep the directory of an entry lies.
pub open spec fn entry_depth(name: Seq<char>) -> nat {
    match depth_after(split_by(name, slash()), 0) {
        Some(depth) => if depth == 0 {
            0
        } else {
            (depth - 1) as nat
        },
        None => 0,
    }
}

impl FoundEntry {
    /// Whether what the entry comes to lies in the tree.
    pub open spec fn inside(self) -> bool {
        self.below is Some && (self.below->Some_0@.len() == 0 || leads_below(self.below->Some_0@))
    }

    /// What the entry's link says once the tree stands elsewhere.
    pub open spec fn target(self) -> Option<Seq<char>> {
        relocated(entry_depth(self.name@), self.link->Some_0@, self.below->Some_0@)
    }

    /// What is wrong with the entry, if anything is.
    pub open spec fn fault(self) -> Option<EmbedFault> {
        if !leads_below(self.name@) {
            Some(EmbedFault::InvalidPath(self.name@))
        } else if self.is_directory {
            None
        } else if !self.inside() {
            Some(EmbedFault::LinkEscapes(self.name@))
        } else if !self.is_file || self.below->Some_0@.len() == 0 {
            Some(EmbedFault::NotAFile(self.name@))
        } else if self.link is Some && self.target() is None {
            Some(EmbedFault::LinkTargetEscapes(self.name@))
        } else {
            None
        }
    }
}

/// The files among some entries.
pub open spec fn files_in(entries: Seq<FoundEntry>) -> Seq<FileFacts>
    decreases entries.len(),
{
    if entries.len() == 0 {
        Seq::empty()
    } else {
        let entry = entries.last();
        let before = files_in(entries.drop_last());
        if entry.is_directory || entry.link is Some {
            before
        } else {
            before.push(
                FileFacts {
                    name: entry.name@,
                    bytes: entry.bytes@,
                    mode: kept_mode(entry.mode),
                },
            )
        }
    }
}

/// The links among some entries.
pub open spec fn links_in(entries: Seq<FoundEntry>) -> Seq<LinkFacts>
    decreases entries.len(),
{
    if entries.len() == 0 {
        Seq::empty()
    } else {
        let entry = entries.last();
        let before = links_in(entries.drop_last());
        if entry.is_directory || entry.link is None {
            before
        } else {
            before.push(
                LinkFacts {
                    name: entry.name@,
                    target: entry.target()->Some_0,
                    mode: kept_mode(entry.mode),
                },
            )
        }
    }
}

/// The directories among some entries.
pub open spec fn directories_in(entries: Seq<FoundEntry>) -> Seq<DirectoryFacts>
    decreases entries.len(),
{
    if entries.len() == 0 {
        Seq::empty()
    } else {
        let entry = entries.last();
        let before = directories_in(entries.drop_last());
        if entry.is_directory {
            before.push(DirectoryFacts { name: entry.name@, mode: kept_mode(entry.mode) })
        } else {
            before
        }
    }
}

/// The first thing that is wrong with some entries.
pub open spec fn entries_fault(entries: Seq<FoundEntry>) -> Option<EmbedFault>
    decreases entries.len(),
{
    if entries.len() == 0 {
        None
    } else {
        match entries_fault(entries.drop_last()) {
            Some(fault) => Some(fault),
            None => entries.last().fault(),
        }
    }
}

/// The first thing that is wrong with some variables.
pub open spec fn variables_fault(list: Seq<FoundVariable>) -> Option<EmbedFault>
    decreases list.len(),
{
    if list.len() == 0 {
        None
    } else {
        match variables_fault(list.drop_last()) {
            Some(fault) => Some(fault),
            None => environment_problem(list.last().key@, list.last().value@, list.last().inside),
        }
    }
}

/// The places of some entries.
pub open spec fn entry_places(entries: Seq<FoundEntry>) -> Seq<Seq<Seq<char>>> {
    entries.map_values(|entry: FoundEntry| components(entry.name@))
}

/// Entries in the order of a walk: the names of each directory in ascending
/// order, and each directory before what it holds.
pub open spec fn walked(entries: Seq<FoundEntry>) -> Seq<FoundEntry> {
    order_of(entry_places(entries)).map_values(|i: int| entries[i])
}

/// The keys of some variables, as places of one name each.
pub open spec fn variable_places(list: Seq<FoundVariable>) -> Seq<Seq<Seq<char>>> {
    list.map_values(|v: FoundVariable| seq![v.key@])
}

/// The last of each run of variables with the same key.
pub open spec fn last_of_each(list: Seq<FoundVariable>) -> Seq<FoundVariable>
    decreases list.len(),
{
    if list.len() == 0 {
        list
    } else {
        let before = last_of_each(list.drop_last());
        if before.len() > 0 && before.last().key@ == list.last().key@ {
            before.drop_last().push(list.last())
        } else {
            before.push(list.last())
        }
    }
}

/// Variables by ascending key: of those with the same key the last one counts.
pub open spec fn variables_in_order(list: Seq<FoundVariable>) -> Seq<FoundVariable> {
    last_of_each(order_of(variable_places(list)).map_values(|i: int| list[i]))
}

/// The keys and values of some variables.
pub open spec fn pairs_of(list: Seq<FoundVariable>) -> Seq<(Seq<char>, Seq<char>)> {
    list.map_values(|v: FoundVariable| (v.key@, v.value@))
}

/// What is kept of a tree, or the first reason to refuse it.
pub open spec fn gathered(found: FoundBundle) -> Result<Tree, EmbedFault> {
    match profile_of(found.schema@, shown_as(found.execution)) {
        Err(fault) => Err(fault),
        Ok(rootfs) => {
            let entries = walked(found.entries@);
            let variables = variables_in_order(found.environment@);
            let top = top_fault(rootfs, views(found.taken@), found.has_commands);
            if top is Some {
                Err(top->Some_0)
            } else if variables_fault(variables) is Some {
                Err(variables_fault(variables)->Some_0)
            } else if entries_fault(entries) is Some {
                Err(entries_fault(entries)->Some_0)
            } else {
                Ok(
                    Tree {
                        files: files_in(entries),
                        directories: directories_in(entries),
                        links: links_in(entries),
                        environment: pairs_of(variables),
                        rootfs,
                    },
                )
            }
        },
    }
}

/// Whether an entry can be run as a command.
pub open spec fn command(name: Seq<char>, mode: u32) -> bool {
    starts_with(name, "bin/"@) && mode & 0o111u32 != 0
}

impl Tree {
    /// Whether some entry can be run as a command.
    pub open spec fn runs(self) -> bool {
        ||| exists|i: int|
            0 <= i < self.files.len() && command(
                (#[trigger] self.files[i]).name,
                self.files[i].mode,
            )
        ||| exists|i: int|
            0 <= i < self.links.len() && command(
                (#[trigger] self.links[i]).name,
                self.links[i].mode,
            )
    }

    /// Whether everything in the tree may be embedded: names lead below the top,
    /// links stay inside, modes are permissions alone, and variables lead to
    /// places in the tree.
    pub open spec fn accepted(self) -> bool {
        &&& forall|i: int|
            0 <= i < self.files.len() ==> leads_below((#[trigger] self.files[i]).name)
                && self.files[i].mode <= 0o777
        &&& forall|i: int|
            0 <= i < self.directories.len() ==> leads_below((#[trigger] self.directories[i]).name)
                && self.directories[i].mode <= 0o777
        &&& forall|i: int|
            0 <= i < self.links.len() ==> leads_below((#[trigger] self.links[i]).name)
                && self.links[i].mode <= 0o777 && depth_after(
                split_by(self.links[i].target, slash()),
                entry_depth(self.links[i].name),
            ) is Some
        &&& forall|i: int|
            0 <= i < self.environment.len() ==> environment_problem(
                (#[trigger] self.environment[i]).0,
                self.environment[i].1,
                true,
            ) is None
    }
}

/// A step back at the start of a path is its first part.
proof fn lemma_split_back(rest: Seq<char>)
    ensures
        split_by("../"@ + rest, slash()) == seq![".."@] + split_by(rest, slash()),
{
    reveal_strlit("../");
    reveal_strlit("..");
    let s = "../"@ + rest;
    let k = first_where(s, 0, slash());
    lemma_first_where(s, 0, slash());
    assert(s[0] == '.' && s[1] == '.' && s[2] == '/');
    assert(seq!['/'][0] == '/');
    assert(seq!['/'].contains('/') && !seq!['/'].contains('.'));
    assert(!slash()(s[0]) && !slash()(s[1]) && slash()(s[2]));
    assert(k == 2);
    assert(s.take(2) =~= ".."@);
    assert(s.skip(3) =~= rest);
}

proof fn lemma_steps_back_front(depth: nat)
    requires
        depth > 0,
    ensures
        steps_back(depth) == "../"@ + steps_back((depth - 1) as nat),
    decreases depth,
{
    if depth == 1 {
        assert(steps_back(0) =~= Seq::<char>::empty());
        assert(steps_back(1) =~= "../"@ + steps_back(0));
    } else {
        lemma_steps_back_front((depth - 1) as nat);
        assert(steps_back(depth) =~= "../"@ + steps_back((depth - 1) as nat));
    }
}

proof fn lemma_depth_back(parts: Seq<Seq<char>>, depth: nat)
    requires
        depth > 0,
    ensures
        depth_after(seq![".."@] + parts, depth) == depth_after(parts, (depth - 1) as nat),
    decreases parts.len(),
{
    reveal_strlit("..");
    reveal_strlit(".");
    let all = seq![".."@] + parts;
    if parts.len() == 0 {
        assert(all.drop_last() =~= Seq::<Seq<char>>::empty());
        assert(all.last() == ".."@);
        assert(".."@ != "."@) by {
            assert(".."@.len() == 2 && "."@.len() == 1);
        }
    } else {
        assert(all.drop_last() =~= seq![".."@] + parts.drop_last());
        assert(all.last() == parts.last());
        lemma_depth_back(parts.drop_last(), depth);
    }
}

proof fn lemma_depth_forward(parts: Seq<Seq<char>>, depth: nat)
    requires
        !parts.contains(".."@),
    ensures
        depth_after(parts, depth) is Some,
    decreases parts.len(),
{
    if parts.len() > 0 {
        assert(parts.contains(parts.last()));
        assert forall|i: int| 0 <= i < parts.drop_last().len() implies parts.drop_last()[i]
            != ".."@ by {
            assert(parts.contains(parts[i]));
        }
        lemma_depth_forward(parts.drop_last(), depth);
    }
}

proof fn lemma_back_and_below(depth: nat, below: Seq<char>)
    requires
        leads_below(below),
    ensures
        depth_after(split_by(steps_back(depth) + below, slash()), depth) is Some,
    decreases depth,
{
    if depth == 0 {
        assert(steps_back(0) + below =~= below);
        lemma_depth_forward(split_by(below, slash()), 0);
    } else {
        let less = (depth - 1) as nat;
        lemma_steps_back_front(depth);
        lemma_back_and_below(less, below);
        assert(steps_back(depth) + below =~= "../"@ + (steps_back(less) + below));
        lemma_split_back(steps_back(less) + below);
        lemma_depth_back(split_by(steps_back(less) + below, slash()), depth);
    }
}

proof fn lemma_target_stays(entry: FoundEntry)
    requires
        entry.fault() is None,
        !entry.is_directory,
        entry.link is Some,
    ensures
        depth_after(
            split_by(entry.target()->Some_0, slash()),
            entry_depth(entry.name@),
        ) is Some,
{
    let depth = entry_depth(entry.name@);
    let original = entry.link->Some_0@;
    if original.len() > 0 && original[0] == '/' {
        lemma_back_and_below(depth, entry.below->Some_0@);
    }
}

proof fn lemma_kept_mode(mode: u32)
    ensures
        kept_mode(mode) <= 0o777,
{
    assert(mode & 0o777u32 <= 0o777u32) by (bit_vector);
}

proof fn lemma_entries_accepted(entries: Seq<FoundEntry>)
    requires
        entries_fault(entries) is None,
    ensures
        forall|i: int|
            0 <= i < files_in(entries).len() ==> leads_below((#[trigger] files_in(entries)[i]).name)
                && files_in(entries)[i].mode <= 0o777,
        forall|i: int|
            0 <= i < directories_in(entries).len() ==> leads_below(
                (#[trigger] directories_in(entries)[i]).name,
            ) && directories_in(entries)[i].mode <= 0o777,
        forall|i: int|
            0 <= i < links_in(entries).len() ==> leads_below((#[trigger] links_in(entries)[i]).name)
                && links_in(entries)[i].mode <= 0o777 && depth_after(
                split_by(links_in(entries)[i].target, slash()),
                entry_depth(links_in(entries)[i].name),
            ) is Some,
    decreases entries.len(),
{
    if entries.len() > 0 {
        let entry = entries.last();
        lemma_entries_accepted(entries.drop_last());
        lemma_kept_mode(entry.mode);
        if !entry.is_directory && entry.link is Some {
            lemma_target_stays(entry);
        }
        let less = entries.drop_last();
        assert forall|i: int| 0 <= i < files_in(entries).len() implies leads_below(
            (#[trigger] files_in(entries)[i]).name,
        ) && files_in(entries)[i].mode <= 0o777 by {
            if i < files_in(less).len() {
                assert(files_in(entries)[i] == files_in(less)[i]);
            }
        }
        assert forall|i: int| 0 <= i < directories_in(entries).len() implies leads_below(
            (#[trigger] directories_in(entries)[i]).name,
        ) && directories_in(entries)[i].mode <= 0o777 by {
            if i < directories_in(less).len() {
                assert(directories_in(entries)[i] == directories_in(less)[i]);
            }
        }
        assert forall|i: int| 0 <= i < links_in(entries).len() implies leads_below(
            (#[trigger] links_in(entries)[i]).name,
        ) && links_in(entries)[i].mode <= 0o777 && depth_after(
            split_by(links_in(entries)[i].target, slash()),
            entry_depth(links_in(entries)[i].name),
        ) is Some by {
            if i < links_in(less).len() {
                assert(links_in(entries)[i] == links_in(less)[i]);
            }
        }
    }
}

proof fn lemma_variables_accepted(list: Seq<FoundVariable>)
    requires
        variables_fault(list) is None,
    ensures
        forall|i: int|
            0 <= i < list.len() ==> environment_problem(
                (#[trigger] list[i]).key@,
                list[i].value@,
                true,
            ) is None,
    decreases list.len(),
{
    if list.len() > 0 {
        lemma_variables_accepted(list.drop_last());
        assert forall|i: int| 0 <= i < list.len() implies environment_problem(
            (#[trigger] list[i]).key@,
            list[i].value@,
            true,
        ) is None by {
            if i < list.len() - 1 {
                assert(list.drop_last()[i] == list[i]);
            }
        }
    }
}

/// Whatever is kept of a tree was accepted: no name leads out of it, no link
/// leaves it, no mode is more than permissions, and no variable leads elsewhere.
pub proof fn gathered_trees_are_accepted(found: FoundBundle)
    requires
        gathered(found) is Ok,
    ensures
        gathered(found)->Ok_0.accepted(),
{
    let tree = gathered(found)->Ok_0;
    let variables = variables_in_order(found.environment@);
    lemma_entries_accepted(walked(found.entries@));
    lemma_variables_accepted(variables);
    assert forall|i: int| 0 <= i < tree.environment.len() implies environment_problem(
        (#[trigger] tree.environment[i]).0,
        tree.environment[i].1,
        true,
    ) is None by {
        assert(tree.environment[i] == (variables[i].key@, variables[i].value@));
    }
}

proof fn lemma_kept(entries: Seq<FoundEntry>)
    ensures
        files_in(entries).len() + links_in(entries).len() + directories_in(entries).len()
            == entries.len(),
    decreases entries.len(),
{
    if entries.len() > 0 {
        lemma_kept(entries.drop_last());
    }
}

/// Every entry of a tree that is kept stands in it once: as a directory, as a
/// link or as a file.
pub proof fn every_entry_is_kept(found: FoundBundle)
    requires
        gathered(found) is Ok,
    ensures
        ({
            let tree = gathered(found)->Ok_0;
            tree.files.len() + tree.links.len() + tree.directories.len() == found.entries@.len()
        }),
{
    orders_are_complete_and_ascend(entry_places(found.entries@));
    lemma_kept(walked(found.entries@));
}

/// Entries are walked in the order of their places: none comes before one that
/// it stands after.
pub proof fn entries_are_walked_in_order(entries: Seq<FoundEntry>, a: int, b: int)
    requires
        0 <= a < b < walked(entries).len(),
    ensures
        !place_less(
            components(walked(entries)[b].name@),
            components(walked(entries)[a].name@),
        ),
{
    let keys = entry_places(entries);
    let order = order_of(keys);
    orders_are_complete_and_ascend(keys);
    assert(0 <= order[a] < entries.len() && 0 <= order[b] < entries.len());
    assert(!place_less(keys[order[b]], keys[order[a]]));
}

proof fn lemma_last_of_each(list: Seq<FoundVariable>)
    requires
        forall|a: int, b: int|
            0 <= a < b < list.len() ==> !lex_less(
                (#[trigger] list[b]).key@,
                (#[trigger] list[a]).key@,
            ),
    ensures
        list.len() > 0 ==> last_of_each(list).len() > 0 && last_of_each(list).last() == list.last(),
        forall|a: int, b: int|
            0 <= a < b < last_of_each(list).len() ==> lex_less(
                (#[trigger] last_of_each(list)[a]).key@,
                (#[trigger] last_of_each(list)[b]).key@,
            ),
    decreases list.len(),
{
    if list.len() > 0 {
        let init = list.drop_last();
        let v = list.last();
        let before = last_of_each(init);
        let out = last_of_each(list);
        assert forall|a: int, b: int| 0 <= a < b < init.len() implies !lex_less(
            (#[trigger] init[b]).key@,
            (#[trigger] init[a]).key@,
        ) by {
            assert(init[a] == list[a] && init[b] == list[b]);
        }
        lemma_last_of_each(init);
        if init.len() > 0 {
            let w = before.last();
            assert(w == list[init.len() - 1]);
            assert(v == list[list.len() - 1]);
            assert(!lex_less(v.key@, w.key@));
            lemma_lex_total(v.key@, w.key@);
            assert forall|a: int, b: int| 0 <= a < b < out.len() implies lex_less(
                (#[trigger] out[a]).key@,
                (#[trigger] out[b]).key@,
            ) by {
                if b < out.len() - 1 {
                    assert(out[a] == before[a] && out[b] == before[b]);
                } else {
                    assert(out[b] == v);
                    assert(out[a] == before[a]);
                    if w.key@ == v.key@ {
                        assert(lex_less(before[a].key@, before[before.len() - 1].key@));
                    } else if a < before.len() - 1 {
                        assert(lex_less(before[a].key@, before[before.len() - 1].key@));
                        lemma_lex_trans(before[a].key@, w.key@, v.key@);
                    }
                }
            }
        }
    }
}

/// The variables of a tree stand by ascending key, each key once.
pub proof fn variables_stand_once(found: FoundBundle, a: int, b: int)
    requires
        gathered(found) is Ok,
        0 <= a < b < gathered(found)->Ok_0.environment.len(),
    ensures
        lex_less(
            gathered(found)->Ok_0.environment[a].0,
            gathered(found)->Ok_0.environment[b].0,
        ),
{
    let list = found.environment@;
    let keys = variable_places(list);
    let order = order_of(keys);
    let ordered = order.map_values(|i: int| list[i]);
    orders_are_complete_and_ascend(keys);
    assert forall|x: int, y: int| 0 <= x < y < ordered.len() implies !lex_less(
        (#[trigger] ordered[y]).key@,
        (#[trigger] ordered[x]).key@,
    ) by {
        assert(0 <= order[x] < list.len() && 0 <= order[y] < list.len());
        assert(!place_less(keys[order[y]], keys[order[x]]));
        lemma_single(ordered[y].key@, ordered[x].key@);
    }
    lemma_last_of_each(ordered);
    let variables = variables_in_order(list);
    let environment = gathered(found)->Ok_0.environment;
    assert(environment[a].0 == variables[a].key@ && environment[b].0 == variables[b].key@);
}

/// Places of one name are ordered as that name.
proof fn lemma_single(a: Seq<char>, b: Seq<char>)
    ensures
        place_less(seq![a], seq![b]) == lex_less(a, b),
{
    lemma_lex_total(a, b);
    assert(seq![a][0] == a && seq![b][0] == b);
    assert(seq![a].skip(1).len() == 0 && seq![b].skip(1).len() == 0);
    assert(!place_less(seq![a].skip(1), seq![b].skip(1)));
}

/// A file that is embedded.
#[derive(Debug)]
pub struct BundleFile {
    pub name: String,
    pub bytes: Vec<u8>,
    pub mode: u32,
}

/// A link that is embedded.
#[derive(Debug)]
pub struct BundleLink {
    pub name: String,
    pub target: String,
    pub mode: u32,
}

/// A directory that is embedded.
#[derive(Debug)]
pub struct BundleDirectory {
    pub name: String,
    pub mode: u32,
}

pub open spec fn file_facts(list: Seq<BundleFile>) -> Seq<FileFacts> {
    list.map_values(
        |f: BundleFile| FileFacts { name: f.name@, bytes: f.bytes@, mode: f.mode },
    )
}

pub open spec fn link_facts(list: Seq<BundleLink>) -> Seq<LinkFacts> {
    list.map_values(
        |l: BundleLink| LinkFacts { name: l.name@, target: l.target@, mode: l.mode },
    )
}

pub open spec fn directory_facts(list: Seq<BundleDirectory>) -> Seq<DirectoryFacts> {
    list.map_values(|d: BundleDirectory| DirectoryFacts { name: d.name@, mode: d.mode })
}

/// A tree that was gathered. There is no other way to one.
#[derive(Debug)]
pub struct BundleTree {
    files: Vec<BundleFile>,
    directories: Vec<BundleDirectory>,
    links: Vec<BundleLink>,
    environment: Vec<(String, String)>,
    rootfs: bool,
}

impl View for BundleTree {
    type V = Tree;

    closed spec fn view(&self) -> Tree {
        Tree {
            files: file_facts(self.files@),
            directories: directory_facts(self.directories@),
            links: link_facts(self.links@),
            environment: pair_views(self.environment@),
            rootfs: self.rootfs,
        }
    }
}

fn is_command(name: &str, mode: u32) -> (r: bool)
    ensures
        r == command(name@, mode),
{
    starts_with_chars(chars_of(name).as_slice(), chars_of("bin/").as_slice()) && mode & 0o111u32
        != 0
}

impl BundleTree {
    pub fn files(&self) -> (list: &Vec<BundleFile>)
        ensures
            file_facts(list@) == self@.files,
    {
        &self.files
    }

    pub fn directories(&self) -> (list: &Vec<BundleDirectory>)
        ensures
            directory_facts(list@) == self@.directories,
    {
        &self.directories
    }

    pub fn links(&self) -> (list: &Vec<BundleLink>)
        ensures
            link_facts(list@) == self@.links,
    {
        &self.links
    }

    pub fn environment(&self) -> (list: &Vec<(String, String)>)
        ensures
            pair_views(list@) == self@.environment,
    {
        &self.environment
    }

    pub fn is_rootfs(&self) -> (r: bool)
        ensures
            r == self@.rootfs,
    {
        self.rootfs
    }

    /// Whether some entry can be run as a command.
    pub fn has_command(&self) -> (r: bool)
        ensures
            r == self@.runs(),
    {
        let ghost files = file_facts(self.files@);
        let ghost links = link_facts(self.links@);
        let mut i: usize = 0;
        while i < self.files.len()
            invariant
                i <= self.files@.len(),
                files == file_facts(self.files@),
                forall|j: int|
                    0 <= j < i ==> !command((#[trigger] files[j]).name, files[j].mode),
            decreases self.files@.len() - i,
        {
            assert(files[i as int].name == self.files@[i as int].name@);
            if is_command(self.files[i].name.as_str(), self.files[i].mode) {
                assert(command(self@.files[i as int].name, self@.files[i as int].mode));
                return true;
            }
            i += 1;
        }
        let mut k: usize = 0;
        while k < self.links.len()
            invariant
                k <= self.links@.len(),
                links == link_facts(self.links@),
                forall|j: int|
                    0 <= j < k ==> !command((#[trigger] links[j]).name, links[j].mode),
            decreases self.links@.len() - k,
        {
            assert(links[k as int].name == self.links@[k as int].name@);
            if is_command(self.links[k].name.as_str(), self.links[k].mode) {
                assert(command(self@.links[k as int].name, self@.links[k as int].mode));
                return true;
            }
            k += 1;
        }
        assert(self@.files == files && self@.links == links);
        false
    }
}

fn depth_of(name: &str) -> (depth: usize)
    requires
        leads_below(name@),
    ensures
        depth == entry_depth(name@),
{
    let set: Vec<char> = vec!['/'];
    assert(set@ =~= seq!['/']);
    let parts = split(chars_of(name).as_slice(), set.as_slice(), false);
    let ghost all = texts(parts@);
    let mut depth: usize = 0;
    let mut i: usize = 0;
    assert(all.take(0).len() == 0);
    while i < parts.len()
        invariant
            all == texts(parts@),
            all == split_by(name@, slash()),
            !all.contains(".."@),
            i <= parts@.len(),
            depth <= i,
            depth_after(all.take(i as int), 0) == Some(depth as nat),
        decreases parts@.len() - i,
    {
        assert(all.take(i + 1).drop_last() =~= all.take(i as int));
        assert(all.take(i + 1).last() == parts@[i as int]@);
        assert(all.contains(all[i as int]));
        if parts[i].len() > 0 && !eq_str_chars(".", parts[i].as_slice()) {
            depth += 1;
        }
        i += 1;
    }
    assert(all.take(i as int) =~= all);
    if depth == 0 {
        0
    } else {
        depth - 1
    }
}

/// What a link says once the tree stands elsewhere, where the entry is one and
/// nothing is wrong with it.
fn accept_entry(found: &FoundEntry) -> (r: Result<Option<String>, EmbedError>)
    ensures
        match r {
            Ok(target) => found.fault() is None && (!found.is_directory && found.link is Some
                ==> shown_as(target) == found.target() && target is Some) && (found.is_directory
                || found.link is None ==> target is None),
            Err(error) => found.fault() == Some(error.fault()),
        },
{
    let name = found.name.as_str();
    if !relative(name) {
        return Err(EmbedError::InvalidPath(name.to_owned()));
    }
    if found.is_directory {
        return Ok(None);
    }
    let below = match &found.below {
        Some(below) => below.as_str(),
        None => {
            return Err(EmbedError::LinkEscapes(name.to_owned()));
        },
    };
    let at_top: bool = below.unicode_len() == 0;
    if !at_top && !relative(below) {
        return Err(EmbedError::LinkEscapes(name.to_owned()));
    }
    if !found.is_file || at_top {
        return Err(EmbedError::NotAFile(name.to_owned()));
    }
    match &found.link {
        None => Ok(None),
        Some(link) => match relocated_link_target(depth_of(name), link.as_str(), below) {
            Some(target) => Ok(Some(target)),
            None => Err(EmbedError::LinkTargetEscapes(name.to_owned())),
        },
    }
}

proof fn lemma_entries_fail(entries: Seq<FoundEntry>, i: int)
    requires
        0 <= i <= entries.len(),
        entries_fault(entries.take(i)) is Some,
    ensures
        entries_fault(entries) == entries_fault(entries.take(i)),
    decreases entries.len(),
{
    if i == entries.len() {
        assert(entries.take(i) =~= entries);
    } else {
        assert(entries.drop_last().take(i) =~= entries.take(i));
        lemma_entries_fail(entries.drop_last(), i);
    }
}

proof fn lemma_variables_fail(list: Seq<FoundVariable>, i: int)
    requires
        0 <= i <= list.len(),
        variables_fault(list.take(i)) is Some,
    ensures
        variables_fault(list) == variables_fault(list.take(i)),
    decreases list.len(),
{
    if i == list.len() {
        assert(list.take(i) =~= list);
    } else {
        assert(list.drop_last().take(i) =~= list.take(i));
        lemma_variables_fail(list.drop_last(), i);
    }
}

/// Which variables count, by ascending key.
fn order_variables(list: &Vec<FoundVariable>) -> (out: Vec<usize>)
    ensures
        forall|k: int| 0 <= k < out@.len() ==> (#[trigger] out@[k]) < list@.len(),
        indices(out@).map_values(|i: int| list@[i]) == variables_in_order(list@),
{
    let mut keys: Vec<Vec<Vec<char>>> = Vec::new();
    let mut i: usize = 0;
    while i < list.len()
        invariant
            i <= list@.len(),
            keys@.len() == i,
            forall|k: int| 0 <= k < i ==> texts((#[trigger] keys@[k])@) == seq![list@[k].key@],
        decreases list@.len() - i,
    {
        let key: Vec<Vec<char>> = vec![chars_of(list[i].key.as_str())];
        assert(texts(key@) =~= seq![list@[i as int].key@]);
        keys.push(key);
        i += 1;
    }
    assert(places(keys@) =~= variable_places(list@));
    let order = sorted_places(&keys);
    let ghost at = |i: int| list@[i];
    let ghost ordered = order_of(variable_places(list@)).map_values(at);
    let mut out: Vec<usize> = Vec::new();
    let mut k: usize = 0;
    assert(indices(out@).map_values(at) =~= last_of_each(ordered.take(0)));
    while k < order.len()
        invariant
            at == (|i: int| list@[i]),
            order@.len() == list@.len(),
            forall|j: int| 0 <= j < order@.len() ==> (#[trigger] order@[j]) < list@.len(),
            ordered == indices(order@).map_values(at),
            k <= order@.len(),
            forall|j: int| 0 <= j < out@.len() ==> (#[trigger] out@[j]) < list@.len(),
            indices(out@).map_values(at) == last_of_each(ordered.take(k as int)),
        decreases order@.len() - k,
    {
        let ghost before = indices(out@).map_values(at);
        assert(ordered.take(k + 1).drop_last() =~= ordered.take(k as int));
        assert(ordered.take(k + 1).last() == list@[order@[k as int] as int]);
        let n: usize = out.len();
        let next: usize = order[k];
        if n > 0 {
            assert(before.last() == list@[out@[n - 1] as int]);
            if *list[out[n - 1]].key.as_str() == *list[next].key.as_str() {
                out.pop();
                assert(indices(out@).map_values(at) =~= before.drop_last());
            }
        }
        let ghost middle = indices(out@).map_values(at);
        out.push(next);
        assert(indices(out@).map_values(at) =~= middle.push(list@[next as int]));
        k += 1;
    }
    assert(ordered.take(k as int) =~= ordered);
    out
}

/// Which entries are walked, in order.
fn order_entries(list: &Vec<FoundEntry>) -> (out: Vec<usize>)
    ensures
        forall|k: int| 0 <= k < out@.len() ==> (#[trigger] out@[k]) < list@.len(),
        indices(out@).map_values(|i: int| list@[i]) == walked(list@),
{
    let mut keys: Vec<Vec<Vec<char>>> = Vec::new();
    let mut i: usize = 0;
    while i < list.len()
        invariant
            i <= list@.len(),
            keys@.len() == i,
            forall|k: int| 0 <= k < i ==> texts((#[trigger] keys@[k])@) == components(list@[k].name@),
        decreases list@.len() - i,
    {
        keys.push(components_of(chars_of(list[i].name.as_str()).as_slice()));
        i += 1;
    }
    assert(places(keys@) =~= entry_places(list@));
    sorted_places(&keys)
}

fn keep_variables(found: &Vec<FoundVariable>) -> (r: Result<Vec<(String, String)>, EmbedError>)
    ensures
        match r {
            Ok(out) => variables_fault(variables_in_order(found@)) is None && pair_views(out@)
                == pairs_of(variables_in_order(found@)),
            Err(error) => variables_fault(variables_in_order(found@)) == Some(error.fault()),
        },
{
    let order = order_variables(found);
    let ghost list = variables_in_order(found@);
    let mut out: Vec<(String, String)> = Vec::new();
    let mut i: usize = 0;
    assert(list.take(0).len() == 0);
    assert(pair_views(out@) =~= pairs_of(list.take(0)));
    while i < order.len()
        invariant
            list == variables_in_order(found@),
            list == indices(order@).map_values(|i: int| found@[i]),
            forall|k: int| 0 <= k < order@.len() ==> (#[trigger] order@[k]) < found@.len(),
            i <= order@.len(),
            variables_fault(list.take(i as int)) is None,
            pair_views(out@) == pairs_of(list.take(i as int)),
        decreases order@.len() - i,
    {
        let variable = &found[order[i]];
        assert(list[i as int] == *variable);
        assert(list.take(i + 1).drop_last() =~= list.take(i as int));
        assert(list.take(i + 1).last() == *variable);
        match check_environment(variable.key.as_str(), variable.value.as_str(), variable.inside) {
            Ok(_) => {},
            Err(error) => {
                proof {
                    lemma_variables_fail(list, i + 1);
                }
                return Err(error);
            },
        }
        let ghost before = pair_views(out@);
        out.push((variable.key.clone(), variable.value.clone()));
        assert(pair_views(out@) =~= before.push((variable.key@, variable.value@)));
        assert(pairs_of(list.take(i + 1)) =~= pairs_of(list.take(i as int)).push(
            (variable.key@, variable.value@),
        ));
        i += 1;
    }
    assert(list.take(i as int) =~= list);
    Ok(out)
}

/// Keeps what may be embedded of a tree, or says why it is refused.
#[verifier::rlimit(40)]
pub fn gather(found: &FoundBundle) -> (r: Result<BundleTree, EmbedError>)
    ensures
        match r {
            Ok(tree) => gathered(*found) == Ok::<Tree, EmbedFault>(tree@),
            Err(error) => gathered(*found) == Err::<Tree, EmbedFault>(error.fault()),
        },
{
    let execution = match &found.execution {
        Some(name) => Some(name.as_str()),
        None => None,
    };
    let rootfs = match execution_profile(found.schema.as_str(), execution) {
        Ok(rootfs) => rootfs,
        Err(error) => {
            return Err(error);
        },
    };
    match check_top(rootfs, found.taken.as_slice(), found.has_commands) {
        Ok(_) => {},
        Err(error) => {
            return Err(error);
        },
    }
    let environment = match keep_variables(&found.environment) {
        Ok(list) => list,
        Err(error) => {
            return Err(error);
        },
    };
    let mut files: Vec<BundleFile> = Vec::new();
    let mut directories: Vec<BundleDirectory> = Vec::new();
    let mut links: Vec<BundleLink> = Vec::new();
    let order = order_entries(&found.entries);
    let ghost all = walked(found.entries@);
    let mut i: usize = 0;
    assert(all.take(0).len() == 0);
    assert(file_facts(files@) =~= files_in(all.take(0)));
    assert(directory_facts(directories@) =~= directories_in(all.take(0)));
    assert(link_facts(links@) =~= links_in(all.take(0)));
    while i < order.len()
        invariant
            all == walked(found.entries@),
            all == indices(order@).map_values(|i: int| found.entries@[i]),
            forall|k: int| 0 <= k < order@.len() ==> (#[trigger] order@[k]) < found.entries@.len(),
            i <= order@.len(),
            order@.len() == all.len(),
            entries_fault(all.take(i as int)) is None,
            file_facts(files@) == files_in(all.take(i as int)),
            directory_facts(directories@) == directories_in(all.take(i as int)),
            link_facts(links@) == links_in(all.take(i as int)),
            profile_of(found.schema@, shown_as(found.execution)) == Ok::<bool, EmbedFault>(rootfs),
            top_fault(rootfs, views(found.taken@), found.has_commands) is None,
            variables_fault(variables_in_order(found.environment@)) is None,
        decreases all.len() - i,
    {
        let entry = &found.entries[order[i]];
        assert(all[i as int] == *entry);
        assert(all.take(i + 1).drop_last() =~= all.take(i as int));
        assert(all.take(i + 1).last() == *entry);
        let target = match accept_entry(entry) {
            Ok(target) => target,
            Err(error) => {
                proof {
                    lemma_entries_fail(all, i + 1);
                }
                return Err(error);
            },
        };
        let mode: u32 = entry.mode & 0o777u32;
        let name = entry.name.clone();
        let ghost file_list = file_facts(files@);
        let ghost directory_list = directory_facts(directories@);
        let ghost link_list = link_facts(links@);
        if entry.is_directory {
            directories.push(BundleDirectory { name, mode });
            assert(directory_facts(directories@) =~= directory_list.push(
                DirectoryFacts { name: entry.name@, mode },
            ));
        } else {
            match target {
                Some(target) => {
                    let ghost text = target@;
                    links.push(BundleLink { name, target, mode });
                    assert(link_facts(links@) =~= link_list.push(
                        LinkFacts { name: entry.name@, target: text, mode },
                    ));
                },
                None => {
                    let bytes = slice_to_vec(entry.bytes.as_slice());
                    files.push(BundleFile { name, bytes, mode });
                    assert(file_facts(files@) =~= file_list.push(
                        FileFacts { name: entry.name@, bytes: entry.bytes@, mode },
                    ));
                },
            }
        }
        i += 1;
    }
    assert(all.take(i as int) =~= all);
    Ok(BundleTree { files, directories, links, environment, rootfs })
}

} // verus!
