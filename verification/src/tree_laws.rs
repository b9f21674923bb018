//! What holds of trees that are embedded, of the images made of them, and of the
//! locks of generated packages.

use vstd::prelude::*;

use crate::bundle::{first_taken, leads_below, profile_of, top_fault, EmbedFault};
use crate::launch::{identity_map_text, reserved_names};
use crate::lockfile::{
    fits, fitting, generated_entry, last_fitting, named_count, named_last, needed_names, picked,
    projected, resolved, retained, LockEntry, LockFault,
};
use crate::paths::slash;
use crate::receipt_laws::{lemma_words_blank_by, lemma_words_step, one_word};
use crate::rootfs::{
    capability_fault, capability_fields, evidence_fault, first_capability_fault, single_identity,
    ActiveEvidence,
};
use crate::text::{decimal, is_space, split_by, words};
use crate::text_laws::{lemma_split_whole, splitting_goes_through};

verus! {

/// Whether a text is a part of a path: it has no slash in it.
pub open spec fn unslashed(part: Seq<char>) -> bool {
    forall|i: int| 0 <= i < part.len() ==> #[trigger] part[i] != '/'
}

proof fn lemma_part(part: Seq<char>)
    requires
        unslashed(part),
    ensures
        split_by(part, slash()) == seq![part],
{
    let s = slash();
    let set = seq!['/'];
    assert forall|i: int| 0 <= i < part.len() implies !s(#[trigger] part[i]) by {
        if s(part[i]) {
            assert(set[0] == part[i]);
        }
    }
    lemma_split_whole(part, s);
}

proof fn lemma_slash()
    ensures
        slash()('/'),
{
    let set = seq!['/'];
    assert(set[0] == '/');
    assert(set.contains('/'));
}

/// A name leads below the place that it starts from; so does a path that does, with
/// another part behind it, unless that part leads back. A path that starts at the
/// top, or has a part that leads back, does not, whatever follows.
pub proof fn paths_that_lead_back_are_refused(
    path: Seq<char>,
    part: Seq<char>,
    rest: Seq<char>,
)
    requires
        unslashed(part),
        part.len() > 0,
    ensures
        part != "."@ && part != ".."@ ==> leads_below(part),
        leads_below(path) && part != ".."@ ==> leads_below(path + "/"@ + part),
        !leads_below(".."@),
        !leads_below(path + "/"@ + ".."@),
        !leads_below(".."@ + "/"@ + rest),
        !leads_below(path + "/"@ + ".."@ + "/"@ + rest),
        !leads_below("/"@ + rest),
        !leads_below(""@),
{
    reveal_strlit("/");
    reveal_strlit("");
    reveal_strlit(".");
    reveal_strlit("..");
    lemma_slash();
    let s = slash();
    let back = ".."@;
    let cut = seq!['/'];
    assert("/"@ =~= cut);
    assert(""@ =~= Seq::<char>::empty());
    lemma_part(part);
    lemma_part(back);
    assert(seq![part][0] == part);
    assert(!seq![part].contains(back) || part == back);
    splitting_goes_through(path, '/', part, s);
    let parts = split_by(path, s);
    let more = split_by(path + cut + part, s);
    assert(path + "/"@ + part == path + cut + part);
    lemma_nonempty(path);
    assert(more[0] == parts[0]);
    if leads_below(path) && part != back {
        if more.contains(back) {
            let k = choose|k: int| 0 <= k < more.len() && more[k] == back;
            if k < parts.len() {
                assert(parts[k] == back);
            }
        }
        assert(leads_below(path + "/"@ + part));
    }
    assert(seq![back][0] == back);
    splitting_goes_through(path, '/', back, s);
    let ended = split_by(path + cut + back, s);
    assert(ended[parts.len() as int] == back);
    splitting_goes_through(back, '/', rest, s);
    let led = split_by(back + cut + rest, s);
    assert(led[0] == back);
    splitting_goes_through(path + cut + back, '/', rest, s);
    let through = split_by(path + cut + back + cut + rest, s);
    assert(through[parts.len() as int] == back);
    let none = Seq::<char>::empty();
    splitting_goes_through(none, '/', rest, s);
    assert(none + cut + rest =~= cut + rest);
    lemma_part(none);
    let top = split_by(cut + rest, s);
    assert(top[0] == none);
}

proof fn lemma_nonempty(path: Seq<char>)
    ensures
        split_by(path, slash()).len() > 0,
{
}

/// A manifest of the known form asks for a filesystem of its own exactly where it
/// says so; another form, and another way of execution, is refused.
pub proof fn manifests_say_how_they_run(schema: Seq<char>, execution: Option<Seq<char>>)
    ensures
        profile_of("ostadix.embedded-runtime/v1"@, None) == Ok::<bool, EmbedFault>(false),
        profile_of("ostadix.embedded-runtime/v1"@, Some("host"@)) == Ok::<bool, EmbedFault>(false),
        profile_of("ostadix.embedded-runtime/v1"@, Some("linux-rootfs-v1"@)) == Ok::<
            bool,
            EmbedFault,
        >(true),
        profile_of(schema, execution) is Ok <==> schema == "ostadix.embedded-runtime/v1"@ && (
        execution matches Some(name) ==> name == "host"@ || name == "linux-rootfs-v1"@),
        schema == "ostadix.embedded-runtime/v1"@ && profile_of(schema, execution) is Err
            ==> profile_of(schema, execution)->Err_0 == EmbedFault::Profile(execution->Some_0),
{
    reveal_strlit("host");
    reveal_strlit("linux-rootfs-v1");
    assert("host"@.len() != "linux-rootfs-v1"@.len());
}

proof fn lemma_first_taken(names: Seq<Seq<char>>, taken: Seq<Seq<char>>)
    ensures
        first_taken(names, taken) matches Some(name) ==> names.contains(name) && taken.contains(
            name,
        ),
        first_taken(names, taken) is None ==> forall|i: int|
            0 <= i < names.len() ==> !taken.contains(#[trigger] names[i]),
    decreases names.len(),
{
    if names.len() > 0 {
        let init = names.drop_last();
        lemma_first_taken(init, taken);
        assert(names.last() == names[names.len() - 1]);
        assert(forall|i: int| 0 <= i < init.len() ==> #[trigger] init[i] == names[i]);
        if let Some(name) = first_taken(init, taken) {
            let k = choose|k: int| 0 <= k < init.len() && init[k] == name;
            assert(names[k] == name);
        }
        if first_taken(names, taken) is None {
            assert forall|i: int| 0 <= i < names.len() implies !taken.contains(
                #[trigger] names[i],
            ) by {
                if i < init.len() {
                    assert(!taken.contains(init[i]));
                }
            }
        }
    }
}

/// The top of a tree is accepted exactly where there is a place for commands and, if
/// the tree is to be a filesystem of its own, none of the names is taken that belong
/// to its execution.
pub proof fn tops_leave_room_for_the_execution(
    rootfs: bool,
    taken: Seq<Seq<char>>,
    has_commands: bool,
)
    ensures
        top_fault(rootfs, taken, has_commands) is None <==> has_commands && (rootfs
            ==> !taken.contains(".ostadix"@) && !taken.contains(".old-root"@) && !taken.contains(
            "proc"@,
        ) && !taken.contains("dev"@) && !taken.contains("tmp"@) && !taken.contains("work"@)
            && !taken.contains("run"@)),
        top_fault(rootfs, taken, has_commands) matches Some(EmbedFault::Reserved(name)) ==> rootfs
            && taken.contains(name),
{
    let names = reserved_names();
    lemma_first_taken(names, taken);
    assert(names[0] == ".ostadix"@ && names[1] == ".old-root"@ && names[2] == "proc"@ && names[3]
        == "dev"@ && names[4] == "tmp"@ && names[5] == "work"@ && names[6] == "run"@);
    if let Some(name) = first_taken(names, taken) {
        let k = choose|k: int| 0 <= k < names.len() && names[k] == name;
    }
}

/// The map of identities that an image is entered with is one that a process inside
/// the image accepts.
pub proof fn identity_maps_are_accepted(id: u32)
    ensures
        single_identity(identity_map_text(id)),
{
    reveal_strlit("0 ");
    reveal_strlit(" 1\n");
    reveal_strlit("0");
    reveal_strlit("1");
    let blank = seq![' '];
    let feed = seq!['\n'];
    let none = Seq::<char>::empty();
    let number = decimal(id as nat);
    crate::text::decimal_spells(id as nat);
    assert(one_word(number)) by {
        assert forall|i: int| 0 <= i < number.len() implies !is_space(#[trigger] number[i]) by {
            assert(crate::text::is_ascii_digit(number[i]));
        }
    }
    assert(one_word("0"@));
    assert(one_word("1"@));
    let text = identity_map_text(id);
    let behind = blank + ("1"@ + (feed + none));
    assert(text =~= "0"@ + (blank + (number + behind)));
    lemma_words_step("0"@, blank + (number + behind));
    lemma_words_blank_by(' ', number + behind);
    lemma_words_step(number, behind);
    lemma_words_blank_by(' ', "1"@ + (feed + none));
    lemma_words_step("1"@, feed + none);
    lemma_words_blank_by('\n', none);
    assert(words(none).len() == 0);
    let all = words(text);
    assert(all == seq!["0"@] + (seq![number] + (seq!["1"@] + words(none))));
    assert(all[0] == "0"@ && all[2] == "1"@);
}

proof fn lemma_fitting(list: Seq<LockEntry>, name: Seq<char>, version: Option<Seq<char>>)
    ensures
        last_fitting(list, name, version) < list.len(),
        fitting(list, name, version) == 0 <==> last_fitting(list, name, version) < 0,
        fitting(list, name, version) == 0 <==> forall|i: int|
            0 <= i < list.len() ==> !fits(#[trigger] list[i], name, version),
        fitting(list, name, version) > 0 ==> fits(
            list[last_fitting(list, name, version)],
            name,
            version,
        ),
        fitting(list, name, version) == 1 ==> forall|i: int|
            0 <= i < list.len() && fits(#[trigger] list[i], name, version) ==> i == last_fitting(
                list,
                name,
                version,
            ),
    decreases list.len(),
{
    if list.len() > 0 {
        let init = list.drop_last();
        lemma_fitting(init, name, version);
        assert(list.last() == list[list.len() - 1]);
        assert(forall|i: int| 0 <= i < init.len() ==> #[trigger] init[i] == list[i]);
        if fitting(list, name, version) == 0 {
            assert forall|i: int| 0 <= i < list.len() implies !fits(
                #[trigger] list[i],
                name,
                version,
            ) by {
                if i < init.len() {
                    assert(!fits(init[i], name, version));
                }
            }
        }
        if fitting(list, name, version) == 1 {
            assert forall|i: int|
                0 <= i < list.len() && fits(#[trigger] list[i], name, version) implies i
                == last_fitting(list, name, version) by {
                if i < init.len() {
                    assert(fits(init[i], name, version));
                }
            }
        }
    }
}

/// A coordinate names the one package that has its name and, where it gives one, its
/// version. Where no package or more than one has them, it names none.
pub proof fn coordinates_name_one_package(list: Seq<LockEntry>, name: Seq<char>, i: int)
    requires
        one_word(name),
        0 <= i < list.len(),
    ensures
        resolved(list, name) == Ok::<int, LockFault>(i) <==> list[i].name == name && forall|j: int|
            0 <= j < list.len() && (#[trigger] list[j]).name == name ==> j == i,
{
    let none = Seq::<char>::empty();
    assert(name + none =~= name);
    lemma_words_step(name, none);
    assert(words(none).len() == 0);
    assert(words(name) =~= seq![name]);
    lemma_fitting(list, name, None);
    assert(forall|j: int|
        0 <= j < list.len() ==> (fits(#[trigger] list[j], name, None) <==> list[j].name == name));
    if list[i].name == name && (forall|j: int|
        0 <= j < list.len() && (#[trigger] list[j]).name == name ==> j == i) {
        lemma_only(list, name, None, i);
    }
}

/// With a version, a coordinate names the one package of that name and version.
pub proof fn coordinates_go_by_their_version(
    list: Seq<LockEntry>,
    name: Seq<char>,
    version: Seq<char>,
    i: int,
)
    requires
        one_word(name),
        one_word(version),
        0 <= i < list.len(),
    ensures
        resolved(list, name + " "@ + version) == Ok::<int, LockFault>(i) <==> list[i].name == name
            && list[i].version == version && forall|j: int|
            0 <= j < list.len() && (#[trigger] list[j]).name == name && list[j].version == version
                ==> j == i,
{
    reveal_strlit(" ");
    let none = Seq::<char>::empty();
    let blank = seq![' '];
    let coordinate = name + " "@ + version;
    assert(coordinate =~= name + (blank + (version + none)));
    lemma_words_step(name, blank + (version + none));
    lemma_words_blank_by(' ', version + none);
    lemma_words_step(version, none);
    assert(words(none).len() == 0);
    let parts = words(coordinate);
    assert(parts =~= seq![name, version]);
    lemma_fitting(list, name, Some(version));
    assert(forall|j: int|
        0 <= j < list.len() ==> (fits(#[trigger] list[j], name, Some(version)) <==> list[j].name
            == name && list[j].version == version));
    if list[i].name == name && list[i].version == version && (forall|j: int|
        0 <= j < list.len() && (#[trigger] list[j]).name == name && list[j].version == version
            ==> j == i) {
        lemma_only(list, name, Some(version), i);
    }
}

proof fn lemma_only(
    list: Seq<LockEntry>,
    name: Seq<char>,
    version: Option<Seq<char>>,
    i: int,
)
    requires
        0 <= i < list.len(),
        fits(list[i], name, version),
        forall|j: int| 0 <= j < list.len() && fits(#[trigger] list[j], name, version) ==> j == i,
    ensures
        fitting(list, name, version) == 1,
        last_fitting(list, name, version) == i,
    decreases list.len(),
{
    let init = list.drop_last();
    assert(list.last() == list[list.len() - 1]);
    assert(forall|j: int| 0 <= j < init.len() ==> #[trigger] init[j] == list[j]);
    lemma_fitting(init, name, version);
    if i == init.len() {
        assert forall|j: int| 0 <= j < init.len() implies !fits(#[trigger] init[j], name, version) by {
            assert(init[j] == list[j]);
        }
    } else {
        assert(fits(init[i], name, version));
        assert(!fits(list[list.len() - 1], name, version));
        lemma_only(init, name, version, i);
    }
}

/// Every generated package needs these, and one that holds a project one more.
pub proof fn generated_packages_need_their_runtime(project: bool)
    ensures
        needed_names(project).contains("anyhow"@),
        needed_names(project).contains("base64"@),
        needed_names(project).contains("bitflags"@),
        needed_names(project).contains("clap"@),
        needed_names(project).contains("ed25519-dalek"@),
        needed_names(project).contains("getrandom"@),
        needed_names(project).contains("hex"@),
        needed_names(project).contains("libc"@),
        needed_names(project).contains("num-bigint"@),
        needed_names(project).contains("num-traits"@),
        needed_names(project).contains("semver"@),
        needed_names(project).contains("serde"@),
        needed_names(project).contains("serde_json"@),
        needed_names(project).contains("sha2"@),
        needed_names(project).contains("thiserror"@),
        needed_names(project).contains("toml"@),
        needed_names(project).contains("which"@),
        project ==> needed_names(project).contains("ignore"@),
        needed_names(project).len() == if project {
            18int
        } else {
            17
        },
{
    let n = needed_names(project);
    assert(n[0] == "anyhow"@ && n[1] == "base64"@ && n[2] == "bitflags"@ && n[3] == "clap"@ && n[4]
        == "ed25519-dalek"@ && n[5] == "getrandom"@ && n[6] == "hex"@ && n[7] == "libc"@ && n[8]
        == "num-bigint"@);
    assert(n[9] == "num-traits"@ && n[10] == "semver"@ && n[11] == "serde"@ && n[12]
        == "serde_json"@ && n[13] == "sha2"@ && n[14] == "thiserror"@ && n[15] == "toml"@ && n[16]
        == "which"@);
    assert(project ==> n[17] == "ignore"@);
}

/// A package stays in a lock exactly where it is to be kept, as it was and in its
/// place among the others.
pub proof fn kept_packages_stay_as_they_are(list: Seq<LockEntry>, kept: Set<int>, last: LockEntry)
    ensures
        retained(Seq::empty(), kept) == Seq::<LockEntry>::empty(),
        retained(list.push(last), kept) == if kept.contains(list.len() as int) {
            retained(list, kept).push(last)
        } else {
            retained(list, kept)
        },
{
    assert(list.push(last).drop_last() =~= list);
}

/// In a lock, the generated package stands where the workspace's own stood, under a
/// name of its own, with its dependencies; all others stay.
pub proof fn the_generated_package_takes_the_place(
    list: Seq<LockEntry>,
    root: int,
    dependencies: Seq<Seq<char>>,
    i: int,
)
    requires
        0 <= root < list.len(),
        0 <= i < list.len(),
    ensures
        projected(list, root, dependencies).len() == list.len(),
        i != root ==> projected(list, root, dependencies)[i] == list[i],
        projected(list, root, dependencies)[root].name == "ostadix-generated-runtime"@,
        projected(list, root, dependencies)[root].version == "0.1.0"@,
        projected(list, root, dependencies)[root].dependencies == Some(dependencies),
        projected(list, root, dependencies)[root].source is None,
        projected(list, root, dependencies)[root].checksum is None,
        projected(list, root, dependencies)[root] == generated_entry(dependencies),
{
}

proof fn lemma_named_last(coordinates: Seq<Seq<char>>, name: Seq<char>)
    ensures
        named_count(coordinates, name) > 0 ==> coordinates.contains(named_last(coordinates, name))
            && crate::lockfile::dependency_name(named_last(coordinates, name)) == name,
    decreases coordinates.len(),
{
    if coordinates.len() > 0 {
        let init = coordinates.drop_last();
        lemma_named_last(init, name);
        assert(coordinates.last() == coordinates[coordinates.len() - 1]);
        if named_count(init, name) > 0 {
            let k = choose|k: int| 0 <= k < init.len() && init[k] == named_last(init, name);
            assert(coordinates[k] == init[k]);
        }
    }
}

/// Every dependency that is asked for gets the coordinate that the workspace has for
/// it, in the order in which they are asked for.
pub proof fn dependencies_keep_their_coordinates(
    coordinates: Seq<Seq<char>>,
    names: Seq<Seq<char>>,
    k: int,
)
    requires
        picked(coordinates, names) is Ok,
        0 <= k < names.len(),
    ensures
        picked(coordinates, names)->Ok_0.len() == names.len(),
        coordinates.contains(picked(coordinates, names)->Ok_0[k]),
        crate::lockfile::dependency_name(picked(coordinates, names)->Ok_0[k]) == names[k],
    decreases names.len(),
{
    let init = names.drop_last();
    if init.len() > 0 {
        let j = if k < init.len() {
            k
        } else {
            0
        };
        dependencies_keep_their_coordinates(coordinates, init, j);
        assert(init[j] == names[j]);
    }
    lemma_named_last(coordinates, names.last());
    assert(names.last() == names[names.len() - 1]);
    assert(picked(coordinates, init) is Ok);
    let before = picked(coordinates, init)->Ok_0;
    let all = picked(coordinates, names)->Ok_0;
    if init.len() == 0 {
        assert(before.len() == 0);
    }
    assert(all == before.push(named_last(coordinates, names.last())));
    if k < init.len() {
        assert(all[k] == before[k]);
    } else {
        assert(all[k] == named_last(coordinates, names.last()));
    }
}

/// A process counts as one inside an image exactly where it claims the image, the
/// image bears out the claim, it has one identity of each kind, it has no capability
/// of any kind, and it cannot get any.
pub proof fn processes_inside_have_nothing_outside(image: Seq<char>, e: ActiveEvidence)
    ensures
        evidence_fault(image, e) is None <==> {
            &&& e.claimed@ == image
            &&& e.stored@ == image
            &&& single_identity(e.uid_map@)
            &&& single_identity(e.gid_map@)
            &&& capability_fault(e.status@, "CapInh:"@) is None
            &&& capability_fault(e.status@, "CapPrm:"@) is None
            &&& capability_fault(e.status@, "CapEff:"@) is None
            &&& capability_fault(e.status@, "CapBnd:"@) is None
            &&& capability_fault(e.status@, "CapAmb:"@) is None
            &&& e.no_new_privileges == 1
        },
{
    let all = capability_fields();
    let a = all.skip(1);
    let b = a.skip(1);
    let c = b.skip(1);
    let d = c.skip(1);
    let f = d.skip(1);
    assert(all[0] == "CapInh:"@ && a[0] == "CapPrm:"@ && b[0] == "CapEff:"@ && c[0] == "CapBnd:"@
        && d[0] == "CapAmb:"@);
    assert(all.len() == 5 && a.len() == 4 && b.len() == 3 && c.len() == 2 && d.len() == 1 && f.len()
        == 0);
    let s = e.status@;
    assert(first_capability_fault(s, f) is None);
    assert(first_capability_fault(s, d) is None <==> capability_fault(s, d[0]) is None);
    assert(first_capability_fault(s, c) is None <==> capability_fault(s, c[0]) is None
        && first_capability_fault(s, d) is None);
    assert(first_capability_fault(s, b) is None <==> capability_fault(s, b[0]) is None
        && first_capability_fault(s, c) is None);
    assert(first_capability_fault(s, a) is None <==> capability_fault(s, a[0]) is None
        && first_capability_fault(s, b) is None);
    assert(first_capability_fault(s, all) is None <==> capability_fault(s, all[0]) is None
        && first_capability_fault(s, a) is None);
}

/// A set of capabilities is empty exactly where its line spells zero.
pub proof fn empty_sets_spell_zero(field: Seq<char>, status: Seq<char>)
    ensures
        capability_fault(status, field) is None <==> crate::process::line_with(status, field)
            is Some && crate::rootfs::hex_number(
            crate::text::trim(
                crate::process::line_with(status, field)->Some_0.skip(field.len() as int),
            ),
        ) == Some(0u64),
{
}

/// The workspace's own package is the one of its name and version that comes from
/// nowhere else.
pub proof fn own_packages_come_from_nowhere_else(p: LockEntry, name: Seq<char>, version: Seq<char>)
    ensures
        crate::lockfile::is_root(p, name, version) ==> p.name == name && p.version == version
            && p.source is None,
        p.name == name && p.version == version && p.source is None ==> crate::lockfile::is_root(
            p,
            name,
            version,
        ),
{
}

/// A generated library is made of so many files, and those for projects all stand in
/// one directory.
pub proof fn libraries_are_made_of_their_files(i: int)
    ensures
        crate::runtime_layout::runtime_paths().len() == 69,
        crate::runtime_layout::project_paths().len() == 27,
        0 <= i < 27 ==> crate::text::starts_with(
            crate::runtime_layout::project_paths()[i],
            "project/"@,
        ),
{
    reveal_strlit("project/");
    reveal_strlit("project/mod.rs");
    reveal_strlit("project/bundle.rs");
    reveal_strlit("project/deployment.rs");
    reveal_strlit("project/discover.rs");
    reveal_strlit("project/executor.rs");
    reveal_strlit("project/launch.rs");
    reveal_strlit("project/logical.rs");
    reveal_strlit("project/lower.rs");
    reveal_strlit("project/manifest.rs");
    reveal_strlit("project/materialize.rs");
    reveal_strlit("project/model.rs");
    reveal_strlit("project/plan.rs");
    reveal_strlit("project/runtime.rs");
    reveal_strlit("project/runtime_graph.rs");
    reveal_strlit("project/trace.rs");
    reveal_strlit("project/world_execution.rs");
    reveal_strlit("project/ecosystems/mod.rs");
    reveal_strlit("project/ecosystems/c_family.rs");
    reveal_strlit("project/ecosystems/dotnet.rs");
    reveal_strlit("project/ecosystems/generic.rs");
    reveal_strlit("project/ecosystems/haskell_ocaml.rs");
    reveal_strlit("project/ecosystems/java.rs");
    reveal_strlit("project/ecosystems/javascript.rs");
    reveal_strlit("project/ecosystems/nix.rs");
    reveal_strlit("project/ecosystems/python.rs");
    reveal_strlit("project/ecosystems/rust.rs");
    reveal_strlit("project/ecosystems/shell.rs");
    let list = crate::runtime_layout::project_paths();
    assert(list[0].take(8) =~= "project/"@);
    assert(list[1].take(8) =~= "project/"@);
    assert(list[2].take(8) =~= "project/"@);
    assert(list[3].take(8) =~= "project/"@);
    assert(list[4].take(8) =~= "project/"@);
    assert(list[5].take(8) =~= "project/"@);
    assert(list[6].take(8) =~= "project/"@);
    assert(list[7].take(8) =~= "project/"@);
    assert(list[8].take(8) =~= "project/"@);
    assert(list[9].take(8) =~= "project/"@);
    assert(list[10].take(8) =~= "project/"@);
    assert(list[11].take(8) =~= "project/"@);
    assert(list[12].take(8) =~= "project/"@);
    assert(list[13].take(8) =~= "project/"@);
    assert(list[14].take(8) =~= "project/"@);
    assert(list[15].take(8) =~= "project/"@);
    assert(list[16].take(8) =~= "project/"@);
    assert(list[17].take(8) =~= "project/"@);
    assert(list[18].take(8) =~= "project/"@);
    assert(list[19].take(8) =~= "project/"@);
    assert(list[20].take(8) =~= "project/"@);
    assert(list[21].take(8) =~= "project/"@);
    assert(list[22].take(8) =~= "project/"@);
    assert(list[23].take(8) =~= "project/"@);
    assert(list[24].take(8) =~= "project/"@);
    assert(list[25].take(8) =~= "project/"@);
    assert(list[26].take(8) =~= "project/"@);
}

} // verus!
