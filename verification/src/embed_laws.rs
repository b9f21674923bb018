//! What holds of an embedded tree and of the program that holds it.

use vstd::prelude::*;

use crate::bundle::{digest_text, environment_problem, leads_below, relocated, steps_back};
use crate::components::components;
use crate::embed::{
    bootstrapped, data_source, directory_entries, directory_items, file_entries, file_items,
    image_of, inventory_text, link_entries, link_items, payloads_of, placed_environment,
    replaced_once, variable_entries, variable_items, ENTRY, SHIMS,
};
use crate::gather::{
    directories_in, entry_places, files_in, gathered, links_in, walked, DirectoryFacts, FileFacts,
    FoundBundle, FoundEntry, LinkFacts, Tree,
};
use crate::outside::{json_quoted, literal_of};
use crate::sorting::{order_of, orders_are_complete_and_ascend};
use crate::text::{decimal, ends_with, find_text, lemma_find_text, split_text, starts_with};
use crate::text_laws::{lemma_ends, lemma_occurs_within, occurs};

verus! {

proof fn lemma_grown(before: Seq<char>, more: Seq<char>, part: Seq<char>)
    requires
        occurs(part, before),
    ensures
        occurs(part, before + more),
{
    assert(before + more =~= Seq::<char>::empty() + before + more);
    lemma_occurs_within(part, before, before + more);
}

proof fn lemma_at_end(before: Seq<char>, part: Seq<char>)
    ensures
        occurs(part, before + part),
{
    assert(before + part =~= before + part + Seq::<char>::empty());
}

/// The entry of a file in the data of a program: its name, the payload that holds
/// its bytes, its mode and its digest.
pub open spec fn file_line(file: FileFacts, place: nat) -> Seq<char> {
    "("@ + literal_of(file.name) + ", include_bytes!("@ + literal_of("payload-"@ + decimal(place))
        + "), "@ + decimal(file.mode as nat) + ", "@ + literal_of(digest_text(file.bytes)) + "),\n"@
}

proof fn lemma_file_listed(files: Seq<FileFacts>, i: int)
    requires
        0 <= i < files.len(),
    ensures
        occurs(file_line(files[i], i as nat), file_entries(files)),
    decreases files.len(),
{
    let init = files.drop_last();
    let line = file_line(files[i], i as nat);
    if i == files.len() - 1 {
        lemma_at_end(file_entries(init), line);
    } else {
        lemma_file_listed(init, i);
        assert(init[i] == files[i]);
        lemma_grown(
            file_entries(init),
            file_line(files.last(), (files.len() - 1) as nat),
            line,
        );
    }
}

proof fn lemma_directory_listed(list: Seq<DirectoryFacts>, i: int)
    requires
        0 <= i < list.len(),
    ensures
        occurs(
            "("@ + literal_of(list[i].name) + ", "@ + decimal(list[i].mode as nat) + "),\n"@,
            directory_entries(list),
        ),
    decreases list.len(),
{
    let init = list.drop_last();
    let d = list.last();
    let line = "("@ + literal_of(list[i].name) + ", "@ + decimal(list[i].mode as nat) + "),\n"@;
    let last = "("@ + literal_of(d.name) + ", "@ + decimal(d.mode as nat) + "),\n"@;
    assert(directory_entries(list) =~= directory_entries(init) + last);
    if i == list.len() - 1 {
        lemma_at_end(directory_entries(init), line);
    } else {
        lemma_directory_listed(init, i);
        assert(init[i] == list[i]);
        lemma_grown(directory_entries(init), last, line);
    }
}

proof fn lemma_link_listed(list: Seq<LinkFacts>, i: int)
    requires
        0 <= i < list.len(),
    ensures
        occurs(
            "("@ + literal_of(list[i].name) + ", "@ + literal_of(list[i].target) + "),\n"@,
            link_entries(list),
        ),
    decreases list.len(),
{
    let init = list.drop_last();
    let d = list.last();
    let line = "("@ + literal_of(list[i].name) + ", "@ + literal_of(list[i].target) + "),\n"@;
    let last = "("@ + literal_of(d.name) + ", "@ + literal_of(d.target) + "),\n"@;
    assert(link_entries(list) =~= link_entries(init) + last);
    if i == list.len() - 1 {
        lemma_at_end(link_entries(init), line);
    } else {
        lemma_link_listed(init, i);
        assert(init[i] == list[i]);
        lemma_grown(link_entries(init), last, line);
    }
}

proof fn lemma_variable_listed(list: Seq<(Seq<char>, Seq<char>)>, i: int)
    requires
        0 <= i < list.len(),
    ensures
        occurs(
            "("@ + literal_of(list[i].0) + ", "@ + literal_of(list[i].1) + "),\n"@,
            variable_entries(list),
        ),
    decreases list.len(),
{
    let init = list.drop_last();
    let d = list.last();
    let line = "("@ + literal_of(list[i].0) + ", "@ + literal_of(list[i].1) + "),\n"@;
    let last = "("@ + literal_of(d.0) + ", "@ + literal_of(d.1) + "),\n"@;
    assert(variable_entries(list) =~= variable_entries(init) + last);
    if i == list.len() - 1 {
        lemma_at_end(variable_entries(init), line);
    } else {
        lemma_variable_listed(init, i);
        assert(init[i] == list[i]);
        lemma_grown(variable_entries(init), last, line);
    }
}

/// The lists of the data of a program, each between its own head and foot.
proof fn lemma_data_parts(tree: Tree)
    ensures
        occurs(
            "const FILES: &[(&str, &[u8], u32, &str)] = &[\n"@ + file_entries(tree.files) + "];\n"@,
            data_source(tree),
        ),
        occurs(
            "const DIRECTORIES: &[(&str, u32)] = &[\n"@ + directory_entries(tree.directories)
                + "];\n"@,
            data_source(tree),
        ),
        occurs(
            "const SYMLINKS: &[(&str, &str)] = &[\n"@ + link_entries(tree.links) + "];\n"@,
            data_source(tree),
        ),
        occurs(
            "const ENVIRONMENT: &[(&str, &str)] = &[\n"@ + variable_entries(tree.environment)
                + "];\n"@,
            data_source(tree),
        ),
        occurs(
            "const ROOTFS_IMAGE: Option<&str> = "@ + (if tree.rootfs {
                "Some("@ + literal_of(image_of(tree)) + ")"@
            } else {
                "None"@
            }) + ";\n"@,
            data_source(tree),
        ),
{
    reveal_strlit("];\n");
    reveal_strlit("const DIRECTORIES: &[(&str, u32)] = &[\n");
    reveal_strlit("const SYMLINKS: &[(&str, &str)] = &[\n");
    reveal_strlit("const ENVIRONMENT: &[(&str, &str)] = &[\n");
    reveal_strlit("const ROOTFS_IMAGE: Option<&str> = ");
    reveal_strlit("];\nconst DIRECTORIES: &[(&str, u32)] = &[\n");
    reveal_strlit("];\nconst SYMLINKS: &[(&str, &str)] = &[\n");
    reveal_strlit("];\nconst ENVIRONMENT: &[(&str, &str)] = &[\n");
    reveal_strlit("];\nconst ROOTFS_IMAGE: Option<&str> = ");
    let foot = "];\n"@;
    assert("];\nconst DIRECTORIES: &[(&str, u32)] = &[\n"@ =~= foot
        + "const DIRECTORIES: &[(&str, u32)] = &[\n"@);
    assert("];\nconst SYMLINKS: &[(&str, &str)] = &[\n"@ =~= foot
        + "const SYMLINKS: &[(&str, &str)] = &[\n"@);
    assert("];\nconst ENVIRONMENT: &[(&str, &str)] = &[\n"@ =~= foot
        + "const ENVIRONMENT: &[(&str, &str)] = &[\n"@);
    assert("];\nconst ROOTFS_IMAGE: Option<&str> = "@ =~= foot
        + "const ROOTFS_IMAGE: Option<&str> = "@);
    let image = if tree.rootfs {
        "Some("@ + literal_of(image_of(tree)) + ")"@
    } else {
        "None"@
    };
    let a = "const FILES: &[(&str, &[u8], u32, &str)] = &[\n"@ + file_entries(tree.files) + foot;
    let b = "const DIRECTORIES: &[(&str, u32)] = &[\n"@ + directory_entries(tree.directories) + foot;
    let c = "const SYMLINKS: &[(&str, &str)] = &[\n"@ + link_entries(tree.links) + foot;
    let d = "const ENVIRONMENT: &[(&str, &str)] = &[\n"@ + variable_entries(tree.environment) + foot;
    let e = "const ROOTFS_IMAGE: Option<&str> = "@ + image + ";\n"@;
    let text = data_source(tree);
    assert(text =~= a + b + c + d + e);
    lemma_five(a, b, c, d, e);
}

proof fn lemma_five(a: Seq<char>, b: Seq<char>, c: Seq<char>, d: Seq<char>, e: Seq<char>)
    ensures
        occurs(a, a + b + c + d + e),
        occurs(b, a + b + c + d + e),
        occurs(c, a + b + c + d + e),
        occurs(d, a + b + c + d + e),
        occurs(e, a + b + c + d + e),
{
    let none = Seq::<char>::empty();
    let text = a + b + c + d + e;
    assert(text =~= none + a + (b + c + d + e));
    assert(text =~= a + b + (c + d + e));
    assert(text =~= (a + b) + c + (d + e));
    assert(text =~= (a + b + c) + d + e);
    assert(text =~= (a + b + c + d) + e + none);
}

proof fn lemma_framed(head: Seq<char>, list: Seq<char>, part: Seq<char>, whole: Seq<char>)
    requires
        occurs(part, list),
        occurs(head + list + "];\n"@, whole),
    ensures
        occurs(part, whole),
{
    assert(occurs(list, head + list + "];\n"@));
    lemma_occurs_within(part, list, head + list + "];\n"@);
    lemma_occurs_within(part, head + list + "];\n"@, whole);
}

/// Everything that is kept of a tree is embedded: each file under its name, with
/// its mode and digest and the payload that holds its bytes; each directory with
/// its mode; each link with its target; each variable with its value.
pub proof fn everything_kept_is_embedded(tree: Tree, i: int)
    ensures
        0 <= i < tree.files.len() ==> occurs(
            "("@ + literal_of(tree.files[i].name) + ", include_bytes!("@ + literal_of(
                "payload-"@ + decimal(i as nat),
            ) + "), "@ + decimal(tree.files[i].mode as nat) + ", "@ + literal_of(
                digest_text(tree.files[i].bytes),
            ) + "),\n"@,
            data_source(tree),
        ) && payloads_of(tree.files).len() == tree.files.len() && payloads_of(tree.files)[i] == (
            "payload-"@ + decimal(i as nat),
            tree.files[i].bytes,
        ),
        0 <= i < tree.directories.len() ==> occurs(
            "("@ + literal_of(tree.directories[i].name) + ", "@ + decimal(
                tree.directories[i].mode as nat,
            ) + "),\n"@,
            data_source(tree),
        ),
        0 <= i < tree.links.len() ==> occurs(
            "("@ + literal_of(tree.links[i].name) + ", "@ + literal_of(tree.links[i].target)
                + "),\n"@,
            data_source(tree),
        ),
        0 <= i < tree.environment.len() ==> occurs(
            "("@ + literal_of(tree.environment[i].0) + ", "@ + literal_of(tree.environment[i].1)
                + "),\n"@,
            data_source(tree),
        ),
{
    lemma_data_parts(tree);
    let text = data_source(tree);
    if 0 <= i < tree.files.len() {
        lemma_file_listed(tree.files, i);
        lemma_framed(
            "const FILES: &[(&str, &[u8], u32, &str)] = &[\n"@,
            file_entries(tree.files),
            file_line(tree.files[i], i as nat),
            text,
        );
    }
    if 0 <= i < tree.directories.len() {
        let d = tree.directories[i];
        lemma_directory_listed(tree.directories, i);
        lemma_framed(
            "const DIRECTORIES: &[(&str, u32)] = &[\n"@,
            directory_entries(tree.directories),
            "("@ + literal_of(d.name) + ", "@ + decimal(d.mode as nat) + "),\n"@,
            text,
        );
    }
    if 0 <= i < tree.links.len() {
        let d = tree.links[i];
        lemma_link_listed(tree.links, i);
        lemma_framed(
            "const SYMLINKS: &[(&str, &str)] = &[\n"@,
            link_entries(tree.links),
            "("@ + literal_of(d.name) + ", "@ + literal_of(d.target) + "),\n"@,
            text,
        );
    }
    if 0 <= i < tree.environment.len() {
        let d = tree.environment[i];
        lemma_variable_listed(tree.environment, i);
        lemma_framed(
            "const ENVIRONMENT: &[(&str, &str)] = &[\n"@,
            variable_entries(tree.environment),
            "("@ + literal_of(d.0) + ", "@ + literal_of(d.1) + "),\n"@,
            text,
        );
    }
}

/// A tree with a root filesystem of its own is known by the digest of its
/// inventory, and any other by nothing.
pub proof fn images_are_known_by_their_inventory(tree: Tree)
    ensures
        tree.rootfs ==> occurs(
            "const ROOTFS_IMAGE: Option<&str> = Some("@ + literal_of(
                digest_text(vstd::utf8::encode_utf8(inventory_text(tree))),
            ) + ");\n"@,
            data_source(tree),
        ),
        !tree.rootfs ==> occurs("const ROOTFS_IMAGE: Option<&str> = None;\n"@, data_source(tree)),
{
    lemma_data_parts(tree);
    reveal_strlit("const ROOTFS_IMAGE: Option<&str> = ");
    reveal_strlit("const ROOTFS_IMAGE: Option<&str> = Some(");
    reveal_strlit("Some(");
    reveal_strlit("None");
    reveal_strlit(")");
    reveal_strlit(";\n");
    reveal_strlit(");\n");
    reveal_strlit("const ROOTFS_IMAGE: Option<&str> = None;\n");
    let image = literal_of(image_of(tree));
    assert("const ROOTFS_IMAGE: Option<&str> = Some("@ + image + ");\n"@
        =~= "const ROOTFS_IMAGE: Option<&str> = "@ + ("Some("@ + image + ")"@) + ";\n"@);
    assert("const ROOTFS_IMAGE: Option<&str> = None;\n"@
        =~= "const ROOTFS_IMAGE: Option<&str> = "@ + "None"@ + ";\n"@);
}

proof fn lemma_two_pieces(text: Seq<char>, part: Seq<char>)
    requires
        part.len() > 0,
        split_text(text, part).len() == 2,
    ensures
        text == split_text(text, part)[0] + part + split_text(text, part)[1],
{
    let k = find_text(text, part, 0);
    lemma_find_text(text, part, 0);
    let rest = text.skip(k + part.len());
    let pieces = split_text(text, part);
    assert(pieces == seq![text.take(k)] + split_text(rest, part));
    assert(split_text(rest, part).len() == 1);
    assert(split_text(rest, part)[0] == rest) by {
        let j = find_text(rest, part, 0);
        lemma_find_text(rest, part, 0);
        if j >= 0 {
            lemma_some_piece(rest.skip(j + part.len()), part);
        }
    }
    lemma_found_there(text, part, 0);
    assert(text =~= text.take(k) + part + rest) by {
        assert forall|i: int| k <= i < k + part.len() implies text[i] == part[i - k] by {
            assert(text.skip(k).take(part.len() as int)[i - k] == text[i]);
        }
    }
}

proof fn lemma_some_piece(text: Seq<char>, part: Seq<char>)
    ensures
        split_text(text, part).len() > 0,
{
}

proof fn lemma_found_there(s: Seq<char>, part: Seq<char>, i: int)
    ensures
        find_text(s, part, i) >= 0 ==> starts_with(s.skip(find_text(s, part, i)), part),
    decreases s.len() + 1 - i,
{
    if 0 <= i <= s.len() && !starts_with(s.skip(i), part) {
        lemma_found_there(s, part, i + 1);
    }
}

/// A program that is changed takes out its tree right before it looks for its
/// shims, and is otherwise as it was. Gives what stands in front of that place and
/// behind it.
pub proof fn programs_take_out_their_tree(main: Seq<char>) -> (r: (Seq<char>, Seq<char>))
    requires
        bootstrapped(main, false) is Ok,
    ensures
        main == r.0 + "    #[cfg(not(target_family = \"wasm\"))]\n    let shim_dir ="@ + r.1,
        bootstrapped(main, false)->Ok_0 == "mod embedded_runtime;\n"@ + r.0
            + "    let _runtime_bundle = embedded_runtime::activate()?;\n\n"@
            + "    #[cfg(not(target_family = \"wasm\"))]\n    let shim_dir ="@ + r.1,
{
    reveal_strlit("    #[cfg(not(target_family = \"wasm\"))]\n    let shim_dir =");
    reveal_strlit("    let _runtime_bundle = embedded_runtime::activate()?;\n\n");
    reveal_strlit(
        "    let _runtime_bundle = embedded_runtime::activate()?;\n\n    #[cfg(not(target_family = \"wasm\"))]\n    let shim_dir =",
    );
    let pieces = split_text(main, SHIMS@);
    lemma_two_pieces(main, SHIMS@);
    let a = pieces[0];
    let b = pieces[1];
    assert(crate::embed::BUNDLED_SHIMS@
        =~= "    let _runtime_bundle = embedded_runtime::activate()?;\n\n"@ + SHIMS@);
    assert(bootstrapped(main, false)->Ok_0 =~= "mod embedded_runtime;\n"@ + a
        + "    let _runtime_bundle = embedded_runtime::activate()?;\n\n"@ + SHIMS@ + b);
    (a, b)
}

/// A program of an image enters it as the first step of its main function, and is
/// otherwise changed as any other. Gives what stands in front of that step and
/// behind it.
pub proof fn programs_enter_their_image(main: Seq<char>) -> (r: (Seq<char>, Seq<char>))
    requires
        bootstrapped(main, true) is Ok,
    ensures
        main == r.0 + "fn main() -> anyhow::Result<()> {"@ + r.1,
        bootstrapped(main, true) == bootstrapped(
            r.0 + "fn main() -> anyhow::Result<()> {"@
                + "\n    embedded_runtime::enter_rootfs_if_requested()?;"@ + r.1,
            false,
        ),
{
    reveal_strlit("fn main() -> anyhow::Result<()> {");
    reveal_strlit("\n    embedded_runtime::enter_rootfs_if_requested()?;");
    reveal_strlit(
        "fn main() -> anyhow::Result<()> {\n    embedded_runtime::enter_rootfs_if_requested()?;",
    );
    let pieces = split_text(main, ENTRY@);
    lemma_two_pieces(main, ENTRY@);
    let a = pieces[0];
    let b = pieces[1];
    assert(crate::embed::GATED_ENTRY@ =~= ENTRY@
        + "\n    embedded_runtime::enter_rootfs_if_requested()?;"@);
    assert(replaced_once(main, ENTRY@, crate::embed::GATED_ENTRY@)->Some_0 =~= a
        + "fn main() -> anyhow::Result<()> {"@
        + "\n    embedded_runtime::enter_rootfs_if_requested()?;"@ + b);
    (a, b)
}

/// What a tree sets leads into it, wherever it stands: commands to its own, and
/// each variable to the place that its value names behind that of the tree.
pub proof fn environments_lead_into_the_tree(
    root: Seq<char>,
    list: Seq<(Seq<char>, Seq<char>)>,
    i: int,
)
    requires
        placed_environment(root, list) is Some,
        root.len() > 0,
        root.last() != '/',
    ensures
        placed_environment(root, list)->Some_0.len() == list.len() + 1,
        placed_environment(root, list)->Some_0[0] == ("PATH"@, root + "/"@ + "bin"@),
        0 <= i < list.len() ==> {
            let suffix = list[i].1.skip("${BUNDLE}/"@.len() as int);
            &&& list[i].1 == "${BUNDLE}/"@ + suffix
            &&& (suffix.len() > 0 ==> suffix[0] != '/') ==> placed_environment(root, list)->Some_0[i
                + 1] == (list[i].0, root + "/"@ + suffix)
        },
    decreases list.len(),
{
    reveal_strlit("bin");
    if list.len() > 0 {
        let init = list.drop_last();
        let before = placed_environment(root, init)->Some_0;
        let all = placed_environment(root, list)->Some_0;
        environments_lead_into_the_tree(root, init, i);
        assert(all[0] == before[0]);
        if 0 <= i < init.len() {
            assert(init[i] == list[i]);
            assert(all[i + 1] == before[i + 1]);
        } else if i == init.len() {
            let value = list[i].1;
            assert(starts_with(value, "${BUNDLE}/"@));
            assert(value =~= "${BUNDLE}/"@ + value.skip("${BUNDLE}/"@.len() as int));
        }
    }
}

/// A variable is accepted exactly where it is one that a tree may set, and its
/// value leads below the tree, to a place that lies in it, without separators of
/// its own.
pub proof fn accepted_variables_are_known(key: Seq<char>, value: Seq<char>, inside: bool)
    ensures
        environment_problem(key, value, inside) is None <==> {
            let suffix = value.skip("${BUNDLE}/"@.len() as int);
            &&& key == "PYTHONHOME"@ || key == "PYTHONPATH"@ || key == "NODE_PATH"@ || key
                == "RUBYLIB"@ || key == "GEM_HOME"@ || key == "GEM_PATH"@ || key == "JAVA_HOME"@
                || key == "DOTNET_ROOT"@ || key == "LD_LIBRARY_PATH"@ || key
                == "DYLD_LIBRARY_PATH"@
            &&& starts_with(value, "${BUNDLE}/"@)
            &&& leads_below(suffix)
            &&& !suffix.contains('\0')
            &&& !suffix.contains(':')
            &&& inside
        },
{
}

proof fn lemma_file_kept(entries: Seq<FoundEntry>, p: int)
    requires
        0 <= p < entries.len(),
    ensures
        ({
            let e = entries[p];
            &&& e.is_directory ==> directories_in(entries).contains(
                DirectoryFacts { name: e.name@, mode: e.mode & 0o777u32 },
            )
            &&& !e.is_directory && e.link is None ==> files_in(entries).contains(
                FileFacts { name: e.name@, bytes: e.bytes@, mode: e.mode & 0o777u32 },
            )
            &&& !e.is_directory && e.link is Some ==> links_in(entries).contains(
                LinkFacts {
                    name: e.name@,
                    target: e.target()->Some_0,
                    mode: e.mode & 0o777u32,
                },
            )
        }),
    decreases entries.len(),
{
    let init = entries.drop_last();
    let e = entries[p];
    let d = DirectoryFacts { name: e.name@, mode: e.mode & 0o777u32 };
    let f = FileFacts { name: e.name@, bytes: e.bytes@, mode: e.mode & 0o777u32 };
    let l = LinkFacts { name: e.name@, target: e.target()->Some_0, mode: e.mode & 0o777u32 };
    if p == entries.len() - 1 {
        assert(entries.last() == e);
        if e.is_directory {
            let list = directories_in(entries);
            assert(list[list.len() - 1] == d);
        } else if e.link is None {
            let list = files_in(entries);
            assert(list[list.len() - 1] == f);
        } else {
            let list = links_in(entries);
            assert(list[list.len() - 1] == l);
        }
    } else {
        lemma_file_kept(init, p);
        assert(init[p] == e);
        if e.is_directory {
            let k = choose|k: int| 0 <= k < directories_in(init).len() && directories_in(init)[k] == d;
            assert(directories_in(entries)[k] == d);
        } else if e.link is None {
            let k = choose|k: int| 0 <= k < files_in(init).len() && files_in(init)[k] == f;
            assert(files_in(entries)[k] == f);
        } else {
            let k = choose|k: int| 0 <= k < links_in(init).len() && links_in(init)[k] == l;
            assert(links_in(entries)[k] == l);
        }
    }
}

/// Every entry that is found in a tree is kept as it is: a directory under its
/// name, a file with its bytes, a link as a link; with its permissions alone.
pub proof fn entries_are_kept_as_found(found: FoundBundle, k: int)
    requires
        gathered(found) is Ok,
        0 <= k < found.entries@.len(),
    ensures
        ({
            let e = found.entries@[k];
            let tree = gathered(found)->Ok_0;
            &&& e.is_directory ==> tree.directories.contains(
                DirectoryFacts { name: e.name@, mode: e.mode & 0o777u32 },
            )
            &&& !e.is_directory && e.link is None ==> e.is_file && tree.files.contains(
                FileFacts { name: e.name@, bytes: e.bytes@, mode: e.mode & 0o777u32 },
            )
            &&& !e.is_directory && e.link is Some ==> e.is_file && e.below is Some
                && tree.links.contains(
                LinkFacts {
                    name: e.name@,
                    target: e.target()->Some_0,
                    mode: e.mode & 0o777u32,
                },
            )
        }),
{
    let keys = entry_places(found.entries@);
    let order = order_of(keys);
    orders_are_complete_and_ascend(keys);
    lemma_named(order, keys.len() as int, k);
    let p = choose|p: int| 0 <= p < order.len() && order[p] == k;
    let all = walked(found.entries@);
    assert(all[p] == found.entries@[k]);
    lemma_file_kept(all, p);
    lemma_no_fault(all, p);
}

proof fn lemma_no_fault(entries: Seq<FoundEntry>, p: int)
    requires
        0 <= p < entries.len(),
        crate::gather::entries_fault(entries) is None,
    ensures
        entries[p].fault() is None,
    decreases entries.len(),
{
    if p < entries.len() - 1 {
        lemma_no_fault(entries.drop_last(), p);
    }
}

/// A list of distinct numbers below its length holds each of them.
proof fn lemma_named(order: Seq<int>, n: int, k: int)
    requires
        order.len() == n,
        order.no_duplicates(),
        forall|i: int| 0 <= i < order.len() ==> 0 <= #[trigger] order[i] < n,
        0 <= k < n,
    ensures
        order.contains(k),
{
    order.unique_seq_to_set();
    let range = vstd::set_lib::set_int_range(0, n);
    vstd::set_lib::lemma_int_range(0, n);
    assert(order.to_set().subset_of(range));
    vstd::set_lib::lemma_subset_equality(order.to_set(), range);
    assert(range.contains(k));
    assert(order.to_set().contains(k));
}

/// A link to a place in the tree leads back to its top, by one step for each
/// directory above the link, and from there to that place.
pub proof fn links_lead_back_to_the_top(depth: nat, original: Seq<char>, below: Seq<char>)
    requires
        original.len() > 0,
        original[0] == '/',
    ensures
        relocated(depth, original, below) is Some,
        ends_with(relocated(depth, original, below)->Some_0, below),
        relocated(depth, original, below)->Some_0.len() == 3 * depth + below.len(),
        forall|i: int|
            0 <= i < depth ==> #[trigger] relocated(depth, original, below)->Some_0.subrange(
                3 * i,
                3 * i + 3,
            ) == "../"@,
{
    lemma_back(depth);
    let target = relocated(depth, original, below)->Some_0;
    lemma_ends(steps_back(depth), below);
    assert forall|i: int| 0 <= i < depth implies #[trigger] target.subrange(3 * i, 3 * i + 3)
        == "../"@ by {
        assert(steps_back(depth).subrange(3 * i, 3 * i + 3) == "../"@);
        assert(target.subrange(3 * i, 3 * i + 3) =~= steps_back(depth).subrange(3 * i, 3 * i + 3));
    }
}

proof fn lemma_back(depth: nat)
    ensures
        steps_back(depth).len() == 3 * depth,
        forall|i: int|
            0 <= i < depth ==> #[trigger] steps_back(depth).subrange(3 * i, 3 * i + 3) == "../"@,
    decreases depth,
{
    reveal_strlit("../");
    if depth > 0 {
        let before = steps_back((depth - 1) as nat);
        lemma_back((depth - 1) as nat);
        assert forall|i: int| 0 <= i < depth implies #[trigger] steps_back(depth).subrange(
            3 * i,
            3 * i + 3,
        ) == "../"@ by {
            if i < depth - 1 {
                assert(before.subrange(3 * i, 3 * i + 3) == "../"@);
                assert(steps_back(depth).subrange(3 * i, 3 * i + 3) =~= before.subrange(
                    3 * i,
                    3 * i + 3,
                ));
            } else {
                assert(steps_back(depth).subrange(3 * i, 3 * i + 3) =~= "../"@);
            }
        }
    }
}

proof fn lemma_file_item(list: Seq<FileFacts>, i: int)
    requires
        0 <= i < list.len(),
    ensures
        occurs(file_item(list[i]), file_items(list)),
    decreases list.len(),
{
    let init = list.drop_last();
    let last = file_item(list.last());
    let sign = crate::embed::comma(list.len() == 1);
    assert(file_items(list) =~= file_items(init) + sign + last);
    if i == list.len() - 1 {
        lemma_at_end(file_items(init) + sign, last);
    } else {
        lemma_file_item(init, i);
        assert(init[i] == list[i]);
        lemma_grown(file_items(init), sign + last, file_item(list[i]));
        assert(file_items(init) + sign + last =~= file_items(init) + (sign + last));
    }
}

/// A file in the inventory.
pub open spec fn file_item(file: FileFacts) -> Seq<char> {
    "{\"path\":"@ + json_quoted(file.name) + ",\"sha256\":"@ + json_quoted(digest_text(file.bytes))
        + ",\"bytes\":"@ + decimal(file.bytes.len()) + ",\"mode\":"@ + decimal(file.mode as nat)
        + "}"@
}

proof fn lemma_link_item(list: Seq<LinkFacts>, i: int)
    requires
        0 <= i < list.len(),
    ensures
        occurs(link_item(list[i]), link_items(list)),
    decreases list.len(),
{
    let init = list.drop_last();
    let last = link_item(list.last());
    let sign = crate::embed::comma(list.len() == 1);
    assert(link_items(list) =~= link_items(init) + sign + last);
    if i == list.len() - 1 {
        lemma_at_end(link_items(init) + sign, last);
    } else {
        lemma_link_item(init, i);
        assert(init[i] == list[i]);
        lemma_grown(link_items(init), sign + last, link_item(list[i]));
        assert(link_items(init) + sign + last =~= link_items(init) + (sign + last));
    }
}

/// A link in the inventory.
pub open spec fn link_item(link: LinkFacts) -> Seq<char> {
    "{\"path\":"@ + json_quoted(link.name) + ",\"target\":"@ + json_quoted(link.target)
        + ",\"target_mode\":"@ + decimal(link.mode as nat) + "}"@
}

proof fn lemma_directory_item(list: Seq<DirectoryFacts>, i: int)
    requires
        0 <= i < list.len(),
    ensures
        occurs(directory_item(list[i]), directory_items(list)),
    decreases list.len(),
{
    let init = list.drop_last();
    let last = directory_item(list.last());
    let sign = crate::embed::comma(list.len() == 1);
    assert(directory_items(list) =~= directory_items(init) + sign + last);
    if i == list.len() - 1 {
        lemma_at_end(directory_items(init) + sign, last);
    } else {
        lemma_directory_item(init, i);
        assert(init[i] == list[i]);
        lemma_grown(directory_items(init), sign + last, directory_item(list[i]));
        assert(directory_items(init) + sign + last =~= directory_items(init) + (sign + last));
    }
}

/// A directory in the inventory.
pub open spec fn directory_item(directory: DirectoryFacts) -> Seq<char> {
    "{\"path\":"@ + json_quoted(directory.name) + ",\"mode\":"@ + decimal(directory.mode as nat)
        + "}"@
}

proof fn lemma_variable_item(list: Seq<(Seq<char>, Seq<char>)>, i: int)
    requires
        0 <= i < list.len(),
    ensures
        occurs(json_quoted(list[i].0) + ":"@ + json_quoted(list[i].1), variable_items(list)),
    decreases list.len(),
{
    let init = list.drop_last();
    let v = list.last();
    let last = json_quoted(v.0) + ":"@ + json_quoted(v.1);
    let sign = crate::embed::comma(list.len() == 1);
    assert(variable_items(list) =~= variable_items(init) + sign + last);
    if i == list.len() - 1 {
        lemma_at_end(variable_items(init) + sign, last);
    } else {
        lemma_variable_item(init, i);
        assert(init[i] == list[i]);
        lemma_grown(
            variable_items(init),
            sign + last,
            json_quoted(list[i].0) + ":"@ + json_quoted(list[i].1),
        );
        assert(variable_items(init) + sign + last =~= variable_items(init) + (sign + last));
    }
}

proof fn lemma_inventory_parts(tree: Tree)
    ensures
        occurs(variable_items(tree.environment), inventory_text(tree)),
        occurs(directory_items(tree.directories), inventory_text(tree)),
        occurs(link_items(tree.links), inventory_text(tree)),
        occurs(file_items(tree.files), inventory_text(tree)),
{
    let text = inventory_text(tree);
    let s0 = "{\"schema\":\"ostadix.embedded-runtime-inventory/v1\",\"command_lookup\":\"bundle-only\",\"execution\":"@
        + (if tree.rootfs {
        "\"linux-rootfs-v1\""@
    } else {
        "\"host\""@
    }) + ",\"dynamic_closure_verified\":false,\"environment\":{"@;
    let a = variable_items(tree.environment);
    let b = directory_items(tree.directories);
    let c = link_items(tree.links);
    let d = file_items(tree.files);
    let s1 = "},\"directories\":["@;
    let s2 = "],\"symlinks\":["@;
    let s3 = "],\"files\":["@;
    let s4 = "]}"@;
    assert(text == s0 + a + s1 + b + s2 + c + s3 + d + s4);
    lemma_four(s0, a, s1, b, s2, c, s3, d, s4);
}

proof fn lemma_four(
    s0: Seq<char>,
    a: Seq<char>,
    s1: Seq<char>,
    b: Seq<char>,
    s2: Seq<char>,
    c: Seq<char>,
    s3: Seq<char>,
    d: Seq<char>,
    s4: Seq<char>,
)
    ensures
        occurs(a, s0 + a + s1 + b + s2 + c + s3 + d + s4),
        occurs(b, s0 + a + s1 + b + s2 + c + s3 + d + s4),
        occurs(c, s0 + a + s1 + b + s2 + c + s3 + d + s4),
        occurs(d, s0 + a + s1 + b + s2 + c + s3 + d + s4),
{
    let text = s0 + a + s1 + b + s2 + c + s3 + d + s4;
    assert(text =~= s0 + a + (s1 + b + s2 + c + s3 + d + s4));
    assert(text =~= (s0 + a + s1) + b + (s2 + c + s3 + d + s4));
    assert(text =~= (s0 + a + s1 + b + s2) + c + (s3 + d + s4));
    assert(text =~= (s0 + a + s1 + b + s2 + c + s3) + d + s4);
}

/// Everything that is kept of a tree stands in its inventory: each file with its
/// digest, its length and its mode, each link with its target and that one's mode,
/// each directory with its mode, and each variable with its value.
pub proof fn inventories_list_everything(tree: Tree, i: int)
    ensures
        0 <= i < tree.files.len() ==> occurs(file_item(tree.files[i]), inventory_text(tree)),
        0 <= i < tree.links.len() ==> occurs(link_item(tree.links[i]), inventory_text(tree)),
        0 <= i < tree.directories.len() ==> occurs(
            directory_item(tree.directories[i]),
            inventory_text(tree),
        ),
        0 <= i < tree.environment.len() ==> occurs(
            json_quoted(tree.environment[i].0) + ":"@ + json_quoted(tree.environment[i].1),
            inventory_text(tree),
        ),
{
    let text = inventory_text(tree);
    lemma_inventory_parts(tree);
    if 0 <= i < tree.files.len() {
        lemma_file_item(tree.files, i);
        lemma_occurs_within(file_item(tree.files[i]), file_items(tree.files), text);
    }
    if 0 <= i < tree.links.len() {
        lemma_link_item(tree.links, i);
        lemma_occurs_within(link_item(tree.links[i]), link_items(tree.links), text);
    }
    if 0 <= i < tree.directories.len() {
        lemma_directory_item(tree.directories, i);
        lemma_occurs_within(
            directory_item(tree.directories[i]),
            directory_items(tree.directories),
            text,
        );
    }
    if 0 <= i < tree.environment.len() {
        lemma_variable_item(tree.environment, i);
        lemma_occurs_within(
            json_quoted(tree.environment[i].0) + ":"@ + json_quoted(tree.environment[i].1),
            variable_items(tree.environment),
            text,
        );
    }
}

} // verus!
