//! The generated sources that hold an embedded runtime tree, and what a program
//! does with the tree when it starts.

use vstd::prelude::*;
use vstd::slice::slice_to_vec;
use vstd::utf8::encode_utf8;

use crate::bundle::{behind_bundle, digest_of, digest_text, EmbedError, EmbedFault};
use crate::gather::{
    directory_facts, file_facts, gather, gathered,
    gathered_trees_are_accepted, link_facts, BundleDirectory, BundleFile,
    BundleLink, BundleTree, DirectoryFacts, FileFacts, FoundBundle, LinkFacts, Tree,
};
use crate::launch::pair_views;
use crate::outside::{hex_encode, hex_text, json_quoted, json_string, literal_of, string_literal};
use crate::paths::{join_path, joined_path};
use crate::text::{
    chars_of, decimal, push_decimal, split_at_text, split_text, starts_with_chars, string_of, texts,
};

verus! {

/// The entry of one file, by its place in the list.
pub open spec fn file_entry(file: FileFacts, place: nat) -> Seq<char> {
    "("@ + literal_of(file.name) + ", include_bytes!("@ + literal_of("payload-"@ + decimal(place))
        + "), "@ + decimal(file.mode as nat) + ", "@ + literal_of(digest_text(file.bytes)) + "),\n"@
}

/// The entries of the files.
pub open spec fn file_entries(files: Seq<FileFacts>) -> Seq<char>
    decreases files.len(),
{
    if files.len() == 0 {
        Seq::empty()
    } else {
        file_entries(files.drop_last()) + file_entry(files.last(), (files.len() - 1) as nat)
    }
}

/// The entries of the directories.
pub open spec fn directory_entries(list: Seq<DirectoryFacts>) -> Seq<char>
    decreases list.len(),
{
    if list.len() == 0 {
        Seq::empty()
    } else {
        directory_entries(list.drop_last()) + "("@ + literal_of(list.last().name) + ", "@ + decimal(
            list.last().mode as nat,
        ) + "),\n"@
    }
}

/// The entries of the links.
pub open spec fn link_entries(list: Seq<LinkFacts>) -> Seq<char>
    decreases list.len(),
{
    if list.len() == 0 {
        Seq::empty()
    } else {
        link_entries(list.drop_last()) + "("@ + literal_of(list.last().name) + ", "@ + literal_of(
            list.last().target,
        ) + "),\n"@
    }
}

/// The entries of the variables.
pub open spec fn variable_entries(list: Seq<(Seq<char>, Seq<char>)>) -> Seq<char>
    decreases list.len(),
{
    if list.len() == 0 {
        Seq::empty()
    } else {
        variable_entries(list.drop_last()) + "("@ + literal_of(list.last().0) + ", "@ + literal_of(
            list.last().1,
        ) + "),\n"@
    }
}

/// The source that holds a tree; an image is named by the digest of its
/// inventory.
pub open spec fn data_source(tree: Tree) -> Seq<char> {
    "const FILES: &[(&str, &[u8], u32, &str)] = &[\n"@ + file_entries(tree.files)
        + "];\nconst DIRECTORIES: &[(&str, u32)] = &[\n"@ + directory_entries(tree.directories)
        + "];\nconst SYMLINKS: &[(&str, &str)] = &[\n"@ + link_entries(tree.links)
        + "];\nconst ENVIRONMENT: &[(&str, &str)] = &[\n"@ + variable_entries(tree.environment)
        + "];\nconst ROOTFS_IMAGE: Option<&str> = "@ + (if tree.rootfs {
        "Some("@ + literal_of(image_of(tree)) + ")"@
    } else {
        "None"@
    }) + ";\n"@
}

/// The name of the image that a tree makes.
pub open spec fn image_of(tree: Tree) -> Seq<char> {
    digest_text(encode_utf8(inventory_text(tree)))
}

/// Items of a list, with commas between them.
pub open spec fn comma(first: bool) -> Seq<char> {
    if first {
        ""@
    } else {
        ","@
    }
}

pub open spec fn variable_items(list: Seq<(Seq<char>, Seq<char>)>) -> Seq<char>
    decreases list.len(),
{
    if list.len() == 0 {
        Seq::empty()
    } else {
        variable_items(list.drop_last()) + comma(list.len() == 1) + json_quoted(list.last().0)
            + ":"@ + json_quoted(list.last().1)
    }
}

pub open spec fn directory_items(list: Seq<DirectoryFacts>) -> Seq<char>
    decreases list.len(),
{
    if list.len() == 0 {
        Seq::empty()
    } else {
        directory_items(list.drop_last()) + comma(list.len() == 1) + "{\"path\":"@ + json_quoted(
            list.last().name,
        ) + ",\"mode\":"@ + decimal(list.last().mode as nat) + "}"@
    }
}

pub open spec fn link_items(list: Seq<LinkFacts>) -> Seq<char>
    decreases list.len(),
{
    if list.len() == 0 {
        Seq::empty()
    } else {
        link_items(list.drop_last()) + comma(list.len() == 1) + "{\"path\":"@ + json_quoted(
            list.last().name,
        ) + ",\"target\":"@ + json_quoted(list.last().target) + ",\"target_mode\":"@ + decimal(
            list.last().mode as nat,
        ) + "}"@
    }
}

pub open spec fn file_items(list: Seq<FileFacts>) -> Seq<char>
    decreases list.len(),
{
    if list.len() == 0 {
        Seq::empty()
    } else {
        file_items(list.drop_last()) + comma(list.len() == 1) + "{\"path\":"@ + json_quoted(
            list.last().name,
        ) + ",\"sha256\":"@ + json_quoted(digest_text(list.last().bytes)) + ",\"bytes\":"@
            + decimal(list.last().bytes.len()) + ",\"mode\":"@ + decimal(list.last().mode as nat)
            + "}"@
    }
}

/// The inventory of a tree, as JSON.
pub open spec fn inventory_text(tree: Tree) -> Seq<char> {
    "{\"schema\":\"ostadix.embedded-runtime-inventory/v1\",\"command_lookup\":\"bundle-only\",\"execution\":"@
        + (if tree.rootfs {
        "\"linux-rootfs-v1\""@
    } else {
        "\"host\""@
    }) + ",\"dynamic_closure_verified\":false,\"environment\":{"@ + variable_items(
        tree.environment,
    ) + "},\"directories\":["@ + directory_items(tree.directories) + "],\"symlinks\":["@
        + link_items(tree.links) + "],\"files\":["@ + file_items(tree.files) + "]}"@
}

fn write_file_entries(files: &Vec<BundleFile>) -> (out: String)
    ensures
        out@ == file_entries(file_facts(files@)),
{
    let ghost all = file_facts(files@);
    let mut out = String::new();
    let mut i: usize = 0;
    assert(out@ =~= file_entries(all.take(0)));
    while i < files.len()
        invariant
            i <= files@.len(),
            all == file_facts(files@),
            out@ == file_entries(all.take(i as int)),
        decreases files@.len() - i,
    {
        assert(all.take(i + 1).drop_last() =~= all.take(i as int));
        assert(all.take(i + 1).last() == all[i as int]);
        assert(all[i as int] == (FileFacts {
            name: files@[i as int].name@,
            bytes: files@[i as int].bytes@,
            mode: files@[i as int].mode,
        }));
        let file = &files[i];
        let mut place = "payload-".to_owned();
        push_decimal(&mut place, i as u64);
        let mut entry = "(".to_owned();
        entry.append(string_literal(file.name.as_str()).as_str());
        entry.append(", include_bytes!(");
        entry.append(string_literal(place.as_str()).as_str());
        entry.append("), ");
        push_decimal(&mut entry, file.mode as u64);
        entry.append(", ");
        entry.append(string_literal(digest_of(file.bytes.as_slice()).as_str()).as_str());
        entry.append("),\n");
        assert(entry@ == file_entry(all[i as int], i as nat));
        out.append(entry.as_str());
        i += 1;
    }
    assert(all.take(i as int) =~= all);
    out
}

fn write_directory_entries(list: &Vec<BundleDirectory>) -> (out: String)
    ensures
        out@ == directory_entries(directory_facts(list@)),
{
    let ghost all = directory_facts(list@);
    let mut out = String::new();
    let mut i: usize = 0;
    assert(out@ =~= directory_entries(all.take(0)));
    while i < list.len()
        invariant
            i <= list@.len(),
            all == directory_facts(list@),
            out@ == directory_entries(all.take(i as int)),
        decreases list@.len() - i,
    {
        assert(all.take(i + 1).drop_last() =~= all.take(i as int));
        assert(all.take(i + 1).last() == (DirectoryFacts {
            name: list@[i as int].name@,
            mode: list@[i as int].mode,
        }));
        out.append("(");
        out.append(string_literal(list[i].name.as_str()).as_str());
        out.append(", ");
        push_decimal(&mut out, list[i].mode as u64);
        out.append("),\n");
        i += 1;
    }
    assert(all.take(i as int) =~= all);
    out
}

fn write_link_entries(list: &Vec<BundleLink>) -> (out: String)
    ensures
        out@ == link_entries(link_facts(list@)),
{
    let ghost all = link_facts(list@);
    let mut out = String::new();
    let mut i: usize = 0;
    assert(out@ =~= link_entries(all.take(0)));
    while i < list.len()
        invariant
            i <= list@.len(),
            all == link_facts(list@),
            out@ == link_entries(all.take(i as int)),
        decreases list@.len() - i,
    {
        assert(all.take(i + 1).drop_last() =~= all.take(i as int));
        assert(all.take(i + 1).last() == (LinkFacts {
            name: list@[i as int].name@,
            target: list@[i as int].target@,
            mode: list@[i as int].mode,
        }));
        out.append("(");
        out.append(string_literal(list[i].name.as_str()).as_str());
        out.append(", ");
        out.append(string_literal(list[i].target.as_str()).as_str());
        out.append("),\n");
        i += 1;
    }
    assert(all.take(i as int) =~= all);
    out
}

fn write_variable_entries(list: &Vec<(String, String)>) -> (out: String)
    ensures
        out@ == variable_entries(pair_views(list@)),
{
    let ghost all = pair_views(list@);
    let mut out = String::new();
    let mut i: usize = 0;
    assert(out@ =~= variable_entries(all.take(0)));
    while i < list.len()
        invariant
            i <= list@.len(),
            all == pair_views(list@),
            out@ == variable_entries(all.take(i as int)),
        decreases list@.len() - i,
    {
        assert(all.take(i + 1).drop_last() =~= all.take(i as int));
        assert(all.take(i + 1).last() == (list@[i as int].0@, list@[i as int].1@));
        let pair = &list[i];
        out.append("(");
        out.append(string_literal(pair.0.as_str()).as_str());
        out.append(", ");
        out.append(string_literal(pair.1.as_str()).as_str());
        out.append("),\n");
        i += 1;
    }
    assert(all.take(i as int) =~= all);
    out
}

fn comma_before(first: bool) -> (text: &'static str)
    ensures
        text@ == comma(first),
{
    if first {
        ""
    } else {
        ","
    }
}

fn write_variable_items(list: &Vec<(String, String)>) -> (out: String)
    ensures
        out@ == variable_items(pair_views(list@)),
{
    let ghost all = pair_views(list@);
    let mut out = String::new();
    let mut i: usize = 0;
    assert(out@ =~= variable_items(all.take(0)));
    while i < list.len()
        invariant
            i <= list@.len(),
            all == pair_views(list@),
            out@ == variable_items(all.take(i as int)),
        decreases list@.len() - i,
    {
        assert(all.take(i + 1).drop_last() =~= all.take(i as int));
        assert(all.take(i + 1).last() == (list@[i as int].0@, list@[i as int].1@));
        let pair = &list[i];
        out.append(comma_before(i == 0));
        out.append(json_string(pair.0.as_str()).as_str());
        out.append(":");
        out.append(json_string(pair.1.as_str()).as_str());
        i += 1;
    }
    assert(all.take(i as int) =~= all);
    out
}

fn write_directory_items(list: &Vec<BundleDirectory>) -> (out: String)
    ensures
        out@ == directory_items(directory_facts(list@)),
{
    let ghost all = directory_facts(list@);
    let mut out = String::new();
    let mut i: usize = 0;
    assert(out@ =~= directory_items(all.take(0)));
    while i < list.len()
        invariant
            i <= list@.len(),
            all == directory_facts(list@),
            out@ == directory_items(all.take(i as int)),
        decreases list@.len() - i,
    {
        assert(all.take(i + 1).drop_last() =~= all.take(i as int));
        assert(all.take(i + 1).last() == (DirectoryFacts {
            name: list@[i as int].name@,
            mode: list@[i as int].mode,
        }));
        out.append(comma_before(i == 0));
        out.append("{\"path\":");
        out.append(json_string(list[i].name.as_str()).as_str());
        out.append(",\"mode\":");
        push_decimal(&mut out, list[i].mode as u64);
        out.append("}");
        i += 1;
    }
    assert(all.take(i as int) =~= all);
    out
}

fn write_link_items(list: &Vec<BundleLink>) -> (out: String)
    ensures
        out@ == link_items(link_facts(list@)),
{
    let ghost all = link_facts(list@);
    let mut out = String::new();
    let mut i: usize = 0;
    assert(out@ =~= link_items(all.take(0)));
    while i < list.len()
        invariant
            i <= list@.len(),
            all == link_facts(list@),
            out@ == link_items(all.take(i as int)),
        decreases list@.len() - i,
    {
        assert(all.take(i + 1).drop_last() =~= all.take(i as int));
        assert(all.take(i + 1).last() == (LinkFacts {
            name: list@[i as int].name@,
            target: list@[i as int].target@,
            mode: list@[i as int].mode,
        }));
        out.append(comma_before(i == 0));
        out.append("{\"path\":");
        out.append(json_string(list[i].name.as_str()).as_str());
        out.append(",\"target\":");
        out.append(json_string(list[i].target.as_str()).as_str());
        out.append(",\"target_mode\":");
        push_decimal(&mut out, list[i].mode as u64);
        out.append("}");
        i += 1;
    }
    assert(all.take(i as int) =~= all);
    out
}

fn write_file_items(list: &Vec<BundleFile>) -> (out: String)
    ensures
        out@ == file_items(file_facts(list@)),
{
    let ghost all = file_facts(list@);
    let mut out = String::new();
    let mut i: usize = 0;
    assert(out@ =~= file_items(all.take(0)));
    while i < list.len()
        invariant
            i <= list@.len(),
            all == file_facts(list@),
            out@ == file_items(all.take(i as int)),
        decreases list@.len() - i,
    {
        assert(all.take(i + 1).drop_last() =~= all.take(i as int));
        assert(all.take(i + 1).last() == all[i as int]);
        assert(all[i as int] == (FileFacts {
            name: list@[i as int].name@,
            bytes: list@[i as int].bytes@,
            mode: list@[i as int].mode,
        }));
        out.append(comma_before(i == 0));
        out.append("{\"path\":");
        out.append(json_string(list[i].name.as_str()).as_str());
        out.append(",\"sha256\":");
        out.append(json_string(digest_of(list[i].bytes.as_slice()).as_str()).as_str());
        out.append(",\"bytes\":");
        push_decimal(&mut out, list[i].bytes.len() as u64);
        out.append(",\"mode\":");
        push_decimal(&mut out, list[i].mode as u64);
        out.append("}");
        i += 1;
    }
    assert(all.take(i as int) =~= all);
    out
}

/// The inventory of a tree, as JSON.
pub fn inventory(tree: &BundleTree) -> (out: String)
    ensures
        out@ == inventory_text(tree@),
{
    let mut out = "{\"schema\":\"ostadix.embedded-runtime-inventory/v1\",\"command_lookup\":\"bundle-only\",\"execution\":".to_owned();
    if tree.is_rootfs() {
        out.append("\"linux-rootfs-v1\"");
    } else {
        out.append("\"host\"");
    }
    out.append(",\"dynamic_closure_verified\":false,\"environment\":{");
    out.append(write_variable_items(tree.environment()).as_str());
    out.append("},\"directories\":[");
    out.append(write_directory_items(tree.directories()).as_str());
    out.append("],\"symlinks\":[");
    out.append(write_link_items(tree.links()).as_str());
    out.append("],\"files\":[");
    out.append(write_file_items(tree.files()).as_str());
    out.append("]}");
    out
}

fn data_of(tree: &BundleTree, inventory: &str) -> (out: String)
    requires
        inventory@ == inventory_text(tree@),
    ensures
        out@ == data_source(tree@),
{
    let mut image = "None".to_owned();
    if tree.is_rootfs() {
        image = "Some(".to_owned();
        image.append(string_literal(digest_of(inventory.as_bytes()).as_str()).as_str());
        image.append(")");
    }
    let mut out = "const FILES: &[(&str, &[u8], u32, &str)] = &[\n".to_owned();
    out.append(write_file_entries(tree.files()).as_str());
    out.append("];\nconst DIRECTORIES: &[(&str, u32)] = &[\n");
    out.append(write_directory_entries(tree.directories()).as_str());
    out.append("];\nconst SYMLINKS: &[(&str, &str)] = &[\n");
    out.append(write_link_entries(tree.links()).as_str());
    out.append("];\nconst ENVIRONMENT: &[(&str, &str)] = &[\n");
    out.append(write_variable_entries(tree.environment()).as_str());
    out.append("];\nconst ROOTFS_IMAGE: Option<&str> = ");
    out.append(image.as_str());
    out.append(";\n");
    out
}

/// A text with the one place replaced where another text stands; nothing, if
/// it does not stand there exactly once.
pub open spec fn replaced_once(text: Seq<char>, part: Seq<char>, by: Seq<char>) -> Option<Seq<char>> {
    let pieces = split_text(text, part);
    if pieces.len() == 2 {
        Some(pieces[0] + by + pieces[1])
    } else {
        None
    }
}

fn replace_once(text: &str, part: &str, by: &str) -> (r: Option<String>)
    requires
        part@.len() > 0,
    ensures
        crate::text::shown_as(r) == replaced_once(text@, part@, by@),
{
    let pieces = split_at_text(chars_of(text).as_slice(), chars_of(part).as_slice());
    assert(texts(pieces@).len() == pieces@.len());
    if pieces.len() != 2 {
        return None;
    }
    let mut out = string_of(pieces[0].as_slice(), 0, pieces[0].len());
    assert(texts(pieces@)[0] == pieces@[0]@ && texts(pieces@)[1] == pieces@[1]@);
    assert(out@ =~= pieces@[0]@);
    out.append(by);
    let tail = string_of(pieces[1].as_slice(), 0, pieces[1].len());
    assert(tail@ =~= pieces@[1]@);
    out.append(tail.as_str());
    Some(out)
}

/// The line that a generated program starts with.
pub const ENTRY: &'static str = "fn main() -> anyhow::Result<()> {";

/// The same line, with the way into the image as its first step.
pub const GATED_ENTRY: &'static str = "fn main() -> anyhow::Result<()> {\n    embedded_runtime::enter_rootfs_if_requested()?;";

/// The lines before which a generated program takes out the tree.
pub const SHIMS: &'static str = "    #[cfg(not(target_family = \"wasm\"))]\n    let shim_dir =";

/// The same lines, behind the step that takes out the tree.
pub const BUNDLED_SHIMS: &'static str = "    let _runtime_bundle = embedded_runtime::activate()?;\n\n    #[cfg(not(target_family = \"wasm\"))]\n    let shim_dir =";

/// Why a generated program cannot be changed.
#[derive(Clone, Copy, Debug, PartialEq, Eq, Structural)]
pub enum BootstrapProblem {
    EntryPoint,
    InsertionPoint,
}

/// A generated program that takes out the tree before it does its work, and
/// enters the image before anything else where there is one.
pub open spec fn bootstrapped(main: Seq<char>, rootfs: bool) -> Result<
    Seq<char>,
    BootstrapProblem,
> {
    let gated = if rootfs {
        replaced_once(main, ENTRY@, GATED_ENTRY@)
    } else {
        Some(main)
    };
    match gated {
        None => Err(BootstrapProblem::EntryPoint),
        Some(text) => match replaced_once(text, SHIMS@, BUNDLED_SHIMS@) {
            None => Err(BootstrapProblem::InsertionPoint),
            Some(text) => Ok("mod embedded_runtime;\n"@ + text),
        },
    }
}

/// Changes a generated program so that it takes out the tree before it does its
/// work.
pub fn install_bootstrap(main: &str, rootfs: bool) -> (r: Result<String, EmbedError>)
    ensures
        match r {
            Ok(text) => bootstrapped(main@, rootfs) == Ok::<Seq<char>, BootstrapProblem>(text@),
            Err(EmbedError::EntryPoint) => bootstrapped(main@, rootfs) == Err::<
                Seq<char>,
                BootstrapProblem,
            >(BootstrapProblem::EntryPoint),
            Err(EmbedError::InsertionPoint) => bootstrapped(main@, rootfs) == Err::<
                Seq<char>,
                BootstrapProblem,
            >(BootstrapProblem::InsertionPoint),
            Err(_) => false,
        },
{
    proof {
        reveal_strlit("fn main() -> anyhow::Result<()> {");
        reveal_strlit("    #[cfg(not(target_family = \"wasm\"))]\n    let shim_dir =");
    }
    let gated = if rootfs {
        match replace_once(main, ENTRY, GATED_ENTRY) {
            Some(text) => text,
            None => {
                return Err(EmbedError::EntryPoint);
            },
        }
    } else {
        main.to_owned()
    };
    match replace_once(gated.as_str(), SHIMS, BUNDLED_SHIMS) {
        Some(text) => Ok("mod embedded_runtime;\n".to_owned().concat(text.as_str())),
        None => Err(EmbedError::InsertionPoint),
    }
}

/// A file that a generated program includes.
#[derive(Debug)]
pub struct Payload {
    pub name: String,
    pub bytes: Vec<u8>,
}

/// The files that a generated program includes, each under its place in the
/// list.
pub open spec fn payloads_of(files: Seq<FileFacts>) -> Seq<(Seq<char>, Seq<u8>)> {
    Seq::new(files.len(), |i: int| ("payload-"@ + decimal(i as nat), files[i].bytes))
}

pub open spec fn payload_views(list: Seq<Payload>) -> Seq<(Seq<char>, Seq<u8>)> {
    list.map_values(|p: Payload| (p.name@, p.bytes@))
}

fn payloads(files: &Vec<BundleFile>) -> (out: Vec<Payload>)
    ensures
        payload_views(out@) == payloads_of(file_facts(files@)),
{
    let ghost all = payloads_of(file_facts(files@));
    let mut out: Vec<Payload> = Vec::new();
    let mut i: usize = 0;
    assert(payload_views(out@) =~= all.take(0));
    while i < files.len()
        invariant
            i <= files@.len(),
            all == payloads_of(file_facts(files@)),
            payload_views(out@) == all.take(i as int),
        decreases files@.len() - i,
    {
        let mut name = "payload-".to_owned();
        push_decimal(&mut name, i as u64);
        let ghost before = payload_views(out@);
        let ghost text = name@;
        out.push(Payload { name, bytes: slice_to_vec(files[i].bytes.as_slice()) });
        assert(all[i as int] == (text, files@[i as int].bytes@));
        assert(payload_views(out@) =~= before.push((text, files@[i as int].bytes@)));
        assert(all.take(i + 1) =~= all.take(i as int).push(all[i as int]));
        i += 1;
    }
    assert(all.take(i as int) =~= all);
    out
}

/// The sources that hold a tree.
#[derive(Debug)]
pub struct EmbeddedSources {
    pub data: String,
    pub inventory: String,
    pub main: String,
    pub payloads: Vec<Payload>,
}

/// The sources that hold a tree, their texts as sequences.
pub ghost struct Sources {
    pub data: Seq<char>,
    pub inventory: Seq<char>,
    pub main: Seq<char>,
    pub payloads: Seq<(Seq<char>, Seq<u8>)>,
}

impl View for EmbeddedSources {
    type V = Sources;

    open spec fn view(&self) -> Sources {
        Sources {
            data: self.data@,
            inventory: self.inventory@,
            main: self.main@,
            payloads: payload_views(self.payloads@),
        }
    }
}

/// The sources that a tree and a generated program make, or the first reason to
/// refuse them.
pub open spec fn embedded(found: FoundBundle, main: Seq<char>) -> Result<Sources, EmbedFault> {
    match gathered(found) {
        Err(fault) => Err(fault),
        Ok(tree) => if !tree.runs() {
            Err(EmbedFault::NoExecutable)
        } else {
            match bootstrapped(main, tree.rootfs) {
                Err(BootstrapProblem::EntryPoint) => Err(EmbedFault::EntryPoint),
                Err(BootstrapProblem::InsertionPoint) => Err(EmbedFault::InsertionPoint),
                Ok(text) => Ok(
                    Sources {
                        data: data_source(tree),
                        inventory: inventory_text(tree),
                        main: text,
                        payloads: payloads_of(tree.files),
                    },
                ),
            }
        },
    }
}

/// Embeds a tree into a generated program: what is found of the tree is checked
/// in full, and has to hold a command.
pub fn embed(found: &FoundBundle, main: &str) -> (r: Result<EmbeddedSources, EmbedError>)
    ensures
        match r {
            Ok(sources) => embedded(*found, main@) == Ok::<Sources, EmbedFault>(sources@),
            Err(error) => embedded(*found, main@) == Err::<Sources, EmbedFault>(error.fault()),
        },
        r is Ok ==> gathered(*found) is Ok && gathered(*found)->Ok_0.accepted() && gathered(
            *found,
        )->Ok_0.runs(),
{
    let tree = match gather(found) {
        Ok(tree) => tree,
        Err(error) => {
            return Err(error);
        },
    };
    proof {
        gathered_trees_are_accepted(*found);
    }
    if !tree.has_command() {
        return Err(EmbedError::NoExecutable);
    }
    let inventory = inventory(&tree);
    let data = data_of(&tree, inventory.as_str());
    let list = payloads(tree.files());
    match install_bootstrap(main, tree.is_rootfs()) {
        Ok(text) => Ok(EmbeddedSources { data, inventory, main: text, payloads: list }),
        Err(error) => Err(error),
    }
}

/// A tree that was taken out, and whether it is to be removed at the end.
#[derive(Debug)]
pub struct RuntimeBundle {
    pub root: String,
    pub owned: bool,
}

impl RuntimeBundle {
    /// The mode that a directory gets so that it can be removed.
    pub fn removal_mode(mode: u32) -> (r: u32)
        ensures
            r == mode | 0o700u32,
    {
        mode | 0o700u32
    }
}

/// What a program does with its tree when it starts.
#[derive(Clone, Copy, Debug, PartialEq, Eq, Structural)]
pub enum Activation {
    /// It runs inside the image: the top is the tree.
    InPlace,
    /// It takes out the tree to a place of its own.
    TakeOut,
}

/// What a program does with its tree when it starts. One that is to run inside
/// an image has to be there already.
pub fn activate(has_image: bool, active: bool) -> (r: Result<Activation, EmbedError>)
    ensures
        match r {
            Ok(way) => activation_of(has_image, active) == Some(way),
            Err(EmbedError::NotEntered) => activation_of(has_image, active) is None,
            Err(_) => false,
        },
{
    if has_image {
        if !active {
            return Err(EmbedError::NotEntered);
        }
        return Ok(Activation::InPlace);
    }
    Ok(Activation::TakeOut)
}

/// What comes before anything else in a program.
#[derive(Clone, Copy, Debug, PartialEq, Eq, Structural)]
pub enum Gate {
    /// Nothing: there is no image.
    Open,
    /// The image has been entered: its environment is set.
    Inside,
    /// The tree is taken out, and the program started inside it.
    Enter,
}

/// What comes before anything else in a program.
pub open spec fn gate_of(has_image: bool, active: bool) -> Gate {
    if !has_image {
        Gate::Open
    } else if active {
        Gate::Inside
    } else {
        Gate::Enter
    }
}

/// What comes before anything else in a program.
pub fn enter_rootfs_if_requested(has_image: bool, active: bool) -> (gate: Gate)
    ensures
        gate == gate_of(has_image, active),
{
    if !has_image {
        Gate::Open
    } else if active {
        Gate::Inside
    } else {
        Gate::Enter
    }
}

/// How a program starts with its tree; nothing, where it may not start.
pub open spec fn activation_of(has_image: bool, active: bool) -> Option<Activation> {
    if has_image {
        if active {
            Some(Activation::InPlace)
        } else {
            None
        }
    } else {
        Some(Activation::TakeOut)
    }
}

/// A program that is not sent into its image first may start with its tree, and
/// one that may not start is sent there.
pub proof fn entering_precedes_activation(has_image: bool, active: bool)
    ensures
        gate_of(has_image, active) is Enter <==> activation_of(has_image, active) is None,
{
}

/// A step of taking out a tree; entries are named by their place in the tree's
/// lists.
#[derive(Clone, Copy, Debug, PartialEq, Eq, Structural)]
pub enum TakeOutStep {
    MakeDirectory(usize),
    WriteFile(usize),
    MakeLink(usize),
    SetMode(usize),
}

/// The steps of taking out a tree.
pub open spec fn take_out(directories: nat, files: nat, links: nat) -> Seq<TakeOutStep> {
    Seq::new(directories, |i: int| TakeOutStep::MakeDirectory(i as usize)) + Seq::new(
        files,
        |i: int| TakeOutStep::WriteFile(i as usize),
    ) + Seq::new(links, |i: int| TakeOutStep::MakeLink(i as usize)) + Seq::new(
        directories,
        |i: int| TakeOutStep::SetMode((directories - 1 - i) as usize),
    )
}

/// The steps of taking out a tree: directories get their modes last, and those
/// that were found later get them first, so that no mode stands in the way.
pub fn take_out_steps(directories: usize, files: usize, links: usize) -> (out: Vec<TakeOutStep>)
    ensures
        out@ == take_out(directories as nat, files as nat, links as nat),
{
    let mut out: Vec<TakeOutStep> = Vec::new();
    let ghost first = Seq::new(
        directories as nat,
        |i: int| TakeOutStep::MakeDirectory(i as usize),
    );
    let ghost second = Seq::new(files as nat, |i: int| TakeOutStep::WriteFile(i as usize));
    let ghost third = Seq::new(links as nat, |i: int| TakeOutStep::MakeLink(i as usize));
    let ghost fourth = Seq::new(
        directories as nat,
        |i: int| TakeOutStep::SetMode((directories - 1 - i) as usize),
    );
    let mut i: usize = 0;
    while i < directories
        invariant
            i <= directories,
            first == Seq::new(
                directories as nat,
                |i: int| TakeOutStep::MakeDirectory(i as usize),
            ),
            out@ =~= first.take(i as int),
        decreases directories - i,
    {
        out.push(TakeOutStep::MakeDirectory(i));
        i += 1;
    }
    let mut j: usize = 0;
    while j < files
        invariant
            j <= files,
            second == Seq::new(files as nat, |i: int| TakeOutStep::WriteFile(i as usize)),
            out@ =~= first + second.take(j as int),
        decreases files - j,
    {
        out.push(TakeOutStep::WriteFile(j));
        j += 1;
    }
    let mut k: usize = 0;
    while k < links
        invariant
            k <= links,
            third == Seq::new(links as nat, |i: int| TakeOutStep::MakeLink(i as usize)),
            out@ =~= first + second + third.take(k as int),
        decreases links - k,
    {
        out.push(TakeOutStep::MakeLink(k));
        k += 1;
    }
    let mut n: usize = directories;
    while n > 0
        invariant
            n <= directories,
            fourth == Seq::new(
                directories as nat,
                |i: int| TakeOutStep::SetMode((directories - 1 - i) as usize),
            ),
            out@ =~= first + second + third + fourth.take(directories - n),
        decreases n,
    {
        n -= 1;
        out.push(TakeOutStep::SetMode(n));
    }
    assert(out@ =~= take_out(directories as nat, files as nat, links as nat));
    out
}

/// When a directory gets its mode, everything has been written, and every
/// directory that was found after it has its mode already.
pub proof fn modes_are_set_last(directories: nat, files: nat, links: nat, i: int)
    requires
        directories <= usize::MAX,
        0 <= i < take_out(directories, files, links).len(),
        take_out(directories, files, links)[i] is SetMode,
    ensures
        directories + files + links <= i,
        forall|j: int|
            i < j < take_out(directories, files, links).len() ==> {
                &&& (#[trigger] take_out(directories, files, links)[j]) is SetMode
                &&& take_out(directories, files, links)[j]->SetMode_0 < take_out(
                    directories,
                    files,
                    links,
                )[i]->SetMode_0
            },
{
}

/// The name of the directory that a tree is taken out to.
pub open spec fn directory_name(process: u32, random: Seq<u8>) -> Seq<char> {
    "ostadix-runtime-"@ + decimal(process as nat) + "-"@ + hex_text(random)
}

/// The name of the directory that a tree is taken out to.
pub fn runtime_directory(process: u32, random: &[u8]) -> (out: String)
    ensures
        out@ == directory_name(process, random@),
{
    let mut out = "ostadix-runtime-".to_owned();
    push_decimal(&mut out, process as u64);
    out.append("-");
    out.append(hex_encode(random).as_str());
    out
}

/// A new name for the directory that a tree is taken out to.
pub fn fresh_runtime_directory(process: u32) -> (r: Result<String, EmbedError>)
    ensures
        match r {
            Ok(name) => exists|random: Seq<u8>|
                random.len() == 16 && name@ == #[trigger] directory_name(process, random),
            Err(error) => error is NoEntropy,
        },
{
    match crate::outside::random_bytes(16) {
        Ok(bytes) => {
            let out = runtime_directory(process, bytes.as_slice());
            assert(out@ == directory_name(process, bytes@));
            Ok(out)
        },
        Err(_) => Err(EmbedError::NoEntropy),
    }
}

/// Whether a file still is what was embedded.
pub fn check_file(name: &str, bytes: &[u8], expected: &str) -> (r: Result<(), EmbedError>)
    ensures
        match r {
            Ok(_) => digest_text(bytes@) == expected@,
            Err(EmbedError::Digest(n)) => digest_text(bytes@) != expected@ && n@ == name@,
            Err(_) => false,
        },
{
    if *digest_of(bytes).as_str() != *expected {
        return Err(EmbedError::Digest(name.to_owned()));
    }
    Ok(())
}

/// The variables that a tree sets, for its place; nothing, where a value does
/// not start with the place of the tree.
pub open spec fn placed_environment(root: Seq<char>, list: Seq<(Seq<char>, Seq<char>)>) -> Option<
    Seq<(Seq<char>, Seq<char>)>,
>
    decreases list.len(),
{
    if list.len() == 0 {
        Some(seq![("PATH"@, joined_path(root, "bin"@))])
    } else {
        match (placed_environment(root, list.drop_last()), behind_bundle(list.last().1)) {
            (Some(before), Some(suffix)) => Some(
                before.push((list.last().0, joined_path(root, suffix))),
            ),
            _ => None,
        }
    }
}

proof fn lemma_placed_fails(root: Seq<char>, list: Seq<(Seq<char>, Seq<char>)>, i: int)
    requires
        0 <= i <= list.len(),
        placed_environment(root, list.take(i)) is None,
    ensures
        placed_environment(root, list) is None,
    decreases list.len(),
{
    if i == list.len() {
        assert(list.take(i) =~= list);
    } else {
        assert(list.drop_last().take(i) =~= list.take(i));
        lemma_placed_fails(root, list.drop_last(), i);
    }
}

/// The variables that a tree sets, for its place: commands are looked for in
/// the tree alone.
pub fn apply_environment(root: &str, list: &[(String, String)]) -> (r: Result<
    Vec<(String, String)>,
    EmbedError,
>)
    ensures
        match r {
            Ok(out) => placed_environment(root@, pair_views(list@)) == Some(pair_views(out@)),
            Err(EmbedError::Template) => placed_environment(root@, pair_views(list@)) is None,
            Err(_) => false,
        },
{
    let ghost all = pair_views(list@);
    let mut out: Vec<(String, String)> = vec![("PATH".to_owned(), join_path(root, "bin"))];
    assert(pair_views(out@) =~= seq![("PATH"@, joined_path(root@, "bin"@))]);
    assert(all.take(0).len() == 0);
    let prefix = chars_of("${BUNDLE}/");
    let mut i: usize = 0;
    while i < list.len()
        invariant
            all == pair_views(list@),
            prefix@ == "${BUNDLE}/"@,
            i <= list@.len(),
            placed_environment(root@, all.take(i as int)) == Some(pair_views(out@)),
        decreases list@.len() - i,
    {
        let pair = &list[i];
        assert(all[i as int] == (pair.0@, pair.1@));
        assert(all.take(i + 1).drop_last() =~= all.take(i as int));
        assert(all.take(i + 1).last() == all[i as int]);
        let value = chars_of(pair.1.as_str());
        if !starts_with_chars(value.as_slice(), prefix.as_slice()) {
            proof {
                lemma_placed_fails(root@, all, i + 1);
            }
            return Err(EmbedError::Template);
        }
        let suffix = string_of(value.as_slice(), prefix.len(), value.len());
        assert(suffix@ =~= value@.skip(prefix@.len() as int));
        let ghost before = pair_views(out@);
        out.push((pair.0.clone(), join_path(root, suffix.as_str())));
        assert(pair_views(out@) =~= before.push((pair.0@, joined_path(root@, suffix@))));
        i += 1;
    }
    assert(all.take(i as int) =~= all);
    Ok(out)
}

} // verus!
