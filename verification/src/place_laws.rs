//! What holds of places: paths that are put together, trees that are taken out, names
//! that are made of others, and environments that are asked for.

use vstd::prelude::*;

use crate::codegen::{name_char, program_name, sanitized};
use crate::embed::{activation_of, directory_name, gate_of, take_out, Activation, Gate, TakeOutStep};
use crate::environment::EnvironmentRefV2;
use crate::gather::{command, kept_mode, last_of_each, FoundVariable};
use crate::link_laws::{dotless, ending, files_are_named_by_their_stem};
use crate::paths::{anchor_of, joined_path, names, seen_from};
use crate::session::plain_pointer;
use crate::text::{decimal, starts_with};

verus! {

/// A path taken from a directory stands behind it, with one slash between them; one
/// that starts at the top stays as it is.
pub proof fn paths_stand_behind_their_directory(root: Seq<char>, rest: Seq<char>)
    requires
        rest.len() > 0 ==> rest[0] != '/',
    ensures
        joined_path(root, "/"@ + rest) == "/"@ + rest,
        root.len() > 0 && root.last() != '/' ==> joined_path(root, rest) == root + "/"@ + rest,
        joined_path(root + "/"@, rest) == root + "/"@ + rest,
        joined_path(""@, rest) == rest,
        seen_from("/"@ + rest, root) == "/"@ + rest,
        seen_from(rest, root) == root + "/"@ + rest,
{
    reveal_strlit("/");
    reveal_strlit("");
    assert("/"@ =~= seq!['/']);
    assert(("/"@ + rest)[0] == '/');
    assert((root + "/"@).last() == '/');
}

/// A directory gives itself, and a file the directory that it lies in.
pub proof fn files_give_their_directory(path: Seq<char>)
    ensures
        anchor_of(path, true) == seq![names(path)],
        names(path).len() > 0 ==> anchor_of(path, false).len() == 1 && anchor_of(
            path,
            false,
        )[0].push(names(path).last()) == names(path),
        names(path).len() == 0 ==> anchor_of(path, false).len() == 0,
{
    if names(path).len() > 0 {
        assert(names(path).drop_last().push(names(path).last()) =~= names(path));
    }
}

/// A program goes by the name of its source: what may stand in a name is kept, all
/// else becomes an underscore, and one stands before a digit at the start.
pub proof fn programs_go_by_their_sources_name(p: Seq<char>, m: Seq<char>, e: Seq<char>)
    requires
        p.len() > 0 ==> p.last() == '/',
        dotless(m),
        e.len() == 0 || ending(e),
    ensures
        sanitized(m).len() == m.len(),
        forall|i: int|
            0 <= i < m.len() ==> #[trigger] sanitized(m)[i] == if name_char(m[i]) {
                m[i]
            } else {
                '_'
            },
        !('0' <= m[0] <= '9') ==> program_name(p + m + e) == sanitized(m),
        '0' <= m[0] <= '9' ==> program_name(p + m + e) == "_"@ + sanitized(m),
{
    files_are_named_by_their_stem(p, m, e);
}

/// A character may stand in a name exactly where it is a letter or a digit that
/// everyone knows, a dash or an underscore.
pub proof fn names_are_plain(c: char)
    ensures
        name_char(c) <==> 'a' <= c <= 'z' || 'A' <= c <= 'Z' || '0' <= c <= '9' || c == '-' || c
            == '_',
{
}

/// Every directory, every file and every link of a tree is taken out, and every
/// directory gets its mode.
pub proof fn trees_are_taken_out_whole(directories: nat, files: nat, links: nat, k: int)
    requires
        directories <= usize::MAX,
        files <= usize::MAX,
        links <= usize::MAX,
        0 <= k,
    ensures
        take_out(directories, files, links).len() == 2 * directories + files + links,
        k < directories ==> take_out(directories, files, links).contains(
            TakeOutStep::MakeDirectory(k as usize),
        ),
        k < files ==> take_out(directories, files, links).contains(
            TakeOutStep::WriteFile(k as usize),
        ),
        k < links ==> take_out(directories, files, links).contains(TakeOutStep::MakeLink(k as usize)),
        k < directories ==> take_out(directories, files, links).contains(
            TakeOutStep::SetMode(k as usize),
        ),
        k < directories ==> take_out(directories, files, links)[k] == TakeOutStep::MakeDirectory(
            k as usize,
        ),
{
    let list = take_out(directories, files, links);
    if k < directories {
        assert(list[k] == TakeOutStep::MakeDirectory(k as usize));
        assert(list[directories + files + links + (directories - 1 - k)] == TakeOutStep::SetMode(
            k as usize,
        ));
    }
    if k < files {
        assert(list[directories + k] == TakeOutStep::WriteFile(k as usize));
    }
    if k < links {
        assert(list[directories + files + k] == TakeOutStep::MakeLink(k as usize));
    }
}

/// A program with an image of its own starts nowhere but inside it, and takes nothing
/// out there; one without takes its tree out.
pub proof fn images_are_entered_first(active: bool)
    ensures
        gate_of(false, active) == Gate::Open,
        gate_of(true, true) == Gate::Inside,
        gate_of(true, false) == Gate::Enter,
        activation_of(false, active) == Some(Activation::TakeOut),
        activation_of(true, true) == Some(Activation::InPlace),
        activation_of(true, false) is None,
{
}

/// The directory that a tree is taken out to is named after the process and after
/// what chance gave.
pub proof fn taken_out_trees_are_told_apart(process: u32, random: Seq<u8>)
    ensures
        starts_with(
            directory_name(process, random),
            "ostadix-runtime-"@ + decimal(process as nat) + "-"@,
        ),
        directory_name(process, random).skip(
            ("ostadix-runtime-"@ + decimal(process as nat) + "-"@).len() as int,
        ) == crate::outside::hex_text(random),
{
    let head = "ostadix-runtime-"@ + decimal(process as nat) + "-"@;
    let name = directory_name(process, random);
    assert(name.take(head.len() as int) =~= head);
    assert(name.skip(head.len() as int) =~= crate::outside::hex_text(random));
}

/// Of a mode the permissions are kept, and nothing else.
pub proof fn permissions_are_kept(mode: u32)
    ensures
        kept_mode(mode) <= 0o777,
        mode <= 0o777 ==> kept_mode(mode) == mode,
        kept_mode(kept_mode(mode)) == kept_mode(mode),
{
    assert(mode & 0o777u32 <= 0o777) by (bit_vector);
    assert(mode <= 0o777 ==> mode & 0o777u32 == mode) by (bit_vector);
    assert((mode & 0o777u32) & 0o777u32 == mode & 0o777u32) by (bit_vector);
}

/// An entry is a command exactly where it lies in the directory of commands and
/// someone may run it.
pub proof fn commands_can_be_run(name: Seq<char>)
    ensures
        command("bin/"@ + name, 0o755),
        command("bin/"@ + name, 0o100),
        command("bin/"@ + name, 0o010),
        command("bin/"@ + name, 0o001),
        !command("bin/"@ + name, 0o644),
        !command("bin/"@ + name, 0o666),
        !command("lib/"@ + name, 0o755),
{
    reveal_strlit("bin/");
    reveal_strlit("lib/");
    let inside = "bin/"@ + name;
    let outside = "lib/"@ + name;
    assert(inside.take(4) =~= "bin/"@);
    assert(outside.take(4)[0] == 'l');
    assert(0o755u32 & 0o111u32 != 0) by (bit_vector);
    assert(0o100u32 & 0o111u32 != 0) by (bit_vector);
    assert(0o010u32 & 0o111u32 != 0) by (bit_vector);
    assert(0o001u32 & 0o111u32 != 0) by (bit_vector);
    assert(0o644u32 & 0o111u32 == 0) by (bit_vector);
    assert(0o666u32 & 0o111u32 == 0) by (bit_vector);
}

/// A block that is marked with a number asks for the environment of that number, one
/// that is marked with a star for one of its own, and one without a mark for none
/// that lasts; and so they are called.
pub proof fn environments_are_marked(id: u32)
    ensures
        EnvironmentRefV2::Persistent(id).marker() == Some("["@ + decimal(id as nat) + "]"@),
        EnvironmentRefV2::LinkerIsolated.marker() == Some("[*]"@),
        EnvironmentRefV2::Ephemeral.marker() is None,
        EnvironmentRefV2::Persistent(id).text() == "persistent:"@ + decimal(id as nat),
        EnvironmentRefV2::LinkerIsolated.text() == "linker-isolated"@,
        EnvironmentRefV2::Ephemeral.text() == "ephemeral"@,
        EnvironmentRefV2::Persistent(id).fresh() <==> false,
        EnvironmentRefV2::LinkerIsolated.fresh(),
        EnvironmentRefV2::Ephemeral.fresh(),
{
}

/// A pointer names one entry of a directory: nothing with a slash or a backslash in
/// it, and nothing that leads nowhere or back.
pub proof fn pointers_name_one_entry(name: Seq<char>, rest: Seq<char>)
    ensures
        !plain_pointer(name + "/"@ + rest),
        !plain_pointer(name + "\\"@ + rest),
        !plain_pointer(""@),
        !plain_pointer("."@),
        !plain_pointer(".."@),
        name.len() > 0 && (forall|i: int|
            0 <= i < name.len() ==> #[trigger] name[i] != '/' && name[i] != '\\' && name[i] != '.')
            ==> plain_pointer(name),
{
    reveal_strlit("/");
    reveal_strlit("\\");
    reveal_strlit("");
    reveal_strlit(".");
    reveal_strlit("..");
    let at = name.len() as int;
    assert((name + "/"@ + rest)[at] == '/');
    assert((name + "\\"@ + rest)[at] == '\\');
    if name.len() > 0 && (forall|i: int|
        0 <= i < name.len() ==> #[trigger] name[i] != '/' && name[i] != '\\' && name[i] != '.') {
        assert(name[0] != '.');
        if name.contains('/') {
            let k = choose|k: int| 0 <= k < name.len() && name[k] == '/';
            assert(name[k] != '/');
        }
        if name.contains('\\') {
            let k = choose|k: int| 0 <= k < name.len() && name[k] == '\\';
            assert(name[k] != '\\');
        }
    }
}

/// Of variables that follow each other under one key, the last one counts; one under
/// another key is added.
pub proof fn the_last_variable_of_a_key_counts(list: Seq<FoundVariable>, v: FoundVariable)
    ensures
        last_of_each(list.push(v)).len() > 0,
        last_of_each(list.push(v)).last() == v,
        last_of_each(list).len() > 0 && last_of_each(list).last().key@ == v.key@ ==> last_of_each(
            list.push(v),
        ) == last_of_each(list).drop_last().push(v),
        last_of_each(list).len() == 0 || last_of_each(list).last().key@ != v.key@ ==> last_of_each(
            list.push(v),
        ) == last_of_each(list).push(v),
        last_of_each(Seq::empty()).len() == 0,
{
    assert(list.push(v).drop_last() =~= list);
}

} // verus!
