//! The packages that programs and projects are compiled to.

use vstd::prelude::*;
use vstd::slice::slice_to_vec;

use crate::codegen_text::{
    LIB_0, LIB_1, MAIN_0, MAIN_1, MAIN_2, MAIN_3, MAIN_4, MAIN_5, MAIN_6, MAIN_7, MAIN_8, MANIFEST_0,
    MANIFEST_1, MANIFEST_2, MANIFEST_3, MANIFEST_4, MANIFEST_5, MANIFEST_6, MANIFEST_7,
    PROJECT_MAIN_0, PROJECT_MAIN_1, PROJECT_MAIN_2, PROJECT_MAIN_3, PROJECT_MAIN_4, PROJECT_MAIN_5,
    PROJECT_MAIN_6,
};
use crate::files::stem;
use crate::outside::{literal_of, string_literal};
use crate::paths::{join_path, joined_path};
use crate::text::{chars_of, join, joined, replace_text, replaced, views};

verus! {

/// The name of every generated package.
pub const GENERATED_PACKAGE_NAME: &'static str = "ostadix-generated-runtime";

/// The version of every generated package.
pub const GENERATED_PACKAGE_VERSION: &'static str = "0.1.0";

/// The name of a generated library, which is no dependency's.
pub open spec fn library_name(bin_name: Seq<char>) -> Seq<char> {
    "ostadix_generated_"@ + replaced(bin_name, "-"@, "_"@)
}

/// The name of a generated library, which is no dependency's.
pub fn generated_lib_name(bin_name: &str) -> (out: String)
    ensures
        out@ == library_name(bin_name@),
{
    "ostadix_generated_".to_owned().concat(replace_text(bin_name, "-", "_").as_str())
}

/// The line by which a shim is built into a program.
pub open spec fn shim_line(name: Seq<char>) -> Seq<char> {
    "    ("@ + literal_of(name) + ", include_bytes!("@ + literal_of("shims/"@ + name) + ")),"@
}

/// The line by which a shim is built into a program.
pub fn shim_entry(name: &str) -> (out: String)
    ensures
        out@ == shim_line(name@),
{
    let path = "shims/".to_owned().concat(name);
    let mut out = "    (".to_owned();
    out.append(string_literal(name).as_str());
    out.append(", include_bytes!(");
    out.append(string_literal(path.as_str()).as_str());
    out.append(")),");
    out
}

/// The lines by which shims are built into a program.
pub open spec fn shim_entries(lines: Seq<Seq<char>>) -> Seq<char> {
    if lines.len() == 0 {
        "    // no shims bundled"@
    } else {
        joined(lines, "\n"@)
    }
}

fn write_shim_entries(lines: &[String]) -> (out: String)
    ensures
        out@ == shim_entries(views(lines@)),
{
    assert(views(lines@).len() == lines@.len());
    if lines.len() == 0 {
        "    // no shims bundled".to_owned()
    } else {
        join(lines, "\n")
    }
}

/// The program of a compiled project.
pub open spec fn project_main(library: Seq<char>, shims: Seq<char>) -> Seq<char> {
    PROJECT_MAIN_0@ + library + PROJECT_MAIN_1@ + library + PROJECT_MAIN_2@ + library
        + PROJECT_MAIN_3@ + shims + PROJECT_MAIN_4@ + library + PROJECT_MAIN_5@ + library
        + PROJECT_MAIN_6@
}

/// The program of a compiled project.
pub fn generate_project_main_rs(bin_name: &str, shim_include_lines: &[String]) -> (out: String)
    ensures
        out@ == project_main(
            library_name(bin_name@),
            shim_entries(views(shim_include_lines@)),
        ),
{
    let library = generated_lib_name(bin_name);
    let shims = write_shim_entries(shim_include_lines);
    let mut out = PROJECT_MAIN_0.to_owned();
    out.append(library.as_str());
    out.append(PROJECT_MAIN_1);
    out.append(library.as_str());
    out.append(PROJECT_MAIN_2);
    out.append(library.as_str());
    out.append(PROJECT_MAIN_3);
    out.append(shims.as_str());
    out.append(PROJECT_MAIN_4);
    out.append(library.as_str());
    out.append(PROJECT_MAIN_5);
    out.append(library.as_str());
    out.append(PROJECT_MAIN_6);
    out
}

/// The lines of the grants.
pub open spec fn grant_lines(grants: Seq<Seq<char>>) -> Seq<Seq<char>> {
    grants.map_values(|grant: Seq<char>| "    "@ + literal_of(grant) + ","@)
}

fn write_grant_lines(grants: &[String]) -> (out: Vec<String>)
    ensures
        views(out@) == grant_lines(views(grants@)),
{
    let ghost expected = grant_lines(views(grants@));
    let mut out: Vec<String> = Vec::new();
    let mut i: usize = 0;
    assert(views(out@) =~= expected.take(0));
    while i < grants.len()
        invariant
            i <= grants@.len(),
            expected == grant_lines(views(grants@)),
            views(out@) == expected.take(i as int),
        decreases grants@.len() - i,
    {
        let mut line = "    ".to_owned();
        line.append(string_literal(grants[i].as_str()).as_str());
        line.append(",");
        let ghost before = views(out@);
        assert(expected[i as int] == "    "@ + literal_of(grants@[i as int]@) + ","@);
        assert(line@ == expected[i as int]);
        out.push(line);
        assert(views(out@) =~= before.push(expected[i as int]));
        assert(before.push(expected[i as int]) =~= expected.take(i + 1));
        i += 1;
    }
    assert(expected.take(i as int) =~= expected);
    out
}

/// The program of a compiled source.
pub open spec fn source_main(
    library: Seq<char>,
    source_name: Seq<char>,
    grants: Seq<char>,
    shims: Seq<char>,
) -> Seq<char> {
    MAIN_0@ + library + MAIN_1@ + library + MAIN_2@ + library + MAIN_3@ + source_name + MAIN_4@
        + grants + MAIN_5@ + shims + MAIN_6@ + library + MAIN_7@ + library + MAIN_8@
}

/// The program of a compiled source, from the name of the source and the grants
/// as they are to stand in it.
pub fn main_text(library: &str, source_name: &str, grants: &str, shims: &str) -> (out: String)
    ensures
        out@ == source_main(library@, source_name@, grants@, shims@),
{
    let mut out = MAIN_0.to_owned();
    out.append(library);
    out.append(MAIN_1);
    out.append(library);
    out.append(MAIN_2);
    out.append(library);
    out.append(MAIN_3);
    out.append(source_name);
    out.append(MAIN_4);
    out.append(grants);
    out.append(MAIN_5);
    out.append(shims);
    out.append(MAIN_6);
    out.append(library);
    out.append(MAIN_7);
    out.append(library);
    out.append(MAIN_8);
    out
}

/// The program of a compiled source.
pub fn generate_main_rs(
    bin_name: &str,
    program_filename: &str,
    shim_include_lines: &[String],
    backend_grants: &[String],
) -> (out: String)
    ensures
        out@ == source_main(
            library_name(bin_name@),
            literal_of(program_filename@),
            joined(grant_lines(views(backend_grants@)), "\n"@),
            shim_entries(views(shim_include_lines@)),
        ),
{
    let grants = write_grant_lines(backend_grants);
    main_text(
        generated_lib_name(bin_name).as_str(),
        string_literal(program_filename).as_str(),
        join(grants.as_slice(), "\n").as_str(),
        write_shim_entries(shim_include_lines).as_str(),
    )
}

/// The library of a generated package.
pub open spec fn library_source(project: bool) -> Seq<char> {
    LIB_0@ + (if project {
        "pub mod project;\n"@
    } else {
        ""@
    }) + LIB_1@
}

/// The library of a generated package.
pub fn generate_lib_rs(include_project: bool) -> (out: String)
    ensures
        out@ == library_source(include_project),
{
    let mut out = LIB_0.to_owned();
    if include_project {
        out.append("pub mod project;\n");
    } else {
        out.append("");
    }
    out.append(LIB_1);
    out
}

/// The manifest of a generated package.
pub open spec fn manifest_text(
    bin_name: Seq<char>,
    project: bool,
    rust_version: Seq<char>,
    license: Seq<char>,
) -> Seq<char> {
    MANIFEST_0@ + GENERATED_PACKAGE_NAME@ + MANIFEST_1@ + GENERATED_PACKAGE_VERSION@ + MANIFEST_2@
        + rust_version + MANIFEST_3@ + license + MANIFEST_4@ + library_name(bin_name) + MANIFEST_5@
        + bin_name + MANIFEST_6@ + (if project {
        "ignore     = \"0.4\"\n"@
    } else {
        ""@
    }) + MANIFEST_7@
}

/// The manifest of a generated package: it is never published, and does not
/// put what it embeds under another license.
pub fn generate_cargo_toml(bin_name: &str, include_project: bool, rust_version: &str, license: &str)
    -> (out: String)
    ensures
        out@ == manifest_text(bin_name@, include_project, rust_version@, license@),
{
    let mut out = MANIFEST_0.to_owned();
    out.append(GENERATED_PACKAGE_NAME);
    out.append(MANIFEST_1);
    out.append(GENERATED_PACKAGE_VERSION);
    out.append(MANIFEST_2);
    out.append(rust_version);
    out.append(MANIFEST_3);
    out.append(license);
    out.append(MANIFEST_4);
    out.append(generated_lib_name(bin_name).as_str());
    out.append(MANIFEST_5);
    out.append(bin_name);
    out.append(MANIFEST_6);
    if include_project {
        out.append("ignore     = \"0.4\"\n");
    } else {
        out.append("");
    }
    out.append(MANIFEST_7);
    out
}

/// Whether a character may stand in the name of a program.
pub open spec fn name_char(c: char) -> bool {
    ('a' <= c && c <= 'z') || ('A' <= c && c <= 'Z') || ('0' <= c && c <= '9') || c == '-' || c
        == '_'
}

/// A text in which every other character became an underscore.
pub open spec fn sanitized(s: Seq<char>) -> Seq<char> {
    s.map_values(
        |c: char|
            if name_char(c) {
                c
            } else {
                '_'
            },
    )
}

/// The name of a program, by the last name of its path without its extension.
pub open spec fn program_name(path: Seq<char>) -> Seq<char> {
    let clean = sanitized(stem(path));
    if clean.len() == 0 {
        "program"@
    } else if '0' <= clean[0] && clean[0] <= '9' {
        "_"@ + clean
    } else {
        clean
    }
}

fn clean_name(name: &[char]) -> (text: String)
    ensures
        text@ == sanitized(name@),
{
    let ghost clean = sanitized(name@);
    let mut text = String::new();
    let mut i: usize = 0;
    assert(text@ =~= clean.take(0));
    while i < name.len()
        invariant
            i <= name@.len(),
            clean == sanitized(name@),
            text@ == clean.take(i as int),
        decreases name@.len() - i,
    {
        let c: char = name[i];
        let kept: char = if ('a' <= c && c <= 'z') || ('A' <= c && c <= 'Z') || ('0' <= c && c
            <= '9') || c == '-' || c == '_' {
            c
        } else {
            '_'
        };
        text.push(kept);
        assert(text@ =~= clean.take(i + 1));
        i += 1;
    }
    assert(clean.take(i as int) =~= clean);
    text
}

/// The name of a program, by the path that it is written to.
pub fn derive_bin_name(output: &str) -> (out: String)
    ensures
        out@ == program_name(output@),
{
    let name = crate::files::stem_of(chars_of(output).as_slice());
    let text = clean_name(name.as_slice());
    if name.len() == 0 {
        return "program".to_owned();
    }
    let first: char = name[0];
    assert(text@[0] == (if name_char(first) {
        first
    } else {
        '_'
    }));
    if '0' <= first && first <= '9' {
        "_".to_owned().concat(text.as_str())
    } else {
        text
    }
}

/// A program always has a name that a package manager takes: it is not empty,
/// does not start with a digit, and holds letters, digits, hyphens and
/// underscores alone.
pub proof fn program_names_are_acceptable(path: Seq<char>)
    ensures
        program_name(path).len() > 0,
        !('0' <= program_name(path)[0] && program_name(path)[0] <= '9'),
        forall|i: int| 0 <= i < program_name(path).len() ==> name_char(#[trigger] program_name(path)[i]),
{
    reveal_strlit("_");
    reveal_strlit("program");
    let name = program_name(path);
    let clean = sanitized(stem(path));
    assert forall|i: int| 0 <= i < clean.len() implies name_char(#[trigger] clean[i]) by {}
    if clean.len() > 0 && '0' <= clean[0] && clean[0] <= '9' {
        assert(name[0] == '_');
        assert forall|i: int| 0 <= i < name.len() implies name_char(#[trigger] name[i]) by {
            if i > 0 {
                assert(name[i] == clean[i - 1]);
            }
        }
    }
}

/// The name under which a source is kept in a generated package, whatever its
/// own name is.
pub fn sanitize_program_filename(_input_path: &str) -> (out: String)
    ensures
        out@ == "program.O"@,
{
    "program.O".to_owned()
}

/// Where a package's program is built; it has an ending of its own on some
/// systems.
pub fn built_binary_path(build_dir: &str, bin_name: &str, is_wasm: bool, suffix: &str) -> (out:
    String)
    ensures
        out@ == (if is_wasm {
            joined_path(
                joined_path(build_dir@, "target/wasm32-wasip1/release"@),
                bin_name@ + ".wasm"@,
            )
        } else {
            joined_path(joined_path(build_dir@, "target/release"@), bin_name@ + suffix@)
        }),
{
    if is_wasm {
        let dir = join_path(build_dir, "target/wasm32-wasip1/release");
        join_path(dir.as_str(), bin_name.to_owned().concat(".wasm").as_str())
    } else {
        let dir = join_path(build_dir, "target/release");
        join_path(dir.as_str(), bin_name.to_owned().concat(suffix).as_str())
    }
}

/// A path seen from the current directory.
pub fn canonicalize_output(output: &str, current: &str) -> (out: String)
    ensures
        out@ == (if output@.len() > 0 && output@[0] == '/' {
            output@
        } else {
            joined_path(current@, output@)
        }),
{
    let chars = chars_of(output);
    if chars.len() > 0 && chars[0] == '/' {
        output.to_owned()
    } else {
        join_path(current, output)
    }
}

/// The arguments of the build of a generated package.
pub fn build_arguments(is_wasm: bool) -> (out: Vec<String>)
    ensures
        views(out@) == (if is_wasm {
            seq!["build"@, "--release"@, "--locked"@, "--target"@, "wasm32-wasip1"@]
        } else {
            seq!["build"@, "--release"@, "--locked"@]
        }),
{
    let mut out: Vec<String> = vec![
        "build".to_owned(),
        "--release".to_owned(),
        "--locked".to_owned(),
    ];
    assert(views(out@) =~= seq!["build"@, "--release"@, "--locked"@]);
    if is_wasm {
        out.push("--target".to_owned());
        out.push("wasm32-wasip1".to_owned());
        assert(views(out@) =~= seq![
            "build"@,
            "--release"@,
            "--locked"@,
            "--target"@,
            "wasm32-wasip1"@,
        ]);
    }
    out
}

} // verus!
