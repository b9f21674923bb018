//! What holds of generated packages: what is given to them stands in them.

use vstd::prelude::*;

use crate::codegen::{
    grant_lines, library_name, library_source, manifest_text, project_main, shim_entries, shim_line,
    source_main, GENERATED_PACKAGE_NAME, GENERATED_PACKAGE_VERSION,
};
use crate::codegen_text::{
    LIB_0, LIB_1, MAIN_0, MAIN_1, MAIN_2, MAIN_3, MAIN_4, MAIN_5, MAIN_6, MAIN_7, MAIN_8,
    MANIFEST_0, MANIFEST_1, MANIFEST_2, MANIFEST_3, MANIFEST_4, MANIFEST_5, MANIFEST_6, MANIFEST_7,
    PROJECT_MAIN_0, PROJECT_MAIN_1, PROJECT_MAIN_2, PROJECT_MAIN_3, PROJECT_MAIN_4, PROJECT_MAIN_5,
    PROJECT_MAIN_6,
};
use crate::outside::literal_of;
use crate::text::{ends_with, joined, replaced, starts_with};
use crate::text_laws::{joined_lines_are_stacked, occurs, stacked, stacked_texts_stand};

verus! {

proof fn lemma_main_0()
    ensures
        ends_with(MAIN_0@, "use "@),
{
    reveal_strlit("// AUTO-GENERATED by olangc. DO NOT EDIT.\n\nuse ");
    assert(MAIN_0@ == "// AUTO-GENERATED by olangc. DO NOT EDIT.\n\nuse "@);
    reveal_strlit("use ");
    assert(MAIN_0@.skip(43) =~= "use "@);
}

proof fn lemma_main_1()
    ensures
        starts_with(MAIN_1@, "::eval::Evaluator;\n"@),
        ends_with(MAIN_1@, "use "@),
{
    reveal_strlit("::eval::Evaluator;\nuse ");
    assert(MAIN_1@ == "::eval::Evaluator;\nuse "@);
    reveal_strlit("::eval::Evaluator;\n");
    assert(MAIN_1@.take(19) =~= "::eval::Evaluator;\n"@);
    reveal_strlit("use ");
    assert(MAIN_1@.skip(19) =~= "use "@);
}

proof fn lemma_main_2()
    ensures
        starts_with(MAIN_2@, "::parser::Parser;\n"@),
        ends_with(MAIN_2@, "use "@),
{
    reveal_strlit("::parser::Parser;\nuse ");
    assert(MAIN_2@ == "::parser::Parser;\nuse "@);
    reveal_strlit("::parser::Parser;\n");
    assert(MAIN_2@.take(18) =~= "::parser::Parser;\n"@);
    reveal_strlit("use ");
    assert(MAIN_2@.skip(18) =~= "use "@);
}

proof fn lemma_main_3()
    ensures
        starts_with(MAIN_3@, "::value::OValue;\n"@),
        ends_with(MAIN_3@, "const PROGRAM_SOURCE: &str = include_str!("@),
{
    reveal_strlit("::value::OValue;\nuse std::collections::HashSet;\n\n/// The compiled .O program source, embedded at compile time.\nconst PROGRAM_SOURCE: &str = include_str!(");
    assert(MAIN_3@ == "::value::OValue;\nuse std::collections::HashSet;\n\n/// The compiled .O program source, embedded at compile time.\nconst PROGRAM_SOURCE: &str = include_str!("@);
    reveal_strlit("::value::OValue;\n");
    assert(MAIN_3@.take(17) =~= "::value::OValue;\n"@);
    reveal_strlit("const PROGRAM_SOURCE: &str = include_str!(");
    assert(MAIN_3@.skip(111) =~= "const PROGRAM_SOURCE: &str = include_str!("@);
}

proof fn lemma_main_4()
    ensures
        starts_with(MAIN_4@, ");\n"@),
        ends_with(MAIN_4@, "const BACKEND_GRANTS: &[&str] = &[\n"@),
{
    reveal_strlit(");\nconst BACKEND_GRANTS: &[&str] = &[\n");
    assert(MAIN_4@ == ");\nconst BACKEND_GRANTS: &[&str] = &[\n"@);
    reveal_strlit(");\n");
    assert(MAIN_4@.take(3) =~= ");\n"@);
    reveal_strlit("const BACKEND_GRANTS: &[&str] = &[\n");
    assert(MAIN_4@.skip(3) =~= "const BACKEND_GRANTS: &[&str] = &[\n"@);
}

proof fn lemma_main_5()
    ensures
        starts_with(MAIN_5@, "\n];\n"@),
        ends_with(MAIN_5@, "const EMBEDDED_SHIMS: &[(&str, &[u8])] = &[\n"@),
{
    reveal_strlit("\n];\n\n#[cfg(not(target_family = \"wasm\"))]\n/// Backend shim scripts, embedded as raw bytes at compile time.\n/// Extracted to a per-invocation temp directory at startup and cleaned up on exit.\nconst EMBEDDED_SHIMS: &[(&str, &[u8])] = &[\n");
    assert(MAIN_5@ == "\n];\n\n#[cfg(not(target_family = \"wasm\"))]\n/// Backend shim scripts, embedded as raw bytes at compile time.\n/// Extracted to a per-invocation temp directory at startup and cleaned up on exit.\nconst EMBEDDED_SHIMS: &[(&str, &[u8])] = &[\n"@);
    reveal_strlit("\n];\n");
    assert(MAIN_5@.take(4) =~= "\n];\n"@);
    reveal_strlit("const EMBEDDED_SHIMS: &[(&str, &[u8])] = &[\n");
    assert(MAIN_5@.skip(190) =~= "const EMBEDDED_SHIMS: &[(&str, &[u8])] = &[\n"@);
}

proof fn lemma_main_6()
    ensures
        starts_with(MAIN_6@, "\n];\n"@),
{
    reveal_strlit("\n];\n\n#[cfg(not(target_family = \"wasm\"))]\nstruct ShimGuard(std::path::PathBuf);\n\n#[cfg(not(target_family = \"wasm\"))]\nimpl Drop for ShimGuard {\n    fn drop(&mut self) {\n        let _ = std::fs::remove_dir_all(&self.0);\n    }\n}\n\nfn main() -> anyhow::Result<()> {\n    use anyhow::Context as _;\n\n    if ");
    assert(MAIN_6@ == "\n];\n\n#[cfg(not(target_family = \"wasm\"))]\nstruct ShimGuard(std::path::PathBuf);\n\n#[cfg(not(target_family = \"wasm\"))]\nimpl Drop for ShimGuard {\n    fn drop(&mut self) {\n        let _ = std::fs::remove_dir_all(&self.0);\n    }\n}\n\nfn main() -> anyhow::Result<()> {\n    use anyhow::Context as _;\n\n    if "@);
    reveal_strlit("\n];\n");
    assert(MAIN_6@.take(4) =~= "\n];\n"@);
}

proof fn lemma_manifest_0()
    ensures
        ends_with(MANIFEST_0@, "[package]\nname    = \""@),
{
    reveal_strlit("[package]\nname    = \"");
    assert(MANIFEST_0@ == "[package]\nname    = \""@);
    reveal_strlit("[package]\nname    = \"");
    assert(MANIFEST_0@.skip(0) =~= "[package]\nname    = \""@);
}

proof fn lemma_manifest_1()
    ensures
        starts_with(MANIFEST_1@, "\"\n"@),
        ends_with(MANIFEST_1@, "version = \""@),
{
    reveal_strlit("\"\nversion = \"");
    assert(MANIFEST_1@ == "\"\nversion = \""@);
    reveal_strlit("\"\n");
    assert(MANIFEST_1@.take(2) =~= "\"\n"@);
    reveal_strlit("version = \"");
    assert(MANIFEST_1@.skip(2) =~= "version = \""@);
}

proof fn lemma_manifest_2()
    ensures
        starts_with(MANIFEST_2@, "\"\n"@),
        ends_with(MANIFEST_2@, "rust-version = \""@),
{
    reveal_strlit("\"\nedition = \"2021\"\nrust-version = \"");
    assert(MANIFEST_2@ == "\"\nedition = \"2021\"\nrust-version = \""@);
    reveal_strlit("\"\n");
    assert(MANIFEST_2@.take(2) =~= "\"\n"@);
    reveal_strlit("rust-version = \"");
    assert(MANIFEST_2@.skip(19) =~= "rust-version = \""@);
}

proof fn lemma_manifest_3()
    ensures
        starts_with(MANIFEST_3@, "\"\n"@),
        ends_with(MANIFEST_3@, "embedded-runtime-license = \""@),
{
    reveal_strlit("\"\npublish = false\n\n[package.metadata.ostadix]\nembedded-runtime-license = \"");
    assert(MANIFEST_3@ == "\"\npublish = false\n\n[package.metadata.ostadix]\nembedded-runtime-license = \""@);
    reveal_strlit("\"\n");
    assert(MANIFEST_3@.take(2) =~= "\"\n"@);
    reveal_strlit("embedded-runtime-license = \"");
    assert(MANIFEST_3@.skip(46) =~= "embedded-runtime-license = \""@);
}

proof fn lemma_manifest_4()
    ensures
        starts_with(MANIFEST_4@, "\"\n"@),
        ends_with(MANIFEST_4@, "[lib]\nname = \""@),
{
    reveal_strlit("\"\nembedded-input-license-policy = \"retained-by-source\"\n\n[lib]\nname = \"");
    assert(MANIFEST_4@ == "\"\nembedded-input-license-policy = \"retained-by-source\"\n\n[lib]\nname = \""@);
    reveal_strlit("\"\n");
    assert(MANIFEST_4@.take(2) =~= "\"\n"@);
    reveal_strlit("[lib]\nname = \"");
    assert(MANIFEST_4@.skip(56) =~= "[lib]\nname = \""@);
}

proof fn lemma_manifest_5()
    ensures
        starts_with(MANIFEST_5@, "\"\n"@),
        ends_with(MANIFEST_5@, "[[bin]]\nname = \""@),
{
    reveal_strlit("\"\npath = \"src/lib.rs\"\n\n[[bin]]\nname = \"");
    assert(MANIFEST_5@ == "\"\npath = \"src/lib.rs\"\n\n[[bin]]\nname = \""@);
    reveal_strlit("\"\n");
    assert(MANIFEST_5@.take(2) =~= "\"\n"@);
    reveal_strlit("[[bin]]\nname = \"");
    assert(MANIFEST_5@.skip(23) =~= "[[bin]]\nname = \""@);
}

proof fn lemma_manifest_6()
    ensures
        starts_with(MANIFEST_6@, "\"\n"@),
{
    reveal_strlit("\"\npath = \"src/main.rs\"\n\n[dependencies]\nserde      = { version = \"1\", features = [\"derive\"] }\nserde_json = { version = \"1\", features = [\"preserve_order\"] }\nbase64     = \"0.22\"\ntoml       = \"0.8\"\nwhich      = \"6\"\nsemver     = { version = \"1\", features = [\"serde\"] }\nsha2       = \"0.10\"\nhex        = \"0.4\"\ned25519-dalek = \"2\"\nnum-bigint = { version = \"0.4\", features = [\"serde\"] }\nnum-traits = \"0.2\"\nbitflags   = \"2\"\ngetrandom  = \"0.4.3\"\nthiserror  = \"2\"\nanyhow     = \"1\"\nclap       = { version = \"4\", features = [\"derive\"] }\n");
    assert(MANIFEST_6@ == "\"\npath = \"src/main.rs\"\n\n[dependencies]\nserde      = { version = \"1\", features = [\"derive\"] }\nserde_json = { version = \"1\", features = [\"preserve_order\"] }\nbase64     = \"0.22\"\ntoml       = \"0.8\"\nwhich      = \"6\"\nsemver     = { version = \"1\", features = [\"serde\"] }\nsha2       = \"0.10\"\nhex        = \"0.4\"\ned25519-dalek = \"2\"\nnum-bigint = { version = \"0.4\", features = [\"serde\"] }\nnum-traits = \"0.2\"\nbitflags   = \"2\"\ngetrandom  = \"0.4.3\"\nthiserror  = \"2\"\nanyhow     = \"1\"\nclap       = { version = \"4\", features = [\"derive\"] }\n"@);
    reveal_strlit("\"\n");
    assert(MANIFEST_6@.take(2) =~= "\"\n"@);
}

proof fn lemma_project_main_0()
    ensures
        ends_with(PROJECT_MAIN_0@, "use ::"@),
{
    reveal_strlit("// AUTO-GENERATED by olangc. DO NOT EDIT.\n\nuse ::");
    assert(PROJECT_MAIN_0@ == "// AUTO-GENERATED by olangc. DO NOT EDIT.\n\nuse ::"@);
    reveal_strlit("use ::");
    assert(PROJECT_MAIN_0@.skip(43) =~= "use ::"@);
}

proof fn lemma_project_main_1()
    ensures
        starts_with(PROJECT_MAIN_1@, "::project::RoutePolicy;\n"@),
{
    reveal_strlit("::project::RoutePolicy;\nuse ::");
    assert(PROJECT_MAIN_1@ == "::project::RoutePolicy;\nuse ::"@);
    reveal_strlit("::project::RoutePolicy;\n");
    assert(PROJECT_MAIN_1@.take(24) =~= "::project::RoutePolicy;\n"@);
}

proof fn lemma_project_main_3()
    ensures
        ends_with(PROJECT_MAIN_3@, "const EMBEDDED_SHIMS: &[(&str, &[u8])] = &[\n"@),
{
    reveal_strlit("::project::runtime::RunOptions;\n\n/// The serialized project bundle, embedded at compile time.\nconst PROJECT_BUNDLE: &[u8] = include_bytes!(\"project_bundle.json\");\n\n#[cfg(not(target_family = \"wasm\"))]\nconst EMBEDDED_SHIMS: &[(&str, &[u8])] = &[\n");
    assert(PROJECT_MAIN_3@ == "::project::runtime::RunOptions;\n\n/// The serialized project bundle, embedded at compile time.\nconst PROJECT_BUNDLE: &[u8] = include_bytes!(\"project_bundle.json\");\n\n#[cfg(not(target_family = \"wasm\"))]\nconst EMBEDDED_SHIMS: &[(&str, &[u8])] = &[\n"@);
    reveal_strlit("const EMBEDDED_SHIMS: &[(&str, &[u8])] = &[\n");
    assert(PROJECT_MAIN_3@.skip(200) =~= "const EMBEDDED_SHIMS: &[(&str, &[u8])] = &[\n"@);
}

proof fn lemma_project_main_4()
    ensures
        starts_with(PROJECT_MAIN_4@, "\n];\n"@),
{
    reveal_strlit("\n];\n\nfn main() -> anyhow::Result<()> {\n    if ::");
    assert(PROJECT_MAIN_4@ == "\n];\n\nfn main() -> anyhow::Result<()> {\n    if ::"@);
    reveal_strlit("\n];\n");
    assert(PROJECT_MAIN_4@.take(4) =~= "\n];\n"@);
}

/// A text between two others, of which one ends and the other starts in a known
/// way, stands between those ways.
proof fn lemma_between(
    front: Seq<char>,
    a: Seq<char>,
    x: Seq<char>,
    b: Seq<char>,
    back: Seq<char>,
    head: Seq<char>,
    foot: Seq<char>,
)
    requires
        ends_with(a, head),
        starts_with(b, foot),
    ensures
        occurs(head + x + foot, front + a + x + b + back),
{
    let left = front + a.take(a.len() - head.len());
    let right = b.skip(foot.len() as int) + back;
    assert(a =~= a.take(a.len() - head.len()) + head);
    assert(b =~= foot + b.skip(foot.len() as int));
    assert(front + a + x + b + back =~= left + (head + x + foot) + right);
}

/// The lines of a list with an end behind the last, in front of a bracket that
/// starts on a line of its own.
proof fn lemma_bracketed(head: Seq<char>, lines: Seq<Seq<char>>)
    requires
        lines.len() > 0,
    ensures
        head + joined(lines, "\n"@) + "\n];\n"@ == head + stacked(lines, "\n"@) + "];\n"@,
{
    reveal_strlit("\n");
    reveal_strlit("\n];\n");
    reveal_strlit("];\n");
    joined_lines_are_stacked(lines, "\n"@);
    assert("\n];\n"@ =~= "\n"@ + "];\n"@);
    assert(head + joined(lines, "\n"@) + "\n];\n"@ =~= head + (joined(lines, "\n"@) + "\n"@)
        + "];\n"@);
}

/// Every shim that is given to a program is built into it: its line stands in the
/// list of embedded shims, on a line of its own, behind those given before it and
/// in front of those given after it, and nothing else stands there.
pub proof fn programs_embed_every_shim(
    library: Seq<char>,
    source_name: Seq<char>,
    grants: Seq<char>,
    lines: Seq<Seq<char>>,
    i: int,
)
    requires
        0 <= i < lines.len(),
    ensures
        occurs(
            "const EMBEDDED_SHIMS: &[(&str, &[u8])] = &[\n"@ + stacked(lines.take(i), "\n"@)
                + lines[i] + "\n"@ + stacked(lines.skip(i + 1), "\n"@) + "];\n"@,
            source_main(library, source_name, grants, shim_entries(lines)),
        ),
        occurs(
            "const EMBEDDED_SHIMS: &[(&str, &[u8])] = &[\n"@ + stacked(lines.take(i), "\n"@)
                + lines[i] + "\n"@ + stacked(lines.skip(i + 1), "\n"@) + "];\n"@,
            project_main(library, shim_entries(lines)),
        ),
{
    let head = "const EMBEDDED_SHIMS: &[(&str, &[u8])] = &[\n"@;
    let end = "\n"@;
    let shims = joined(lines, end);
    lemma_main_5();
    lemma_main_6();
    lemma_project_main_3();
    lemma_project_main_4();
    lemma_bracketed(head, lines);
    stacked_texts_stand(lines, end, i);
    let whole = head + shims + "\n];\n"@;
    assert(whole =~= head + stacked(lines.take(i), end) + lines[i] + end + stacked(
        lines.skip(i + 1),
        end,
    ) + "];\n"@);
    let front = MAIN_0@ + library + MAIN_1@ + library + MAIN_2@ + library + MAIN_3@ + source_name
        + MAIN_4@ + grants;
    let back = library + MAIN_7@ + library + MAIN_8@;
    lemma_between(front, MAIN_5@, shims, MAIN_6@, back, head, "\n];\n"@);
    assert(source_main(library, source_name, grants, shim_entries(lines)) =~= front + MAIN_5@
        + shims + MAIN_6@ + back);
    let front = PROJECT_MAIN_0@ + library + PROJECT_MAIN_1@ + library + PROJECT_MAIN_2@ + library;
    let back = library + PROJECT_MAIN_5@ + library + PROJECT_MAIN_6@;
    lemma_between(front, PROJECT_MAIN_3@, shims, PROJECT_MAIN_4@, back, head, "\n];\n"@);
    assert(project_main(library, shim_entries(lines)) =~= front + PROJECT_MAIN_3@ + shims
        + PROJECT_MAIN_4@ + back);
}

/// Every grant that is given to a program stands in it as a literal, on a line of
/// its own, behind those given before it and in front of those given after it.
pub proof fn programs_hold_every_grant(
    library: Seq<char>,
    source_name: Seq<char>,
    grants: Seq<Seq<char>>,
    shims: Seq<char>,
    i: int,
)
    requires
        0 <= i < grants.len(),
    ensures
        ({
            let lines = Seq::new(
                grants.len(),
                |k: int| "    "@ + literal_of(grants[k]) + ","@,
            );
            occurs(
                "const BACKEND_GRANTS: &[&str] = &[\n"@ + stacked(lines.take(i), "\n"@) + "    "@
                    + literal_of(grants[i]) + ","@ + "\n"@ + stacked(lines.skip(i + 1), "\n"@)
                    + "];\n"@,
                source_main(library, source_name, joined(grant_lines(grants), "\n"@), shims),
            )
        }),
{
    let head = "const BACKEND_GRANTS: &[&str] = &[\n"@;
    let end = "\n"@;
    let lines = Seq::new(grants.len(), |k: int| "    "@ + literal_of(grants[k]) + ","@);
    assert(grant_lines(grants) =~= lines);
    let text = joined(lines, end);
    lemma_main_4();
    lemma_main_5();
    lemma_bracketed(head, lines);
    stacked_texts_stand(lines, end, i);
    let whole = head + text + "\n];\n"@;
    assert(whole =~= head + stacked(lines.take(i), end) + "    "@ + literal_of(grants[i]) + ","@
        + end + stacked(lines.skip(i + 1), end) + "];\n"@);
    let front = MAIN_0@ + library + MAIN_1@ + library + MAIN_2@ + library + MAIN_3@ + source_name;
    let back = shims + MAIN_6@ + library + MAIN_7@ + library + MAIN_8@;
    lemma_between(front, MAIN_4@, text, MAIN_5@, back, head, "\n];\n"@);
    assert(source_main(library, source_name, text, shims) =~= front + MAIN_4@ + text + MAIN_5@
        + back);
}

/// A program embeds the source that it is named, and runs the library that it is
/// named.
pub proof fn programs_run_their_source(
    library: Seq<char>,
    source_name: Seq<char>,
    grants: Seq<char>,
    shims: Seq<char>,
)
    ensures
        ({
            let text = source_main(library, source_name, grants, shims);
            &&& occurs("const PROGRAM_SOURCE: &str = include_str!("@ + source_name + ");\n"@, text)
            &&& occurs("use "@ + library + "::eval::Evaluator;\n"@, text)
            &&& occurs("use "@ + library + "::parser::Parser;\n"@, text)
            &&& occurs("use "@ + library + "::value::OValue;\n"@, text)
        }),
        occurs(
            "use ::"@ + library + "::project::RoutePolicy;\n"@,
            project_main(library, shims),
        ),
{
    lemma_main_0();
    lemma_main_1();
    lemma_main_2();
    lemma_main_3();
    lemma_main_4();
    lemma_project_main_0();
    lemma_project_main_1();
    let text = source_main(library, source_name, grants, shims);
    let none = Seq::<char>::empty();
    let tail = grants + MAIN_5@ + shims + MAIN_6@ + library + MAIN_7@ + library + MAIN_8@;
    let front = MAIN_0@ + library + MAIN_1@ + library + MAIN_2@ + library;
    lemma_between(
        front,
        MAIN_3@,
        source_name,
        MAIN_4@,
        tail,
        "const PROGRAM_SOURCE: &str = include_str!("@,
        ");\n"@,
    );
    assert(text =~= front + MAIN_3@ + source_name + MAIN_4@ + tail);
    let back = library + MAIN_2@ + library + MAIN_3@ + source_name + MAIN_4@ + tail;
    lemma_between(none, MAIN_0@, library, MAIN_1@, back, "use "@, "::eval::Evaluator;\n"@);
    assert(text =~= none + MAIN_0@ + library + MAIN_1@ + back);
    let front = MAIN_0@ + library;
    let back = library + MAIN_3@ + source_name + MAIN_4@ + tail;
    lemma_between(front, MAIN_1@, library, MAIN_2@, back, "use "@, "::parser::Parser;\n"@);
    assert(text =~= front + MAIN_1@ + library + MAIN_2@ + back);
    let front = MAIN_0@ + library + MAIN_1@ + library;
    let back = source_name + MAIN_4@ + tail;
    lemma_between(front, MAIN_2@, library, MAIN_3@, back, "use "@, "::value::OValue;\n"@);
    assert(text =~= front + MAIN_2@ + library + MAIN_3@ + back);
    let back = library + PROJECT_MAIN_2@ + library + PROJECT_MAIN_3@ + shims + PROJECT_MAIN_4@
        + library + PROJECT_MAIN_5@ + library + PROJECT_MAIN_6@;
    lemma_between(
        none,
        PROJECT_MAIN_0@,
        library,
        PROJECT_MAIN_1@,
        back,
        "use ::"@,
        "::project::RoutePolicy;\n"@,
    );
    assert(project_main(library, shims) =~= none + PROJECT_MAIN_0@ + library + PROJECT_MAIN_1@
        + back);
}

/// A shim is built in under its own name, from the file of that name among the
/// shims.
pub proof fn shims_are_built_in_under_their_name(name: Seq<char>)
    ensures
        shim_line(name) == "    ("@ + literal_of(name) + ", include_bytes!("@ + literal_of(
            "shims/"@ + name,
        ) + ")),"@,
{
}

/// A manifest names the library that the program uses, the program itself, the
/// language version and the license that it is given.
pub proof fn manifests_name_what_is_built(
    bin_name: Seq<char>,
    project: bool,
    rust_version: Seq<char>,
    license: Seq<char>,
)
    ensures
        ({
            let text = manifest_text(bin_name, project, rust_version, license);
            &&& occurs("[lib]\nname = \""@ + library_name(bin_name) + "\"\n"@, text)
            &&& occurs("[[bin]]\nname = \""@ + bin_name + "\"\n"@, text)
            &&& occurs("rust-version = \""@ + rust_version + "\"\n"@, text)
            &&& occurs("embedded-runtime-license = \""@ + license + "\"\n"@, text)
            &&& occurs("version = \""@ + GENERATED_PACKAGE_VERSION@ + "\"\n"@, text)
            &&& occurs("[package]\nname    = \""@ + GENERATED_PACKAGE_NAME@ + "\"\n"@, text)
            &&& project ==> occurs("ignore     = \"0.4\"\n"@, text)
        }),
{
    lemma_manifest_0();
    lemma_manifest_1();
    lemma_manifest_2();
    lemma_manifest_3();
    lemma_manifest_4();
    lemma_manifest_5();
    lemma_manifest_6();
    let text = manifest_text(bin_name, project, rust_version, license);
    let library = library_name(bin_name);
    let none = Seq::<char>::empty();
    let name = GENERATED_PACKAGE_NAME@;
    let version = GENERATED_PACKAGE_VERSION@;
    let ignore = if project {
        "ignore     = \"0.4\"\n"@
    } else {
        ""@
    };
    let end = ignore + MANIFEST_7@;
    let b5 = MANIFEST_6@ + end;
    let b4 = MANIFEST_5@ + bin_name + b5;
    let b3 = MANIFEST_4@ + library + b4;
    let b2 = MANIFEST_3@ + license + b3;
    let b1 = MANIFEST_2@ + rust_version + b2;
    let b0 = MANIFEST_1@ + version + b1;
    let f1 = MANIFEST_0@ + name;
    let f2 = f1 + MANIFEST_1@ + version;
    let f3 = f2 + MANIFEST_2@ + rust_version;
    let f4 = f3 + MANIFEST_3@ + license;
    let f5 = f4 + MANIFEST_4@ + library;
    assert(text =~= f5 + MANIFEST_5@ + bin_name + MANIFEST_6@ + end);
    lemma_between(f5, MANIFEST_5@, bin_name, MANIFEST_6@, end, "[[bin]]\nname = \""@, "\"\n"@);
    assert(text =~= f4 + MANIFEST_4@ + library + MANIFEST_5@ + (bin_name + b5));
    lemma_between(
        f4,
        MANIFEST_4@,
        library,
        MANIFEST_5@,
        bin_name + b5,
        "[lib]\nname = \""@,
        "\"\n"@,
    );
    assert(text =~= f3 + MANIFEST_3@ + license + MANIFEST_4@ + (library + b4));
    lemma_between(
        f3,
        MANIFEST_3@,
        license,
        MANIFEST_4@,
        library + b4,
        "embedded-runtime-license = \""@,
        "\"\n"@,
    );
    assert(text =~= f2 + MANIFEST_2@ + rust_version + MANIFEST_3@ + (license + b3));
    lemma_between(
        f2,
        MANIFEST_2@,
        rust_version,
        MANIFEST_3@,
        license + b3,
        "rust-version = \""@,
        "\"\n"@,
    );
    assert(text =~= f1 + MANIFEST_1@ + version + MANIFEST_2@ + (rust_version + b2));
    lemma_between(
        f1,
        MANIFEST_1@,
        version,
        MANIFEST_2@,
        rust_version + b2,
        "version = \""@,
        "\"\n"@,
    );
    assert(text =~= none + MANIFEST_0@ + name + MANIFEST_1@ + (version + b1));
    lemma_between(
        none,
        MANIFEST_0@,
        name,
        MANIFEST_1@,
        version + b1,
        "[package]\nname    = \""@,
        "\"\n"@,
    );
    if project {
        assert(text =~= (f5 + MANIFEST_5@ + bin_name + MANIFEST_6@) + ignore + MANIFEST_7@);
    }
}

/// The library of a package holds the project's part exactly where the package is
/// that of a project.
pub proof fn libraries_hold_the_project()
    ensures
        occurs("pub mod project;\n"@, library_source(true)),
        library_source(true).len() == library_source(false).len() + "pub mod project;\n"@.len(),
{
    reveal_strlit("");
    assert(library_source(true) =~= LIB_0@ + "pub mod project;\n"@ + LIB_1@);
}

/// The name of a generated library is that of the program behind a prefix of its
/// own, with an underscore for every hyphen.
pub proof fn library_names_follow_the_program(bin_name: Seq<char>, i: int)
    ensures
        starts_with(library_name(bin_name), "ostadix_generated_"@),
        library_name(bin_name).len() == "ostadix_generated_"@.len() + bin_name.len(),
        0 <= i < bin_name.len() ==> library_name(bin_name)["ostadix_generated_"@.len() + i] == (
        if bin_name[i] == '-' {
            '_'
        } else {
            bin_name[i]
        }),
{
    let prefix = "ostadix_generated_"@;
    lemma_underscores(bin_name);
    let rest = replaced(bin_name, "-"@, "_"@);
    assert(library_name(bin_name).take(prefix.len() as int) =~= prefix);
    if 0 <= i < bin_name.len() {
        assert(library_name(bin_name)[prefix.len() + i] == rest[i]);
    }
}

proof fn lemma_underscores(s: Seq<char>)
    ensures
        replaced(s, "-"@, "_"@).len() == s.len(),
        forall|i: int|
            0 <= i < s.len() ==> #[trigger] replaced(s, "-"@, "_"@)[i] == (if s[i] == '-' {
                '_'
            } else {
                s[i]
            }),
    decreases s.len(),
{
    reveal_strlit("-");
    reveal_strlit("_");
    if s.len() > 0 {
        let rest = s.skip(1);
        lemma_underscores(rest);
        let out = replaced(s, "-"@, "_"@);
        let tail = replaced(rest, "-"@, "_"@);
        if s[0] == '-' {
            assert(s.take(1) =~= "-"@);
            assert(out == "_"@ + tail);
        } else {
            assert(s.take(1)[0] == s[0]);
            assert(out == seq![s[0]] + tail);
        }
        assert forall|i: int| 0 <= i < s.len() implies #[trigger] out[i] == (if s[i] == '-' {
            '_'
        } else {
            s[i]
        }) by {
            if i > 0 {
                assert(out[i] == tail[i - 1]);
                assert(rest[i - 1] == s[i]);
            }
        }
    }
}

} // verus!
