//! A light scan of source files for the modules they import.
//!
//! It recognises the ordinary static import forms of each language, line by
//! line, and gives the names under which the imported files may be known.

use vstd::prelude::*;
use vstd::slice::slice_subrange;

use crate::files::{backend_of, file_backend, ExtensionMap};
use crate::text::{
    after_line, any_of, ascending, chars_of, ends_with, ends_with_chars, find_any, find_char,
    find_part, find_text, first_where, first_word, holds_text, insert_ascending, lemma_after_line,
    lower_chars, lowered, members, position_from, read_line, replace_all, replaced, separators,
    spaces, split, split_by, starts_with, starts_with_chars, string_of, texts, trim, trim_end_by,
    trim_end_part, trim_end_set, trim_end_text, trim_slice, trim_start_by, trim_start_part,
    trim_start_set, trim_start_slice, trim_start_text, views, without_return, word_slice,
};

verus! {

/// How a language spells its imports.
#[derive(Clone, Copy, Debug, PartialEq, Eq)]
pub enum ImportSyntax {
    Python,
    JavaScript,
    Rust,
    CFamily,
    Java,
    Haskell,
    Ruby,
    OCaml,
    Lisp,
    Shell,
    Nix,
    CSharp,
    Wolfram,
    /// No import form is recognised.
    Unscanned,
}

/// How the language of a backend spells its imports.
pub open spec fn syntax_of(lang: Seq<char>) -> ImportSyntax {
    if lang == "python"@ {
        ImportSyntax::Python
    } else if lang == "javascript"@ {
        ImportSyntax::JavaScript
    } else if lang == "rust"@ {
        ImportSyntax::Rust
    } else if lang == "c"@ || lang == "cpp"@ {
        ImportSyntax::CFamily
    } else if lang == "java"@ {
        ImportSyntax::Java
    } else if lang == "haskell"@ {
        ImportSyntax::Haskell
    } else if lang == "ruby"@ {
        ImportSyntax::Ruby
    } else if lang == "ocaml"@ {
        ImportSyntax::OCaml
    } else if lang == "racket"@ || lang == "lisp"@ || lang == "common_lisp"@ {
        ImportSyntax::Lisp
    } else if lang == "bash"@ || lang == "shell"@ {
        ImportSyntax::Shell
    } else if lang == "nix"@ || lang == "nix_expr"@ {
        ImportSyntax::Nix
    } else if lang == "csharp"@ {
        ImportSyntax::CSharp
    } else if lang == "mathematica"@ || lang == "matlab"@ {
        ImportSyntax::Wolfram
    } else {
        ImportSyntax::Unscanned
    }
}

/// How the language of a backend spells its imports.
pub fn import_syntax(lang: &str) -> (syntax: ImportSyntax)
    ensures
        syntax == syntax_of(lang@),
{
    if *lang == *"python" {
        ImportSyntax::Python
    } else if *lang == *"javascript" {
        ImportSyntax::JavaScript
    } else if *lang == *"rust" {
        ImportSyntax::Rust
    } else if *lang == *"c" || *lang == *"cpp" {
        ImportSyntax::CFamily
    } else if *lang == *"java" {
        ImportSyntax::Java
    } else if *lang == *"haskell" {
        ImportSyntax::Haskell
    } else if *lang == *"ruby" {
        ImportSyntax::Ruby
    } else if *lang == *"ocaml" {
        ImportSyntax::OCaml
    } else if *lang == *"racket" || *lang == *"lisp" || *lang == *"common_lisp" {
        ImportSyntax::Lisp
    } else if *lang == *"bash" || *lang == *"shell" {
        ImportSyntax::Shell
    } else if *lang == *"nix" || *lang == *"nix_expr" {
        ImportSyntax::Nix
    } else if *lang == *"csharp" {
        ImportSyntax::CSharp
    } else if *lang == *"mathematica" || *lang == *"matlab" {
        ImportSyntax::Wolfram
    } else {
        ImportSyntax::Unscanned
    }
}

/// What follows `prefix` in `s`, if `s` begins with it.
pub open spec fn after_prefix(s: Seq<char>, prefix: Seq<char>) -> Option<Seq<char>> {
    if starts_with(s, prefix) {
        Some(s.skip(prefix.len() as int))
    } else {
        None
    }
}

/// `s` without `prefix`, or `s`.
pub open spec fn without_prefix(s: Seq<char>, prefix: Seq<char>) -> Seq<char> {
    match after_prefix(s, prefix) {
        Some(rest) => rest,
        None => s,
    }
}

/// The text between the first quote of `s` and the next quote of its kind.
pub open spec fn quoted(s: Seq<char>) -> Option<Seq<char>> {
    let i = first_where(s, 0, separators(seq!['\'', '"'], false));
    if i >= s.len() {
        None
    } else {
        let j = position_from(s, i + 1, s[i]);
        if j < s.len() {
            Some(s.subrange(i + 1, j))
        } else {
            None
        }
    }
}

/// A list of what may be missing.
pub open spec fn listed(found: Option<Seq<char>>) -> Seq<Seq<char>> {
    match found {
        Some(text) => seq![text],
        None => Seq::empty(),
    }
}

/// The first word of what may be missing, as a list.
pub open spec fn listed_word(found: Option<Seq<char>>) -> Seq<Seq<char>> {
    match found {
        Some(text) => seq![first_word(text)],
        None => Seq::empty(),
    }
}

/// What may be missing, without the semicolons at its end, as a list.
pub open spec fn listed_statement(found: Option<Seq<char>>) -> Seq<Seq<char>> {
    match found {
        Some(text) => seq![trim_end_by(text, any_of(seq![';']))],
        None => Seq::empty(),
    }
}

/// The first words of the parts of a list separated by commas.
pub open spec fn listed_parts(found: Option<Seq<char>>) -> Seq<Seq<char>> {
    match found {
        Some(text) => split_by(text, separators(seq![','], false)).map_values(
            |part: Seq<char>| first_word(part),
        ),
        None => Seq::empty(),
    }
}

/// The quoted text after `call` in `s`, as a list.
pub open spec fn call_argument(s: Seq<char>, call: Seq<char>) -> Seq<Seq<char>> {
    let at = find_text(s, call, 0);
    if at < 0 {
        Seq::empty()
    } else {
        listed(quoted(s.skip(at + call.len())))
    }
}

/// The relative paths among the tokens of a Nix expression.
pub open spec fn relative_paths(tokens: Seq<Seq<char>>) -> Seq<Seq<char>> {
    tokens.filter(|t: Seq<char>| starts_with(t, "./"@) || starts_with(t, "../"@))
}

/// The module specifiers that one trimmed line imports.
pub open spec fn specifiers(syntax: ImportSyntax, line: Seq<char>) -> Seq<Seq<char>> {
    match syntax {
        ImportSyntax::Python => listed_parts(after_prefix(line, "import "@)) + listed_word(
            after_prefix(line, "from "@),
        ),
        ImportSyntax::JavaScript => {
            let statement = if starts_with(line, "import "@) || starts_with(line, "export "@) {
                listed(quoted(line))
            } else {
                Seq::empty()
            };
            statement + call_argument(line, "require("@) + call_argument(line, "import("@)
        },
        ImportSyntax::Rust => {
            let item = without_prefix(line, "pub "@);
            listed_statement(after_prefix(item, "mod "@)) + listed_statement(
                after_prefix(item, "use "@),
            ) + listed_statement(after_prefix(item, "extern crate "@))
        },
        ImportSyntax::CFamily => match after_prefix(line, "#include"@) {
            None => Seq::empty(),
            Some(rest) => {
                let t = trim_start_by(rest, spaces());
                if t.len() > 0 && t[0] == '"' {
                    listed(quoted(rest))
                } else {
                    Seq::empty()
                }
            },
        },
        ImportSyntax::Java => match after_prefix(line, "import "@) {
            None => Seq::empty(),
            Some(rest) => seq![
                trim_end_text(
                    trim_end_by(without_prefix(rest, "static "@), any_of(seq![';'])),
                    ".*"@,
                ),
            ],
        },
        ImportSyntax::Haskell => match after_prefix(line, "import "@) {
            None => Seq::empty(),
            Some(rest) => seq![first_word(without_prefix(rest, "qualified "@))],
        },
        ImportSyntax::Ruby => if starts_with(line, "require "@) || starts_with(
            line,
            "require_relative "@,
        ) {
            listed(quoted(line))
        } else {
            Seq::empty()
        },
        ImportSyntax::OCaml => listed_word(after_prefix(line, "open "@)) + listed_word(
            after_prefix(line, "include "@),
        ),
        ImportSyntax::Lisp => if holds_text(line, "require"@) || holds_text(line, "load"@) {
            listed(quoted(line))
        } else {
            Seq::empty()
        },
        ImportSyntax::Shell => listed_word(after_prefix(line, "source "@)) + listed_word(
            after_prefix(line, ". "@),
        ),
        ImportSyntax::Nix => relative_paths(
            split_by(line, separators(seq!['(', ')', '{', '}', '[', ']', ';'], true)),
        ),
        ImportSyntax::CSharp => listed_statement(after_prefix(line, "using "@)),
        ImportSyntax::Wolfram => if holds_text(line, "Get"@) || holds_text(line, "Needs"@)
            || holds_text(line, "run("@) || holds_text(line, "source("@) {
            listed(quoted(line))
        } else {
            Seq::empty()
        },
        ImportSyntax::Unscanned => Seq::empty(),
    }
}

/// The file extensions that a specifier may carry, in the order tried.
pub open spec fn import_extensions() -> Seq<Seq<char>> {
    seq![
        ".py"@, ".js"@, ".mjs"@, ".cjs"@, ".rs"@, ".h"@, ".hpp"@, ".c"@, ".cpp"@, ".java"@,
        ".hs"@, ".rb"@, ".ml"@, ".rkt"@, ".scm"@, ".lisp"@, ".sh"@, ".nix"@, ".wl"@, ".m"@,
    ]
}

/// `s` without the first of `suffixes` that it ends with.
pub open spec fn without_suffix(s: Seq<char>, suffixes: Seq<Seq<char>>) -> Seq<char>
    decreases suffixes.len(),
{
    if suffixes.len() == 0 {
        s
    } else if ends_with(s, suffixes[0]) {
        s.take(s.len() - suffixes[0].len())
    } else {
        without_suffix(s, suffixes.skip(1))
    }
}

/// A path separator as a dot.
pub open spec fn dot_for_slash(c: char) -> char {
    if c == '/' || c == '\\' {
        '.'
    } else {
        c
    }
}

/// A specifier as a dotted module name.
pub open spec fn module_name(specifier: Seq<char>) -> Seq<char> {
    let marks = any_of(seq!['\'', '"', '(', ')', ';', ',']);
    let bare = trim_end_by(trim_start_by(trim(specifier), marks), marks);
    let rooted = trim_start_text(
        trim_start_text(
            trim_start_text(
                trim_start_text(trim_start_text(bare, "crate::"@), "self::"@),
                "super::"@,
            ),
            "./"@,
        ),
        "../"@,
    );
    let dotted = replaced(rooted, "::"@, "."@).map_values(|c: char| dot_for_slash(c));
    let named = without_suffix(dotted, import_extensions());
    let dots = any_of(seq!['.']);
    trim(
        trim_end_text(
            trim_end_text(trim_end_by(trim_start_by(named, dots), dots), ".*"@),
            "::{"@,
        ),
    )
}

/// The names under which the module of a specifier may be known: the whole
/// name, its first part, its last part, and that in small letters.
pub open spec fn candidates(specifier: Seq<char>) -> Set<Seq<char>> {
    let name = module_name(specifier);
    if name.len() == 0 {
        Set::empty()
    } else {
        let parts = split_by(name, separators(seq!['.'], false));
        set![name, parts[0], parts.last(), lowered(parts.last())]
    }
}

/// The names that a list of specifiers gives.
pub open spec fn names_of(list: Seq<Seq<char>>) -> Set<Seq<char>>
    decreases list.len(),
{
    if list.len() == 0 {
        Set::empty()
    } else {
        candidates(list[0]).union(names_of(list.skip(1)))
    }
}

/// The names of the modules that a source imports.
pub open spec fn imports(syntax: ImportSyntax, source: Seq<char>) -> Set<Seq<char>>
    decreases source.len() via imports_decreases
{
    if source.len() == 0 {
        Set::empty()
    } else {
        names_of(specifiers(syntax, trim(without_return(source)))).union(
            imports(syntax, after_line(source)),
        )
    }
}

#[via_fn]
proof fn imports_decreases(syntax: ImportSyntax, source: Seq<char>) {
    lemma_after_line(source);
}

/// What follows `prefix` in `s`.
pub fn strip<'a>(s: &'a [char], prefix: &str) -> (r: Option<&'a [char]>)
    ensures
        r is Some <==> after_prefix(s@, prefix@) is Some,
        r matches Some(rest) ==> after_prefix(s@, prefix@) == Some(rest@),
{
    let p = chars_of(prefix);
    if starts_with_chars(s, p.as_slice()) {
        let rest = slice_subrange(s, p.len(), s.len());
        assert(rest@ =~= s@.skip(p@.len() as int));
        Some(rest)
    } else {
        None
    }
}

fn strip_or<'a>(s: &'a [char], prefix: &str) -> (r: &'a [char])
    ensures
        r@ == without_prefix(s@, prefix@),
{
    match strip(s, prefix) {
        Some(rest) => rest,
        None => s,
    }
}

fn holds(s: &[char], part: &str) -> (r: bool)
    ensures
        r == holds_text(s@, part@),
{
    let p = chars_of(part);
    find_part(s, p.as_slice()).is_some()
}

/// The text between the first quote of `s` and the next quote of its kind.
fn quoted_text(s: &[char]) -> (r: Option<&[char]>)
    ensures
        r is Some <==> quoted(s@) is Some,
        r matches Some(text) ==> quoted(s@) == Some(text@),
{
    let quotes: Vec<char> = vec!['\'', '"'];
    assert(quotes@ =~= seq!['\'', '"']);
    let i = find_any(s, 0, quotes.as_slice(), false);
    if i >= s.len() {
        return None;
    }
    let j = find_char(s, i + 1, s[i]);
    if j < s.len() {
        Some(slice_subrange(s, i + 1, j))
    } else {
        None
    }
}

fn push_found(out: &mut Vec<Vec<char>>, found: Option<&[char]>)
    ensures
        texts(final(out)@) == texts(old(out)@) + match found {
            Some(text) => seq![text@],
            None => Seq::empty(),
        },
{
    let ghost before = texts(out@);
    match found {
        Some(text) => {
            out.push(vstd::slice::slice_to_vec(text));
            assert(texts(out@) =~= before + seq![text@]);
        },
        None => {
            assert(texts(out@) =~= before + Seq::<Seq<char>>::empty());
        },
    }
}

fn push_quoted(out: &mut Vec<Vec<char>>, s: &[char])
    ensures
        texts(final(out)@) == texts(old(out)@) + listed(quoted(s@)),
{
    push_found(out, quoted_text(s));
}

fn push_word(out: &mut Vec<Vec<char>>, s: &[char], prefix: &str)
    ensures
        texts(final(out)@) == texts(old(out)@) + listed_word(after_prefix(s@, prefix@)),
{
    match strip(s, prefix) {
        Some(rest) => {
            push_found(out, Some(word_slice(rest)));
        },
        None => {
            push_found(out, None);
        },
    }
}

fn push_statement(out: &mut Vec<Vec<char>>, s: &[char], prefix: &str)
    ensures
        texts(final(out)@) == texts(old(out)@) + listed_statement(after_prefix(s@, prefix@)),
{
    let semicolon: Vec<char> = vec![';'];
    assert(semicolon@ =~= seq![';']);
    match strip(s, prefix) {
        Some(rest) => {
            push_found(out, Some(trim_end_set(rest, semicolon.as_slice())));
        },
        None => {
            push_found(out, None);
        },
    }
}

fn push_call(out: &mut Vec<Vec<char>>, s: &[char], call: &str)
    ensures
        texts(final(out)@) == texts(old(out)@) + call_argument(s@, call@),
{
    let c = chars_of(call);
    let n: usize = s.len();
    match find_part(s, c.as_slice()) {
        Some(at) => {
            let rest = slice_subrange(s, at + c.len(), n);
            assert(rest@ =~= s@.skip(at + c@.len()));
            push_quoted(out, rest);
        },
        None => {
            push_found(out, None);
        },
    }
}

fn python_specifiers(line: &[char]) -> (out: Vec<Vec<char>>)
    ensures
        texts(out@) == specifiers(ImportSyntax::Python, line@),
{
    let mut out: Vec<Vec<char>> = Vec::new();
    let comma: Vec<char> = vec![','];
    assert(comma@ =~= seq![',']);
    assert(texts(out@) =~= Seq::empty());
    if let Some(rest) = strip(line, "import ") {
        let parts = split(rest, comma.as_slice(), false);
        let ghost all = split_by(rest@, separators(seq![','], false));
        let ghost words = all.map_values(|part: Seq<char>| first_word(part));
        let mut k: usize = 0;
        assert(texts(parts@).len() == parts@.len());
        assert(texts(out@) =~= words.take(0));
        while k < parts.len()
            invariant
                k <= parts@.len(),
                texts(parts@) == all,
                all.len() == parts@.len(),
                words == all.map_values(|part: Seq<char>| first_word(part)),
                texts(out@) == words.take(k as int),
            decreases parts@.len() - k,
        {
            let word = word_slice(parts[k].as_slice());
            assert(texts(parts@)[k as int] == parts@[k as int]@);
            assert(word@ == words[k as int]);
            push_found(&mut out, Some(word));
            assert(texts(out@) =~= words.take(k + 1));
            k += 1;
        }
        assert(words.take(k as int) =~= words);
        assert(texts(out@) == listed_parts(after_prefix(line@, "import "@)));
    }
    push_word(&mut out, line, "from ");
    out
}

fn nix_specifiers(line: &[char]) -> (out: Vec<Vec<char>>)
    ensures
        texts(out@) == specifiers(ImportSyntax::Nix, line@),
{
    let mut out: Vec<Vec<char>> = Vec::new();
    let set: Vec<char> = vec!['(', ')', '{', '}', '[', ']', ';'];
    assert(set@ =~= seq!['(', ')', '{', '}', '[', ']', ';']);
    let here = chars_of("./");
    let above = chars_of("../");
    let tokens = split(line, set.as_slice(), true);
    let ghost all = split_by(line@, separators(set@, true));
    let ghost keep = |t: Seq<char>| starts_with(t, "./"@) || starts_with(t, "../"@);
    let mut k: usize = 0;
    assert(texts(tokens@).len() == tokens@.len());
    assert(texts(out@) =~= all.take(0).filter(keep)) by {
        reveal(Seq::filter);
    }
    while k < tokens.len()
        invariant
            k <= tokens@.len(),
            texts(tokens@) == all,
            all.len() == tokens@.len(),
            here@ == "./"@,
            above@ == "../"@,
            keep == (|t: Seq<char>| starts_with(t, "./"@) || starts_with(t, "../"@)),
            texts(out@) == all.take(k as int).filter(keep),
        decreases tokens@.len() - k,
    {
        let token = &tokens[k];
        assert(texts(tokens@)[k as int] == token@);
        let ghost before = texts(out@);
        proof {
            assert(all.take(k + 1).drop_last() =~= all.take(k as int));
            assert(all.take(k + 1).last() == token@);
            reveal(Seq::filter);
        }
        if starts_with_chars(token.as_slice(), here.as_slice()) || starts_with_chars(
            token.as_slice(),
            above.as_slice(),
        ) {
            assert(keep(token@));
            push_found(&mut out, Some(token.as_slice()));
            assert(texts(out@) =~= all.take(k + 1).filter(keep));
        } else {
            assert(!keep(token@));
        }
        k += 1;
    }
    assert(all.take(k as int) =~= all);
    out
}

/// The module specifiers that one trimmed line imports.
fn line_specifiers(syntax: ImportSyntax, line: &[char]) -> (out: Vec<Vec<char>>)
    ensures
        texts(out@) == specifiers(syntax, line@),
{
    let mut out: Vec<Vec<char>> = Vec::new();
    assert(texts(out@) =~= Seq::empty());
    let ghost none = Seq::<Seq<char>>::empty();
    assert(forall|s: Seq<Seq<char>>| #[trigger] (none + s) =~= s);
    match syntax {
        ImportSyntax::Python => {
            return python_specifiers(line);
        },
        ImportSyntax::JavaScript => {
            if strip(line, "import ").is_some() || strip(line, "export ").is_some() {
                push_quoted(&mut out, line);
            }
            push_call(&mut out, line, "require(");
            push_call(&mut out, line, "import(");
        },
        ImportSyntax::Rust => {
            let item = strip_or(line, "pub ");
            push_statement(&mut out, item, "mod ");
            push_statement(&mut out, item, "use ");
            push_statement(&mut out, item, "extern crate ");
        },
        ImportSyntax::CFamily => {
            if let Some(rest) = strip(line, "#include") {
                let t = trim_start_slice(rest);
                if t.len() > 0 && t[0] == '"' {
                    push_quoted(&mut out, rest);
                }
            }
        },
        ImportSyntax::Java => {
            if let Some(rest) = strip(line, "import ") {
                let semicolon: Vec<char> = vec![';'];
                assert(semicolon@ =~= seq![';']);
                let star = chars_of(".*");
                let name = trim_end_set(strip_or(rest, "static "), semicolon.as_slice());
                push_found(&mut out, Some(trim_end_part(name, star.as_slice())));
            }
        },
        ImportSyntax::Haskell => {
            if let Some(rest) = strip(line, "import ") {
                push_found(&mut out, Some(word_slice(strip_or(rest, "qualified "))));
            }
        },
        ImportSyntax::Ruby => {
            if strip(line, "require ").is_some() || strip(line, "require_relative ").is_some() {
                push_quoted(&mut out, line);
            }
        },
        ImportSyntax::OCaml => {
            push_word(&mut out, line, "open ");
            push_word(&mut out, line, "include ");
        },
        ImportSyntax::Lisp => {
            if holds(line, "require") || holds(line, "load") {
                push_quoted(&mut out, line);
            }
        },
        ImportSyntax::Shell => {
            push_word(&mut out, line, "source ");
            push_word(&mut out, line, ". ");
        },
        ImportSyntax::Nix => {
            return nix_specifiers(line);
        },
        ImportSyntax::CSharp => {
            push_statement(&mut out, line, "using ");
        },
        ImportSyntax::Wolfram => {
            if holds(line, "Get") || holds(line, "Needs") || holds(line, "run(") || holds(
                line,
                "source(",
            ) {
                push_quoted(&mut out, line);
            }
        },
        ImportSyntax::Unscanned => {},
    }
    out
}

fn extension_list() -> (out: Vec<String>)
    ensures
        views(out@) == import_extensions(),
{
    let out: Vec<String> = vec![
        ".py".to_owned(), ".js".to_owned(), ".mjs".to_owned(), ".cjs".to_owned(),
        ".rs".to_owned(), ".h".to_owned(), ".hpp".to_owned(), ".c".to_owned(),
        ".cpp".to_owned(), ".java".to_owned(), ".hs".to_owned(), ".rb".to_owned(),
        ".ml".to_owned(), ".rkt".to_owned(), ".scm".to_owned(), ".lisp".to_owned(),
        ".sh".to_owned(), ".nix".to_owned(), ".wl".to_owned(), ".m".to_owned(),
    ];
    assert(views(out@) =~= import_extensions());
    out
}

/// A specifier as a dotted module name.
fn name_of(specifier: &[char]) -> (out: Vec<char>)
    ensures
        out@ == module_name(specifier@),
{
    let marks: Vec<char> = vec!['\'', '"', '(', ')', ';', ','];
    assert(marks@ =~= seq!['\'', '"', '(', ')', ';', ',']);
    let bare = trim_end_set(
        trim_start_set(trim_slice(specifier), marks.as_slice()),
        marks.as_slice(),
    );
    let crate_root = chars_of("crate::");
    let self_root = chars_of("self::");
    let super_root = chars_of("super::");
    let here = chars_of("./");
    let above = chars_of("../");
    let rooted = trim_start_part(
        trim_start_part(
            trim_start_part(
                trim_start_part(
                    trim_start_part(bare, crate_root.as_slice()),
                    self_root.as_slice(),
                ),
                super_root.as_slice(),
            ),
            here.as_slice(),
        ),
        above.as_slice(),
    );
    let colons = chars_of("::");
    let dot = chars_of(".");
    let joined = replace_all(rooted, colons.as_slice(), dot.as_slice());
    let mut dotted: Vec<char> = Vec::new();
    let mut i: usize = 0;
    while i < joined.len()
        invariant
            i <= joined@.len(),
            dotted@.len() == i,
            forall|j: int| 0 <= j < i ==> #[trigger] dotted@[j] == dot_for_slash(joined@[j]),
        decreases joined@.len() - i,
    {
        let c: char = joined[i];
        dotted.push(
            if c == '/' || c == '\\' {
                '.'
            } else {
                c
            },
        );
        i += 1;
    }
    assert(dotted@ =~= joined@.map_values(|c: char| dot_for_slash(c)));
    let extensions = extension_list();
    let named = cut_suffix(dotted.as_slice(), extensions.as_slice());
    let dots: Vec<char> = vec!['.'];
    assert(dots@ =~= seq!['.']);
    let star = chars_of(".*");
    let open = chars_of("::{");
    let inner = trim_end_set(trim_start_set(named, dots.as_slice()), dots.as_slice());
    vstd::slice::slice_to_vec(
        trim_slice(trim_end_part(trim_end_part(inner, star.as_slice()), open.as_slice())),
    )
}

/// `s` without the first of `suffixes` that it ends with.
fn cut_suffix<'a>(s: &'a [char], suffixes: &[String]) -> (r: &'a [char])
    ensures
        r@ == without_suffix(s@, views(suffixes@)),
{
    let ghost all = views(suffixes@);
    let mut k: usize = 0;
    assert(all.skip(0) =~= all);
    while k < suffixes.len()
        invariant
            all == views(suffixes@),
            k <= suffixes@.len(),
            without_suffix(s@, all) == without_suffix(s@, all.skip(k as int)),
        decreases suffixes@.len() - k,
    {
        let suffix = chars_of(suffixes[k].as_str());
        assert(all.skip(k as int)[0] == suffix@);
        if ends_with_chars(s, suffix.as_slice()) {
            let head = slice_subrange(s, 0, s.len() - suffix.len());
            assert(head@ =~= s@.take(s@.len() - suffix@.len()));
            return head;
        }
        assert(all.skip(k as int).skip(1) =~= all.skip(k + 1));
        k += 1;
    }
    assert(all.skip(k as int).len() == 0);
    s
}

/// Adds the names under which the module of a specifier may be known.
fn push_import_candidates(modules: &mut Vec<String>, specifier: &[char])
    requires
        ascending(views(old(modules)@)),
    ensures
        ascending(views(final(modules)@)),
        members(final(modules)@) == members(old(modules)@).union(candidates(specifier@)),
{
    let ghost before = members(modules@);
    let name = name_of(specifier);
    if name.len() == 0 {
        assert(before.union(Set::empty()) =~= before);
        return;
    }
    let dot: Vec<char> = vec!['.'];
    assert(dot@ =~= seq!['.']);
    let parts = split(name.as_slice(), dot.as_slice(), false);
    assert(texts(parts@).len() == parts@.len());
    let first = &parts[0];
    let last = &parts[parts.len() - 1];
    assert(texts(parts@)[0] == first@);
    assert(texts(parts@).last() == last@);
    let small = lower_chars(last.as_slice());
    insert_ascending(modules, whole(name.as_slice()));
    insert_ascending(modules, whole(first.as_slice()));
    insert_ascending(modules, whole(last.as_slice()));
    insert_ascending(modules, whole(small.as_slice()));
    assert(members(modules@) =~= before.union(candidates(specifier@)));
}

fn whole(s: &[char]) -> (out: String)
    ensures
        out@ == s@,
{
    let out = string_of(s, 0, s.len());
    assert(out@ =~= s@);
    out
}

/// The names of the modules that one source file imports, in ascending order,
/// each once.
pub fn imported_modules(source: &str, ext_map: &ExtensionMap, path: &str) -> (modules: Vec<String>)
    ensures
        ascending(views(modules@)),
        members(modules@) == imports(syntax_of(backend_of(path@, ext_map.pairs())), source@),
{
    let backend = file_backend(path, ext_map);
    let syntax = import_syntax(backend.as_str());
    let chars = chars_of(source);
    let mut modules: Vec<String> = Vec::new();
    let mut pos: usize = 0;
    assert(views(modules@) =~= Seq::empty());
    assert(members(modules@) =~= Set::empty());
    assert(source@.skip(0) =~= source@);
    assert(members(modules@).union(imports(syntax, source@)) =~= imports(syntax, source@));
    while pos < chars.len()
        invariant
            chars@ == source@,
            pos <= chars@.len(),
            ascending(views(modules@)),
            members(modules@).union(imports(syntax, source@.skip(pos as int))) == imports(
                syntax,
                source@,
            ),
        decreases chars@.len() - pos,
    {
        let rest = slice_subrange(chars.as_slice(), pos, chars.len());
        let ghost suffix = source@.skip(pos as int);
        assert(rest@ =~= suffix);
        let (end, next) = read_line(rest);
        let line = trim_slice(slice_subrange(rest, 0, end));
        assert(rest@.subrange(0, end as int) =~= rest@.take(end as int));
        let found = line_specifiers(syntax, line);
        let ghost before = members(modules@);
        let ghost list = texts(found@);
        let mut k: usize = 0;
        assert(list.skip(0) =~= list);
        while k < found.len()
            invariant
                k <= found@.len(),
                list == texts(found@),
                list.len() == found@.len(),
                ascending(views(modules@)),
                members(modules@).union(names_of(list.skip(k as int))) == before.union(
                    names_of(list),
                ),
            decreases found@.len() - k,
        {
            let ghost so_far = members(modules@);
            push_import_candidates(&mut modules, found[k].as_slice());
            proof {
                let tail = list.skip(k as int);
                assert(tail[0] == found@[k as int]@);
                assert(tail.skip(1) =~= list.skip(k + 1));
                assert(members(modules@).union(names_of(list.skip(k + 1))) =~= so_far.union(
                    candidates(tail[0]).union(names_of(tail.skip(1))),
                ));
            }
            k += 1;
        }
        proof {
            assert(list.skip(k as int).len() == 0);
            assert(members(modules@).union(Set::empty()) =~= members(modules@));
            assert(source@.skip(pos + next) =~= after_line(suffix));
            assert(members(modules@).union(imports(syntax, after_line(suffix))) =~= before.union(
                names_of(list).union(imports(syntax, after_line(suffix))),
            ));
        }
        pos += next;
    }
    assert(source@.skip(pos as int).len() == 0);
    assert(members(modules@).union(Set::empty()) =~= members(modules@));
    modules
}

} // verus!
