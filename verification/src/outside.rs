//! The calls that leave the library, and what it relies on of them.

use sha2::Digest;
use vstd::prelude::*;

verus! {

/// The error of the operating system's random number source.
#[verifier::external_type_specification]
#[verifier::external_body]
pub struct ExRandomError(getrandom::Error);

/// `getrandom::fill` fills the buffer it is given with bytes from the
/// operating system's random number source, or fails. Nothing is said of which
/// bytes they are: they rest on chance.
#[verifier::external_body]
pub(crate) fn random_bytes(count: usize) -> (r: Result<Vec<u8>, getrandom::Error>)
    ensures
        r matches Ok(bytes) ==> bytes@.len() == count,
{
    let mut bytes = vec![0u8; count];
    getrandom::fill(&mut bytes)?;
    Ok(bytes)
}

/// The lowercase hexadecimal digit of a number below 16.
pub open spec fn hex_digit(n: u8) -> char {
    if n < 10 {
        (48 + n) as char
    } else {
        (87 + n) as char
    }
}

/// Bytes in lowercase hexadecimal, two digits each, the high one first.
pub open spec fn hex_text(bytes: Seq<u8>) -> Seq<char> {
    Seq::new(
        2 * bytes.len(),
        |i: int|
            if i % 2 == 0 {
                hex_digit(bytes[i / 2] / 16)
            } else {
                hex_digit(bytes[i / 2] % 16)
            },
    )
}

/// `hex::encode` writes bytes in lowercase hexadecimal, two digits each, the
/// high one first.
#[verifier::external_body]
pub(crate) fn hex_encode(bytes: &[u8]) -> (out: String)
    ensures
        out@ == hex_text(bytes@),
{
    hex::encode(bytes)
}

/// The SHA-256 digest of a byte string.
pub uninterp spec fn sha256(bytes: Seq<u8>) -> Seq<u8>;

/// `sha2::Sha256::digest` gives the SHA-256 digest of a byte string, which has
/// 32 bytes.
#[verifier::external_body]
pub(crate) fn sha256_digest(bytes: &[u8]) -> (digest: Vec<u8>)
    ensures
        digest@ == sha256(bytes@),
        digest@.len() == 32,
{
    sha2::Sha256::digest(bytes).to_vec()
}

/// The rules of one ignore file, as they are gathered.
#[verifier::external_type_specification]
#[verifier::external_body]
pub struct ExGitignoreBuilder(ignore::gitignore::GitignoreBuilder);

/// The rules of one ignore file, ready to be asked.
#[verifier::external_type_specification]
#[verifier::external_body]
pub struct ExGitignore(ignore::gitignore::Gitignore);

/// The directory that gathered rules are for, and the lines they came from.
pub uninterp spec fn gathered_rules(
    builder: ignore::gitignore::GitignoreBuilder,
) -> (Seq<char>, Seq<Seq<char>>);

/// The directory that rules are for, and the lines they came from.
pub uninterp spec fn ready_rules(matcher: ignore::gitignore::Gitignore) -> (
    Seq<char>,
    Seq<Seq<char>>,
);

/// What is wrong with a line of an ignore file, if anything is.
pub uninterp spec fn line_fault(line: Seq<char>) -> Option<Seq<char>>;

/// What is wrong with the rules of some lines taken together, if anything is.
pub uninterp spec fn rules_fault(lines: Seq<Seq<char>>) -> Option<Seq<char>>;

/// What rules say of a path.
#[derive(Clone, Copy, Debug, PartialEq, Eq, Structural)]
pub enum IgnoreVerdict {
    /// No rule matches.
    Silent,
    /// The last rule that matches ignores the path.
    Ignored,
    /// The last rule that matches keeps the path.
    Kept,
}

/// What the rules of some lines, for one directory, say of a path.
pub uninterp spec fn ignore_verdict(
    root: Seq<char>,
    lines: Seq<Seq<char>>,
    path: Seq<char>,
    is_dir: bool,
) -> IgnoreVerdict;

/// `ignore::gitignore::GitignoreBuilder::new` starts to gather the rules for a
/// directory.
#[verifier::external_body]
pub(crate) fn start_rules(root: &str) -> (builder: ignore::gitignore::GitignoreBuilder)
    ensures
        gathered_rules(builder) == (root@, Seq::<Seq<char>>::empty()),
{
    ignore::gitignore::GitignoreBuilder::new(root)
}

/// `ignore::gitignore::GitignoreBuilder::add_line` takes the rule of one line,
/// or says what is wrong with the line and takes none of it. Which of the two
/// depends on the line alone.
#[verifier::external_body]
pub(crate) fn add_rule_line(
    builder: &mut ignore::gitignore::GitignoreBuilder,
    line: &str,
) -> (r: Result<(), String>)
    ensures
        gathered_rules(*final(builder)) == (
            gathered_rules(*old(builder)).0,
            gathered_rules(*old(builder)).1.push(line@),
        ),
        r is Ok <==> line_fault(line@) is None,
        r is Err ==> line_fault(line@) == Some(r->Err_0@),
{
    match builder.add_line(None, line) {
        Ok(_) => Ok(()),
        Err(error) => Err(error.to_string()),
    }
}

/// `ignore::gitignore::GitignoreBuilder::build` makes the rules ready that were
/// gathered, or says what is wrong with them, taken together.
#[verifier::external_body]
pub(crate) fn finish_rules(builder: &ignore::gitignore::GitignoreBuilder) -> (r: Result<
    ignore::gitignore::Gitignore,
    String,
>)
    ensures
        r is Ok <==> rules_fault(gathered_rules(*builder).1) is None,
        r is Ok ==> ready_rules(r->Ok_0) == gathered_rules(*builder),
        r is Err ==> rules_fault(gathered_rules(*builder).1) == Some(r->Err_0@),
{
    builder.build().map_err(|error| error.to_string())
}

/// `ignore::gitignore::Gitignore::matched` says what the rules make of a path,
/// which depends on their directory and lines, on the path, and on whether the
/// path is a directory.
#[verifier::external_body]
pub(crate) fn rules_matched(
    matcher: &ignore::gitignore::Gitignore,
    path: &str,
    is_dir: bool,
) -> (verdict: IgnoreVerdict)
    ensures
        verdict == ignore_verdict(
            ready_rules(*matcher).0,
            ready_rules(*matcher).1,
            path@,
            is_dir,
        ),
{
    match matcher.matched(path, is_dir) {
        ignore::Match::None => IgnoreVerdict::Silent,
        ignore::Match::Ignore(_) => IgnoreVerdict::Ignored,
        ignore::Match::Whitelist(_) => IgnoreVerdict::Kept,
    }
}

/// A character inside a JSON string.
pub open spec fn json_character(c: char) -> Seq<char> {
    if c == '"' || c == '\\' {
        seq!['\\', c]
    } else if c as u32 == 8 {
        seq!['\\', 'b']
    } else if c as u32 == 9 {
        seq!['\\', 't']
    } else if c as u32 == 10 {
        seq!['\\', 'n']
    } else if c as u32 == 12 {
        seq!['\\', 'f']
    } else if c as u32 == 13 {
        seq!['\\', 'r']
    } else if (c as u32) < 32 {
        seq!['\\', 'u', '0', '0', hex_digit((c as u8) / 16), hex_digit((c as u8) % 16)]
    } else {
        seq![c]
    }
}

/// The characters of a text inside a JSON string.
pub open spec fn json_characters(text: Seq<char>) -> Seq<char>
    decreases text.len(),
{
    if text.len() == 0 {
        Seq::empty()
    } else {
        json_characters(text.drop_last()) + json_character(text.last())
    }
}

/// A text as a JSON string, with its quotes.
pub open spec fn json_quoted(text: Seq<char>) -> Seq<char> {
    seq!['"'] + json_characters(text) + seq!['"']
}

/// `serde_json::Value::to_string` of a string value writes it as JSON: between
/// quotes, with a backslash before a quote and a backslash, a short or numbered
/// escape for each control character below the space, and all else as it is.
#[verifier::external_body]
pub(crate) fn json_string(text: &str) -> (out: String)
    ensures
        out@ == json_quoted(text@),
{
    serde_json::Value::from(text).to_string()
}

/// A text as a Rust string literal, with its quotes.
pub uninterp spec fn literal_of(text: Seq<char>) -> Seq<char>;

/// `format!` with `{:?}` writes a text as a Rust string literal.
#[verifier::external_body]
pub(crate) fn string_literal(text: &str) -> (out: String)
    ensures
        out@ == literal_of(text@),
{
    format!("{text:?}")
}

} // verus!
