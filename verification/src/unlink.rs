//! Recovering the source files of a linked `.O` document.
//!
//! A linked document holds one section per file. A section starts with a
//! marker line `# ── path ──`; the line after it may give the number of bytes
//! of the section body, and then the body is exactly those bytes. Without it
//! the section reaches to the next marker line.

use vstd::prelude::*;
use vstd::slice::slice_subrange;

use crate::escape::{
    begins_ident, continues_ident, digit_run, escaped_len, escaped_length, exact_closer,
    exact_closer_at, ident_run, ident_start, lemma_escaped_length, lemma_ident_run,
    lemma_opener_length, opener_len, opener_length, unescape, unescape_body,
};
use crate::files::{is_o_file, is_o_path};
use crate::text::{
    all_digits, any_of, ascii_digit, byte_len, chars_in_bytes, chars_of, count_chars_in_bytes,
    digits_value, ends_with, ends_with_chars, find_char, lemma_chars_in_bytes, after_line,
    first_line, lemma_after_line, lemma_position_from, members, parse_digits, position_from,
    starts_with, starts_with_chars, string_of, trim, trim_end_by, trim_end_set, trim_slice,
    trim_start_by, trim_start_set, views, without_return,
};

verus! {

/// What precedes the byte count on a section's length line.
pub const SECTION_LENGTH_PREFIX: &'static str = "# o-link-section-bytes: ";

/// How the comment at the top of a linked document begins.
pub const GENERATED_HEADER: &'static str = "# Linked by o-link";

/// Why a linked document could not be taken apart.
#[derive(Debug)]
pub enum UnlinkError {
    /// The block of the section at `path` has no matching closer.
    UnterminatedBlock { path: String },
}

/// The language tags that may open a block: canonical names, then aliases.
pub open spec fn registered_names() -> Seq<Seq<char>> {
    seq![
        "O"@, "python"@, "html"@, "latex"@, "markdown"@, "bash"@, "shell"@, "rust"@, "racket"@,
        "nix"@, "nix_expr"@, "nix_store"@, "nixos_test"@, "text"@, "csharp"@, "c"@, "cpp"@,
        "haskell"@, "lisp"@, "common_lisp"@, "sql"@, "ruby"@, "matlab"@, "mathematica"@,
        "webassembly"@, "java"@, "javascript"@, "ocaml"@, "quote"@, "py"@, "md"@, "tex"@,
        "plain"@, "o"@,
    ]
}

/// The language tags that may open a block.
pub open spec fn registered_tags() -> Set<Seq<char>> {
    registered_names().to_set()
}

/// The language tags that may open a block: canonical names, then aliases.
pub fn registered_backends() -> (tags: Vec<String>)
    ensures
        views(tags@) == registered_names(),
        members(tags@) == registered_tags(),
{
    let tags: Vec<String> = vec![
        "O".to_owned(), "python".to_owned(), "html".to_owned(), "latex".to_owned(),
        "markdown".to_owned(), "bash".to_owned(), "shell".to_owned(), "rust".to_owned(),
        "racket".to_owned(), "nix".to_owned(), "nix_expr".to_owned(), "nix_store".to_owned(),
        "nixos_test".to_owned(), "text".to_owned(), "csharp".to_owned(), "c".to_owned(),
        "cpp".to_owned(), "haskell".to_owned(), "lisp".to_owned(), "common_lisp".to_owned(),
        "sql".to_owned(), "ruby".to_owned(), "matlab".to_owned(), "mathematica".to_owned(),
        "webassembly".to_owned(), "java".to_owned(), "javascript".to_owned(),
        "ocaml".to_owned(), "quote".to_owned(), "py".to_owned(), "md".to_owned(),
        "tex".to_owned(), "plain".to_owned(), "o".to_owned(),
    ];
    assert(views(tags@) =~= registered_names());
    tags
}

/// `s` without a trailing `──` or `--` and the spaces before it.
pub open spec fn strip_dashes(s: Seq<char>) -> Seq<char> {
    if ends_with(s, seq!['─', '─']) || ends_with(s, seq!['-', '-']) {
        trim_end_by(s.take(s.len() - 2), any_of(seq![' ']))
    } else {
        s
    }
}

/// The path that a marker line `# ── path ──` (or `# -- path --`) names.
pub open spec fn path_marker(line: Seq<char>) -> Option<Seq<char>> {
    let t = trim(line);
    if t.len() < 4 || t[0] != '#' || t[1] != ' ' || !((t[2] == '─' && t[3] == '─') || (t[2] == '-'
        && t[3] == '-')) {
        None
    } else {
        let path = trim(strip_dashes(trim_start_by(t.skip(4), any_of(seq![' ']))));
        if path.len() == 0 {
            None
        } else {
            Some(path)
        }
    }
}

fn marker_of(line: &[char]) -> (r: Option<String>)
    ensures
        r is Some <==> path_marker(line@) is Some,
        r matches Some(path) ==> path_marker(line@) == Some(path@),
{
    let t = trim_slice(line);
    if t.len() < 4 || t[0] != '#' || t[1] != ' ' || !((t[2] == '─' && t[3] == '─') || (t[2] == '-'
        && t[3] == '-')) {
        return None;
    }
    let after = slice_subrange(t, 4, t.len());
    assert(after@ =~= t@.skip(4));
    let blank: Vec<char> = vec![' '];
    let boxes: Vec<char> = vec!['─', '─'];
    let dashes: Vec<char> = vec!['-', '-'];
    assert(blank@ =~= seq![' ']);
    assert(boxes@ =~= seq!['─', '─']);
    assert(dashes@ =~= seq!['-', '-']);
    let named = trim_start_set(after, blank.as_slice());
    let bare = if ends_with_chars(named, boxes.as_slice()) || ends_with_chars(
        named,
        dashes.as_slice(),
    ) {
        let head = slice_subrange(named, 0, named.len() - 2);
        assert(head@ =~= named@.take(named@.len() - 2));
        trim_end_set(head, blank.as_slice())
    } else {
        named
    };
    assert(bare@ == strip_dashes(named@));
    let path = trim_slice(bare);
    if path.len() == 0 {
        None
    } else {
        let out = string_of(path, 0, path.len());
        assert(out@ =~= path@);
        Some(out)
    }
}

/// Parses a `# ── <path> ──` line and returns the embedded path.
pub fn parse_path_marker(line: &str) -> (r: Option<String>)
    ensures
        r is Some <==> path_marker(line@) is Some,
        r matches Some(path) ==> path_marker(line@) == Some(path@),
{
    let chars = chars_of(line);
    marker_of(chars.as_slice())
}

/// Whether `s` begins with `# ── ` or `# -- `.
pub open spec fn begins_marker(s: Seq<char>) -> bool {
    starts_with(s, seq!['#', ' ', '─', '─', ' ']) || starts_with(s, seq!['#', ' ', '-', '-', ' '])
}

/// The number of bytes of `text` before its first `# ── ` or `# -- `.
pub fn find_path_marker(text: &str) -> (r: Option<u128>)
    ensures
        r is None ==> forall|i: int| 0 <= i <= text@.len() ==> !begins_marker(#[trigger] text@.skip(i)),
        r matches Some(offset) ==> exists|i: int|
            {
                &&& 0 <= i <= text@.len()
                &&& begins_marker(#[trigger] text@.skip(i))
                &&& offset == byte_len(text@.take(i))
                &&& forall|j: int| 0 <= j < i ==> !begins_marker(#[trigger] text@.skip(j))
            },
{
    let chars = chars_of(text);
    let boxes: Vec<char> = vec!['#', ' ', '─', '─', ' '];
    let dashes: Vec<char> = vec!['#', ' ', '-', '-', ' '];
    assert(boxes@ =~= seq!['#', ' ', '─', '─', ' ']);
    assert(dashes@ =~= seq!['#', ' ', '-', '-', ' ']);
    let mut i: usize = 0;
    while i < chars.len()
        invariant
            chars@ == text@,
            boxes@ == seq!['#', ' ', '─', '─', ' '],
            dashes@ == seq!['#', ' ', '-', '-', ' '],
            i <= chars@.len(),
            forall|j: int| 0 <= j < i ==> !begins_marker(#[trigger] text@.skip(j)),
        decreases chars@.len() - i,
    {
        let rest = slice_subrange(chars.as_slice(), i, chars.len());
        assert(rest@ =~= text@.skip(i as int));
        if starts_with_chars(rest, boxes.as_slice()) || starts_with_chars(rest, dashes.as_slice()) {
            assert(begins_marker(text@.skip(i as int)));
            let head = slice_subrange(chars.as_slice(), 0, i);
            assert(head@ =~= text@.take(i as int));
            let offset = crate::text::byte_length(head);
            return Some(offset);
        }
        i += 1;
    }
    assert(text@.skip(text@.len() as int).len() == 0);
    None
}

/// Where the body of a sized section lies in the text that follows its marker
/// line: `(start, end)`, if that text begins with a length line that fits.
pub open spec fn sized_body(s: Seq<char>) -> Option<(int, int)> {
    let k = SECTION_LENGTH_PREFIX@.len() as int;
    let line = first_line(s);
    if !starts_with(line, SECTION_LENGTH_PREFIX@) || line.len() == s.len() {
        None
    } else {
        let digits = line.skip(k);
        if digits.len() == 0 || !all_digits(digits) {
            None
        } else {
            let start = line.len() as int + 1;
            match chars_in_bytes(s.skip(start), digits_value(digits)) {
                Some(count) => Some((start, start + count)),
                None => None,
            }
        }
    }
}

/// Where the next marker line starts in `s`, or the length of `s`.
pub open spec fn next_marker(s: Seq<char>) -> int
    decreases s.len() via next_marker_decreases
{
    if s.len() == 0 || path_marker(first_line(s)) is Some {
        0
    } else {
        let p = position_from(s, 0, '\n');
        if p < s.len() {
            p + 1 + next_marker(s.skip(p + 1))
        } else {
            s.len() as int
        }
    }
}

#[via_fn]
proof fn next_marker_decreases(s: Seq<char>) {
    lemma_position_from(s, 0, '\n');
}

/// One section of a linked document.
pub ghost struct SectionText {
    pub path: Seq<char>,
    pub body: Seq<char>,
    pub sized: bool,
}

/// The sections of a linked document, in order.
pub open spec fn sections(s: Seq<char>) -> Seq<SectionText>
    decreases s.len() via sections_decreases
{
    if s.len() == 0 {
        Seq::empty()
    } else {
        let rest = after_line(s);
        match path_marker(first_line(s)) {
            None => sections(rest),
            Some(path) => match sized_body(rest) {
                Some((start, end)) => seq![
                    SectionText { path, body: rest.subrange(start, end), sized: true },
                ] + sections(rest.skip(end)),
                None => seq![
                    SectionText { path, body: rest.take(next_marker(rest)), sized: false },
                ] + sections(rest.skip(next_marker(rest))),
            },
        }
    }
}

#[via_fn]
proof fn sections_decreases(s: Seq<char>) {
    lemma_after_line(s);
    lemma_sized_body(after_line(s));
    lemma_next_marker(after_line(s));
}

proof fn lemma_sized_body(s: Seq<char>)
    ensures
        sized_body(s) matches Some((start, end)) ==> 0 < start <= end <= s.len(),
{
    lemma_position_from(s, 0, '\n');
    let start = first_line(s).len() as int + 1;
    if start <= s.len() {
        lemma_chars_in_bytes(
            s.skip(start),
            digits_value(first_line(s).skip(SECTION_LENGTH_PREFIX@.len() as int)),
        );
    }
}

proof fn lemma_next_marker(s: Seq<char>)
    ensures
        0 <= next_marker(s) <= s.len(),
    decreases s.len(),
{
    lemma_position_from(s, 0, '\n');
    if s.len() == 0 || path_marker(first_line(s)) is Some {
    } else {
        let p = position_from(s, 0, '\n');
        if p < s.len() {
            lemma_next_marker(s.skip(p + 1));
        }
    }
}

/// The lines of an inlined `.O` source, without the comment that heads a
/// linked document.
pub open spec fn raw_lines(s: Seq<char>) -> Seq<char>
    decreases s.len() via raw_lines_decreases
{
    if s.len() == 0 {
        Seq::empty()
    } else if starts_with(without_return(s), GENERATED_HEADER@) {
        raw_lines(after_line(s))
    } else {
        without_return(s).push('\n') + raw_lines(after_line(s))
    }
}

#[via_fn]
proof fn raw_lines_decreases(s: Seq<char>) {
    lemma_after_line(s);
}

/// Where an `IDENT`, `IDENT[N]` or `IDENT[*]` that ends at `e` meets its `^(`.
pub open spec fn after_marker(s: Seq<char>, e: int) -> int {
    if e < s.len() && s[e] == '[' {
        let j = if e + 1 < s.len() && s[e + 1] == '*' {
            e + 2
        } else {
            digit_run(s, e + 1)
        };
        if j < s.len() && s[j] == ']' {
            j + 1
        } else {
            j
        }
    } else {
        e
    }
}

/// Position of the first registered `IDENT[N]^(` at or after `i`, where
/// identifiers are read whole.
pub open spec fn typed_opener(s: Seq<char>, i: int, tags: Set<Seq<char>>) -> Option<int>
    decreases s.len() - i via typed_opener_decreases
{
    if i < 0 || i >= s.len() {
        None
    } else if ident_start(s[i]) {
        let e = ident_run(s, i + 1);
        let j = after_marker(s, e);
        if tags.contains(s.subrange(i, e)) && j + 1 < s.len() && s[j] == '^' && s[j + 1] == '(' {
            Some(i)
        } else {
            typed_opener(s, e, tags)
        }
    } else {
        typed_opener(s, i + 1, tags)
    }
}

#[via_fn]
proof fn typed_opener_decreases(s: Seq<char>, i: int, tags: Set<Seq<char>>) {
    if 0 <= i < s.len() {
        lemma_ident_run(s, i + 1);
    }
}

/// Position of the first opener at or after `i`.
pub open spec fn first_opener(s: Seq<char>, i: int, tags: Set<Seq<char>>) -> Option<int>
    decreases s.len() - i,
{
    if i < 0 || i >= s.len() {
        None
    } else if opener_length(s.skip(i), tags) is Some {
        Some(i)
    } else {
        first_opener(s, i + 1, tags)
    }
}

/// `head` before a text that may be missing.
pub open spec fn before(head: Seq<char>, tail: Option<Seq<char>>) -> Option<Seq<char>> {
    match tail {
        Some(text) => Some(head + text),
        None => None,
    }
}

/// The text up to the closer that ends the outermost open block; `closers`
/// lists the closers of the open blocks, innermost last. The outermost block's
/// own text is unescaped; nested blocks stay as they are written. `None` if a
/// block is not closed.
pub open spec fn read_block(
    s: Seq<char>,
    closers: Seq<Seq<char>>,
    tags: Set<Seq<char>>,
) -> Option<Seq<char>>
    decreases s.len() via read_block_decreases
{
    if s.len() == 0 || closers.len() == 0 {
        None
    } else {
        let top = closers.last();
        if exact_closer(s, top) {
            if closers.len() == 1 {
                Some(Seq::empty())
            } else {
                before(top, read_block(s.skip(top.len() as int), closers.drop_last(), tags))
            }
        } else if s[0] == '\\' && escaped_length(s.skip(1), top, tags) is Some {
            let n = escaped_length(s.skip(1), top, tags)->Some_0;
            let from = if closers.len() == 1 {
                1int
            } else {
                0int
            };
            before(s.subrange(from, 1 + n), read_block(s.skip(1 + n), closers, tags))
        } else if opener_length(s, tags) is Some {
            let n = opener_length(s, tags)->Some_0;
            before(
                s.take(n),
                read_block(s.skip(n), closers.push(closer_of(s.take(n))), tags),
            )
        } else {
            before(seq![s[0]], read_block(s.skip(1), closers, tags))
        }
    }
}

#[via_fn]
proof fn read_block_decreases(s: Seq<char>, closers: Seq<Seq<char>>, tags: Set<Seq<char>>) {
    lemma_opener_length(s, tags);
    if s.len() > 0 && closers.len() > 0 {
        lemma_escaped_length(s.skip(1), closers.last(), tags);
    }
}

/// The closer `)_TAG` of an opener `TAG^(`.
pub open spec fn closer_of(opener: Seq<char>) -> Seq<char> {
    seq![')', '_'] + opener.take(opener.len() - 2)
}

/// What a section holds.
pub ghost enum Content {
    /// The text of one file.
    File(Seq<char>),
    /// Nothing to write.
    Nothing,
    /// A block without its closer.
    Unterminated,
}

/// The text of the first block of `s`, without the line feed it starts with.
pub open spec fn block_content(s: Seq<char>, tags: Set<Seq<char>>) -> Option<Content> {
    match typed_opener(s, 0, tags) {
        None => None,
        Some(p) => match first_opener(s, p, tags) {
            None => None,
            Some(q) => {
                let n = opener_length(s.skip(q), tags)->Some_0;
                let closer = closer_of(s.subrange(q, q + n));
                match read_block(s.skip(q + n), seq![closer], tags) {
                    None => Some(Content::Unterminated),
                    Some(text) => Some(
                        Content::File(
                            if text.len() > 0 && text[0] == '\n' {
                                text.skip(1)
                            } else {
                                text
                            },
                        ),
                    ),
                }
            },
        },
    }
}

/// The text wrapped by a section body that is exactly one block, as linking
/// writes it: `TAG^(`, a line feed, escaped text, `)_TAG`, a line feed.
pub open spec fn wrapped_text(s: Seq<char>, tags: Set<Seq<char>>) -> Option<Seq<char>> {
    match opener_length(s, tags) {
        None => None,
        Some(n) => {
            let closer = closer_of(s.take(n));
            let end = s.len() - closer.len() - 1;
            if n + 1 <= end && s[n] == '\n' && s.skip(end) == closer.push('\n') {
                Some(unescape(s.subrange(n + 1, end), closer, tags))
            } else {
                None
            }
        },
    }
}

/// A text, unless it is blank.
pub open spec fn unless_blank(s: Seq<char>) -> Content {
    if trim(s).len() == 0 {
        Content::Nothing
    } else {
        Content::File(s)
    }
}

/// What a section holds. An inlined `.O` source is kept as it stands; any
/// other file is the text of its block.
pub open spec fn section_content(section: SectionText, tags: Set<Seq<char>>) -> Content {
    if is_o_path(section.path) {
        unless_blank(
            if section.sized {
                section.body
            } else {
                raw_lines(section.body)
            },
        )
    } else if section.sized && wrapped_text(section.body, tags) is Some {
        Content::File(wrapped_text(section.body, tags)->Some_0)
    } else {
        match block_content(section.body, tags) {
            Some(content) => content,
            None => unless_blank(raw_lines(section.body)),
        }
    }
}

/// The files of a list of sections. `None` if one of them has a block without
/// its closer.
pub open spec fn files_of(list: Seq<SectionText>, tags: Set<Seq<char>>) -> Option<
    Seq<(Seq<char>, Seq<char>)>,
>
    decreases list.len(),
{
    if list.len() == 0 {
        Some(Seq::empty())
    } else {
        match (section_content(list[0], tags), files_of(list.skip(1), tags)) {
            (Content::Unterminated, _) => None,
            (_, None) => None,
            (Content::Nothing, Some(rest)) => Some(rest),
            (Content::File(text), Some(rest)) => Some(seq![(list[0].path, text)] + rest),
        }
    }
}

/// `s` without a leading `#!` line.
pub open spec fn without_shebang(s: Seq<char>) -> Seq<char> {
    if s.len() >= 2 && s[0] == '#' && s[1] == '!' {
        after_line(s)
    } else {
        s
    }
}

/// The files that a linked document holds.
pub open spec fn unlinked(source: Seq<char>, tags: Set<Seq<char>>) -> Option<
    Seq<(Seq<char>, Seq<char>)>,
> {
    files_of(sections(without_shebang(source)), tags)
}

/// The path of the first section whose block has no closer.
pub open spec fn first_unterminated(list: Seq<SectionText>, tags: Set<Seq<char>>) -> Option<
    Seq<char>,
>
    decreases list.len(),
{
    if list.len() == 0 {
        None
    } else if section_content(list[0], tags) is Unterminated {
        Some(list[0].path)
    } else {
        first_unterminated(list.skip(1), tags)
    }
}

/// What a section holds.
enum Recovered {
    File(String),
    Nothing,
    Unterminated,
}

impl Recovered {
    spec fn content(self) -> Content {
        match self {
            Recovered::File(text) => Content::File(text@),
            Recovered::Nothing => Content::Nothing,
            Recovered::Unterminated => Content::Unterminated,
        }
    }
}

/// Where the next marker line starts in `s`.
fn next_marker_line(s: &[char]) -> (r: usize)
    ensures
        r == next_marker(s@),
        r <= s@.len(),
{
    let mut pos: usize = 0;
    assert(s@.skip(0) =~= s@);
    while pos < s.len()
        invariant
            pos <= s@.len(),
            next_marker(s@) == pos + next_marker(s@.skip(pos as int)),
        decreases s@.len() - pos,
    {
        let rest = slice_subrange(s, pos, s.len());
        assert(rest@ =~= s@.skip(pos as int));
        let p = find_char(rest, 0, '\n');
        let line = slice_subrange(rest, 0, p);
        assert(line@ =~= first_line(rest@));
        if marker_of(line).is_some() {
            return pos;
        }
        if p >= rest.len() {
            return s.len();
        }
        assert(rest@.skip(p + 1) =~= s@.skip(pos + p + 1));
        pos = pos + p + 1;
    }
    assert(s@.skip(pos as int).len() == 0);
    pos
}

/// Where the body of a sized section lies in the text after its marker line.
fn sized_range(s: &[char]) -> (r: Option<(usize, usize)>)
    ensures
        r is Some <==> sized_body(s@) is Some,
        r matches Some((start, end)) ==> sized_body(s@) == Some((start as int, end as int)) && start
            <= end <= s@.len(),
{
    let prefix = chars_of(SECTION_LENGTH_PREFIX);
    let p = find_char(s, 0, '\n');
    let line = slice_subrange(s, 0, p);
    assert(line@ =~= first_line(s@));
    if !starts_with_chars(line, prefix.as_slice()) || p == s.len() {
        return None;
    }
    let digits = slice_subrange(line, prefix.len(), p);
    assert(digits@ =~= line@.skip(prefix@.len() as int));
    let rest = slice_subrange(s, p + 1, s.len());
    assert(rest@ =~= s@.skip(p + 1));
    match parse_digits(digits) {
        None => {
            proof {
                lemma_chars_in_bytes(rest@, digits_value(digits@));
            }
            None
        },
        Some(value) => match count_chars_in_bytes(rest, value) {
            None => None,
            Some(count) => Some((p + 1, p + 1 + count)),
        },
    }
}

/// The lines of an inlined `.O` source, without the comment that heads a
/// linked document.
fn raw_o_content(s: &[char]) -> (out: String)
    ensures
        out@ == raw_lines(s@),
{
    let header = chars_of(GENERATED_HEADER);
    let mut out = String::new();
    let mut pos: usize = 0;
    assert(s@.skip(0) =~= s@);
    assert(out@ + raw_lines(s@) =~= raw_lines(s@));
    while pos < s.len()
        invariant
            header@ == GENERATED_HEADER@,
            pos <= s@.len(),
            out@ + raw_lines(s@.skip(pos as int)) == raw_lines(s@),
        decreases s@.len() - pos,
    {
        let rest = slice_subrange(s, pos, s.len());
        assert(rest@ =~= s@.skip(pos as int));
        let p = find_char(rest, 0, '\n');
        let end: usize = if p > 0 && p < rest.len() && rest[p - 1] == '\r' {
            p - 1
        } else {
            p
        };
        let line = slice_subrange(rest, 0, end);
        assert(line@ =~= without_return(rest@));
        let ghost old_out = out@;
        if !starts_with_chars(line, header.as_slice()) {
            let kept = string_of(line, 0, line.len());
            assert(kept@ =~= line@);
            out.append(kept.as_str());
            out.push('\n');
            assert(out@ =~= old_out + without_return(rest@).push('\n'));
            assert(out@ + raw_lines(after_line(rest@)) =~= old_out + (without_return(rest@).push(
                '\n',
            ) + raw_lines(after_line(rest@))));
        }
        if p < rest.len() {
            assert(rest@.skip(p + 1) =~= s@.skip(pos + p + 1));
            pos = pos + p + 1;
        } else {
            assert(s@.skip(s@.len() as int) =~= Seq::<char>::empty());
            pos = s.len();
        }
    }
    assert(s@.skip(pos as int).len() == 0);
    assert(out@ =~= out@ + raw_lines(s@.skip(pos as int)));
    out
}

/// Position of the first registered `IDENT[N]^(` in `s`.
fn find_typed_opener(s: &[char], tags: &[String]) -> (r: Option<usize>)
    ensures
        r is Some <==> typed_opener(s@, 0, members(tags@)) is Some,
        r matches Some(p) ==> typed_opener(s@, 0, members(tags@)) == Some(p as int) && p < s@.len(),
{
    let ghost set = members(tags@);
    let mut i: usize = 0;
    while i < s.len()
        invariant
            set == members(tags@),
            i <= s@.len(),
            typed_opener(s@, 0, set) == typed_opener(s@, i as int, set),
        decreases s@.len() - i,
    {
        if begins_ident(s[i]) {
            let start: usize = i;
            let mut e: usize = i + 1;
            while e < s.len() && continues_ident(s[e])
                invariant
                    start < e <= s@.len(),
                    ident_run(s@, start + 1) == ident_run(s@, e as int),
                decreases s@.len() - e,
            {
                e += 1;
            }
            if crate::text::list_contains(tags, slice_subrange(s, start, e)) {
                let mut j: usize = e;
                if j < s.len() && s[j] == '[' {
                    j += 1;
                    if j < s.len() && s[j] == '*' {
                        j += 1;
                    } else {
                        while j < s.len() && ascii_digit(s[j])
                            invariant
                                e + 1 <= j <= s@.len(),
                                digit_run(s@, e + 1) == digit_run(s@, j as int),
                            decreases s@.len() - j,
                        {
                            j += 1;
                        }
                    }
                    if j < s.len() && s[j] == ']' {
                        j += 1;
                    }
                }
                assert(j == after_marker(s@, e as int));
                if j < s.len() && j + 1 < s.len() && s[j] == '^' && s[j + 1] == '(' {
                    return Some(start);
                }
            }
            i = e;
        } else {
            i += 1;
        }
    }
    None
}

/// The text of the block that `closer` ends, where `s` follows its opener.
#[verifier::rlimit(50)]
fn read_block_text(s: &[char], closer: Vec<char>, tags: &[String]) -> (r: Option<String>)
    ensures
        r is Some <==> read_block(s@, seq![closer@], members(tags@)) is Some,
        r matches Some(text) ==> read_block(s@, seq![closer@], members(tags@)) == Some(text@),
{
    let ghost set = members(tags@);
    let ghost whole = read_block(s@, seq![closer@], set);
    let mut out = String::new();
    let mut open: Vec<Vec<char>> = vec![closer];
    let ghost stack = seq![closer@];
    let mut i: usize = 0;
    assert(s@.skip(0) =~= s@);
    proof {
        assert(whole == before(out@, read_block(s@.skip(0), stack, set))) by {
            match whole {
                Some(text) => {
                    assert(out@ + text =~= text);
                },
                None => {},
            }
        }
    }
    while i < s.len()
        invariant
            set == members(tags@),
            i <= s@.len(),
            open@.len() >= 1,
            whole == read_block(s@, seq![closer@], set),
            stack.len() == open@.len(),
            forall|j: int| 0 <= j < stack.len() ==> stack[j] == (#[trigger] open@[j])@,
            whole == before(out@, read_block(s@.skip(i as int), stack, set)),
        decreases s@.len() - i,
    {
        let rest = slice_subrange(s, i, s.len());
        let ghost suffix = s@.skip(i as int);
        let ghost old_out = out@;
        let ghost old_stack = stack;
        assert(rest@ =~= suffix);
        let depth: usize = open.len();
        let top: &Vec<char> = &open[depth - 1];
        assert(top@ == stack.last());
        proof {
            lemma_opener_length(suffix, set);
            lemma_escaped_length(suffix.skip(1), stack.last(), set);
        }
        let mut literal: Option<usize> = None;
        if rest[0] == '\\' {
            let tail = slice_subrange(rest, 1, rest.len());
            assert(tail@ =~= suffix.skip(1));
            literal = escaped_len(tail, top.as_slice(), tags);
        }
        if exact_closer_at(rest, top.as_slice()) {
            if depth == 1 {
                assert(out@ + Seq::<char>::empty() =~= out@);
                return Some(out);
            }
            let n: usize = top.len();
            let text = string_of(top.as_slice(), 0, n);
            assert(text@ =~= top@);
            out.append(text.as_str());
            open.pop();
            i += n;
            proof {
                stack = stack.drop_last();
                assert(suffix.skip(n as int) =~= s@.skip(i as int));
                lemma_before(old_out, text@, read_block(s@.skip(i as int), stack, set));
            }
        } else if let Some(n) = literal {
            let from: usize = if depth == 1 {
                1
            } else {
                0
            };
            let text = string_of(rest, from, 1 + n);
            out.append(text.as_str());
            i += 1 + n;
            proof {
                assert(suffix.skip(1 + n) =~= s@.skip(i as int));
                lemma_before(old_out, text@, read_block(s@.skip(i as int), stack, set));
            }
        } else if let Some(n) = opener_len(rest, tags) {
            let text = string_of(rest, 0, n);
            assert(text@ =~= suffix.take(n as int));
            out.append(text.as_str());
            let inner = closer_for(slice_subrange(rest, 0, n));
            assert(inner@ == closer_of(suffix.take(n as int))) by {
                assert(rest@.subrange(0, n as int) =~= suffix.take(n as int));
            }
            i += n;
            proof {
                stack = stack.push(inner@);
                assert(suffix.skip(n as int) =~= s@.skip(i as int));
                lemma_before(old_out, text@, read_block(s@.skip(i as int), stack, set));
            }
            open.push(inner);
        } else {
            out.push(rest[0]);
            i += 1;
            proof {
                assert(suffix.skip(1) =~= s@.skip(i as int));
                assert(old_out.push(suffix[0]) =~= old_out + seq![suffix[0]]);
                lemma_before(old_out, seq![suffix[0]], read_block(s@.skip(i as int), stack, set));
            }
        }
    }
    assert(s@.skip(i as int).len() == 0);
    None
}

proof fn lemma_before(a: Seq<char>, b: Seq<char>, tail: Option<Seq<char>>)
    ensures
        before(a, before(b, tail)) == before(a + b, tail),
{
    match tail {
        Some(text) => {
            assert(a + (b + text) =~= a + b + text);
        },
        None => {},
    }
}

/// The closer `)_TAG` of an opener `TAG^(`.
fn closer_for(opener: &[char]) -> (closer: Vec<char>)
    requires
        opener@.len() >= 2,
    ensures
        closer@ == closer_of(opener@),
{
    let mut closer: Vec<char> = vec![')', '_'];
    let mut i: usize = 0;
    assert(closer@ =~= seq![')', '_'] + opener@.take(0));
    while i < opener.len() - 2
        invariant
            opener@.len() >= 2,
            i <= opener@.len() - 2,
            closer@ == seq![')', '_'] + opener@.take(i as int),
        decreases opener@.len() - i,
    {
        closer.push(opener[i]);
        assert(closer@ =~= seq![')', '_'] + opener@.take(i + 1));
        i += 1;
    }
    closer
}

/// The text of the first block of `s`, without the line feed it starts with.
fn block_text(s: &[char], tags: &[String]) -> (r: Option<Recovered>)
    ensures
        r is Some <==> block_content(s@, members(tags@)) is Some,
        r matches Some(found) ==> block_content(s@, members(tags@)) == Some(found.content()),
{
    let ghost set = members(tags@);
    let p = match find_typed_opener(s, tags) {
        None => {
            return None;
        },
        Some(p) => p,
    };
    let mut q: usize = p;
    while q < s.len()
        invariant
            set == members(tags@),
            p <= q <= s@.len(),
            typed_opener(s@, 0, set) == Some(p as int),
            first_opener(s@, p as int, set) == first_opener(s@, q as int, set),
        decreases s@.len() - q,
    {
        let rest = slice_subrange(s, q, s.len());
        assert(rest@ =~= s@.skip(q as int));
        if let Some(n) = opener_len(rest, tags) {
            let closer = closer_for(slice_subrange(rest, 0, n));
            assert(rest@.subrange(0, n as int) =~= s@.subrange(q as int, q + n));
            let inside = slice_subrange(rest, n, rest.len());
            assert(inside@ =~= s@.skip(q + n));
            return match read_block_text(inside, closer, tags) {
                None => Some(Recovered::Unterminated),
                Some(text) => {
                    let chars = chars_of(text.as_str());
                    if chars.len() > 0 && chars[0] == '\n' {
                        let kept = string_of(chars.as_slice(), 1, chars.len());
                        assert(kept@ =~= text@.skip(1));
                        Some(Recovered::File(kept))
                    } else {
                        Some(Recovered::File(text))
                    }
                },
            };
        }
        q += 1;
    }
    None
}

/// The text wrapped by a section body that is exactly one block.
fn wrapped(s: &[char], tags: &[String]) -> (r: Option<String>)
    ensures
        r is Some <==> wrapped_text(s@, members(tags@)) is Some,
        r matches Some(text) ==> wrapped_text(s@, members(tags@)) == Some(text@),
{
    match opener_len(s, tags) {
        None => None,
        Some(n) => {
            let closer = closer_for(slice_subrange(s, 0, n));
            assert(s@.subrange(0, n as int) =~= s@.take(n as int));
            if s.len() - n < closer.len() || s.len() - n - closer.len() < 2 || s[n] != '\n' {
                return None;
            }
            let end: usize = s.len() - closer.len() - 1;
            let tail = slice_subrange(s, end, s.len() - 1);
            if s[s.len() - 1] == '\n' && crate::text::eq_chars(tail, closer.as_slice()) {
                assert(s@.skip(end as int) =~= closer@.push('\n')) by {
                    assert(s@.skip(end as int).drop_last() =~= tail@);
                }
                let inside = slice_subrange(s, n + 1, end);
                Some(unescape_body(inside, closer.as_slice(), tags))
            } else {
                assert(s@.skip(end as int) != closer@.push('\n')) by {
                    if s@.skip(end as int) == closer@.push('\n') {
                        assert(s@.skip(end as int).last() == '\n');
                        assert(tail@ =~= s@.skip(end as int).drop_last());
                        assert(tail@ =~= closer@);
                    }
                }
                None
            }
        },
    }
}

fn keep_unless_blank(text: String) -> (r: Recovered)
    ensures
        r.content() == unless_blank(text@),
{
    let chars = chars_of(text.as_str());
    if trim_slice(chars.as_slice()).len() == 0 {
        Recovered::Nothing
    } else {
        Recovered::File(text)
    }
}

/// What the section at `path` holds.
fn recover(path: &str, body: &[char], sized: bool, tags: &[String]) -> (r: Recovered)
    ensures
        r.content() == section_content(
            (SectionText { path: path@, body: body@, sized }),
            members(tags@),
        ),
{
    let path_chars = chars_of(path);
    if is_o_file(path_chars.as_slice()) {
        let raw = if sized {
            let whole = string_of(body, 0, body.len());
            assert(whole@ =~= body@);
            whole
        } else {
            raw_o_content(body)
        };
        return keep_unless_blank(raw);
    }
    if sized {
        if let Some(text) = wrapped(body, tags) {
            return Recovered::File(text);
        }
    }
    match block_text(body, tags) {
        Some(found) => found,
        None => keep_unless_blank(raw_o_content(body)),
    }
}

/// Reads what `s` begins with: one line, or one section. Gives the path, the
/// start of the body and whether it is sized, and where reading goes on.
fn read_section(s: &[char]) -> (r: (Option<(String, usize, bool)>, usize))
    requires
        s@.len() > 0,
    ensures
        0 < r.1 <= s@.len(),
        match r.0 {
            None => sections(s@) == sections(s@.skip(r.1 as int)),
            Some((path, start, sized)) => {
                &&& start <= r.1
                &&& sections(s@) == seq![
                    SectionText { path: path@, body: s@.subrange(start as int, r.1 as int), sized },
                ] + sections(s@.skip(r.1 as int))
            },
        },
{
    let p = find_char(s, 0, '\n');
    let line = slice_subrange(s, 0, p);
    assert(line@ =~= first_line(s@));
    let next: usize = if p < s.len() {
        p + 1
    } else {
        s.len()
    };
    let rest = slice_subrange(s, next, s.len());
    assert(rest@ =~= after_line(s@));
    match marker_of(line) {
        None => {
            assert(s@.skip(next as int) =~= rest@);
            (None, next)
        },
        Some(path) => {
            if let Some((start, end)) = sized_range(rest) {
                assert(rest@.subrange(start as int, end as int) =~= s@.subrange(
                    next + start,
                    next + end,
                ));
                assert(rest@.skip(end as int) =~= s@.skip(next + end));
                (Some((path, next + start, true)), next + end)
            } else {
                let end = next_marker_line(rest);
                assert(rest@.take(end as int) =~= s@.subrange(next as int, next + end));
                assert(rest@.skip(end as int) =~= s@.skip(next + end));
                (Some((path, next, false)), next + end)
            }
        },
    }
}

proof fn lemma_files_before(
    files: Seq<(Seq<char>, Seq<char>)>,
    entry: (Seq<char>, Seq<char>),
    rest: Option<Seq<(Seq<char>, Seq<char>)>>,
)
    ensures
        files_before(files.push(entry), rest) == files_before(
            files,
            files_before(seq![entry], rest),
        ),
{
    match rest {
        Some(more) => {
            assert(files + (seq![entry] + more) =~= files.push(entry) + more);
        },
        None => {},
    }
}

/// `files` before a list that may be missing.
spec fn files_before(
    files: Seq<(Seq<char>, Seq<char>)>,
    rest: Option<Seq<(Seq<char>, Seq<char>)>>,
) -> Option<Seq<(Seq<char>, Seq<char>)>> {
    match rest {
        Some(list) => Some(files + list),
        None => None,
    }
}

/// The views of recovered files.
pub open spec fn file_views(files: Seq<(String, String)>) -> Seq<(Seq<char>, Seq<char>)> {
    files.map_values(|file: (String, String)| (file.0@, file.1@))
}

/// Takes a linked document apart: `(path, content)` of every file section, in
/// the order in which they stand.
#[verifier::rlimit(60)]
pub fn unlink_source(source: &str) -> (r: Result<Vec<(String, String)>, UnlinkError>)
    ensures
        match r {
            Ok(files) => unlinked(source@, registered_tags()) == Some(file_views(files@)),
            Err(UnlinkError::UnterminatedBlock { path }) => {
                &&& unlinked(source@, registered_tags()) is None
                &&& first_unterminated(sections(without_shebang(source@)), registered_tags())
                    == Some(path@)
            },
        },
{
    let tags = registered_backends();
    let ghost set = registered_tags();
    let all = chars_of(source);
    let mut pos: usize = 0;
    if all.len() >= 2 && all[0] == '#' && all[1] == '!' {
        let p = find_char(all.as_slice(), 0, '\n');
        pos = if p < all.len() {
            p + 1
        } else {
            all.len()
        };
    }
    let ghost text = without_shebang(source@);
    assert(text =~= all@.skip(pos as int));
    let ghost list = sections(text);
    let mut files: Vec<(String, String)> = Vec::new();
    proof {
        assert(file_views(files@) =~= Seq::empty());
        match files_of(list, set) {
            Some(rest) => {
                assert(file_views(files@) + rest =~= rest);
            },
            None => {},
        }
    }
    while pos < all.len()
        invariant
            members(tags@) == set,
            set == registered_tags(),
            text == without_shebang(source@),
            list == sections(text),
            pos <= all@.len(),
            files_of(list, set) == files_before(
                file_views(files@),
                files_of(sections(all@.skip(pos as int)), set),
            ),
            first_unterminated(list, set) == first_unterminated(
                sections(all@.skip(pos as int)),
                set,
            ),
        decreases all@.len() - pos,
    {
        let here = slice_subrange(all.as_slice(), pos, all.len());
        let ghost s = all@.skip(pos as int);
        assert(here@ =~= s);
        let (section, consumed) = read_section(here);
        let ghost tail = s.skip(consumed as int);
        assert(all@.skip(pos + consumed) =~= tail);
        if let Some((path, start, sized)) = section {
            let body = slice_subrange(here, start, consumed);
            let ghost read = SectionText { path: path@, body: body@, sized };
            assert(sections(s) == seq![read] + sections(tail));
            assert(sections(s).skip(1) =~= sections(tail));
            match recover(path.as_str(), body, sized, tags.as_slice()) {
                Recovered::Unterminated => {
                    return Err(UnlinkError::UnterminatedBlock { path });
                },
                Recovered::Nothing => {},
                Recovered::File(content) => {
                    let ghost so_far = file_views(files@);
                    let ghost entry = (path@, content@);
                    files.push((path, content));
                    proof {
                        assert(file_views(files@) =~= so_far.push(entry));
                        lemma_files_before(so_far, entry, files_of(sections(tail), set));
                    }
                },
            }
        }
        pos += consumed;
    }
    assert(all@.skip(pos as int).len() == 0);
    assert(sections(all@.skip(pos as int)) =~= Seq::empty());
    assert(file_views(files@) + Seq::<(Seq<char>, Seq<char>)>::empty() =~= file_views(files@));
    Ok(files)
}

} // verus!
