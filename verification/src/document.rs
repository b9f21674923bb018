//! The linked document: its sections, how they are written down, and that
//! taking the document apart gives the files back.

use vstd::prelude::*;
use vstd::slice::slice_subrange;

use crate::components::{
    begins_with, components, components_of, path_from, path_of, start_of, step, steps_in,
};
use crate::escape::{
    environment_closer, escape, escape_body, escape_round_trips, ident_char, ident_run, identifier,
    opener_length,
};
use crate::files::{
    backend_of, default_pairs, extension, file_backend, file_name, is_o_path, lookup, ExtensionMap,
    SourceFile,
};
use crate::ir::ExecutionMode;
use crate::link::{depends, dependency_order_plan, file_steps, file_texts, group_keys, FileText, Pairs};
use crate::paths::{
    lemma_names_settled, lemma_split_slashed, names, names_of, settled, settled_name, settled_names,
    slash,
};
use crate::plan::{node_at, steps, wave};
use crate::text::{
    after_line, any_of, byte_len, byte_length, chars_of, decimal, decimal_spells, ends_with,
    find_char, first_line, has_char, is_ascii_digit, is_space, lemma_chars_in_bytes_of,
    lemma_position_is, members, spaces, split_by, string_of, texts, trim, trim_end_by,
    trim_start_by, views,
};
use crate::unlink::{
    closer_of, files_of, path_marker, registered_names, registered_tags, section_content, sections,
    sized_body, strip_dashes, unlinked, without_shebang, wrapped_text, Content, SectionText,
    SECTION_LENGTH_PREFIX,
};

verus! {

/// Which sections may run at the same time.
#[derive(Clone, Copy, Debug, PartialEq, Eq, Structural)]
pub enum ParallelLinkMode {
    /// Fresh hosted blocks may overlap despite unknown hidden effects.
    Autonomous,
    /// Only catalog-verified pure inline renderers overlap.
    Verified,
}

impl ParallelLinkMode {
    pub fn label(self) -> (text: &'static str)
        ensures
            text@ == (match self {
                ParallelLinkMode::Autonomous => "autonomous"@,
                ParallelLinkMode::Verified => "verified"@,
            }),
    {
        match self {
            ParallelLinkMode::Autonomous => "autonomous",
            ParallelLinkMode::Verified => "verified",
        }
    }
}

/// What the catalog says of a language tag.
#[derive(Debug)]
pub struct CatalogEntry {
    pub tag: String,
    pub pure: bool,
    pub execution: ExecutionMode,
}

/// What the catalog says of a language tag: whether its backend is pure, and
/// how it runs.
pub open spec fn catalog_lookup(catalog: Seq<CatalogEntry>, tag: Seq<char>) -> Option<
    (bool, ExecutionMode),
>
    decreases catalog.len(),
{
    if catalog.len() == 0 {
        None
    } else if catalog[0].tag@ == tag {
        Some((catalog[0].pure, catalog[0].execution))
    } else {
        catalog_lookup(catalog.skip(1), tag)
    }
}

fn find_entry(catalog: &[CatalogEntry], tag: &str) -> (r: Option<(bool, ExecutionMode)>)
    ensures
        r == catalog_lookup(catalog@, tag@),
{
    let mut i: usize = 0;
    assert(catalog@.skip(0) =~= catalog@);
    while i < catalog.len()
        invariant
            i <= catalog@.len(),
            catalog_lookup(catalog@, tag@) == catalog_lookup(catalog@.skip(i as int), tag@),
        decreases catalog@.len() - i,
    {
        let ghost rest = catalog@.skip(i as int);
        assert(rest[0] == catalog@[i as int]);
        if *catalog[i].tag.as_str() == *tag {
            return Some((catalog[i].pure, catalog[i].execution));
        }
        assert(rest.skip(1) =~= catalog@.skip(i + 1));
        i += 1;
    }
    assert(catalog@.skip(i as int).len() == 0);
    None
}

/// Why a section may or may not run beside others.
#[derive(Clone, Copy, Debug, PartialEq, Eq, Structural)]
pub enum Placement {
    NotRequested,
    InlinedDocument,
    AutonomousOptIn,
    StructuralBackend,
    VerifiedRenderer,
    Unverified,
}

impl Placement {
    pub open spec fn parallel(self) -> bool {
        self is AutonomousOptIn || self is VerifiedRenderer
    }

    pub fn is_parallel(self) -> (r: bool)
        ensures
            r == self.parallel(),
    {
        match self {
            Placement::AutonomousOptIn => true,
            Placement::VerifiedRenderer => true,
            _ => false,
        }
    }

    pub open spec fn text(self) -> Seq<char> {
        match self {
            Placement::NotRequested => "sequential: --parallel was not requested"@,
            Placement::InlinedDocument =>
                "sequential: an inlined .O document may contain multiple ordered roots"@,
            Placement::AutonomousOptIn =>
                "parallel: explicit autonomous fresh-environment opt-in"@,
            Placement::StructuralBackend =>
                "sequential: structural InlineAst backends stay coordinator-owned"@,
            Placement::VerifiedRenderer => "parallel: catalog-verified pure inline renderer"@,
            Placement::Unverified =>
                "sequential: backend lacks a verified pure inline contract"@,
        }
    }

    /// The decision in words.
    pub fn describe(self) -> (text: &'static str)
        ensures
            text@ == self.text(),
    {
        match self {
            Placement::NotRequested => "sequential: --parallel was not requested",
            Placement::InlinedDocument =>
                "sequential: an inlined .O document may contain multiple ordered roots",
            Placement::AutonomousOptIn =>
                "parallel: explicit autonomous fresh-environment opt-in",
            Placement::StructuralBackend =>
                "sequential: structural InlineAst backends stay coordinator-owned",
            Placement::VerifiedRenderer => "parallel: catalog-verified pure inline renderer",
            Placement::Unverified => "sequential: backend lacks a verified pure inline contract",
        }
    }
}

/// Where a section of the given backend is placed. `entry` is what the catalog
/// says of the backend.
pub open spec fn placement(
    parallel: Option<ParallelLinkMode>,
    inlined: bool,
    entry: Option<(bool, ExecutionMode)>,
) -> Placement {
    match parallel {
        None => Placement::NotRequested,
        Some(mode) => if inlined {
            Placement::InlinedDocument
        } else {
            match mode {
                ParallelLinkMode::Autonomous => if entry->Some_0.1 != ExecutionMode::InlineAst {
                    Placement::AutonomousOptIn
                } else {
                    Placement::StructuralBackend
                },
                ParallelLinkMode::Verified => if entry->Some_0.0 && entry->Some_0.1
                    == ExecutionMode::InlineValue {
                    Placement::VerifiedRenderer
                } else {
                    Placement::Unverified
                },
            }
        },
    }
}

/// Decides where a section is placed.
pub fn place_section(
    parallel: Option<ParallelLinkMode>,
    inlined: bool,
    entry: Option<(bool, ExecutionMode)>,
) -> (r: Placement)
    requires
        parallel is Some && !inlined ==> entry is Some,
    ensures
        r == placement(parallel, inlined, entry),
{
    match parallel {
        None => Placement::NotRequested,
        Some(mode) => {
            if inlined {
                return Placement::InlinedDocument;
            }
            let (pure, execution) = entry.unwrap();
            match mode {
                ParallelLinkMode::Autonomous => if execution != ExecutionMode::InlineAst {
                    Placement::AutonomousOptIn
                } else {
                    Placement::StructuralBackend
                },
                ParallelLinkMode::Verified => if pure && execution == ExecutionMode::InlineValue {
                    Placement::VerifiedRenderer
                } else {
                    Placement::Unverified
                },
            }
        },
    }
}

/// One file made ready to stand in the document.
#[derive(Debug)]
pub struct LinkedSection {
    pub marker: String,
    pub body: String,
    /// The wave in which the section may run.
    pub dependency_wave: usize,
    pub placement: Placement,
}

/// A section as texts.
pub ghost struct SectionPlan {
    pub marker: Seq<char>,
    pub body: Seq<char>,
    pub wave: int,
    pub placement: Placement,
}

/// Sections as texts.
pub open spec fn section_plans(list: Seq<LinkedSection>) -> Seq<SectionPlan> {
    list.map_values(
        |s: LinkedSection|
            SectionPlan {
                marker: s.marker@,
                body: s.body@,
                wave: s.dependency_wave as int,
                placement: s.placement,
            },
    )
}

/// The closer of a block of `backend` with a fresh environment.
pub open spec fn fresh_closer(backend: Seq<char>) -> Seq<char> {
    seq![')', '_'] + (backend + seq!['[', '*', ']'])
}

/// `content` wrapped in a block of `backend` with a fresh environment.
pub open spec fn wrapped_body(
    content: Seq<char>,
    backend: Seq<char>,
    tags: Set<Seq<char>>,
) -> Seq<char> {
    backend + seq!['[', '*', ']'] + seq!['^', '(', '\n'] + escape(
        content,
        fresh_closer(backend),
        tags,
    ) + fresh_closer(backend) + seq!['\n']
}

/// The body of a file's section: an O document without its shebang line, or
/// any other file wrapped in a block of its backend.
pub open spec fn body_of(file: FileText, pairs: Pairs, tags: Set<Seq<char>>) -> Seq<char> {
    let backend = backend_of(file.path, pairs);
    if backend.len() == 0 {
        without_shebang(file.content)
    } else {
        wrapped_body(file.content, backend, tags)
    }
}

/// The body of a file's section.
fn section_body(file: &SourceFile, ext_map: &ExtensionMap, backends: &[String]) -> (body: String)
    ensures
        body@ == body_of(
            (FileText { path: file.path@, content: file.content@ }),
            ext_map.pairs(),
            members(backends@),
        ),
{
    let backend = file_backend(file.path.as_str(), ext_map);
    if backend.as_str().is_empty() {
        return strip_shebang(file.content.as_str());
    }
    let mut closer = String::new();
    closer.push(')');
    closer.push('_');
    closer.append(backend.as_str());
    closer.push('[');
    closer.push('*');
    closer.push(']');
    assert(closer@ =~= fresh_closer(backend@));
    let escaped = escape_body(file.content.as_str(), closer.as_str(), backends);
    let mut body = String::new();
    body.append(backend.as_str());
    body.push('[');
    body.push('*');
    body.push(']');
    body.push('^');
    body.push('(');
    body.push('\n');
    body.append(escaped.as_str());
    body.append(closer.as_str());
    body.push('\n');
    assert(body@ =~= wrapped_body(file.content@, backend@, members(backends@)));
    body
}

/// `source` without a leading `#!` line.
pub fn strip_shebang(source: &str) -> (out: String)
    ensures
        out@ == without_shebang(source@),
{
    let chars = chars_of(source);
    if chars.len() >= 2 && chars[0] == '#' && chars[1] == '!' {
        let p = find_char(chars.as_slice(), 0, '\n');
        let from: usize = if p < chars.len() {
            p + 1
        } else {
            chars.len()
        };
        let out = string_of(chars.as_slice(), from, chars.len());
        assert(out@ =~= after_line(source@));
        out
    } else {
        source.to_owned()
    }
}

/// Why a file's path cannot mark its section.
#[derive(Clone, Copy, Debug, PartialEq, Eq, Structural)]
pub enum MarkerProblem {
    /// The file does not lie below the root.
    OutsideRoot,
    /// The path below the root is empty or leaves it.
    Unsafe,
    /// The path holds a line break.
    LineBreak,
}

/// The marker of a file: its names below the root. The path is made plain
/// first; one that does not start at `/` is taken from there.
pub open spec fn marker_of(path: Seq<char>, root: Seq<char>) -> Result<Seq<char>, MarkerProblem> {
    let base = components(root);
    let whole = seq![seq!['/']] + names(path);
    let rest = whole.skip(base.len() as int);
    if !base.is_prefix_of(whole) {
        Err(MarkerProblem::OutsideRoot)
    } else if base.len() == 0 || rest.len() == 0 {
        Err(MarkerProblem::Unsafe)
    } else if path_of(rest).contains('\n') || path_of(rest).contains('\r') {
        Err(MarkerProblem::LineBreak)
    } else {
        Ok(path_of(rest))
    }
}

/// The path of a file below a root, as text that can mark its section.
pub fn marker_path(path: &str, root: &str) -> (r: Result<String, MarkerProblem>)
    ensures
        match r {
            Ok(marker) => marker_of(path@, root@) == Ok::<Seq<char>, MarkerProblem>(marker@),
            Err(problem) => marker_of(path@, root@) == Err::<Seq<char>, MarkerProblem>(problem),
        },
{
    let base = components_of(chars_of(root).as_slice());
    let mut whole: Vec<Vec<char>> = vec![vec!['/']];
    let mut tail = names_of(chars_of(path).as_slice());
    let ghost held = names(path@);
    assert(whole@[0]@ =~= seq!['/']);
    assert(texts(whole@) =~= seq![seq!['/']]);
    let ghost start = texts(whole@);
    let ghost more = tail@;
    whole.append(&mut tail);
    assert(texts(whole@) =~= start + texts(more));
    if !begins_with(whole.as_slice(), base.as_slice()) {
        return Err(MarkerProblem::OutsideRoot);
    }
    let from: usize = base.len();
    let n: usize = whole.len();
    if from == 0 || from == n {
        return Err(MarkerProblem::Unsafe);
    }
    let rest = slice_subrange(whole.as_slice(), from, n);
    assert(texts(rest@) =~= texts(whole@).skip(from as int));
    let marker = path_from(rest);
    let chars = chars_of(marker.as_str());
    if has_char(chars.as_slice(), '\n') || has_char(chars.as_slice(), '\r') {
        return Err(MarkerProblem::LineBreak);
    }
    Ok(marker)
}

/// One section as it is written down.
pub open spec fn emitted(marker: Seq<char>, body: Seq<char>) -> Seq<char> {
    seq!['\n'] + marker_line(marker) + seq!['\n'] + (SECTION_LENGTH_PREFIX@ + decimal(byte_len(body)))
        + seq!['\n'] + body + (if body.len() > 0 && body.last() == '\n' {
        Seq::empty()
    } else {
        seq!['\n']
    })
}

/// The line that marks a section.
pub open spec fn marker_line(marker: Seq<char>) -> Seq<char> {
    seq!['#', ' ', '─', '─', ' '] + marker + seq![' ', '─', '─']
}

/// Appends one section.
fn emit_linked_section(out: &mut String, section: &LinkedSection)
    ensures
        final(out)@ == old(out)@ + emitted(section.marker@, section.body@),
{
    let body = chars_of(section.body.as_str());
    out.push('\n');
    out.push('#');
    out.push(' ');
    out.push('─');
    out.push('─');
    out.push(' ');
    out.append(section.marker.as_str());
    out.push(' ');
    out.push('─');
    out.push('─');
    out.push('\n');
    out.append(SECTION_LENGTH_PREFIX);
    let bytes = byte_length(body.as_slice());
    push_wide_decimal(out, bytes);
    out.push('\n');
    out.append(section.body.as_str());
    let n: usize = body.len();
    if n == 0 || body[n - 1] != '\n' {
        out.push('\n');
    }
    assert(out@ =~= old(out)@ + emitted(section.marker@, section.body@));
}

/// Appends the decimal spelling of `n`.
fn push_wide_decimal(out: &mut String, n: u128)
    ensures
        final(out)@ == old(out)@ + decimal(n as nat),
    decreases n,
{
    if n >= 10 {
        push_wide_decimal(out, n / 10);
    }
    let d: u8 = (n % 10) as u8;
    let c: char = (48u8 + d) as char;
    out.push(c);
    assert(c == crate::text::digit_char((n % 10) as nat));
    assert(out@ =~= old(out)@ + decimal(n as nat));
}

/// End of the run of sections from `i` on that may run in one wave.
pub open spec fn run_end(list: Seq<SectionPlan>, i: int, wave: int) -> int
    decreases list.len() - i,
{
    if 0 <= i < list.len() && list[i].placement.parallel() && list[i].wave == wave {
        run_end(list, i + 1, wave)
    } else {
        i
    }
}

/// The members of a batch, separated by commas.
pub open spec fn emitted_run(list: Seq<SectionPlan>, i: int, end: int) -> Seq<char>
    decreases end - i,
{
    if i >= end {
        Seq::empty()
    } else {
        emitted(list[i].marker, list[i].body) + (if i + 1 < end {
            seq![',', '\n']
        } else {
            seq!['\n']
        }) + emitted_run(list, i + 1, end)
    }
}

/// The sections from `i` on, those of one wave together in a batch.
pub open spec fn emitted_from(list: Seq<SectionPlan>, i: int) -> Seq<char>
    decreases list.len() - i,
{
    if i < 0 || i >= list.len() {
        Seq::empty()
    } else if list[i].placement.parallel() {
        let end = run_end(list, i + 1, list[i].wave);
        if i < end <= list.len() {
            "\nautonomous(batch(\n"@ + emitted_run(list, i, end) + "))\n"@ + emitted_from(list, end)
        } else {
            Seq::empty()
        }
    } else {
        emitted(list[i].marker, list[i].body) + emitted_from(list, i + 1)
    }
}

/// The comment at the top of the document.
pub open spec fn header() -> Seq<char> {
    "# Linked by o-link: single-file .O program\n"@
}

/// The whole document.
pub open spec fn document(list: Seq<SectionPlan>) -> Seq<char> {
    header() + emitted_from(list, 0)
}

proof fn lemma_run_end(list: Seq<SectionPlan>, i: int, wave: int)
    requires
        0 <= i <= list.len(),
    ensures
        i <= run_end(list, i, wave) <= list.len(),
    decreases list.len() - i,
{
    if i < list.len() && list[i].placement.parallel() && list[i].wave == wave {
        lemma_run_end(list, i + 1, wave);
    }
}

/// Writes the sections down.
pub fn write_document(list: &[LinkedSection]) -> (out: String)
    ensures
        out@ == document(section_plans(list@)),
{
    let ghost plans = section_plans(list@);
    let mut out = String::new();
    out.append("# Linked by o-link: single-file .O program\n");
    assert(out@ =~= header());
    let mut i: usize = 0;
    while i < list.len()
        invariant
            plans == section_plans(list@),
            i <= list@.len(),
            out@ + emitted_from(plans, i as int) == document(plans),
        decreases list@.len() - i,
    {
        let ghost so_far = out@;
        let ghost from = i as int;
        assert(plans[from].marker == list@[from].marker@ && plans[from].body == list@[from].body@);
        if list[i].placement.is_parallel() {
            let wave: usize = list[i].dependency_wave;
            let start: usize = i;
            let mut end: usize = i + 1;
            while end < list.len() && list[end].placement.is_parallel() && list[end].dependency_wave
                == wave
                invariant
                    plans == section_plans(list@),
                    start < end <= list@.len(),
                    run_end(plans, start + 1, wave as int) == run_end(
                        plans,
                        end as int,
                        wave as int,
                    ),
                decreases list@.len() - end,
            {
                assert(plans[end as int].placement == list@[end as int].placement);
                end += 1;
            }
            assert(end < list@.len() ==> plans[end as int].placement == list@[end as int].placement);
            assert(run_end(plans, start + 1, wave as int) == end);
            out.append("\nautonomous(batch(\n");
            let ghost opened = out@;
            let mut k: usize = start;
            assert(out@ + emitted_run(plans, k as int, end as int) =~= opened + emitted_run(
                plans,
                start as int,
                end as int,
            ));
            while k < end
                invariant
                    plans == section_plans(list@),
                    start <= k <= end <= list@.len(),
                    out@ + emitted_run(plans, k as int, end as int) == opened + emitted_run(
                        plans,
                        start as int,
                        end as int,
                    ),
                decreases end - k,
            {
                let ghost before = out@;
                assert(plans[k as int].marker == list@[k as int].marker@ && plans[k as int].body
                    == list@[k as int].body@);
                emit_linked_section(&mut out, &list[k]);
                if k + 1 < end {
                    out.push(',');
                    out.push('\n');
                } else {
                    out.push('\n');
                }
                assert(out@ + emitted_run(plans, k + 1, end as int) =~= before + emitted_run(
                    plans,
                    k as int,
                    end as int,
                ));
                k += 1;
            }
            assert(out@ =~= opened + emitted_run(plans, start as int, end as int));
            out.append("))\n");
            i = end;
            assert(out@ + emitted_from(plans, i as int) =~= so_far + emitted_from(plans, from));
        } else {
            emit_linked_section(&mut out, &list[i]);
            i += 1;
            assert(out@ + emitted_from(plans, i as int) =~= so_far + emitted_from(plans, from));
        }
    }
    assert(out@ + Seq::<char>::empty() =~= out@);
    out
}

/// Whether a text can be told apart from the dashes and blanks around it on a
/// marker line.
pub open spec fn clean_marker(marker: Seq<char>) -> bool {
    marker.len() > 0 && trim(marker) == marker && !marker.contains('\n')
}

/// A text that neither begins nor ends with whitespace is its own trimmed form.
proof fn lemma_trimmed(s: Seq<char>)
    requires
        s.len() > 0,
        !is_space(s[0]),
        !is_space(s.last()),
    ensures
        trim(s) == s,
{
}

/// The ends of a trimmed text are no whitespace.
proof fn lemma_trim_ends(s: Seq<char>)
    requires
        s.len() > 0,
        trim(s) == s,
    ensures
        !is_space(s[0]),
        !is_space(s.last()),
{
    let t = trim_start_by(s, spaces());
    lemma_trim_lens(s);
    lemma_trim_lens(t);
    if is_space(s[0]) {
        assert(t == trim_start_by(s.skip(1), spaces()));
        lemma_trim_lens(s.skip(1));
        assert(false);
    }
    assert(t == s);
    if is_space(s.last()) {
        assert(trim_end_by(s, spaces()) == trim_end_by(s.drop_last(), spaces()));
        lemma_trim_lens(s.drop_last());
        assert(false);
    }
}

proof fn lemma_trim_lens(s: Seq<char>)
    ensures
        trim_start_by(s, spaces()).len() <= s.len(),
        trim_end_by(s, spaces()).len() <= s.len(),
    decreases s.len(),
{
    if s.len() > 0 {
        if is_space(s[0]) {
            lemma_trim_lens(s.skip(1));
        }
        if is_space(s.last()) {
            lemma_trim_lens(s.drop_last());
        }
    }
}

/// A marker line names its marker.
proof fn lemma_marker_line(marker: Seq<char>)
    requires
        clean_marker(marker),
    ensures
        path_marker(marker_line(marker)) == Some(marker),
        !marker_line(marker).contains('\n'),
{
    let line = marker_line(marker);
    let n = marker.len() as int;
    lemma_trim_ends(marker);
    assert(line.len() == n + 8);
    assert(line[0] == '#' && line[1] == ' ' && line[2] == '─' && line[3] == '─' && line[4] == ' ');
    assert(line.last() == '─');
    lemma_trimmed(line);
    let blank = any_of(seq![' ']);
    assert(seq![' '].contains(' ')) by {
        assert(seq![' '][0] == ' ');
    }
    assert forall|c: char| seq![' '].contains(c) implies c == ' ' by {}
    let after = line.skip(4);
    assert(after[0] == ' ');
    assert(blank(' '));
    let named = after.skip(1);
    assert(named =~= marker + seq![' ', '─', '─']);
    assert(named[0] == marker[0]);
    assert(is_space(' '));
    assert(!blank(named[0]));
    assert(trim_start_by(named, blank) == named);
    assert(trim_start_by(after, blank) == named);
    assert(named.skip(named.len() - 2) =~= seq!['─', '─']);
    assert(ends_with(named, seq!['─', '─']));
    let head = named.take(named.len() - 2);
    assert(head =~= marker.push(' '));
    assert(head.last() == ' ');
    assert(head.drop_last() =~= marker);
    assert(!blank(marker.last()));
    assert(trim_end_by(marker, blank) == marker);
    assert(trim_end_by(head, blank) == marker);
    assert(strip_dashes(named) == marker);
    assert(!line.contains('\n')) by {
        if line.contains('\n') {
            let i = choose|i: int| 0 <= i < line.len() && line[i] == '\n';
            if 5 <= i < n + 5 {
                assert(marker[i - 5] == '\n');
            }
        }
    }
}

/// The first line of a text that begins with a line and its line feed.
proof fn lemma_line(line: Seq<char>, rest: Seq<char>)
    requires
        !line.contains('\n'),
    ensures
        first_line(line + seq!['\n'] + rest) == line,
        after_line(line + seq!['\n'] + rest) == rest,
{
    let s = line + seq!['\n'] + rest;
    assert forall|j: int| 0 <= j < line.len() implies s[j] != '\n' by {
        assert(s[j] == line[j]);
        assert(line.contains(line[j]));
    }
    assert(s[line.len() as int] == '\n');
    lemma_position_is(s, 0, '\n', line.len() as int);
    assert(s.take(line.len() as int) =~= line);
    assert(s.skip(line.len() as int + 1) =~= rest);
}

/// A line that is no marker makes no section.
proof fn lemma_plain_line(line: Seq<char>, rest: Seq<char>)
    requires
        !line.contains('\n'),
        path_marker(line) is None,
    ensures
        sections(line + seq!['\n'] + rest) == sections(rest),
{
    lemma_line(line, rest);
}

proof fn lemma_empty_line(rest: Seq<char>)
    ensures
        sections(seq!['\n'] + rest) == sections(rest),
{
    let none = Seq::<char>::empty();
    assert(none + seq!['\n'] + rest =~= seq!['\n'] + rest);
    assert(trim(none) == none);
    lemma_plain_line(none, rest);
}

/// A sized section as it is read.
pub open spec fn read_back(marker: Seq<char>, body: Seq<char>) -> SectionText {
    SectionText { path: marker, body, sized: true }
}

/// A section is read as it was written.
proof fn lemma_emitted(marker: Seq<char>, body: Seq<char>, rest: Seq<char>)
    requires
        clean_marker(marker),
    ensures
        sections(emitted(marker, body) + rest) == seq![read_back(marker, body)] + sections(rest),
{
    let size = byte_len(body);
    let length_line = SECTION_LENGTH_PREFIX@ + decimal(size);
    let closing = if body.len() > 0 && body.last() == '\n' {
        Seq::<char>::empty()
    } else {
        seq!['\n']
    };
    let tail = closing + rest;
    let inner = length_line + seq!['\n'] + (body + tail);
    let whole = emitted(marker, body) + rest;
    assert(whole =~= seq!['\n'] + (marker_line(marker) + seq!['\n'] + inner));
    lemma_empty_line(marker_line(marker) + seq!['\n'] + inner);
    lemma_marker_line(marker);
    lemma_line(marker_line(marker), inner);
    decimal_spells(size);
    reveal_strlit("# o-link-section-bytes: ");
    assert(SECTION_LENGTH_PREFIX@ == "# o-link-section-bytes: "@);
    let k = SECTION_LENGTH_PREFIX@.len() as int;
    assert(!length_line.contains('\n')) by {
        if length_line.contains('\n') {
            let i = choose|i: int| 0 <= i < length_line.len() && length_line[i] == '\n';
            if i < k {
                assert(SECTION_LENGTH_PREFIX@[i] == '\n');
                assert(false);
            } else {
                assert(decimal(size)[i - k] == '\n');
                assert(is_ascii_digit(decimal(size)[i - k]));
            }
        }
    }
    lemma_line(length_line, body + tail);
    assert(length_line.take(k) =~= SECTION_LENGTH_PREFIX@);
    assert(length_line.skip(k) =~= decimal(size));
    let start = length_line.len() as int + 1;
    assert(inner.skip(start) =~= body + tail);
    lemma_chars_in_bytes_of(body, tail);
    assert(sized_body(inner) == Some((start, start + body.len())));
    assert(inner.subrange(start, start + body.len()) =~= body);
    assert(inner.skip(start + body.len()) =~= tail);
    if closing.len() > 0 {
        lemma_empty_line(rest);
    } else {
        assert(tail =~= rest);
    }
    assert(sections(tail) == sections(rest));
    let read = marker_line(marker) + seq!['\n'] + inner;
    assert(read.len() > 0);
    assert(sections(read) == seq![read_back(marker, body)] + sections(tail));
}

/// The sections `i..end` as they are read.
pub open spec fn read_range(list: Seq<SectionPlan>, i: int, end: int) -> Seq<SectionText> {
    Seq::new(
        if i <= end { (end - i) as nat } else { 0 },
        |k: int| read_back(list[i + k].marker, list[i + k].body),
    )
}

proof fn lemma_emitted_run(list: Seq<SectionPlan>, i: int, end: int, rest: Seq<char>)
    requires
        0 <= i <= end <= list.len(),
        forall|k: int| 0 <= k < list.len() ==> clean_marker((#[trigger] list[k]).marker),
    ensures
        sections(emitted_run(list, i, end) + rest) == read_range(list, i, end) + sections(rest),
    decreases end - i,
{
    if i >= end {
        assert(emitted_run(list, i, end) + rest =~= rest);
        assert(read_range(list, i, end) + sections(rest) =~= sections(rest));
    } else {
        let more = emitted_run(list, i + 1, end) + rest;
        let separator = if i + 1 < end {
            seq![',', '\n']
        } else {
            seq!['\n']
        };
        lemma_emitted_run(list, i + 1, end, rest);
        assert(emitted_run(list, i, end) + rest =~= emitted(list[i].marker, list[i].body) + (
        separator + more));
        lemma_emitted(list[i].marker, list[i].body, separator + more);
        if i + 1 < end {
            let comma = seq![','];
            assert(separator + more =~= comma + seq!['\n'] + more);
            assert(comma[0] == ',');
            lemma_trimmed(comma);
            assert(!comma.contains('\n'));
            lemma_plain_line(comma, more);
        } else {
            lemma_empty_line(more);
        }
        assert(sections(separator + more) == sections(more));
        assert(seq![read_back(list[i].marker, list[i].body)] + (read_range(list, i + 1, end)
            + sections(rest)) =~= read_range(list, i, end) + sections(rest));
    }
}

/// A batch reads as its members.
#[verifier::spinoff_prover]
#[verifier::rlimit(40)]
proof fn lemma_batch(list: Seq<SectionPlan>, i: int, end: int, after: Seq<char>)
    requires
        0 <= i <= end <= list.len(),
        forall|k: int| 0 <= k < list.len() ==> clean_marker((#[trigger] list[k]).marker),
    ensures
        sections(
            "\nautonomous(batch(\n"@ + emitted_run(list, i, end) + "))\n"@ + after,
        ) == read_range(list, i, end) + sections(after),
{
    let open = "autonomous(batch("@;
    let close = "))"@;
    reveal_strlit("\nautonomous(batch(\n");
    reveal_strlit("autonomous(batch(");
    reveal_strlit("))\n");
    reveal_strlit("))");
    assert("\nautonomous(batch(\n"@ =~= seq!['\n'] + open + seq!['\n']);
    assert("))\n"@ =~= close + seq!['\n']);
    assert(open[0] == 'a' && open.last() == '(');
    assert(!open.contains('\n'));
    assert(close[0] == ')' && close.last() == ')');
    assert(!close.contains('\n'));
    let tail = close + seq!['\n'] + after;
    let run = emitted_run(list, i, end) + tail;
    assert("\nautonomous(batch(\n"@ + emitted_run(list, i, end) + "))\n"@ + after =~= seq!['\n'] + (
    open + seq!['\n'] + run));
    lemma_empty_line(open + seq!['\n'] + run);
    lemma_trimmed(open);
    lemma_plain_line(open, run);
    lemma_emitted_run(list, i, end, tail);
    lemma_trimmed(close);
    lemma_plain_line(close, after);
}

#[verifier::spinoff_prover]
proof fn lemma_emitted_from(list: Seq<SectionPlan>, i: int)
    requires
        0 <= i <= list.len(),
        forall|k: int| 0 <= k < list.len() ==> clean_marker((#[trigger] list[k]).marker),
    ensures
        sections(emitted_from(list, i)) == read_range(list, i, list.len() as int),
    decreases list.len() - i,
{
    let n = list.len() as int;
    if i >= n {
        assert(sections(emitted_from(list, i)) =~= read_range(list, i, n));
    } else if list[i].placement.parallel() {
        let end = run_end(list, i + 1, list[i].wave);
        lemma_run_end(list, i + 1, list[i].wave);
        lemma_emitted_from(list, end);
        let after = emitted_from(list, end);
        lemma_batch(list, i, end, after);
        assert(emitted_from(list, i) == "\nautonomous(batch(\n"@ + emitted_run(list, i, end)
            + "))\n"@ + after);
        assert(read_range(list, i, end) + read_range(list, end, n) =~= read_range(list, i, n));
    } else {
        lemma_emitted_from(list, i + 1);
        lemma_emitted(list[i].marker, list[i].body, emitted_from(list, i + 1));
        assert(seq![read_back(list[i].marker, list[i].body)] + read_range(list, i + 1, n)
            =~= read_range(list, i, n));
    }
}

/// A document reads as the sections that were written into it.
pub proof fn documents_read_as_written(list: Seq<SectionPlan>)
    requires
        forall|k: int| 0 <= k < list.len() ==> clean_marker((#[trigger] list[k]).marker),
    ensures
        sections(without_shebang(document(list))) == read_range(list, 0, list.len() as int),
{
    let title = "# Linked by o-link: single-file .O program"@;
    reveal_strlit("# Linked by o-link: single-file .O program\n");
    reveal_strlit("# Linked by o-link: single-file .O program");
    let rest = emitted_from(list, 0);
    assert(header() =~= title + seq!['\n']);
    assert(title[0] == '#' && title[1] == ' ' && title[2] == 'L' && title.last() == 'm');
    assert(!title.contains('\n'));
    lemma_trimmed(title);
    assert(document(list) =~= title + seq!['\n'] + rest);
    assert(document(list)[1] == ' ');
    lemma_plain_line(title, rest);
    lemma_emitted_from(list, 0);
}

/// A wrapped body gives its content back.
#[verifier::spinoff_prover]
#[verifier::rlimit(40)]
proof fn lemma_wrapped_body(content: Seq<char>, backend: Seq<char>, tags: Set<Seq<char>>)
    requires
        tags.contains(backend),
        identifier(backend),
    ensures
        wrapped_text(wrapped_body(content, backend, tags), tags) == Some(content),
{
    let body = wrapped_body(content, backend, tags);
    let closer = fresh_closer(backend);
    let e = backend.len() as int;
    let inside = escape(content, closer, tags);
    let n = e + 5;
    assert(body[e] == '[' && body[e + 1] == '*' && body[e + 2] == ']' && body[e + 3] == '^' && body[e
        + 4] == '(' && body[e + 5] == '\n');
    assert forall|j: int| 0 <= j < e implies body[j] == backend[j] by {}
    lemma_run_is(body, 1, e);
    assert(body.take(e) =~= backend);
    assert(opener_length(body, tags) == Some(n));
    assert(body.take(n).take(n - 2) =~= backend + seq!['[', '*', ']']);
    assert(closer_of(body.take(n)) =~= closer);
    let end = body.len() - closer.len() - 1;
    assert(body.skip(end) =~= closer.push('\n'));
    assert(body.subrange(n + 1, end) =~= inside);
    assert(closer[e + 2] == '[');
    assert forall|c: char| c == '{' || c == '}' || c == '\\' implies !closer.contains(c) by {
        if closer.contains(c) {
            let i = choose|i: int| 0 <= i < closer.len() && closer[i] == c;
            if 2 <= i < e + 2 {
                assert(closer[i] == backend[i - 2]);
                assert(ident_char(backend[i - 2]));
            }
        }
    }
    assert(environment_closer(closer));
    escape_round_trips(content, closer, tags);
}

proof fn lemma_run_is(s: Seq<char>, i: int, e: int)
    requires
        0 <= i <= e < s.len(),
        forall|j: int| i <= j < e ==> ident_char(#[trigger] s[j]),
        !ident_char(s[e]),
    ensures
        ident_run(s, i) == e,
    decreases e - i,
{
    if i < e {
        lemma_run_is(s, i + 1, e);
    }
}

/// Whether a file can be told from its section again: an O document that has
/// no shebang line and is not blank, or a file of a registered language.
pub open spec fn restorable(file: FileText, pairs: Pairs, tags: Set<Seq<char>>) -> bool {
    let backend = backend_of(file.path, pairs);
    if is_o_path(file.path) {
        without_shebang(file.content) == file.content && trim(file.content).len() > 0
    } else {
        tags.contains(backend) && identifier(backend)
    }
}

/// The name that a path ends in is the last of its names.
proof fn lemma_last_name(parts: Seq<Seq<char>>)
    requires
        steps_in(parts).len() > 0,
        steps_in(parts).last() != seq!['.', '.'],
    ensures
        settled(parts).len() > 0,
        settled(parts).last() == steps_in(parts).last(),
    decreases parts.len(),
{
    if !step(parts.last()) {
        lemma_last_name(parts.drop_last());
    }
}

/// The parts of a path of names are those names.
proof fn lemma_steps_of_names(parts: Seq<Seq<char>>)
    requires
        settled_names(parts),
    ensures
        steps_in(parts) == parts,
    decreases parts.len(),
{
    if parts.len() > 0 {
        let init = parts.drop_last();
        assert forall|i: int| 0 <= i < init.len() implies settled_name(#[trigger] init[i]) by {
            assert(init[i] == parts[i]);
        }
        lemma_steps_of_names(init);
        assert(settled_name(parts[parts.len() - 1]));
        assert(init.push(parts.last()) =~= parts);
    } else {
        assert(steps_in(parts) =~= parts);
    }
}

/// A file keeps its name below the root, and so its language.
pub proof fn markers_keep_the_file_name(path: Seq<char>, root: Seq<char>)
    requires
        marker_of(path, root) is Ok,
        file_name(path).len() > 0,
    ensures
        file_name(marker_of(path, root)->Ok_0) == file_name(path),
        extension(marker_of(path, root)->Ok_0) == extension(path),
{
    let parts = split_by(path, slash());
    let base = components(root);
    let whole = seq![seq!['/']] + names(path);
    let rest = whole.skip(base.len() as int);
    let marker = path_of(rest);
    let steps = steps_in(parts);
    if steps.len() == 0 {
        assert(components(path) =~= start_of(path));
        assert(seq!['/'][0] == '/');
        assert(seq!['/'].contains('/'));
        assert(file_name(path).len() == 0);
    }
    assert(components(path).last() == steps.last());
    lemma_last_name(parts);
    lemma_names_settled(path);
    assert(whole.last() == names(path).last());
    assert(rest.last() == whole.last());
    assert forall|i: int| 0 <= i < rest.len() implies settled_name(#[trigger] rest[i]) by {
        assert(rest[i] == names(path)[i + base.len() - 1]);
    }
    assert(settled_name(rest[0]));
    assert(seq!['/'][0] == '/');
    assert(rest[0] != seq!['/']);
    let tail = rest.skip(1);
    assert forall|i: int| 0 <= i < tail.len() implies settled_name(#[trigger] tail[i]) by {
        assert(tail[i] == rest[i + 1]);
    }
    lemma_split_slashed(rest[0], tail);
    assert(seq![rest[0]] + tail =~= rest);
    lemma_steps_of_names(rest);
    assert(components(marker).last() == rest.last());
}

/// A restorable file is what its section holds, where its marker is that of an O
/// document just where the file is one.
pub proof fn sections_hold_their_files(
    file: FileText,
    pairs: Pairs,
    root: Seq<char>,
    tags: Set<Seq<char>>,
)
    requires
        marker_of(file.path, root) is Ok,
        restorable(file, pairs, tags),
        is_o_path(marker_of(file.path, root)->Ok_0) == is_o_path(file.path),
    ensures
        section_content(
            read_back(marker_of(file.path, root)->Ok_0, body_of(file, pairs, tags)),
            tags,
        ) == Content::File(file.content),
{
    let backend = backend_of(file.path, pairs);
    if !is_o_path(file.path) {
        lemma_wrapped_body(file.content, backend, tags);
    }
}

/// Which files the linked document holds, and how.
pub ghost struct LinkRequest {
    pub files: Seq<FileText>,
    pub pairs: Pairs,
    pub root: Seq<char>,
    pub tags: Set<Seq<char>>,
    pub catalog: Seq<CatalogEntry>,
    pub parallel: Option<ParallelLinkMode>,
}

impl LinkRequest {
    /// The file that goes into slot `p`.
    pub open spec fn file_at(self, p: int) -> FileText {
        self.files[node_at(
            group_keys(self.files, self.pairs),
            depends(self.files, self.pairs),
            p,
        )]
    }

    /// The marker of the file in slot `p`.
    pub open spec fn marker_at(self, p: int) -> Result<Seq<char>, MarkerProblem> {
        marker_of(self.file_at(p).path, self.root)
    }

    /// The section in slot `p`.
    pub open spec fn plan_at(self, p: int) -> SectionPlan {
        let file = self.file_at(p);
        let backend = backend_of(file.path, self.pairs);
        SectionPlan {
            marker: self.marker_at(p)->Ok_0,
            body: body_of(file, self.pairs, self.tags),
            wave: wave(file_steps(self.files, self.pairs), p),
            placement: placement(
                self.parallel,
                backend.len() == 0,
                catalog_lookup(self.catalog, backend),
            ),
        }
    }

    /// All sections.
    pub open spec fn plans(self) -> Seq<SectionPlan> {
        Seq::new(self.files.len(), |p: int| self.plan_at(p))
    }

    /// Whether every file can be marked.
    pub open spec fn marked(self) -> bool {
        forall|p: int| 0 <= p < self.files.len() ==> (#[trigger] self.marker_at(p)) is Ok
    }

    /// Whether the catalog knows every backend that is asked of it.
    pub open spec fn covered(self) -> bool {
        self.parallel is Some ==> forall|i: int|
            0 <= i < self.files.len() ==> {
                let backend = backend_of((#[trigger] self.files[i]).path, self.pairs);
                backend.len() == 0 || catalog_lookup(self.catalog, backend) is Some
            }
    }
}

/// The files of a list of sections, each of which holds one.
proof fn lemma_files_of(list: Seq<SectionText>, contents: Seq<Seq<char>>, tags: Set<Seq<char>>)
    requires
        list.len() == contents.len(),
        forall|p: int|
            0 <= p < list.len() ==> section_content(#[trigger] list[p], tags) == Content::File(
                contents[p],
            ),
    ensures
        files_of(list, tags) == Some(Seq::new(list.len(), |p: int| (list[p].path, contents[p]))),
    decreases list.len(),
{
    let all = Seq::new(list.len(), |p: int| (list[p].path, contents[p]));
    if list.len() == 0 {
        assert(all =~= Seq::empty());
    } else {
        assert forall|p: int| 0 <= p < list.len() - 1 implies section_content(
            #[trigger] list.skip(1)[p],
            tags,
        ) == Content::File(contents.skip(1)[p]) by {
            assert(list.skip(1)[p] == list[p + 1]);
        }
        lemma_files_of(list.skip(1), contents.skip(1), tags);
        assert(section_content(list[0], tags) == Content::File(contents[0]));
        let rest = Seq::new(
            list.skip(1).len(),
            |p: int| (list.skip(1)[p].path, contents.skip(1)[p]),
        );
        assert(all =~= seq![(list[0].path, contents[0])] + rest);
    }
}

/// Linking and then unlinking gives every file back, in the order of the
/// document: each under its marker, with its content unchanged. A shebang line
/// in front of the document makes no difference. A marker is that of an O
/// document just where its file is one: so it is for every path that ends in a
/// name.
#[verifier::spinoff_prover]
#[verifier::rlimit(40)]
pub proof fn linked_files_come_back(request: LinkRequest)
    requires
        request.tags == registered_tags(),
        request.marked(),
        forall|p: int|
            0 <= p < request.files.len() ==> clean_marker(
                (#[trigger] request.marker_at(p))->Ok_0,
            ) && restorable(request.file_at(p), request.pairs, request.tags) && is_o_path(
                request.marker_at(p)->Ok_0,
            ) == is_o_path(request.file_at(p).path),
    ensures
        unlinked(document(request.plans()), registered_tags()) == Some(
            Seq::new(
                request.files.len(),
                |p: int| (request.marker_at(p)->Ok_0, request.file_at(p).content),
            ),
        ),
        unlinked(with_shebang(document(request.plans())), registered_tags()) == unlinked(
            document(request.plans()),
            registered_tags(),
        ),
{
    let plans = request.plans();
    let n = plans.len() as int;
    assert forall|k: int| 0 <= k < n implies clean_marker((#[trigger] plans[k]).marker) by {
        assert(request.marker_at(k) is Ok);
    }
    documents_read_as_written(plans);
    let list = read_range(plans, 0, n);
    let contents = Seq::new(n as nat, |p: int| request.file_at(p).content);
    assert forall|p: int| 0 <= p < n implies section_content(#[trigger] list[p], request.tags)
        == Content::File(contents[p]) by {
        assert(request.marker_at(p) is Ok);
        sections_hold_their_files(
            request.file_at(p),
            request.pairs,
            request.root,
            request.tags,
        );
    }
    lemma_files_of(list, contents, request.tags);
    assert(Seq::new(list.len(), |p: int| (list[p].path, contents[p])) =~= Seq::new(
        request.files.len(),
        |p: int| (request.marker_at(p)->Ok_0, request.file_at(p).content),
    ));
    lemma_with_shebang(plans);
}

/// A shebang line in front of a document is not read.
proof fn lemma_with_shebang(list: Seq<SectionPlan>)
    ensures
        without_shebang(with_shebang(document(list))) == without_shebang(document(list)),
{
    let doc = document(list);
    let line = "#!/usr/bin/env o"@;
    reveal_strlit("#!/usr/bin/env o");
    reveal_strlit("#!/usr/bin/env o\n");
    assert("#!/usr/bin/env o\n"@ =~= line + seq!['\n']);
    assert(with_shebang(doc) =~= line + seq!['\n'] + doc);
    assert(!line.contains('\n'));
    lemma_line(line, doc);
    assert(with_shebang(doc)[0] == '#' && with_shebang(doc)[1] == '!');
    reveal_strlit("# Linked by o-link: single-file .O program\n");
    assert(doc[1] == ' ');
}

/// A document with the line that makes it executable.
pub open spec fn with_shebang(document: Seq<char>) -> Seq<char> {
    "#!/usr/bin/env o\n"@ + document
}

/// Puts the line that makes it executable in front of a document.
pub fn add_shebang(document: &str) -> (out: String)
    ensures
        out@ == with_shebang(document@),
{
    "#!/usr/bin/env o\n".to_owned().concat(document)
}

proof fn lemma_lookup(pairs: Pairs, key: Seq<char>)
    ensures
        lookup(pairs, key) matches Some(value) ==> exists|i: int|
            0 <= i < pairs.len() && (#[trigger] pairs[i]).1 == value,
    decreases pairs.len(),
{
    if pairs.len() > 0 {
        if pairs.last().0 == key {
            assert(pairs[pairs.len() - 1].1 == pairs.last().1);
        } else {
            lemma_lookup(pairs.drop_last(), key);
            if let Some(value) = lookup(pairs, key) {
                let i = choose|i: int|
                    0 <= i < pairs.drop_last().len() && (#[trigger] pairs.drop_last()[i]).1 == value;
                assert(pairs[i].1 == value);
            }
        }
    }
}

/// A registered name.
proof fn lemma_registered(i: int, name: Seq<char>)
    requires
        0 <= i < registered_names().len(),
        registered_names()[i] == name,
    ensures
        registered_tags().contains(name),
{
    assert(registered_names().contains(name));
}

/// Every language of the built-in extensions is registered, and is no O
/// document.
proof fn lemma_default_backends(path: Seq<char>)
    ensures
        !is_o_path(path) ==> registered_tags().contains(backend_of(path, default_pairs()))
            && identifier(backend_of(path, default_pairs())),
{
    let names = registered_names();
    let pairs = default_pairs();
    let fine = |b: Seq<char>| registered_tags().contains(b) && identifier(b);
    assert(fine("python"@)) by {
        reveal_strlit("python");
        lemma_registered(1, "python"@);
    }
    assert(fine("bash"@)) by {
        reveal_strlit("bash");
        lemma_registered(5, "bash"@);
    }
    assert(fine("html"@)) by {
        reveal_strlit("html");
        lemma_registered(2, "html"@);
    }
    assert(fine("latex"@)) by {
        reveal_strlit("latex");
        lemma_registered(3, "latex"@);
    }
    assert(fine("markdown"@)) by {
        reveal_strlit("markdown");
        lemma_registered(4, "markdown"@);
    }
    assert(fine("rust"@)) by {
        reveal_strlit("rust");
        lemma_registered(7, "rust"@);
    }
    assert(fine("racket"@)) by {
        reveal_strlit("racket");
        lemma_registered(8, "racket"@);
    }
    assert(fine("nix"@)) by {
        reveal_strlit("nix");
        lemma_registered(9, "nix"@);
    }
    assert(fine("text"@)) by {
        reveal_strlit("text");
        lemma_registered(13, "text"@);
    }
    assert(fine("csharp"@)) by {
        reveal_strlit("csharp");
        lemma_registered(14, "csharp"@);
    }
    assert(fine("c"@)) by {
        reveal_strlit("c");
        lemma_registered(15, "c"@);
    }
    assert(fine("cpp"@)) by {
        reveal_strlit("cpp");
        lemma_registered(16, "cpp"@);
    }
    assert(fine("haskell"@)) by {
        reveal_strlit("haskell");
        lemma_registered(17, "haskell"@);
    }
    assert(fine("lisp"@)) by {
        reveal_strlit("lisp");
        lemma_registered(18, "lisp"@);
    }
    assert(fine("common_lisp"@)) by {
        reveal_strlit("common_lisp");
        lemma_registered(19, "common_lisp"@);
    }
    assert(fine("sql"@)) by {
        reveal_strlit("sql");
        lemma_registered(20, "sql"@);
    }
    assert(fine("ruby"@)) by {
        reveal_strlit("ruby");
        lemma_registered(21, "ruby"@);
    }
    assert(fine("matlab"@)) by {
        reveal_strlit("matlab");
        lemma_registered(22, "matlab"@);
    }
    assert(fine("mathematica"@)) by {
        reveal_strlit("mathematica");
        lemma_registered(23, "mathematica"@);
    }
    assert(fine("webassembly"@)) by {
        reveal_strlit("webassembly");
        lemma_registered(24, "webassembly"@);
    }
    assert(fine("java"@)) by {
        reveal_strlit("java");
        lemma_registered(25, "java"@);
    }
    assert(fine("javascript"@)) by {
        reveal_strlit("javascript");
        lemma_registered(26, "javascript"@);
    }
    assert(fine("ocaml"@)) by {
        reveal_strlit("ocaml");
        lemma_registered(27, "ocaml"@);
    }
    assert(forall|i: int| 0 <= i < pairs.len() ==> fine((#[trigger] pairs[i]).1));
    match extension(path) {
        None => {},
        Some(ext) => {
            lemma_lookup(pairs, crate::text::lowered(ext));
        },
    }
}

/// With the built-in extensions every file but an O document comes back from
/// the linked document, as long as it can be marked.
pub proof fn default_languages_come_back(request: LinkRequest)
    requires
        request.pairs == default_pairs(),
        request.tags == registered_tags(),
        request.marked(),
        forall|p: int|
            0 <= p < request.files.len() ==> clean_marker(
                (#[trigger] request.marker_at(p))->Ok_0,
            ) && !is_o_path(request.file_at(p).path) && !is_o_path(request.marker_at(p)->Ok_0),
    ensures
        unlinked(document(request.plans()), registered_tags()) == Some(
            Seq::new(
                request.files.len(),
                |p: int| (request.marker_at(p)->Ok_0, request.file_at(p).content),
            ),
        ),
{
    assert forall|p: int| 0 <= p < request.files.len() implies clean_marker(
        (#[trigger] request.marker_at(p))->Ok_0,
    ) && restorable(request.file_at(p), request.pairs, request.tags) && is_o_path(
        request.marker_at(p)->Ok_0,
    ) == is_o_path(request.file_at(p).path) by {
        lemma_default_backends(request.file_at(p).path);
    }
    linked_files_come_back(request);
}

/// A linked document and the sections it was made of.
#[derive(Debug)]
pub struct LinkedProgram {
    pub text: String,
    pub sections: Vec<LinkedSection>,
}

/// Why files could not be linked.
#[derive(Debug)]
pub enum LinkError {
    /// The file at `path` cannot be marked.
    Marker { path: String, problem: MarkerProblem },
    /// Sections that cannot enter the requested lane, each with the reason.
    NotParallel { rejected: Vec<String> },
}

/// The sections that may not run beside others, each with the reason.
pub open spec fn rejected_sections(list: Seq<SectionPlan>) -> Seq<Seq<char>>
    decreases list.len(),
{
    if list.len() == 0 {
        Seq::empty()
    } else {
        let before = rejected_sections(list.drop_last());
        let last = list.last();
        if last.placement.parallel() {
            before
        } else {
            before.push(last.marker + seq![' ', '('] + last.placement.text() + seq![')'])
        }
    }
}

/// The sections that may not run beside others, each with the reason.
fn rejected(list: &[LinkedSection]) -> (out: Vec<String>)
    ensures
        views(out@) == rejected_sections(section_plans(list@)),
{
    let ghost plans = section_plans(list@);
    let mut out: Vec<String> = Vec::new();
    let mut i: usize = 0;
    assert(views(out@) =~= rejected_sections(plans.take(0)));
    while i < list.len()
        invariant
            plans == section_plans(list@),
            i <= list@.len(),
            views(out@) == rejected_sections(plans.take(i as int)),
        decreases list@.len() - i,
    {
        let section = &list[i];
        assert(plans.take(i + 1).drop_last() =~= plans.take(i as int));
        assert(plans.take(i + 1).last() == plans[i as int]);
        if !section.placement.is_parallel() {
            let mut text = section.marker.clone();
            text.push(' ');
            text.push('(');
            text.append(section.placement.describe());
            text.push(')');
            assert(text@ =~= section.marker@ + seq![' ', '('] + section.placement.text() + seq![
                ')',
            ]);
            let ghost before = views(out@);
            out.push(text);
            assert(views(out@) =~= before.push(text@));
        }
        i += 1;
    }
    assert(plans.take(i as int) =~= plans);
    out
}

/// The rejected sections are none exactly when every section is parallel.
proof fn lemma_rejected(list: Seq<SectionPlan>)
    ensures
        rejected_sections(list).len() == 0 <==> forall|p: int|
            0 <= p < list.len() ==> (#[trigger] list[p]).placement.parallel(),
    decreases list.len(),
{
    if list.len() > 0 {
        lemma_rejected(list.drop_last());
        if list.last().placement.parallel() {
            assert forall|p: int| 0 <= p < list.len() && rejected_sections(list).len()
                == 0 implies (#[trigger] list[p]).placement.parallel() by {
                if p < list.len() - 1 {
                    assert(list.drop_last()[p] == list[p]);
                }
            }
            if forall|p: int| 0 <= p < list.len() ==> (#[trigger] list[p]).placement.parallel() {
                assert forall|p: int| 0 <= p < list.len() - 1 implies (
                #[trigger] list.drop_last()[p]).placement.parallel() by {
                    assert(list.drop_last()[p] == list[p]);
                }
            }
        } else {
            assert(!list[list.len() - 1].placement.parallel());
        }
    }
}

/// The request that a call of the linker makes.
pub open spec fn link_request(
    files: Seq<SourceFile>,
    marker_root: Seq<char>,
    pairs: Pairs,
    backends: Seq<String>,
    catalog: Seq<CatalogEntry>,
    parallel: Option<ParallelLinkMode>,
) -> LinkRequest {
    LinkRequest {
        files: file_texts(files),
        pairs,
        root: marker_root,
        tags: members(backends),
        catalog,
        parallel,
    }
}

/// Whether the catalog knows every backend that linking these files asks of it.
pub fn catalog_covers(
    files: &[SourceFile],
    ext_map: &ExtensionMap,
    catalog: &[CatalogEntry],
) -> (r: bool)
    ensures
        r ==> forall|root: Seq<char>, backends: Seq<String>, parallel: Option<ParallelLinkMode>|
            (#[trigger] link_request(
                files@,
                root,
                ext_map.pairs(),
                backends,
                catalog@,
                parallel,
            )).covered(),
        !r ==> exists|i: int|
            0 <= i < files@.len() && {
                let backend = backend_of((#[trigger] files@[i]).path@, ext_map.pairs());
                backend.len() > 0 && catalog_lookup(catalog@, backend) is None
            },
{
    let mut i: usize = 0;
    while i < files.len()
        invariant
            i <= files@.len(),
            forall|j: int|
                0 <= j < i ==> {
                    let backend = backend_of((#[trigger] files@[j]).path@, ext_map.pairs());
                    backend.len() == 0 || catalog_lookup(catalog@, backend) is Some
                },
        decreases files@.len() - i,
    {
        let backend = file_backend(files[i].path.as_str(), ext_map);
        if !backend.as_str().is_empty() && find_entry(catalog, backend.as_str()).is_none() {
            assert(backend@ == backend_of(files@[i as int].path@, ext_map.pairs()));
            return false;
        }
        i += 1;
    }
    proof {
        assert forall|root: Seq<char>, backends: Seq<String>, parallel: Option<ParallelLinkMode>|
            (#[trigger] link_request(
                files@,
                root,
                ext_map.pairs(),
                backends,
                catalog@,
                parallel,
            )).covered() by {
            let request = link_request(
                files@,
                root,
                ext_map.pairs(),
                backends,
                catalog@,
                parallel,
            );
            assert forall|j: int| 0 <= j < request.files.len() implies {
                let backend = backend_of((#[trigger] request.files[j]).path, request.pairs);
                backend.len() == 0 || catalog_lookup(request.catalog, backend) is Some
            } by {
                assert(request.files[j].path == files@[j].path@);
            }
        }
    }
    true
}

/// Links files into one document.
///
/// Files are laid out in dependency order. With `parallel`, sections that may
/// overlap are put together in batches, one for each wave; `parallel_required`
/// refuses sections that cannot enter the lane.
#[verifier::rlimit(40)]
pub fn link_files_with_options(
    files: &[SourceFile],
    marker_root: &str,
    ext_map: &ExtensionMap,
    backends: &[String],
    catalog: &[CatalogEntry],
    parallel: Option<ParallelLinkMode>,
    parallel_required: bool,
) -> (r: Result<LinkedProgram, LinkError>)
    requires
        parallel_required ==> parallel is Some,
        link_request(
            files@,
            marker_root@,
            ext_map.pairs(),
            backends@,
            catalog@,
            parallel,
        ).covered(),
    ensures
        ({
            let request = link_request(
                files@,
                marker_root@,
                ext_map.pairs(),
                backends@,
                catalog@,
                parallel,
            );
            match r {
                Ok(program) => {
                    &&& request.marked()
                    &&& section_plans(program.sections@) == request.plans()
                    &&& program.text@ == document(request.plans())
                    &&& parallel_required ==> rejected_sections(request.plans()).len() == 0
                },
                Err(LinkError::Marker { path, problem }) => exists|p: int|
                    {
                        &&& 0 <= p < files@.len()
                        &&& path@ == request.file_at(p).path
                        &&& #[trigger] request.marker_at(p) == Err::<Seq<char>, MarkerProblem>(
                            problem,
                        )
                        &&& forall|q: int| 0 <= q < p ==> (#[trigger] request.marker_at(q)) is Ok
                    },
                Err(LinkError::NotParallel { rejected }) => {
                    &&& request.marked()
                    &&& parallel_required
                    &&& rejected_sections(request.plans()).len() > 0
                    &&& views(rejected@) == rejected_sections(request.plans())
                },
            }
        }),
{
    let ghost request = link_request(
        files@,
        marker_root@,
        ext_map.pairs(),
        backends@,
        catalog@,
        parallel,
    );
    let ordered = dependency_order_plan(files, ext_map);
    let mut sections: Vec<LinkedSection> = Vec::new();
    let mut p: usize = 0;
    while p < ordered.len()
        invariant
            request == link_request(
                files@,
                marker_root@,
                ext_map.pairs(),
                backends@,
                catalog@,
                parallel,
            ),
            request.covered(),
            ordered@.len() == files@.len(),
            forall|q: int|
                0 <= q < ordered@.len() ==> (#[trigger] ordered@[q]).file == node_at(
                    group_keys(request.files, request.pairs),
                    depends(request.files, request.pairs),
                    q,
                ) && ordered@[q].wave == wave(file_steps(request.files, request.pairs), q) && ordered@[q].file < files@.len(),
            p <= ordered@.len(),
            sections@.len() == p,
            forall|q: int| 0 <= q < p ==> (#[trigger] request.marker_at(q)) is Ok,
            forall|q: int|
                0 <= q < p ==> section_plans(sections@)[q] == #[trigger] request.plan_at(q),
        decreases ordered@.len() - p,
    {
        let file = &files[ordered[p].file];
        assert(request.file_at(p as int) == FileText { path: file.path@, content: file.content@ });
        assert(request.files[ordered@[p as int].file as int].path == file.path@);
        let marker = match marker_path(file.path.as_str(), marker_root) {
            Ok(marker) => marker,
            Err(problem) => {
                assert(request.marker_at(p as int) == Err::<Seq<char>, MarkerProblem>(problem));
                return Err(LinkError::Marker { path: file.path.clone(), problem });
            },
        };
        assert(request.marker_at(p as int) is Ok);
        let backend = file_backend(file.path.as_str(), ext_map);
        let inlined: bool = backend.as_str().is_empty();
        let entry = find_entry(catalog, backend.as_str());
        let placement = place_section(parallel, inlined, entry);
        let body = section_body(file, ext_map, backends);
        let section = LinkedSection {
            marker,
            body,
            dependency_wave: ordered[p].wave,
            placement,
        };
        let ghost before = section_plans(sections@);
        sections.push(section);
        proof {
            assert(section_plans(sections@) =~= before.push(request.plan_at(p as int)));
            assert forall|q: int| 0 <= q < p + 1 implies section_plans(sections@)[q]
                == #[trigger] request.plan_at(q) by {
                if q < p {
                    assert(before[q] == request.plan_at(q));
                }
            }
        }
        p += 1;
    }
    assert(section_plans(sections@) =~= request.plans());
    proof {
        lemma_rejected(request.plans());
    }
    if parallel_required {
        let refused = rejected(sections.as_slice());
        assert(views(refused@).len() == refused@.len());
        if refused.len() > 0 {
            return Err(LinkError::NotParallel { rejected: refused });
        }
    }
    let text = write_document(sections.as_slice());
    Ok(LinkedProgram { text, sections })
}

/// The sections of a document with nothing asked about waves.
pub fn link_files(
    files: &[SourceFile],
    marker_root: &str,
    ext_map: &ExtensionMap,
    backends: &[String],
) -> (r: Result<LinkedProgram, LinkError>)
    ensures
        ({
            let request = link_request(
                files@,
                marker_root@,
                ext_map.pairs(),
                backends@,
                Seq::empty(),
                None,
            );
            match r {
                Ok(program) => request.marked() && section_plans(program.sections@)
                    == request.plans() && program.text@ == document(request.plans()),
                Err(LinkError::Marker { path, problem }) => exists|p: int|
                    {
                        &&& 0 <= p < files@.len()
                        &&& path@ == request.file_at(p).path
                        &&& #[trigger] request.marker_at(p) == Err::<Seq<char>, MarkerProblem>(
                            problem,
                        )
                        &&& forall|q: int| 0 <= q < p ==> (#[trigger] request.marker_at(q)) is Ok
                    },
                Err(LinkError::NotParallel { .. }) => false,
            }
        }),
{
    let catalog: Vec<CatalogEntry> = Vec::new();
    assert(catalog@ =~= Seq::empty());
    link_files_with_options(files, marker_root, ext_map, backends, catalog.as_slice(), None, false)
}

} // verus!
