//! The import forms of each language: a line of such a form imports the module
//! that it names, and lines of no such form import nothing.

use vstd::prelude::*;

use crate::imports::{
    after_prefix, call_argument, candidates, imports, listed, listed_parts, names_of, quoted,
    specifiers, syntax_of, without_prefix, ImportSyntax,
};
use crate::text::{
    after_line, any_of, ends_with, find_text, first_where, first_word, holds_text, is_space,
    lemma_after_line, lemma_first_where, lemma_position_from, lemma_position_is, position_from,
    separators, spaces, split_by, starts_with, trim, trim_end_by, trim_end_text, trim_start_by,
    without_return,
};
use crate::text_laws::{
    blank, lemma_first_is, lemma_found_at, lemma_found_by, lemma_line_read, lemma_part_stands,
    lemma_starts, lemma_trim_around, lemma_trim_back, lemma_trim_end_is_start, lemma_trim_front,
    lemma_trim_start_is_end, lemma_word_first, splitting_goes_through,
};

verus! {

proof fn lemma_names_join(a: Seq<Seq<char>>, b: Seq<Seq<char>>)
    ensures
        names_of(a + b) == names_of(a).union(names_of(b)),
    decreases a.len(),
{
    if a.len() == 0 {
        assert(a + b =~= b);
        assert(names_of(a).union(names_of(b)) =~= names_of(b));
    } else {
        assert((a + b)[0] == a[0]);
        assert((a + b).skip(1) =~= a.skip(1) + b);
        lemma_names_join(a.skip(1), b);
        assert(names_of(a + b) =~= names_of(a).union(names_of(b)));
    }
}

proof fn lemma_names_one(m: Seq<char>)
    ensures
        names_of(seq![m]) == candidates(m),
{
    let rest = seq![m].skip(1);
    assert(rest.len() == 0);
    assert(names_of(rest) == Set::<Seq<char>>::empty());
    assert(names_of(seq![m]) =~= candidates(m));
}

proof fn lemma_names_hold(list: Seq<Seq<char>>, i: int)
    requires
        0 <= i < list.len(),
    ensures
        candidates(list[i]).subset_of(names_of(list)),
    decreases list.len(),
{
    if i > 0 {
        lemma_names_hold(list.skip(1), i - 1);
        assert(list.skip(1)[i - 1] == list[i]);
    }
}

/// What a single line imports.
proof fn lemma_one_line(syntax: ImportSyntax, line: Seq<char>)
    requires
        !line.contains('\n'),
    ensures
        imports(syntax, line) == names_of(specifiers(syntax, trim(line))),
{
    let none = Seq::<char>::empty();
    assert(imports(syntax, none) == Set::<Seq<char>>::empty());
    let n = line.len() as int;
    assert forall|j: int| 0 <= j < n implies line[j] != '\n' by {
        assert(line.contains(line[j]));
    }
    lemma_position_is(line, 0, '\n', n);
    assert(line.take(n) =~= line);
    if line.len() > 0 {
        assert(imports(syntax, line) =~= names_of(specifiers(syntax, trim(line))));
    } else {
        assert(line =~= none);
        lemma_blank_imports_nothing(syntax);
        assert(trim(none) == none);
    }
}

proof fn lemma_blank_imports_nothing(syntax: ImportSyntax)
    ensures
        names_of(specifiers(syntax, Seq::empty())) == Set::<Seq<char>>::empty(),
{
    let none = Seq::<char>::empty();
    reveal_strlit("import ");
    reveal_strlit("from ");
    reveal_strlit("export ");
    reveal_strlit("require(");
    reveal_strlit("import(");
    reveal_strlit("pub ");
    reveal_strlit("mod ");
    reveal_strlit("use ");
    reveal_strlit("extern crate ");
    reveal_strlit("#include");
    reveal_strlit("require ");
    reveal_strlit("require_relative ");
    reveal_strlit("open ");
    reveal_strlit("include ");
    reveal_strlit("require");
    reveal_strlit("load");
    reveal_strlit("source ");
    reveal_strlit(". ");
    reveal_strlit("using ");
    reveal_strlit("Get");
    reveal_strlit("Needs");
    reveal_strlit("run(");
    reveal_strlit("source(");
    let quotes = separators(seq!['\'', '"'], false);
    assert(first_where(none, 0, quotes) == 0);
    assert(quoted(none) is None);
    lemma_nowhere(none, "require("@);
    lemma_nowhere(none, "import("@);
    lemma_nowhere(none, "require"@);
    lemma_nowhere(none, "load"@);
    lemma_nowhere(none, "Get"@);
    lemma_nowhere(none, "Needs"@);
    lemma_nowhere(none, "run("@);
    lemma_nowhere(none, "source("@);
    let list = specifiers(syntax, none);
    if syntax is Nix {
        lemma_nix_blank();
    }
    assert(list =~= Seq::<Seq<char>>::empty());
}

proof fn lemma_nowhere(s: Seq<char>, part: Seq<char>)
    requires
        s.len() < part.len(),
    ensures
        find_text(s, part, 0) == -1,
{
    crate::text_laws::lemma_not_found(s, part, 0);
}

proof fn lemma_nix_blank()
    ensures
        specifiers(ImportSyntax::Nix, Seq::empty()) == Seq::<Seq<char>>::empty(),
{
    let none = Seq::<char>::empty();
    let p = separators(seq!['(', ')', '{', '}', '[', ']', ';'], true);
    crate::text_laws::lemma_split_whole(none, p);
    reveal_strlit("./");
    reveal_strlit("../");
    let keep = |t: Seq<char>| starts_with(t, "./"@) || starts_with(t, "../"@);
    let list = seq![none];
    reveal(Seq::filter);
    assert(list.drop_last() =~= Seq::<Seq<char>>::empty());
    assert(list.drop_last().filter(keep) =~= Seq::<Seq<char>>::empty());
    assert(!keep(none));
    assert(list.filter(keep) =~= Seq::<Seq<char>>::empty());
}

proof fn lemma_trim_more(x: Seq<char>, c: char)
    requires
        is_space(c),
    ensures
        trim(x.push(c)) == trim(x),
{
    let p = spaces();
    assert(p(c));
    lemma_start_more(x, c);
    let t = trim_start_by(x, p);
    if t.len() > 0 {
        assert(t.push(c).last() == c);
        assert(t.push(c).drop_last() =~= t);
    }
}

proof fn lemma_start_more(x: Seq<char>, c: char)
    requires
        is_space(c),
    ensures
        ({
            let t = trim_start_by(x, spaces());
            trim_start_by(x.push(c), spaces()) == if t.len() == 0 {
                t
            } else {
                t.push(c)
            }
        }),
    decreases x.len(),
{
    let p = spaces();
    let y = x.push(c);
    if x.len() == 0 {
        assert(y[0] == c && p(c));
        assert(y.skip(1) =~= x);
        assert(trim_start_by(x, p) == x);
    } else {
        assert(y[0] == x[0]);
        if p(x[0]) {
            assert(y.skip(1) =~= x.skip(1).push(c));
            lemma_start_more(x.skip(1), c);
        }
    }
}

/// What is imported is what the lines import: a line feed between two texts makes
/// no difference to what each of them imports.
pub proof fn imports_go_line_by_line(syntax: ImportSyntax, a: Seq<char>, b: Seq<char>)
    ensures
        imports(syntax, a + seq!['\n'] + b) == imports(syntax, a).union(imports(syntax, b)),
    decreases a.len(),
{
    let s = a + seq!['\n'] + b;
    let p = position_from(a, 0, '\n');
    lemma_position_from(a, 0, '\n');
    let line = a.take(p);
    assert(!line.contains('\n')) by {
        if line.contains('\n') {
            let j = choose|j: int| 0 <= j < line.len() && line[j] == '\n';
            assert(a[j] == '\n');
        }
    }
    if p == a.len() {
        assert(line =~= a);
        lemma_line_read(a, b);
        lemma_one_line(syntax, a);
        assert(trim(without_return(s)) == trim(a)) by {
            if 0 < p < s.len() && s[p - 1] == '\r' {
                assert(s.take(p - 1).push('\r') =~= a);
                lemma_trim_more(s.take(p - 1), '\r');
            } else {
                assert(s.take(p) =~= a);
            }
        }
        assert(imports(syntax, s) =~= imports(syntax, a).union(imports(syntax, b)));
    } else {
        let rest = a.skip(p + 1);
        assert(a =~= line + seq!['\n'] + rest);
        assert(s =~= line + seq!['\n'] + (rest + seq!['\n'] + b));
        lemma_line_read(line, rest);
        lemma_line_read(line, rest + seq!['\n'] + b);
        assert(without_return(a) =~= without_return(s)) by {
            if p > 0 {
                assert(s[p - 1] == a[p - 1]);
                assert(s.take(p - 1) =~= a.take(p - 1));
            }
            assert(s.take(p) =~= a.take(p));
        }
        imports_go_line_by_line(syntax, rest, b);
        assert(imports(syntax, s) =~= imports(syntax, a).union(imports(syntax, b)));
    }
}

/// Whether a text is a line of a source.
pub open spec fn has_line(source: Seq<char>, line: Seq<char>) -> bool {
    !line.contains('\n') && exists|a: Seq<char>, b: Seq<char>|
        {
            &&& source == #[trigger] (a + line + b)
            &&& a.len() > 0 ==> a.last() == '\n'
            &&& b.len() > 0 ==> b[0] == '\n'
        }
}

/// What a line imports, the source that it stands in imports.
pub proof fn every_line_counts(syntax: ImportSyntax, source: Seq<char>, line: Seq<char>)
    requires
        has_line(source, line),
    ensures
        imports(syntax, line).subset_of(imports(syntax, source)),
{
    let (a, b) = choose|a: Seq<char>, b: Seq<char>|
        {
            &&& source == #[trigger] (a + line + b)
            &&& a.len() > 0 ==> a.last() == '\n'
            &&& b.len() > 0 ==> b[0] == '\n'
        };
    let right = line + b;
    if b.len() > 0 {
        assert(right =~= line + seq!['\n'] + b.skip(1));
        imports_go_line_by_line(syntax, line, b.skip(1));
    } else {
        assert(right =~= line);
    }
    if a.len() > 0 {
        assert(source =~= a.drop_last() + seq!['\n'] + right);
        imports_go_line_by_line(syntax, a.drop_last(), right);
    } else {
        assert(source =~= right);
    }
}

/// Whether a text has no quotation mark.
pub open spec fn unquoted(s: Seq<char>) -> bool {
    forall|i: int| 0 <= i < s.len() ==> #[trigger] s[i] != '\'' && s[i] != '"'
}

/// Whether a character is a quotation mark.
pub open spec fn quote(c: char) -> bool {
    c == '\'' || c == '"'
}

/// A text between two quotation marks of one kind.
pub open spec fn in_quotes(q: char, m: Seq<char>) -> Seq<char> {
    seq![q] + m + seq![q]
}

proof fn lemma_quoted(t: Seq<char>, q: char, m: Seq<char>, r: Seq<char>)
    requires
        unquoted(t),
        quote(q),
        !m.contains(q),
    ensures
        quoted(t + in_quotes(q, m) + r) == Some(m),
{
    let s = t + in_quotes(q, m) + r;
    let set = seq!['\'', '"'];
    let p = separators(set, false);
    assert(set[0] == '\'' && set[1] == '"');
    assert(set.contains('\'') && set.contains('"'));
    let i = t.len() as int;
    assert forall|j: int| 0 <= j < i implies !p(#[trigger] s[j]) by {
        assert(s[j] == t[j]);
        if p(s[j]) {
            let k = choose|k: int| 0 <= k < set.len() && set[k] == s[j];
            assert(set[k] == '\'' || set[k] == '"');
        }
    }
    assert(s[i] == q);
    lemma_first_is(s, 0, p, i);
    let e = i + 1 + m.len();
    assert forall|j: int| i + 1 <= j < e implies s[j] != q by {
        assert(s[j] == m[j - i - 1]);
        assert(m.contains(m[j - i - 1]));
    }
    assert(s[e] == q);
    lemma_position_is(s, i + 1, q, e);
    assert(s.subrange(i + 1, e) =~= m);
}

/// An indented line, trimmed: what it starts with is kept, and what may follow
/// keeps its start.
proof fn lemma_indented(pad: Seq<char>, core: Seq<char>, q: Seq<char>) -> (rest: Seq<char>)
    requires
        blank(pad),
        core.len() > 0,
        !is_space(core[0]),
        !is_space(core.last()),
    ensures
        trim(pad + core + q) == core + rest,
        exists|k: int| 0 <= k <= q.len() && rest == #[trigger] q.take(k),
        rest.len() > 0 ==> rest[0] == q[0],
        blank(q) ==> rest.len() == 0,
{
    let p = spaces();
    let none = Seq::<char>::empty();
    lemma_trim_around(pad, core, q);
    assert forall|j: int| 0 <= j < pad.len() implies p(#[trigger] pad[j]) by {}
    lemma_trim_front(pad, none, p);
    assert(pad + none =~= pad);
    assert(none + core =~= core);
    let k = lemma_trim_end_is_start(q, p);
    if blank(q) {
        assert forall|j: int| 0 <= j < q.len() implies p(#[trigger] q[j]) by {}
        lemma_trim_back(none, q, p);
        assert(none + q =~= q);
    }
    trim_end_by(q, p)
}

/// Whether a text has no space in it.
pub open spec fn token(m: Seq<char>) -> bool {
    m.len() > 0 && forall|i: int| 0 <= i < m.len() ==> !is_space(#[trigger] m[i])
}

proof fn lemma_keyword(word: Seq<char>, m: Seq<char>, rest: Seq<char>)
    requires
        token(m),
        rest.len() > 0 ==> is_space(rest[0]),
    ensures
        after_prefix(word + m + rest, word) == Some(m + rest),
        first_word(m + rest) == m,
{
    assert(word + m + rest =~= word + (m + rest));
    lemma_starts(word, m + rest);
    let none = Seq::<char>::empty();
    lemma_word_first(none, m, rest);
    assert(none + m + rest =~= m + rest);
}

proof fn lemma_other_word(s: Seq<char>, word: Seq<char>, k: int)
    requires
        0 <= k < word.len(),
        k < s.len(),
        s[k] != word[k],
    ensures
        after_prefix(s, word) is None,
        without_prefix(s, word) == s,
        !starts_with(s, word),
{
    if starts_with(s, word) {
        assert(s.take(word.len() as int)[k] == s[k]);
    }
}

proof fn lemma_line_breaks(a: Seq<char>, b: Seq<char>)
    ensures
        (a + b).contains('\n') <==> a.contains('\n') || b.contains('\n'),
{
    if a.contains('\n') {
        let i = choose|i: int| 0 <= i < a.len() && a[i] == '\n';
        assert((a + b)[i] == '\n');
    }
    if b.contains('\n') {
        let i = choose|i: int| 0 <= i < b.len() && b[i] == '\n';
        assert((a + b)[a.len() + i] == '\n');
    }
    if (a + b).contains('\n') {
        let i = choose|i: int| 0 <= i < (a + b).len() && (a + b)[i] == '\n';
        if i < a.len() {
            assert(a[i] == '\n');
        } else {
            assert(b[i - a.len()] == '\n');
        }
    }
}

/// Python: `from m ...` imports `m`, and nothing else.
pub proof fn python_from_imports(pad: Seq<char>, m: Seq<char>, q: Seq<char>)
    requires
        blank(pad),
        token(m),
        q.len() > 0 ==> is_space(q[0]),
        !(pad + "from "@ + m + q).contains('\n'),
    ensures
        imports(syntax_of("python"@), pad + "from "@ + m + q) == candidates(m),
{
    reveal_strlit("from ");
    reveal_strlit("import ");
    let word = "from "@;
    let core = word + m;
    let line = pad + word + m + q;
    assert(line =~= pad + core + q);
    assert(!is_space(m[m.len() - 1]));
    let rest = lemma_indented(pad, core, q);
    let s = core + rest;
    lemma_one_line(ImportSyntax::Python, line);
    lemma_keyword(word, m, rest);
    assert(s =~= word + m + rest);
    assert(s[0] == 'f');
    lemma_other_word(s, "import "@, 0);
    let none = Seq::<Seq<char>>::empty();
    assert(specifiers(ImportSyntax::Python, s) =~= seq![m]);
    lemma_names_one(m);
}

/// Python: `import a, m, b` imports each of the modules that it names.
pub proof fn python_imports(pad: Seq<char>, p: Seq<char>, gap: Seq<char>, m: Seq<char>, q: Seq<char>)
    requires
        blank(pad),
        p.len() > 0 ==> p.last() == ',',
        blank(gap),
        token(m),
        !m.contains(','),
        q.len() > 0 ==> is_space(q[0]) || q[0] == ',',
        !(pad + "import "@ + p + gap + m + q).contains('\n'),
    ensures
        candidates(m).subset_of(
            imports(syntax_of("python"@), pad + "import "@ + p + gap + m + q),
        ),
        p.len() == 0 && !q.contains(',') ==> imports(
            syntax_of("python"@),
            pad + "import "@ + p + gap + m + q,
        ) == candidates(m),
{
    reveal_strlit("from ");
    reveal_strlit("import ");
    lemma_names_of_languages();
    let word = "import "@;
    let core = word + p + gap + m;
    let line = pad + word + p + gap + m + q;
    assert(line =~= pad + core + q);
    assert(!is_space(m[m.len() - 1]));
    assert(core[0] == 'i' && core.last() == m.last());
    let rest = lemma_indented(pad, core, q);
    let s = core + rest;
    lemma_one_line(ImportSyntax::Python, line);
    let listed_text = p + gap + m + rest;
    assert(s =~= word + listed_text);
    lemma_starts(word, listed_text);
    let at = lemma_listed(p, gap, m, rest);
    let found = listed_parts(Some(listed_text));
    assert(s[0] == 'i');
    lemma_other_word(s, "from "@, 0);
    assert(specifiers(ImportSyntax::Python, s) =~= found);
    lemma_names_hold(found, at);
    if p.len() == 0 && !q.contains(',') {
        let n = choose|n: int| 0 <= n <= q.len() && rest == #[trigger] q.take(n);
        if rest.contains(',') {
            let i = choose|i: int| 0 <= i < rest.len() && rest[i] == ',';
            assert(q[i] == ',');
        }
        assert(found =~= seq![m]);
        lemma_names_one(m);
    }
}

/// A name between commas is among those that are listed; where there are none, it
/// is the only one.
proof fn lemma_listed(p: Seq<char>, gap: Seq<char>, m: Seq<char>, rest: Seq<char>) -> (at: int)
    requires
        p.len() > 0 ==> p.last() == ',',
        blank(gap),
        token(m),
        !m.contains(','),
        rest.len() > 0 ==> is_space(rest[0]) || rest[0] == ',',
    ensures
        0 <= at < listed_parts(Some(p + gap + m + rest)).len(),
        listed_parts(Some(p + gap + m + rest))[at] == m,
        p.len() == 0 && !rest.contains(',') ==> listed_parts(Some(p + gap + m + rest)).len() == 1,
{
    let listed_text = p + gap + m + rest;
    let set = seq![','];
    let comma = separators(set, false);
    assert(set[0] == ',');
    assert(set.contains(','));
    assert forall|c: char| #[trigger] comma(c) implies c == ',' by {
        let i = choose|i: int| 0 <= i < set.len() && set[i] == c;
        assert(set[i] == ',');
    }
    let n = gap.len() + m.len();
    let r = gap + m + rest;
    let k = first_where(r, 0, comma);
    lemma_first_where(r, 0, comma);
    assert forall|j: int| 0 <= j < n implies !comma(#[trigger] r[j]) by {
        if j < gap.len() {
            assert(r[j] == gap[j]);
        } else {
            assert(r[j] == m[j - gap.len()]);
            assert(m.contains(m[j - gap.len()]));
        }
    }
    if k < n {
        assert(comma(r[k]));
    }
    let part = r.take(k);
    let tail = rest.take(k - n);
    assert(part =~= gap + m + tail);
    if tail.len() > 0 {
        assert(tail[0] == rest[0]);
        assert(r[n as int] == rest[0]);
        assert(!comma(r[n as int]));
    }
    lemma_word_first(gap, m, tail);
    let right = split_by(r, comma);
    assert(right[0] == part);
    if p.len() > 0 {
        let left = split_by(p.drop_last(), comma);
        assert(listed_text =~= p.drop_last() + seq![','] + r);
        splitting_goes_through(p.drop_last(), ',', r, comma);
        assert((left + right)[left.len() as int] == part);
        left.len() as int
    } else {
        assert(listed_text =~= r);
        if k < r.len() {
            assert(comma(r[k]));
            assert(rest[k - n] == ',');
        }
        0
    }
}

/// Where a word that overlaps itself nowhere stands behind a text without it, it
/// is found behind that text.
proof fn lemma_call_found(p: Seq<char>, word: Seq<char>, rest: Seq<char>)
    requires
        word.len() > 0,
        forall|i: int| 0 <= i < word.len() - 1 ==> #[trigger] word[i] != word.last(),
        forall|j: int| 0 <= j <= p.len() ==> !starts_with(#[trigger] p.skip(j), word),
    ensures
        find_text(p + word + rest, word, 0) == p.len(),
{
    let s = p + word + rest;
    let n = word.len() as int;
    assert forall|j: int| 0 <= j < p.len() implies !starts_with(#[trigger] s.skip(j), word) by {
        if starts_with(s.skip(j), word) {
            let t = s.skip(j).take(n);
            assert(t == word);
            if j + n <= p.len() {
                assert(p.skip(j).take(n) =~= t);
                assert(starts_with(p.skip(j), word));
            } else {
                assert(t[n - 1] == s[j + n - 1]);
                assert(s[j + n - 1] == word[j + n - 1 - p.len()]);
            }
        }
    }
    assert(s.skip(p.len() as int).take(n) =~= word);
    lemma_found_at(s, word, 0, p.len() as int);
}

/// Whether a word stands nowhere in a text.
pub open spec fn free_of(p: Seq<char>, word: Seq<char>) -> bool {
    forall|j: int| 0 <= j <= p.len() ==> !starts_with(#[trigger] p.skip(j), word)
}

proof fn lemma_call(p: Seq<char>, word: Seq<char>, t: Seq<char>, q: char, m: Seq<char>, r: Seq<char>)
    requires
        word == "require("@ || word == "import("@,
        free_of(p, word),
        unquoted(t),
        quote(q),
        !m.contains(q),
    ensures
        ({
            let line = p + word + t + in_quotes(q, m) + r;
            !line.contains('\n') ==> candidates(m).subset_of(
                imports(syntax_of("javascript"@), line),
            )
        }),
{
    let line = p + word + t + in_quotes(q, m) + r;
    if !line.contains('\n') {
        lemma_names_of_languages();
        reveal_strlit("require(");
        reveal_strlit("import(");
        let core = word + t + in_quotes(q, m);
        assert(line =~= p + core + r);
        assert(core.last() == q);
        assert(core[0] == word[0]);
        lemma_trim_around(p, core, r);
        let sp = spaces();
        let k = lemma_trim_start_is_end(p, sp);
        let front = p.skip(k);
        let back = trim_end_by(r, sp);
        let s = trim(line);
        assert(s == front + core + back);
        assert forall|j: int| 0 <= j <= front.len() implies !starts_with(
            #[trigger] front.skip(j),
            word,
        ) by {
            assert(front.skip(j) =~= p.skip(j + k));
        }
        let rest = t + in_quotes(q, m) + back;
        assert(s =~= front + word + rest);
        lemma_call_found(front, word, rest);
        assert(s.skip((front.len() + word.len()) as int) =~= rest);
        lemma_quoted(t, q, m, back);
        assert(call_argument(s, word) == seq![m]);
        lemma_one_line(ImportSyntax::JavaScript, line);
        let statement = if starts_with(s, "import "@) || starts_with(s, "export "@) {
            listed(quoted(s))
        } else {
            Seq::empty()
        };
        let a = call_argument(s, "require("@);
        let b = call_argument(s, "import("@);
        let all = specifiers(ImportSyntax::JavaScript, s);
        assert(all =~= statement + a + b);
        let at: int = if word == "require("@ {
            statement.len() as int
        } else {
            (statement + a).len() as int
        };
        assert("require("@[0] == 'r' && "import("@[0] == 'i');
        assert(all[at] == m);
        lemma_names_hold(all, at);
    }
}

/// JavaScript: the first `require('m')` and the first `import('m')` of a line, with
/// either kind of quotation mark, import `m`, whatever stands around them.
pub proof fn javascript_calls_import(
    p: Seq<char>,
    t: Seq<char>,
    q: char,
    m: Seq<char>,
    r: Seq<char>,
)
    requires
        unquoted(t),
        quote(q),
        !m.contains(q),
    ensures
        ({
            let line = p + "require("@ + t + in_quotes(q, m) + r;
            free_of(p, "require("@) && !line.contains('\n') ==> candidates(m).subset_of(
                imports(syntax_of("javascript"@), line),
            )
        }),
        ({
            let line = p + "import("@ + t + in_quotes(q, m) + r;
            free_of(p, "import("@) && !line.contains('\n') ==> candidates(m).subset_of(
                imports(syntax_of("javascript"@), line),
            )
        }),
{
    if free_of(p, "require("@) {
        lemma_call(p, "require("@, t, q, m, r);
    }
    if free_of(p, "import("@) {
        lemma_call(p, "import("@, t, q, m, r);
    }
}

/// JavaScript: `import x from 'm'`, `import 'm'` and `export x from 'm'` import
/// `m`.
pub proof fn javascript_statements_import(
    pad: Seq<char>,
    word: Seq<char>,
    t: Seq<char>,
    q: char,
    m: Seq<char>,
    r: Seq<char>,
)
    requires
        blank(pad),
        word == "import "@ || word == "export "@,
        unquoted(t),
        quote(q),
        !m.contains(q),
        !(pad + word + t + in_quotes(q, m) + r).contains('\n'),
    ensures
        candidates(m).subset_of(
            imports(syntax_of("javascript"@), pad + word + t + in_quotes(q, m) + r),
        ),
{
    reveal_strlit("import ");
    reveal_strlit("export ");
    lemma_names_of_languages();
    let line = pad + word + t + in_quotes(q, m) + r;
    let core = word + t + in_quotes(q, m);
    assert(line =~= pad + core + r);
    assert(core.last() == q && core[0] == word[0]);
    let rest = lemma_indented(pad, core, r);
    let s = core + rest;
    let front = word + t;
    assert(s =~= front + in_quotes(q, m) + rest);
    assert forall|i: int| 0 <= i < front.len() implies #[trigger] front[i] != '\'' && front[i] != '"' by {
        if i >= word.len() {
            assert(front[i] == t[i - word.len()]);
        }
    }
    lemma_quoted(front, q, m, rest);
    assert(s =~= word + (t + in_quotes(q, m) + rest));
    lemma_starts(word, t + in_quotes(q, m) + rest);
    lemma_one_line(ImportSyntax::JavaScript, line);
    let all = specifiers(ImportSyntax::JavaScript, s);
    assert(all[0] == m);
    lemma_names_hold(all, 0);
}

proof fn lemma_semicolon(m: Seq<char>)
    requires
        m.len() > 0,
        m.last() != ';',
    ensures
        trim_end_by(m + seq![';'], any_of(seq![';'])) == m,
        trim_end_by(m, any_of(seq![';'])) == m,
{
    let set = seq![';'];
    let p = any_of(set);
    assert(set[0] == ';');
    assert(set.contains(';'));
    assert(!p(m.last())) by {
        if p(m.last()) {
            assert(set[0] == m.last());
        }
    }
    lemma_trim_back(m, seq![';'], p);
}

/// Rust: `mod m;`, `use m;` and `extern crate m;`, public or not, import `m`, and
/// nothing else.
pub proof fn rust_items_import(
    pad: Seq<char>,
    shown: Seq<char>,
    word: Seq<char>,
    m: Seq<char>,
    q: Seq<char>,
)
    requires
        blank(pad),
        shown == ""@ || shown == "pub "@,
        word == "mod "@ || word == "use "@ || word == "extern crate "@,
        m.len() > 0,
        m.last() != ';',
        blank(q),
        !(pad + shown + word + m + seq![';'] + q).contains('\n'),
    ensures
        imports(syntax_of("rust"@), pad + shown + word + m + seq![';'] + q) == candidates(m),
{
    reveal_strlit("");
    reveal_strlit("pub ");
    reveal_strlit("mod ");
    reveal_strlit("use ");
    reveal_strlit("extern crate ");
    lemma_names_of_languages();
    let line = pad + shown + word + m + seq![';'] + q;
    let core = shown + word + m + seq![';'];
    assert(line =~= pad + core + q);
    assert(core.last() == ';');
    assert(core[0] == 'p' || core[0] == 'm' || core[0] == 'u' || core[0] == 'e') by {
        if shown.len() > 0 {
            assert(core[0] == shown[0]);
        } else {
            assert(core[0] == word[0]);
        }
    }
    let rest = lemma_indented(pad, core, q);
    assert(core + rest =~= core);
    lemma_one_line(ImportSyntax::Rust, line);
    let item = word + (m + seq![';']);
    if shown.len() > 0 {
        assert(core =~= "pub "@ + item);
        lemma_starts("pub "@, item);
    } else {
        assert(core =~= item);
        assert(item[0] == word[0]);
        lemma_other_word(item, "pub "@, 0);
    }
    assert(without_prefix(core, "pub "@) == item);
    lemma_starts(word, m + seq![';']);
    lemma_semicolon(m);
    assert(item[0] == word[0]);
    assert("mod "@[0] == 'm' && "use "@[0] == 'u' && "extern crate "@[0] == 'e');
    if word != "mod "@ {
        lemma_other_word(item, "mod "@, 0);
    }
    if word != "use "@ {
        lemma_other_word(item, "use "@, 0);
    }
    if word != "extern crate "@ {
        lemma_other_word(item, "extern crate "@, 0);
    }
    assert(specifiers(ImportSyntax::Rust, core) =~= seq![m]);
    lemma_names_one(m);
}

/// C and C++: `#include "m"` imports `m`, and nothing else; `#include <m>` imports
/// nothing.
pub proof fn c_includes_import(pad: Seq<char>, t: Seq<char>, m: Seq<char>, r: Seq<char>)
    requires
        blank(pad),
        blank(t),
        !m.contains('"'),
        !(pad + "#include"@ + t + in_quotes('"', m) + r).contains('\n'),
    ensures
        imports(syntax_of("c"@), pad + "#include"@ + t + in_quotes('"', m) + r) == candidates(m),
        imports(syntax_of("cpp"@), pad + "#include"@ + t + in_quotes('"', m) + r) == candidates(m),
        imports(syntax_of("c"@), pad + "#include"@ + t + seq!['<'] + m) == Set::<Seq<char>>::empty(),
{
    reveal_strlit("#include");
    reveal_strlit("c");
    reveal_strlit("cpp");
    lemma_names_of_languages();
    let word = "#include"@;
    let line = pad + word + t + in_quotes('"', m) + r;
    let core = word + t + in_quotes('"', m);
    assert(line =~= pad + core + r);
    assert(core.last() == '"' && core[0] == '#');
    let rest = lemma_indented(pad, core, r);
    let s = core + rest;
    let body = t + in_quotes('"', m) + rest;
    assert(s =~= word + body);
    lemma_starts(word, body);
    lemma_one_line(ImportSyntax::CFamily, line);
    let p = spaces();
    assert forall|j: int| 0 <= j < t.len() implies p(#[trigger] t[j]) by {}
    let after = in_quotes('"', m) + rest;
    assert(body =~= t + after);
    assert(after[0] == '"');
    lemma_trim_front(t, after, p);
    assert forall|i: int| 0 <= i < t.len() implies #[trigger] t[i] != '\'' && t[i] != '"' by {}
    lemma_quoted(t, '"', m, rest);
    assert(specifiers(ImportSyntax::CFamily, s) =~= seq![m]);
    lemma_names_one(m);
    let system = pad + word + t + seq!['<'] + m;
    let start = word + t + seq!['<'];
    lemma_line_breaks(pad + word + t + in_quotes('"', m), r);
    lemma_line_breaks(pad + word + t, in_quotes('"', m));
    lemma_line_breaks(seq!['"'] + m, seq!['"']);
    lemma_line_breaks(seq!['"'], m);
    lemma_line_breaks(seq!['<'], m);
    lemma_line_breaks(pad + word + t, seq!['<'] + m);
    assert(system =~= (pad + word + t) + (seq!['<'] + m));
    assert(!seq!['<'].contains('\n'));
    assert(system =~= pad + start + m);
    assert(start[0] == '#' && start.last() == '<');
    let rest = lemma_indented(pad, start, m);
    let s = start + rest;
    let body = t + seq!['<'] + rest;
    assert(s =~= word + body);
    lemma_starts(word, body);
    let after = seq!['<'] + rest;
    assert(body =~= t + after);
    lemma_trim_front(t, after, p);
    assert(after[0] == '<');
    lemma_one_line(ImportSyntax::CFamily, system);
    assert(specifiers(ImportSyntax::CFamily, s) =~= Seq::<Seq<char>>::empty());
}

/// The languages are told apart by their names.
pub proof fn lemma_names_of_languages()
    ensures
        syntax_of("python"@) is Python,
        syntax_of("javascript"@) is JavaScript,
        syntax_of("rust"@) is Rust,
        syntax_of("c"@) is CFamily,
        syntax_of("cpp"@) is CFamily,
        syntax_of("java"@) is Java,
        syntax_of("haskell"@) is Haskell,
        syntax_of("ruby"@) is Ruby,
        syntax_of("ocaml"@) is OCaml,
        syntax_of("racket"@) is Lisp,
        syntax_of("lisp"@) is Lisp,
        syntax_of("common_lisp"@) is Lisp,
        syntax_of("bash"@) is Shell,
        syntax_of("shell"@) is Shell,
        syntax_of("nix"@) is Nix,
        syntax_of("nix_expr"@) is Nix,
        syntax_of("csharp"@) is CSharp,
        syntax_of("mathematica"@) is Wolfram,
        syntax_of("matlab"@) is Wolfram,
{
    reveal_strlit("python");
    reveal_strlit("javascript");
    reveal_strlit("rust");
    reveal_strlit("c");
    reveal_strlit("cpp");
    reveal_strlit("java");
    reveal_strlit("haskell");
    reveal_strlit("ruby");
    reveal_strlit("ocaml");
    reveal_strlit("racket");
    reveal_strlit("lisp");
    reveal_strlit("common_lisp");
    reveal_strlit("bash");
    reveal_strlit("shell");
    reveal_strlit("nix");
    reveal_strlit("nix_expr");
    reveal_strlit("csharp");
    reveal_strlit("mathematica");
    reveal_strlit("matlab");
    assert("python"@[0] == 'p' && "javascript"@[0] == 'j' && "rust"@[0] == 'r' && "c"@[0] == 'c'
        && "cpp"@[0] == 'c' && "java"@[0] == 'j' && "haskell"@[0] == 'h' && "ruby"@[0] == 'r'
        && "ocaml"@[0] == 'o' && "racket"@[0] == 'r' && "lisp"@[0] == 'l' && "common_lisp"@[0] == 'c'
        && "bash"@[0] == 'b' && "shell"@[0] == 's' && "nix"@[0] == 'n' && "nix_expr"@[0] == 'n'
        && "csharp"@[0] == 'c' && "mathematica"@[0] == 'm' && "matlab"@[0] == 'm');
    assert("javascript"@.len() == 10 && "java"@.len() == 4 && "c"@.len() == 1 && "cpp"@.len() == 3
        && "common_lisp"@.len() == 11 && "csharp"@.len() == 6 && "nix"@.len() == 3
        && "nix_expr"@.len() == 8);
    assert("rust"@[2] == 's' && "ruby"@[2] == 'b' && "racket"@.len() == 6);
}

/// A word that opens a line, with a module behind it.
proof fn lemma_opening_word(
    pad: Seq<char>,
    word: Seq<char>,
    m: Seq<char>,
    q: Seq<char>,
) -> (rest: Seq<char>)
    requires
        blank(pad),
        word.len() > 0,
        !is_space(word[0]),
        token(m),
        q.len() > 0 ==> is_space(q[0]),
    ensures
        trim(pad + word + m + q) == word + (m + rest),
        after_prefix(word + (m + rest), word) == Some(m + rest),
        first_word(m + rest) == m,
        rest.len() > 0 ==> is_space(rest[0]),
{
    let core = word + m;
    assert(pad + word + m + q =~= pad + core + q);
    assert(!is_space(m[m.len() - 1]));
    assert(core[0] == word[0] && core.last() == m.last());
    let rest = lemma_indented(pad, core, q);
    lemma_keyword(word, m, rest);
    assert(core + rest =~= word + (m + rest));
    assert(word + m + rest =~= word + (m + rest));
    rest
}

/// Shell: `source m` and `. m` import `m`, and nothing else.
pub proof fn shell_sources_import(pad: Seq<char>, word: Seq<char>, m: Seq<char>, q: Seq<char>)
    requires
        blank(pad),
        word == "source "@ || word == ". "@,
        token(m),
        q.len() > 0 ==> is_space(q[0]),
        !(pad + word + m + q).contains('\n'),
    ensures
        imports(syntax_of("bash"@), pad + word + m + q) == candidates(m),
        imports(syntax_of("shell"@), pad + word + m + q) == candidates(m),
{
    reveal_strlit("source ");
    reveal_strlit(". ");
    lemma_names_of_languages();
    let rest = lemma_opening_word(pad, word, m, q);
    let s = word + (m + rest);
    lemma_one_line(ImportSyntax::Shell, pad + word + m + q);
    assert(s[0] == word[0]);
    assert("source "@[0] == 's' && ". "@[0] == '.');
    if word != "source "@ {
        lemma_other_word(s, "source "@, 0);
    } else {
        lemma_other_word(s, ". "@, 0);
    }
    assert(specifiers(ImportSyntax::Shell, s) =~= seq![m]);
    lemma_names_one(m);
}

/// OCaml: `open m` and `include m` import `m`, and nothing else.
pub proof fn ocaml_opens_import(pad: Seq<char>, word: Seq<char>, m: Seq<char>, q: Seq<char>)
    requires
        blank(pad),
        word == "open "@ || word == "include "@,
        token(m),
        q.len() > 0 ==> is_space(q[0]),
        !(pad + word + m + q).contains('\n'),
    ensures
        imports(syntax_of("ocaml"@), pad + word + m + q) == candidates(m),
{
    reveal_strlit("open ");
    reveal_strlit("include ");
    lemma_names_of_languages();
    let rest = lemma_opening_word(pad, word, m, q);
    let s = word + (m + rest);
    lemma_one_line(ImportSyntax::OCaml, pad + word + m + q);
    assert(s[0] == word[0]);
    assert("open "@[0] == 'o' && "include "@[0] == 'i');
    if word != "open "@ {
        lemma_other_word(s, "open "@, 0);
    } else {
        lemma_other_word(s, "include "@, 0);
    }
    assert(specifiers(ImportSyntax::OCaml, s) =~= seq![m]);
    lemma_names_one(m);
}

/// Haskell: `import m` and `import qualified m` import `m`, and nothing else.
pub proof fn haskell_imports(pad: Seq<char>, m: Seq<char>, q: Seq<char>)
    requires
        blank(pad),
        token(m),
        m != "qualified"@,
        q.len() > 0 ==> is_space(q[0]),
        !(pad + "import "@ + m + q).contains('\n'),
    ensures
        imports(syntax_of("haskell"@), pad + "import "@ + m + q) == candidates(m),
        imports(syntax_of("haskell"@), pad + "import qualified "@ + m + q) == candidates(m),
{
    reveal_strlit("import ");
    reveal_strlit("qualified ");
    reveal_strlit("qualified");
    reveal_strlit("import qualified ");
    lemma_names_of_languages();
    let syntax = ImportSyntax::Haskell;
    let rest = lemma_opening_word(pad, "import "@, m, q);
    let body = m + rest;
    let s = "import "@ + body;
    lemma_one_line(syntax, pad + "import "@ + m + q);
    if starts_with(body, "qualified "@) {
        assert forall|i: int| 0 <= i < 10 implies body[i] == "qualified "@[i] by {
            assert(body.take(10)[i] == body[i]);
        }
        if m.len() > 9 {
            assert(body[9] == m[9]);
        } else if m.len() < 9 {
            assert(body[m.len() as int] == rest[0]);
        } else {
            assert(m =~= "qualified"@) by {
                assert forall|i: int| 0 <= i < 9 implies m[i] == "qualified"@[i] by {
                    assert(body[i] == m[i]);
                }
            }
        }
    }
    assert(without_prefix(body, "qualified "@) == body);
    assert(specifiers(syntax, s) =~= seq![m]);
    lemma_names_one(m);
    let word = "import qualified "@;
    let rest = lemma_opening_word(pad, word, m, q);
    let body = m + rest;
    let inner = "qualified "@ + body;
    let s = word + body;
    assert(s =~= "import "@ + inner);
    lemma_starts("import "@, inner);
    lemma_starts("qualified "@, body);
    let line = pad + word + m + q;
    lemma_line_breaks(pad + "import "@, m + q);
    lemma_line_breaks(pad, "import "@);
    lemma_line_breaks(pad + word, m + q);
    lemma_line_breaks(pad, word);
    assert(pad + "import "@ + m + q =~= (pad + "import "@) + (m + q));
    assert(line =~= (pad + word) + (m + q));
    assert(!word.contains('\n'));
    lemma_one_line(syntax, line);
    assert(specifiers(syntax, s) =~= seq![m]);
}

/// C#: `using m;` imports `m`, and nothing else.
pub proof fn csharp_usings_import(pad: Seq<char>, m: Seq<char>, q: Seq<char>)
    requires
        blank(pad),
        m.len() > 0,
        m.last() != ';',
        blank(q),
        !(pad + "using "@ + m + seq![';'] + q).contains('\n'),
    ensures
        imports(syntax_of("csharp"@), pad + "using "@ + m + seq![';'] + q) == candidates(m),
{
    reveal_strlit("using ");
    lemma_names_of_languages();
    let word = "using "@;
    let line = pad + word + m + seq![';'] + q;
    let core = word + m + seq![';'];
    assert(line =~= pad + core + q);
    assert(core[0] == 'u' && core.last() == ';');
    let rest = lemma_indented(pad, core, q);
    assert(core + rest =~= core);
    let body = m + seq![';'];
    assert(core =~= word + body);
    lemma_starts(word, body);
    lemma_semicolon(m);
    lemma_one_line(ImportSyntax::CSharp, line);
    assert(specifiers(ImportSyntax::CSharp, core) =~= seq![m]);
    lemma_names_one(m);
}

/// Java: `import m;`, `import static m;` and either of them with `.*` behind the
/// name import `m`, and nothing else.
pub proof fn java_imports(
    pad: Seq<char>,
    kind: Seq<char>,
    m: Seq<char>,
    star: Seq<char>,
    q: Seq<char>,
)
    requires
        blank(pad),
        kind == ""@ || kind == "static "@,
        star == ""@ || star == ".*"@,
        m.len() > 0,
        m.last() != ';',
        m.last() != '*',
        !starts_with(m + star, "static "@),
        blank(q),
        !(pad + "import "@ + kind + m + star + seq![';'] + q).contains('\n'),
    ensures
        imports(syntax_of("java"@), pad + "import "@ + kind + m + star + seq![';'] + q)
            == candidates(m),
{
    reveal_strlit("");
    reveal_strlit("static ");
    reveal_strlit(".*");
    reveal_strlit("import ");
    lemma_names_of_languages();
    let word = "import "@;
    let line = pad + word + kind + m + star + seq![';'] + q;
    let core = word + kind + m + star + seq![';'];
    assert(line =~= pad + core + q);
    assert(core[0] == 'i' && core.last() == ';');
    let rest = lemma_indented(pad, core, q);
    assert(core + rest =~= core);
    let name = m + star;
    let body = name + seq![';'];
    let inner = kind + body;
    assert(core =~= word + inner);
    lemma_starts(word, inner);
    assert(name.last() != ';') by {
        if star.len() > 0 {
            assert(name.last() == '*');
        } else {
            assert(name =~= m);
        }
    }
    if kind.len() > 0 {
        lemma_starts("static "@, body);
    } else {
        assert(inner =~= body);
        if starts_with(body, "static "@) {
            assert(body.take(7)[6] == body[6]);
            if body.len() == 7 {
                assert(body[6] == ';');
            }
            assert(name.take(7) =~= body.take(7));
        }
    }
    assert(without_prefix(inner, "static "@) == body);
    lemma_semicolon(name);
    assert(!ends_with(m, ".*"@)) by {
        if ends_with(m, ".*"@) {
            assert(m.skip(m.len() - 2)[1] == m.last());
        }
    }
    assert(trim_end_text(m, ".*"@) == m);
    assert(trim_end_text(name, ".*"@) == m) by {
        if star.len() > 0 {
            crate::text_laws::lemma_ends(m, star);
            assert(trim_end_text(name, ".*"@) == trim_end_text(name.take(name.len() - 2), ".*"@));
        } else {
            assert(name =~= m);
        }
    }
    lemma_one_line(ImportSyntax::Java, line);
    assert(specifiers(ImportSyntax::Java, core) =~= seq![m]);
    lemma_names_one(m);
}

/// Ruby: `require 'm'` and `require_relative 'm'` import `m`, and nothing else.
pub proof fn ruby_requires_import(
    pad: Seq<char>,
    word: Seq<char>,
    t: Seq<char>,
    q: char,
    m: Seq<char>,
    r: Seq<char>,
)
    requires
        blank(pad),
        word == "require "@ || word == "require_relative "@,
        unquoted(t),
        quote(q),
        !m.contains(q),
        !(pad + word + t + in_quotes(q, m) + r).contains('\n'),
    ensures
        imports(syntax_of("ruby"@), pad + word + t + in_quotes(q, m) + r) == candidates(m),
{
    reveal_strlit("require ");
    reveal_strlit("require_relative ");
    lemma_names_of_languages();
    let line = pad + word + t + in_quotes(q, m) + r;
    let core = word + t + in_quotes(q, m);
    assert(line =~= pad + core + r);
    assert(core.last() == q && core[0] == word[0]);
    let rest = lemma_indented(pad, core, r);
    let s = core + rest;
    let front = word + t;
    assert(s =~= front + in_quotes(q, m) + rest);
    assert forall|i: int| 0 <= i < front.len() implies #[trigger] front[i] != '\'' && front[i] != '"' by {
        if i >= word.len() {
            assert(front[i] == t[i - word.len()]);
        }
    }
    lemma_quoted(front, q, m, rest);
    assert(s =~= word + (t + in_quotes(q, m) + rest));
    lemma_starts(word, t + in_quotes(q, m) + rest);
    lemma_one_line(ImportSyntax::Ruby, line);
    assert(specifiers(ImportSyntax::Ruby, s) =~= seq![m]);
    lemma_names_one(m);
}

/// A word that stands in a line, with a quoted name behind it.
proof fn lemma_word_and_quote(
    p: Seq<char>,
    word: Seq<char>,
    t: Seq<char>,
    q: char,
    m: Seq<char>,
    r: Seq<char>,
)
    requires
        word.len() > 0,
        !is_space(word[0]),
        unquoted(p),
        unquoted(word),
        unquoted(t),
        quote(q),
        !m.contains(q),
    ensures
        ({
            let s = trim(p + word + t + in_quotes(q, m) + r);
            holds_text(s, word) && quoted(s) == Some(m)
        }),
{
    let line = p + word + t + in_quotes(q, m) + r;
    let core = word + t + in_quotes(q, m);
    assert(line =~= p + core + r);
    assert(core.last() == q && core[0] == word[0]);
    lemma_trim_around(p, core, r);
    let k = lemma_trim_start_is_end(p, spaces());
    let front = p.skip(k);
    let back = trim_end_by(r, spaces());
    let s = front + core + back;
    let rest = t + in_quotes(q, m) + back;
    assert(s.skip(front.len() as int) =~= word + rest);
    lemma_starts(word, rest);
    lemma_found_by(s, word, 0, front.len() as int);
    let head = front + word + t;
    assert(s =~= head + in_quotes(q, m) + back);
    assert forall|i: int| 0 <= i < head.len() implies #[trigger] head[i] != '\'' && head[i] != '"' by {
        if i < front.len() {
            assert(head[i] == p[i + k]);
        } else if i < front.len() + word.len() {
            assert(head[i] == word[i - front.len()]);
        } else {
            assert(head[i] == t[i - front.len() - word.len()]);
        }
    }
    lemma_quoted(head, q, m, back);
}

/// Lisps: a line with `require` or `load` and a quoted name behind it imports that
/// name, and nothing else.
pub proof fn lisp_loads_import(
    p: Seq<char>,
    word: Seq<char>,
    t: Seq<char>,
    q: char,
    m: Seq<char>,
    r: Seq<char>,
)
    requires
        word == "require"@ || word == "load"@,
        unquoted(p),
        unquoted(t),
        quote(q),
        !m.contains(q),
        !(p + word + t + in_quotes(q, m) + r).contains('\n'),
    ensures
        imports(syntax_of("racket"@), p + word + t + in_quotes(q, m) + r) == candidates(m),
        imports(syntax_of("lisp"@), p + word + t + in_quotes(q, m) + r) == candidates(m),
        imports(syntax_of("common_lisp"@), p + word + t + in_quotes(q, m) + r) == candidates(m),
{
    reveal_strlit("require");
    reveal_strlit("load");
    lemma_names_of_languages();
    lemma_word_and_quote(p, word, t, q, m, r);
    let line = p + word + t + in_quotes(q, m) + r;
    lemma_one_line(ImportSyntax::Lisp, line);
    assert(specifiers(ImportSyntax::Lisp, trim(line)) =~= seq![m]);
    lemma_names_one(m);
}

/// Mathematica and MATLAB: a line that gets, needs, runs or sources a quoted name
/// imports that name, and nothing else.
pub proof fn wolfram_gets_import(
    p: Seq<char>,
    word: Seq<char>,
    t: Seq<char>,
    q: char,
    m: Seq<char>,
    r: Seq<char>,
)
    requires
        word == "Get"@ || word == "Needs"@ || word == "run("@ || word == "source("@,
        unquoted(p),
        unquoted(t),
        quote(q),
        !m.contains(q),
        !(p + word + t + in_quotes(q, m) + r).contains('\n'),
    ensures
        imports(syntax_of("mathematica"@), p + word + t + in_quotes(q, m) + r) == candidates(m),
        imports(syntax_of("matlab"@), p + word + t + in_quotes(q, m) + r) == candidates(m),
{
    reveal_strlit("Get");
    reveal_strlit("Needs");
    reveal_strlit("run(");
    reveal_strlit("source(");
    lemma_names_of_languages();
    lemma_word_and_quote(p, word, t, q, m, r);
    let line = p + word + t + in_quotes(q, m) + r;
    lemma_one_line(ImportSyntax::Wolfram, line);
    assert(specifiers(ImportSyntax::Wolfram, trim(line)) =~= seq![m]);
    lemma_names_one(m);
}

/// Whether a character separates the tokens of a Nix expression.
pub open spec fn nix_separator(c: char) -> bool {
    is_space(c) || c == '(' || c == ')' || c == '{' || c == '}' || c == '[' || c == ']' || c == ';'
}

proof fn lemma_kept(list: Seq<Seq<char>>, keep: spec_fn(Seq<char>) -> bool, i: int)
    requires
        0 <= i < list.len(),
        keep(list[i]),
    ensures
        list.filter(keep).contains(list[i]),
    decreases list.len(),
{
    reveal(Seq::filter);
    let init = list.drop_last();
    if i == list.len() - 1 {
        let out = list.filter(keep);
        assert(out == init.filter(keep).push(list.last()));
        assert(out[out.len() - 1] == list[i]);
    } else {
        lemma_kept(init, keep, i);
        assert(init[i] == list[i]);
        let inner = init.filter(keep);
        let at = choose|at: int| 0 <= at < inner.len() && inner[at] == list[i];
        assert(list.filter(keep)[at] == inner[at]);
    }
}

/// Nix: every relative path of an expression is imported.
pub proof fn nix_paths_import(p: Seq<char>, up: Seq<char>, m: Seq<char>, q: Seq<char>)
    requires
        up == "./"@ || up == "../"@,
        m.len() > 0,
        forall|i: int| 0 <= i < m.len() ==> !nix_separator(#[trigger] m[i]),
        p.len() > 0 ==> nix_separator(p.last()),
        q.len() > 0 ==> nix_separator(q[0]),
        !(p + (up + m) + q).contains('\n'),
    ensures
        candidates(up + m).subset_of(imports(syntax_of("nix"@), p + (up + m) + q)),
        candidates(up + m).subset_of(imports(syntax_of("nix_expr"@), p + (up + m) + q)),
{
    reveal_strlit("./");
    reveal_strlit("../");
    lemma_names_of_languages();
    let line = p + (up + m) + q;
    let part = up + m;
    assert(part[0] == '.' && part.last() == m.last());
    assert(!nix_separator(m[m.len() - 1]));
    lemma_trim_around(p, part, q);
    let k = lemma_trim_start_is_end(p, spaces());
    let n = lemma_trim_end_is_start(q, spaces());
    let front = p.skip(k);
    let back = q.take(n);
    let s = front + part + back;
    let set = seq!['(', ')', '{', '}', '[', ']', ';'];
    let sep = separators(set, true);
    assert(set[0] == '(' && set[1] == ')' && set[2] == '{' && set[3] == '}' && set[4] == '[' && set[5]
        == ']' && set[6] == ';');
    assert forall|c: char| #[trigger] sep(c) == nix_separator(c) by {
        if set.contains(c) {
            let i = choose|i: int| 0 <= i < set.len() && set[i] == c;
            assert(set[i] == c);
        }
        if nix_separator(c) && !is_space(c) {
            if c == '(' {
                assert(set.contains(set[0]));
            } else if c == ')' {
                assert(set.contains(set[1]));
            } else if c == '{' {
                assert(set.contains(set[2]));
            } else if c == '}' {
                assert(set.contains(set[3]));
            } else if c == '[' {
                assert(set.contains(set[4]));
            } else if c == ']' {
                assert(set.contains(set[5]));
            } else {
                assert(set.contains(set[6]));
            }
        }
    }
    assert forall|j: int| 0 <= j < part.len() implies !sep(#[trigger] part[j]) by {
        if j >= up.len() {
            assert(part[j] == m[j - up.len()]);
        } else {
            assert(part[j] == up[j]);
        }
        assert(!nix_separator(part[j]));
    }
    if front.len() > 0 {
        assert(front.last() == p.last());
        assert(sep(front.last()));
    }
    if back.len() > 0 {
        assert(back[0] == q[0]);
        assert(sep(back[0]));
    }
    lemma_part_stands(front, part, back, sep);
    let tokens = split_by(s, sep);
    let at = choose|at: int| 0 <= at < tokens.len() && tokens[at] == part;
    let keep = |t: Seq<char>| starts_with(t, "./"@) || starts_with(t, "../"@);
    lemma_starts(up, m);
    lemma_kept(tokens, keep, at);
    let found = tokens.filter(keep);
    let i = choose|i: int| 0 <= i < found.len() && found[i] == part;
    lemma_one_line(ImportSyntax::Nix, line);
    assert(specifiers(ImportSyntax::Nix, s) == found);
    lemma_names_hold(found, i);
}

/// Whether a line, without the space around it, starts with a word.
pub open spec fn opens_with(line: Seq<char>, word: Seq<char>) -> bool {
    starts_with(trim(line), word)
}

/// Whether a word stands in a line.
pub open spec fn says(line: Seq<char>, word: Seq<char>) -> bool {
    exists|j: int| 0 <= j <= trim(line).len() && starts_with(#[trigger] trim(line).skip(j), word)
}

proof fn lemma_silent(line: Seq<char>, word: Seq<char>)
    requires
        !says(line, word),
    ensures
        find_text(trim(line), word, 0) == -1,
{
    crate::text_laws::lemma_not_found(trim(line), word, 0);
}

/// A line with none of the words of its language that import imports nothing, and
/// in a language that is not known nothing is imported at all.
pub proof fn other_lines_import_nothing(lang: Seq<char>, line: Seq<char>)
    requires
        !line.contains('\n'),
    ensures
        lang == "python"@ && !opens_with(line, "import "@) && !opens_with(line, "from "@)
            ==> imports(syntax_of(lang), line) == Set::<Seq<char>>::empty(),
        lang == "javascript"@ && !opens_with(line, "import "@) && !opens_with(line, "export "@)
            && !says(line, "require("@) && !says(line, "import("@) ==> imports(syntax_of(lang), line)
            == Set::<Seq<char>>::empty(),
        (lang == "c"@ || lang == "cpp"@) && !opens_with(line, "#include"@) ==> imports(
            syntax_of(lang),
            line,
        ) == Set::<Seq<char>>::empty(),
        (lang == "java"@ || lang == "haskell"@) && !opens_with(line, "import "@) ==> imports(
            syntax_of(lang),
            line,
        ) == Set::<Seq<char>>::empty(),
        lang == "ruby"@ && !opens_with(line, "require "@) && !opens_with(line, "require_relative "@)
            ==> imports(syntax_of(lang), line) == Set::<Seq<char>>::empty(),
        lang == "ocaml"@ && !opens_with(line, "open "@) && !opens_with(line, "include "@)
            ==> imports(syntax_of(lang), line) == Set::<Seq<char>>::empty(),
        (lang == "racket"@ || lang == "lisp"@ || lang == "common_lisp"@) && !says(line, "require"@)
            && !says(line, "load"@) ==> imports(syntax_of(lang), line) == Set::<Seq<char>>::empty(),
        (lang == "bash"@ || lang == "shell"@) && !opens_with(line, "source "@) && !opens_with(
            line,
            ". "@,
        ) ==> imports(syntax_of(lang), line) == Set::<Seq<char>>::empty(),
        lang == "csharp"@ && !opens_with(line, "using "@) ==> imports(syntax_of(lang), line)
            == Set::<Seq<char>>::empty(),
        (lang == "mathematica"@ || lang == "matlab"@) && !says(line, "Get"@) && !says(
            line,
            "Needs"@,
        ) && !says(line, "run("@) && !says(line, "source("@) ==> imports(syntax_of(lang), line)
            == Set::<Seq<char>>::empty(),
{
    lemma_names_of_languages();
    let none = Seq::<Seq<char>>::empty();
    assert(names_of(none) == Set::<Seq<char>>::empty());
    let syntax = syntax_of(lang);
    lemma_one_line(syntax, line);
    let s = trim(line);
    if lang == "javascript"@ && !says(line, "require("@) && !says(line, "import("@) {
        lemma_silent(line, "require("@);
        lemma_silent(line, "import("@);
        if !opens_with(line, "import "@) && !opens_with(line, "export "@) {
            assert(specifiers(syntax, s) =~= none);
        }
    }
    if (lang == "racket"@ || lang == "lisp"@ || lang == "common_lisp"@) && !says(line, "require"@)
        && !says(line, "load"@) {
        lemma_silent(line, "require"@);
        lemma_silent(line, "load"@);
    }
    if (lang == "mathematica"@ || lang == "matlab"@) && !says(line, "Get"@) && !says(line, "Needs"@)
        && !says(line, "run("@) && !says(line, "source("@) {
        lemma_silent(line, "Get"@);
        lemma_silent(line, "Needs"@);
        lemma_silent(line, "run("@);
        lemma_silent(line, "source("@);
    }
    if lang == "python"@ && !opens_with(line, "import "@) && !opens_with(line, "from "@) {
        assert(specifiers(syntax, s) =~= none);
    }
    if lang == "ocaml"@ && !opens_with(line, "open "@) && !opens_with(line, "include "@) {
        assert(specifiers(syntax, s) =~= none);
    }
    if (lang == "bash"@ || lang == "shell"@) && !opens_with(line, "source "@) && !opens_with(
        line,
        ". "@,
    ) {
        assert(specifiers(syntax, s) =~= none);
    }
}

/// A line of Rust that opens with none of its words, public or not, imports
/// nothing.
pub proof fn other_rust_lines_import_nothing(line: Seq<char>)
    requires
        !line.contains('\n'),
        !opens_with(line, "mod "@) && !opens_with(line, "pub mod "@),
        !opens_with(line, "use "@) && !opens_with(line, "pub use "@),
        !opens_with(line, "extern crate "@) && !opens_with(line, "pub extern crate "@),
    ensures
        imports(syntax_of("rust"@), line) == Set::<Seq<char>>::empty(),
{
    lemma_names_of_languages();
    let s = trim(line);
    let item = without_prefix(s, "pub "@);
    reveal_strlit("pub ");
    reveal_strlit("mod ");
    reveal_strlit("use ");
    reveal_strlit("extern crate ");
    reveal_strlit("pub mod ");
    reveal_strlit("pub use ");
    reveal_strlit("pub extern crate ");
    if starts_with(s, "pub "@) {
        lemma_two_words(s, "pub "@, "mod "@, "pub mod "@);
        lemma_two_words(s, "pub "@, "use "@, "pub use "@);
        lemma_two_words(s, "pub "@, "extern crate "@, "pub extern crate "@);
    }
    lemma_one_line(ImportSyntax::Rust, line);
    assert(specifiers(ImportSyntax::Rust, s) =~= Seq::<Seq<char>>::empty());
}

proof fn lemma_two_words(s: Seq<char>, a: Seq<char>, b: Seq<char>, both: Seq<char>)
    requires
        starts_with(s, a),
        both =~= a + b,
    ensures
        starts_with(s.skip(a.len() as int), b) ==> starts_with(s, both),
{
    let t = s.skip(a.len() as int);
    if starts_with(t, b) {
        assert(s.take(both.len() as int) =~= both) by {
            assert forall|i: int| 0 <= i < both.len() implies s[i] == both[i] by {
                if i < a.len() {
                    assert(s.take(a.len() as int)[i] == s[i]);
                } else {
                    assert(t.take(b.len() as int)[i - a.len()] == t[i - a.len()]);
                    assert(t[i - a.len()] == s[i]);
                }
            }
        }
    }
}

/// In a language whose import forms are not known nothing is imported.
pub proof fn unknown_languages_import_nothing(lang: Seq<char>, source: Seq<char>)
    requires
        lang != "python"@ && lang != "javascript"@ && lang != "rust"@ && lang != "c"@ && lang
            != "cpp"@ && lang != "java"@ && lang != "haskell"@ && lang != "ruby"@ && lang
            != "ocaml"@ && lang != "racket"@ && lang != "lisp"@ && lang != "common_lisp"@ && lang
            != "bash"@ && lang != "shell"@ && lang != "nix"@ && lang != "nix_expr"@ && lang
            != "csharp"@ && lang != "mathematica"@ && lang != "matlab"@,
    ensures
        imports(syntax_of(lang), source) == Set::<Seq<char>>::empty(),
    decreases source.len(),
{
    if source.len() > 0 {
        lemma_after_line(source);
        unknown_languages_import_nothing(lang, after_line(source));
        assert(names_of(specifiers(syntax_of(lang), trim(without_return(source)))) == Set::<
            Seq<char>,
        >::empty());
        assert(imports(syntax_of(lang), source) =~= Set::<Seq<char>>::empty());
    }
}

} // verus!
