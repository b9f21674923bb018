//! Lexical rules of typed-expression blocks, and the escaping that lets any
//! text stand inside one.
//!
//! A block is `IDENT[N]{attr}^( ... )_IDENT[N]{attr}`. Inside it a backslash
//! before a registered opener, before the block's own closer, or before a
//! `$IDENT` splice makes that text literal.

use vstd::prelude::*;
use vstd::slice::slice_subrange;

use crate::text::{
    ascii_digit, chars_of, has_char, is_ascii_digit, lemma_position_from, lemma_position_is,
    list_contains, members, position_from, starts_with, starts_with_chars, string_of,
};

verus! {

pub open spec fn is_ascii_alpha(c: char) -> bool {
    ('a' <= c && c <= 'z') || ('A' <= c && c <= 'Z')
}

/// A character that may begin an identifier.
pub open spec fn ident_start(c: char) -> bool {
    is_ascii_alpha(c) || c == '_'
}

/// A character that may continue an identifier.
pub open spec fn ident_char(c: char) -> bool {
    is_ascii_alpha(c) || is_ascii_digit(c) || c == '_'
}

/// Whether a text is an identifier.
pub open spec fn identifier(s: Seq<char>) -> bool {
    s.len() > 0 && ident_start(s[0]) && forall|i: int| 0 <= i < s.len() ==> ident_char(#[trigger] s[i])
}

pub fn begins_ident(c: char) -> (r: bool)
    ensures
        r == ident_start(c),
{
    ('a' <= c && c <= 'z') || ('A' <= c && c <= 'Z') || c == '_'
}

pub fn continues_ident(c: char) -> (r: bool)
    ensures
        r == ident_char(c),
{
    begins_ident(c) || ascii_digit(c)
}

/// End of the longest run of identifier characters that starts at `i`.
pub open spec fn ident_run(s: Seq<char>, i: int) -> int
    decreases s.len() - i,
{
    if 0 <= i < s.len() && ident_char(s[i]) {
        ident_run(s, i + 1)
    } else {
        i
    }
}

/// End of the longest run of digits that starts at `i`.
pub open spec fn digit_run(s: Seq<char>, i: int) -> int
    decreases s.len() - i,
{
    if 0 <= i < s.len() && is_ascii_digit(s[i]) {
        digit_run(s, i + 1)
    } else {
        i
    }
}

/// End of an optional `[N]` or `[*]` marker at `i`. `None` rejects the whole
/// tag; an unclosed marker is not consumed.
pub open spec fn environment_end(s: Seq<char>, i: int) -> Option<int> {
    if i < s.len() && s[i] == '[' {
        if i + 1 < s.len() && s[i + 1] == '*' {
            if i + 2 < s.len() && s[i + 2] == ']' {
                Some(i + 3)
            } else {
                Some(i)
            }
        } else {
            let j = digit_run(s, i + 1);
            if j == i + 1 {
                None
            } else if j < s.len() && s[j] == ']' {
                Some(j + 1)
            } else {
                Some(i)
            }
        }
    } else {
        Some(i)
    }
}

/// End of an optional non-empty `{attr}` marker at `i`.
pub open spec fn attribute_end(s: Seq<char>, i: int) -> int {
    if i < s.len() && s[i] == '{' {
        let j = position_from(s, i + 1, '}');
        if i + 1 < j && j < s.len() {
            j + 1
        } else {
            i
        }
    } else {
        i
    }
}

/// Length of the registered opener `IDENT [N|*]? {attr}? ^(` that `s` begins
/// with, if it begins with one.
pub open spec fn opener_length(s: Seq<char>, tags: Set<Seq<char>>) -> Option<int> {
    if s.len() == 0 || !ident_start(s[0]) {
        None
    } else {
        let e = ident_run(s, 1);
        if !tags.contains(s.take(e)) {
            None
        } else {
            match environment_end(s, e) {
                None => None,
                Some(after_env) => {
                    let i = attribute_end(s, after_env);
                    if i + 1 < s.len() && s[i] == '^' && s[i + 1] == '(' {
                        Some(i + 2)
                    } else {
                        None
                    }
                },
            }
        }
    }
}

/// Whether the tag named by `closer` could still grow by `next`, so that the
/// text is the beginning of another, longer tag.
pub open spec fn extends_tag(closer: Seq<char>, next: char) -> bool {
    let raw = closer.skip(2);
    if raw.contains('{') {
        false
    } else if raw.contains('[') {
        next == '{'
    } else {
        ident_char(next) || next == '[' || next == '{'
    }
}

/// Whether `s` begins with `closer` as a complete lexical tag.
pub open spec fn exact_closer(s: Seq<char>, closer: Seq<char>) -> bool {
    &&& closer.len() >= 2
    &&& closer[0] == ')'
    &&& closer[1] == '_'
    &&& starts_with(s, closer)
    &&& closer.len() < s.len() ==> !extends_tag(closer, s[closer.len() as int])
}

pub proof fn lemma_ident_run(s: Seq<char>, i: int)
    requires
        0 <= i <= s.len(),
    ensures
        i <= ident_run(s, i) <= s.len(),
        forall|j: int| i <= j < ident_run(s, i) ==> ident_char(#[trigger] s[j]),
        ident_run(s, i) < s.len() ==> !ident_char(s[ident_run(s, i)]),
    decreases s.len() - i,
{
    if i < s.len() && ident_char(s[i]) {
        lemma_ident_run(s, i + 1);
    }
}

pub proof fn lemma_digit_run(s: Seq<char>, i: int)
    requires
        0 <= i <= s.len(),
    ensures
        i <= digit_run(s, i) <= s.len(),
        forall|j: int| i <= j < digit_run(s, i) ==> is_ascii_digit(#[trigger] s[j]),
        digit_run(s, i) < s.len() ==> !is_ascii_digit(s[digit_run(s, i)]),
    decreases s.len() - i,
{
    if i < s.len() && is_ascii_digit(s[i]) {
        lemma_digit_run(s, i + 1);
    }
}

/// An opener lies inside the text it begins.
pub proof fn lemma_opener_length(s: Seq<char>, tags: Set<Seq<char>>)
    ensures
        opener_length(s, tags) matches Some(n) ==> 3 <= n <= s.len(),
{
    if s.len() > 0 && ident_start(s[0]) {
        lemma_ident_run(s, 1);
        let e = ident_run(s, 1);
        if e < s.len() && s[e] == '[' {
            lemma_digit_run(s, e + 1);
        }
        match environment_end(s, e) {
            None => {},
            Some(after_env) => {
                if after_env < s.len() && s[after_env] == '{' {
                    lemma_position_from(s, after_env + 1, '}');
                }
            },
        }
    }
}

/// The text `s` made safe to stand in a block that `closer` ends.
pub open spec fn escape(s: Seq<char>, closer: Seq<char>, tags: Set<Seq<char>>) -> Seq<char>
    decreases s.len() via escape_decreases
{
    if s.len() == 0 {
        Seq::empty()
    } else if exact_closer(s, closer) {
        seq!['\\'] + closer + escape(s.skip(closer.len() as int), closer, tags)
    } else if let Some(n) = opener_length(s, tags) {
        seq!['\\'] + s.take(n) + escape(s.skip(n), closer, tags)
    } else if s[0] == '$' && s.len() > 1 && ident_start(s[1]) {
        seq!['\\', '$'] + escape(s.skip(1), closer, tags)
    } else {
        seq![s[0]] + escape(s.skip(1), closer, tags)
    }
}

#[via_fn]
proof fn escape_decreases(s: Seq<char>, closer: Seq<char>, tags: Set<Seq<char>>) {
    lemma_opener_length(s, tags);
}

/// Length of the text that a backslash standing before `s` makes literal, if
/// it makes any.
pub open spec fn escaped_length(s: Seq<char>, closer: Seq<char>, tags: Set<Seq<char>>) -> Option<
    int,
> {
    if exact_closer(s, closer) {
        Some(closer.len() as int)
    } else if opener_length(s, tags) is Some {
        opener_length(s, tags)
    } else if s.len() > 1 && s[0] == '$' && (ident_start(s[1]) || (s[1] == '\\' && opener_length(
        s.skip(2),
        tags,
    ) is Some)) {
        Some(1)
    } else {
        None
    }
}

/// The text that `s` stands for inside a block that `closer` ends.
pub open spec fn unescape(s: Seq<char>, closer: Seq<char>, tags: Set<Seq<char>>) -> Seq<char>
    decreases s.len() via unescape_decreases
{
    if s.len() == 0 {
        Seq::empty()
    } else {
        let escaped = if s[0] == '\\' {
            escaped_length(s.skip(1), closer, tags)
        } else {
            None
        };
        match escaped {
            Some(n) => s.subrange(1, 1 + n) + unescape(s.skip(1 + n), closer, tags),
            None => seq![s[0]] + unescape(s.skip(1), closer, tags),
        }
    }
}

#[via_fn]
proof fn unescape_decreases(s: Seq<char>, closer: Seq<char>, tags: Set<Seq<char>>) {
    lemma_escaped_length(s.skip(1), closer, tags);
}

pub proof fn lemma_escaped_length(s: Seq<char>, closer: Seq<char>, tags: Set<Seq<char>>)
    ensures
        escaped_length(s, closer, tags) matches Some(n) ==> 1 <= n <= s.len(),
{
    lemma_opener_length(s, tags);
}

/// Length of the registered opener that `s` begins with.
pub fn opener_len(s: &[char], tags: &[String]) -> (r: Option<usize>)
    ensures
        r is Some <==> opener_length(s@, members(tags@)) is Some,
        r matches Some(n) ==> opener_length(s@, members(tags@)) == Some(n as int) && 3 <= n
            <= s@.len(),
{
    proof {
        lemma_opener_length(s@, members(tags@));
    }
    if s.len() == 0 || !begins_ident(s[0]) {
        return None;
    }
    let mut e: usize = 1;
    while e < s.len() && continues_ident(s[e])
        invariant
            1 <= e <= s@.len(),
            ident_run(s@, 1) == ident_run(s@, e as int),
        decreases s@.len() - e,
    {
        e += 1;
    }
    assert(s@.take(e as int) =~= s@.subrange(0, e as int));
    if !list_contains(tags, slice_subrange(s, 0, e)) {
        return None;
    }
    let mut i: usize = e;
    if i < s.len() && s[i] == '[' {
        let mut j: usize = i + 1;
        if j < s.len() && s[j] == '*' {
            j += 1;
        } else {
            let digits_start: usize = j;
            while j < s.len() && ascii_digit(s[j])
                invariant
                    digits_start <= j <= s@.len(),
                    digit_run(s@, digits_start as int) == digit_run(s@, j as int),
                decreases s@.len() - j,
            {
                j += 1;
            }
            if j == digits_start {
                return None;
            }
        }
        if j < s.len() && s[j] == ']' {
            i = j + 1;
        }
    }
    assert(environment_end(s@, e as int) == Some(i as int));
    let after_env: usize = i;
    if i < s.len() && s[i] == '{' {
        let mut j: usize = i + 1;
        while j < s.len() && s[j] != '}'
            invariant
                i + 1 <= j <= s@.len(),
                position_from(s@, i + 1, '}') == position_from(s@, j as int, '}'),
            decreases s@.len() - j,
        {
            j += 1;
        }
        if j > i + 1 && j < s.len() {
            i = j + 1;
        }
    }
    assert(attribute_end(s@, after_env as int) == i);
    if i < s.len() && i + 1 < s.len() && s[i] == '^' && s[i + 1] == '(' {
        Some(i + 2)
    } else {
        None
    }
}

/// Whether `s` begins with `closer` as a complete lexical tag.
///
/// A bare tag can still grow an identifier, environment or attribute; an
/// environment tag can still grow an attribute; an attributed tag is complete.
pub fn exact_closer_at(s: &[char], closer: &[char]) -> (r: bool)
    ensures
        r == exact_closer(s@, closer@),
{
    if closer.len() < 2 || closer[0] != ')' || closer[1] != '_' {
        return false;
    }
    if !starts_with_chars(s, closer) {
        return false;
    }
    if s.len() == closer.len() {
        return true;
    }
    let next: char = s[closer.len()];
    let raw = slice_subrange(closer, 2, closer.len());
    assert(raw@ =~= closer@.skip(2));
    let extends: bool = if has_char(raw, '{') {
        false
    } else if has_char(raw, '[') {
        next == '{'
    } else {
        continues_ident(next) || next == '[' || next == '{'
    };
    !extends
}

/// Backslash-escapes any text in `body` that would be read as syntax inside
/// the block that `closer` ends: registered openers, the closer itself, and
/// `$IDENT` splices.
#[verifier::rlimit(50)]
pub fn escape_body(body: &str, closer: &str, backends: &[String]) -> (out: String)
    ensures
        out@ == escape(body@, closer@, members(backends@)),
{
    let s: Vec<char> = chars_of(body);
    let c: Vec<char> = chars_of(closer);
    let mut out = String::new();
    let mut i: usize = 0;
    let ghost tags = members(backends@);
    assert(body@.skip(0) =~= body@);
    assert(out@ + escape(body@, closer@, tags) =~= escape(body@, closer@, tags));
    while i < s.len()
        invariant
            s@ == body@,
            c@ == closer@,
            tags == members(backends@),
            i <= s@.len(),
            out@ + escape(body@.skip(i as int), closer@, tags) == escape(body@, closer@, tags),
        decreases s@.len() - i,
    {
        let rest = slice_subrange(s.as_slice(), i, s.len());
        let ghost before = out@;
        let ghost suffix = body@.skip(i as int);
        assert(rest@ =~= suffix);
        proof {
            lemma_opener_length(suffix, tags);
        }
        if exact_closer_at(rest, c.as_slice()) {
            out.push('\\');
            out.append(closer);
            i += c.len();
            assert(suffix.skip(closer@.len() as int) =~= body@.skip(i as int));
            assert(out@ + escape(body@.skip(i as int), closer@, tags) =~= before + (seq!['\\']
                + closer@ + escape(suffix.skip(closer@.len() as int), closer@, tags)));
        } else if let Some(n) = opener_len(rest, backends) {
            let opener = string_of(s.as_slice(), i, i + n);
            out.push('\\');
            out.append(opener.as_str());
            i += n;
            assert(opener@ =~= suffix.take(n as int));
            assert(suffix.skip(n as int) =~= body@.skip(i as int));
            assert(out@ + escape(body@.skip(i as int), closer@, tags) =~= before + (seq!['\\']
                + suffix.take(n as int) + escape(suffix.skip(n as int), closer@, tags)));
        } else if rest[0] == '$' && rest.len() > 1 && begins_ident(rest[1]) {
            out.push('\\');
            out.push('$');
            i += 1;
            assert(suffix.skip(1) =~= body@.skip(i as int));
            assert(out@ + escape(body@.skip(i as int), closer@, tags) =~= before + (seq!['\\', '$']
                + escape(suffix.skip(1), closer@, tags)));
        } else {
            out.push(rest[0]);
            i += 1;
            assert(suffix.skip(1) =~= body@.skip(i as int));
            assert(out@ + escape(body@.skip(i as int), closer@, tags) =~= before + (seq![suffix[0]]
                + escape(suffix.skip(1), closer@, tags)));
        }
    }
    assert(body@.skip(i as int) =~= Seq::<char>::empty());
    assert(out@ =~= out@ + escape(body@.skip(i as int), closer@, tags));
    out
}

/// Length of the text that a backslash standing before `s` makes literal.
pub fn escaped_len(s: &[char], closer: &[char], tags: &[String]) -> (r: Option<usize>)
    ensures
        r is Some <==> escaped_length(s@, closer@, members(tags@)) is Some,
        r matches Some(n) ==> escaped_length(s@, closer@, members(tags@)) == Some(n as int) && 1
            <= n <= s@.len(),
{
    if exact_closer_at(s, closer) {
        return Some(closer.len());
    }
    if let Some(n) = opener_len(s, tags) {
        return Some(n);
    }
    if s.len() > 1 && s[0] == '$' {
        if begins_ident(s[1]) {
            return Some(1);
        }
        if s[1] == '\\' {
            let rest = slice_subrange(s, 2, s.len());
            assert(rest@ =~= s@.skip(2));
            if opener_len(rest, tags).is_some() {
                return Some(1);
            }
        }
    }
    None
}

/// The text that `s` stands for inside a block that `closer` ends.
#[verifier::rlimit(50)]
pub fn unescape_body(s: &[char], closer: &[char], tags: &[String]) -> (out: String)
    ensures
        out@ == unescape(s@, closer@, members(tags@)),
{
    let mut out = String::new();
    let mut i: usize = 0;
    let ghost set = members(tags@);
    assert(s@.skip(0) =~= s@);
    assert(out@ + unescape(s@, closer@, set) =~= unescape(s@, closer@, set));
    while i < s.len()
        invariant
            set == members(tags@),
            i <= s@.len(),
            out@ + unescape(s@.skip(i as int), closer@, set) == unescape(s@, closer@, set),
        decreases s@.len() - i,
    {
        let ghost before = out@;
        let ghost suffix = s@.skip(i as int);
        let mut literal: Option<usize> = None;
        if s[i] == '\\' {
            let rest = slice_subrange(s, i + 1, s.len());
            assert(rest@ =~= suffix.skip(1));
            literal = escaped_len(rest, closer, tags);
        }
        if let Some(n) = literal {
            let kept = string_of(s, i + 1, i + 1 + n);
            out.append(kept.as_str());
            i += 1 + n;
            assert(kept@ =~= suffix.subrange(1, 1 + n));
            assert(suffix.skip(1 + n) =~= s@.skip(i as int));
            assert(out@ + unescape(s@.skip(i as int), closer@, set) =~= before + (suffix.subrange(
                1,
                1 + n,
            ) + unescape(suffix.skip(1 + n), closer@, set)));
        } else {
            out.push(s[i]);
            i += 1;
            assert(suffix.skip(1) =~= s@.skip(i as int));
            assert(out@ + unescape(s@.skip(i as int), closer@, set) =~= before + (seq![suffix[0]]
                + unescape(suffix.skip(1), closer@, set)));
        }
    }
    assert(s@.skip(i as int) =~= Seq::<char>::empty());
    assert(out@ =~= out@ + unescape(s@.skip(i as int), closer@, set));
    out
}

/// A closer that carries an environment marker and no attribute, such as
/// `)_python[*]`. Nothing but `{` can extend it.
pub open spec fn environment_closer(closer: Seq<char>) -> bool {
    &&& closer.len() >= 2
    &&& closer[0] == ')'
    &&& closer[1] == '_'
    &&& closer.contains('[')
    &&& !closer.contains('{')
    &&& !closer.contains('}')
    &&& !closer.contains('\\')
}

/// A closer without a marker, such as `)_python`. Whatever continues an
/// identifier or starts a marker can extend it.
pub open spec fn bare_closer(closer: Seq<char>) -> bool {
    &&& closer.len() > 2
    &&& closer[0] == ')'
    &&& closer[1] == '_'
    &&& forall|j: int| 2 <= j < closer.len() ==> ident_char(#[trigger] closer[j])
}

/// A closer of a block without an attribute.
pub open spec fn plain_closer(closer: Seq<char>) -> bool {
    environment_closer(closer) || bare_closer(closer)
}

/// Whether `s` begins with the text of `closer`, which an opener extends that
/// stands directly behind it, while none begins inside it. Escaping puts a
/// backslash between the two, and so leaves the closer complete.
pub open spec fn parted(s: Seq<char>, closer: Seq<char>, tags: Set<Seq<char>>) -> bool {
    &&& starts_with(s, closer)
    &&& !exact_closer(s, closer)
    &&& opener_length(s.skip(closer.len() as int), tags) is Some
    &&& forall|j: int| 0 < j < closer.len() ==> opener_length(#[trigger] s.skip(j), tags) is None
}

/// Whether `bad` holds of what is left of `s` at some place where escaping
/// looks for syntax.
pub open spec fn meets(
    s: Seq<char>,
    closer: Seq<char>,
    tags: Set<Seq<char>>,
    bad: spec_fn(Seq<char>) -> bool,
) -> bool
    decreases s.len() via meets_decreases
{
    if s.len() == 0 {
        false
    } else if bad(s) {
        true
    } else if exact_closer(s, closer) {
        meets(s.skip(closer.len() as int), closer, tags, bad)
    } else if let Some(n) = opener_length(s, tags) {
        meets(s.skip(n), closer, tags, bad)
    } else {
        meets(s.skip(1), closer, tags, bad)
    }
}

#[via_fn]
proof fn meets_decreases(
    s: Seq<char>,
    closer: Seq<char>,
    tags: Set<Seq<char>>,
    bad: spec_fn(Seq<char>) -> bool,
) {
    lemma_opener_length(s, tags);
}

/// Whether escaping `s` completes the text of `closer` somewhere.
pub open spec fn tears(s: Seq<char>, closer: Seq<char>, tags: Set<Seq<char>>) -> bool {
    meets(s, closer, tags, |r: Seq<char>| parted(r, closer, tags))
}

/// Whether escaping `s` completes the text of `closer` somewhere behind a
/// backslash.
pub open spec fn tears_escaped(s: Seq<char>, closer: Seq<char>, tags: Set<Seq<char>>) -> bool {
    meets(s, closer, tags, |r: Seq<char>| r[0] == '\\' && parted(r.skip(1), closer, tags))
}

pub proof fn lemma_plain_closer(closer: Seq<char>)
    requires
        plain_closer(closer),
    ensures
        closer.len() >= 2,
        closer[0] == ')',
        closer[1] == '_',
        forall|j: int| 0 <= j < closer.len() ==> #[trigger] closer[j] != '}' && closer[j] != '\\',
        forall|c: char| #[trigger] extends_tag(closer, c) ==> c == '{' || c == '[' || ident_char(c),
{
    assert forall|j: int| 0 <= j < closer.len() implies #[trigger] closer[j] != '}' && closer[j]
        != '\\' by {
        assert(closer.contains(closer[j]));
    }
    if environment_closer(closer) {
        lemma_environment_closer_extends(closer);
    }
}

/// Escaping leaves no opener extending an environment closer's text.
proof fn lemma_environment_never_parts(s: Seq<char>, closer: Seq<char>, tags: Set<Seq<char>>)
    requires
        environment_closer(closer),
    ensures
        !parted(s, closer, tags),
{
    if parted(s, closer, tags) {
        lemma_environment_closer_extends(closer);
        assert(s.skip(closer.len() as int)[0] == s[closer.len() as int]);
    }
}

pub proof fn lemma_environment_never_tears(s: Seq<char>, closer: Seq<char>, tags: Set<Seq<char>>)
    requires
        environment_closer(closer),
    ensures
        !tears(s, closer, tags),
        !tears_escaped(s, closer, tags),
    decreases s.len(),
{
    lemma_environment_never_parts(s, closer, tags);
    lemma_opener_length(s, tags);
    if s.len() > 0 {
        lemma_environment_never_parts(s.skip(1), closer, tags);
        if exact_closer(s, closer) {
            lemma_environment_never_tears(s.skip(closer.len() as int), closer, tags);
        } else if let Some(n) = opener_length(s, tags) {
            lemma_environment_never_tears(s.skip(n), closer, tags);
        } else {
            lemma_environment_never_tears(s.skip(1), closer, tags);
        }
    }
}

/// Up to its first backslash, escaped text is the text itself.
proof fn lemma_escape_agrees(s: Seq<char>, closer: Seq<char>, tags: Set<Seq<char>>, k: int)
    requires
        0 <= k <= escape(s, closer, tags).len(),
        forall|j: int| 0 <= j < k ==> escape(s, closer, tags)[j] != '\\',
    ensures
        k <= s.len(),
        escape(s, closer, tags).take(k) == s.take(k),
        escape(s, closer, tags) == s.take(k) + escape(s.skip(k), closer, tags),
    decreases k,
{
    let e = escape(s, closer, tags);
    if k == 0 {
        assert(s.skip(0) =~= s);
        assert(e =~= s.take(0) + e);
    } else {
        assert(e[0] != '\\');
        let tail = escape(s.skip(1), closer, tags);
        if exact_closer(s, closer) {
            assert(e[0] == '\\');
        } else if opener_length(s, tags) is Some {
            assert(e[0] == '\\');
        } else if s[0] == '$' && s.len() > 1 && ident_start(s[1]) {
            assert(e[0] == '\\');
        }
        assert(e == seq![s[0]] + tail);
        assert forall|j: int| 0 <= j < k - 1 implies tail[j] != '\\' by {
            assert(e[j + 1] == tail[j]);
        }
        lemma_escape_agrees(s.skip(1), closer, tags, k - 1);
        assert(s.take(k) =~= seq![s[0]] + s.skip(1).take(k - 1));
        assert(s.skip(1).skip(k - 1) =~= s.skip(k));
        assert(e =~= s.take(k) + escape(s.skip(k), closer, tags));
        assert(e.take(k) =~= s.take(k));
    }
}

/// The first character of escaped text is a backslash or the text's own.
pub proof fn lemma_escape_head(s: Seq<char>, closer: Seq<char>, tags: Set<Seq<char>>)
    ensures
        s.len() == 0 <==> escape(s, closer, tags).len() == 0,
        s.len() > 0 ==> escape(s, closer, tags)[0] == '\\' || escape(s, closer, tags)[0] == s[0],
{
    lemma_opener_length(s, tags);
}

/// An opener is recognised by its own characters alone.
pub proof fn lemma_opener_prefix(s: Seq<char>, t: Seq<char>, tags: Set<Seq<char>>, n: int)
    requires
        opener_length(s, tags) == Some(n),
        n <= t.len(),
        t.take(n) == s.take(n),
    ensures
        opener_length(t, tags) == Some(n),
{
    lemma_opener_length(s, tags);
    assert(n <= s.len());
    assert forall|j: int| 0 <= j < n implies s[j] == t[j] by {
        assert(s.take(n)[j] == s[j]);
        assert(t.take(n)[j] == t[j]);
    }
    let e = ident_run(s, 1);
    lemma_ident_run(s, 1);
    let after_env = environment_end(s, e)->Some_0;
    let i = attribute_end(s, after_env);
    if e < s.len() && s[e] == '[' {
        lemma_digit_run(s, e + 1);
    }
    if after_env < s.len() && s[after_env] == '{' {
        lemma_position_from(s, after_env + 1, '}');
    }
    assert(e < n && after_env < n && i == n - 2);
    lemma_ident_run_agrees(s, t, 1, e);
    assert(s.take(e) =~= t.take(e));
    if s[e] == '[' {
        if s[e + 1] == '*' {
        } else {
            lemma_digit_run_agrees(s, t, e + 1, digit_run(s, e + 1));
        }
    }
    assert(environment_end(t, e) == Some(after_env));
    if s[after_env] == '{' {
        lemma_position_agrees(s, t, after_env + 1, position_from(s, after_env + 1, '}'));
    }
    assert(attribute_end(t, after_env) == i);
}

proof fn lemma_ident_run_agrees(s: Seq<char>, t: Seq<char>, i: int, e: int)
    requires
        0 <= i <= e < s.len(),
        e < t.len(),
        ident_run(s, i) == e,
        forall|j: int| i <= j <= e ==> s[j] == t[j],
    ensures
        ident_run(t, i) == e,
    decreases e - i,
{
    lemma_ident_run(s, i);
    if i < e {
        assert(ident_char(s[i]));
        lemma_ident_run_agrees(s, t, i + 1, e);
    } else {
        assert(!ident_char(t[e]));
    }
}

proof fn lemma_digit_run_agrees(s: Seq<char>, t: Seq<char>, i: int, e: int)
    requires
        0 <= i <= e < s.len(),
        e < t.len(),
        digit_run(s, i) == e,
        forall|j: int| i <= j <= e ==> s[j] == t[j],
    ensures
        digit_run(t, i) == e,
    decreases e - i,
{
    lemma_digit_run(s, i);
    if i < e {
        assert(is_ascii_digit(s[i]));
        lemma_digit_run_agrees(s, t, i + 1, e);
    } else {
        assert(!is_ascii_digit(t[e]));
    }
}

proof fn lemma_position_agrees(s: Seq<char>, t: Seq<char>, i: int, e: int)
    requires
        0 <= i <= e < s.len(),
        e < t.len(),
        position_from(s, i, '}') == e,
        forall|j: int| i <= j <= e ==> s[j] == t[j],
    ensures
        position_from(t, i, '}') == e,
    decreases e - i,
{
    lemma_position_from(s, i, '}');
    if i < e {
        lemma_position_agrees(s, t, i + 1, e);
    }
}

/// What an opener looks like: where its attribute, if any, stands.
pub proof fn lemma_opener_shape(s: Seq<char>, tags: Set<Seq<char>>, n: int)
    requires
        opener_length(s, tags) == Some(n),
    ensures
        3 <= n <= s.len(),
        s[n - 2] == '^',
        s[n - 1] == '(',
        (forall|j: int| 0 <= j < n ==> #[trigger] s[j] != '}') || (s[n - 3] == '}' && forall|
            j: int,
        |
            0 <= j < n - 3 ==> #[trigger] s[j] != '}'),
{
    lemma_opener_length(s, tags);
    let e = ident_run(s, 1);
    lemma_ident_run(s, 1);
    if e < s.len() && s[e] == '[' {
        lemma_digit_run(s, e + 1);
    }
    let after_env = environment_end(s, e)->Some_0;
    assert(forall|j: int| 0 <= j < after_env ==> s[j] != '}');
    if after_env < s.len() && s[after_env] == '{' {
        lemma_position_from(s, after_env + 1, '}');
    }
}

/// If the first `}` of escaped text is followed by `^(`, so is the text's.
proof fn lemma_escape_brace(
    s: Seq<char>,
    closer: Seq<char>,
    tags: Set<Seq<char>>,
    a: int,
) -> (b: int)
    requires
        plain_closer(closer),
        0 <= a,
        a + 2 < escape(s, closer, tags).len(),
        escape(s, closer, tags)[a] == '}',
        escape(s, closer, tags)[a + 1] == '^',
        escape(s, closer, tags)[a + 2] == '(',
        forall|j: int| 0 <= j < a ==> escape(s, closer, tags)[j] != '}',
    ensures
        0 <= b,
        b + 2 < s.len(),
        s[b] == '}',
        s[b + 1] == '^',
        s[b + 2] == '(',
        forall|j: int| 0 <= j < b ==> s[j] != '}',
        b == 0 ==> a == 0,
    decreases s.len(),
{
    let e = escape(s, closer, tags);
    lemma_opener_length(s, tags);
    if exact_closer(s, closer) {
        let k = closer.len() as int;
        let tail = escape(s.skip(k), closer, tags);
        assert(e == seq!['\\'] + closer + tail);
        lemma_plain_closer(closer);
        assert(forall|j: int| 1 <= j <= k ==> e[j] == closer[j - 1]);
        assert(a > k);
        assert(forall|j: int| 0 <= j < tail.len() ==> tail[j] == e[j + k + 1]);
        let b1 = lemma_escape_brace(s.skip(k), closer, tags, a - k - 1);
        assert(forall|j: int| 0 <= j < k ==> s[j] == s.take(k)[j]);
        assert(forall|j: int| k <= j < s.len() ==> s[j] == s.skip(k)[j - k]);
        b1 + k
    } else if let Some(n) = opener_length(s, tags) {
        let tail = escape(s.skip(n), closer, tags);
        assert(e == seq!['\\'] + s.take(n) + tail);
        lemma_opener_shape(s, tags, n);
        if forall|j: int| 0 <= j < n ==> s[j] != '}' {
            assert(forall|j: int| 1 <= j <= n ==> e[j] == s[j - 1]);
            assert(a > n);
            assert(forall|j: int| 0 <= j < tail.len() ==> tail[j] == e[j + n + 1]);
            let b1 = lemma_escape_brace(s.skip(n), closer, tags, a - n - 1);
            assert(forall|j: int| n <= j < s.len() ==> s[j] == s.skip(n)[j - n]);
            b1 + n
        } else {
            assert(s[0] != '}');
            n - 3
        }
    } else if s[0] == '$' && s.len() > 1 && ident_start(s[1]) {
        let tail = escape(s.skip(1), closer, tags);
        assert(e == seq!['\\', '$'] + tail);
        assert(e[0] == '\\' && e[1] == '$');
        assert(forall|j: int| 0 <= j < tail.len() ==> tail[j] == e[j + 2]);
        let b1 = lemma_escape_brace(s.skip(1), closer, tags, a - 2);
        assert(forall|j: int| 1 <= j < s.len() ==> s[j] == s.skip(1)[j - 1]);
        b1 + 1
    } else {
        let tail = escape(s.skip(1), closer, tags);
        assert(e == seq![s[0]] + tail);
        assert(forall|j: int| 0 <= j < tail.len() ==> tail[j] == e[j + 1]);
        if a == 0 {
            lemma_escape_agrees(s.skip(1), closer, tags, 2);
            assert(tail.take(2)[0] == '^' && tail.take(2)[1] == '(');
            assert(s.skip(1).take(2)[0] == s[1] && s.skip(1).take(2)[1] == s[2]);
            0
        } else {
            assert(s[0] == e[0]);
            let b1 = lemma_escape_brace(s.skip(1), closer, tags, a - 1);
            assert(forall|j: int| 1 <= j < s.len() ==> s[j] == s.skip(1)[j - 1]);
            b1 + 1
        }
    }
}

/// Escaped text begins with no opener.
#[verifier::rlimit(60)]
#[verifier::spinoff_prover]
pub proof fn lemma_escape_no_opener(s: Seq<char>, closer: Seq<char>, tags: Set<Seq<char>>)
    requires
        plain_closer(closer),
    ensures
        opener_length(escape(s, closer, tags), tags) is None,
{
    let e = escape(s, closer, tags);
    if let Some(n) = opener_length(e, tags) {
        lemma_opener_length(e, tags);
        let end = ident_run(e, 1);
        lemma_ident_run(e, 1);
        if end < e.len() && e[end] == '[' {
            lemma_digit_run(e, end + 1);
        }
        let after_env = environment_end(e, end)->Some_0;
        assert(after_env < e.len());
        assert(forall|j: int| 0 <= j < after_env ==> e[j] != '\\');
        if e[after_env] == '{' {
            lemma_position_from(e, after_env + 1, '}');
            let k = after_env + 1;
            lemma_escape_agrees(s, closer, tags, k);
            let rest = s.skip(k);
            let tail = escape(rest, closer, tags);
            assert(forall|j: int| 0 <= j < tail.len() ==> tail[j] == e[j + k]);
            let p = position_from(e, k, '}');
            let b = lemma_escape_brace(rest, closer, tags, p - k);
            assert(forall|j: int| k <= j < s.len() ==> s[j] == rest[j - k]);
            assert forall|j: int| 0 <= j < k implies s[j] == e[j] by {
                assert(s.take(k)[j] == e.take(k)[j]);
            }
            lemma_ident_run_agrees(e, s, 1, end);
            assert(s.take(end) =~= e.take(end));
            if e[end] == '[' {
                if e[end + 1] != '*' {
                    lemma_digit_run_agrees(e, s, end + 1, digit_run(e, end + 1));
                }
            }
            assert(environment_end(s, end) == Some(after_env));
            lemma_position_is(s, k, '}', k + b);
            assert(opener_length(s, tags) is Some);
        } else {
            assert(forall|j: int| 0 <= j < n ==> e[j] != '\\');
            lemma_escape_agrees(s, closer, tags, n);
            lemma_opener_prefix(e, s, tags, n);
        }
        // The text begins with an opener, so its escape begins with a backslash.
        assert(e[0] == '\\');
        assert(false);
    }
}

/// Escaped text begins with no closer, unless escaping completed one.
pub proof fn lemma_escape_no_closer(s: Seq<char>, closer: Seq<char>, tags: Set<Seq<char>>)
    requires
        plain_closer(closer),
        !parted(s, closer, tags),
    ensures
        !exact_closer(escape(s, closer, tags), closer),
{
    let e = escape(s, closer, tags);
    if exact_closer(e, closer) {
        let k = closer.len() as int;
        lemma_plain_closer(closer);
        assert forall|j: int| 0 <= j < k implies e[j] == closer[j] by {
            assert(e.take(k)[j] == closer[j]);
        }
        lemma_escape_agrees(s, closer, tags, k);
        let rest = s.skip(k);
        let tail = escape(rest, closer, tags);
        lemma_escape_head(rest, closer, tags);
        if exact_closer(s, closer) {
            assert(e[0] == '\\');
            assert(false);
        }
        assert(starts_with(s, closer));
        assert(k < s.len() && extends_tag(closer, s[k]));
        assert(s[k] == rest[0]);
        assert(e[k] == tail[0]);
        assert(tail[0] == '\\');
        assert(opener_length(rest, tags) is Some);
        assert forall|j: int| 0 < j < k implies opener_length(#[trigger] s.skip(j), tags) is None by {
            lemma_escape_agrees(s, closer, tags, j);
            let inner = escape(s.skip(j), closer, tags);
            assert(e[j] == inner[0]);
            if opener_length(s.skip(j), tags) is Some {
                assert(inner[0] == '\\');
            }
        }
        assert(false);
    }
}

proof fn lemma_environment_closer_extends(closer: Seq<char>)
    requires
        environment_closer(closer),
    ensures
        forall|c: char| #[trigger] extends_tag(closer, c) <==> c == '{',
{
    let raw = closer.skip(2);
    let i = choose|i: int| 0 <= i < closer.len() && closer[i] == '[';
    assert(i >= 2);
    assert(raw[i - 2] == '[');
    if raw.contains('{') {
        let j = choose|j: int| 0 <= j < raw.len() && raw[j] == '{';
        assert(closer[j + 2] == '{');
        assert(false);
    }
}

/// A backslash before escaped text makes nothing literal.
pub proof fn lemma_escape_not_escaped(s: Seq<char>, closer: Seq<char>, tags: Set<Seq<char>>)
    requires
        plain_closer(closer),
        !parted(s, closer, tags),
    ensures
        escaped_length(escape(s, closer, tags), closer, tags) is None,
{
    let e = escape(s, closer, tags);
    lemma_plain_closer(closer);
    lemma_escape_no_closer(s, closer, tags);
    lemma_escape_no_opener(s, closer, tags);
    lemma_opener_length(s, tags);
    if e.len() > 1 && e[0] == '$' {
        lemma_escape_agrees(s, closer, tags, 1);
        assert(e.take(1)[0] == s.take(1)[0]);
        let rest = s.skip(1);
        let tail = escape(rest, closer, tags);
        assert(e == s.take(1) + tail);
        assert(e[1] == tail[0]);
        lemma_escape_head(rest, closer, tags);
        assert(rest[0] == s[1]);
        if s.len() > 1 && ident_start(s[1]) {
            assert(e[0] == '\\');
            assert(false);
        }
        if ident_start(e[1]) {
            assert(false);
        }
        if e[1] == '\\' {
            lemma_opener_length(rest, tags);
            let after = e.skip(2);
            if exact_closer(rest, closer) {
                assert(tail == seq!['\\'] + closer + escape(
                    rest.skip(closer.len() as int),
                    closer,
                    tags,
                ));
                assert(after[0] == closer[0]);
            } else if opener_length(rest, tags) is Some {
                assert(ident_start(s[1]));
                assert(false);
            } else if rest[0] == '$' && rest.len() > 1 && ident_start(rest[1]) {
                assert(tail == seq!['\\', '$'] + escape(rest.skip(1), closer, tags));
                assert(after[0] == '$');
            } else {
                assert(after =~= escape(rest.skip(1), closer, tags));
                lemma_escape_no_opener(rest.skip(1), closer, tags);
            }
            assert(opener_length(after, tags) is None);
        }
    }
}

/// A backslash makes an escaped closer literal, whatever ends the text behind it.
pub proof fn lemma_closer_literal(
    s: Seq<char>,
    end: Seq<char>,
    closer: Seq<char>,
    tags: Set<Seq<char>>,
)
    requires
        plain_closer(closer),
        exact_closer(s, closer),
        end.len() == 0 || end[0] == ')',
    ensures
        escaped_length(
            closer + (escape(s.skip(closer.len() as int), closer, tags) + end),
            closer,
            tags,
        ) == Some(closer.len() as int),
{
    let k = closer.len() as int;
    let rest = s.skip(k);
    let tail = escape(rest, closer, tags);
    let after = closer + (tail + end);
    lemma_plain_closer(closer);
    lemma_escape_head(rest, closer, tags);
    assert(after.take(k) =~= closer);
    if rest.len() > 0 {
        assert(rest[0] == s[k]);
        assert(after[k] == tail[0]);
    } else if end.len() > 0 {
        assert(after[k] == end[0]);
    }
    assert(exact_closer(after, closer));
}

/// A backslash makes an opener literal, whatever follows.
pub proof fn lemma_opener_literal(
    s: Seq<char>,
    rest: Seq<char>,
    closer: Seq<char>,
    tags: Set<Seq<char>>,
    n: int,
)
    requires
        plain_closer(closer),
        opener_length(s, tags) == Some(n),
    ensures
        escaped_length(s.take(n) + rest, closer, tags) == Some(n),
{
    let after = s.take(n) + rest;
    lemma_plain_closer(closer);
    lemma_opener_length(s, tags);
    assert(after.take(n) =~= s.take(n));
    lemma_opener_prefix(s, after, tags, n);
    assert(after[0] == s[0]);
    if exact_closer(after, closer) {
        assert(after.take(closer.len() as int)[0] == closer[0]);
    }
}

/// A backslash makes the sign of a splice literal, whatever ends the text behind
/// it.
pub proof fn lemma_splice_literal(
    s: Seq<char>,
    end: Seq<char>,
    closer: Seq<char>,
    tags: Set<Seq<char>>,
)
    requires
        plain_closer(closer),
        s.len() > 1,
        s[0] == '$',
        ident_start(s[1]),
    ensures
        escaped_length(seq!['$'] + (escape(s.skip(1), closer, tags) + end), closer, tags) == Some(
            1int,
        ),
        escape(s, closer, tags) == seq!['\\', '$'] + escape(s.skip(1), closer, tags),
{
    let k = closer.len() as int;
    let rest = s.skip(1);
    let tail = escape(rest, closer, tags);
    let after = seq!['$'] + (tail + end);
    lemma_plain_closer(closer);
    if exact_closer(s, closer) {
        assert(s.take(k)[0] == closer[0]);
    }
    assert(after[0] == '$');
    if exact_closer(after, closer) {
        assert(after.take(k)[0] == closer[0]);
    }
    assert(rest[0] == s[1]);
    if exact_closer(rest, closer) {
        assert(rest.take(k)[0] == closer[0]);
    }
    if let Some(n) = opener_length(rest, tags) {
        lemma_opener_length(rest, tags);
        assert(tail == seq!['\\'] + rest.take(n) + escape(rest.skip(n), closer, tags));
        let inner = after.skip(2);
        assert(inner =~= rest.take(n) + (escape(rest.skip(n), closer, tags) + end));
        assert(inner.take(n) =~= rest.take(n));
        lemma_opener_prefix(rest, inner, tags, n);
        assert(after[1] == '\\');
    } else {
        assert(tail == seq![rest[0]] + escape(rest.skip(1), closer, tags));
        assert(after[1] == rest[0]);
    }
}

proof fn lemma_unescape_literal(
    e: Seq<char>,
    literal: Seq<char>,
    tail: Seq<char>,
    closer: Seq<char>,
    tags: Set<Seq<char>>,
)
    requires
        e == seq!['\\'] + literal + tail,
        escaped_length(literal + tail, closer, tags) == Some(literal.len() as int),
    ensures
        unescape(e, closer, tags) == literal + unescape(tail, closer, tags),
{
    let n = literal.len() as int;
    assert(e[0] == '\\');
    assert(e.skip(1) =~= literal + tail);
    assert(e.subrange(1, 1 + n) =~= literal);
    assert(e.skip(1 + n) =~= tail);
}

proof fn lemma_unescape_plain(
    c: char,
    tail: Seq<char>,
    closer: Seq<char>,
    tags: Set<Seq<char>>,
)
    requires
        c == '\\' ==> escaped_length(tail, closer, tags) is None,
    ensures
        unescape(seq![c] + tail, closer, tags) == seq![c] + unescape(tail, closer, tags),
{
    assert((seq![c] + tail).skip(1) =~= tail);
}

/// Escaping loses nothing: inside a block whose closer carries no attribute,
/// the escaped form of a text stands for exactly that text, unless escaping
/// completes the closer behind a backslash.
pub proof fn escape_comes_back(s: Seq<char>, closer: Seq<char>, tags: Set<Seq<char>>)
    requires
        plain_closer(closer),
        !tears_escaped(s, closer, tags),
    ensures
        unescape(escape(s, closer, tags), closer, tags) == s,
    decreases s.len(),
{
    let nothing = Seq::<char>::empty();
    lemma_opener_length(s, tags);
    if s.len() == 0 {
        assert(escape(s, closer, tags) =~= nothing);
        assert(s =~= nothing);
    } else {
        let n = if exact_closer(s, closer) {
            closer.len() as int
        } else if opener_length(s, tags) is Some {
            opener_length(s, tags)->Some_0
        } else {
            1int
        };
        let rest = s.skip(n);
        let tail = escape(rest, closer, tags);
        assert(!tears_escaped(rest, closer, tags));
        escape_comes_back(rest, closer, tags);
        assert(tail + nothing =~= tail);
        assert(s =~= s.take(n) + rest);
        if exact_closer(s, closer) {
            lemma_closer_literal(s, nothing, closer, tags);
            lemma_unescape_literal(escape(s, closer, tags), closer, tail, closer, tags);
        } else if opener_length(s, tags) is Some {
            lemma_opener_literal(s, tail, closer, tags, n);
            lemma_unescape_literal(escape(s, closer, tags), s.take(n), tail, closer, tags);
        } else if s[0] == '$' && s.len() > 1 && ident_start(s[1]) {
            lemma_splice_literal(s, nothing, closer, tags);
            assert(escape(s, closer, tags) =~= seq!['\\'] + seq!['$'] + tail);
            lemma_unescape_literal(escape(s, closer, tags), seq!['$'], tail, closer, tags);
            assert(s.take(1) =~= seq!['$']);
        } else {
            if s[0] == '\\' {
                lemma_escape_not_escaped(rest, closer, tags);
            }
            lemma_unescape_plain(s[0], tail, closer, tags);
            assert(s.take(1) =~= seq![s[0]]);
        }
    }
}

/// Escaping loses nothing: inside a block whose closer carries an environment
/// marker, the escaped form of any text stands for exactly that text.
pub proof fn escape_round_trips(s: Seq<char>, closer: Seq<char>, tags: Set<Seq<char>>)
    requires
        environment_closer(closer),
    ensures
        unescape(escape(s, closer, tags), closer, tags) == s,
{
    lemma_environment_never_tears(s, closer, tags);
    escape_comes_back(s, closer, tags);
}

} // verus!
