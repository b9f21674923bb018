//! Blocks around escaped text: that each ends at its own closer, and holds the
//! text that was escaped.

use vstd::prelude::*;

use crate::escape::{
    bare_closer, environment_closer, escape, escaped_length, exact_closer, ident_char, ident_run,
    ident_start, identifier, lemma_closer_literal, lemma_environment_never_tears, lemma_escape_head,
    lemma_escape_no_closer, lemma_escape_no_opener, lemma_escape_not_escaped, lemma_opener_length,
    lemma_opener_literal, lemma_opener_prefix, lemma_opener_shape, lemma_plain_closer,
    lemma_splice_literal, opener_length, parted, plain_closer, tears,
};
use crate::text::is_ascii_digit;
use crate::unlink::{closer_of, read_block};

verus! {

/// Whether a text is a marker that a tag may carry: none, `[*]` or `[N]`.
pub open spec fn environment_marker(marker: Seq<char>) -> bool {
    ||| marker.len() == 0
    ||| marker == seq!['[', '*', ']']
    ||| {
        &&& marker.len() > 2
        &&& marker[0] == '['
        &&& marker.last() == ']'
        &&& forall|j: int| 1 <= j < marker.len() - 1 ==> is_ascii_digit(#[trigger] marker[j])
    }
}

/// A closer that is made of a tag.
spec fn tag_closer(closer: Seq<char>) -> bool {
    &&& plain_closer(closer)
    &&& forall|j: int|
        1 <= j < closer.len() ==> ident_char(#[trigger] closer[j]) || closer[j] == '[' || closer[j]
            == ']' || closer[j] == '*'
}

/// What stands behind the text of a block.
spec fn ending(closer: Seq<char>) -> Seq<char> {
    closer + seq!['\n']
}

/// A closer does not begin inside a text and end behind it.
proof fn lemma_closer_inside(t: Seq<char>, closer: Seq<char>)
    requires
        tag_closer(closer),
        t.len() > 0,
        exact_closer(t + ending(closer), closer),
    ensures
        exact_closer(t, closer),
{
    let all = t + ending(closer);
    let k = closer.len() as int;
    lemma_plain_closer(closer);
    assert forall|j: int| 0 <= j < k implies all[j] == closer[j] by {
        assert(all.take(k)[j] == closer[j]);
    }
    if t.len() < k {
        assert(all[t.len() as int] == closer[0]);
        assert(closer[t.len() as int] == ')');
        assert(false);
    }
    assert(t.take(k) =~= closer);
    if k < t.len() {
        assert(all[k] == t[k]);
    }
}

/// An opener does not begin inside a text and end behind it.
proof fn lemma_opener_inside(t: Seq<char>, closer: Seq<char>, tags: Set<Seq<char>>)
    requires
        tag_closer(closer),
        opener_length(t + ending(closer), tags) is Some,
    ensures
        opener_length(t, tags) is Some,
{
    let all = t + ending(closer);
    let n = opener_length(all, tags)->Some_0;
    lemma_opener_shape(all, tags, n);
    lemma_plain_closer(closer);
    if n > t.len() {
        let at = n - 1 - t.len();
        assert(all[n - 1] == ending(closer)[at]);
        if at < closer.len() {
            assert(closer[at] == '(');
        }
        assert(false);
    }
    assert(t.take(n) =~= all.take(n));
    lemma_opener_prefix(all, t, tags, n);
}

/// A backslash before escaped text makes nothing literal, whatever closes the
/// block behind it.
proof fn lemma_not_escaped_inside(s: Seq<char>, closer: Seq<char>, tags: Set<Seq<char>>)
    requires
        tag_closer(closer),
        s.len() > 0,
        !parted(s, closer, tags),
    ensures
        escaped_length(escape(s, closer, tags) + ending(closer), closer, tags) is None,
{
    let t = escape(s, closer, tags);
    let z = ending(closer);
    let all = t + z;
    lemma_plain_closer(closer);
    lemma_escape_head(s, closer, tags);
    lemma_escape_not_escaped(s, closer, tags);
    if exact_closer(all, closer) {
        lemma_closer_inside(t, closer);
    }
    if opener_length(all, tags) is Some {
        lemma_opener_inside(t, closer, tags);
    }
    if all.len() > 1 && all[0] == '$' {
        assert(t[0] == '$');
        if t.len() == 1 {
            assert(all[1] == closer[0]);
        } else {
            assert(all[1] == t[1]);
            assert(all.skip(2) =~= t.skip(2) + z);
            if opener_length(all.skip(2), tags) is Some {
                lemma_opener_inside(t.skip(2), closer, tags);
            }
        }
    }
}

/// A backslash makes what follows it part of the block's text.
proof fn lemma_read_literal(
    all: Seq<char>,
    closer: Seq<char>,
    tags: Set<Seq<char>>,
    n: int,
    rest: Seq<char>,
)
    requires
        plain_closer(closer),
        all.len() > 0,
        all[0] == '\\',
        escaped_length(all.skip(1), closer, tags) == Some(n),
        read_block(all.skip(1 + n), seq![closer], tags) == Some(rest),
    ensures
        read_block(all, seq![closer], tags) == Some(all.subrange(1, 1 + n) + rest),
{
    lemma_plain_closer(closer);
    assert(seq![closer].last() == closer);
    if exact_closer(all, closer) {
        assert(all.take(closer.len() as int)[0] == closer[0]);
    }
}

/// A character that is no syntax is part of the block's text.
proof fn lemma_read_plain(
    all: Seq<char>,
    closer: Seq<char>,
    tags: Set<Seq<char>>,
    rest: Seq<char>,
)
    requires
        all.len() > 0,
        !exact_closer(all, closer),
        all[0] == '\\' ==> escaped_length(all.skip(1), closer, tags) is None,
        opener_length(all, tags) is None,
        read_block(all.skip(1), seq![closer], tags) == Some(rest),
    ensures
        read_block(all, seq![closer], tags) == Some(seq![all[0]] + rest),
{
    assert(seq![closer].last() == closer);
}

proof fn lemma_read_end(closer: Seq<char>, tags: Set<Seq<char>>)
    requires
        plain_closer(closer),
    ensures
        read_block(ending(closer), seq![closer], tags) == Some(Seq::<char>::empty()),
{
    let z = ending(closer);
    lemma_plain_closer(closer);
    assert(seq![closer].last() == closer);
    assert(z.take(closer.len() as int) =~= closer);
    assert(z[closer.len() as int] == '\n');
    assert(exact_closer(z, closer));
}

proof fn lemma_read_closer(s: Seq<char>, closer: Seq<char>, tags: Set<Seq<char>>)
    requires
        tag_closer(closer),
        exact_closer(s, closer),
        read_block(
            escape(s.skip(closer.len() as int), closer, tags) + ending(closer),
            seq![closer],
            tags,
        ) == Some(s.skip(closer.len() as int)),
    ensures
        read_block(escape(s, closer, tags) + ending(closer), seq![closer], tags) == Some(s),
{
    let z = ending(closer);
    let all = escape(s, closer, tags) + z;
    let k = closer.len() as int;
    let rest = s.skip(k);
    let tail = escape(rest, closer, tags);
    lemma_plain_closer(closer);
    lemma_closer_literal(s, z, closer, tags);
    assert(escape(s, closer, tags) == seq!['\\'] + closer + tail);
    assert(all.skip(1) =~= closer + (tail + z));
    assert(all.skip(1 + k) =~= tail + z);
    lemma_read_literal(all, closer, tags, k, rest);
    assert(all.subrange(1, 1 + k) =~= s.take(k));
    assert(s =~= s.take(k) + rest);
}

proof fn lemma_read_opener(s: Seq<char>, closer: Seq<char>, tags: Set<Seq<char>>, n: int)
    requires
        tag_closer(closer),
        !exact_closer(s, closer),
        opener_length(s, tags) == Some(n),
        read_block(escape(s.skip(n), closer, tags) + ending(closer), seq![closer], tags) == Some(
            s.skip(n),
        ),
    ensures
        read_block(escape(s, closer, tags) + ending(closer), seq![closer], tags) == Some(s),
{
    let z = ending(closer);
    let all = escape(s, closer, tags) + z;
    let rest = s.skip(n);
    let tail = escape(rest, closer, tags);
    lemma_opener_length(s, tags);
    lemma_opener_literal(s, tail + z, closer, tags, n);
    assert(escape(s, closer, tags) == seq!['\\'] + s.take(n) + tail);
    assert(all.skip(1) =~= s.take(n) + (tail + z));
    assert(all.skip(1 + n) =~= tail + z);
    lemma_read_literal(all, closer, tags, n, rest);
    assert(all.subrange(1, 1 + n) =~= s.take(n));
    assert(s =~= s.take(n) + rest);
}

proof fn lemma_read_splice(s: Seq<char>, closer: Seq<char>, tags: Set<Seq<char>>)
    requires
        tag_closer(closer),
        s.len() > 1,
        s[0] == '$',
        ident_start(s[1]),
        read_block(escape(s.skip(1), closer, tags) + ending(closer), seq![closer], tags) == Some(
            s.skip(1),
        ),
    ensures
        read_block(escape(s, closer, tags) + ending(closer), seq![closer], tags) == Some(s),
{
    let z = ending(closer);
    let all = escape(s, closer, tags) + z;
    let rest = s.skip(1);
    let tail = escape(rest, closer, tags);
    lemma_splice_literal(s, z, closer, tags);
    assert(all.skip(1) =~= seq!['$'] + (tail + z));
    assert(all.skip(2) =~= tail + z);
    lemma_read_literal(all, closer, tags, 1, rest);
    assert(all.subrange(1, 2) =~= seq!['$']);
    assert(s =~= seq!['$'] + rest);
}

proof fn lemma_read_other(s: Seq<char>, closer: Seq<char>, tags: Set<Seq<char>>)
    requires
        tag_closer(closer),
        s.len() > 0,
        !begins_syntax(s, closer, tags),
        !parted(s, closer, tags),
        s[0] == '\\' ==> s.len() > 1 && !parted(s.skip(1), closer, tags),
        read_block(escape(s.skip(1), closer, tags) + ending(closer), seq![closer], tags) == Some(
            s.skip(1),
        ),
    ensures
        read_block(escape(s, closer, tags) + ending(closer), seq![closer], tags) == Some(s),
{
    let z = ending(closer);
    let e = escape(s, closer, tags);
    let all = e + z;
    let rest = s.skip(1);
    let tail = escape(rest, closer, tags);
    assert(e == seq![s[0]] + tail);
    assert(all[0] == s[0]);
    assert(all.skip(1) =~= tail + z);
    lemma_escape_no_closer(s, closer, tags);
    if exact_closer(all, closer) {
        lemma_closer_inside(e, closer);
    }
    if s[0] == '\\' {
        lemma_not_escaped_inside(rest, closer, tags);
    }
    lemma_escape_no_opener(s, closer, tags);
    if opener_length(all, tags) is Some {
        lemma_opener_inside(e, closer, tags);
    }
    lemma_read_plain(all, closer, tags, rest);
    assert(s =~= seq![s[0]] + rest);
}

proof fn lemma_read_escaped(s: Seq<char>, closer: Seq<char>, tags: Set<Seq<char>>)
    requires
        tag_closer(closer),
        s.len() > 0 ==> s.last() != '\\',
        !tears(s, closer, tags),
    ensures
        read_block(escape(s, closer, tags) + ending(closer), seq![closer], tags) == Some(s),
    decreases s.len(),
{
    lemma_opener_length(s, tags);
    if s.len() == 0 {
        lemma_read_end(closer, tags);
        assert(escape(s, closer, tags) + ending(closer) =~= ending(closer));
        assert(s =~= Seq::<char>::empty());
    } else {
        let n = if exact_closer(s, closer) {
            closer.len() as int
        } else if opener_length(s, tags) is Some {
            opener_length(s, tags)->Some_0
        } else {
            1int
        };
        let rest = s.skip(n);
        if rest.len() > 0 {
            assert(rest.last() == s.last());
        }
        assert(!tears(rest, closer, tags));
        lemma_read_escaped(rest, closer, tags);
        if exact_closer(s, closer) {
            lemma_read_closer(s, closer, tags);
        } else if opener_length(s, tags) is Some {
            lemma_read_opener(s, closer, tags, n);
        } else if s[0] == '$' && s.len() > 1 && ident_start(s[1]) {
            lemma_read_splice(s, closer, tags);
        } else {
            if s[0] == '\\' {
                assert(rest.len() > 0);
                assert(!parted(rest, closer, tags));
            }
            lemma_read_other(s, closer, tags);
        }
    }
}

/// A tag's name ends where its marker or the rest of its opener begins.
proof fn lemma_name_run(name: Seq<char>, after: Seq<char>, i: int)
    requires
        0 <= i <= name.len(),
        forall|j: int| 0 <= j < name.len() ==> ident_char(#[trigger] name[j]),
        after.len() > 0,
        !ident_char(after[0]),
    ensures
        ident_run(name + after, i) == name.len(),
    decreases name.len() - i,
{
    if i < name.len() {
        assert((name + after)[i] == name[i]);
        lemma_name_run(name, after, i + 1);
    } else {
        assert((name + after)[i] == after[0]);
    }
}

proof fn lemma_digits_run(s: Seq<char>, i: int, end: int)
    requires
        0 <= i <= end < s.len(),
        forall|j: int| i <= j < end ==> is_ascii_digit(#[trigger] s[j]),
        !is_ascii_digit(s[end]),
    ensures
        crate::escape::digit_run(s, i) == end,
    decreases end - i,
{
    if i < end {
        lemma_digits_run(s, i + 1, end);
    }
}

/// A tag with the sign that opens its block is an opener, whatever follows.
proof fn lemma_opens(
    name: Seq<char>,
    marker: Seq<char>,
    rest: Seq<char>,
    tags: Set<Seq<char>>,
)
    requires
        identifier(name),
        tags.contains(name),
        environment_marker(marker),
    ensures
        opener_length(name + marker + seq!['^', '('] + rest, tags) == Some(
            (name.len() + marker.len() + 2) as int,
        ),
{
    let after = marker + seq!['^', '('] + rest;
    let s = name + marker + seq!['^', '('] + rest;
    assert(s =~= name + after);
    assert(s[0] == name[0]);
    let e = name.len() as int;
    let m = marker.len() as int;
    assert(after[0] == '[' || after[0] == '^');
    assert forall|j: int| 0 <= j < name.len() implies ident_char(#[trigger] name[j]) by {}
    lemma_name_run(name, after, 1);
    assert(s.take(e) =~= name);
    assert(forall|j: int| 0 <= j < m ==> s[e + j] == marker[j]);
    assert(s[e + m] == '^');
    assert(s[e + m + 1] == '(');
    if m > 0 {
        assert(s[e] == marker[0]);
        assert(s[e + 1] == marker[1]);
        assert(s[e + m - 1] == marker[m - 1]);
        if marker[1] != '*' {
            assert forall|j: int| e + 1 <= j < e + m - 1 implies is_ascii_digit(#[trigger] s[j]) by {
                assert(s[j] == marker[j - e]);
            }
            lemma_digits_run(s, e + 1, e + m - 1);
        } else {
            assert(marker.len() == 3);
        }
    }
}

/// The closer of a tag without an attribute.
pub open spec fn closer_for(name: Seq<char>, marker: Seq<char>) -> Seq<char> {
    seq![')', '_'] + name + marker
}

proof fn lemma_tag_closer(name: Seq<char>, marker: Seq<char>)
    requires
        identifier(name),
        environment_marker(marker),
    ensures
        tag_closer(closer_for(name, marker)),
        marker.len() > 0 ==> environment_closer(closer_for(name, marker)),
        marker.len() == 0 ==> bare_closer(closer_for(name, marker)),
{
    let closer = closer_for(name, marker);
    let e = name.len() + 2;
    assert forall|j: int| 1 <= j < closer.len() implies ident_char(#[trigger] closer[j])
        || closer[j] == '[' || closer[j] == ']' || closer[j] == '*' by {
        if j >= e {
            assert(closer[j] == marker[j - e]);
        } else if j >= 2 {
            assert(closer[j] == name[j - 2]);
        }
    }
    if marker.len() > 0 {
        assert(closer[e as int] == '[');
        assert(closer.contains('['));
    } else {
        assert forall|j: int| 2 <= j < closer.len() implies ident_char(#[trigger] closer[j]) by {
            assert(closer[j] == name[j - 2]);
        }
    }
}

/// A block opens with its tag, and its tag names its closer.
proof fn lemma_block_opens(
    name: Seq<char>,
    marker: Seq<char>,
    rest: Seq<char>,
    tags: Set<Seq<char>>,
)
    requires
        identifier(name),
        tags.contains(name),
        environment_marker(marker),
    ensures
        ({
            let opener = name + marker + seq!['^', '('];
            let block = opener + rest;
            &&& opener_length(block, tags) == Some(opener.len() as int)
            &&& closer_of(block.take(opener.len() as int)) == closer_for(name, marker)
            &&& block.skip(opener.len() as int) == rest
        }),
{
    let opener = name + marker + seq!['^', '('];
    let block = opener + rest;
    lemma_opens(name, marker, rest, tags);
    assert(block.take(opener.len() as int) =~= opener);
    assert(opener.take(opener.len() - 2) =~= name + marker);
    assert(closer_of(opener) =~= closer_for(name, marker));
    assert(block.skip(opener.len() as int) =~= rest);
}

/// A block around escaped text holds that text: it opens with its tag, ends at
/// its own closer, and reads as the text that was escaped behind the line feed
/// it starts with. For a tag without a marker this leaves out the texts in which
/// escaping completes the closer.
pub proof fn blocks_read_back(
    name: Seq<char>,
    marker: Seq<char>,
    s: Seq<char>,
    tags: Set<Seq<char>>,
)
    requires
        identifier(name),
        tags.contains(name),
        environment_marker(marker),
        s.len() > 0 ==> s.last() != '\\',
        marker.len() == 0 ==> !tears(s, closer_for(name, marker), tags),
    ensures
        ({
            let closer = closer_for(name, marker);
            let opener = name + marker + seq!['^', '('];
            let block = opener + seq!['\n'] + escape(s, closer, tags) + closer + seq!['\n'];
            &&& opener_length(block, tags) == Some(opener.len() as int)
            &&& closer_of(block.take(opener.len() as int)) == closer
            &&& read_block(
                escape(s, closer, tags) + closer + seq!['\n'],
                seq![closer],
                tags,
            ) == Some(s)
            &&& read_block(block.skip(opener.len() as int), seq![closer], tags) == Some(
                seq!['\n'] + s,
            )
        }),
{
    let closer = closer_for(name, marker);
    let opener = name + marker + seq!['^', '('];
    let e = escape(s, closer, tags);
    let rest = seq!['\n'] + e + closer + seq!['\n'];
    let block = opener + seq!['\n'] + e + closer + seq!['\n'];
    lemma_tag_closer(name, marker);
    if marker.len() > 0 {
        lemma_environment_never_tears(s, closer, tags);
    }
    assert(block =~= opener + rest);
    lemma_block_opens(name, marker, rest, tags);
    lemma_read_escaped(s, closer, tags);
    assert(rest.skip(1) =~= e + ending(closer));
    assert(e + ending(closer) =~= e + closer + seq!['\n']);
    lemma_line_feed(rest, closer, tags);
    lemma_read_plain(rest, closer, tags, s);
}

proof fn lemma_line_feed(s: Seq<char>, closer: Seq<char>, tags: Set<Seq<char>>)
    requires
        plain_closer(closer),
        s.len() > 0,
        s[0] == '\n',
    ensures
        !exact_closer(s, closer),
        opener_length(s, tags) is None,
{
    lemma_plain_closer(closer);
    if exact_closer(s, closer) {
        assert(s.take(closer.len() as int)[0] == closer[0]);
    }
}

/// A text with a backslash put before each of its characters that is marked.
pub open spec fn with_backslashes(s: Seq<char>, marks: Seq<bool>) -> Seq<char>
    decreases s.len(),
{
    if s.len() == 0 || marks.len() == 0 {
        s
    } else if marks[0] {
        seq!['\\', s[0]] + with_backslashes(s.skip(1), marks.skip(1))
    } else {
        seq![s[0]] + with_backslashes(s.skip(1), marks.skip(1))
    }
}

/// Whether `s` begins with what is escaped: the closer, an opener, or a splice.
pub open spec fn begins_syntax(s: Seq<char>, closer: Seq<char>, tags: Set<Seq<char>>) -> bool {
    ||| exact_closer(s, closer)
    ||| opener_length(s, tags) is Some
    ||| s.len() > 1 && s[0] == '$' && ident_start(s[1])
}

proof fn lemma_unmarked(s: Seq<char>, head: Seq<char>, marks: Seq<bool>)
    requires
        marks.len() == s.len(),
    ensures
        with_backslashes(head + s, Seq::new(head.len(), |i: int| false) + marks) == head
            + with_backslashes(s, marks),
    decreases head.len(),
{
    let none = Seq::new(head.len(), |i: int| false);
    if head.len() == 0 {
        assert(head + s =~= s);
        assert(none + marks =~= marks);
        assert(head + with_backslashes(s, marks) =~= with_backslashes(s, marks));
    } else {
        let less = Seq::new((head.len() - 1) as nat, |i: int| false);
        lemma_unmarked(s, head.skip(1), marks);
        assert((head + s).skip(1) =~= head.skip(1) + s);
        assert((none + marks).skip(1) =~= less + marks);
        assert(!(none + marks)[0]);
        assert(with_backslashes(head + s, none + marks) =~= head + with_backslashes(s, marks));
    }
}

proof fn lemma_marked_head(s: Seq<char>, n: int, inner: Seq<bool>) -> (marks: Seq<bool>)
    requires
        0 < n <= s.len(),
        inner.len() == s.len() - n,
    ensures
        marks.len() == s.len(),
        marks[0],
        forall|i: int| 0 < i < n ==> !#[trigger] marks[i],
        forall|i: int| n <= i < s.len() ==> #[trigger] marks[i] == inner[i - n],
        with_backslashes(s, marks) == seq!['\\'] + s.take(n) + with_backslashes(s.skip(n), inner),
{
    let none = Seq::new((n - 1) as nat, |i: int| false);
    let marks = seq![true] + none + inner;
    let middle = s.subrange(1, n);
    lemma_unmarked(s.skip(n), middle, inner);
    assert(marks.skip(1) =~= none + inner);
    assert(none =~= Seq::new(middle.len(), |i: int| false));
    assert(s.skip(1) =~= middle + s.skip(n));
    assert(with_backslashes(s, marks) =~= seq!['\\'] + s.take(n) + with_backslashes(
        s.skip(n),
        inner,
    ));
    marks
}

/// Escaped text is the text itself but for the backslashes that were put in, each
/// of them before the closer, an opener or a splice. Gives where they were put.
pub proof fn escaping_only_adds_backslashes(
    s: Seq<char>,
    closer: Seq<char>,
    tags: Set<Seq<char>>,
) -> (marks: Seq<bool>)
    ensures
        marks.len() == s.len(),
        escape(s, closer, tags) == with_backslashes(s, marks),
        forall|i: int|
            0 <= i < s.len() && #[trigger] marks[i] ==> begins_syntax(s.skip(i), closer, tags),
    decreases s.len(),
{
    lemma_opener_length(s, tags);
    if s.len() == 0 {
        assert(escape(s, closer, tags) =~= s);
        Seq::empty()
    } else {
        let n = if exact_closer(s, closer) {
            closer.len() as int
        } else if opener_length(s, tags) is Some {
            opener_length(s, tags)->Some_0
        } else {
            1int
        };
        let rest = s.skip(n);
        let inner = escaping_only_adds_backslashes(rest, closer, tags);
        let marks = if begins_syntax(s, closer, tags) {
            if exact_closer(s, closer) {
                assert(s.take(n) == closer);
            }
            let marks = lemma_marked_head(s, n, inner);
            if n == 1 {
                assert(s.take(1) =~= seq![s[0]]);
            }
            assert(escape(s, closer, tags) =~= with_backslashes(s, marks));
            marks
        } else {
            let marks = seq![false] + inner;
            assert(marks.skip(1) =~= inner);
            marks
        };
        assert(s.skip(0) =~= s);
        assert forall|i: int| 0 <= i < s.len() && #[trigger] marks[i] implies begins_syntax(
            s.skip(i),
            closer,
            tags,
        ) by {
            if i >= n {
                assert(marks[i] == inner[i - n]);
                assert(rest.skip(i - n) =~= s.skip(i));
            } else {
                assert(i == 0);
            }
        }
        marks
    }
}

} // verus!
