//! What holds of texts put together from parts: how they split, trim and join.

use vstd::prelude::*;

use crate::text::{
    after_line, ends_with, find_text, first_where, first_word, is_space, joined, lemma_first_where,
    lemma_position_from, lemma_position_is, lines, position_from, separators, spaces, split_by,
    starts_with, trim, trim_end_by, trim_start_by, without_return,
};

verus! {

/// Whether a text is blanks and tabs alone.
pub open spec fn blank(s: Seq<char>) -> bool {
    forall|i: int| 0 <= i < s.len() ==> (#[trigger] s[i] == ' ' || s[i] == '\t')
}

/// Whether a text stands somewhere in another.
pub open spec fn occurs(part: Seq<char>, s: Seq<char>) -> bool {
    exists|a: Seq<char>, b: Seq<char>| s == #[trigger] (a + part + b)
}

/// What occurs in a text that occurs in another occurs in that other.
pub proof fn lemma_occurs_within(part: Seq<char>, middle: Seq<char>, whole: Seq<char>)
    requires
        occurs(part, middle),
        occurs(middle, whole),
    ensures
        occurs(part, whole),
{
    let (a, b) = choose|a: Seq<char>, b: Seq<char>| middle == #[trigger] (a + part + b);
    let (c, d) = choose|c: Seq<char>, d: Seq<char>| whole == #[trigger] (c + middle + d);
    assert(whole =~= (c + a) + part + (b + d));
}

pub proof fn lemma_first_is(s: Seq<char>, i: int, p: spec_fn(char) -> bool, e: int)
    requires
        0 <= i <= e <= s.len(),
        e < s.len() ==> p(s[e]),
        forall|j: int| i <= j < e ==> !p(#[trigger] s[j]),
    ensures
        first_where(s, i, p) == e,
    decreases e - i,
{
    if i < e {
        assert(!p(s[i]));
        lemma_first_is(s, i + 1, p, e);
    }
}

/// A text without separators is its own only part.
pub proof fn lemma_split_whole(s: Seq<char>, p: spec_fn(char) -> bool)
    requires
        forall|j: int| 0 <= j < s.len() ==> !p(#[trigger] s[j]),
    ensures
        split_by(s, p) == seq![s],
{
    lemma_first_is(s, 0, p, s.len() as int);
}

/// Splitting goes through at every separator.
pub proof fn splitting_goes_through(a: Seq<char>, c: char, b: Seq<char>, p: spec_fn(char) -> bool)
    requires
        p(c),
    ensures
        split_by(a + seq![c] + b, p) == split_by(a, p) + split_by(b, p),
    decreases a.len(),
{
    let s = a + seq![c] + b;
    let k = first_where(a, 0, p);
    lemma_first_where(a, 0, p);
    assert(s[a.len() as int] == c);
    assert forall|j: int| 0 <= j < k implies !p(#[trigger] s[j]) by {
        assert(s[j] == a[j]);
    }
    assert(k < a.len() ==> s[k] == a[k]);
    lemma_first_is(s, 0, p, k);
    if k < a.len() {
        assert(s.take(k) =~= a.take(k));
        assert(s.skip(k + 1) =~= a.skip(k + 1) + seq![c] + b);
        splitting_goes_through(a.skip(k + 1), c, b, p);
        assert(split_by(s, p) =~= split_by(a, p) + split_by(b, p));
    } else {
        assert(s.take(k) =~= a);
        assert(s.skip(k + 1) =~= b);
        assert(split_by(s, p) =~= split_by(a, p) + split_by(b, p));
    }
}

/// What stands between separators, or between one and an end, is a part.
pub proof fn lemma_part_stands(a: Seq<char>, part: Seq<char>, b: Seq<char>, p: spec_fn(char) -> bool)
    requires
        a.len() > 0 ==> p(a.last()),
        b.len() > 0 ==> p(b[0]),
        forall|j: int| 0 <= j < part.len() ==> !p(#[trigger] part[j]),
    ensures
        split_by(a + part + b, p).contains(part),
{
    let s = a + part + b;
    lemma_split_whole(part, p);
    assert(seq![part][0] == part);
    let right = part + b;
    assert(split_by(right, p).len() > 0 && split_by(right, p)[0] == part) by {
        if b.len() > 0 {
            assert(right =~= part + seq![b[0]] + b.skip(1));
            splitting_goes_through(part, b[0], b.skip(1), p);
        } else {
            assert(right =~= part);
        }
    }
    if a.len() > 0 {
        assert(s =~= a.drop_last() + seq![a.last()] + right);
        splitting_goes_through(a.drop_last(), a.last(), right, p);
        let x = split_by(a.drop_last(), p);
        let y = split_by(right, p);
        assert((x + y)[x.len() as int] == part);
    } else {
        assert(s =~= right);
        assert(split_by(s, p)[0] == part);
    }
}

pub proof fn lemma_trim_front(a: Seq<char>, s: Seq<char>, p: spec_fn(char) -> bool)
    requires
        forall|j: int| 0 <= j < a.len() ==> p(#[trigger] a[j]),
        s.len() > 0 ==> !p(s[0]),
    ensures
        trim_start_by(a + s, p) == s,
    decreases a.len(),
{
    if a.len() > 0 {
        assert(p(a[0]));
        assert((a + s)[0] == a[0]);
        assert((a + s).skip(1) =~= a.skip(1) + s);
        lemma_trim_front(a.skip(1), s, p);
    } else {
        assert(a + s =~= s);
    }
}

pub proof fn lemma_trim_back(s: Seq<char>, b: Seq<char>, p: spec_fn(char) -> bool)
    requires
        forall|j: int| 0 <= j < b.len() ==> p(#[trigger] b[j]),
        s.len() > 0 ==> !p(s.last()),
    ensures
        trim_end_by(s + b, p) == s,
    decreases b.len(),
{
    if b.len() > 0 {
        assert(p(b[b.len() - 1]));
        assert((s + b).last() == b.last());
        assert((s + b).drop_last() =~= s + b.drop_last());
        lemma_trim_back(s, b.drop_last(), p);
    } else {
        assert(s + b =~= s);
    }
}

/// Blanks around a text that has none at its ends are all that trimming takes.
pub proof fn trimming_takes_the_blanks(a: Seq<char>, s: Seq<char>, b: Seq<char>)
    requires
        blank(a),
        blank(b),
        s.len() > 0,
        !is_space(s[0]),
        !is_space(s.last()),
    ensures
        trim(a + s + b) == s,
{
    let p = spaces();
    assert forall|j: int| 0 <= j < a.len() implies p(#[trigger] a[j]) by {}
    assert forall|j: int| 0 <= j < b.len() implies p(#[trigger] b[j]) by {}
    assert(a + s + b =~= a + (s + b));
    assert((s + b)[0] == s[0]);
    lemma_trim_front(a, s + b, p);
    lemma_trim_back(s, b, p);
}

/// A text without space at its ends is trimmed already.
pub proof fn lemma_trimmed(s: Seq<char>)
    requires
        s.len() > 0 ==> !is_space(s[0]) && !is_space(s.last()),
    ensures
        trim(s) == s,
{
    if s.len() > 0 {
        let none = Seq::<char>::empty();
        trimming_takes_the_blanks(none, s, none);
        assert(none + s + none =~= s);
    }
}

/// Trimming takes nothing of what stands between two characters that are no
/// space.
pub proof fn lemma_trim_around(a: Seq<char>, s: Seq<char>, b: Seq<char>)
    requires
        s.len() > 0,
        !is_space(s[0]),
        !is_space(s.last()),
    ensures
        trim(a + s + b) == trim_start_by(a, spaces()) + s + trim_end_by(b, spaces()),
{
    let p = spaces();
    lemma_start_keeps(a, s + b, p);
    assert(a + s + b =~= a + (s + b));
    assert((s + b)[0] == s[0]);
    let left = trim_start_by(a, p) + s;
    assert(trim_start_by(a, p) + (s + b) =~= left + b);
    assert(left.last() == s.last());
    lemma_end_keeps(left, b, p);
}

proof fn lemma_start_keeps(a: Seq<char>, s: Seq<char>, p: spec_fn(char) -> bool)
    requires
        s.len() > 0,
        !p(s[0]),
    ensures
        trim_start_by(a + s, p) == trim_start_by(a, p) + s,
    decreases a.len(),
{
    if a.len() == 0 {
        assert(a + s =~= s);
        assert(trim_start_by(a, p) + s =~= s);
    } else {
        assert((a + s)[0] == a[0]);
        if p(a[0]) {
            assert((a + s).skip(1) =~= a.skip(1) + s);
            lemma_start_keeps(a.skip(1), s, p);
        }
    }
}

proof fn lemma_end_keeps(s: Seq<char>, b: Seq<char>, p: spec_fn(char) -> bool)
    requires
        s.len() > 0,
        !p(s.last()),
    ensures
        trim_end_by(s + b, p) == s + trim_end_by(b, p),
    decreases b.len(),
{
    if b.len() == 0 {
        assert(s + b =~= s);
        assert(s + trim_end_by(b, p) =~= s);
    } else {
        assert((s + b).last() == b.last());
        if p(b.last()) {
            assert((s + b).drop_last() =~= s + b.drop_last());
            lemma_end_keeps(s, b.drop_last(), p);
        }
    }
}

/// What trimming the front leaves is an end of the text.
pub proof fn lemma_trim_start_is_end(a: Seq<char>, p: spec_fn(char) -> bool) -> (k: int)
    ensures
        0 <= k <= a.len(),
        trim_start_by(a, p) == a.skip(k),
        forall|j: int| 0 <= j < k ==> p(#[trigger] a[j]),
        k < a.len() ==> !p(a[k]),
    decreases a.len(),
{
    if a.len() > 0 && p(a[0]) {
        let k = lemma_trim_start_is_end(a.skip(1), p);
        assert(a.skip(1).skip(k) =~= a.skip(k + 1));
        assert forall|j: int| 0 <= j < k + 1 implies p(#[trigger] a[j]) by {
            if j > 0 {
                assert(a.skip(1)[j - 1] == a[j]);
            }
        }
        assert(k < a.skip(1).len() ==> a.skip(1)[k] == a[k + 1]);
        k + 1
    } else {
        assert(a.skip(0) =~= a);
        0
    }
}

/// What trimming the end leaves is a start of the text.
pub proof fn lemma_trim_end_is_start(b: Seq<char>, p: spec_fn(char) -> bool) -> (k: int)
    ensures
        0 <= k <= b.len(),
        trim_end_by(b, p) == b.take(k),
        k > 0 ==> !p(b[k - 1]),
    decreases b.len(),
{
    if b.len() > 0 && p(b.last()) {
        let k = lemma_trim_end_is_start(b.drop_last(), p);
        assert(b.drop_last().take(k) =~= b.take(k));
        k
    } else {
        assert(b.take(b.len() as int) =~= b);
        b.len() as int
    }
}

/// A text starts with what is put in front of it.
pub proof fn lemma_starts(part: Seq<char>, rest: Seq<char>)
    ensures
        starts_with(part + rest, part),
        (part + rest).skip(part.len() as int) == rest,
{
    assert((part + rest).take(part.len() as int) =~= part);
    assert((part + rest).skip(part.len() as int) =~= rest);
}

/// A text ends with what is put behind it.
pub proof fn lemma_ends(rest: Seq<char>, part: Seq<char>)
    ensures
        ends_with(rest + part, part),
        (rest + part).take(rest.len() as int) == rest,
{
    assert((rest + part).skip(rest.len() as int) =~= part);
    assert((rest + part).take(rest.len() as int) =~= rest);
}

/// A part that stands at `e`, and not before, is found there.
pub proof fn lemma_found_at(s: Seq<char>, part: Seq<char>, i: int, e: int)
    requires
        0 <= i <= e <= s.len(),
        starts_with(s.skip(e), part),
        forall|j: int| i <= j < e ==> !starts_with(#[trigger] s.skip(j), part),
    ensures
        find_text(s, part, i) == e,
    decreases e - i,
{
    if i < e {
        assert(!starts_with(s.skip(i), part));
        lemma_found_at(s, part, i + 1, e);
    }
}

/// A part that stands at `e` is found there or before.
pub proof fn lemma_found_by(s: Seq<char>, part: Seq<char>, i: int, e: int)
    requires
        0 <= i <= e <= s.len(),
        starts_with(s.skip(e), part),
    ensures
        i <= find_text(s, part, i) <= e,
    decreases e - i,
{
    if i < e && !starts_with(s.skip(i), part) {
        lemma_found_by(s, part, i + 1, e);
    }
}

/// A part that stands nowhere is not found.
pub proof fn lemma_not_found(s: Seq<char>, part: Seq<char>, i: int)
    requires
        0 <= i <= s.len() + 1,
        forall|j: int| i <= j <= s.len() ==> !starts_with(#[trigger] s.skip(j), part),
    ensures
        find_text(s, part, i) == -1,
    decreases s.len() + 1 - i,
{
    if i <= s.len() {
        assert(!starts_with(s.skip(i), part));
        lemma_not_found(s, part, i + 1);
    }
}

/// The first word of a text that starts with one.
pub proof fn lemma_word_first(a: Seq<char>, m: Seq<char>, q: Seq<char>)
    requires
        forall|j: int| 0 <= j < a.len() ==> is_space(#[trigger] a[j]),
        m.len() > 0,
        forall|j: int| 0 <= j < m.len() ==> !is_space(#[trigger] m[j]),
        q.len() > 0 ==> is_space(q[0]),
    ensures
        first_word(a + m + q) == m,
{
    let p = spaces();
    let none = separators(Seq::empty(), true);
    let t = m + q;
    assert(a + m + q =~= a + t);
    assert forall|j: int| 0 <= j < a.len() implies p(#[trigger] a[j]) by {}
    assert(!is_space(m[0]));
    assert(t[0] == m[0]);
    lemma_trim_front(a, t, p);
    let e = m.len() as int;
    assert forall|j: int| 0 <= j < e implies !none(#[trigger] t[j]) by {
        assert(t[j] == m[j]);
    }
    if e < t.len() {
        assert(t[e] == q[0]);
    }
    lemma_first_is(t, 0, none, e);
    assert(t.take(e) =~= m);
}

/// Joined texts stand in their order, with a separator between any two: joining
/// two lists is joining what each of them gives.
pub proof fn joining_goes_through(a: Seq<Seq<char>>, b: Seq<Seq<char>>, separator: Seq<char>)
    requires
        a.len() > 0,
        b.len() > 0,
    ensures
        joined(a + b, separator) == joined(a, separator) + separator + joined(b, separator),
    decreases b.len(),
{
    let all = a + b;
    assert(all.last() == b.last());
    assert(all.drop_last() =~= a + b.drop_last());
    if b.len() > 1 {
        joining_goes_through(a, b.drop_last(), separator);
        assert(joined(all, separator) =~= joined(a, separator) + separator + joined(b, separator));
    } else {
        assert(a + b.drop_last() =~= a);
        assert(joined(b, separator) == b[0]);
    }
}

/// A single text is joined to nothing, and no text gives nothing.
pub proof fn joining_few(text: Seq<char>, separator: Seq<char>)
    ensures
        joined(seq![text], separator) == text,
        joined(Seq::empty(), separator) == Seq::<char>::empty(),
{
}

/// Texts, each with an end behind it.
pub open spec fn stacked(list: Seq<Seq<char>>, end: Seq<char>) -> Seq<char>
    decreases list.len(),
{
    if list.len() == 0 {
        Seq::empty()
    } else {
        list[0] + end + stacked(list.skip(1), end)
    }
}

/// Texts joined by line feeds, with one more behind them, are the lines that each
/// of them makes.
pub proof fn joined_lines_are_stacked(list: Seq<Seq<char>>, end: Seq<char>)
    requires
        list.len() > 0,
    ensures
        joined(list, end) + end == stacked(list, end),
    decreases list.len(),
{
    let tail = list.skip(1);
    if list.len() > 1 {
        let head = seq![list[0]];
        assert(list =~= head + tail);
        joining_goes_through(head, tail, end);
        joining_few(list[0], end);
        joined_lines_are_stacked(tail, end);
        assert(joined(list, end) + end =~= list[0] + end + (joined(tail, end) + end));
    } else {
        assert(stacked(tail, end) =~= Seq::<char>::empty());
        assert(joined(list, end) == list[0]);
        assert(list[0] + end + Seq::<char>::empty() =~= list[0] + end);
    }
}

/// Every one of some stacked texts stands in them with its end behind it, the
/// earlier ones in front and the later ones behind.
pub proof fn stacked_texts_stand(list: Seq<Seq<char>>, end: Seq<char>, i: int)
    requires
        0 <= i < list.len(),
    ensures
        stacked(list, end) == stacked(list.take(i), end) + list[i] + end + stacked(
            list.skip(i + 1),
            end,
        ),
    decreases list.len(),
{
    if i == 0 {
        assert(list.take(0).len() == 0);
        assert(stacked(list.take(0), end) + list[0] + end + stacked(list.skip(1), end)
            =~= list[0] + end + stacked(list.skip(1), end));
    } else {
        let tail = list.skip(1);
        stacked_texts_stand(tail, end, i - 1);
        assert(tail[i - 1] == list[i]);
        assert(tail.skip(i) =~= list.skip(i + 1));
        let front = list.take(i);
        assert(front.skip(1) =~= tail.take(i - 1));
        assert(front[0] == list[0]);
        assert(stacked(list, end) =~= stacked(front, end) + list[i] + end + stacked(
            list.skip(i + 1),
            end,
        ));
    }
}

/// A line, and what follows it.
pub proof fn lemma_line_read(line: Seq<char>, rest: Seq<char>)
    requires
        !line.contains('\n'),
    ensures
        position_from(line + seq!['\n'] + rest, 0, '\n') == line.len(),
        after_line(line + seq!['\n'] + rest) == rest,
        (line + seq!['\n'] + rest).take(line.len() as int) == line,
{
    let s = line + seq!['\n'] + rest;
    let n = line.len() as int;
    assert forall|j: int| 0 <= j < n implies s[j] != '\n' by {
        assert(s[j] == line[j]);
        assert(line.contains(line[j]));
    }
    assert(s[n] == '\n');
    lemma_position_is(s, 0, '\n', n);
    assert(s.skip(n + 1) =~= rest);
    assert(s.take(n) =~= line);
}

/// A text that ends in a line feed, with lines behind it, has its own lines and
/// those.
pub proof fn lines_go_through(a: Seq<char>, b: Seq<char>)
    requires
        a.len() > 0,
        a.last() == '\n',
    ensures
        lines(a + b) == lines(a) + lines(b),
    decreases a.len(),
{
    let p = position_from(a, 0, '\n');
    lemma_position_from(a, 0, '\n');
    let line = a.take(p);
    let rest = a.skip(p + 1);
    if p == a.len() {
        assert(a[a.len() - 1] != '\n');
    }
    assert(!line.contains('\n')) by {
        if line.contains('\n') {
            let j = choose|j: int| 0 <= j < line.len() && line[j] == '\n';
            assert(a[j] == '\n');
        }
    }
    assert(a =~= line + seq!['\n'] + rest);
    assert(a + b =~= line + seq!['\n'] + (rest + b));
    lemma_line_read(line, rest);
    lemma_line_read(line, rest + b);
    assert(without_return(a) =~= without_return(a + b)) by {
        if p > 0 {
            assert((a + b)[p - 1] == a[p - 1]);
        }
        assert((a + b).take(p) =~= a.take(p));
        assert(p > 0 ==> (a + b).take(p - 1) =~= a.take(p - 1));
    }
    if rest.len() > 0 {
        assert(rest.last() == a.last());
        lines_go_through(rest, b);
        assert(lines(a + b) =~= lines(a) + lines(b));
    } else {
        assert(rest + b =~= b);
        assert(lines(rest).len() == 0);
        assert(lines(a + b) =~= lines(a) + lines(b));
    }
}

/// A line with its line feed reads as that line.
pub proof fn one_line_is_read(line: Seq<char>)
    requires
        !line.contains('\n'),
        line.len() > 0 ==> line.last() != '\r',
    ensures
        lines(line + seq!['\n']) == seq![line],
{
    let none = Seq::<char>::empty();
    lemma_line_read(line, none);
    let s = line + seq!['\n'];
    assert(line + seq!['\n'] + none =~= s);
    assert(line.len() > 0 ==> s[line.len() - 1] == line.last());
    assert(without_return(s) =~= line);
    assert(lines(none).len() == 0);
    assert(lines(s) =~= seq![line]);
}

} // verus!
