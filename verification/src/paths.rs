//! Absolute paths: their names, and the root that several have in common.

use vstd::prelude::*;
use vstd::slice::slice_to_vec;

use crate::components::{components, components_of, path_from, path_of};
use crate::text::{
    chars_of, eq_chars, first_where, push_chars, separators, split, split_by, string_of, texts,
    views,
};

verus! {

/// The character between the names of a path.
pub open spec fn slash() -> spec_fn(char) -> bool {
    separators(seq!['/'], false)
}

/// The names that are left of the parts of a path, once those that name no step
/// are dropped and each `..` has taken back the step before it.
pub open spec fn settled(parts: Seq<Seq<char>>) -> Seq<Seq<char>>
    decreases parts.len(),
{
    if parts.len() == 0 {
        parts
    } else {
        let before = settled(parts.drop_last());
        let part = parts.last();
        if part.len() == 0 || part == seq!['.'] {
            before
        } else if part == seq!['.', '.'] {
            if before.len() == 0 {
                before
            } else {
                before.drop_last()
            }
        } else {
            before.push(part)
        }
    }
}

/// The names of a path.
pub open spec fn names(path: Seq<char>) -> Seq<Seq<char>> {
    settled(split_by(path, slash()))
}

/// Names, each behind a slash.
pub open spec fn slashed(parts: Seq<Seq<char>>) -> Seq<char>
    decreases parts.len(),
{
    if parts.len() == 0 {
        Seq::empty()
    } else {
        seq!['/'] + parts[0] + slashed(parts.skip(1))
    }
}

/// The absolute path with the given names.
pub open spec fn rooted(parts: Seq<Seq<char>>) -> Seq<char> {
    if parts.len() == 0 {
        seq!['/']
    } else {
        slashed(parts)
    }
}

/// A path seen from a directory.
pub open spec fn seen_from(path: Seq<char>, current: Seq<char>) -> Seq<char> {
    if path.len() > 0 && path[0] == '/' {
        path
    } else {
        current + seq!['/'] + path
    }
}

/// A path made absolute.
pub open spec fn absolute(path: Seq<char>, current: Seq<char>) -> Seq<char> {
    rooted(names(seen_from(path, current)))
}

/// The names of a path.
pub fn names_of(path: &[char]) -> (out: Vec<Vec<char>>)
    ensures
        texts(out@) == names(path@),
{
    let set: Vec<char> = vec!['/'];
    assert(set@ =~= seq!['/']);
    let parts = split(path, set.as_slice(), false);
    let ghost all = texts(parts@);
    let mut out: Vec<Vec<char>> = Vec::new();
    let mut i: usize = 0;
    assert(texts(out@) =~= settled(all.take(0)));
    while i < parts.len()
        invariant
            all == texts(parts@),
            i <= parts@.len(),
            texts(out@) == settled(all.take(i as int)),
        decreases parts@.len() - i,
    {
        let part = &parts[i];
        let ghost before = texts(out@);
        assert(all[i as int] == part@);
        assert(all.take(i + 1).drop_last() =~= all.take(i as int));
        assert(all.take(i + 1).last() == part@);
        if part.len() == 0 || (part.len() == 1 && part[0] == '.') {
            assert(part@.len() == 1 ==> part@ =~= seq!['.']);
        } else if part.len() == 2 && part[0] == '.' && part[1] == '.' {
            assert(part@ =~= seq!['.', '.']);
            if out.len() > 0 {
                out.pop();
                assert(texts(out@) =~= before.drop_last());
            }
            assert(before.len() == 0 ==> texts(out@) == before);
        } else {
            assert(part@ != seq!['.'] && part@ != seq!['.', '.']);
            out.push(slice_to_vec(part.as_slice()));
            assert(texts(out@) =~= before.push(part@));
        }
        i += 1;
    }
    assert(all.take(i as int) =~= all);
    out
}

/// The absolute path with the given names.
pub fn rooted_path(parts: &[Vec<char>]) -> (out: String)
    ensures
        out@ == rooted(texts(parts@)),
{
    let ghost all = texts(parts@);
    let mut out: Vec<char> = Vec::new();
    if parts.len() == 0 {
        out.push('/');
        assert(out@ =~= rooted(all));
    } else {
        let mut i: usize = 0;
        assert(all.skip(0) =~= all);
        assert(out@ + slashed(all) =~= slashed(all));
        while i < parts.len()
            invariant
                all == texts(parts@),
                i <= parts@.len(),
                out@ + slashed(all.skip(i as int)) == slashed(all),
            decreases parts@.len() - i,
        {
            let ghost before = out@;
            let ghost rest = all.skip(i as int);
            assert(rest[0] == parts@[i as int]@);
            assert(rest.skip(1) =~= all.skip(i + 1));
            out.push('/');
            push_chars(&mut out, parts[i].as_slice());
            assert(out@ + slashed(all.skip(i + 1)) =~= before + (seq!['/'] + rest[0] + slashed(
                rest.skip(1),
            )));
            i += 1;
        }
        assert(all.skip(i as int).len() == 0);
        assert(out@ + Seq::<char>::empty() =~= out@);
    }
    let text = string_of(out.as_slice(), 0, out.len());
    assert(text@ =~= out@);
    text
}

/// A path made absolute, without steps that lead nowhere or back.
pub fn absolute_path(path: &str, current: &str) -> (out: String)
    ensures
        out@ == absolute(path@, current@),
{
    let chars = chars_of(path);
    if chars.len() > 0 && chars[0] == '/' {
        let parts = names_of(chars.as_slice());
        rooted_path(parts.as_slice())
    } else {
        let mut whole = chars_of(current);
        whole.push('/');
        push_chars(&mut whole, chars.as_slice());
        assert(whole@ =~= seen_from(path@, current@));
        let parts = names_of(whole.as_slice());
        rooted_path(parts.as_slice())
    }
}

/// Whether a part of a path is a plain name.
pub open spec fn plain_name(part: Seq<char>) -> bool {
    part.len() > 0 && part != seq!['.'] && part != seq!['.', '.']
}

/// A name that can stand in an absolute path.
pub open spec fn settled_name(part: Seq<char>) -> bool {
    plain_name(part) && !part.contains('/')
}

/// Whether names can make up an absolute path.
pub open spec fn settled_names(parts: Seq<Seq<char>>) -> bool {
    forall|i: int| 0 <= i < parts.len() ==> settled_name(#[trigger] parts[i])
}

pub proof fn lemma_split_has_no_slash(s: Seq<char>)
    ensures
        forall|i: int|
            0 <= i < split_by(s, slash()).len() ==> !(#[trigger] split_by(s, slash())[i]).contains(
                '/',
            ),
    decreases s.len(),
{
    let p = slash();
    let k = first_where(s, 0, p);
    crate::text::lemma_first_where(s, 0, p);
    assert(seq!['/'].contains('/')) by {
        assert(seq!['/'][0] == '/');
    }
    assert forall|j: int| 0 <= j < k implies s[j] != '/' by {
        assert(!p(s[j]));
    }
    if k < s.len() {
        lemma_split_has_no_slash(s.skip(k + 1));
        assert(!s.take(k).contains('/'));
        let rest = split_by(s.skip(k + 1), p);
        assert forall|i: int| 0 <= i < split_by(s, p).len() implies !(#[trigger] split_by(
            s,
            p,
        )[i]).contains('/') by {
            if i > 0 {
                assert(split_by(s, p)[i] == rest[i - 1]);
            }
        }
    }
}

proof fn lemma_settled(parts: Seq<Seq<char>>)
    requires
        forall|i: int| 0 <= i < parts.len() ==> !(#[trigger] parts[i]).contains('/'),
    ensures
        settled_names(settled(parts)),
    decreases parts.len(),
{
    if parts.len() > 0 {
        let init = parts.drop_last();
        assert forall|i: int| 0 <= i < init.len() implies !(#[trigger] init[i]).contains('/') by {
            assert(init[i] == parts[i]);
        }
        lemma_settled(init);
        let before = settled(init);
        let part = parts.last();
        assert(!part.contains('/'));
        if part.len() == 0 || part == seq!['.'] {
        } else if part == seq!['.', '.'] {
        } else {
            assert(settled_name(part));
            assert forall|i: int| 0 <= i < before.push(part).len() implies settled_name(
                #[trigger] before.push(part)[i],
            ) by {
                if i < before.len() {
                    assert(settled_name(before[i]));
                }
            }
        }
    }
}

pub proof fn lemma_names_settled(path: Seq<char>)
    ensures
        settled_names(names(path)),
{
    lemma_split_has_no_slash(path);
    lemma_settled(split_by(path, slash()));
}

pub proof fn lemma_split_slashed(first: Seq<char>, rest: Seq<Seq<char>>)
    requires
        !first.contains('/'),
        settled_names(rest),
    ensures
        split_by(first + slashed(rest), slash()) == seq![first] + rest,
    decreases rest.len(),
{
    let p = slash();
    let s = first + slashed(rest);
    let k = first_where(s, 0, p);
    crate::text::lemma_first_where(s, 0, p);
    assert(seq!['/'].contains('/')) by {
        assert(seq!['/'][0] == '/');
    }
    assert forall|c: char| #[trigger] p(c) implies c == '/' by {
        assert(seq!['/'].contains(c));
    }
    if rest.len() == 0 {
        assert(s =~= first);
        if k < s.len() {
            assert(p(s[k]));
            assert(first.contains('/'));
        }
        assert(seq![first] + rest =~= seq![s]);
    } else {
        assert(slashed(rest) == seq!['/'] + rest[0] + slashed(rest.skip(1)));
        assert(s[first.len() as int] == '/');
        if k < first.len() {
            assert(s[k] == first[k]);
            assert(first.contains('/'));
        }
        if k > first.len() {
            assert(!p(s[first.len() as int]));
        }
        assert(k == first.len());
        assert(s.take(k) =~= first);
        let tail = rest.skip(1);
        assert(s.skip(k + 1) =~= rest[0] + slashed(tail));
        assert(settled_name(rest[0]));
        assert(settled_names(tail)) by {
            assert forall|i: int| 0 <= i < tail.len() implies settled_name(#[trigger] tail[i]) by {
                assert(tail[i] == rest[i + 1]);
            }
        }
        lemma_split_slashed(rest[0], tail);
        assert(seq![first] + (seq![rest[0]] + tail) =~= seq![first] + rest);
    }
}

proof fn lemma_settled_stays(parts: Seq<Seq<char>>)
    requires
        settled_names(parts),
    ensures
        settled(seq![Seq::<char>::empty()] + parts) == parts,
    decreases parts.len(),
{
    let whole = seq![Seq::<char>::empty()] + parts;
    let init = whole.drop_last();
    if parts.len() == 0 {
        assert(init.len() == 0);
        assert(settled(init) =~= Seq::<Seq<char>>::empty());
        assert(whole.last().len() == 0);
        assert(parts =~= Seq::<Seq<char>>::empty());
    } else {
        let before = parts.drop_last();
        assert(settled_names(before)) by {
            assert forall|i: int| 0 <= i < before.len() implies settled_name(#[trigger] before[i]) by {
                assert(before[i] == parts[i]);
            }
        }
        lemma_settled_stays(before);
        assert(init =~= seq![Seq::<char>::empty()] + before);
        assert(whole.last() == parts.last());
        assert(settled_name(parts[parts.len() - 1]));
        assert(before.push(parts.last()) =~= parts);
    }
}

/// The names of an absolute path are those that it was made of.
pub proof fn rooted_paths_keep_their_names(parts: Seq<Seq<char>>)
    requires
        settled_names(parts),
    ensures
        names(rooted(parts)) == parts,
{
    let path = rooted(parts);
    let none = Seq::<char>::empty();
    if parts.len() == 0 {
        assert(path == seq!['/']);
        assert(none + slashed(seq![]) =~= none);
        let p = slash();
        assert(seq!['/'].contains('/')) by {
            assert(seq!['/'][0] == '/');
        }
        assert(p('/'));
        assert(first_where(path, 0, p) == 0);
        assert(path.take(0) =~= none);
        assert(path.skip(1) =~= none);
        assert(first_where(none, 0, p) == 0);
        assert(split_by(none, p) == seq![none]);
        assert(split_by(path, p) =~= seq![none] + seq![none]);
        let two = seq![none] + seq![none];
        assert(two.drop_last() =~= seq![none]);
        assert(seq![none].drop_last() =~= Seq::<Seq<char>>::empty());
        assert(settled(Seq::<Seq<char>>::empty()) =~= Seq::<Seq<char>>::empty());
        assert(settled(seq![none]) =~= Seq::<Seq<char>>::empty());
        assert(settled(two) =~= Seq::<Seq<char>>::empty());
        assert(parts =~= Seq::<Seq<char>>::empty());
    } else {
        assert(none + slashed(parts) =~= path);
        lemma_split_slashed(none, parts);
        lemma_settled_stays(parts);
    }
}

/// An absolute path has no step that leads nowhere or back, and making it
/// absolute again changes nothing, wherever it is seen from.
pub proof fn absolute_paths_are_stable(path: Seq<char>, current: Seq<char>, elsewhere: Seq<char>)
    ensures
        settled_names(names(absolute(path, current))),
        absolute(absolute(path, current), elsewhere) == absolute(path, current),
{
    let parts = names(seen_from(path, current));
    lemma_names_settled(seen_from(path, current));
    rooted_paths_keep_their_names(parts);
    let made = rooted(parts);
    assert(made[0] == '/');
}

/// The names that two paths begin with.
pub open spec fn shared(a: Seq<Seq<char>>, b: Seq<Seq<char>>) -> Seq<Seq<char>>
    decreases a.len(),
{
    if a.len() > 0 && b.len() > 0 && a[0] == b[0] {
        seq![a[0]] + shared(a.skip(1), b.skip(1))
    } else {
        Seq::empty()
    }
}

/// The names that all paths of a list begin with.
pub open spec fn common(list: Seq<Seq<Seq<char>>>) -> Seq<Seq<char>>
    decreases list.len(),
{
    if list.len() == 0 {
        Seq::empty()
    } else if list.len() == 1 {
        list[0]
    } else {
        shared(common(list.drop_last()), list.last())
    }
}

proof fn lemma_shared(a: Seq<Seq<char>>, b: Seq<Seq<char>>)
    ensures
        shared(a, b).is_prefix_of(a),
        shared(a, b).is_prefix_of(b),
        forall|p: Seq<Seq<char>>| #[trigger]
            p.is_prefix_of(a) && p.is_prefix_of(b) ==> p.is_prefix_of(shared(a, b)),
    decreases a.len(),
{
    if a.len() > 0 && b.len() > 0 && a[0] == b[0] {
        let x = a.skip(1);
        let y = b.skip(1);
        lemma_shared(x, y);
        let inner = shared(x, y);
        let s = shared(a, b);
        assert(inner =~= x.subrange(0, inner.len() as int));
        assert(inner =~= y.subrange(0, inner.len() as int));
        assert forall|i: int| 0 <= i < s.len() implies s[i] == a[i] && s[i] == b[i] by {
            if i > 0 {
                assert(s[i] == inner[i - 1]);
                assert(inner[i - 1] == x.subrange(0, inner.len() as int)[i - 1]);
                assert(inner[i - 1] == y.subrange(0, inner.len() as int)[i - 1]);
            }
        }
        assert(s =~= a.subrange(0, s.len() as int));
        assert(s =~= b.subrange(0, s.len() as int));
        assert forall|p: Seq<Seq<char>>| #[trigger]
            p.is_prefix_of(a) && p.is_prefix_of(b) implies p.is_prefix_of(s) by {
            if p.len() > 0 {
                let q = p.skip(1);
                assert(p =~= a.subrange(0, p.len() as int));
                assert(p =~= b.subrange(0, p.len() as int));
                assert(q =~= x.subrange(0, q.len() as int));
                assert(q =~= y.subrange(0, q.len() as int));
                assert(q.is_prefix_of(x) && q.is_prefix_of(y));
                assert(q =~= inner.subrange(0, q.len() as int));
                assert(p =~= s.subrange(0, p.len() as int)) by {
                    assert forall|i: int| 0 <= i < p.len() implies p[i] == s[i] by {
                        if i == 0 {
                            assert(p[0] == a.subrange(0, p.len() as int)[0]);
                        } else {
                            assert(p[i] == q[i - 1]);
                            assert(q[i - 1] == inner.subrange(0, q.len() as int)[i - 1]);
                        }
                    }
                }
            } else {
                assert(p =~= s.subrange(0, 0));
            }
        }
    } else {
        let s = shared(a, b);
        assert(s =~= a.subrange(0, 0));
        assert(s =~= b.subrange(0, 0));
        assert forall|p: Seq<Seq<char>>| #[trigger]
            p.is_prefix_of(a) && p.is_prefix_of(b) implies p.is_prefix_of(s) by {
            if p.len() > 0 {
                assert(p[0] == a.subrange(0, p.len() as int)[0]);
                assert(p[0] == b.subrange(0, p.len() as int)[0]);
            }
            assert(p =~= s.subrange(0, 0));
        }
    }
}

/// Every path of a list lies under the root that they have in common.
pub proof fn common_roots_hold_every_path(list: Seq<Seq<Seq<char>>>, i: int)
    requires
        0 <= i < list.len(),
    ensures
        common(list).is_prefix_of(list[i]),
    decreases list.len(),
{
    if list.len() == 1 {
        assert(list[0] =~= list[0].subrange(0, list[0].len() as int));
    } else {
        let init = list.drop_last();
        lemma_shared(common(init), list.last());
        if i < init.len() {
            common_roots_hold_every_path(init, i);
            assert(init[i] == list[i]);
            let a = common(list);
            let b = common(init);
            let c = list[i];
            assert(a =~= b.subrange(0, a.len() as int));
            assert(b =~= c.subrange(0, b.len() as int));
            assert(a =~= c.subrange(0, a.len() as int));
        }
    }
}

/// No longer path holds all paths of a list.
pub proof fn common_roots_are_the_longest(list: Seq<Seq<Seq<char>>>, p: Seq<Seq<char>>)
    requires
        list.len() > 0,
        forall|i: int| 0 <= i < list.len() ==> p.is_prefix_of(#[trigger] list[i]),
    ensures
        p.is_prefix_of(common(list)),
    decreases list.len(),
{
    if list.len() == 1 {
        assert(p.is_prefix_of(list[0]));
    } else {
        let init = list.drop_last();
        assert forall|i: int| 0 <= i < init.len() implies p.is_prefix_of(#[trigger] init[i]) by {
            assert(init[i] == list[i]);
        }
        common_roots_are_the_longest(init, p);
        assert(p.is_prefix_of(list[list.len() - 1]));
        lemma_shared(common(init), list.last());
    }
}

fn shared_length(a: &[Vec<char>], b: &[Vec<char>]) -> (n: usize)
    ensures
        n <= a@.len(),
        texts(a@).take(n as int) == shared(texts(a@), texts(b@)),
{
    let ghost x = texts(a@);
    let ghost y = texts(b@);
    let mut n: usize = 0;
    assert(x.skip(0) =~= x);
    assert(y.skip(0) =~= y);
    assert(x.take(0) + shared(x, y) =~= shared(x, y));
    while n < a.len() && n < b.len() && eq_chars(a[n].as_slice(), b[n].as_slice())
        invariant
            x == texts(a@),
            y == texts(b@),
            n <= a@.len(),
            n <= b@.len(),
            x.take(n as int) + shared(x.skip(n as int), y.skip(n as int)) == shared(x, y),
        decreases a@.len() - n,
    {
        let ghost s = x.skip(n as int);
        let ghost t = y.skip(n as int);
        assert(s[0] == a@[n as int]@);
        assert(t[0] == b@[n as int]@);
        assert(s.skip(1) =~= x.skip(n + 1));
        assert(t.skip(1) =~= y.skip(n + 1));
        assert(x.take(n + 1) + shared(s.skip(1), t.skip(1)) =~= x.take(n as int) + (seq![s[0]]
            + shared(s.skip(1), t.skip(1))));
        n += 1;
    }
    proof {
        let s = x.skip(n as int);
        let t = y.skip(n as int);
        if n < a@.len() && n < b@.len() {
            assert(s[0] == a@[n as int]@);
            assert(t[0] == b@[n as int]@);
        }
        assert(shared(s, t) =~= Seq::<Seq<char>>::empty());
        assert(x.take(n as int) + Seq::<Seq<char>>::empty() =~= x.take(n as int));
    }
    n
}

/// The components of each path of a list.
pub open spec fn all_components(paths: Seq<Seq<char>>) -> Seq<Seq<Seq<char>>> {
    paths.map_values(|path: Seq<char>| components(path))
}

/// The path that all paths of a list lie under, the longest there is; nothing,
/// where they do not even start at the same place.
pub fn common_path_root(paths: &[String]) -> (r: Option<String>)
    ensures
        ({
            let held = common(all_components(views(paths@)));
            crate::text::shown_as(r) == if held.len() == 0 {
                None
            } else {
                Some(path_of(held))
            }
        }),
{
    if paths.len() == 0 {
        return None;
    }
    let ghost all = all_components(views(paths@));
    let mut held = components_of(chars_of(paths[0].as_str()).as_slice());
    let mut i: usize = 1;
    assert(all.take(1).len() == 1 && all.take(1)[0] == all[0]);
    while i < paths.len()
        invariant
            all == all_components(views(paths@)),
            1 <= i <= paths@.len(),
            texts(held@) == common(all.take(i as int)),
        decreases paths@.len() - i,
    {
        let next = components_of(chars_of(paths[i].as_str()).as_slice());
        let ghost before = texts(held@);
        assert(all[i as int] == texts(next@));
        assert(all.take(i + 1).drop_last() =~= all.take(i as int));
        assert(all.take(i + 1).last() == all[i as int]);
        let n: usize = shared_length(held.as_slice(), next.as_slice());
        held.truncate(n);
        assert(texts(held@) =~= before.take(n as int));
        i += 1;
    }
    assert(all.take(i as int) =~= all);
    if held.len() == 0 {
        return None;
    }
    Some(path_from(held.as_slice()))
}

/// An input, as far as its marker root depends on it.
pub struct Anchor {
    /// Where it lies, from the root on.
    pub path: String,
    pub is_dir: bool,
}

/// The directory that a path gives: itself, or the one that it lies in. The
/// root lies in none.
pub open spec fn anchor_of(path: Seq<char>, is_dir: bool) -> Seq<Seq<Seq<char>>> {
    if is_dir {
        seq![names(path)]
    } else if names(path).len() == 0 {
        Seq::empty()
    } else {
        seq![names(path).drop_last()]
    }
}

/// The directories that inputs and files give.
pub open spec fn anchors(list: Seq<Anchor>) -> Seq<Seq<Seq<char>>>
    decreases list.len(),
{
    if list.len() == 0 {
        Seq::empty()
    } else {
        anchors(list.drop_last()) + anchor_of(list.last().path@, list.last().is_dir)
    }
}

/// The root of the marker paths: the directory that all inputs, and all files
/// that were found in them, lie under.
pub fn compute_marker_root(list: &[Anchor]) -> (r: Option<String>)
    ensures
        r is None <==> anchors(list@).len() == 0,
        r is Some ==> r->Some_0@ == rooted(common(anchors(list@))),
{
    let mut held: Option<Vec<Vec<char>>> = None;
    let mut i: usize = 0;
    assert(list@.take(0).len() == 0);
    while i < list.len()
        invariant
            i <= list@.len(),
            held is None <==> anchors(list@.take(i as int)).len() == 0,
            held is Some ==> texts(held->Some_0@) == common(anchors(list@.take(i as int))),
        decreases list@.len() - i,
    {
        let ghost before = anchors(list@.take(i as int));
        assert(list@.take(i + 1).drop_last() =~= list@.take(i as int));
        assert(list@.take(i + 1).last() == list@[i as int]);
        let ghost more = anchor_of(list@[i as int].path@, list@[i as int].is_dir);
        let mut next = names_of(chars_of(list[i].path.as_str()).as_slice());
        let ghost whole = texts(next@);
        let present: bool = list[i].is_dir || next.len() > 0;
        if present {
            if !list[i].is_dir {
                next.pop();
                assert(texts(next@) =~= whole.drop_last());
            }
            assert(more =~= seq![texts(next@)]);
            let ghost after = before + more;
            held = match held {
                None => {
                    assert(after.len() == 1 && after[0] == texts(next@));
                    Some(next)
                },
                Some(mut kept) => {
                    assert(after.drop_last() =~= before);
                    assert(after.last() == texts(next@));
                    let ghost old_names = texts(kept@);
                    let n: usize = shared_length(kept.as_slice(), next.as_slice());
                    kept.truncate(n);
                    assert(texts(kept@) =~= old_names.take(n as int));
                    Some(kept)
                },
            };
        } else {
            assert(before + more =~= before);
        }
        i += 1;
    }
    assert(list@.take(i as int) =~= list@);
    match held {
        None => None,
        Some(kept) => Some(rooted_path(kept.as_slice())),
    }
}

/// A path taken from a directory: itself where it starts at the root.
pub open spec fn joined_path(root: Seq<char>, rest: Seq<char>) -> Seq<char> {
    if root.len() == 0 || (rest.len() > 0 && rest[0] == '/') {
        rest
    } else if root.last() == '/' {
        root + rest
    } else {
        root + "/"@ + rest
    }
}

/// A path taken from a directory: itself where it starts at the root.
pub fn join_path(root: &str, rest: &str) -> (out: String)
    ensures
        out@ == joined_path(root@, rest@),
{
    let chars = chars_of(root);
    let below = chars_of(rest);
    if chars.len() == 0 || (below.len() > 0 && below[0] == '/') {
        return rest.to_owned();
    }
    let mut out = root.to_owned();
    if chars[chars.len() - 1] != '/' {
        out.append("/");
    }
    out.append(rest);
    out
}

} // verus!
