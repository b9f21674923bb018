//! Paths as the components that they are made of: the root, a leading `.`, and
//! the parts between slashes that are neither empty nor `.`. Two paths are the
//! same path where their components are.

use vstd::prelude::*;
use vstd::slice::{slice_subrange, slice_to_vec};

use crate::paths::{rooted, rooted_path, slash, slashed};
use crate::text::{
    chars_of, eq_chars, find_char, position_from, split, split_by, string_of, texts,
};

verus! {

/// Whether a part of a path names a step.
pub open spec fn step(part: Seq<char>) -> bool {
    part.len() > 0 && part != seq!['.']
}

/// The parts that name a step.
pub open spec fn steps_in(parts: Seq<Seq<char>>) -> Seq<Seq<char>>
    decreases parts.len(),
{
    if parts.len() == 0 {
        parts
    } else if step(parts.last()) {
        steps_in(parts.drop_last()).push(parts.last())
    } else {
        steps_in(parts.drop_last())
    }
}

/// Where a path starts: at the root, at the directory that it names by `.`, or
/// at its first step.
pub open spec fn start_of(path: Seq<char>) -> Seq<Seq<char>> {
    if path.len() > 0 && path[0] == '/' {
        seq![seq!['/']]
    } else if split_by(path, slash())[0] == seq!['.'] {
        seq![seq!['.']]
    } else {
        Seq::empty()
    }
}

/// The components of a path.
pub open spec fn components(path: Seq<char>) -> Seq<Seq<char>> {
    start_of(path) + steps_in(split_by(path, slash()))
}

/// Whether a path is another one or lies under it.
pub open spec fn under(path: Seq<char>, root: Seq<char>) -> bool {
    components(root).is_prefix_of(components(path))
}

/// The path that has the given components.
pub open spec fn path_of(parts: Seq<Seq<char>>) -> Seq<char> {
    if parts.len() == 0 {
        Seq::empty()
    } else if parts[0] == seq!['/'] {
        rooted(parts.skip(1))
    } else {
        parts[0] + slashed(parts.skip(1))
    }
}

fn is_step(part: &[char]) -> (r: bool)
    ensures
        r == step(part@),
{
    if part.len() == 1 && part[0] == '.' {
        assert(part@ =~= seq!['.']);
        return false;
    }
    assert(part@ == seq!['.'] ==> part@[0] == '.');
    part.len() > 0
}

/// The components of a path.
pub fn components_of(path: &[char]) -> (out: Vec<Vec<char>>)
    ensures
        texts(out@) == components(path@),
{
    let set: Vec<char> = vec!['/'];
    assert(set@ =~= seq!['/']);
    let parts = split(path, set.as_slice(), false);
    let ghost all = texts(parts@);
    let ghost start = start_of(path@);
    let mut out: Vec<Vec<char>> = Vec::new();
    assert(all[0] == parts@[0]@);
    if path.len() > 0 && path[0] == '/' {
        out.push(set);
        assert(texts(out@) =~= start);
    } else if parts[0].len() == 1 && parts[0][0] == '.' {
        assert(all[0] =~= seq!['.']);
        out.push(slice_to_vec(parts[0].as_slice()));
        assert(texts(out@) =~= start);
    } else {
        assert(all[0] == seq!['.'] ==> all[0][0] == '.');
        assert(texts(out@) =~= start);
    }
    let mut i: usize = 0;
    assert(texts(out@) =~= start + steps_in(all.take(0)));
    while i < parts.len()
        invariant
            all == texts(parts@),
            i <= parts@.len(),
            texts(out@) == start + steps_in(all.take(i as int)),
        decreases parts@.len() - i,
    {
        let ghost before = texts(out@);
        assert(all.take(i + 1).drop_last() =~= all.take(i as int));
        assert(all.take(i + 1).last() == parts@[i as int]@);
        if is_step(parts[i].as_slice()) {
            out.push(slice_to_vec(parts[i].as_slice()));
            assert(texts(out@) =~= before.push(parts@[i as int]@));
            assert(before.push(parts@[i as int]@) =~= start + steps_in(all.take(i + 1)));
        }
        i += 1;
    }
    assert(all.take(i as int) =~= all);
    out
}

/// Whether one list of components begins with another.
pub fn begins_with(whole: &[Vec<char>], head: &[Vec<char>]) -> (r: bool)
    ensures
        r == texts(head@).is_prefix_of(texts(whole@)),
{
    let ghost w = texts(whole@);
    let ghost h = texts(head@);
    if head.len() > whole.len() {
        return false;
    }
    let mut i: usize = 0;
    while i < head.len()
        invariant
            w == texts(whole@),
            h == texts(head@),
            i <= head@.len() <= whole@.len(),
            forall|j: int| 0 <= j < i ==> h[j] == w[j],
        decreases head@.len() - i,
    {
        assert(h[i as int] == head@[i as int]@ && w[i as int] == whole@[i as int]@);
        if !eq_chars(head[i].as_slice(), whole[i].as_slice()) {
            assert(h[i as int] != w.subrange(0, h.len() as int)[i as int]);
            return false;
        }
        i += 1;
    }
    assert(h =~= w.subrange(0, h.len() as int));
    true
}

/// Whether a path is another one or lies under it.
pub fn lies_under(path: &str, root: &str) -> (r: bool)
    ensures
        r == under(path@, root@),
{
    let whole = components_of(chars_of(path).as_slice());
    let head = components_of(chars_of(root).as_slice());
    begins_with(whole.as_slice(), head.as_slice())
}

/// Whether two lists of components are the same.
pub fn same_components(a: &[Vec<char>], b: &[Vec<char>]) -> (r: bool)
    ensures
        r == (texts(a@) == texts(b@)),
{
    assert(texts(a@).len() == a@.len() && texts(b@).len() == b@.len());
    assert(texts(a@).subrange(0, a@.len() as int) =~= texts(a@));
    a.len() == b.len() && begins_with(a, b)
}

/// Whether two paths have the same components.
pub fn same_path(a: &str, b: &str) -> (r: bool)
    ensures
        r == (components(a@) == components(b@)),
{
    let x = components_of(chars_of(a).as_slice());
    let y = components_of(chars_of(b).as_slice());
    same_components(x.as_slice(), y.as_slice())
}

/// The path that has the given components.
pub fn path_from(parts: &[Vec<char>]) -> (out: String)
    ensures
        out@ == path_of(texts(parts@)),
{
    let ghost all = texts(parts@);
    let n: usize = parts.len();
    if n == 0 {
        let out = String::new();
        assert(out@ =~= path_of(all));
        return out;
    }
    assert(all[0] == parts@[0]@);
    let rest = slice_subrange(parts, 1, n);
    assert(texts(rest@) =~= all.skip(1));
    if parts[0].len() == 1 && parts[0][0] == '/' {
        assert(parts@[0]@ =~= seq!['/']);
        return rooted_path(rest);
    }
    assert(all[0] == seq!['/'] ==> all[0][0] == '/');
    let mut out = string_of(parts[0].as_slice(), 0, parts[0].len());
    assert(out@ =~= all[0]);
    if rest.len() > 0 {
        out.append(rooted_path(rest).as_str());
    }
    assert(out@ =~= path_of(all));
    out
}

/// A path without the slashes that it ends with, and without the components `.`
/// among them, which name nothing.
pub open spec fn trimmed_path(path: Seq<char>) -> Seq<char>
    decreases path.len(),
{
    if path.len() > 0 && (path.last() == '/' || (path.len() > 1 && path.last() == '.' && path[path.len()
        - 2] == '/')) {
        trimmed_path(path.drop_last())
    } else {
        path
    }
}

/// A path without the slashes that it ends with, and without the components `.`
/// among them.
pub fn trimmed_path_of(path: &[char]) -> (r: &[char])
    ensures
        r@ == trimmed_path(path@),
{
    let mut n: usize = path.len();
    assert(path@.take(n as int) =~= path@);
    while n > 0 && (path[n - 1] == '/' || (n > 1 && path[n - 1] == '.' && path[n - 2] == '/'))
        invariant
            n <= path@.len(),
            trimmed_path(path@) == trimmed_path(path@.take(n as int)),
        decreases n,
    {
        assert(path@.take(n as int).last() == path@[n - 1]);
        assert(path@.take(n as int).drop_last() =~= path@.take(n - 1));
        n -= 1;
    }
    if n > 0 {
        assert(path@.take(n as int).last() == path@[n - 1]);
    }
    let head = slice_subrange(path, 0, n);
    assert(head@ =~= path@.take(n as int));
    head
}

/// A text from its first step on.
pub open spec fn from_step(s: Seq<char>) -> Seq<char>
    decreases s.len(),
{
    if s.len() > 0 && s[0] == '/' {
        from_step(s.skip(1))
    } else if s.len() > 0 && s[0] == '.' && (s.len() == 1 || s[1] == '/') {
        from_step(s.skip(1))
    } else {
        s
    }
}

/// A text from the step on that follows its first `n` steps.
pub open spec fn past_steps(s: Seq<char>, n: nat) -> Seq<char>
    decreases n,
{
    let at = from_step(s);
    if n == 0 {
        at
    } else {
        past_steps(at.skip(position_from(at, 0, '/')), (n - 1) as nat)
    }
}

/// What is left of a path below a root, as it is written there.
pub open spec fn below(path: Seq<char>, root: Seq<char>) -> Option<Seq<char>> {
    let whole = trimmed_path(path);
    if !under(path, root) {
        None
    } else if components(root).len() > 0 {
        Some(past_steps(whole, steps_in(split_by(root, slash())).len()))
    } else if whole.len() == 0 && path.len() > 0 {
        Some(seq!['/'])
    } else {
        Some(whole)
    }
}

fn step_on(s: &[char]) -> (r: &[char])
    ensures
        r@ == from_step(s@),
{
    let n: usize = s.len();
    let mut k: usize = 0;
    assert(s@.skip(0) =~= s@);
    while k < n && (s[k] == '/' || (s[k] == '.' && (n - k == 1 || s[k + 1] == '/')))
        invariant
            n == s@.len(),
            k <= n,
            from_step(s@.skip(k as int)) == from_step(s@),
        decreases n - k,
    {
        assert(s@.skip(k as int)[0] == s@[k as int]);
        assert(s@.skip(k as int).skip(1) =~= s@.skip(k + 1));
        k += 1;
    }
    if k < n {
        assert(s@.skip(k as int)[0] == s@[k as int]);
    }
    let rest = slice_subrange(s, k, n);
    assert(rest@ =~= s@.skip(k as int));
    rest
}

/// A text from the step on that follows its first `n` steps.
fn skip_steps(s: &[char], n: usize) -> (r: &[char])
    ensures
        r@ == past_steps(s@, n as nat),
    decreases n,
{
    let at = step_on(s);
    if n == 0 {
        return at;
    }
    let k: usize = find_char(at, 0, '/');
    let rest = slice_subrange(at, k, at.len());
    assert(rest@ =~= at@.skip(k as int));
    skip_steps(rest, n - 1)
}

/// What is left of a path below a root, if it lies there.
pub fn path_below(path: &str, root: &str) -> (r: Option<String>)
    ensures
        crate::text::shown_as(r) == below(path@, root@),
{
    if !lies_under(path, root) {
        return None;
    }
    let chars = chars_of(path);
    let whole = trimmed_path_of(chars.as_slice());
    let head = components_of(chars_of(root).as_slice());
    let left: &[char];
    if head.len() > 0 {
        let ghost all = texts(head@);
        let ghost steps = steps_in(split_by(root@, slash()));
        assert(all[0] == head@[0]@);
        proof {
            lemma_start(root@);
        }
        let led: bool = head[0].len() == 1 && (head[0][0] == '/' || head[0][0] == '.');
        assert(led == (all[0] == seq!['/'] || all[0] == seq!['.'])) by {
            if led {
                assert(all[0] =~= seq![all[0][0]]);
            }
        }
        let n: usize = if led {
            head.len() - 1
        } else {
            head.len()
        };
        assert(n == steps.len());
        left = skip_steps(whole, n);
    } else if whole.len() == 0 && chars.len() > 0 {
        let text = "/".to_owned();
        proof {
            reveal_strlit("/");
        }
        assert(text@ =~= seq!['/']);
        return Some(text);
    } else {
        left = whole;
    }
    let text = string_of(left, 0, left.len());
    assert(text@ =~= left@);
    Some(text)
}

/// Only the first component can be the root or `.`.
proof fn lemma_start(path: Seq<char>)
    ensures
        components(path).len() > 0 ==> (start_of(path).len() == 1 <==> components(path)[0] == seq![
            '/',
        ] || components(path)[0] == seq!['.']),
        start_of(path).len() <= 1,
{
    let parts = split_by(path, slash());
    crate::paths::lemma_split_has_no_slash(path);
    lemma_steps_in(parts);
    if start_of(path).len() == 0 && components(path).len() > 0 {
        assert(components(path)[0] == steps_in(parts)[0]);
        let i = choose|i: int| 0 <= i < parts.len() && parts[i] == steps_in(parts)[0];
        assert(!parts[i].contains('/'));
        assert(seq!['/'][0] == '/');
    }
}

/// The steps are parts of the path that name one.
proof fn lemma_steps_in(parts: Seq<Seq<char>>)
    ensures
        forall|k: int|
            0 <= k < steps_in(parts).len() ==> step(#[trigger] steps_in(parts)[k]) && exists|i: int|
                0 <= i < parts.len() && #[trigger] parts[i] == steps_in(parts)[k],
    decreases parts.len(),
{
    if parts.len() > 0 {
        let init = parts.drop_last();
        lemma_steps_in(init);
        assert forall|k: int| 0 <= k < steps_in(parts).len() implies step(
            #[trigger] steps_in(parts)[k],
        ) && exists|i: int| 0 <= i < parts.len() && #[trigger] parts[i] == steps_in(parts)[k] by {
            if k < steps_in(init).len() {
                assert(steps_in(init)[k] == steps_in(parts)[k]);
                let i = choose|i: int| 0 <= i < init.len() && #[trigger] init[i] == steps_in(init)[k];
                assert(parts[i] == steps_in(parts)[k]);
            } else {
                assert(parts[parts.len() - 1] == steps_in(parts)[k]);
            }
        }
    }
}

} // verus!
