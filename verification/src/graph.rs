//! Directed graphs as adjacency lists: reachability, strongly connected
//! components and a stable order of the components.

use vstd::prelude::*;

verus! {

/// A relation between node numbers.
pub type Relation = spec_fn(int, int) -> bool;

/// The edges that adjacency lists describe.
pub open spec fn edges(lists: Seq<Vec<usize>>) -> Relation {
    |i: int, j: int| 0 <= i < lists.len() && exists|k: int| 0 <= k < lists[i]@.len() && #[trigger] lists[i]@[k] == j
}

/// Whether every list names nodes of the graph only.
pub open spec fn well_formed(lists: Seq<Vec<usize>>) -> bool {
    forall|i: int, k: int|
        0 <= i < lists.len() && 0 <= k < lists[i]@.len() ==> (#[trigger] lists[i]@[k]) < lists.len()
}

/// Whether `j` can be reached from `i` in exactly `k` steps.
pub open spec fn reaches_in(e: Relation, i: int, j: int, k: nat) -> bool
    decreases k,
{
    if k == 0 {
        i == j
    } else {
        exists|m: int| #[trigger] e(i, m) && reaches_in(e, m, j, (k - 1) as nat)
    }
}

/// Whether `j` can be reached from `i`.
pub open spec fn reaches(e: Relation, i: int, j: int) -> bool {
    exists|k: nat| reaches_in(e, i, j, k)
}

/// Whether two nodes lie on a common cycle, or are the same.
pub open spec fn mutual(e: Relation, i: int, j: int) -> bool {
    reaches(e, i, j) && reaches(e, j, i)
}

pub proof fn lemma_reaches_self(e: Relation, i: int)
    ensures
        reaches(e, i, i),
        mutual(e, i, i),
{
    assert(reaches_in(e, i, i, 0));
}

proof fn lemma_reaches_in_trans(e: Relation, i: int, m: int, j: int, a: nat, b: nat)
    requires
        reaches_in(e, i, m, a),
        reaches_in(e, m, j, b),
    ensures
        reaches_in(e, i, j, a + b),
    decreases a,
{
    if a > 0 {
        let x = choose|x: int| #[trigger] e(i, x) && reaches_in(e, x, m, (a - 1) as nat);
        lemma_reaches_in_trans(e, x, m, j, (a - 1) as nat, b);
        assert(e(i, x) && reaches_in(e, x, j, (a + b - 1) as nat));
    }
}

pub proof fn lemma_reaches_trans(e: Relation, i: int, m: int, j: int)
    requires
        reaches(e, i, m),
        reaches(e, m, j),
    ensures
        reaches(e, i, j),
{
    let a = choose|a: nat| reaches_in(e, i, m, a);
    let b = choose|b: nat| reaches_in(e, m, j, b);
    lemma_reaches_in_trans(e, i, m, j, a, b);
}

pub proof fn lemma_reaches_edge(e: Relation, i: int, j: int)
    requires
        e(i, j),
    ensures
        reaches(e, i, j),
{
    assert(reaches_in(e, j, j, 0));
    assert(reaches_in(e, i, j, 1));
}

/// A set that holds `i` and is closed under edges holds all that `i` reaches.
proof fn lemma_closed(e: Relation, set: spec_fn(int) -> bool, i: int, j: int, k: nat)
    requires
        set(i),
        forall|x: int, y: int| set(x) && #[trigger] e(x, y) ==> set(y),
        reaches_in(e, i, j, k),
    ensures
        set(j),
    decreases k,
{
    if k > 0 {
        let m = choose|m: int| #[trigger] e(i, m) && reaches_in(e, m, j, (k - 1) as nat);
        lemma_closed(e, set, m, j, (k - 1) as nat);
    }
}

/// Reachability in the reversed graph is reachability backwards.
proof fn lemma_reverse_in(e: Relation, r: Relation, i: int, j: int, k: nat)
    requires
        forall|x: int, y: int| #[trigger] e(x, y) ==> r(y, x),
        reaches_in(e, i, j, k),
    ensures
        reaches(r, j, i),
    decreases k,
{
    if k == 0 {
        lemma_reaches_self(r, i);
    } else {
        let m = choose|m: int| #[trigger] e(i, m) && reaches_in(e, m, j, (k - 1) as nat);
        lemma_reverse_in(e, r, m, j, (k - 1) as nat);
        lemma_reaches_edge(r, m, i);
        lemma_reaches_trans(r, j, m, i);
    }
}

pub proof fn lemma_reverse(e: Relation, r: Relation, i: int, j: int)
    requires
        forall|x: int, y: int| #[trigger] e(x, y) ==> r(y, x),
        reaches(e, i, j),
    ensures
        reaches(r, j, i),
{
    let k = choose|k: nat| reaches_in(e, i, j, k);
    lemma_reverse_in(e, r, i, j, k);
}

/// Number of nodes not yet marked.
spec fn unmarked(marks: Seq<bool>) -> nat
    decreases marks.len(),
{
    if marks.len() == 0 {
        0
    } else {
        unmarked(marks.drop_last()) + if marks.last() {
            0nat
        } else {
            1nat
        }
    }
}

proof fn lemma_unmarked_update(marks: Seq<bool>, i: int)
    requires
        0 <= i < marks.len(),
        !marks[i],
    ensures
        unmarked(marks.update(i, true)) + 1 == unmarked(marks),
    decreases marks.len(),
{
    let next = marks.update(i, true);
    if i == marks.len() - 1 {
        assert(next.drop_last() =~= marks.drop_last());
    } else {
        assert(next.drop_last() =~= marks.drop_last().update(i, true));
        lemma_unmarked_update(marks.drop_last(), i);
    }
}

/// The nodes that can be reached from `start`.
pub fn reachable(lists: &[Vec<usize>], start: usize) -> (marks: Vec<bool>)
    requires
        well_formed(lists@),
        start < lists@.len(),
    ensures
        marks@.len() == lists@.len(),
        forall|j: int|
            0 <= j < marks@.len() ==> #[trigger] marks@[j] == reaches(edges(lists@), start as int, j),
{
    let ghost e = edges(lists@);
    let n: usize = lists.len();
    let mut marks: Vec<bool> = Vec::new();
    let mut i: usize = 0;
    while i < n
        invariant
            i <= n,
            marks@.len() == i,
            forall|j: int| 0 <= j < i ==> !(#[trigger] marks@[j]),
        decreases n - i,
    {
        marks.push(false);
        i += 1;
    }
    marks.set(start, true);
    let mut stack: Vec<usize> = vec![start];
    proof {
        lemma_reaches_self(e, start as int);
    }
    while stack.len() > 0
        invariant
            n == lists@.len(),
            e == edges(lists@),
            well_formed(lists@),
            start < n,
            marks@.len() == n,
            marks@[start as int],
            forall|j: int| 0 <= j < n && #[trigger] marks@[j] ==> reaches(e, start as int, j),
            forall|k: int| 0 <= k < stack@.len() ==> (#[trigger] stack@[k]) < n && marks@[stack@[k] as int],
            forall|x: int, y: int|
                0 <= x < n && marks@[x] && #[trigger] e(x, y) ==> stack@.contains(x as usize)
                    || marks@[y],
        decreases unmarked(marks@), stack@.len(),
    {
        let ghost stack0 = stack@;
        let node: usize = stack.pop().unwrap();
        assert(stack@ =~= stack0.drop_last());
        assert(node == stack0.last());
        assert(marks@[node as int]);
        let ghost marks0 = marks@;
        let next = &lists[node];
        proof {
            assert forall|x: int, y: int|
                0 <= x < n && marks@[x] && x != node && #[trigger] e(x, y) implies stack@.contains(
                x as usize,
            ) || marks@[y] by {
                if stack0.contains(x as usize) {
                    let q = choose|q: int| 0 <= q < stack0.len() && stack0[q] == x as usize;
                    assert(stack@[q] == x as usize);
                }
            }
        }
        let mut k: usize = 0;
        while k < next.len()
            invariant
                n == lists@.len(),
                e == edges(lists@),
                well_formed(lists@),
                start < n,
                node < n,
                k <= next@.len(),
                next@ == lists@[node as int]@,
                marks@.len() == n,
                marks@[start as int],
                marks@[node as int],
                unmarked(marks@) <= unmarked(marks0),
                unmarked(marks@) == unmarked(marks0) ==> marks@ == marks0 && stack@.len()
                    == stack0.len() - 1,
                forall|j: int| 0 <= j < n && #[trigger] marks@[j] ==> reaches(e, start as int, j),
                forall|q: int|
                    0 <= q < stack@.len() ==> (#[trigger] stack@[q]) < n && marks@[stack@[q] as int],
                forall|x: int, y: int|
                    0 <= x < n && marks@[x] && x != node && #[trigger] e(x, y) ==> stack@.contains(
                        x as usize,
                    ) || marks@[y],
                forall|q: int| 0 <= q < k ==> marks@[#[trigger] next@[q] as int],
            decreases next@.len() - k,
        {
            let to: usize = next[k];
            assert(lists@[node as int]@[k as int] == to);
            if !marks[to] {
                proof {
                    lemma_unmarked_update(marks@, to as int);
                    assert(e(node as int, to as int));
                    lemma_reaches_edge(e, node as int, to as int);
                    lemma_reaches_trans(e, start as int, node as int, to as int);
                }
                let ghost stack1 = stack@;
                let ghost marks1 = marks@;
                marks.set(to, true);
                stack.push(to);
                proof {
                    assert(stack@[stack@.len() - 1] == to);
                    assert forall|x: int, y: int|
                        0 <= x < n && marks@[x] && x != node && #[trigger] e(x, y) implies stack@.contains(
                        x as usize,
                    ) || marks@[y] by {
                        if x == to {
                            assert(stack@.contains(to));
                        } else {
                            assert(marks1[x]);
                            if stack1.contains(x as usize) {
                                let q = choose|q: int| 0 <= q < stack1.len() && stack1[q] == x as usize;
                                assert(stack@[q] == x as usize);
                            }
                        }
                    }
                }
            }
            k += 1;
        }
        proof {
            assert forall|x: int, y: int|
                0 <= x < n && marks@[x] && #[trigger] e(x, y) implies stack@.contains(x as usize)
                || marks@[y] by {
                if x == node {
                    let q = choose|q: int| 0 <= q < lists@[x]@.len() && #[trigger] lists@[x]@[q] == y;
                    assert(marks@[next@[q] as int]);
                }
            }
        }
    }
    proof {
        let set = |x: int| 0 <= x < n && marks@[x];
        assert forall|x: int, y: int| set(x) && #[trigger] e(x, y) implies set(y) by {
            assert(!stack@.contains(x as usize));
            let q = choose|q: int| 0 <= q < lists@[x]@.len() && #[trigger] lists@[x]@[q] == y;
            assert(lists@[x]@[q] < n);
        }
        assert forall|j: int| 0 <= j < n implies #[trigger] marks@[j] == reaches(e, start as int, j) by {
            if reaches(e, start as int, j) {
                let k = choose|k: nat| reaches_in(e, start as int, j, k);
                lemma_closed(e, set, start as int, j, k);
            }
        }
    }
    marks
}

/// The numbers below `n` that satisfy `p`, in ascending order.
pub open spec fn range_where(n: int, p: spec_fn(int) -> bool) -> Seq<int>
    decreases n,
{
    if n <= 0 {
        Seq::empty()
    } else if p(n - 1) {
        range_where(n - 1, p).push(n - 1)
    } else {
        range_where(n - 1, p)
    }
}

pub proof fn lemma_range_where(n: int, p: spec_fn(int) -> bool)
    ensures
        forall|x: int| range_where(n, p).contains(x) <==> 0 <= x < n && p(x),
        forall|a: int, b: int|
            0 <= a < b < range_where(n, p).len() ==> range_where(n, p)[a] < range_where(n, p)[b],
        forall|a: int|
            0 <= a < range_where(n, p).len() ==> 0 <= (#[trigger] range_where(n, p)[a]) < n && p(
                range_where(n, p)[a],
            ),
    decreases n,
{
    if n > 0 {
        lemma_range_where(n - 1, p);
        let shorter = range_where(n - 1, p);
        let list = range_where(n, p);
        if p(n - 1) {
            assert(list[list.len() - 1] == n - 1);
            assert forall|x: int| list.contains(x) <==> 0 <= x < n && p(x) by {
                if list.contains(x) {
                    let a = choose|a: int| 0 <= a < list.len() && list[a] == x;
                    if a < shorter.len() {
                        assert(shorter[a] == x);
                        assert(shorter.contains(x));
                    }
                }
                if 0 <= x < n - 1 && p(x) {
                    assert(shorter.contains(x));
                    let a = choose|a: int| 0 <= a < shorter.len() && shorter[a] == x;
                    assert(list[a] == x);
                }
            }
            assert forall|a: int| 0 <= a < list.len() implies 0 <= (#[trigger] list[a]) < n && p(
                list[a],
            ) by {
                if a < shorter.len() {
                    assert(list[a] == shorter[a]);
                }
            }
            assert forall|a: int, b: int| 0 <= a < b < list.len() implies list[a] < list[b] by {
                assert(list[a] == shorter[a]);
                if b < shorter.len() {
                    assert(list[b] == shorter[b]);
                }
            }
        }
    }
}

/// The numbers in a list of indices.
pub open spec fn ints(list: Seq<usize>) -> Seq<int> {
    list.map_values(|x: usize| x as int)
}

/// The marked positions, in ascending order.
pub fn marked(marks: &[bool]) -> (out: Vec<usize>)
    ensures
        ints(out@) == range_where(marks@.len() as int, |x: int| marks@[x]),
        forall|k: int| 0 <= k < out@.len() ==> (#[trigger] out@[k]) < marks@.len(),
{
    let ghost p = |x: int| marks@[x];
    let mut out: Vec<usize> = Vec::new();
    let mut i: usize = 0;
    assert(ints(out@) =~= range_where(0, p));
    while i < marks.len()
        invariant
            p == |x: int| marks@[x],
            i <= marks@.len(),
            ints(out@) == range_where(i as int, p),
            forall|k: int| 0 <= k < out@.len() ==> (#[trigger] out@[k]) < i,
        decreases marks@.len() - i,
    {
        if marks[i] {
            out.push(i);
            assert(ints(out@) =~= range_where(i as int, p).push(i as int));
        }
        i += 1;
    }
    out
}

/// A list of `n` unmarked positions.
pub fn no_marks(n: usize) -> (marks: Vec<bool>)
    ensures
        marks@.len() == n,
        forall|j: int| 0 <= j < n ==> !(#[trigger] marks@[j]),
{
    let mut marks: Vec<bool> = Vec::new();
    let mut i: usize = 0;
    while i < n
        invariant
            i <= n,
            marks@.len() == i,
            forall|j: int| 0 <= j < i ==> !(#[trigger] marks@[j]),
        decreases n - i,
    {
        marks.push(false);
        i += 1;
    }
    marks
}

/// The smallest node from `j` on that lies on a cycle with `i`, or `i`.
pub open spec fn least_mutual(e: Relation, i: int, j: int) -> int
    decreases i - j,
{
    if j >= i {
        i
    } else if mutual(e, i, j) {
        j
    } else {
        least_mutual(e, i, j + 1)
    }
}

/// The node that stands for the component of `i`: its smallest member.
pub open spec fn leader(e: Relation, i: int) -> int {
    least_mutual(e, i, 0)
}

proof fn lemma_least_mutual(e: Relation, i: int, j: int)
    requires
        0 <= j <= i,
    ensures
        j <= least_mutual(e, i, j) <= i,
        mutual(e, i, least_mutual(e, i, j)),
        forall|m: int| j <= m < least_mutual(e, i, j) ==> !mutual(e, i, m),
    decreases i - j,
{
    if j >= i {
        lemma_reaches_self(e, i);
    } else if !mutual(e, i, j) {
        lemma_least_mutual(e, i, j + 1);
    }
}

/// A leader is the smallest member of its component.
pub proof fn lemma_leader(e: Relation, i: int)
    requires
        0 <= i,
    ensures
        0 <= leader(e, i) <= i,
        mutual(e, i, leader(e, i)),
        leader(e, leader(e, i)) == leader(e, i),
        forall|m: int| 0 <= m < leader(e, i) ==> !mutual(e, i, m),
{
    lemma_least_mutual(e, i, 0);
    let l = leader(e, i);
    lemma_least_mutual(e, l, 0);
    let m = leader(e, l);
    if m < l {
        lemma_reaches_trans(e, i, l, m);
        lemma_reaches_trans(e, m, l, i);
        assert(mutual(e, i, m));
        assert(false);
    }
}

/// Two nodes share a leader exactly when they share a cycle.
pub proof fn lemma_same_leader(e: Relation, i: int, j: int)
    requires
        0 <= i,
        0 <= j,
    ensures
        mutual(e, i, j) <==> leader(e, i) == leader(e, j),
{
    lemma_leader(e, i);
    lemma_leader(e, j);
    let a = leader(e, i);
    let b = leader(e, j);
    if mutual(e, i, j) {
        lemma_reaches_trans(e, i, j, b);
        lemma_reaches_trans(e, b, j, i);
        lemma_reaches_trans(e, j, i, a);
        lemma_reaches_trans(e, a, i, j);
        assert(mutual(e, i, b) && mutual(e, j, a));
    }
    if a == b {
        lemma_reaches_trans(e, i, a, j);
        lemma_reaches_trans(e, j, a, i);
    }
}

/// The members of the component that `l` leads, in ascending order.
pub open spec fn members_of(e: Relation, n: int, l: int) -> Seq<int> {
    range_where(n, |i: int| leader(e, i) == l)
}

/// Whether two lists of adjacency lists describe each other reversed.
pub open spec fn reversed(lists: Seq<Vec<usize>>, back: Seq<Vec<usize>>) -> bool {
    &&& lists.len() == back.len()
    &&& forall|i: int, j: int| #[trigger] edges(lists)(i, j) ==> edges(back)(j, i)
    &&& forall|i: int, j: int| #[trigger] edges(back)(i, j) ==> edges(lists)(j, i)
}

/// The leader of every node.
fn leaders(lists: &[Vec<usize>], back: &[Vec<usize>]) -> (out: Vec<usize>)
    requires
        well_formed(lists@),
        well_formed(back@),
        reversed(lists@, back@),
    ensures
        out@.len() == lists@.len(),
        forall|i: int| 0 <= i < out@.len() ==> (#[trigger] out@[i]) == leader(edges(lists@), i),
{
    let ghost e = edges(lists@);
    let n: usize = lists.len();
    let mut out: Vec<usize> = Vec::new();
    let mut i: usize = 0;
    while i < n
        invariant
            i <= n,
            out@.len() == i,
            forall|j: int| 0 <= j < i ==> #[trigger] out@[j] == n,
        decreases n - i,
    {
        out.push(n);
        i += 1;
    }
    let mut start: usize = 0;
    assert forall|j: int| 0 <= j < n implies leader(e, j) >= 0 by {
        lemma_leader(e, j);
    }
    while start < n
        invariant
            n == lists@.len(),
            e == edges(lists@),
            well_formed(lists@),
            well_formed(back@),
            reversed(lists@, back@),
            start <= n,
            out@.len() == n,
            forall|j: int|
                0 <= j < n ==> (#[trigger] out@[j] == n && leader(e, j) >= start) || (out@[j]
                    == leader(e, j) && leader(e, j) < start),
        decreases n - start,
    {
        let ghost out0 = out@;
        if out[start] == n {
            proof {
                lemma_leader(e, start as int);
            }
            let forward = reachable(lists, start);
            let backward = reachable(back, start);
            let mut j: usize = 0;
            while j < n
                invariant
                    n == lists@.len(),
                    e == edges(lists@),
                    reversed(lists@, back@),
                    start < n,
                    j <= n,
                    leader(e, start as int) == start,
                    out@.len() == n,
                    out0.len() == n,
                    forward@.len() == n,
                    backward@.len() == n,
                    forall|q: int|
                        0 <= q < n ==> #[trigger] forward@[q] == reaches(e, start as int, q),
                    forall|q: int|
                        0 <= q < n ==> #[trigger] backward@[q] == reaches(
                            edges(back@),
                            start as int,
                            q,
                        ),
                    forall|q: int|
                        0 <= q < n ==> (#[trigger] out0[q] == n && leader(e, q) >= start) || (out0[q]
                            == leader(e, q) && leader(e, q) < start),
                    forall|q: int|
                        0 <= q < j ==> (#[trigger] out@[q] == n && leader(e, q) > start) || (out@[q]
                            == leader(e, q) && leader(e, q) <= start),
                    forall|q: int| j <= q < n ==> #[trigger] out@[q] == out0[q],
                decreases n - j,
            {
                proof {
                    lemma_same_leader(e, start as int, j as int);
                    if backward@[j as int] {
                        lemma_reverse(edges(back@), e, start as int, j as int);
                    }
                    if reaches(e, j as int, start as int) {
                        lemma_reverse(e, edges(back@), j as int, start as int);
                    }
                }
                if forward[j] && backward[j] {
                    out.set(j, start);
                }
                j += 1;
            }
        } else {
            assert forall|q: int| 0 <= q < n implies (#[trigger] out@[q] == n && leader(e, q) > start)
                || (out@[q] == leader(e, q) && leader(e, q) <= start) by {
                if leader(e, q) == start {
                    lemma_leader(e, q);
                    assert(out@[start as int] == n || leader(e, start as int) < start);
                }
            }
        }
        start += 1;
    }
    assert forall|i: int| 0 <= i < n implies (#[trigger] out@[i]) == leader(e, i) by {
        lemma_leader(e, i);
    }
    out
}

/// The strongly connected components of a graph, given with its reverse: each
/// in ascending order, and ordered by their smallest members.
pub fn strongly_connected_components(
    adjacency: &[Vec<usize>],
    reverse_adjacency: &[Vec<usize>],
) -> (components: Vec<Vec<usize>>)
    requires
        well_formed(adjacency@),
        well_formed(reverse_adjacency@),
        reversed(adjacency@, reverse_adjacency@),
    ensures
        ints(firsts(components@)) == leader_nodes(edges(adjacency@), adjacency@.len() as int),
        forall|c: int|
            0 <= c < components@.len() ==> ints((#[trigger] components@[c])@) == members_of(
                edges(adjacency@),
                adjacency@.len() as int,
                components@[c]@[0] as int,
            ) && components@[c]@.len() > 0,
{
    let n: usize = adjacency.len();
    let ghost e = edges(adjacency@);
    let lead = leaders(adjacency, reverse_adjacency);
    let mut components: Vec<Vec<usize>> = Vec::new();
    let mut l: usize = 0;
    assert(ints(firsts(components@)) =~= range_where(0, |i: int| leader(e, i) == i));
    while l < n
        invariant
            n == adjacency@.len(),
            e == edges(adjacency@),
            l <= n,
            lead@.len() == n,
            forall|i: int| 0 <= i < n ==> (#[trigger] lead@[i]) == leader(e, i),
            ints(firsts(components@)) == range_where(l as int, |i: int| leader(e, i) == i),
            forall|c: int|
                0 <= c < components@.len() ==> ints((#[trigger] components@[c])@) == members_of(
                    e,
                    n as int,
                    components@[c]@[0] as int,
                ) && components@[c]@.len() > 0,
        decreases n - l,
    {
        if lead[l] == l {
            let mut marks: Vec<bool> = Vec::new();
            let mut i: usize = 0;
            while i < n
                invariant
                    i <= n,
                    n == lead@.len(),
                    marks@.len() == i,
                    forall|j: int| 0 <= j < i ==> #[trigger] marks@[j] == (lead@[j] == l),
                decreases n - i,
            {
                marks.push(lead[i] == l);
                i += 1;
            }
            let members = marked(marks.as_slice());
            proof {
                let p = |x: int| marks@[x];
                let q = |i: int| leader(e, i) == l as int;
                lemma_range_same(n as int, p, q);
                lemma_range_where(n as int, q);
                assert(members_of(e, n as int, l as int) == range_where(n as int, q));
                assert(range_where(n as int, q).contains(l as int));
                lemma_first_is_leader(e, n as int, l as int);
                assert(ints(members@)[0] == members@[0]);
                assert(firsts(components@.push(members)) =~= firsts(components@).push(members@[0]));
                assert(ints(firsts(components@.push(members))) =~= ints(firsts(components@)).push(
                    l as int,
                ));
            }
            components.push(members);
        }
        l += 1;
    }
    components
}

/// The first member of each list.
pub open spec fn firsts(lists: Seq<Vec<usize>>) -> Seq<usize> {
    lists.map_values(|list: Vec<usize>| list@[0])
}

/// The nodes that lead a component, in ascending order.
pub open spec fn leader_nodes(e: Relation, n: int) -> Seq<int> {
    range_where(n, |i: int| leader(e, i) == i)
}

pub proof fn lemma_range_same(n: int, p: spec_fn(int) -> bool, q: spec_fn(int) -> bool)
    requires
        forall|i: int| 0 <= i < n ==> #[trigger] p(i) == q(i),
    ensures
        range_where(n, p) == range_where(n, q),
    decreases n,
{
    if n > 0 {
        lemma_range_same(n - 1, p, q);
    }
}

/// A component's first member is its leader.
pub proof fn lemma_first_is_leader(e: Relation, n: int, l: int)
    requires
        0 <= l < n,
        leader(e, l) == l,
    ensures
        members_of(e, n, l).len() > 0,
        members_of(e, n, l)[0] == l,
        members_of(e, n, l).contains(l),
{
    let list = members_of(e, n, l);
    let q = |i: int| leader(e, i) == l;
    lemma_range_where(n, q);
    assert(list.contains(l));
    let a = choose|a: int| 0 <= a < list.len() && list[a] == l;
    if a > 0 {
        assert(list[0] < list[a]);
        lemma_leader(e, list[0]);
        assert(q(list[0]));
        assert(false);
    }
}

} // verus!
