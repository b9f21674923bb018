//! A stable order in which every node follows what it depends on.
//!
//! Nodes that depend on each other form one component; components are laid out
//! so that each follows the components it depends on, and among those that
//! could come next the one with the smallest member does.

use vstd::prelude::*;
use vstd::set_lib::{lemma_int_range, lemma_len_subset, set_int_range};

use crate::graph::{
    edges, firsts, ints, leader, leader_nodes, lemma_leader, lemma_range_same, lemma_range_where,
    lemma_reaches_edge, lemma_reaches_trans, lemma_same_leader, marked, members_of, mutual,
    no_marks, range_where, reaches, reversed, strongly_connected_components, well_formed, Relation,
};

verus! {

/// Whether the component that `l` leads may come next: all it depends on has
/// come before.
pub open spec fn ready(e: Relation, n: int, l: int, done: Set<int>) -> bool {
    &&& 0 <= l < n
    &&& leader(e, l) == l
    &&& !done.contains(l)
    &&& forall|i: int, j: int|
        0 <= i < n && leader(e, i) == l && #[trigger] e(i, j) ==> leader(e, j) == l
            || done.contains(leader(e, j))
}

/// The smallest component leader from `from` on that may come next, or `n`.
pub open spec fn next_ready(e: Relation, n: int, done: Set<int>, from: int) -> int
    decreases n - from,
{
    if from >= n {
        n
    } else if ready(e, n, from, done) {
        from
    } else {
        next_ready(e, n, done, from + 1)
    }
}

/// The leaders of the components that come after `done`, at most `fuel` many.
pub open spec fn emission(e: Relation, n: int, done: Set<int>, fuel: nat) -> Seq<int>
    decreases fuel,
{
    let l = next_ready(e, n, done, 0);
    if fuel == 0 || l >= n {
        Seq::empty()
    } else {
        seq![l] + emission(e, n, done.insert(l), (fuel - 1) as nat)
    }
}

/// The leaders of all components, in the order in which the components come.
pub open spec fn component_order(e: Relation, n: int) -> Seq<int> {
    emission(e, n, Set::empty(), n as nat)
}

/// The members of a list of components.
pub open spec fn members_in(e: Relation, n: int, leads: Seq<int>) -> Seq<int>
    decreases leads.len(),
{
    if leads.len() == 0 {
        Seq::empty()
    } else {
        members_in(e, n, leads.drop_last()) + members_of(e, n, leads.last())
    }
}

/// All nodes, in the order in which they come.
pub open spec fn node_order(e: Relation, n: int) -> Seq<int> {
    members_in(e, n, component_order(e, n))
}

/// Whether `i` waits for `d`: it depends on it, or its component depends on a
/// component whose last member `d` is.
pub open spec fn waits_for(e: Relation, n: int, i: int, d: int) -> bool {
    ||| e(i, d)
    ||| exists|m: int, j: int|
        {
            &&& 0 <= m < n
            &&& leader(e, m) == leader(e, i)
            &&& #[trigger] e(m, j)
            &&& leader(e, j) != leader(e, i)
            &&& d == members_of(e, n, leader(e, j)).last()
        }
}

/// The nodes that `i` waits for, in ascending order.
pub open spec fn frontier(e: Relation, n: int, i: int) -> Seq<int> {
    range_where(n, |d: int| waits_for(e, n, i, d))
}

/// Whether a node lies on a cycle through another node.
pub open spec fn cyclic(e: Relation, n: int, i: int) -> bool {
    members_of(e, n, leader(e, i)).len() > 1
}

pub proof fn lemma_next_ready(e: Relation, n: int, done: Set<int>, from: int)
    requires
        0 <= from <= n,
    ensures
        from <= next_ready(e, n, done, from) <= n,
        next_ready(e, n, done, from) < n ==> ready(e, n, next_ready(e, n, done, from), done),
        forall|m: int| from <= m < next_ready(e, n, done, from) ==> !ready(e, n, m, done),
    decreases n - from,
{
    if from < n && !ready(e, n, from, done) {
        lemma_next_ready(e, n, done, from + 1);
    }
}

/// The component leaders still to come that `l` reaches.
spec fn ahead(e: Relation, n: int, done: Set<int>, l: int) -> Set<int> {
    set_int_range(0, n).filter(
        |x: int| leader(e, x) == x && !done.contains(x) && reaches(e, l, x),
    )
}

/// As long as a component is still to come, one may come next.
proof fn lemma_some_ready(e: Relation, n: int, done: Set<int>, l: int) -> (r: int)
    requires
        forall|i: int, j: int| #[trigger] e(i, j) ==> 0 <= i < n && 0 <= j < n,
        0 <= l < n,
        leader(e, l) == l,
        !done.contains(l),
    ensures
        ready(e, n, r, done),
        reaches(e, l, r),
    decreases ahead(e, n, done, l).len(),
{
    if ready(e, n, l, done) {
        crate::graph::lemma_reaches_self(e, l);
        l
    } else {
        let (i, j) = choose|i: int, j: int|
            0 <= i < n && leader(e, i) == l && #[trigger] e(i, j) && leader(e, j) != l
                && !done.contains(leader(e, j));
        let m = leader(e, j);
        lemma_leader(e, i);
        lemma_leader(e, j);
        lemma_reaches_edge(e, i, j);
        lemma_reaches_trans(e, l, i, j);
        lemma_reaches_trans(e, l, j, m);
        let a = ahead(e, n, done, l);
        let b = ahead(e, n, done, m);
        lemma_int_range(0, n);
        assert(a.subset_of(set_int_range(0, n)));
        assert(b.subset_of(set_int_range(0, n)));
        lemma_len_subset(a, set_int_range(0, n));
        assert forall|x: int| b.contains(x) implies a.contains(x) by {
            lemma_reaches_trans(e, l, m, x);
        }
        crate::graph::lemma_reaches_self(e, l);
        assert(a.contains(l));
        if b.contains(l) {
            lemma_same_leader(e, l, m);
            assert(false);
        }
        assert(b.subset_of(a.remove(l)));
        lemma_len_subset(b, a.remove(l));
        let r = lemma_some_ready(e, n, done, m);
        lemma_reaches_trans(e, l, m, r);
        r
    }
}

proof fn lemma_prepend_set(l: int, list: Seq<int>)
    ensures
        (seq![l] + list).to_set() == list.to_set().insert(l),
{
    let whole = seq![l] + list;
    assert forall|x: int| whole.to_set().contains(x) == list.to_set().insert(l).contains(x) by {
        if list.contains(x) {
            let a = choose|a: int| 0 <= a < list.len() && list[a] == x;
            assert(whole[a + 1] == x);
        }
        if x == l {
            assert(whole[0] == l);
        }
        if whole.contains(x) {
            let a = choose|a: int| 0 <= a < whole.len() && whole[a] == x;
            if a > 0 {
                assert(list[a - 1] == x);
            }
        }
    }
    assert(whole.to_set() =~= list.to_set().insert(l));
}

/// What the emission of components is: every component still to come, once,
/// each when it is ready.
pub proof fn lemma_emission(e: Relation, n: int, done: Set<int>, fuel: nat)
    requires
        forall|i: int, j: int| #[trigger] e(i, j) ==> 0 <= i < n && 0 <= j < n,
        0 <= n,
        done.subset_of(set_int_range(0, n)),
        fuel + done.len() >= n,
    ensures
        forall|k: int|
            0 <= k < emission(e, n, done, fuel).len() ==> ready(
                e,
                n,
                #[trigger] emission(e, n, done, fuel)[k],
                done.union(emission(e, n, done, fuel).take(k).to_set()),
            ),
        forall|k: int, m: int|
            0 <= k < emission(e, n, done, fuel).len() && 0 <= m < emission(e, n, done, fuel)[k]
                ==> !#[trigger] ready(
                e,
                n,
                m,
                done.union(emission(e, n, done, fuel).take(k).to_set()),
            ),
        forall|l: int|
            0 <= l < n && leader(e, l) == l && !done.contains(l) ==> #[trigger] emission(
                e,
                n,
                done,
                fuel,
            ).contains(l),
    decreases fuel,
{
    lemma_next_ready(e, n, done, 0);
    lemma_int_range(0, n);
    let l = next_ready(e, n, done, 0);
    let list = emission(e, n, done, fuel);
    if l >= n {
        assert forall|m: int| 0 <= m < n && leader(e, m) == m && !done.contains(m) implies list.contains(
            m,
        ) by {
            let r = lemma_some_ready(e, n, done, m);
            assert(false);
        }
    } else {
        let next = done.insert(l);
        lemma_len_subset(done, set_int_range(0, n));
        assert(next.subset_of(set_int_range(0, n)));
        lemma_len_subset(next, set_int_range(0, n));
        assert(fuel > 0);
        let rest = emission(e, n, next, (fuel - 1) as nat);
        lemma_emission(e, n, next, (fuel - 1) as nat);
        assert(list == seq![l] + rest);
        assert forall|k: int| 0 <= k < list.len() implies ready(
            e,
            n,
            #[trigger] list[k],
            done.union(list.take(k).to_set()),
        ) by {
            if k == 0 {
                assert(done.union(list.take(0).to_set()) =~= done);
            } else {
                assert(list[k] == rest[k - 1]);
                let before = rest.take(k - 1);
                assert(list.take(k) =~= seq![l] + before);
                lemma_prepend_set(l, before);
                assert(done.union(list.take(k).to_set()) =~= next.union(before.to_set()));
            }
        }
        assert forall|k: int, m: int| 0 <= k < list.len() && 0 <= m < list[k] implies !#[trigger] ready(
            e,
            n,
            m,
            done.union(list.take(k).to_set()),
        ) by {
            if k == 0 {
                assert(done.union(list.take(0).to_set()) =~= done);
            } else {
                assert(list[k] == rest[k - 1]);
                let before = rest.take(k - 1);
                assert(list.take(k) =~= seq![l] + before);
                lemma_prepend_set(l, before);
                assert(done.union(list.take(k).to_set()) =~= next.union(before.to_set()));
            }
        }
        assert forall|m: int| 0 <= m < n && leader(e, m) == m && !done.contains(m) implies #[trigger] list.contains(
            m,
        ) by {
            if m == l {
                assert(list[0] == l);
            } else {
                assert(rest.contains(m));
                let a = choose|a: int| 0 <= a < rest.len() && rest[a] == m;
                assert(list[a + 1] == m);
            }
        }
    }
}

/// What a list of distinct components holds, and in what order.
proof fn lemma_members_in(e: Relation, n: int, leads: Seq<int>)
    requires
        leads.no_duplicates(),
        forall|k: int| 0 <= k < leads.len() ==> 0 <= (#[trigger] leads[k]) < n && leader(e, leads[k])
            == leads[k],
    ensures
        forall|x: int|
            #[trigger] members_in(e, n, leads).contains(x) <==> 0 <= x < n && leads.contains(
                leader(e, x),
            ),
        forall|s: int, t: int, p: int, q: int|
            {
                &&& 0 <= s < members_in(e, n, leads).len()
                &&& 0 <= t < members_in(e, n, leads).len()
                &&& 0 <= p < q < leads.len()
                &&& leader(e, #[trigger] members_in(e, n, leads)[s]) == #[trigger] leads[p]
                &&& leader(e, #[trigger] members_in(e, n, leads)[t]) == #[trigger] leads[q]
            } ==> s < t,
        forall|s: int, t: int|
            {
                &&& 0 <= s < members_in(e, n, leads).len()
                &&& 0 <= t < members_in(e, n, leads).len()
                &&& leader(e, #[trigger] members_in(e, n, leads)[s]) == leader(
                    e,
                    #[trigger] members_in(e, n, leads)[t],
                )
                &&& members_in(e, n, leads)[s] < members_in(e, n, leads)[t]
            } ==> s < t,
        members_in(e, n, leads).no_duplicates(),
    decreases leads.len(),
{
    let all = members_in(e, n, leads);
    if leads.len() == 0 {
    } else {
        let init = leads.drop_last();
        let last = leads.last();
        lemma_members_in(e, n, init);
        let head = members_in(e, n, init);
        let tail = members_of(e, n, last);
        lemma_range_where(n, |i: int| leader(e, i) == last);
        assert(all == head + tail);
        assert forall|x: int| #[trigger] all.contains(x) <==> 0 <= x < n && leads.contains(
            leader(e, x),
        ) by {
            if all.contains(x) {
                let a = choose|a: int| 0 <= a < all.len() && all[a] == x;
                if a < head.len() {
                    assert(head[a] == x);
                    assert(head.contains(x));
                    let b = choose|b: int| 0 <= b < init.len() && init[b] == leader(e, x);
                    assert(leads[b] == leader(e, x));
                } else {
                    assert(tail[a - head.len()] == x);
                    assert(tail.contains(x));
                    assert(leads[leads.len() - 1] == leader(e, x));
                }
            }
            if 0 <= x < n && leads.contains(leader(e, x)) {
                let b = choose|b: int| 0 <= b < leads.len() && leads[b] == leader(e, x);
                if b < init.len() {
                    assert(init[b] == leader(e, x));
                    assert(head.contains(x));
                    let a = choose|a: int| 0 <= a < head.len() && head[a] == x;
                    assert(all[a] == x);
                } else {
                    assert(tail.contains(x));
                    let a = choose|a: int| 0 <= a < tail.len() && tail[a] == x;
                    assert(all[head.len() + a] == x);
                }
            }
        }
        assert forall|s: int| 0 <= s < head.len() implies #[trigger] all[s] == head[s] && leader(
            e,
            all[s],
        ) != last by {
            assert(head.contains(head[s]));
            let b = choose|b: int| 0 <= b < init.len() && init[b] == leader(e, head[s]);
            assert(leads[b] == init[b]);
        }
        assert forall|s: int| head.len() <= s < all.len() implies #[trigger] all[s] == tail[s
            - head.len()] && leader(e, all[s]) == last by {
            assert(tail.contains(tail[s - head.len()]));
        }
        assert forall|s: int, t: int, p: int, q: int|
            {
                &&& 0 <= s < all.len()
                &&& 0 <= t < all.len()
                &&& 0 <= p < q < leads.len()
                &&& leader(e, #[trigger] all[s]) == #[trigger] leads[p]
                &&& leader(e, #[trigger] all[t]) == #[trigger] leads[q]
            } implies s < t by {
            if q < init.len() {
                assert(init[p] == leads[p] && init[q] == leads[q]);
                if s < head.len() && t < head.len() {
                    assert(all[s] == head[s] && all[t] == head[t]);
                }
            }
        }
        assert forall|s: int, t: int|
            {
                &&& 0 <= s < all.len()
                &&& 0 <= t < all.len()
                &&& leader(e, #[trigger] all[s]) == leader(e, #[trigger] all[t])
                &&& all[s] < all[t]
            } implies s < t by {
            if s < head.len() && t < head.len() {
                assert(all[s] == head[s] && all[t] == head[t]);
            }
        }
        assert forall|s: int, t: int| 0 <= s < all.len() && 0 <= t < all.len() && s != t implies all[s]
            != all[t] by {
            if s < head.len() && t < head.len() {
                assert(all[s] == head[s] && all[t] == head[t]);
            }
        }
    }
}

/// What the order of components is.
proof fn lemma_component_order(e: Relation, n: int)
    requires
        0 <= n,
        forall|i: int, j: int| #[trigger] e(i, j) ==> 0 <= i < n && 0 <= j < n,
    ensures
        component_order(e, n).no_duplicates(),
        forall|k: int|
            0 <= k < component_order(e, n).len() ==> ready(
                e,
                n,
                #[trigger] component_order(e, n)[k],
                component_order(e, n).take(k).to_set(),
            ),
        forall|k: int, m: int|
            0 <= k < component_order(e, n).len() && 0 <= m < component_order(e, n)[k]
                ==> !#[trigger] ready(e, n, m, component_order(e, n).take(k).to_set()),
        forall|l: int|
            0 <= l < n && leader(e, l) == l ==> #[trigger] component_order(e, n).contains(l),
{
    lemma_int_range(0, n);
    lemma_emission(e, n, Set::empty(), n as nat);
    let list = component_order(e, n);
    assert forall|k: int| 0 <= k < list.len() implies Set::<int>::empty().union(
        #[trigger] list.take(k).to_set(),
    ) == list.take(k).to_set() by {
        assert(Set::<int>::empty().union(list.take(k).to_set()) =~= list.take(k).to_set());
    }
    assert forall|k: int| 0 <= k < list.len() implies ready(
        e,
        n,
        #[trigger] list[k],
        list.take(k).to_set(),
    ) by {
        assert(Set::<int>::empty().union(list.take(k).to_set()) == list.take(k).to_set());
    }
    assert forall|k: int, m: int| 0 <= k < list.len() && 0 <= m < list[k] implies !#[trigger] ready(
        e,
        n,
        m,
        list.take(k).to_set(),
    ) by {
        assert(Set::<int>::empty().union(list.take(k).to_set()) == list.take(k).to_set());
    }
    assert forall|a: int, b: int| 0 <= a < list.len() && 0 <= b < list.len() && a != b implies list[a]
        != list[b] by {
        if a < b {
            assert(list.take(b)[a] == list[a]);
            assert(ready(e, n, list[b], list.take(b).to_set()));
        } else {
            assert(list.take(a)[b] == list[b]);
            assert(ready(e, n, list[a], list.take(a).to_set()));
        }
    }
}

/// The order holds every node exactly once.
pub proof fn order_is_a_permutation(e: Relation, n: int)
    requires
        0 <= n,
        forall|i: int, j: int| #[trigger] e(i, j) ==> 0 <= i < n && 0 <= j < n,
    ensures
        node_order(e, n).no_duplicates(),
        forall|x: int| #[trigger] node_order(e, n).contains(x) <==> 0 <= x < n,
        node_order(e, n).len() == n,
{
    lemma_component_order(e, n);
    let leads = component_order(e, n);
    lemma_members_in(e, n, leads);
    let order = node_order(e, n);
    assert forall|x: int| #[trigger] order.contains(x) <==> 0 <= x < n by {
        if 0 <= x < n {
            lemma_leader(e, x);
            assert(leads.contains(leader(e, x)));
        }
    }
    order.unique_seq_to_set();
    lemma_int_range(0, n);
    assert(order.to_set() =~= set_int_range(0, n));
}

/// Outside a cycle, what a node depends on comes before it.
pub proof fn dependencies_come_first(e: Relation, n: int, i: int, j: int, at_i: int, at_j: int)
    requires
        0 <= n,
        forall|x: int, y: int| #[trigger] e(x, y) ==> 0 <= x < n && 0 <= y < n,
        e(i, j),
        !mutual(e, i, j),
        0 <= at_i < node_order(e, n).len(),
        0 <= at_j < node_order(e, n).len(),
        node_order(e, n)[at_i] == i,
        node_order(e, n)[at_j] == j,
    ensures
        at_j < at_i,
{
    lemma_component_order(e, n);
    let leads = component_order(e, n);
    lemma_members_in(e, n, leads);
    lemma_leader(e, i);
    lemma_leader(e, j);
    lemma_same_leader(e, i, j);
    assert(leads.contains(leader(e, i)));
    let q = choose|q: int| 0 <= q < leads.len() && leads[q] == leader(e, i);
    assert(ready(e, n, leads[q], leads.take(q).to_set()));
    assert(leads.take(q).contains(leader(e, j)));
    let p = choose|p: int| 0 <= p < leads.take(q).len() && leads.take(q)[p] == leader(e, j);
    assert(leads[p] == leader(e, j));
}

/// The members of a cycle keep their original order.
pub proof fn cycle_members_keep_their_order(
    e: Relation,
    n: int,
    i: int,
    j: int,
    at_i: int,
    at_j: int,
)
    requires
        0 <= n,
        forall|x: int, y: int| #[trigger] e(x, y) ==> 0 <= x < n && 0 <= y < n,
        0 <= i < j < n,
        mutual(e, i, j),
        0 <= at_i < node_order(e, n).len(),
        0 <= at_j < node_order(e, n).len(),
        node_order(e, n)[at_i] == i,
        node_order(e, n)[at_j] == j,
    ensures
        at_i < at_j,
{
    lemma_component_order(e, n);
    lemma_members_in(e, n, component_order(e, n));
    lemma_same_leader(e, i, j);
}

/// A node comes before every node that is behind it and behind all it depends
/// on, directly or not: nothing moves forward without a dependency.
pub proof fn unrelated_nodes_keep_their_order(
    e: Relation,
    n: int,
    i: int,
    j: int,
    at_i: int,
    at_j: int,
)
    requires
        0 <= n,
        forall|x: int, y: int| #[trigger] e(x, y) ==> 0 <= x < n && 0 <= y < n,
        0 <= i < n,
        0 <= j < n,
        forall|x: int| #[trigger] reaches(e, i, x) ==> leader(e, x) < leader(e, j),
        0 <= at_i < node_order(e, n).len(),
        0 <= at_j < node_order(e, n).len(),
        node_order(e, n)[at_i] == i,
        node_order(e, n)[at_j] == j,
    ensures
        at_i < at_j,
{
    lemma_component_order(e, n);
    let leads = component_order(e, n);
    lemma_members_in(e, n, leads);
    lemma_leader(e, i);
    lemma_leader(e, j);
    crate::graph::lemma_reaches_self(e, i);
    assert(leads.contains(leader(e, i)));
    assert(leads.contains(leader(e, j)));
    let p = choose|p: int| 0 <= p < leads.len() && leads[p] == leader(e, i);
    let q = choose|q: int| 0 <= q < leads.len() && leads[q] == leader(e, j);
    let done = leads.take(q).to_set();
    assert(ready(e, n, leads[q], done));
    if q < p {
        if done.contains(leader(e, i)) {
            let a = choose|a: int| 0 <= a < leads.take(q).len() && leads.take(q)[a] == leader(e, i);
            assert(leads[a] == leads[p]);
            assert(false);
        }
        let r = lemma_some_ready(e, n, done, leader(e, i));
        lemma_reaches_trans(e, i, leader(e, i), r);
        assert(!ready(e, n, r, leads.take(q).to_set()));
        assert(false);
    }
}

/// A node in its place, with what it waits for.
#[derive(Debug)]
pub struct OrderedNode {
    pub node: usize,
    /// The nodes that must have finished before this one starts.
    pub dependencies: Vec<usize>,
    /// Whether the node lies on a cycle, and so starts only when all that
    /// stands before it has finished.
    pub barrier: bool,
}

/// The nodes of a list.
pub open spec fn nodes_of(list: Seq<OrderedNode>) -> Seq<int> {
    list.map_values(|entry: OrderedNode| entry.node as int)
}

/// Whether an entry tells what its node waits for.
pub open spec fn describes(e: Relation, n: int, entry: OrderedNode) -> bool {
    &&& ints(entry.dependencies@) == frontier(e, n, entry.node as int)
    &&& entry.barrier == cyclic(e, n, entry.node as int)
}

/// The lists of a graph with every edge turned round.
fn reverse(lists: &[Vec<usize>]) -> (back: Vec<Vec<usize>>)
    requires
        well_formed(lists@),
    ensures
        well_formed(back@),
        reversed(lists@, back@),
{
    let n: usize = lists.len();
    let mut back: Vec<Vec<usize>> = Vec::new();
    let mut j: usize = 0;
    while j < n
        invariant
            n == lists@.len(),
            j <= n,
            back@.len() == j,
            forall|a: int, k: int| 0 <= a < j && 0 <= k < back@[a]@.len() ==> (#[trigger] back@[a]@[k]) < n,
            forall|a: int, x: int|
                0 <= a < j ==> (exists|k: int| 0 <= k < back@[a]@.len() && #[trigger] back@[a]@[k]
                    == x) == #[trigger] edges(lists@)(x, a),
        decreases n - j,
    {
        let mut marks: Vec<bool> = Vec::new();
        let mut i: usize = 0;
        while i < n
            invariant
                n == lists@.len(),
                i <= n,
                marks@.len() == i,
                forall|x: int| 0 <= x < i ==> #[trigger] marks@[x] == edges(lists@)(x, j as int),
            decreases n - i,
        {
            let found = holds(&lists[i], j);
            marks.push(found);
            i += 1;
        }
        let list = marked(marks.as_slice());
        proof {
            let p = |x: int| marks@[x];
            lemma_range_where(n as int, p);
            assert forall|x: int|
                (exists|k: int| 0 <= k < list@.len() && #[trigger] list@[k] == x) == #[trigger] edges(
                    lists@,
                )(x, j as int) by {
                if edges(lists@)(x, j as int) {
                    assert(p(x));
                    assert(ints(list@).contains(x));
                    let k = choose|k: int| 0 <= k < ints(list@).len() && ints(list@)[k] == x;
                    assert(list@[k] == x);
                }
                if exists|k: int| 0 <= k < list@.len() && #[trigger] list@[k] == x {
                    let k = choose|k: int| 0 <= k < list@.len() && #[trigger] list@[k] == x;
                    assert(ints(list@)[k] == x);
                    assert(ints(list@).contains(x));
                    assert(p(x));
                }
            }
        }
        let ghost before = back@;
        back.push(list);
        proof {
            assert forall|a: int, x: int|
                0 <= a < j + 1 implies (exists|k: int|
                0 <= k < back@[a]@.len() && #[trigger] back@[a]@[k] == x) == #[trigger] edges(lists@)(
                x,
                a,
            ) by {
                if a < j {
                    assert(back@[a] == before[a]);
                } else {
                    assert(back@[a] == list);
                }
            }
            assert forall|a: int, k: int| 0 <= a < j + 1 && 0 <= k < back@[a]@.len() implies (
            #[trigger] back@[a]@[k]) < n by {
                if a < j {
                    assert(back@[a] == before[a]);
                }
            }
        }
        j += 1;
    }
    proof {
        assert forall|i: int, j: int| #[trigger] edges(lists@)(i, j) implies edges(back@)(j, i) by {
            let k = choose|k: int| 0 <= k < lists@[i]@.len() && #[trigger] lists@[i]@[k] == j;
            assert(lists@[i]@[k] < n);
        }
        assert forall|i: int, j: int| #[trigger] edges(back@)(i, j) implies edges(lists@)(j, i) by {
        }
    }
    back
}

/// Whether a list holds a number.
fn holds(list: &Vec<usize>, x: usize) -> (found: bool)
    ensures
        found == exists|k: int| 0 <= k < list@.len() && #[trigger] list@[k] == x,
{
    let mut k: usize = 0;
    while k < list.len()
        invariant
            k <= list@.len(),
            forall|q: int| 0 <= q < k ==> #[trigger] list@[q] != x,
        decreases list@.len() - k,
    {
        if list[k] == x {
            return true;
        }
        k += 1;
    }
    false
}

/// The leaders of the components that are done.
spec fn done_set(components: Seq<Vec<usize>>, done: Seq<bool>) -> Set<int> {
    Set::new(
        |l: int|
            exists|c: int|
                0 <= c < components.len() && done[c] && l == #[trigger] components[c]@[0] as int,
    )
}

/// What is known of the components of a graph.
spec fn laid_out(e: Relation, n: int, components: Seq<Vec<usize>>) -> bool {
    &&& ints(firsts(components)) == leader_nodes(e, n)
    &&& forall|c: int|
        0 <= c < components.len() ==> ints((#[trigger] components[c])@) == members_of(
            e,
            n,
            components[c]@[0] as int,
        ) && components[c]@.len() > 0
}

/// The leaders of the components, and which members they have.
proof fn lemma_laid_out(e: Relation, n: int, components: Seq<Vec<usize>>)
    requires
        laid_out(e, n, components),
    ensures
        forall|c: int|
            0 <= c < components.len() ==> 0 <= (#[trigger] components[c]@[0]) < n && leader(
                e,
                components[c]@[0] as int,
            ) == components[c]@[0],
        forall|a: int, b: int|
            0 <= a < b < components.len() ==> (#[trigger] components[a]@[0]) < (
            #[trigger] components[b]@[0]),
        forall|c: int, k: int|
            0 <= c < components.len() && 0 <= k < components[c]@.len() ==> 0 <= (
            #[trigger] components[c]@[k]) < n && leader(e, components[c]@[k] as int)
                == components[c]@[0],
        forall|l: int|
            0 <= l < n && leader(e, l) == l ==> exists|c: int|
                0 <= c < components.len() && l == #[trigger] components[c]@[0],
{
    let p = |i: int| leader(e, i) == i;
    lemma_range_where(n, p);
    let heads = leader_nodes(e, n);
    assert forall|c: int| 0 <= c < components.len() implies 0 <= (#[trigger] components[c]@[0]) < n
        && leader(e, components[c]@[0] as int) == components[c]@[0] by {
        assert(ints(firsts(components))[c] == components[c]@[0]);
        assert(heads[c] == components[c]@[0]);
    }
    assert forall|a: int, b: int| 0 <= a < b < components.len() implies (#[trigger] components[a]@[0])
        < (#[trigger] components[b]@[0]) by {
        assert(ints(firsts(components))[a] == components[a]@[0]);
        assert(ints(firsts(components))[b] == components[b]@[0]);
        assert(heads[a] < heads[b]);
    }
    assert forall|c: int, k: int| 0 <= c < components.len() && 0 <= k < components[c]@.len() implies 0
        <= (#[trigger] components[c]@[k]) < n && leader(e, components[c]@[k] as int)
        == components[c]@[0] by {
        let l = components[c]@[0] as int;
        lemma_range_where(n, |i: int| leader(e, i) == l);
        assert(ints(components[c]@)[k] == components[c]@[k]);
    }
    assert forall|l: int| 0 <= l < n && leader(e, l) == l implies exists|c: int|
        0 <= c < components.len() && l == #[trigger] components[c]@[0] by {
        assert(p(l));
        assert(heads.contains(l));
        let c = choose|c: int| 0 <= c < heads.len() && heads[c] == l;
        assert(ints(firsts(components))[c] == components[c]@[0]);
    }
}

/// For every node the place of its component in the list.
fn component_places(components: &[Vec<usize>], n: usize, Ghost(e): Ghost<Relation>) -> (places: Vec<
    usize,
>)
    requires
        laid_out(e, n as int, components@),
    ensures
        places@.len() == n,
        forall|i: int|
            0 <= i < n ==> (#[trigger] places@[i]) < components@.len()
                && components@[places@[i] as int]@[0] == leader(e, i),
{
    let mut places: Vec<usize> = Vec::new();
    let mut i: usize = 0;
    while i < n
        invariant
            i <= n,
            places@.len() == i,
        decreases n - i,
    {
        places.push(components.len());
        i += 1;
    }
    proof {
        lemma_laid_out(e, n as int, components@);
    }
    let mut c: usize = 0;
    while c < components.len()
        invariant
            laid_out(e, n as int, components@),
            c <= components@.len(),
            places@.len() == n,
            forall|a: int, k: int|
                0 <= a < components@.len() && 0 <= k < components@[a]@.len() ==> 0 <= (
                #[trigger] components@[a]@[k]) < n && leader(e, components@[a]@[k] as int)
                    == components@[a]@[0],
            forall|a: int, b: int|
                0 <= a < b < components@.len() ==> (#[trigger] components@[a]@[0]) < (
                #[trigger] components@[b]@[0]),
            forall|a: int, k: int|
                0 <= a < c && 0 <= k < components@[a]@.len() ==> places@[#[trigger] components@[a]@[k] as int]
                    == a,
        decreases components@.len() - c,
    {
        let mut k: usize = 0;
        let list = &components[c];
        while k < list.len()
            invariant
                c < components@.len(),
                list@ == components@[c as int]@,
                k <= list@.len(),
                places@.len() == n,
                forall|a: int, q: int|
                    0 <= a < components@.len() && 0 <= q < components@[a]@.len() ==> 0 <= (
                    #[trigger] components@[a]@[q]) < n && leader(e, components@[a]@[q] as int)
                        == components@[a]@[0],
                forall|a: int, b: int|
                    0 <= a < b < components@.len() ==> (#[trigger] components@[a]@[0]) < (
                    #[trigger] components@[b]@[0]),
                forall|a: int, q: int|
                    0 <= a < c && 0 <= q < components@[a]@.len() ==> places@[#[trigger] components@[a]@[q] as int]
                        == a,
                forall|q: int| 0 <= q < k ==> places@[#[trigger] list@[q] as int] == c,
            decreases list@.len() - k,
        {
            let node: usize = list[k];
            assert(components@[c as int]@[k as int] == node);
            places.set(node, c);
            k += 1;
        }
        c += 1;
    }
    proof {
        assert forall|i: int| 0 <= i < n implies (#[trigger] places@[i]) < components@.len()
            && components@[places@[i] as int]@[0] == leader(e, i) by {
            lemma_leader(e, i);
            let l = leader(e, i);
            let a = choose|a: int| 0 <= a < components@.len() && l == #[trigger] components@[a]@[0];
            lemma_range_where(n as int, |x: int| leader(e, x) == l);
            assert(members_of(e, n as int, l).contains(i));
            assert(ints(components@[a]@).contains(i));
            let k = choose|k: int| 0 <= k < ints(components@[a]@).len() && ints(components@[a]@)[k] == i;
            assert(components@[a]@[k] == i);
        }
    }
    places
}

/// The place of the component that comes next, or the number of components.
fn next_component(
    lists: &[Vec<usize>],
    components: &[Vec<usize>],
    places: &[usize],
    done: &[bool],
) -> (r: usize)
    requires
        well_formed(lists@),
        laid_out(edges(lists@), lists@.len() as int, components@),
        done@.len() == components@.len(),
        places@.len() == lists@.len(),
        forall|i: int|
            0 <= i < lists@.len() ==> (#[trigger] places@[i]) < components@.len()
                && components@[places@[i] as int]@[0] == leader(edges(lists@), i),
    ensures
        r <= components@.len(),
        ({
            let next = next_ready(
                edges(lists@),
                lists@.len() as int,
                done_set(components@, done@),
                0,
            );
            if r < components@.len() {
                next == components@[r as int]@[0] && !done@[r as int]
            } else {
                next == lists@.len()
            }
        }),
{
    let ghost e = edges(lists@);
    let ghost n = lists@.len() as int;
    let ghost set = done_set(components@, done@);
    proof {
        lemma_laid_out(e, n, components@);
        lemma_next_ready(e, n, set, 0);
    }
    let mut c: usize = 0;
    while c < components.len()
        invariant
            well_formed(lists@),
            e == edges(lists@),
            n == lists@.len(),
            set == done_set(components@, done@),
            laid_out(e, n, components@),
            done@.len() == components@.len(),
            places@.len() == n,
            forall|i: int|
                0 <= i < n ==> (#[trigger] places@[i]) < components@.len()
                    && components@[places@[i] as int]@[0] == leader(e, i),
            c <= components@.len(),
            forall|a: int| 0 <= a < c ==> !ready(e, n, (#[trigger] components@[a]@[0]) as int, set),
        decreases components@.len() - c,
    {
        proof {
            lemma_laid_out(e, n, components@);
        }
        if !done[c] {
            let mut free: bool = true;
            let list = &components[c];
            let ghost l = list@[0] as int;
            let mut k: usize = 0;
            while k < list.len()
                invariant
                    well_formed(lists@),
                    e == edges(lists@),
                    n == lists@.len(),
                    set == done_set(components@, done@),
                    laid_out(e, n, components@),
                    done@.len() == components@.len(),
                    places@.len() == n,
                    forall|i: int|
                        0 <= i < n ==> (#[trigger] places@[i]) < components@.len()
                            && components@[places@[i] as int]@[0] == leader(e, i),
                    c < components@.len(),
                    list@ == components@[c as int]@,
                    l == list@[0],
                    k <= list@.len(),
                    free ==> forall|q: int, j: int|
                        0 <= q < k && #[trigger] e(list@[q] as int, j) ==> leader(e, j) == l
                            || set.contains(leader(e, j)),
                    !free ==> !ready(e, n, l, set),
                decreases list@.len() - k,
            {
                let node: usize = list[k];
                proof {
                    lemma_laid_out(e, n, components@);
                    assert(components@[c as int]@[k as int] == node);
                }
                let next = &lists[node];
                let mut q: usize = 0;
                while q < next.len()
                    invariant
                        well_formed(lists@),
                        e == edges(lists@),
                        n == lists@.len(),
                        node < n,
                        leader(e, node as int) == l,
                        next@ == lists@[node as int]@,
                        set == done_set(components@, done@),
                        laid_out(e, n, components@),
                        done@.len() == components@.len(),
                        places@.len() == n,
                        forall|i: int|
                            0 <= i < n ==> (#[trigger] places@[i]) < components@.len()
                                && components@[places@[i] as int]@[0] == leader(e, i),
                        c < components@.len(),
                        list@ == components@[c as int]@,
                        l == list@[0],
                        k < list@.len(),
                        node == list@[k as int],
                        q <= next@.len(),
                        free ==> forall|a: int, j: int|
                            0 <= a < k && #[trigger] e(list@[a] as int, j) ==> leader(e, j) == l
                                || set.contains(leader(e, j)),
                        free ==> forall|b: int|
                            0 <= b < q ==> leader(e, (#[trigger] next@[b]) as int) == l
                                || set.contains(leader(e, next@[b] as int)),
                        !free ==> !ready(e, n, l, set),
                    decreases next@.len() - q,
                {
                    let to: usize = next[q];
                    assert(lists@[node as int]@[q as int] == to);
                    assert(e(node as int, to as int));
                    let place: usize = places[to];
                    if place != c && !done[place] {
                        free = false;
                        proof {
                            lemma_laid_out(e, n, components@);
                            assert(leader(e, to as int) != l) by {
                                if place < c {
                                    assert(components@[place as int]@[0] < components@[c as int]@[0]);
                                } else {
                                    assert(components@[c as int]@[0] < components@[place as int]@[0]);
                                }
                            }
                            lemma_done_set(e, n, components@, done@, place as int);
                        }
                    } else {
                        proof {
                            if place != c {
                                lemma_done_set(e, n, components@, done@, place as int);
                            }
                        }
                    }
                    q += 1;
                }
                proof {
                    if free {
                        assert forall|a: int, j: int| 0 <= a < k + 1 && #[trigger] e(
                            list@[a] as int,
                            j,
                        ) implies leader(e, j) == l || set.contains(leader(e, j)) by {
                            if a == k {
                                let b = choose|b: int|
                                    0 <= b < lists@[node as int]@.len()
                                        && #[trigger] lists@[node as int]@[b] == j;
                                assert(next@[b] == j);
                            }
                        }
                    }
                }
                k += 1;
            }
            if free {
                proof {
                    lemma_laid_out(e, n, components@);
                    lemma_done_set(e, n, components@, done@, c as int);
                    assert forall|i: int, j: int| 0 <= i < n && leader(e, i) == l && #[trigger] e(
                        i,
                        j,
                    ) implies leader(e, j) == l || set.contains(leader(e, j)) by {
                        lemma_range_where(n, |x: int| leader(e, x) == l);
                        assert(members_of(e, n, l).contains(i));
                        assert(ints(list@).contains(i));
                        let a = choose|a: int| 0 <= a < ints(list@).len() && ints(list@)[a] == i;
                        assert(list@[a] == i);
                        assert(e(list@[a] as int, j));
                    }
                    assert(ready(e, n, l, set));
                    let next = next_ready(e, n, set, 0);
                    lemma_next_ready(e, n, set, 0);
                    if next < l {
                        assert(ready(e, n, next, set));
                        let a = choose|a: int|
                            0 <= a < components@.len() && next == #[trigger] components@[a]@[0];
                        if a < c {
                            assert(!ready(e, n, components@[a]@[0] as int, set));
                        } else if a > c {
                            assert(components@[c as int]@[0] < components@[a]@[0]);
                        }
                        assert(false);
                    }
                }
                return c;
            }
        } else {
            proof {
                lemma_done_set(e, n, components@, done@, c as int);
            }
        }
        c += 1;
    }
    proof {
        lemma_laid_out(e, n, components@);
        let next = next_ready(e, n, set, 0);
        if next < n {
            assert(ready(e, n, next, set));
            let a = choose|a: int| 0 <= a < components@.len() && next == #[trigger] components@[a]@[0];
            assert(!ready(e, n, components@[a]@[0] as int, set));
            assert(false);
        }
    }
    c
}

/// A component is done when its leader is in the set.
proof fn lemma_done_set(e: Relation, n: int, components: Seq<Vec<usize>>, done: Seq<bool>, c: int)
    requires
        laid_out(e, n, components),
        done.len() == components.len(),
        0 <= c < components.len(),
    ensures
        done_set(components, done).contains(components[c]@[0] as int) == done[c],
{
    lemma_laid_out(e, n, components);
    if done_set(components, done).contains(components[c]@[0] as int) {
        let a = choose|a: int|
            0 <= a < components.len() && done[a] && components[c]@[0] as int
                == #[trigger] components[a]@[0] as int;
        if a < c {
            assert(components[a]@[0] < components[c]@[0]);
        } else if c < a {
            assert(components[c]@[0] < components[a]@[0]);
        }
    }
}

spec fn marked_at(marks: Seq<bool>, d: int) -> bool {
    0 <= d < marks.len() && marks[d]
}

/// The entry of a node of the component at place `c`.
fn describe(
    lists: &[Vec<usize>],
    components: &[Vec<usize>],
    places: &[usize],
    c: usize,
    node: usize,
) -> (entry: OrderedNode)
    requires
        well_formed(lists@),
        laid_out(edges(lists@), lists@.len() as int, components@),
        c < components@.len(),
        node < lists@.len(),
        leader(edges(lists@), node as int) == components@[c as int]@[0],
        places@.len() == lists@.len(),
        forall|i: int|
            0 <= i < lists@.len() ==> (#[trigger] places@[i]) < components@.len()
                && components@[places@[i] as int]@[0] == leader(edges(lists@), i),
    ensures
        entry.node == node,
        describes(edges(lists@), lists@.len() as int, entry),
        forall|k: int| 0 <= k < entry.dependencies@.len() ==> (#[trigger] entry.dependencies@[k])
            < lists@.len(),
{
    let ghost e = edges(lists@);
    let n: usize = lists.len();
    let ghost l = leader(e, node as int);
    let mut marks = no_marks(n);
    let own = &lists[node];
    let mut q: usize = 0;
    while q < own.len()
        invariant
            well_formed(lists@),
            e == edges(lists@),
            n == lists@.len(),
            node < n,
            own@ == lists@[node as int]@,
            q <= own@.len(),
            marks@.len() == n,
            forall|d: int| 0 <= d < n && #[trigger] marks@[d] ==> e(node as int, d),
            forall|b: int| 0 <= b < q ==> marks@[(#[trigger] own@[b]) as int],
        decreases own@.len() - q,
    {
        let to: usize = own[q];
        assert(lists@[node as int]@[q as int] == to);
        assert(e(node as int, to as int));
        marks.set(to, true);
        q += 1;
    }
    let ghost direct = marks@;
    assert forall|d: int| #[trigger] e(node as int, d) implies direct[d] by {
        let b = choose|b: int|
            0 <= b < lists@[node as int]@.len() && #[trigger] lists@[node as int]@[b] == d;
        assert(own@[b] == d);
    }
    let members = &components[c];
    let mut k: usize = 0;
    proof {
        lemma_laid_out(e, n as int, components@);
    }
    while k < members.len()
        invariant
            well_formed(lists@),
            e == edges(lists@),
            n == lists@.len(),
            node < n,
            laid_out(e, n as int, components@),
            c < components@.len(),
            l == leader(e, node as int),
            l == components@[c as int]@[0],
            members@ == components@[c as int]@,
            places@.len() == n,
            forall|i: int|
                0 <= i < n ==> (#[trigger] places@[i]) < components@.len()
                    && components@[places@[i] as int]@[0] == leader(e, i),
            k <= members@.len(),
            marks@.len() == n,
            direct.len() == n,
            forall|d: int| 0 <= d < n && #[trigger] marks@[d] ==> waits_for(e, n as int, node as int, d),
            forall|d: int| 0 <= d < n && direct[d] ==> #[trigger] marks@[d],
            forall|a: int, j: int|
                0 <= a < k && #[trigger] e(members@[a] as int, j) && leader(e, j) != l
                    ==> marked_at(marks@, members_of(e, n as int, leader(e, j)).last()),
        decreases members@.len() - k,
    {
        let member: usize = members[k];
        proof {
            lemma_laid_out(e, n as int, components@);
            assert(components@[c as int]@[k as int] == member);
        }
        let next = &lists[member];
        let mut q: usize = 0;
        while q < next.len()
            invariant
                well_formed(lists@),
                e == edges(lists@),
                n == lists@.len(),
                node < n,
                member < n,
                leader(e, member as int) == l,
                next@ == lists@[member as int]@,
                laid_out(e, n as int, components@),
                c < components@.len(),
                l == leader(e, node as int),
                l == components@[c as int]@[0],
                members@ == components@[c as int]@,
                places@.len() == n,
                forall|i: int|
                    0 <= i < n ==> (#[trigger] places@[i]) < components@.len()
                        && components@[places@[i] as int]@[0] == leader(e, i),
                k < members@.len(),
                member == members@[k as int],
                q <= next@.len(),
                marks@.len() == n,
                direct.len() == n,
                forall|d: int|
                    0 <= d < n && #[trigger] marks@[d] ==> waits_for(e, n as int, node as int, d),
                forall|d: int| 0 <= d < n && direct[d] ==> #[trigger] marks@[d],
                forall|a: int, j: int|
                    0 <= a < k && #[trigger] e(members@[a] as int, j) && leader(e, j) != l
                        ==> marked_at(marks@, members_of(e, n as int, leader(e, j)).last()),
                forall|b: int|
                    0 <= b < q && leader(e, (#[trigger] next@[b]) as int) != l ==> marked_at(
                        marks@,
                        members_of(e, n as int, leader(e, next@[b] as int)).last(),
                    ),
            decreases next@.len() - q,
        {
            let to: usize = next[q];
            assert(lists@[member as int]@[q as int] == to);
            assert(e(member as int, to as int));
            let place: usize = places[to];
            proof {
                lemma_laid_out(e, n as int, components@);
            }
            if place != c {
                let list = &components[place];
                let last: usize = list[list.len() - 1];
                proof {
                    if place < c {
                        assert(components@[place as int]@[0] < components@[c as int]@[0]);
                    } else {
                        assert(components@[c as int]@[0] < components@[place as int]@[0]);
                    }
                    assert(leader(e, to as int) != l);
                    assert(ints(list@).last() == last);
                    assert(last == members_of(e, n as int, leader(e, to as int)).last());
                    assert(components@[place as int]@[list@.len() - 1] == last);
                    assert(waits_for(e, n as int, node as int, last as int));
                }
                marks.set(last, true);
            }
            q += 1;
        }
        proof {
            assert forall|a: int, j: int|
                0 <= a < k + 1 && #[trigger] e(members@[a] as int, j) && leader(e, j)
                    != l implies marked_at(marks@, members_of(e, n as int, leader(e, j)).last()) by {
                if a == k {
                    let b = choose|b: int|
                        0 <= b < lists@[member as int]@.len()
                            && #[trigger] lists@[member as int]@[b] == j;
                    assert(next@[b] == j);
                }
            }
        }
        k += 1;
    }
    let dependencies = marked(marks.as_slice());
    let barrier: bool = members.len() > 1;
    proof {
        let p = |x: int| marks@[x];
        let w = |d: int| waits_for(e, n as int, node as int, d);
        assert forall|d: int| 0 <= d < n implies #[trigger] p(d) == w(d) by {
            if waits_for(e, n as int, node as int, d) && !e(node as int, d) {
                let (m, j) = choose|m: int, j: int|
                    {
                        &&& 0 <= m < n
                        &&& leader(e, m) == leader(e, node as int)
                        &&& #[trigger] e(m, j)
                        &&& leader(e, j) != leader(e, node as int)
                        &&& d == members_of(e, n as int, leader(e, j)).last()
                    };
                lemma_range_where(n as int, |x: int| leader(e, x) == l);
                assert(members_of(e, n as int, l).contains(m));
                assert(ints(members@).contains(m));
                let a = choose|a: int| 0 <= a < ints(members@).len() && ints(members@)[a] == m;
                assert(members@[a] == m);
                assert(e(members@[a] as int, j));
            } else if e(node as int, d) {
                assert(direct[d]);
            }
        }
        lemma_range_same(n as int, p, w);
        assert(ints(members@) == members_of(e, n as int, l));
        assert(ints(members@).len() == members@.len());
    }
    OrderedNode { node, dependencies, barrier }
}

/// Lays the nodes of a graph out so that each follows what it depends on.
///
/// Components come in the order of their smallest members wherever the
/// dependencies leave a choice; the members of a component stay together in
/// ascending order.
#[verifier::rlimit(60)]
pub fn dependency_order(lists: &[Vec<usize>]) -> (out: Vec<OrderedNode>)
    requires
        well_formed(lists@),
    ensures
        nodes_of(out@) == node_order(edges(lists@), lists@.len() as int),
        forall|k: int|
            0 <= k < out@.len() ==> {
                &&& describes(edges(lists@), lists@.len() as int, #[trigger] out@[k])
                &&& out@[k].node < lists@.len()
                &&& forall|q: int|
                    0 <= q < out@[k].dependencies@.len() ==> (#[trigger] out@[k].dependencies@[q])
                        < lists@.len()
            },
{
    let ghost e = edges(lists@);
    let n: usize = lists.len();
    let back = reverse(lists);
    let components = strongly_connected_components(lists, back.as_slice());
    let places = component_places(components.as_slice(), n, Ghost(e));
    let mut done = no_marks(components.len());
    let mut out: Vec<OrderedNode> = Vec::new();
    let ghost mut leads: Seq<int> = Seq::empty();
    proof {
        assert(done_set(components@, done@) =~= Set::empty());
        assert(nodes_of(out@) =~= members_in(e, n as int, leads));
        assert(leads + emission(e, n as int, done_set(components@, done@), n as nat)
            =~= component_order(e, n as int));
        lemma_int_range(0, n as int);
    }
    let mut c = next_component(lists, components.as_slice(), places.as_slice(), done.as_slice());
    while c < components.len()
        invariant
            well_formed(lists@),
            e == edges(lists@),
            n == lists@.len(),
            laid_out(e, n as int, components@),
            done@.len() == components@.len(),
            places@.len() == n,
            forall|i: int|
                0 <= i < n ==> (#[trigger] places@[i]) < components@.len()
                    && components@[places@[i] as int]@[0] == leader(e, i),
            c <= components@.len(),
            ({
                let next = next_ready(e, n as int, done_set(components@, done@), 0);
                if c < components@.len() {
                    next == components@[c as int]@[0] && !done@[c as int]
                } else {
                    next == n
                }
            }),
            nodes_of(out@) == members_in(e, n as int, leads),
            leads.len() <= n,
            done_set(components@, done@).subset_of(set_int_range(0, n as int)),
            done_set(components@, done@).len() == leads.len(),
            leads + emission(
                e,
                n as int,
                done_set(components@, done@),
                (n - leads.len()) as nat,
            ) == component_order(e, n as int),
            forall|k: int|
                0 <= k < out@.len() ==> {
                    &&& describes(e, n as int, #[trigger] out@[k])
                    &&& out@[k].node < n
                    &&& forall|q: int|
                        0 <= q < out@[k].dependencies@.len() ==> (
                        #[trigger] out@[k].dependencies@[q]) < n
                },
        decreases n - leads.len(),
    {
        let ghost set = done_set(components@, done@);
        let ghost l = components@[c as int]@[0] as int;
        let ghost so_far = nodes_of(out@);
        let members = &components[c];
        proof {
            lemma_laid_out(e, n as int, components@);
        }
        let mut k: usize = 0;
        assert(nodes_of(out@) =~= so_far + ints(members@).take(0));
        while k < members.len()
            invariant
                well_formed(lists@),
                e == edges(lists@),
                n == lists@.len(),
                laid_out(e, n as int, components@),
                places@.len() == n,
                forall|i: int|
                    0 <= i < n ==> (#[trigger] places@[i]) < components@.len()
                        && components@[places@[i] as int]@[0] == leader(e, i),
                c < components@.len(),
                members@ == components@[c as int]@,
                k <= members@.len(),
                nodes_of(out@) == so_far + ints(members@).take(k as int),
                forall|k: int|
                    0 <= k < out@.len() ==> {
                        &&& describes(e, n as int, #[trigger] out@[k])
                        &&& out@[k].node < n
                        &&& forall|q: int|
                            0 <= q < out@[k].dependencies@.len() ==> (
                            #[trigger] out@[k].dependencies@[q]) < n
                    },
            decreases members@.len() - k,
        {
            proof {
                lemma_laid_out(e, n as int, components@);
                assert(components@[c as int]@[k as int] == members@[k as int]);
            }
            let entry = describe(
                lists,
                components.as_slice(),
                places.as_slice(),
                c,
                members[k],
            );
            let ghost before = nodes_of(out@);
            out.push(entry);
            proof {
                assert(nodes_of(out@) =~= before.push(members@[k as int] as int));
                assert(ints(members@).take(k + 1) =~= ints(members@).take(k as int).push(
                    members@[k as int] as int,
                ));
                assert(nodes_of(out@) =~= so_far + ints(members@).take(k + 1));
            }
            k += 1;
        }
        let ghost done0 = done@;
        done.set(c, true);
        proof {
            assert(ints(members@).take(k as int) =~= members_of(e, n as int, l));
            let next = leads.push(l);
            assert(next.drop_last() =~= leads);
            assert(nodes_of(out@) == members_in(e, n as int, next));
            lemma_done_set(e, n as int, components@, done0, c as int);
            let grown = done_set(components@, done@);
            assert(grown =~= set.insert(l)) by {
                assert forall|x: int| grown.contains(x) == set.insert(l).contains(x) by {
                    if grown.contains(x) {
                        let a = choose|a: int|
                            0 <= a < components@.len() && done@[a] && x
                                == #[trigger] components@[a]@[0] as int;
                        if a != c {
                            assert(done0[a]);
                        }
                    }
                    if set.contains(x) {
                        let a = choose|a: int|
                            0 <= a < components@.len() && done0[a] && x
                                == #[trigger] components@[a]@[0] as int;
                        assert(done@[a]);
                    }
                    if x == l {
                        assert(done@[c as int] && x == components@[c as int]@[0] as int);
                    }
                }
            }
            lemma_int_range(0, n as int);
            lemma_len_subset(set, set_int_range(0, n as int));
            lemma_len_subset(grown, set_int_range(0, n as int));
            let left = (n - leads.len()) as nat;
            assert(emission(e, n as int, set, left) == seq![l] + emission(
                e,
                n as int,
                grown,
                (left - 1) as nat,
            ));
            assert(next + emission(e, n as int, grown, (left - 1) as nat) =~= leads + (seq![l]
                + emission(e, n as int, grown, (left - 1) as nat)));
            leads = next;
        }
        c = next_component(lists, components.as_slice(), places.as_slice(), done.as_slice());
    }
    assert(leads =~= component_order(e, n as int));
    out
}

} // verus!
