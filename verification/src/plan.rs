//! A stable order of grouped nodes, and the waves in which they may run.
//!
//! Dependencies relate members of one group only. Each group is ordered on its
//! own and laid back into the slots its members had, so the interleaving of
//! the groups stays as it was.

use vstd::prelude::*;

use crate::graph::{
    edges, ints, lemma_range_same, lemma_range_where, mutual, range_where, reaches_in, well_formed,
    Relation,
};
use crate::order::{
    cyclic, dependencies_come_first, dependency_order, describes, frontier, node_order, nodes_of,
    order_is_a_permutation, waits_for, OrderedNode,
};

verus! {

/// The members of the group of `p`, in ascending order.
pub open spec fn group_of(keys: Seq<int>, p: int) -> Seq<int> {
    range_where(keys.len() as int, |i: int| keys[i] == keys[p])
}

/// How many members of its group stand before `p`.
pub open spec fn rank(keys: Seq<int>, p: int) -> int {
    range_where(p, |i: int| keys[i] == keys[p]).len() as int
}

/// The relation `e` between the members of a list, by their places in it.
pub open spec fn within(e: Relation, list: Seq<int>) -> Relation {
    |a: int, b: int| 0 <= a < list.len() && 0 <= b < list.len() && e(list[a], list[b])
}

/// The place in its group of the member that goes into slot `p`.
pub open spec fn local_at(keys: Seq<int>, e: Relation, p: int) -> int {
    let list = group_of(keys, p);
    node_order(within(e, list), list.len() as int)[rank(keys, p)]
}

/// The node that goes into slot `p`.
pub open spec fn node_at(keys: Seq<int>, e: Relation, p: int) -> int {
    group_of(keys, p)[local_at(keys, e, p)]
}

/// The nodes that the one in slot `p` waits for, in ascending order.
pub open spec fn frontier_at(keys: Seq<int>, e: Relation, p: int) -> Seq<int> {
    let list = group_of(keys, p);
    frontier(within(e, list), list.len() as int, local_at(keys, e, p)).map_values(
        |a: int| list[a],
    )
}

/// Whether the node in slot `p` lies on a cycle.
pub open spec fn barrier_at(keys: Seq<int>, e: Relation, p: int) -> bool {
    let list = group_of(keys, p);
    cyclic(within(e, list), list.len() as int, local_at(keys, e, p))
}

/// Prefixes of a range are ranges.
proof fn lemma_range_prefix(n: int, m: int, p: spec_fn(int) -> bool)
    requires
        0 <= m <= n,
    ensures
        range_where(m, p).len() <= range_where(n, p).len(),
        range_where(n, p).take(range_where(m, p).len() as int) == range_where(m, p),
    decreases n - m,
{
    if m < n {
        lemma_range_prefix(n - 1, m, p);
        let a = range_where(n - 1, p);
        let b = range_where(m, p);
        if p(n - 1) {
            assert(range_where(n, p).take(b.len() as int) =~= a.take(b.len() as int));
        }
    } else {
        assert(range_where(n, p).take(range_where(n, p).len() as int) =~= range_where(n, p));
    }
}

/// A node stands in its group at its rank.
pub proof fn lemma_rank(keys: Seq<int>, p: int)
    requires
        0 <= p < keys.len(),
    ensures
        0 <= rank(keys, p) < group_of(keys, p).len(),
        group_of(keys, p)[rank(keys, p)] == p,
{
    let f = |i: int| keys[i] == keys[p];
    let n = keys.len() as int;
    lemma_range_prefix(n, p + 1, f);
    lemma_range_prefix(n, p, f);
    let upto = range_where(p + 1, f);
    assert(upto == range_where(p, f).push(p));
    assert(range_where(n, f).take(upto.len() as int)[rank(keys, p)] == p);
}

/// A node at a place of a group has that place as its rank.
pub proof fn lemma_rank_of(keys: Seq<int>, p: int, a: int)
    requires
        0 <= p < keys.len(),
        0 <= a < group_of(keys, p).len(),
    ensures
        0 <= group_of(keys, p)[a] < keys.len(),
        keys[group_of(keys, p)[a]] == keys[p],
        group_of(keys, group_of(keys, p)[a]) == group_of(keys, p),
        rank(keys, group_of(keys, p)[a]) == a,
{
    let list = group_of(keys, p);
    let f = |i: int| keys[i] == keys[p];
    lemma_range_where(keys.len() as int, f);
    let q = list[a];
    assert(f(q));
    let g = |i: int| keys[i] == keys[q];
    lemma_range_same(keys.len() as int, f, g);
    lemma_rank(keys, q);
    let r = rank(keys, q);
    if r < a {
        assert(list[r] < list[a]);
    } else if a < r {
        assert(list[a] < list[r]);
    }
}

/// Whether a relation stays inside the groups.
pub open spec fn inside_groups(keys: Seq<int>, e: Relation) -> bool {
    forall|i: int, j: int| #[trigger] e(i, j) ==> 0 <= i < keys.len() && 0 <= j < keys.len() && keys[i]
        == keys[j]
}

/// What goes into the slots is a rearrangement of each group.
pub proof fn lemma_slot(keys: Seq<int>, e: Relation, p: int)
    requires
        0 <= p < keys.len(),
        inside_groups(keys, e),
    ensures
        0 <= local_at(keys, e, p) < group_of(keys, p).len(),
        0 <= node_at(keys, e, p) < keys.len(),
        keys[node_at(keys, e, p)] == keys[p],
{
    let list = group_of(keys, p);
    lemma_rank(keys, p);
    let w = within(e, list);
    order_is_a_permutation(w, list.len() as int);
    let order = node_order(w, list.len() as int);
    assert(order.contains(order[rank(keys, p)]));
    lemma_rank_of(keys, p, local_at(keys, e, p));
}

/// The slot that a node goes into.
pub open spec fn slot_of(keys: Seq<int>, e: Relation, i: int) -> int {
    let list = group_of(keys, i);
    list[node_order(within(e, list), list.len() as int).index_of(rank(keys, i))]
}

/// Every node goes into one slot of its group.
pub proof fn lemma_slot_of(keys: Seq<int>, e: Relation, i: int)
    requires
        0 <= i < keys.len(),
        inside_groups(keys, e),
    ensures
        0 <= slot_of(keys, e, i) < keys.len(),
        keys[slot_of(keys, e, i)] == keys[i],
        node_at(keys, e, slot_of(keys, e, i)) == i,
        rank(keys, slot_of(keys, e, i)) == node_order(
            within(e, group_of(keys, i)),
            group_of(keys, i).len() as int,
        ).index_of(rank(keys, i)),
{
    let list = group_of(keys, i);
    lemma_rank(keys, i);
    let w = within(e, list);
    order_is_a_permutation(w, list.len() as int);
    let order = node_order(w, list.len() as int);
    let a = rank(keys, i);
    assert(order.contains(a));
    let r = order.index_of(a);
    assert(0 <= r < order.len() && order[r] == a);
    lemma_rank_of(keys, i, r);
}

/// The slots hold every node exactly once.
pub proof fn slots_hold_every_node_once(keys: Seq<int>, e: Relation)
    requires
        inside_groups(keys, e),
    ensures
        forall|i: int|
            0 <= i < keys.len() ==> 0 <= #[trigger] slot_of(keys, e, i) < keys.len() && node_at(
                keys,
                e,
                slot_of(keys, e, i),
            ) == i,
        forall|p: int, q: int|
            0 <= p < keys.len() && 0 <= q < keys.len() && #[trigger] node_at(keys, e, p)
                == #[trigger] node_at(keys, e, q) ==> p == q,
{
    assert forall|i: int| 0 <= i < keys.len() implies 0 <= #[trigger] slot_of(keys, e, i) < keys.len()
        && node_at(keys, e, slot_of(keys, e, i)) == i by {
        lemma_slot_of(keys, e, i);
    }
    assert forall|p: int, q: int|
        0 <= p < keys.len() && 0 <= q < keys.len() && #[trigger] node_at(keys, e, p)
            == #[trigger] node_at(keys, e, q) implies p == q by {
        lemma_slot(keys, e, p);
        lemma_slot(keys, e, q);
        let list = group_of(keys, p);
        let f = |i: int| keys[i] == keys[p];
        let g = |i: int| keys[i] == keys[q];
        assert(keys[p] == keys[q]);
        lemma_range_same(keys.len() as int, f, g);
        assert(group_of(keys, q) == list);
        lemma_rank_of(keys, p, local_at(keys, e, p));
        lemma_rank_of(keys, p, local_at(keys, e, q));
        lemma_rank(keys, p);
        lemma_rank(keys, q);
        order_is_a_permutation(within(e, list), list.len() as int);
        let order = node_order(within(e, list), list.len() as int);
        assert(order[rank(keys, p)] == order[rank(keys, q)]);
    }
}

/// The nodes in the order of their slots, each with what it waits for.
#[verifier::rlimit(60)]
pub fn slot_order(keys: &[usize], lists: &[Vec<usize>]) -> (out: Vec<OrderedNode>)
    requires
        keys@.len() == lists@.len(),
        well_formed(lists@),
        inside_groups(ints(keys@), edges(lists@)),
    ensures
        out@.len() == keys@.len(),
        forall|p: int|
            0 <= p < out@.len() ==> {
                &&& (#[trigger] out@[p]).node == node_at(ints(keys@), edges(lists@), p)
                &&& ints(out@[p].dependencies@) == frontier_at(ints(keys@), edges(lists@), p)
                &&& out@[p].barrier == barrier_at(ints(keys@), edges(lists@), p)
            },
{
    let n: usize = keys.len();
    let ghost k = ints(keys@);
    let ghost e = edges(lists@);
    let mut plans: Vec<Vec<OrderedNode>> = Vec::new();
    let mut groups: Vec<Vec<usize>> = Vec::new();
    let mut firsts: Vec<usize> = Vec::new();
    let mut out: Vec<OrderedNode> = Vec::new();
    let ranks = all_ranks(keys);
    let mut p: usize = 0;
    while p < n
        invariant
            n == keys@.len(),
            n == lists@.len(),
            k == ints(keys@),
            e == edges(lists@),
            well_formed(lists@),
            inside_groups(k, e),
            ranks@.len() == n,
            forall|i: int| 0 <= i < n ==> (#[trigger] ranks@[i]) == rank(k, i),
            p <= n,
            out@.len() == p,
            plans@.len() == p,
            groups@.len() == p,
            firsts@.len() == p,
            forall|i: int|
                0 <= i < p ==> (#[trigger] firsts@[i]) <= i && k[firsts@[i] as int] == k[i],
            forall|i: int|
                0 <= i < p ==> (firsts@[i] == i ==> planned(
                    k,
                    e,
                    i,
                    (#[trigger] groups@[i])@,
                    plans@[i]@,
                )),
            forall|i: int| 0 <= i < p ==> firsts@[(#[trigger] firsts@[i]) as int] == firsts@[i],
            forall|i: int|
                0 <= i < p ==> {
                    &&& (#[trigger] out@[i]).node == node_at(k, e, i)
                    &&& ints(out@[i].dependencies@) == frontier_at(k, e, i)
                    &&& out@[i].barrier == barrier_at(k, e, i)
                },
        decreases n - p,
    {
        let mut first: usize = 0;
        while first < p && keys[first] != keys[p]
            invariant
                first <= p < n,
                n == keys@.len(),
            decreases p - first,
        {
            first += 1;
        }
        let (group, plan) = if first == p {
            plan_of_group(keys, lists, ranks.as_slice(), p)
        } else {
            (Vec::new(), Vec::new())
        };
        plans.push(plan);
        groups.push(group);
        let f: usize = if first == p {
            p
        } else {
            firsts[first]
        };
        firsts.push(f);
        assert(k[f as int] == k[p as int]);
        assert(planned(k, e, f as int, groups@[f as int]@, plans@[f as int]@));
        let r: usize = ranks[p];
        proof {
            lemma_rank(k, p as int);
            lemma_slot(k, e, p as int);
            lemma_range_same(
                n as int,
                |i: int| k[i] == k[f as int],
                |i: int| k[i] == k[p as int],
            );
            assert(group_of(k, f as int) == group_of(k, p as int));
            order_is_a_permutation(
                within(e, group_of(k, p as int)),
                group_of(k, p as int).len() as int,
            );
            assert(nodes_of(plans@[f as int]@).len() == plans@[f as int]@.len());
            assert(nodes_of(plans@[f as int]@)[r as int] == plans@[f as int]@[r as int].node);
            assert(describes(
                within(e, group_of(k, p as int)),
                group_of(k, p as int).len() as int,
                plans@[f as int]@[r as int],
            ));
        }
        let entry = &plans[f][r];
        let members = &groups[f];
        let dependencies = spread(entry.dependencies.as_slice(), members.as_slice());
        proof {
            let list = group_of(k, p as int);
            assert(ints(members@) == list);
            assert(ints(members@).len() == members@.len());
            assert(list[entry.node as int] == members@[entry.node as int]);
            assert(ints(dependencies@) =~= frontier_at(k, e, p as int)) by {
                assert forall|a: int| 0 <= a < dependencies@.len() implies ints(dependencies@)[a]
                    == frontier_at(k, e, p as int)[a] by {
                    assert(ints(entry.dependencies@)[a] == entry.dependencies@[a]);
                    assert(ints(members@)[entry.dependencies@[a] as int]
                        == members@[entry.dependencies@[a] as int]);
                }
                assert(ints(entry.dependencies@).len() == entry.dependencies@.len());
            }
        }
        out.push(OrderedNode { node: members[entry.node], dependencies, barrier: entry.barrier });
        p += 1;
    }
    out
}

/// What is known of a group that has been ordered.
spec fn planned(
    keys: Seq<int>,
    e: Relation,
    p: int,
    group: Seq<usize>,
    plan: Seq<OrderedNode>,
) -> bool {
    let list = group_of(keys, p);
    let w = within(e, list);
    &&& ints(group) == list
    &&& nodes_of(plan) == node_order(w, list.len() as int)
    &&& forall|a: int|
        0 <= a < plan.len() ==> {
            &&& describes(w, list.len() as int, #[trigger] plan[a])
            &&& plan[a].node < group.len()
            &&& forall|q: int|
                0 <= q < plan[a].dependencies@.len() ==> (#[trigger] plan[a].dependencies@[q])
                    < group.len()
        }
}

/// The members of a list at the given places.
fn spread(places: &[usize], list: &[usize]) -> (out: Vec<usize>)
    requires
        forall|a: int| 0 <= a < places@.len() ==> (#[trigger] places@[a]) < list@.len(),
    ensures
        out@.len() == places@.len(),
        forall|a: int| 0 <= a < out@.len() ==> #[trigger] out@[a] == list@[places@[a] as int],
{
    let mut out: Vec<usize> = Vec::new();
    let mut a: usize = 0;
    while a < places.len()
        invariant
            a <= places@.len(),
            out@.len() == a,
            forall|q: int| 0 <= q < places@.len() ==> (#[trigger] places@[q]) < list@.len(),
            forall|q: int| 0 <= q < a ==> #[trigger] out@[q] == list@[places@[q] as int],
        decreases places@.len() - a,
    {
        out.push(list[places[a]]);
        a += 1;
    }
    out
}

/// The rank of every node.
fn all_ranks(keys: &[usize]) -> (ranks: Vec<usize>)
    ensures
        ranks@.len() == keys@.len(),
        forall|i: int| 0 <= i < ranks@.len() ==> (#[trigger] ranks@[i]) == rank(ints(keys@), i),
{
    let ghost k = ints(keys@);
    let mut ranks: Vec<usize> = Vec::new();
    let mut p: usize = 0;
    while p < keys.len()
        invariant
            k == ints(keys@),
            p <= keys@.len(),
            ranks@.len() == p,
            forall|i: int| 0 <= i < p ==> (#[trigger] ranks@[i]) == rank(k, i),
        decreases keys@.len() - p,
    {
        let mut q: usize = p;
        // The nearest member of the group before `p`, if any.
        while q > 0 && keys[q - 1] != keys[p]
            invariant
                q <= p < keys@.len(),
                k == ints(keys@),
                forall|i: int| q <= i < p ==> k[i] != k[p as int],
            decreases q,
        {
            q -= 1;
        }
        proof {
            if q > 0 {
                lemma_range_bound(q - 1, |i: int| k[i] == k[q - 1]);
            }
        }
        let r: usize = if q == 0 {
            0
        } else {
            ranks[q - 1] + 1
        };
        proof {
            let f = |i: int| k[i] == k[p as int];
            lemma_range_gap(q as int, p as int, f);
            if q > 0 {
                let g = |i: int| k[i] == k[q - 1];
                assert(k[q - 1] == k[p as int]);
                lemma_range_same(q as int - 1, f, g);
                assert(f(q - 1));
                assert(range_where(q as int, f).len() == range_where(q - 1, f).len() + 1);
            }
        }
        ranks.push(r);
        p += 1;
    }
    ranks
}

proof fn lemma_range_gap(m: int, n: int, p: spec_fn(int) -> bool)
    requires
        0 <= m <= n,
        forall|i: int| m <= i < n ==> !#[trigger] p(i),
    ensures
        range_where(n, p) == range_where(m, p),
    decreases n - m,
{
    if m < n {
        lemma_range_gap(m, n - 1, p);
    }
}

proof fn lemma_range_bound(n: int, p: spec_fn(int) -> bool)
    requires
        0 <= n,
    ensures
        range_where(n, p).len() <= n,
    decreases n,
{
    if n > 0 {
        lemma_range_bound(n - 1, p);
    }
}

/// The members of the group of `p`, and the group ordered.
fn plan_of_group(keys: &[usize], lists: &[Vec<usize>], ranks: &[usize], p: usize) -> (r: (
    Vec<usize>,
    Vec<OrderedNode>,
))
    requires
        keys@.len() == lists@.len(),
        p < keys@.len(),
        well_formed(lists@),
        inside_groups(ints(keys@), edges(lists@)),
        ranks@.len() == keys@.len(),
        forall|i: int| 0 <= i < ranks@.len() ==> (#[trigger] ranks@[i]) == rank(ints(keys@), i),
    ensures
        planned(ints(keys@), edges(lists@), p as int, r.0@, r.1@),
{
    let n: usize = keys.len();
    let ghost k = ints(keys@);
    let ghost e = edges(lists@);
    let ghost list = group_of(k, p as int);
    let mut marks: Vec<bool> = Vec::new();
    let mut i: usize = 0;
    while i < n
        invariant
            i <= n,
            p < n,
            n == keys@.len(),
            k == ints(keys@),
            marks@.len() == i,
            forall|j: int| 0 <= j < i ==> #[trigger] marks@[j] == (k[j] == k[p as int]),
        decreases n - i,
    {
        marks.push(keys[i] == keys[p]);
        i += 1;
    }
    let group = crate::graph::marked(marks.as_slice());
    proof {
        lemma_range_same(n as int, |x: int| marks@[x], |x: int| k[x] == k[p as int]);
        assert(ints(group@).len() == group@.len());
    }
    assert(ints(group@) == list);
    let mut local: Vec<Vec<usize>> = Vec::new();
    let mut a: usize = 0;
    while a < group.len()
        invariant
            n == keys@.len(),
            n == lists@.len(),
            p < n,
            k == ints(keys@),
            e == edges(lists@),
            well_formed(lists@),
            inside_groups(k, e),
            ranks@.len() == n,
            forall|i: int| 0 <= i < n ==> (#[trigger] ranks@[i]) == rank(k, i),
            list == group_of(k, p as int),
            ints(group@) == list,
            list.len() == group@.len(),
            a <= group@.len(),
            local@.len() == a,
            forall|x: int, q: int|
                0 <= x < a && 0 <= q < local@[x]@.len() ==> (#[trigger] local@[x]@[q]) < group@.len()
                    && e(list[x], list[local@[x]@[q] as int]),
            forall|x: int, y: int|
                0 <= x < a && 0 <= y < list.len() && e(list[x], list[y]) ==> #[trigger] listed(
                    local@[x]@,
                    y,
                ),
        decreases group@.len() - a,
    {
        proof {
            lemma_rank_of(k, p as int, a as int);
            assert(list[a as int] == group@[a as int]);
        }
        let node: usize = group[a];
        let mut near: Vec<usize> = Vec::new();
        let mut q: usize = 0;
        let from = &lists[node];
        while q < from.len()
            invariant
                n == keys@.len(),
                n == lists@.len(),
                p < n,
                node < n,
                k == ints(keys@),
                e == edges(lists@),
                well_formed(lists@),
                inside_groups(k, e),
                ranks@.len() == n,
                forall|i: int| 0 <= i < n ==> (#[trigger] ranks@[i]) == rank(k, i),
                list == group_of(k, p as int),
                list.len() == group@.len(),
                k[node as int] == k[p as int],
                group_of(k, node as int) == list,
                from@ == lists@[node as int]@,
                q <= from@.len(),
                near@.len() == q,
                forall|x: int|
                    0 <= x < q ==> (#[trigger] near@[x]) < list.len() && list[near@[x] as int]
                        == from@[x],
            decreases from@.len() - q,
        {
            let to: usize = from[q];
            proof {
                assert(lists@[node as int]@[q as int] == to);
                assert(e(node as int, to as int));
                lemma_rank(k, to as int);
                lemma_range_same(
                    n as int,
                    |i: int| k[i] == k[to as int],
                    |i: int| k[i] == k[p as int],
                );
                assert(group_of(k, to as int) == list);
            }
            near.push(ranks[to]);
            q += 1;
        }
        proof {
            assert forall|q: int| 0 <= q < near@.len() implies e(
                list[a as int],
                list[(#[trigger] near@[q]) as int],
            ) by {
                assert(lists@[node as int]@[q] == from@[q]);
            }
            assert forall|y: int| 0 <= y < list.len() && e(list[a as int], list[y]) implies #[trigger] listed(
                near@,
                y,
            ) by {
                let q = choose|q: int|
                    0 <= q < lists@[node as int]@.len() && #[trigger] lists@[node as int]@[q]
                        == list[y];
                assert(list[near@[q] as int] == list[y]);
                lemma_range_where(n as int, |i: int| k[i] == k[p as int]);
                if near@[q] < y {
                    assert(list[near@[q] as int] < list[y]);
                } else if y < near@[q] {
                    assert(list[y] < list[near@[q] as int]);
                }
                assert(near@[q] == y);
            }
        }
        let ghost before = local@;
        let ghost added = near@;
        local.push(near);
        proof {
            assert forall|x: int, q: int|
                0 <= x < a + 1 && 0 <= q < local@[x]@.len() implies (#[trigger] local@[x]@[q])
                < group@.len() && e(list[x], list[local@[x]@[q] as int]) by {
                if x < a {
                    assert(local@[x] == before[x]);
                } else {
                    assert(local@[x]@ == added);
                }
            }
            assert forall|x: int, y: int|
                0 <= x < a + 1 && 0 <= y < list.len() && e(list[x], list[y]) implies #[trigger] listed(
                local@[x]@,
                y,
            ) by {
                if x < a {
                    assert(local@[x] == before[x]);
                    assert(listed(before[x]@, y));
                } else {
                    assert(local@[x]@ == added);
                    assert(listed(added, y));
                }
            }
        }
        a += 1;
    }
    proof {
        let w = within(e, list);
        assert forall|x: int, y: int| #[trigger] edges(local@)(x, y) == w(x, y) by {
            if w(x, y) {
                assert(listed(local@[x]@, y));
            }
        }
        assert(edges(local@) =~= w);
    }
    let plan = dependency_order(local.as_slice());
    (group, plan)
}

/// Whether a list of places names `y`.
spec fn listed(list: Seq<usize>, y: int) -> bool {
    exists|k: int| 0 <= k < list.len() && #[trigger] list[k] == y
}

/// A node in its slot, with what it waits for.
pub ghost struct Step {
    pub node: int,
    pub dependencies: Seq<int>,
    pub barrier: bool,
}

/// The steps of a plan.
pub open spec fn steps(keys: Seq<int>, e: Relation) -> Seq<Step> {
    Seq::new(
        keys.len(),
        |p: int|
            Step {
                node: node_at(keys, e, p),
                dependencies: frontier_at(keys, e, p),
                barrier: barrier_at(keys, e, p),
            },
    )
}

/// The steps that a list of ordered nodes describes.
pub open spec fn steps_of(list: Seq<OrderedNode>) -> Seq<Step> {
    list.map_values(
        |entry: OrderedNode|
            Step {
                node: entry.node as int,
                dependencies: ints(entry.dependencies@),
                barrier: entry.barrier,
            },
    )
}

/// Steps under other names: two nodes that share a name are waited for as one.
pub open spec fn named(steps: Seq<Step>, name: spec_fn(int) -> int) -> Seq<Step> {
    steps.map_values(
        |step: Step|
            Step {
                node: name(step.node),
                dependencies: step.dependencies.map_values(name),
                barrier: step.barrier,
            },
    )
}

/// The last of the first `k` steps that is about node `d`, or -1.
pub open spec fn seen_at(steps: Seq<Step>, k: int, d: int) -> int
    decreases k,
{
    if k <= 0 {
        -1
    } else if steps[k - 1].node == d {
        k - 1
    } else {
        seen_at(steps, k - 1, d)
    }
}

pub open spec fn larger(a: int, b: int) -> int {
    if a < b {
        b
    } else {
        a
    }
}

/// The wave after the latest of the first `m` dependencies of step `k` that
/// stand before it, or 0.
pub open spec fn wait(steps: Seq<Step>, k: int, m: int) -> int
    decreases k, 0int, m,
{
    if m <= 0 {
        0
    } else {
        let q = seen_at(steps, k, steps[k].dependencies[m - 1]);
        if 0 <= q < k {
            larger(wait(steps, k, m - 1), wave(steps, q) + 1)
        } else {
            wait(steps, k, m - 1)
        }
    }
}

/// The wave of step `k`: not before the wave of the step in front of it, after
/// the waves of what it waits for, and a wave of its own behind a barrier.
pub open spec fn wave(steps: Seq<Step>, k: int) -> int
    decreases k, 1int, 0int,
{
    if k < 0 {
        0
    } else {
        let waited = wait(steps, k, steps[k].dependencies.len() as int);
        if k == 0 {
            waited
        } else if steps[k].barrier {
            larger(waited, wave(steps, k - 1) + 1)
        } else {
            larger(waited, wave(steps, k - 1))
        }
    }
}

proof fn lemma_seen_at(steps: Seq<Step>, k: int, d: int)
    requires
        0 <= k <= steps.len(),
    ensures
        -1 <= seen_at(steps, k, d) < k || k == 0,
        seen_at(steps, k, d) >= 0 ==> steps[seen_at(steps, k, d)].node == d,
        forall|q: int| seen_at(steps, k, d) < q < k ==> (#[trigger] steps[q]).node != d,
    decreases k,
{
    if k > 0 && steps[k - 1].node != d {
        lemma_seen_at(steps, k - 1, d);
    }
}

/// A wave number is at most the number of steps before it.
proof fn lemma_wave_bound(steps: Seq<Step>, k: int)
    ensures
        0 <= wave(steps, k),
        k >= 0 ==> wave(steps, k) <= k,
    decreases k, 1int, 0int,
{
    if k >= 0 {
        lemma_wait_bound(steps, k, steps[k].dependencies.len() as int);
        if k > 0 {
            lemma_wave_bound(steps, k - 1);
        }
    }
}

proof fn lemma_wait_bound(steps: Seq<Step>, k: int, m: int)
    requires
        k >= 0,
    ensures
        0 <= wait(steps, k, m) <= k,
    decreases k, 0int, m,
{
    if m > 0 {
        lemma_wait_bound(steps, k, m - 1);
        let q = seen_at(steps, k, steps[k].dependencies[m - 1]);
        if 0 <= q < k {
            lemma_wave_bound(steps, q);
        }
    }
}

/// Waves never go back.
pub proof fn waves_are_monotone(steps: Seq<Step>, a: int, b: int)
    requires
        0 <= a <= b,
    ensures
        wave(steps, a) <= wave(steps, b),
    decreases b - a,
{
    if a < b {
        waves_are_monotone(steps, a, b - 1);
    }
}

/// A step on a cycle starts a wave of its own.
pub proof fn barriers_start_a_wave(steps: Seq<Step>, k: int)
    requires
        0 < k < steps.len(),
        steps[k].barrier,
    ensures
        wave(steps, k - 1) < wave(steps, k),
{
}

/// A step runs in a later wave than the steps it waits for that stand before
/// it.
pub proof fn steps_wait_for_their_dependencies(steps: Seq<Step>, k: int, q: int)
    requires
        0 <= q < k < steps.len(),
        steps[k].dependencies.contains(steps[q].node),
    ensures
        wave(steps, q) < wave(steps, k),
{
    let d = steps[q].node;
    let deps = steps[k].dependencies;
    let at = choose|at: int| 0 <= at < deps.len() && deps[at] == d;
    lemma_seen_at(steps, k, d);
    if seen_at(steps, k, d) < q {
        assert(steps[q].node != d);
    }
    waves_are_monotone(steps, q, seen_at(steps, k, d));
    lemma_wait_covers(steps, k, deps.len() as int, at);
}

proof fn lemma_wait_covers(steps: Seq<Step>, k: int, m: int, at: int)
    requires
        0 <= at < m <= steps[k].dependencies.len(),
        0 <= seen_at(steps, k, steps[k].dependencies[at]) < k,
    ensures
        wait(steps, k, m) >= wave(steps, seen_at(steps, k, steps[k].dependencies[at])) + 1,
    decreases m,
{
    if at < m - 1 {
        lemma_wait_covers(steps, k, m - 1, at);
    }
}

/// A path between members of a list is a path between what they stand for.
proof fn lemma_within_reaches(e: Relation, list: Seq<int>, a: int, b: int, k: nat)
    requires
        reaches_in(within(e, list), a, b, k),
    ensures
        reaches_in(e, list[a], list[b], k),
    decreases k,
{
    if k > 0 {
        let w = within(e, list);
        let m = choose|m: int| #[trigger] w(a, m) && reaches_in(w, m, b, (k - 1) as nat);
        lemma_within_reaches(e, list, m, b, (k - 1) as nat);
        assert(e(list[a], list[m]));
    }
}

/// Outside a cycle, what a node depends on has a slot before it and runs in an
/// earlier wave, whatever names the nodes have.
pub proof fn dependencies_run_first(
    keys: Seq<int>,
    e: Relation,
    name: spec_fn(int) -> int,
    i: int,
    j: int,
)
    requires
        inside_groups(keys, e),
        e(i, j),
        !mutual(e, i, j),
    ensures
        slot_of(keys, e, j) < slot_of(keys, e, i),
        wave(named(steps(keys, e), name), slot_of(keys, e, j)) < wave(
            named(steps(keys, e), name),
            slot_of(keys, e, i),
        ),
{
    let list = group_of(keys, i);
    let w = within(e, list);
    let n = list.len() as int;
    lemma_range_same(
        keys.len() as int,
        |x: int| keys[x] == keys[j],
        |x: int| keys[x] == keys[i],
    );
    assert(group_of(keys, j) == list);
    lemma_rank(keys, i);
    lemma_rank(keys, j);
    let a = rank(keys, i);
    let b = rank(keys, j);
    assert(w(a, b));
    if mutual(w, a, b) {
        let there = choose|k: nat| reaches_in(w, a, b, k);
        let back = choose|k: nat| reaches_in(w, b, a, k);
        lemma_within_reaches(e, list, a, b, there);
        lemma_within_reaches(e, list, b, a, back);
        assert(false);
    }
    lemma_slot_of(keys, e, i);
    lemma_slot_of(keys, e, j);
    order_is_a_permutation(w, n);
    let order = node_order(w, n);
    assert(order.contains(a) && order.contains(b));
    let at_a = order.index_of(a);
    let at_b = order.index_of(b);
    dependencies_come_first(w, n, a, b, at_a, at_b);
    let p = slot_of(keys, e, i);
    let q = slot_of(keys, e, j);
    lemma_range_where(keys.len() as int, |x: int| keys[x] == keys[i]);
    assert(list[at_b] < list[at_a]);
    assert(q < p);
    let all = steps(keys, e);
    slots_hold_every_node_once(keys, e);
    lemma_range_same(
        keys.len() as int,
        |x: int| keys[x] == keys[p],
        |x: int| keys[x] == keys[i],
    );
    assert(group_of(keys, p) == list);
    assert(local_at(keys, e, p) == a);
    assert(waits_for(w, n, a, b));
    lemma_range_where(n, |d: int| waits_for(w, n, a, d));
    assert(frontier(w, n, a).contains(b));
    let at = choose|at: int| 0 <= at < frontier(w, n, a).len() && frontier(w, n, a)[at] == b;
    assert(all[p].dependencies[at] == j);
    let shown = named(all, name);
    assert(all[q].node == j);
    assert(shown[p].dependencies[at] == name(j));
    assert(shown[q].node == name(j));
    assert(shown[p].dependencies.contains(shown[q].node));
    steps_wait_for_their_dependencies(shown, p, q);
}

/// The waves in which ordered nodes may run.
pub fn assign_waves(list: &[OrderedNode]) -> (waves: Vec<usize>)
    requires
        forall|k: int| 0 <= k < list@.len() ==> (#[trigger] list@[k]).node < list@.len(),
        forall|k: int, m: int|
            0 <= k < list@.len() && 0 <= m < list@[k].dependencies@.len() ==> (
            #[trigger] list@[k].dependencies@[m]) < list@.len(),
    ensures
        waves@.len() == list@.len(),
        forall|k: int| 0 <= k < waves@.len() ==> (#[trigger] waves@[k]) == wave(steps_of(list@), k),
{
    let ghost all = steps_of(list@);
    let n: usize = list.len();
    let mut known: Vec<Option<usize>> = Vec::new();
    let mut i: usize = 0;
    while i < n
        invariant
            i <= n,
            known@.len() == i,
            forall|d: int| 0 <= d < i ==> #[trigger] known@[d] is None,
        decreases n - i,
    {
        known.push(None);
        i += 1;
    }
    let mut waves: Vec<usize> = Vec::new();
    let mut current: usize = 0;
    let mut k: usize = 0;
    while k < n
        invariant
            n == list@.len(),
            all == steps_of(list@),
            forall|k: int| 0 <= k < n ==> (#[trigger] list@[k]).node < n,
            forall|k: int, m: int|
                0 <= k < n && 0 <= m < list@[k].dependencies@.len() ==> (
                #[trigger] list@[k].dependencies@[m]) < n,
            k <= n,
            waves@.len() == k,
            known@.len() == n,
            k > 0 ==> current == wave(all, k - 1),
            k == 0 ==> current == 0,
            forall|q: int| 0 <= q < k ==> (#[trigger] waves@[q]) == wave(all, q),
            forall|d: int|
                0 <= d < n ==> match #[trigger] known@[d] {
                    None => seen_at(all, k as int, d) == -1,
                    Some(w) => 0 <= seen_at(all, k as int, d) < k && w == wave(
                        all,
                        seen_at(all, k as int, d),
                    ),
                },
        decreases n - k,
    {
        let entry = &list[k];
        let deps = &entry.dependencies;
        let mut waited: usize = 0;
        let mut m: usize = 0;
        assert(all[k as int].dependencies == ints(deps@));
        assert(all[k as int].dependencies.len() == deps@.len());
        while m < deps.len()
            invariant
                n == list@.len(),
                all == steps_of(list@),
                k < n,
                deps@ == list@[k as int].dependencies@,
                all[k as int].dependencies == ints(deps@),
                all[k as int].dependencies.len() == deps@.len(),
                forall|k: int, m: int|
                    0 <= k < n && 0 <= m < list@[k].dependencies@.len() ==> (
                    #[trigger] list@[k].dependencies@[m]) < n,
                known@.len() == n,
                forall|d: int|
                    0 <= d < n ==> match #[trigger] known@[d] {
                        None => seen_at(all, k as int, d) == -1,
                        Some(w) => 0 <= seen_at(all, k as int, d) < k && w == wave(
                            all,
                            seen_at(all, k as int, d),
                        ),
                    },
                m <= deps@.len(),
                waited == wait(all, k as int, m as int),
            decreases deps@.len() - m,
        {
            let d: usize = deps[m];
            assert(list@[k as int].dependencies@[m as int] == d);
            assert(all[k as int].dependencies[m as int] == d);
            if let Some(w) = known[d] {
                proof {
                    lemma_wave_bound(all, seen_at(all, k as int, d as int));
                }
                if waited < w + 1 {
                    waited = w + 1;
                }
            }
            m += 1;
        }
        let mut next: usize = waited;
        if k > 0 {
            proof {
                lemma_wave_bound(all, k - 1);
            }
            let floor: usize = if entry.barrier {
                current + 1
            } else {
                current
            };
            if next < floor {
                next = floor;
            }
        }
        assert(next == wave(all, k as int));
        current = next;
        waves.push(next);
        known.set(entry.node, Some(next));
        assert(all[k as int].node == entry.node);
        k += 1;
    }
    waves
}

} // verus!
