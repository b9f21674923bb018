//! The order of places in a tree: by their components, each of them by its
//! characters. A directory comes before what it holds, and what it holds before
//! the next name beside it.

use vstd::prelude::*;

use crate::text::{
    comes_before, eq_chars, lemma_lex_total, lemma_lex_trans, lex_less, texts,
};

verus! {

/// Whether one place comes before another.
pub open spec fn place_less(a: Seq<Seq<char>>, b: Seq<Seq<char>>) -> bool
    decreases a.len(),
{
    if b.len() == 0 {
        false
    } else if a.len() == 0 {
        true
    } else if a[0] != b[0] {
        lex_less(a[0], b[0])
    } else {
        place_less(a.skip(1), b.skip(1))
    }
}

proof fn lemma_place_total(a: Seq<Seq<char>>, b: Seq<Seq<char>>)
    ensures
        a == b || place_less(a, b) || place_less(b, a),
        !(place_less(a, b) && place_less(b, a)),
    decreases a.len(),
{
    if a.len() > 0 && b.len() > 0 {
        lemma_lex_total(a[0], b[0]);
        if a[0] == b[0] {
            lemma_place_total(a.skip(1), b.skip(1));
            if a.skip(1) == b.skip(1) {
                assert(a =~= seq![a[0]] + a.skip(1));
                assert(b =~= seq![b[0]] + b.skip(1));
            }
        }
    } else if a.len() == 0 && b.len() == 0 {
        assert(a =~= b);
    }
}

proof fn lemma_place_trans(a: Seq<Seq<char>>, b: Seq<Seq<char>>, c: Seq<Seq<char>>)
    requires
        place_less(a, b),
        place_less(b, c),
    ensures
        place_less(a, c),
    decreases a.len(),
{
    if a.len() > 0 {
        if a[0] == b[0] && b[0] == c[0] {
            lemma_place_trans(a.skip(1), b.skip(1), c.skip(1));
        } else if a[0] != b[0] && b[0] != c[0] {
            lemma_lex_trans(a[0], b[0], c[0]);
            lemma_lex_total(a[0], c[0]);
        }
    }
}

/// What is not after a place that is not after a third is not after it either.
proof fn lemma_not_after(a: Seq<Seq<char>>, b: Seq<Seq<char>>, c: Seq<Seq<char>>)
    requires
        !place_less(b, a),
        !place_less(c, b),
    ensures
        !place_less(c, a),
{
    lemma_place_total(a, b);
    lemma_place_total(b, c);
    if place_less(c, a) && a != b {
        lemma_place_trans(c, a, b);
    }
}

/// Where a place belongs in an order of others: behind all that are not after
/// it.
pub open spec fn slot_for(order: Seq<int>, keys: Seq<Seq<Seq<char>>>, i: int) -> int
    decreases order.len(),
{
    if order.len() == 0 || !place_less(keys[i], keys[order.last()]) {
        order.len() as int
    } else {
        slot_for(order.drop_last(), keys, i)
    }
}

/// The order of the first `n` of some places.
pub open spec fn order_upto(keys: Seq<Seq<Seq<char>>>, n: nat) -> Seq<int>
    decreases n,
{
    if n == 0 {
        Seq::empty()
    } else {
        let before = order_upto(keys, (n - 1) as nat);
        before.insert(slot_for(before, keys, n - 1), n - 1)
    }
}

/// The order of some places: those that are the same keep theirs.
pub open spec fn order_of(keys: Seq<Seq<Seq<char>>>) -> Seq<int> {
    order_upto(keys, keys.len())
}

proof fn lemma_slot_for(order: Seq<int>, keys: Seq<Seq<Seq<char>>>, i: int)
    ensures
        0 <= slot_for(order, keys, i) <= order.len(),
        slot_for(order, keys, i) > 0 ==> !place_less(
            keys[i],
            keys[order[slot_for(order, keys, i) - 1]],
        ),
        forall|j: int|
            slot_for(order, keys, i) <= j < order.len() ==> place_less(
                keys[i],
                keys[#[trigger] order[j]],
            ),
    decreases order.len(),
{
    if order.len() > 0 && place_less(keys[i], keys[order.last()]) {
        let init = order.drop_last();
        lemma_slot_for(init, keys, i);
        let s = slot_for(order, keys, i);
        assert(s > 0 ==> init[s - 1] == order[s - 1]);
        assert forall|j: int| s <= j < order.len() implies place_less(
            keys[i],
            keys[#[trigger] order[j]],
        ) by {
            if j < init.len() {
                assert(init[j] == order[j]);
            }
        }
    }
}

/// Whether an order names each of the first `n` places, and each once.
pub open spec fn covers(order: Seq<int>, n: int) -> bool {
    &&& order.len() == n
    &&& forall|k: int| 0 <= k < order.len() ==> 0 <= #[trigger] order[k] < n
    &&& order.no_duplicates()
}

/// Whether places stand in order.
pub open spec fn in_order(order: Seq<int>, keys: Seq<Seq<Seq<char>>>) -> bool {
    forall|a: int, b: int|
        0 <= a < b < order.len() ==> !place_less(keys[#[trigger] order[b]], keys[#[trigger] order[a]])
}

proof fn lemma_inserted(order: Seq<int>, keys: Seq<Seq<Seq<char>>>, n: int)
    requires
        covers(order, n),
        in_order(order, keys),
    ensures
        covers(order.insert(slot_for(order, keys, n), n), n + 1),
        in_order(order.insert(slot_for(order, keys, n), n), keys),
{
    let s = slot_for(order, keys, n);
    let next = order.insert(s, n);
    lemma_slot_for(order, keys, n);
    let old_at = |k: int| if k < s { k } else { k - 1 };
    assert forall|k: int| 0 <= k < next.len() && k != s implies #[trigger] next[k] == order[old_at(k)] by {}
    assert(next[s] == n);
    assert(next.no_duplicates()) by {
        assert forall|a: int, b: int|
            0 <= a < next.len() && 0 <= b < next.len() && a != b implies next[a] != next[b] by {
            if a != s {
                assert(next[a] == order[old_at(a)]);
            }
            if b != s {
                assert(next[b] == order[old_at(b)]);
            }
        }
    }
    assert forall|k: int| 0 <= k < next.len() implies 0 <= #[trigger] next[k] < n + 1 by {
        if k != s {
            assert(next[k] == order[old_at(k)]);
        }
    }
    assert forall|a: int, b: int| 0 <= a < b < next.len() implies !place_less(
        keys[#[trigger] next[b]],
        keys[#[trigger] next[a]],
    ) by {
        if a != s && b != s {
            assert(next[a] == order[old_at(a)]);
            assert(next[b] == order[old_at(b)]);
        } else if a == s {
            assert(next[b] == order[b - 1]);
            lemma_place_total(keys[n], keys[order[b - 1]]);
        } else {
            assert(next[a] == order[a]);
            if a < s - 1 {
                assert(!place_less(keys[order[s - 1]], keys[order[a]]));
                lemma_not_after(keys[order[a]], keys[order[s - 1]], keys[n]);
            }
        }
    }
}

proof fn lemma_order_upto(keys: Seq<Seq<Seq<char>>>, n: nat)
    requires
        n <= keys.len(),
    ensures
        covers(order_upto(keys, n), n as int),
        in_order(order_upto(keys, n), keys),
    decreases n,
{
    if n > 0 {
        lemma_order_upto(keys, (n - 1) as nat);
        lemma_inserted(order_upto(keys, (n - 1) as nat), keys, n - 1);
    }
}

/// The order of some places names each of them once, and none stands before one
/// that it comes after.
pub proof fn orders_are_complete_and_ascend(keys: Seq<Seq<Seq<char>>>)
    ensures
        covers(order_of(keys), keys.len() as int),
        in_order(order_of(keys), keys),
{
    lemma_order_upto(keys, keys.len());
}

/// Whether one place comes before another.
pub fn place_before(a: &[Vec<char>], b: &[Vec<char>]) -> (r: bool)
    ensures
        r == place_less(texts(a@), texts(b@)),
{
    let ghost x = texts(a@);
    let ghost y = texts(b@);
    let mut i: usize = 0;
    assert(x.skip(0) =~= x);
    assert(y.skip(0) =~= y);
    while i < a.len() && i < b.len() && eq_chars(a[i].as_slice(), b[i].as_slice())
        invariant
            x == texts(a@),
            y == texts(b@),
            i <= a@.len(),
            i <= b@.len(),
            place_less(x, y) == place_less(x.skip(i as int), y.skip(i as int)),
        decreases a@.len() - i,
    {
        assert(x.skip(i as int)[0] == a@[i as int]@);
        assert(y.skip(i as int)[0] == b@[i as int]@);
        assert(x.skip(i as int).skip(1) =~= x.skip(i + 1));
        assert(y.skip(i as int).skip(1) =~= y.skip(i + 1));
        i += 1;
    }
    if i >= b.len() {
        return false;
    }
    if i >= a.len() {
        return true;
    }
    assert(x.skip(i as int)[0] == a@[i as int]@);
    assert(y.skip(i as int)[0] == b@[i as int]@);
    comes_before(a[i].as_slice(), b[i].as_slice())
}

/// Places that are held as lists of characters.
pub open spec fn places(list: Seq<Vec<Vec<char>>>) -> Seq<Seq<Seq<char>>> {
    list.map_values(|v: Vec<Vec<char>>| texts(v@))
}

/// Indices as integers.
pub open spec fn indices(list: Seq<usize>) -> Seq<int> {
    list.map_values(|i: usize| i as int)
}

/// The order of some places.
pub fn sorted_places(list: &Vec<Vec<Vec<char>>>) -> (out: Vec<usize>)
    ensures
        indices(out@) == order_of(places(list@)),
        forall|k: int| 0 <= k < out@.len() ==> (#[trigger] out@[k]) < list@.len(),
        out@.len() == list@.len(),
{
    let ghost keys = places(list@);
    let mut out: Vec<usize> = Vec::new();
    let mut i: usize = 0;
    assert(indices(out@) =~= order_upto(keys, 0));
    while i < list.len()
        invariant
            keys == places(list@),
            i <= list@.len(),
            out@.len() == i,
            forall|k: int| 0 <= k < out@.len() ==> (#[trigger] out@[k]) < i,
            indices(out@) == order_upto(keys, i as nat),
        decreases list@.len() - i,
    {
        let ghost before = indices(out@);
        let mut p: usize = out.len();
        assert(before.take(p as int) =~= before);
        while p > 0 && place_before(list[i].as_slice(), list[out[p - 1]].as_slice())
            invariant
                keys == places(list@),
                i < list@.len(),
                p <= out@.len(),
                out@.len() == i,
                forall|k: int| 0 <= k < out@.len() ==> (#[trigger] out@[k]) < i,
                before == indices(out@),
                slot_for(before, keys, i as int) == slot_for(before.take(p as int), keys, i as int),
            decreases p,
        {
            let ghost front = before.take(p as int);
            assert(front.last() == out@[p - 1]);
            assert(keys[i as int] == texts(list@[i as int]@));
            assert(keys[front.last()] == texts(list@[out@[p - 1] as int]@));
            assert(front.drop_last() =~= before.take(p - 1));
            p -= 1;
        }
        proof {
            let front = before.take(p as int);
            if p > 0 {
                assert(front.last() == out@[p - 1]);
                assert(keys[i as int] == texts(list@[i as int]@));
                assert(keys[front.last()] == texts(list@[out@[p - 1] as int]@));
            }
            assert(slot_for(before, keys, i as int) == p);
        }
        let ghost old_out = out@;
        out.insert(p, i);
        assert(indices(out@) =~= before.insert(p as int, i as int));
        assert forall|k: int| 0 <= k < out@.len() implies (#[trigger] out@[k]) < i + 1 by {
            if k < p {
                assert(out@[k] == old_out[k]);
            } else if k > p {
                assert(out@[k] == old_out[k - 1]);
            }
        }
        i += 1;
    }
    out
}

} // verus!
