//! The list of nodes: those that answered, and those that are remembered.

use vstd::prelude::*;

use crate::connection::{DiscoveredNode, Security, SecurityMode, StoredPeer};
use crate::text::{chars_of, comes_before, given, lex_less};

verus! {

/// Whether answers may be waited for that long, in milliseconds.
pub fn timeout_allowed(millis: u64) -> (r: bool)
    ensures
        r == (1 <= millis <= 60_000),
{
    1 <= millis && millis <= 60_000
}

/// A node in the list.
#[derive(Debug)]
pub struct NodeRow {
    pub node_id: String,
    pub address: String,
    pub server_name: String,
    pub reachable: bool,
    pub remembered: bool,
    pub selected: bool,
    pub security_mode: SecurityMode,
    pub supports_v2: bool,
}

/// A node in the list, its texts as sequences.
pub ghost struct Row {
    pub node_id: Seq<char>,
    pub address: Seq<char>,
    pub server_name: Seq<char>,
    pub reachable: bool,
    pub remembered: bool,
    pub selected: bool,
    pub security_mode: Security,
    pub supports_v2: bool,
}

impl View for NodeRow {
    type V = Row;

    open spec fn view(&self) -> Row {
        Row {
            node_id: self.node_id@,
            address: self.address@,
            server_name: self.server_name@,
            reachable: self.reachable,
            remembered: self.remembered,
            selected: self.selected,
            security_mode: self.security_mode@,
            supports_v2: self.supports_v2,
        }
    }
}

pub open spec fn row_views(rows: Seq<NodeRow>) -> Seq<Row> {
    rows.map_values(|r: NodeRow| r@)
}

/// The row of a node that answered.
pub open spec fn discovered_row(
    node: DiscoveredNode,
    remembered: bool,
    preferred: Option<Seq<char>>,
) -> Row {
    Row {
        node_id: node.node_id@,
        address: node.address@,
        server_name: node.server_name@,
        reachable: true,
        remembered,
        selected: preferred == Some(node.node_id@),
        security_mode: node.security_mode@,
        supports_v2: node.supports_v2,
    }
}

/// The row of a node that is only remembered.
pub open spec fn stored_row(peer: StoredPeer, preferred: Option<Seq<char>>) -> Row {
    Row {
        node_id: peer.node_id@,
        address: peer.address@,
        server_name: peer.server_name@,
        reachable: false,
        remembered: true,
        selected: preferred == Some(peer.node_id@),
        security_mode: peer.security_mode@,
        supports_v2: peer.supports_v2,
    }
}

/// Whether a node stands in the list.
pub open spec fn listed(rows: Seq<Row>, name: Seq<char>) -> bool {
    exists|i: int| 0 <= i < rows.len() && (#[trigger] rows[i]).node_id == name
}

/// A row behind those of its name and of the names before it.
pub open spec fn place(rows: Seq<Row>, row: Row) -> Seq<Row>
    decreases rows.len(),
{
    if rows.len() == 0 || !lex_less(row.node_id, rows.last().node_id) {
        rows.push(row)
    } else {
        place(rows.drop_last(), row).push(rows.last())
    }
}

/// The rows of the nodes that answered, in order.
pub open spec fn discovered_rows(
    nodes: Seq<DiscoveredNode>,
    remembered: Seq<bool>,
    preferred: Option<Seq<char>>,
) -> Seq<Row>
    decreases nodes.len(),
{
    if nodes.len() == 0 {
        Seq::empty()
    } else {
        place(
            discovered_rows(nodes.drop_last(), remembered, preferred),
            discovered_row(nodes.last(), remembered[nodes.len() - 1], preferred),
        )
    }
}

/// Those rows, with the nodes that are only remembered.
pub open spec fn all_rows(
    found: Seq<Row>,
    peers: Seq<StoredPeer>,
    preferred: Option<Seq<char>>,
) -> Seq<Row>
    decreases peers.len(),
{
    if peers.len() == 0 {
        found
    } else {
        let before = all_rows(found, peers.drop_last(), preferred);
        if listed(before, peers.last().node_id@) {
            before
        } else {
            place(before, stored_row(peers.last(), preferred))
        }
    }
}

/// Whether rows stand in the order of their names.
pub open spec fn ordered(rows: Seq<Row>) -> bool {
    forall|i: int, j: int|
        0 <= i < j < rows.len() ==> !lex_less((#[trigger] rows[j]).node_id, (
        #[trigger] rows[i]).node_id)
}

pub proof fn lemma_place(rows: Seq<Row>, row: Row)
    requires
        ordered(rows),
    ensures
        ordered(place(rows, row)),
        place(rows, row).len() == rows.len() + 1,
        place(rows, row).to_multiset() == rows.to_multiset().insert(row),
        forall|r: Row| #[trigger] place(rows, row).contains(r) <==> (rows.contains(r) || r == row),
    decreases rows.len(),
{
    broadcast use vstd::seq_lib::group_to_multiset_ensures;

    let out = place(rows, row);
    if rows.len() == 0 || !lex_less(row.node_id, rows.last().node_id) {
        assert forall|i: int, j: int| 0 <= i < j < out.len() implies !lex_less(
            (#[trigger] out[j]).node_id,
            (#[trigger] out[i]).node_id,
        ) by {
            if j == rows.len() {
                let last = rows.last().node_id;
                let mine = rows[i].node_id;
                if i < rows.len() - 1 {
                    assert(!lex_less(rows[rows.len() - 1].node_id, rows[i].node_id));
                } else {
                    crate::text::lemma_lex_total(last, last);
                }
                crate::text::lemma_lex_total(row.node_id, last);
                crate::text::lemma_lex_total(last, mine);
                crate::text::lemma_lex_total(row.node_id, mine);
                if lex_less(row.node_id, mine) {
                    if lex_less(mine, last) {
                        crate::text::lemma_lex_trans(row.node_id, mine, last);
                    }
                }
            }
        }
        assert forall|r: Row| #[trigger] out.contains(r) <==> (rows.contains(r) || r == row) by {
            if rows.contains(r) {
                let k = choose|k: int| 0 <= k < rows.len() && rows[k] == r;
                assert(out[k] == r);
            }
            assert(out[rows.len() as int] == row);
        }
    } else {
        let init = rows.drop_last();
        let inner = place(init, row);
        lemma_place(init, row);
        assert forall|i: int, j: int| 0 <= i < j < out.len() implies !lex_less(
            (#[trigger] out[j]).node_id,
            (#[trigger] out[i]).node_id,
        ) by {
            if j < inner.len() {
                assert(out[j] == inner[j] && out[i] == inner[i]);
            } else {
                assert(inner.contains(inner[i]));
                assert(out[i] == inner[i]);
                if init.contains(inner[i]) {
                    let k = choose|k: int| 0 <= k < init.len() && init[k] == inner[i];
                    assert(rows[k] == inner[i]);
                    assert(rows[rows.len() - 1] == rows.last());
                } else {
                    crate::text::lemma_lex_total(row.node_id, rows.last().node_id);
                }
            }
        }
        assert(rows =~= init.push(rows.last()));
        assert(out.to_multiset() =~= rows.to_multiset().insert(row));
        assert forall|r: Row| #[trigger] out.contains(r) <==> (rows.contains(r) || r == row) by {
            if out.contains(r) {
                let k = choose|k: int| 0 <= k < out.len() && out[k] == r;
                if k < inner.len() {
                    assert(inner[k] == r);
                    assert(inner.contains(r));
                    if init.contains(r) {
                        let m = choose|m: int| 0 <= m < init.len() && init[m] == r;
                        assert(rows[m] == r);
                    }
                } else {
                    assert(rows[rows.len() - 1] == r);
                }
            }
            if rows.contains(r) {
                let m = choose|m: int| 0 <= m < rows.len() && rows[m] == r;
                if m < init.len() {
                    assert(init[m] == r);
                    assert(init.contains(r));
                    assert(inner.contains(r));
                    let k = choose|k: int| 0 <= k < inner.len() && inner[k] == r;
                    assert(out[k] == r);
                } else {
                    assert(out[inner.len() as int] == r);
                }
            }
            if r == row {
                assert(inner.contains(row));
                let k = choose|k: int| 0 <= k < inner.len() && inner[k] == row;
                assert(out[k] == row);
            }
        }
    }
}

proof fn lemma_discovered(
    nodes: Seq<DiscoveredNode>,
    remembered: Seq<bool>,
    preferred: Option<Seq<char>>,
)
    ensures
        ordered(discovered_rows(nodes, remembered, preferred)),
        discovered_rows(nodes, remembered, preferred).len() == nodes.len(),
        forall|i: int|
            0 <= i < nodes.len() ==> discovered_rows(nodes, remembered, preferred).contains(
                #[trigger] discovered_row(nodes[i], remembered[i], preferred),
            ),
    decreases nodes.len(),
{
    if nodes.len() > 0 {
        let init = nodes.drop_last();
        lemma_discovered(init, remembered, preferred);
        let before = discovered_rows(init, remembered, preferred);
        let row = discovered_row(nodes.last(), remembered[nodes.len() - 1], preferred);
        lemma_place(before, row);
        assert forall|i: int| 0 <= i < nodes.len() implies discovered_rows(
            nodes,
            remembered,
            preferred,
        ).contains(#[trigger] discovered_row(nodes[i], remembered[i], preferred)) by {
            if i < init.len() {
                assert(init[i] == nodes[i]);
                assert(before.contains(discovered_row(init[i], remembered[i], preferred)));
            }
        }
    }
}

/// The list stands in the order of the names; every node that answered and
/// every one that is remembered stands in it.
pub proof fn every_node_is_listed(
    nodes: Seq<DiscoveredNode>,
    remembered: Seq<bool>,
    peers: Seq<StoredPeer>,
    preferred: Option<Seq<char>>,
)
    ensures
        ({
            let found = discovered_rows(nodes, remembered, preferred);
            let rows = all_rows(found, peers, preferred);
            &&& ordered(rows)
            &&& forall|i: int| 0 <= i < nodes.len() ==> listed(rows, (#[trigger] nodes[i]).node_id@)
            &&& forall|i: int| 0 <= i < peers.len() ==> listed(rows, (#[trigger] peers[i]).node_id@)
        }),
    decreases peers.len(),
{
    let found = discovered_rows(nodes, remembered, preferred);
    lemma_discovered(nodes, remembered, preferred);
    if peers.len() == 0 {
        assert forall|i: int| 0 <= i < nodes.len() implies listed(
            found,
            (#[trigger] nodes[i]).node_id@,
        ) by {
            let row = discovered_row(nodes[i], remembered[i], preferred);
            assert(found.contains(row));
            let k = choose|k: int| 0 <= k < found.len() && found[k] == row;
            assert(found[k].node_id == nodes[i].node_id@);
        }
    } else {
        let init = peers.drop_last();
        every_node_is_listed(nodes, remembered, init, preferred);
        let before = all_rows(found, init, preferred);
        let rows = all_rows(found, peers, preferred);
        let row = stored_row(peers.last(), preferred);
        if !listed(before, peers.last().node_id@) {
            lemma_place(before, row);
        }
        assert forall|name: Seq<char>| listed(before, name) implies listed(rows, name) by {
            let k = choose|k: int| 0 <= k < before.len() && (#[trigger] before[k]).node_id == name;
            assert(before.contains(before[k]));
            assert(rows.contains(before[k]));
            let m = choose|m: int| 0 <= m < rows.len() && rows[m] == before[k];
            assert(rows[m].node_id == name);
        }
        assert(listed(rows, peers.last().node_id@)) by {
            if !listed(before, peers.last().node_id@) {
                assert(rows.contains(row));
                let m = choose|m: int| 0 <= m < rows.len() && rows[m] == row;
                assert(rows[m].node_id == peers.last().node_id@);
            }
        }
        assert forall|i: int| 0 <= i < nodes.len() implies listed(
            rows,
            (#[trigger] nodes[i]).node_id@,
        ) by {
            assert(listed(before, nodes[i].node_id@));
        }
        assert forall|i: int| 0 <= i < peers.len() implies listed(
            rows,
            (#[trigger] peers[i]).node_id@,
        ) by {
            if i < init.len() {
                assert(init[i] == peers[i]);
                assert(listed(before, init[i].node_id@));
            }
        }
    }
}

fn is_listed(rows: &Vec<NodeRow>, name: &str) -> (r: bool)
    ensures
        r == listed(row_views(rows@), name@),
{
    let mut i: usize = 0;
    while i < rows.len()
        invariant
            i <= rows@.len(),
            forall|j: int| 0 <= j < i ==> (#[trigger] row_views(rows@)[j]).node_id != name@,
        decreases rows@.len() - i,
    {
        assert(row_views(rows@)[i as int] == rows@[i as int]@);
        if *rows[i].node_id.as_str() == *name {
            return true;
        }
        i += 1;
    }
    false
}

proof fn lemma_place_at(rows: Seq<Row>, row: Row, k: int)
    requires
        0 <= k <= rows.len(),
        forall|j: int| k <= j < rows.len() ==> lex_less(row.node_id, (#[trigger] rows[j]).node_id),
        k > 0 ==> !lex_less(row.node_id, rows[k - 1].node_id),
    ensures
        place(rows, row) == rows.insert(k, row),
    decreases rows.len(),
{
    if k == rows.len() {
        assert(rows.insert(k, row) =~= rows.push(row));
    } else {
        let init = rows.drop_last();
        assert(lex_less(row.node_id, rows[rows.len() - 1].node_id));
        lemma_place_at(init, row, k);
        assert(init.insert(k, row).push(rows.last()) =~= rows.insert(k, row));
    }
}

fn place_row(rows: &mut Vec<NodeRow>, row: NodeRow)
    ensures
        row_views(final(rows)@) == place(row_views(old(rows)@), row@),
{
    let ghost before = row_views(rows@);
    let mut k: usize = rows.len();
    while k > 0 && comes_before(
        chars_of(row.node_id.as_str()).as_slice(),
        chars_of(rows[k - 1].node_id.as_str()).as_slice(),
    )
        invariant
            rows@ == old(rows)@,
            before == row_views(rows@),
            k <= rows@.len(),
            forall|j: int|
                k <= j < before.len() ==> lex_less(row@.node_id, (#[trigger] before[j]).node_id),
        decreases k,
    {
        assert(before[k - 1] == rows@[k - 1]@);
        k -= 1;
    }
    proof {
        if k > 0 {
            assert(before[k - 1] == rows@[k - 1]@);
        }
        lemma_place_at(before, row@, k as int);
    }
    let ghost placed = row@;
    rows.insert(k, row);
    assert(row_views(rows@) =~= before.insert(k as int, placed));
}

fn is_preferred(preferred: Option<&str>, name: &str) -> (r: bool)
    ensures
        r == (given(preferred) == Some(name@)),
{
    match preferred {
        Some(text) => *text == *name,
        None => false,
    }
}

/// The list of nodes: those that answered, with whether each is remembered, and
/// those that are only remembered.
pub fn node_rows(
    nodes: &[DiscoveredNode],
    remembered: &[bool],
    peers: &[StoredPeer],
    preferred: Option<&str>,
) -> (out: Vec<NodeRow>)
    requires
        remembered@.len() == nodes@.len(),
    ensures
        row_views(out@) == all_rows(
            discovered_rows(nodes@, remembered@, given(preferred)),
            peers@,
            given(preferred),
        ),
{
    let ghost pref = given(preferred);
    let mut out: Vec<NodeRow> = Vec::new();
    let mut i: usize = 0;
    assert(row_views(out@) =~= discovered_rows(nodes@.take(0), remembered@, pref));
    while i < nodes.len()
        invariant
            i <= nodes@.len(),
            remembered@.len() == nodes@.len(),
            pref == given(preferred),
            row_views(out@) == discovered_rows(nodes@.take(i as int), remembered@, pref),
        decreases nodes@.len() - i,
    {
        assert(nodes@.take(i + 1).drop_last() =~= nodes@.take(i as int));
        let node = &nodes[i];
        let row = NodeRow {
            node_id: node.node_id.clone(),
            address: node.address.clone(),
            server_name: node.server_name.clone(),
            reachable: true,
            remembered: remembered[i],
            selected: is_preferred(preferred, node.node_id.as_str()),
            security_mode: node.security_mode.clone(),
            supports_v2: node.supports_v2,
        };
        assert(row@ == discovered_row(nodes@[i as int], remembered@[i as int], pref));
        place_row(&mut out, row);
        i += 1;
    }
    assert(nodes@.take(i as int) =~= nodes@);
    let ghost found = discovered_rows(nodes@, remembered@, pref);
    let mut k: usize = 0;
    assert(peers@.take(0).len() == 0);
    while k < peers.len()
        invariant
            k <= peers@.len(),
            pref == given(preferred),
            row_views(out@) == all_rows(found, peers@.take(k as int), pref),
        decreases peers@.len() - k,
    {
        assert(peers@.take(k + 1).drop_last() =~= peers@.take(k as int));
        assert(peers@.take(k + 1).last() == peers@[k as int]);
        let peer = &peers[k];
        if !is_listed(&out, peer.node_id.as_str()) {
            let row = NodeRow {
                node_id: peer.node_id.clone(),
                address: peer.address.clone(),
                server_name: peer.server_name.clone(),
                reachable: false,
                remembered: true,
                selected: is_preferred(preferred, peer.node_id.as_str()),
                security_mode: peer.security_mode.clone(),
                supports_v2: peer.supports_v2,
            };
            assert(row@ == stored_row(peers@[k as int], pref));
            place_row(&mut out, row);
        }
        k += 1;
    }
    assert(peers@.take(k as int) =~= peers@);
    out
}

} // verus!
