//! What holds of lists of nodes and of processors, and of the rights of backends.

use vstd::prelude::*;

use crate::capability::{honoured, refused, BackendAuthority, Binding, CapabilityError};
use crate::connection::{DiscoveredNode, StoredPeer};
use crate::cpu::{component_cpus, components_cpus, CpuListProblem};
use crate::node_list::{
    all_rows, discovered_row, discovered_rows, lemma_place, listed, ordered, stored_row, Row,
};
use crate::text::decimal;

verus! {

/// Whether a row is that of a node that answered.
pub open spec fn row_of_node(
    row: Row,
    node: DiscoveredNode,
    remembered: bool,
    preferred: Option<Seq<char>>,
) -> bool {
    &&& row.reachable
    &&& row.node_id == node.node_id@
    &&& row.address == node.address@
    &&& row.server_name == node.server_name@
    &&& row.security_mode == node.security_mode@
    &&& row.supports_v2 == node.supports_v2
    &&& row.remembered == remembered
    &&& row.selected <==> preferred == Some(node.node_id@)
}

/// Whether a row is that of a node that is remembered and did not answer.
pub open spec fn row_of_peer(row: Row, peer: StoredPeer, preferred: Option<Seq<char>>) -> bool {
    &&& !row.reachable
    &&& row.remembered
    &&& row.node_id == peer.node_id@
    &&& row.address == peer.address@
    &&& row.server_name == peer.server_name@
    &&& row.security_mode == peer.security_mode@
    &&& row.supports_v2 == peer.supports_v2
    &&& row.selected <==> preferred == Some(peer.node_id@)
}

proof fn lemma_found(
    nodes: Seq<DiscoveredNode>,
    remembered: Seq<bool>,
    preferred: Option<Seq<char>>,
)
    ensures
        ordered(discovered_rows(nodes, remembered, preferred)),
        discovered_rows(nodes, remembered, preferred).len() == nodes.len(),
        forall|r: Row| #[trigger]
            discovered_rows(nodes, remembered, preferred).contains(r) ==> exists|i: int|
                0 <= i < nodes.len() && row_of_node(r, #[trigger] nodes[i], remembered[i], preferred),
    decreases nodes.len(),
{
    let rows = discovered_rows(nodes, remembered, preferred);
    if nodes.len() > 0 {
        let init = nodes.drop_last();
        lemma_found(init, remembered, preferred);
        let before = discovered_rows(init, remembered, preferred);
        let row = discovered_row(nodes.last(), remembered[nodes.len() - 1], preferred);
        lemma_place(before, row);
        assert forall|r: Row| #[trigger] rows.contains(r) implies exists|i: int|
            0 <= i < nodes.len() && row_of_node(r, #[trigger] nodes[i], remembered[i], preferred) by {
            if before.contains(r) {
                let i = choose|i: int|
                    0 <= i < init.len() && row_of_node(
                        r,
                        #[trigger] init[i],
                        remembered[i],
                        preferred,
                    );
                assert(row_of_node(r, nodes[i], remembered[i], preferred));
            } else {
                assert(r == row);
                assert(row_of_node(
                    r,
                    nodes[nodes.len() - 1],
                    remembered[nodes.len() - 1],
                    preferred,
                ));
            }
        }
    }
}

/// Every row of the list is that of a node that answered, as it answered, or that of
/// one that is remembered, as it is remembered, and then no row before names it; the
/// preferred node is marked, and no other.
pub proof fn rows_say_what_is_known(
    nodes: Seq<DiscoveredNode>,
    remembered: Seq<bool>,
    peers: Seq<StoredPeer>,
    preferred: Option<Seq<char>>,
)
    ensures
        ({
            let found = discovered_rows(nodes, remembered, preferred);
            let rows = all_rows(found, peers, preferred);
            &&& ordered(rows)
            &&& forall|r: Row| #[trigger]
                rows.contains(r) ==> (exists|i: int|
                    0 <= i < nodes.len() && row_of_node(
                        r,
                        #[trigger] nodes[i],
                        remembered[i],
                        preferred,
                    )) || (exists|i: int|
                    0 <= i < peers.len() && row_of_peer(r, #[trigger] peers[i], preferred)
                        && !listed(found, peers[i].node_id@))
            &&& forall|r: Row| #[trigger] found.contains(r) ==> rows.contains(r)
            &&& nodes.len() <= rows.len() <= nodes.len() + peers.len()
        }),
    decreases peers.len(),
{
    let found = discovered_rows(nodes, remembered, preferred);
    let rows = all_rows(found, peers, preferred);
    lemma_found(nodes, remembered, preferred);
    if peers.len() > 0 {
        let init = peers.drop_last();
        rows_say_what_is_known(nodes, remembered, init, preferred);
        let before = all_rows(found, init, preferred);
        let row = stored_row(peers.last(), preferred);
        let fresh = !listed(before, peers.last().node_id@);
        if fresh {
            lemma_place(before, row);
            if listed(found, peers.last().node_id@) {
                let i = choose|i: int|
                    0 <= i < found.len() && (#[trigger] found[i]).node_id == peers.last().node_id@;
                assert(found.contains(found[i]));
                assert(before.contains(found[i]));
                let k = choose|k: int| 0 <= k < before.len() && before[k] == found[i];
                assert(before[k].node_id == peers.last().node_id@);
            }
        }
        assert forall|r: Row| #[trigger] rows.contains(r) implies (exists|i: int|
            0 <= i < nodes.len() && row_of_node(r, #[trigger] nodes[i], remembered[i], preferred))
            || (exists|i: int|
            0 <= i < peers.len() && row_of_peer(r, #[trigger] peers[i], preferred) && !listed(
                found,
                peers[i].node_id@,
            )) by {
            if before.contains(r) {
                if !(exists|i: int|
                    0 <= i < nodes.len() && row_of_node(
                        r,
                        #[trigger] nodes[i],
                        remembered[i],
                        preferred,
                    )) {
                    let i = choose|i: int|
                        0 <= i < init.len() && row_of_peer(r, #[trigger] init[i], preferred)
                            && !listed(found, init[i].node_id@);
                    assert(row_of_peer(r, peers[i], preferred));
                }
            } else {
                assert(r == row);
                assert(row_of_peer(r, peers[peers.len() - 1], preferred));
            }
        }
    }
}

/// A number in a list of processors names that one, and two numbers with a dash
/// between them name both and all that lie between, unless they are the wrong way
/// round or too far apart.
pub proof fn processors_are_named_by_number(a: u32, b: u32)
    ensures
        component_cpus(decimal(a as nat)) == Ok::<Set<u32>, CpuListProblem>(set![a]),
        a <= b && b - a <= 4096 ==> (component_cpus(
            decimal(a as nat) + "-"@ + decimal(b as nat),
        ) matches Ok(s) && forall|x: u32| #[trigger] s.contains(x) <==> a <= x <= b),
        a > b || b - a > 4096 ==> component_cpus(decimal(a as nat) + "-"@ + decimal(b as nat))
            is Err,
{
    reveal_strlit("-");
    lemma_number(a);
    lemma_number(b);
    let left = decimal(a as nat);
    let right = decimal(b as nat);
    let text = left + "-"@ + right;
    let at = left.len() as int;
    crate::text::lemma_position_from(left, 0, '-');
    assert(text[at] == '-');
    assert forall|i: int| 0 <= i < at implies #[trigger] text[i] != '-' by {
        assert(text[i] == left[i]);
    }
    crate::text::lemma_position_is(text, 0, '-', at);
    assert(text.take(at) =~= left);
    assert(text.skip(at + 1) =~= right);
}

proof fn lemma_number(n: u32)
    ensures
        crate::cpu::cpu_number(decimal(n as nat)) == Some(n),
        decimal(n as nat).len() > 0,
        forall|i: int| 0 <= i < decimal(n as nat).len() ==> #[trigger] decimal(n as nat)[i] != '-',
{
    crate::text::decimal_spells(n as nat);
    let text = decimal(n as nat);
    assert(crate::text::all_digits(text));
    assert(crate::text::is_ascii_digit(text[0]));
    assert(crate::text::is_ascii_digit(text.last()));
    crate::text_laws::lemma_trimmed(text);
    assert forall|i: int| 0 <= i < text.len() implies #[trigger] text[i] != '-' by {
        assert(crate::text::is_ascii_digit(text[i]));
    }
}

/// A list of processors names all that its parts name, and no others; a part that is
/// wrong makes the list wrong.
pub proof fn lists_name_what_their_parts_name(
    list: Seq<Seq<char>>,
    part: Seq<char>,
)
    ensures
        components_cpus(list) matches Ok(before) ==> {
            &&& part.len() == 0 ==> components_cpus(list.push(part)) == Ok::<
                Set<u32>,
                CpuListProblem,
            >(before)
            &&& part.len() > 0 ==> match component_cpus(part) {
                Ok(more) => components_cpus(list.push(part)) matches Ok(all) && forall|x: u32|
                    #[trigger]
                    all.contains(x) <==> before.contains(x) || more.contains(x),
                Err(problem) => components_cpus(list.push(part)) == Err::<
                    Set<u32>,
                    CpuListProblem,
                >(problem),
            }
        },
        components_cpus(list) is Err ==> components_cpus(list.push(part)) == components_cpus(list),
        components_cpus(Seq::empty()) == Ok::<Set<u32>, CpuListProblem>(Set::empty()),
{
    assert(list.push(part).drop_last() =~= list);
    assert(list.push(part).last() == part);
}

/// Every right has a name of its own, under which it is granted and refused.
pub proof fn rights_are_told_apart(a: BackendAuthority, b: BackendAuthority)
    ensures
        a.text() == b.text() ==> a == b,
        a.rank() == b.rank() ==> a == b,
        BackendAuthority::FileRead.text() == "fs_read"@,
        BackendAuthority::FileWrite.text() == "fs_write"@,
        BackendAuthority::Network.text() == "network"@,
        BackendAuthority::Process.text() == "process"@,
{
    reveal_strlit("fs_read");
    reveal_strlit("fs_write");
    reveal_strlit("network");
    reveal_strlit("process");
    assert("fs_read"@.len() == 7 && "fs_write"@.len() == 8);
    assert("fs_read"@[0] == 'f' && "fs_write"@[0] == 'f');
    assert("network"@[0] == 'n' && "process"@[0] == 'p');
}

/// A capability is honoured for no other language than its own, unless it is for
/// any, and for no right that it was not issued with: whoever asks for more is told
/// what is missing.
pub proof fn nothing_is_honoured_that_was_not_issued(
    table: Map<Seq<char>, Binding>,
    identity: Seq<char>,
    language: Seq<char>,
    requested: Seq<BackendAuthority>,
    i: int,
    error: CapabilityError,
)
    ensures
        !table.contains_key(identity) ==> !honoured(table, identity, language, requested),
        table.contains_key(identity) && table[identity].language != language
            && table[identity].language != "*"@ ==> !honoured(table, identity, language, requested),
        table.contains_key(identity) && 0 <= i < requested.len()
            && !table[identity].permissions.contains(requested[i]) ==> !honoured(
            table,
            identity,
            language,
            requested,
        ),
        table.contains_key(identity) && (table[identity].language == language
            || table[identity].language == "*"@) && (forall|k: int|
            0 <= k < requested.len() ==> table[identity].permissions.contains(
                #[trigger] requested[k],
            )) ==> honoured(table, identity, language, requested),
        refused(table, identity, language, requested, error) ==> (error
            matches CapabilityError::MissingRight { right, .. } ==> requested.contains(right)
            && !table[identity].permissions.contains(right)),
{
    if refused(table, identity, language, requested, error) {
        if let CapabilityError::MissingRight { right, .. } = error {
            let k = choose|k: int|
                {
                    &&& 0 <= k < requested.len()
                    &&& #[trigger] requested[k] == right
                    &&& !table[identity].permissions.contains(right)
                    &&& forall|j: int|
                        0 <= j < k ==> table[identity].permissions.contains(#[trigger] requested[j])
                };
            assert(requested[k] == right);
        }
    }
}

} // verus!
