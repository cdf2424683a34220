//! The degree-constrained random network generator.
//!
//! Nodes are created with a random degree cap, shuffled, renumbered by
//! position and then linked node by node: each node in turn is given random
//! neighbors among the nodes that still have room, until it is full or no
//! such node is left.

use crate::network::{
    adjacent, complete, kind_count, lemma_adjacency_symmetric, lemma_kind_count_bounds,
    lemma_kind_count_rearranged, lemma_kind_count_same_kinds,
    lemma_saturated_with_full_caps_is_complete, node_well_formed, saturated, well_formed, Node,
    NodeType, NodesVec,
};
use crate::random::{random_between, shuffle_nodes, thread_generator};
use rand::rngs::ThreadRng;
use vstd::prelude::*;

verus! {

/// Why a set of generator parameters is refused.
#[derive(Debug, PartialEq, Eq, Clone, Copy, Structural)]
pub enum ConfigurationError {
    /// A node count or a degree bound is negative.
    NegativeCount,
    /// More gateways are asked for than there are nodes.
    TooManyGateways,
    /// The least degree cap exceeds the greatest.
    EmptyDegreeRange,
}

/// The fault of a set of generator parameters, if it has one. A negative
/// value is reported first, then too many gateways, then an empty degree
/// range.
pub open spec fn parameter_fault(
    number_of_nodes: int,
    number_of_gateways: int,
    min_neighbors: int,
    max_neighbors: int,
) -> Option<ConfigurationError> {
    if number_of_nodes < 0 || number_of_gateways < 0 || min_neighbors < 0 || max_neighbors < 0 {
        Some(ConfigurationError::NegativeCount)
    } else if number_of_gateways > number_of_nodes {
        Some(ConfigurationError::TooManyGateways)
    } else if min_neighbors > max_neighbors {
        Some(ConfigurationError::EmptyDegreeRange)
    } else {
        None
    }
}

/// Accepts the parameters exactly when `0 <= gateways <= nodes` and
/// `0 <= min <= max`, and names the fault otherwise.
pub fn check_parameters(
    number_of_nodes: i32,
    number_of_gateways: i32,
    number_of_min_possible_neighbors: i32,
    number_of_max_possible_neighbors: i32,
) -> (checked: Result<(), ConfigurationError>)
    ensures
        checked == match parameter_fault(
            number_of_nodes as int,
            number_of_gateways as int,
            number_of_min_possible_neighbors as int,
            number_of_max_possible_neighbors as int,
        ) {
            Some(fault) => Err::<(), ConfigurationError>(fault),
            None => Ok(()),
        },
{
    if number_of_nodes < 0 || number_of_gateways < 0 || number_of_min_possible_neighbors < 0
        || number_of_max_possible_neighbors < 0 {
        Err(ConfigurationError::NegativeCount)
    } else if number_of_gateways > number_of_nodes {
        Err(ConfigurationError::TooManyGateways)
    } else if number_of_min_possible_neighbors > number_of_max_possible_neighbors {
        Err(ConfigurationError::EmptyDegreeRange)
    } else {
        Ok(())
    }
}

/// Node `k` may become a neighbor of node `i`: it is another node of the
/// network, not yet adjacent to `i`, and not full.
pub open spec fn is_candidate(g: Seq<Node>, i: int, k: int) -> bool {
    &&& 0 <= k < g.len()
    &&& k != i
    &&& !adjacent(g, i, k)
    &&& !g[k].is_full()
}

/// Node `u` needs no further neighbor: it is full, or every node it is not
/// adjacent to is full.
pub open spec fn settled(g: Seq<Node>, u: int) -> bool {
    g[u].is_full() || forall|v: int|
        0 <= v < g.len() && v != u && !#[trigger] adjacent(g, u, v) ==> g[v].is_full()
}

/// `after` has the nodes of `before` with the same identities, kinds and
/// caps, and each neighbor list of `before` is the start of the list in
/// `after`.
pub open spec fn extends(before: Seq<Node>, after: Seq<Node>) -> bool {
    &&& after.len() == before.len()
    &&& forall|x: int|
        0 <= x < before.len() ==> {
            &&& (#[trigger] after[x]).id == before[x].id
            &&& after[x].kind == before[x].kind
            &&& after[x].max_possible_neighbors == before[x].max_possible_neighbors
            &&& before[x].neighbors@.is_prefix_of(after[x].neighbors@)
        }
}

/// `after` is `before` with one edge added between the distinct nodes `i` and
/// `k`: each has the other's identity appended to its neighbor list, and
/// nothing else differs.
pub open spec fn linked(before: Seq<Node>, after: Seq<Node>, i: int, k: int) -> bool {
    &&& after.len() == before.len()
    &&& forall|x: int|
        0 <= x < before.len() ==> {
            &&& (#[trigger] after[x]).id == before[x].id
            &&& after[x].kind == before[x].kind
            &&& after[x].max_possible_neighbors == before[x].max_possible_neighbors
            &&& after[x].neighbors@ == if x == i {
                before[x].neighbors@.push(before[k].id)
            } else if x == k {
                before[x].neighbors@.push(before[i].id)
            } else {
                before[x].neighbors@
            }
        }
}

/// Sets every node's identity to its position and changes nothing else.
pub fn assign_ids(nodes: &mut NodesVec)
    ensures
        final(nodes)@.len() == old(nodes)@.len(),
        forall|x: int|
            0 <= x < old(nodes)@.len() ==> {
                &&& (#[trigger] final(nodes)@[x]).id == x
                &&& final(nodes)@[x].kind == old(nodes)@[x].kind
                &&& final(nodes)@[x].neighbors == old(nodes)@[x].neighbors
                &&& final(nodes)@[x].max_possible_neighbors == old(nodes)@[x].max_possible_neighbors
            },
{
    let ghost before = nodes@;
    let count = nodes.len();
    let mut i: usize = 0;
    while i < count
        invariant
            i <= count,
            count == before.len(),
            nodes@.len() == before.len(),
            forall|x: int|
                0 <= x < before.len() ==> {
                    &&& (#[trigger] nodes@[x]).kind == before[x].kind
                    &&& nodes@[x].neighbors == before[x].neighbors
                    &&& nodes@[x].max_possible_neighbors == before[x].max_possible_neighbors
                    &&& nodes@[x].id == if x < i {
                        x as usize
                    } else {
                        before[x].id
                    }
                },
        decreases count - i,
    {
        nodes[i].id = i;
        i += 1;
    }
}

/// Whether `node` lists `k` among its neighbors.
pub fn lists_neighbor(node: &Node, k: usize) -> (found: bool)
    ensures
        found == node.lists(k as int),
{
    let count = node.neighbors.len();
    let mut j: usize = 0;
    while j < count
        invariant
            j <= count,
            count == node.neighbors@.len(),
            forall|a: int| 0 <= a < j ==> node.neighbors@[a] != k,
        decreases count - j,
    {
        if node.neighbors[j] == k {
            return true;
        }
        j += 1;
    }
    false
}

/// The nodes that may become a neighbor of node `i`, in increasing order:
/// every other node that `i` does not list yet and that is not full.
pub fn possible_neighbors(nodes: &NodesVec, i: usize) -> (candidates: Vec<usize>)
    requires
        i < nodes@.len(),
    ensures
        forall|a: int, b: int|
            0 <= a < b < candidates@.len() ==> candidates@[a] < candidates@[b],
        forall|a: int|
            0 <= a < candidates@.len() ==> is_candidate(
                nodes@,
                i as int,
                #[trigger] candidates@[a] as int,
            ),
        forall|k: int|
            #[trigger] is_candidate(nodes@, i as int, k) ==> candidates@.contains(k as usize),
{
    let mut candidates: Vec<usize> = Vec::new();
    let count = nodes.len();
    let mut k: usize = 0;
    while k < count
        invariant
            k <= count,
            count == nodes@.len(),
            i < nodes@.len(),
            forall|a: int, b: int|
                0 <= a < b < candidates@.len() ==> candidates@[a] < candidates@[b],
            forall|a: int|
                0 <= a < candidates@.len() ==> {
                    &&& (#[trigger] candidates@[a]) < k
                    &&& is_candidate(nodes@, i as int, candidates@[a] as int)
                },
            forall|c: int|
                0 <= c < k && #[trigger] is_candidate(nodes@, i as int, c) ==> candidates@.contains(
                    c as usize,
                ),
        decreases count - k,
    {
        if k != i && !lists_neighbor(&nodes[i], k) && nodes[k].neighbors.len()
            < nodes[k].max_possible_neighbors {
            let ghost earlier = candidates@;
            candidates.push(k);
            proof {
                assert(candidates@[earlier.len() as int] == k);
                assert forall|c: int|
                    0 <= c < k + 1 && #[trigger] is_candidate(
                        nodes@,
                        i as int,
                        c,
                    ) implies candidates@.contains(c as usize) by {
                    if c < k {
                        let a = choose|a: int| 0 <= a < earlier.len() && earlier[a] == c as usize;
                        assert(candidates@[a] == c as usize);
                    }
                }
            }
        }
        k += 1;
    }
    candidates
}

/// Adds an edge between the distinct nodes at positions `i` and `k`.
pub fn connect(nodes: &mut NodesVec, i: usize, k: usize)
    requires
        i < old(nodes)@.len(),
        k < old(nodes)@.len(),
        i != k,
    ensures
        linked(old(nodes)@, final(nodes)@, i as int, k as int),
{
    let current_node_id = nodes[i].id;
    let neighbor_id = nodes[k].id;
    nodes[i].neighbors.push(neighbor_id);
    nodes[k].neighbors.push(current_node_id);
}

/// Adding an edge only extends the neighbor lists.
pub proof fn lemma_linked_extends(before: Seq<Node>, after: Seq<Node>, i: int, k: int)
    requires
        linked(before, after, i, k),
    ensures
        extends(before, after),
{
    assert forall|x: int| 0 <= x < before.len() implies before[x].neighbors@.is_prefix_of(
        (#[trigger] after[x]).neighbors@,
    ) by {
        assert(before[x].neighbors@ =~= after[x].neighbors@.subrange(
            0,
            before[x].neighbors@.len() as int,
        ));
    }
}

/// A network extends itself, and extension carries over two steps.
pub proof fn lemma_extends_chain(a: Seq<Node>, b: Seq<Node>, c: Seq<Node>)
    requires
        extends(a, b),
        extends(b, c),
    ensures
        extends(a, a),
        extends(a, c),
{
    assert forall|x: int| 0 <= x < a.len() implies a[x].neighbors@.is_prefix_of(
        (#[trigger] c[x]).neighbors@,
    ) by {
        assert(b[x].neighbors@.is_prefix_of(c[x].neighbors@));
        assert(a[x].neighbors@.is_prefix_of(b[x].neighbors@));
        assert(a[x].neighbors@ =~= c[x].neighbors@.subrange(0, a[x].neighbors@.len() as int));
    }
    assert forall|x: int| 0 <= x < a.len() implies (#[trigger] a[x]).neighbors@.is_prefix_of(
        a[x].neighbors@,
    ) by {
        assert(a[x].neighbors@ =~= a[x].neighbors@.subrange(0, a[x].neighbors@.len() as int));
    }
}

/// Extending a network keeps every adjacency.
pub proof fn lemma_extends_keeps_adjacent(before: Seq<Node>, after: Seq<Node>, u: int, v: int)
    requires
        extends(before, after),
        0 <= u < before.len(),
        adjacent(before, u, v),
    ensures
        adjacent(after, u, v),
{
    let j = choose|j: int| 0 <= j < before[u].neighbors@.len() && #[trigger] before[u].neighbors@[j] == v;
    assert(before[u].neighbors@.is_prefix_of(after[u].neighbors@));
    assert(after[u].neighbors@.subrange(0, before[u].neighbors@.len() as int)[j]
        == after[u].neighbors@[j]);
    assert(after[u].neighbors@[j] == v);
}

/// A node that needs no further neighbor still needs none after the network
/// has been extended.
pub proof fn lemma_extends_keeps_settled(before: Seq<Node>, after: Seq<Node>, u: int)
    requires
        extends(before, after),
        0 <= u < before.len(),
        settled(before, u),
    ensures
        settled(after, u),
{
    assert(before[u].neighbors@.is_prefix_of(after[u].neighbors@));
    if !before[u].is_full() {
        assert forall|v: int|
            0 <= v < after.len() && v != u && !#[trigger] adjacent(after, u, v) implies after[v].is_full() by {
            if adjacent(before, u, v) {
                lemma_extends_keeps_adjacent(before, after, u, v);
            }
            assert(before[v].is_full());
            assert(before[v].neighbors@.is_prefix_of(after[v].neighbors@));
        }
    }
}

/// Adding an edge from a node that is not full to one of its candidates keeps
/// the network well formed.
pub proof fn lemma_link_keeps_well_formed(before: Seq<Node>, after: Seq<Node>, i: int, k: int)
    requires
        well_formed(before),
        0 <= i < before.len(),
        !before[i].is_full(),
        is_candidate(before, i, k),
        linked(before, after, i, k),
    ensures
        well_formed(after),
{
    lemma_linked_extends(before, after, i, k);
    lemma_adjacency_symmetric(before, i, k);
    assert(node_well_formed(before, i));
    assert(node_well_formed(before, k));
    assert forall|x: int| 0 <= x < after.len() implies #[trigger] node_well_formed(after, x) by {
        assert(node_well_formed(before, x));
        let old_list = before[x].neighbors@;
        let new_list = after[x].neighbors@;
        assert(new_list.no_duplicates()) by {
            if x == i {
                assert forall|a: int| 0 <= a < old_list.len() implies old_list[a] != k by {
                    if old_list[a] == k {
                        assert(adjacent(before, i, k));
                    }
                }
            } else if x == k {
                assert forall|a: int| 0 <= a < old_list.len() implies old_list[a] != i by {
                    if old_list[a] == i {
                        assert(adjacent(before, k, i));
                    }
                }
            }
        }
        assert forall|j: int| 0 <= j < new_list.len() implies {
            &&& (#[trigger] new_list[j]) < after.len()
            &&& new_list[j] != x
            &&& adjacent(after, new_list[j] as int, x)
        } by {
            if j < old_list.len() {
                assert(new_list[j] == old_list[j]);
                lemma_extends_keeps_adjacent(before, after, old_list[j] as int, x);
            } else if x == i {
                assert(new_list[j] == k);
                assert(after[k].neighbors@[before[k].neighbors@.len() as int] == i);
            } else {
                assert(x == k);
                assert(new_list[j] == i);
                assert(after[i].neighbors@[before[i].neighbors@.len() as int] == k);
            }
        }
    }
}

/// What holds of every network that the generator returns for the given
/// parameters, whatever was drawn: it has the number of nodes and of gateways
/// asked for, every cap lies within the bounds, the network is well formed,
/// and no further edge could be added.
pub open spec fn generated(
    g: Seq<Node>,
    number_of_nodes: int,
    number_of_gateways: int,
    min_neighbors: int,
    max_neighbors: int,
) -> bool {
    &&& g.len() == number_of_nodes
    &&& kind_count(g, NodeType::Gateway) == number_of_gateways
    &&& forall|x: int|
        0 <= x < g.len() ==> min_neighbors <= (#[trigger] g[x]).max_possible_neighbors
            <= max_neighbors
    &&& well_formed(g)
    &&& saturated(g)
}

/// No node has a neighbor yet and every cap lies within the bounds.
pub open spec fn unlinked(g: Seq<Node>, low: int, high: int) -> bool {
    forall|x: int|
        0 <= x < g.len() ==> {
            &&& (#[trigger] g[x]).neighbors@.len() == 0
            &&& low <= g[x].max_possible_neighbors <= high
        }
}

/// Appends `how_many` nodes of the given kind, each without neighbors and
/// with a cap drawn from `low..=high`.
fn push_nodes(
    nodes: &mut NodesVec,
    rng: &mut ThreadRng,
    kind: NodeType,
    how_many: usize,
    low: usize,
    high: usize,
)
    requires
        low <= high,
        unlinked(old(nodes)@, low as int, high as int),
    ensures
        final(nodes)@.len() == old(nodes)@.len() + how_many,
        unlinked(final(nodes)@, low as int, high as int),
        kind_count(final(nodes)@, kind) == kind_count(old(nodes)@, kind) + how_many,
        forall|other: NodeType|
            other != kind ==> kind_count(final(nodes)@, other) == kind_count(old(nodes)@, other),
{
    let ghost start = nodes@;
    let mut made: usize = 0;
    while made < how_many
        invariant
            made <= how_many,
            low <= high,
            nodes@.len() == start.len() + made,
            unlinked(nodes@, low as int, high as int),
            kind_count(nodes@, kind) == kind_count(start, kind) + made,
            forall|other: NodeType|
                other != kind ==> kind_count(nodes@, other) == kind_count(start, other),
        decreases how_many - made,
    {
        let number_of_neighbors = random_between(rng, low, high);
        let node = Node::new(nodes.len(), kind, Vec::new(), number_of_neighbors);
        let ghost earlier = nodes@;
        nodes.push(node);
        proof {
            assert(nodes@.drop_last() =~= earlier);
            assert(nodes@.last() == node);
        }
        made += 1;
    }
}

/// Gives node `i` random neighbors among its candidates until it is full or
/// has no candidate left.
fn fill_node(nodes: &mut NodesVec, rng: &mut ThreadRng, i: usize)
    requires
        i < old(nodes)@.len(),
        well_formed(old(nodes)@),
    ensures
        well_formed(final(nodes)@),
        extends(old(nodes)@, final(nodes)@),
        settled(final(nodes)@, i as int),
{
    let ghost start = nodes@;
    let number_of_current_neighbors = nodes[i].neighbors.len();
    let number_of_current_max_possible_neighbors = nodes[i].max_possible_neighbors;
    proof {
        assert(node_well_formed(start, i as int));
        lemma_extends_chain(start, start, start);
    }
    let number_of_current_remaining_possible_neighbors = number_of_current_max_possible_neighbors
        - number_of_current_neighbors;
    let mut j: usize = 0;
    while j < number_of_current_remaining_possible_neighbors
        invariant_except_break
            j <= number_of_current_remaining_possible_neighbors,
            nodes@[i as int].neighbors@.len() == number_of_current_neighbors + j,
        invariant
            i < nodes@.len(),
            well_formed(nodes@),
            extends(start, nodes@),
            nodes@[i as int].max_possible_neighbors == number_of_current_max_possible_neighbors,
            number_of_current_remaining_possible_neighbors
                == number_of_current_max_possible_neighbors - number_of_current_neighbors,
        ensures
            settled(nodes@, i as int),
        decreases number_of_current_remaining_possible_neighbors - j,
    {
        let possible_neighbors = possible_neighbors(nodes, i);
        if possible_neighbors.len() == 0 {
            proof {
                assert forall|v: int|
                    0 <= v < nodes@.len() && v != i && !#[trigger] adjacent(
                        nodes@,
                        i as int,
                        v,
                    ) implies nodes@[v].is_full() by {
                    if !nodes@[v].is_full() {
                        assert(is_candidate(nodes@, i as int, v));
                        assert(possible_neighbors@.contains(v as usize));
                    }
                }
            }
            break ;
        }
        let neighbor_index = random_between(rng, 0, possible_neighbors.len() - 1);
        let neighbor = possible_neighbors[neighbor_index];
        let ghost before = nodes@;
        proof {
            assert(is_candidate(before, i as int, possible_neighbors@[neighbor_index as int] as int));
        }
        connect(nodes, i, neighbor);
        proof {
            lemma_link_keeps_well_formed(before, nodes@, i as int, neighbor as int);
            lemma_linked_extends(before, nodes@, i as int, neighbor as int);
            lemma_extends_chain(start, before, nodes@);
        }
        j += 1;
    }
}

/// Builds a random network of `number_of_nodes` nodes, `number_of_gateways`
/// of them gateways, in which every node may have between
/// `number_of_min_possible_neighbors` and `number_of_max_possible_neighbors`
/// neighbors.
///
/// The parameters are refused exactly when [`parameter_fault`] names a fault.
/// Otherwise a network is returned of which [`generated`] holds.
pub fn initialize_network(
    number_of_nodes: i32,
    number_of_gateways: i32,
    number_of_min_possible_neighbors: i32,
    number_of_max_possible_neighbors: i32,
) -> (network: Result<NodesVec, ConfigurationError>)
    ensures
        match network {
            Ok(nodes) => {
                &&& parameter_fault(
                    number_of_nodes as int,
                    number_of_gateways as int,
                    number_of_min_possible_neighbors as int,
                    number_of_max_possible_neighbors as int,
                ) is None
                &&& generated(
                    nodes@,
                    number_of_nodes as int,
                    number_of_gateways as int,
                    number_of_min_possible_neighbors as int,
                    number_of_max_possible_neighbors as int,
                )
            },
            Err(fault) => parameter_fault(
                number_of_nodes as int,
                number_of_gateways as int,
                number_of_min_possible_neighbors as int,
                number_of_max_possible_neighbors as int,
            ) == Some(fault),
        },
{
    match check_parameters(
        number_of_nodes,
        number_of_gateways,
        number_of_min_possible_neighbors,
        number_of_max_possible_neighbors,
    ) {
        Err(fault) => {
            return Err(fault);
        },
        Ok(()) => {},
    }
    let total = number_of_nodes as usize;
    let gateways = number_of_gateways as usize;
    let low = number_of_min_possible_neighbors as usize;
    let high = number_of_max_possible_neighbors as usize;

    let mut nodes: NodesVec = NodesVec::new();
    let mut rng: ThreadRng = thread_generator();

    push_nodes(&mut nodes, &mut rng, NodeType::Gateway, gateways, low, high);
    push_nodes(&mut nodes, &mut rng, NodeType::Constrained, total - gateways, low, high);

    let ghost created = nodes@;
    shuffle_nodes(&mut nodes, &mut rng);
    let ghost shuffled = nodes@;
    proof {
        lemma_kind_count_rearranged(created, shuffled, NodeType::Gateway);
        lemma_rearranged_unlinked(created, shuffled, low as int, high as int);
    }

    assign_ids(&mut nodes);
    let ghost numbered = nodes@;
    proof {
        lemma_kind_count_same_kinds(shuffled, numbered, NodeType::Gateway);
        assert forall|x: int| 0 <= x < numbered.len() implies #[trigger] node_well_formed(
            numbered,
            x,
        ) by {
            assert(numbered[x].neighbors@ == shuffled[x].neighbors@);
        }
        lemma_extends_chain(numbered, numbered, numbered);
    }

    let count = nodes.len();
    let mut i: usize = 0;
    while i < count
        invariant
            i <= count,
            count == nodes@.len(),
            well_formed(nodes@),
            extends(numbered, nodes@),
            forall|u: int| 0 <= u < i ==> #[trigger] settled(nodes@, u),
        decreases count - i,
    {
        let ghost before = nodes@;
        fill_node(&mut nodes, &mut rng, i);
        proof {
            lemma_extends_chain(numbered, before, nodes@);
            assert forall|u: int| 0 <= u < i + 1 implies #[trigger] settled(nodes@, u) by {
                if u < i {
                    lemma_extends_keeps_settled(before, nodes@, u);
                }
            }
        }
        i += 1;
    }
    proof {
        lemma_kind_count_same_kinds(numbered, nodes@, NodeType::Gateway);
        lemma_all_settled_saturated(nodes@);
        assert forall|x: int| 0 <= x < nodes@.len() implies number_of_min_possible_neighbors
            <= (#[trigger] nodes@[x]).max_possible_neighbors
            <= number_of_max_possible_neighbors by {
            assert(numbered[x].max_possible_neighbors == shuffled[x].max_possible_neighbors);
        }
    }
    Ok(nodes)
}

/// Rearranging nodes that have no neighbors and caps within bounds leaves
/// nodes of which the same holds.
proof fn lemma_rearranged_unlinked(a: Seq<Node>, b: Seq<Node>, low: int, high: int)
    requires
        a.to_multiset() == b.to_multiset(),
        unlinked(a, low, high),
    ensures
        unlinked(b, low, high),
{
    broadcast use vstd::seq_lib::group_to_multiset_ensures;

    assert forall|x: int| 0 <= x < b.len() implies {
        &&& (#[trigger] b[x]).neighbors@.len() == 0
        &&& low <= b[x].max_possible_neighbors <= high
    } by {
        assert(b.contains(b[x]));
        assert(b.to_multiset().count(b[x]) > 0);
        assert(a.contains(b[x]));
        let y = choose|y: int| 0 <= y < a.len() && a[y] == b[x];
        assert(a[y].neighbors@.len() == 0);
    }
}

/// A network in which every node needs no further neighbor admits no further
/// edge.
pub proof fn lemma_all_settled_saturated(g: Seq<Node>)
    requires
        forall|u: int| 0 <= u < g.len() ==> #[trigger] settled(g, u),
    ensures
        saturated(g),
{
    assert forall|u: int, v: int|
        0 <= u < g.len() && 0 <= v < g.len() && u != v && !#[trigger] adjacent(
            g,
            u,
            v,
        ) implies g[u].is_full() || g[v].is_full() by {
        assert(settled(g, u));
    }
}


/// A network generated without gateways has only constrained nodes, and one
/// generated with as many gateways as nodes has only gateways.
pub proof fn lemma_generated_kinds(
    g: Seq<Node>,
    number_of_nodes: int,
    number_of_gateways: int,
    min_neighbors: int,
    max_neighbors: int,
)
    requires
        generated(g, number_of_nodes, number_of_gateways, min_neighbors, max_neighbors),
    ensures
        number_of_gateways == 0 ==> forall|x: int|
            0 <= x < g.len() ==> (#[trigger] g[x]).kind == NodeType::Constrained,
        number_of_gateways == number_of_nodes ==> forall|x: int|
            0 <= x < g.len() ==> (#[trigger] g[x]).kind == NodeType::Gateway,
{
    lemma_kind_count_bounds(g, NodeType::Gateway);
    if number_of_gateways == 0 {
        assert forall|x: int| 0 <= x < g.len() implies (#[trigger] g[x]).kind
            == NodeType::Constrained by {
            assert(g[x].kind != NodeType::Gateway);
        }
    }
}

/// A network generated with every cap equal to the number of other nodes is
/// complete: every node reaches its cap.
pub proof fn lemma_generated_with_full_caps_is_complete(
    g: Seq<Node>,
    number_of_nodes: int,
    number_of_gateways: int,
)
    requires
        generated(g, number_of_nodes, number_of_gateways, number_of_nodes - 1, number_of_nodes - 1),
    ensures
        complete(g),
        forall|x: int| 0 <= x < g.len() ==> (#[trigger] g[x]).degree() == number_of_nodes - 1,
{
    lemma_saturated_with_full_caps_is_complete(g);
}


} // verus!
