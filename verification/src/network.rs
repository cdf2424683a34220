//! The node and graph model shared by the generator and the cost models.
//!
//! A network is a sequence of nodes in which a node's position is its
//! identity. Everything the contracts of this crate say about a network is
//! said over that sequence, `Seq<Node>`, the view of [`NodesVec`].

use std::ops::{Deref, DerefMut};
use vstd::prelude::*;

verus! {

/// Whether a device is an unconstrained gateway or an energy-limited node.
#[derive(Debug, PartialEq, Eq, Clone, Copy, Structural)]
pub enum NodeType {
    Gateway,
    Constrained,
}

/// One device of the network.
///
/// `neighbors` lists the identities of the adjacent nodes and
/// `max_possible_neighbors` caps how many there may be.
#[derive(Debug, Clone)]
pub struct Node {
    pub id: usize,
    pub kind: NodeType,
    pub neighbors: Vec<usize>,
    pub max_possible_neighbors: usize,
}

/// The nodes of one network, indexed by identity.
#[derive(Debug, Clone)]
pub struct NodesVec(Vec<Node>);

impl View for NodesVec {
    type V = Seq<Node>;

    closed spec fn view(&self) -> Seq<Node> {
        self.0@
    }
}

impl Node {
    /// A node with the given identity, kind, neighbor list and degree cap.
    pub fn new(
        id: usize,
        kind: NodeType,
        neighbors: Vec<usize>,
        max_possible_neighbors: usize,
    ) -> (node: Self)
        ensures
            node.id == id,
            node.kind == kind,
            node.neighbors == neighbors,
            node.max_possible_neighbors == max_possible_neighbors,
    {
        Self { id, kind, neighbors, max_possible_neighbors }
    }

    /// The number of neighbors the node has.
    pub open spec fn degree(&self) -> nat {
        self.neighbors@.len()
    }

    /// The node has as many neighbors as its cap allows.
    pub open spec fn is_full(&self) -> bool {
        self.neighbors@.len() >= self.max_possible_neighbors
    }

    /// The node lists `v` among its neighbors.
    pub open spec fn lists(&self, v: int) -> bool {
        exists|j: int| 0 <= j < self.neighbors@.len() && #[trigger] self.neighbors@[j] == v
    }
}

impl NodesVec {
    /// An empty network.
    pub fn new() -> (nodes: Self)
        ensures
            nodes@ == Seq::<Node>::empty(),
    {
        Self(Vec::new())
    }
}

impl Deref for NodesVec {
    type Target = Vec<Node>;

    fn deref(&self) -> (v: &Vec<Node>)
        ensures
            v@ == self@,
    {
        &self.0
    }
}

impl DerefMut for NodesVec {
    fn deref_mut(&mut self) -> (v: &mut Vec<Node>)
        ensures
            v@ == old(self)@,
            final(self)@ == final(v)@,
    {
        &mut self.0
    }
}

/// Node `u` lists node `v` as a neighbor.
pub open spec fn adjacent(g: Seq<Node>, u: int, v: int) -> bool {
    g[u].lists(v)
}

/// What must hold of the node at position `i` of a network: its identity is
/// its position, it lists no node twice, stays within its cap, lists only
/// other nodes of the network, and each of them lists it back.
pub open spec fn node_well_formed(g: Seq<Node>, i: int) -> bool {
    &&& g[i].id == i
    &&& g[i].neighbors@.no_duplicates()
    &&& g[i].neighbors@.len() <= g[i].max_possible_neighbors
    &&& forall|j: int|
        0 <= j < g[i].neighbors@.len() ==> {
            &&& (#[trigger] g[i].neighbors@[j]) < g.len()
            &&& g[i].neighbors@[j] != i
            &&& adjacent(g, g[i].neighbors@[j] as int, i)
        }
}

/// Every node of the network is well formed.
pub open spec fn well_formed(g: Seq<Node>) -> bool {
    forall|i: int| 0 <= i < g.len() ==> #[trigger] node_well_formed(g, i)
}

/// No edge can be added without exceeding a cap: of any two distinct nodes
/// that are not adjacent, at least one is full.
pub open spec fn saturated(g: Seq<Node>) -> bool {
    forall|u: int, v: int|
        0 <= u < g.len() && 0 <= v < g.len() && u != v && !#[trigger] adjacent(g, u, v)
            ==> g[u].is_full() || g[v].is_full()
}

/// Every two distinct nodes are adjacent.
pub open spec fn complete(g: Seq<Node>) -> bool {
    forall|u: int, v: int|
        0 <= u < g.len() && 0 <= v < g.len() && u != v ==> #[trigger] adjacent(g, u, v)
}

/// The number of nodes of the given kind.
pub open spec fn kind_count(g: Seq<Node>, kind: NodeType) -> nat
    decreases g.len(),
{
    if g.len() == 0 {
        0
    } else {
        kind_count(g.drop_last(), kind) + if g.last().kind == kind {
            1nat
        } else {
            0nat
        }
    }
}

/// The sum of the degrees of all nodes.
pub open spec fn neighbor_total(g: Seq<Node>) -> nat
    decreases g.len(),
{
    if g.len() == 0 {
        0
    } else {
        neighbor_total(g.drop_last()) + g.last().degree()
    }
}

/// The sum of the degrees of the constrained nodes.
pub open spec fn constrained_neighbor_total(g: Seq<Node>) -> nat
    decreases g.len(),
{
    if g.len() == 0 {
        0
    } else {
        constrained_neighbor_total(g.drop_last()) + if g.last().kind == NodeType::Constrained {
            g.last().degree()
        } else {
            0nat
        }
    }
}

/// In a well-formed network adjacency is symmetric.
pub proof fn lemma_adjacency_symmetric(g: Seq<Node>, u: int, v: int)
    requires
        well_formed(g),
        0 <= u < g.len(),
        0 <= v < g.len(),
    ensures
        adjacent(g, u, v) <==> adjacent(g, v, u),
{
    if adjacent(g, u, v) {
        let j = choose|j: int| 0 <= j < g[u].neighbors@.len() && #[trigger] g[u].neighbors@[j] == v;
        assert(node_well_formed(g, u));
        assert(adjacent(g, g[u].neighbors@[j] as int, u));
    }
    if adjacent(g, v, u) {
        let j = choose|j: int| 0 <= j < g[v].neighbors@.len() && #[trigger] g[v].neighbors@[j] == u;
        assert(node_well_formed(g, v));
        assert(adjacent(g, g[v].neighbors@[j] as int, v));
    }
}

/// In a well-formed network no node is its own neighbor and no node has more
/// neighbors than its cap.
pub proof fn lemma_no_self_loop_and_within_cap(g: Seq<Node>, v: int)
    requires
        well_formed(g),
        0 <= v < g.len(),
    ensures
        !adjacent(g, v, v),
        g[v].degree() <= g[v].max_possible_neighbors,
{
    assert(node_well_formed(g, v));
}

/// Removing a node lowers the count of its kind by one and leaves the count
/// of the other kind as it was.
pub proof fn lemma_kind_count_remove(g: Seq<Node>, i: int, kind: NodeType)
    requires
        0 <= i < g.len(),
    ensures
        kind_count(g, kind) == kind_count(g.remove(i), kind) + if g[i].kind == kind {
            1nat
        } else {
            0nat
        },
    decreases g.len(),
{
    if i == g.len() - 1 {
        assert(g.remove(i) =~= g.drop_last());
    } else {
        lemma_kind_count_remove(g.drop_last(), i, kind);
        assert(g.remove(i).drop_last() =~= g.drop_last().remove(i));
        assert(g.remove(i).last() == g.last());
    }
}

/// Rearranging the nodes does not change how many there are of a kind.
pub proof fn lemma_kind_count_rearranged(a: Seq<Node>, b: Seq<Node>, kind: NodeType)
    requires
        a.to_multiset() == b.to_multiset(),
    ensures
        a.len() == b.len(),
        kind_count(a, kind) == kind_count(b, kind),
    decreases a.len(),
{
    broadcast use vstd::seq_lib::group_to_multiset_ensures;

    assert(a.len() == a.to_multiset().len());
    assert(b.len() == b.to_multiset().len());
    if a.len() > 0 {
        let last = a.last();
        assert(a.contains(last));
        assert(a.to_multiset().count(last) > 0);
        assert(b.contains(last));
        let i = choose|i: int| 0 <= i < b.len() && b[i] == last;
        assert(a.drop_last() =~= a.remove(a.len() - 1));
        assert(a.remove(a.len() - 1).to_multiset() == b.remove(i).to_multiset());
        lemma_kind_count_rearranged(a.drop_last(), b.remove(i), kind);
        lemma_kind_count_remove(b, i, kind);
    }
}

/// The count of a kind is at most the number of nodes. Where it is zero no
/// node is of that kind, and where it is the number of nodes all are.
pub proof fn lemma_kind_count_bounds(g: Seq<Node>, kind: NodeType)
    ensures
        kind_count(g, kind) <= g.len(),
        kind_count(g, kind) == 0 ==> forall|x: int| 0 <= x < g.len() ==> (#[trigger] g[x]).kind != kind,
        kind_count(g, kind) == g.len() ==> forall|x: int|
            0 <= x < g.len() ==> (#[trigger] g[x]).kind == kind,
    decreases g.len(),
{
    if g.len() > 0 {
        lemma_kind_count_bounds(g.drop_last(), kind);
        assert forall|x: int| 0 <= x < g.len() - 1 implies g.drop_last()[x] == g[x] by {}
        if kind_count(g, kind) == 0 {
            assert forall|x: int| 0 <= x < g.len() implies (#[trigger] g[x]).kind != kind by {
                if x < g.len() - 1 {
                    assert(g.drop_last()[x].kind != kind);
                }
            }
        }
        if kind_count(g, kind) == g.len() {
            assert forall|x: int| 0 <= x < g.len() implies (#[trigger] g[x]).kind == kind by {
                if x < g.len() - 1 {
                    assert(g.drop_last()[x].kind == kind);
                }
            }
        }
    }
}

/// Two networks whose nodes agree in kind, position by position, have the
/// same count of each kind.
pub proof fn lemma_kind_count_same_kinds(a: Seq<Node>, b: Seq<Node>, kind: NodeType)
    requires
        a.len() == b.len(),
        forall|x: int| 0 <= x < a.len() ==> (#[trigger] a[x]).kind == b[x].kind,
    ensures
        kind_count(a, kind) == kind_count(b, kind),
    decreases a.len(),
{
    if a.len() > 0 {
        assert forall|x: int| 0 <= x < a.len() - 1 implies (#[trigger] a.drop_last()[x]).kind
            == b.drop_last()[x].kind by {
            assert(a[x].kind == b[x].kind);
        }
        lemma_kind_count_same_kinds(a.drop_last(), b.drop_last(), kind);
        assert(a.last().kind == b.last().kind);
    }
}


/// A well-formed node with at least as many neighbors as there are other
/// nodes lists every other node.
pub proof fn lemma_full_house_lists_all(g: Seq<Node>, u: int, v: int)
    requires
        0 <= u < g.len(),
        0 <= v < g.len(),
        u != v,
        node_well_formed(g, u),
        g[u].neighbors@.len() >= g.len() - 1,
    ensures
        adjacent(g, u, v),
{
    let listed = g[u].neighbors@;
    let widen = |x: usize| x as int;
    let ids = listed.map_values(widen);
    assert(vstd::relations::injective(widen));
    listed.lemma_no_duplicates_injective(widen);
    ids.unique_seq_to_set();
    let others = vstd::set_lib::set_int_range(0, g.len() as int).remove(u);
    vstd::set_lib::lemma_int_range(0, g.len() as int);
    assert(ids.to_set().subset_of(others)) by {
        assert forall|x: int| ids.to_set().contains(x) implies others.contains(x) by {
            let j = choose|j: int| 0 <= j < ids.len() && ids[j] == x;
            assert(listed[j] < g.len() && listed[j] != u);
        }
    }
    vstd::set_lib::lemma_len_subset(ids.to_set(), others);
    vstd::set_lib::lemma_subset_equality(ids.to_set(), others);
    assert(others.contains(v));
    assert(ids.to_set().contains(v));
    let j = choose|j: int| 0 <= j < ids.len() && ids[j] == v;
    assert(listed[j] == v);
}

/// Where every cap is the number of other nodes, a well-formed network that
/// admits no further edge is complete: no node is left below its cap.
pub proof fn lemma_saturated_with_full_caps_is_complete(g: Seq<Node>)
    requires
        well_formed(g),
        saturated(g),
        forall|x: int| 0 <= x < g.len() ==> (#[trigger] g[x]).max_possible_neighbors == g.len() - 1,
    ensures
        complete(g),
        forall|x: int| 0 <= x < g.len() ==> (#[trigger] g[x]).degree() == g.len() - 1,
{
    assert forall|u: int, v: int|
        0 <= u < g.len() && 0 <= v < g.len() && u != v implies #[trigger] adjacent(g, u, v) by {
        if !adjacent(g, u, v) {
            assert(node_well_formed(g, u));
            assert(node_well_formed(g, v));
            if g[u].is_full() {
                lemma_full_house_lists_all(g, u, v);
            } else {
                lemma_full_house_lists_all(g, v, u);
                lemma_adjacency_symmetric(g, u, v);
            }
        }
    }
    assert forall|x: int| 0 <= x < g.len() implies (#[trigger] g[x]).degree() == g.len() - 1 by {
        assert(node_well_formed(g, x));
        lemma_lists_all_is_long(g, x);
    }
}

/// A well-formed node that lists every other node has at least as many
/// neighbors as there are other nodes.
pub proof fn lemma_lists_all_is_long(g: Seq<Node>, u: int)
    requires
        0 <= u < g.len(),
        node_well_formed(g, u),
        forall|v: int| 0 <= v < g.len() && v != u ==> #[trigger] adjacent(g, u, v),
    ensures
        g[u].neighbors@.len() >= g.len() - 1,
{
    let listed = g[u].neighbors@;
    let widen = |x: usize| x as int;
    let ids = listed.map_values(widen);
    assert(vstd::relations::injective(widen));
    listed.lemma_no_duplicates_injective(widen);
    ids.unique_seq_to_set();
    let others = vstd::set_lib::set_int_range(0, g.len() as int).remove(u);
    vstd::set_lib::lemma_int_range(0, g.len() as int);
    vstd::seq_lib::seq_to_set_is_finite(ids);
    assert(others.subset_of(ids.to_set())) by {
        assert forall|x: int| others.contains(x) implies ids.to_set().contains(x) by {
            assert(adjacent(g, u, x));
            let j = choose|j: int| 0 <= j < listed.len() && #[trigger] listed[j] == x;
            assert(ids[j] == x);
        }
    }
    vstd::set_lib::lemma_len_subset(others, ids.to_set());
}


} // verus!
