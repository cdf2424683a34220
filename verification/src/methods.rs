//! The cost models of the key-establishment schemes, and the totals over a
//! network that all of them are built from.
//!
//! Gateways have energy to spare, so the energy metrics count constrained
//! nodes only: how many there are, and how many neighbors they have in all.

pub mod ifkms;
pub mod pool_hash;

use crate::network::{constrained_neighbor_total, kind_count, neighbor_total, Node, NodeType, NodesVec};
use vstd::prelude::*;

verus! {

/// The first `i + 1` nodes have the neighbors of the first `i` and those of
/// node `i`.
pub proof fn lemma_neighbor_total_step(g: Seq<Node>, i: int)
    requires
        0 <= i < g.len(),
    ensures
        neighbor_total(g.take(i + 1)) == neighbor_total(g.take(i)) + g[i].degree(),
        constrained_neighbor_total(g.take(i + 1)) == constrained_neighbor_total(g.take(i)) + if g[i].kind
            == NodeType::Constrained {
            g[i].degree()
        } else {
            0nat
        },
        kind_count(g.take(i + 1), NodeType::Constrained) == kind_count(
            g.take(i),
            NodeType::Constrained,
        ) + if g[i].kind == NodeType::Constrained {
            1nat
        } else {
            0nat
        },
{
    assert(g.take(i + 1).drop_last() =~= g.take(i));
    assert(g.take(i + 1).last() == g[i]);
}

/// The neighbors of the first `i` nodes are at most those of all nodes.
pub proof fn lemma_neighbor_total_grows(g: Seq<Node>, i: int)
    requires
        0 <= i <= g.len(),
    ensures
        neighbor_total(g.take(i)) <= neighbor_total(g),
        constrained_neighbor_total(g.take(i)) <= neighbor_total(g.take(i)),
    decreases g.len() - i,
{
    if i == g.len() {
        assert(g.take(i) =~= g);
    } else {
        lemma_neighbor_total_grows(g, i + 1);
        lemma_neighbor_total_step(g, i);
    }
    lemma_constrained_within_total(g.take(i));
}

/// The constrained nodes have at most as many neighbors as all nodes have.
pub proof fn lemma_constrained_within_total(g: Seq<Node>)
    ensures
        constrained_neighbor_total(g) <= neighbor_total(g),
    decreases g.len(),
{
    if g.len() > 0 {
        lemma_constrained_within_total(g.drop_last());
    }
}

/// No network has more neighbors in all than `usize::MAX` per node.
pub proof fn lemma_neighbor_total_bound(g: Seq<Node>)
    ensures
        neighbor_total(g) <= g.len() * usize::MAX,
    decreases g.len(),
{
    if g.len() > 0 {
        lemma_neighbor_total_bound(g.drop_last());
        assert(g.last().neighbors.len() == g.last().neighbors@.len());
        assert(g.drop_last().len() * usize::MAX + usize::MAX == g.len() * usize::MAX)
            by (nonlinear_arith)
            requires
                g.drop_last().len() + 1 == g.len(),
        ;
    }
}

/// The number of constrained nodes.
pub fn constrained_nodes(nodes: &NodesVec) -> (count: usize)
    ensures
        count == kind_count(nodes@, NodeType::Constrained),
{
    let ghost g = nodes@;
    let total = nodes.len();
    let mut count: usize = 0;
    let mut i: usize = 0;
    while i < total
        invariant
            i <= total,
            total == g.len(),
            g == nodes@,
            count <= i,
            count == kind_count(g.take(i as int), NodeType::Constrained),
        decreases total - i,
    {
        proof {
            lemma_neighbor_total_step(g, i as int);
        }
        if nodes[i].kind == NodeType::Constrained {
            count += 1;
        }
        i += 1;
    }
    proof {
        assert(g.take(total as int) =~= g);
    }
    count
}

/// The number of neighbors that all nodes have in all.
pub fn total_neighbors(nodes: &NodesVec) -> (total: u128)
    ensures
        total == neighbor_total(nodes@),
{
    let ghost g = nodes@;
    let count = nodes.len();
    let mut total: u128 = 0;
    let mut i: usize = 0;
    while i < count
        invariant
            i <= count,
            count == g.len(),
            g == nodes@,
            total == neighbor_total(g.take(i as int)),
        decreases count - i,
    {
        proof {
            lemma_neighbor_total_step(g, i as int);
            lemma_neighbor_total_bound(g.take(i + 1));
            lemma_product_fits(i + 1);
        }
        total += nodes[i].neighbors.len() as u128;
        i += 1;
    }
    proof {
        assert(g.take(count as int) =~= g);
    }
    total
}

/// The number of neighbors that the constrained nodes have in all.
pub fn constrained_neighbors(nodes: &NodesVec) -> (total: u128)
    ensures
        total == constrained_neighbor_total(nodes@),
{
    let ghost g = nodes@;
    let count = nodes.len();
    let mut total: u128 = 0;
    let mut i: usize = 0;
    while i < count
        invariant
            i <= count,
            count == g.len(),
            g == nodes@,
            total == constrained_neighbor_total(g.take(i as int)),
        decreases count - i,
    {
        proof {
            lemma_neighbor_total_step(g, i as int);
            lemma_neighbor_total_bound(g.take(i + 1));
            lemma_constrained_within_total(g.take(i + 1));
            lemma_product_fits(i + 1);
        }
        if nodes[i].kind == NodeType::Constrained {
            total += nodes[i].neighbors.len() as u128;
        }
        i += 1;
    }
    proof {
        assert(g.take(count as int) =~= g);
    }
    total
}

/// As many neighbor lists as a vector can hold, each as long as a vector can
/// be, come to a number that fits in 128 bits.
proof fn lemma_product_fits(n: int)
    requires
        0 <= n <= usize::MAX,
    ensures
        n * usize::MAX <= u128::MAX,
{
    assert(n * usize::MAX <= 0xffff_ffff_ffff_ffff * 0xffff_ffff_ffff_ffff) by (nonlinear_arith)
        requires
            0 <= n <= 0xffff_ffff_ffff_ffff,
            0 <= usize::MAX <= 0xffff_ffff_ffff_ffff,
    ;
}

} // verus!
