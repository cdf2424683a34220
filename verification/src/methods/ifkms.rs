//! The identity-based scheme.

use crate::methods::{lemma_neighbor_total_grows, lemma_neighbor_total_step};
use crate::network::{neighbor_total, NodesVec};
use crate::parameters::SchemeParameters;
use vstd::prelude::*;

verus! {

/// The scalar multiplications that key agreement takes: one for each neighbor
/// of each node. The total must fit the result.
pub fn number_of_multiplications(nodes: NodesVec) -> (number_of_multiplications: u32)
    requires
        neighbor_total(nodes@) <= u32::MAX,
    ensures
        number_of_multiplications == neighbor_total(nodes@),
{
    let ghost g = nodes@;
    let count = nodes.len();
    let mut number_of_multiplications: u32 = 0;
    let mut i: usize = 0;
    while i < count
        invariant
            i <= count,
            count == g.len(),
            g == nodes@,
            neighbor_total(g) <= u32::MAX,
            number_of_multiplications == neighbor_total(g.take(i as int)),
        decreases count - i,
    {
        proof {
            lemma_neighbor_total_step(g, i as int);
            lemma_neighbor_total_grows(g, i + 1);
        }
        number_of_multiplications += nodes[i].neighbors.len() as u32;
        i += 1;
    }
    proof {
        assert(g.take(count as int) =~= g);
    }
    number_of_multiplications
}

/// The hashes that pairwise key establishment takes: two for each neighbor of
/// each node. The total must fit the result.
pub fn number_pairwise_hashes(nodes: NodesVec) -> (number_of_hashes: u32)
    requires
        2 * neighbor_total(nodes@) <= u32::MAX,
    ensures
        number_of_hashes == 2 * neighbor_total(nodes@),
{
    let ghost g = nodes@;
    let count = nodes.len();
    let mut number_of_hashes: u32 = 0;
    let mut i: usize = 0;
    while i < count
        invariant
            i <= count,
            count == g.len(),
            g == nodes@,
            2 * neighbor_total(g) <= u32::MAX,
            number_of_hashes == 2 * neighbor_total(g.take(i as int)),
        decreases count - i,
    {
        proof {
            lemma_neighbor_total_step(g, i as int);
            lemma_neighbor_total_grows(g, i + 1);
        }
        number_of_hashes += 2 * nodes[i].neighbors.len() as u32;
        i += 1;
    }
    proof {
        assert(g.take(count as int) =~= g);
    }
    number_of_hashes
}

/// The encryptions that pairwise key establishment takes: none.
pub fn number_of_pairwise_encryptions(_nodes: NodesVec) -> (number_of_encryptions: u32)
    ensures
        number_of_encryptions == 0,
{
    0
}

/// The size in bytes of a handshake message: type tag, sender identity,
/// nonce and authentication tag.
pub fn message_size(parameters: &SchemeParameters, mac_size: u32) -> (size: u64)
    ensures
        size == parameters.message_type_size + parameters.node_id_size + parameters.nonce_size
            + mac_size,
{
    parameters.message_type_size as u64 + parameters.node_id_size as u64
        + parameters.nonce_size as u64 + mac_size as u64
}

} // verus!
