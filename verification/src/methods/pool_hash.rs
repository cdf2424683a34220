//! The key-pool scheme.

use crate::methods::total_neighbors;
use crate::network::{neighbor_total, NodesVec};
use crate::parameters::SchemeParameters;
use vstd::arithmetic::div_mod::{lemma_fundamental_div_mod, lemma_mod_multiples_basic};
use vstd::prelude::*;

verus! {

/// The size in bytes of a message before it is padded: type tag, sender
/// identity, nonce, and one identity for each entry of the key ring.
pub open spec fn payload_size(parameters: SchemeParameters) -> nat {
    (parameters.message_type_size + parameters.node_id_size + parameters.nonce_size
        + parameters.node_id_size * parameters.key_ring_size) as nat
}

/// `size` rounded up to the next multiple of `block`.
pub open spec fn padded(size: nat, block: nat) -> nat {
    if size % block == 0 {
        size
    } else {
        ((size / block + 1) * block) as nat
    }
}

/// For a positive block size, the padded size is a multiple of the block size
/// and exceeds the size by less than one block.
pub proof fn lemma_padded_is_next_multiple(size: nat, block: nat)
    requires
        block > 0,
    ensures
        padded(size, block) % block == 0,
        size <= padded(size, block) < size + block,
{
    let q = size as int / block as int;
    let r = size as int % block as int;
    lemma_fundamental_div_mod(size as int, block as int);
    assert(0 <= q) by (nonlinear_arith)
        requires
            size == block * q + r,
            0 <= r < block,
            size >= 0,
    ;
    assert((q + 1) * block == block * q + block) by (nonlinear_arith);
    lemma_mod_multiples_basic(q + 1, block as int);
}

/// For a positive block size, no multiple of the block size lies between the
/// size and the padded size.
pub proof fn lemma_padded_is_least(size: nat, block: nat, multiple: nat)
    requires
        block > 0,
        multiple % block == 0,
        size <= multiple,
    ensures
        padded(size, block) <= multiple,
{
    let q = size as int / block as int;
    let r = size as int % block as int;
    lemma_fundamental_div_mod(size as int, block as int);
    if r != 0 {
        let p = multiple as int / block as int;
        lemma_fundamental_div_mod(multiple as int, block as int);
        assert(p > q) by (nonlinear_arith)
            requires
                block * p >= block * q + r,
                r > 0,
                block > 0,
        ;
        assert(block * p >= (q + 1) * block) by (nonlinear_arith)
            requires
                p >= q + 1,
                block > 0,
        ;
        assert(0 <= q) by (nonlinear_arith)
            requires
                size == block * q + r,
                0 <= r < block,
                size >= 0,
        ;
        assert((q + 1) * block >= 0) by (nonlinear_arith)
            requires
                q >= 0,
                block > 0,
        ;
    }
}

/// Whatever the parameters, the size before padding takes fewer than 66 bits.
pub proof fn lemma_payload_size_bound(parameters: SchemeParameters)
    ensures
        payload_size(parameters) < 0x2_0000_0000_0000_0000,
{
    assert(parameters.node_id_size * parameters.key_ring_size <= 0xffff_ffff * 0xffff_ffff)
        by (nonlinear_arith)
        requires
            0 <= parameters.node_id_size <= 0xffff_ffff,
            0 <= parameters.key_ring_size <= 0xffff_ffff,
    ;
}

/// The size in bytes of a message before it is padded.
pub fn message_size_before_encryption(parameters: &SchemeParameters) -> (size: u128)
    ensures
        size == payload_size(*parameters),
{
    proof {
        lemma_payload_size_bound(*parameters);
    }
    let neighbors_ids_size = parameters.node_id_size as u128 * parameters.key_ring_size as u128;
    parameters.message_type_size as u128 + parameters.node_id_size as u128
        + parameters.nonce_size as u128 + neighbors_ids_size
}

/// `size` rounded up to the next multiple of the block size. The block size
/// must be positive and the result must fit.
pub fn pad_to_block(size: u128, aes_block_size: u32) -> (message: u128)
    requires
        aes_block_size > 0,
        size + aes_block_size <= u128::MAX,
    ensures
        message == padded(size as nat, aes_block_size as nat),
        message % (aes_block_size as u128) == 0,
        size <= message < size + aes_block_size,
{
    let block = aes_block_size as u128;
    proof {
        lemma_padded_is_next_multiple(size as nat, aes_block_size as nat);
    }
    if size % block == 0 {
        size
    } else {
        proof {
            let blocks = size as nat / (aes_block_size as nat) + 1;
            assert(padded(size as nat, aes_block_size as nat) == blocks * aes_block_size);
            assert(blocks <= blocks * aes_block_size) by (nonlinear_arith)
                requires
                    blocks >= 0,
                    aes_block_size >= 1,
            ;
        }
        (size / block + 1) * block
    }
}

/// The size in bytes of a message once it is padded to a whole number of
/// cipher blocks. The block size must be positive.
pub fn padded_message_size(parameters: &SchemeParameters, aes_block_size: u32) -> (message: u128)
    requires
        aes_block_size > 0,
    ensures
        message == padded(payload_size(*parameters), aes_block_size as nat),
        message % (aes_block_size as u128) == 0,
        payload_size(*parameters) <= message < payload_size(*parameters) + aes_block_size,
{
    proof {
        lemma_payload_size_bound(*parameters);
    }
    pad_to_block(message_size_before_encryption(parameters), aes_block_size)
}

/// The scalar multiplications that key agreement takes: one for each neighbor
/// of each node. The total must fit the result.
pub fn number_of_multiplications(nodes: NodesVec) -> (number_of_multiplications: u32)
    requires
        neighbor_total(nodes@) <= u32::MAX,
    ensures
        number_of_multiplications == neighbor_total(nodes@),
{
    total_neighbors(&nodes) as u32
}

} // verus!
