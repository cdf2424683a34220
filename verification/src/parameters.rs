//! The integer parameters of the cost models: message field sizes in bytes
//! and the dimensions of the key pool.

use vstd::prelude::*;

verus! {

/// Sizes, in bytes, of the message fields the schemes exchange, and the sizes
/// of key ring and key pool.
#[derive(Debug, PartialEq, Eq, Clone, Copy, Structural)]
pub struct SchemeParameters {
    /// Size of a sent message of fixed length.
    pub sent_message_size: u32,
    /// Size of a received message of fixed length.
    pub received_message_size: u32,
    /// Bytes that encode a node identity.
    pub node_id_size: u32,
    /// Bytes of the message-type tag.
    pub message_type_size: u32,
    /// Bytes of a nonce.
    pub nonce_size: u32,
    /// Entries in a node's key ring.
    pub key_ring_size: u32,
    /// Keys in the global pool.
    pub key_pool_size: u32,
    /// Block size of the cipher that messages are padded to.
    pub aes_block_size: u32,
}

/// The parameters used where none are configured.
pub open spec fn default_parameters() -> SchemeParameters {
    SchemeParameters {
        sent_message_size: 16,
        received_message_size: 16,
        node_id_size: 4,
        message_type_size: 1,
        nonce_size: 4,
        key_ring_size: 58,
        key_pool_size: 1000,
        aes_block_size: 16,
    }
}

impl Default for SchemeParameters {
    fn default() -> (parameters: Self)
        ensures
            parameters == default_parameters(),
    {
        SchemeParameters {
            sent_message_size: 16,
            received_message_size: 16,
            node_id_size: 4,
            message_type_size: 1,
            nonce_size: 4,
            key_ring_size: 58,
            key_pool_size: 1000,
            aes_block_size: 16,
        }
    }
}

} // verus!
