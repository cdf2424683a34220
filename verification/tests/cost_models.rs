use evkms_metrics_simulation::methods::{
    constrained_neighbors, constrained_nodes, ifkms, pool_hash, total_neighbors,
};
use evkms_metrics_simulation::{initialize_network, Node, NodeType, NodesVec, SchemeParameters};

fn network(nodes: Vec<(NodeType, Vec<usize>, usize)>) -> NodesVec {
    let mut network = NodesVec::new();
    for (id, (kind, neighbors, cap)) in nodes.into_iter().enumerate() {
        network.push(Node::new(id, kind, neighbors, cap));
    }
    network
}

/// Three nodes in a line: a gateway between two constrained nodes.
fn line() -> NodesVec {
    network(vec![
        (NodeType::Constrained, vec![1], 3),
        (NodeType::Gateway, vec![0, 2], 3),
        (NodeType::Constrained, vec![1], 3),
    ])
}

/// Four nodes: a constrained hub linked to a gateway and two constrained
/// nodes.
fn star() -> NodesVec {
    network(vec![
        (NodeType::Constrained, vec![1, 2, 3], 3),
        (NodeType::Gateway, vec![0], 2),
        (NodeType::Constrained, vec![0], 1),
        (NodeType::Constrained, vec![0], 4),
    ])
}

#[test]
fn default_parameters_are_the_documented_ones() {
    let parameters = SchemeParameters::default();
    assert_eq!(parameters.sent_message_size, 16);
    assert_eq!(parameters.received_message_size, 16);
    assert_eq!(parameters.node_id_size, 4);
    assert_eq!(parameters.message_type_size, 1);
    assert_eq!(parameters.nonce_size, 4);
    assert_eq!(parameters.key_ring_size, 58);
    assert_eq!(parameters.key_pool_size, 1000);
    assert_eq!(parameters.aes_block_size, 16);
}

#[test]
fn two_edges_take_four_multiplications() {
    assert_eq!(ifkms::number_of_multiplications(line()), 4);
    assert_eq!(pool_hash::number_of_multiplications(line()), 4);
}

#[test]
fn multiplications_count_every_neighbor() {
    assert_eq!(ifkms::number_of_multiplications(star()), 6);
    assert_eq!(pool_hash::number_of_multiplications(star()), 6);
    assert_eq!(ifkms::number_of_multiplications(NodesVec::new()), 0);
    assert_eq!(pool_hash::number_of_multiplications(NodesVec::new()), 0);
}

#[test]
fn multiplications_of_a_generated_network() {
    for _ in 0..20 {
        let nodes = initialize_network(30, 3, 1, 5).unwrap();
        let expected: usize = nodes.iter().map(|node| node.neighbors.len()).sum();
        assert_eq!(ifkms::number_of_multiplications(nodes.clone()), expected as u32);
        assert_eq!(pool_hash::number_of_multiplications(nodes.clone()), expected as u32);
        assert_eq!(ifkms::number_pairwise_hashes(nodes.clone()), 2 * expected as u32);
        assert_eq!(total_neighbors(&nodes), expected as u128);
    }
}

#[test]
fn hashes_are_twice_the_neighbors() {
    assert_eq!(ifkms::number_pairwise_hashes(line()), 8);
    assert_eq!(ifkms::number_pairwise_hashes(star()), 12);
    assert_eq!(ifkms::number_pairwise_hashes(NodesVec::new()), 0);
}

#[test]
fn pairwise_establishment_takes_no_encryption() {
    assert_eq!(ifkms::number_of_pairwise_encryptions(line()), 0);
    assert_eq!(ifkms::number_of_pairwise_encryptions(star()), 0);
}

#[test]
fn handshake_message_size() {
    let parameters = SchemeParameters::default();
    assert_eq!(ifkms::message_size(&parameters, 16), 25);
    assert_eq!(ifkms::message_size(&parameters, 64), 73);
    assert_eq!(ifkms::message_size(&parameters, 0), 9);
    let widest = SchemeParameters {
        node_id_size: u32::MAX,
        message_type_size: u32::MAX,
        nonce_size: u32::MAX,
        ..parameters
    };
    assert_eq!(ifkms::message_size(&widest, u32::MAX), 4 * (u32::MAX as u64));
}

#[test]
fn totals_over_all_nodes() {
    assert_eq!(total_neighbors(&line()), 4);
    assert_eq!(total_neighbors(&star()), 6);
    assert_eq!(total_neighbors(&NodesVec::new()), 0);
}

#[test]
fn gateways_are_left_out_of_the_constrained_totals() {
    assert_eq!(constrained_nodes(&line()), 2);
    assert_eq!(constrained_neighbors(&line()), 2);
    assert_eq!(constrained_nodes(&star()), 3);
    assert_eq!(constrained_neighbors(&star()), 5);
    assert_eq!(constrained_nodes(&NodesVec::new()), 0);
    assert_eq!(constrained_neighbors(&NodesVec::new()), 0);
}

#[test]
fn constrained_totals_of_generated_networks() {
    let only_gateways = initialize_network(10, 10, 2, 4).unwrap();
    assert_eq!(constrained_nodes(&only_gateways), 0);
    assert_eq!(constrained_neighbors(&only_gateways), 0);
    let no_gateways = initialize_network(10, 0, 2, 4).unwrap();
    assert_eq!(constrained_nodes(&no_gateways), 10);
    assert_eq!(constrained_neighbors(&no_gateways), total_neighbors(&no_gateways));
}

#[test]
fn payload_of_the_default_parameters() {
    let parameters = SchemeParameters::default();
    assert_eq!(pool_hash::message_size_before_encryption(&parameters), 241);
}

#[test]
fn payload_never_overflows() {
    let widest = SchemeParameters {
        node_id_size: u32::MAX,
        message_type_size: u32::MAX,
        nonce_size: u32::MAX,
        key_ring_size: u32::MAX,
        ..SchemeParameters::default()
    };
    let max = u32::MAX as u128;
    assert_eq!(pool_hash::message_size_before_encryption(&widest), 3 * max + max * max);
    let padded = pool_hash::padded_message_size(&widest, u32::MAX);
    assert_eq!(padded % max, 0);
    assert!(padded >= 3 * max + max * max);
    assert!(padded < 4 * max + max * max);
}

#[test]
fn padded_size_of_the_default_parameters() {
    let parameters = SchemeParameters::default();
    assert_eq!(pool_hash::padded_message_size(&parameters, 16), 256);
    assert_eq!(pool_hash::padded_message_size(&parameters, 1), 241);
    assert_eq!(pool_hash::padded_message_size(&parameters, 241), 241);
    assert_eq!(pool_hash::padded_message_size(&parameters, 64), 256);
    assert_eq!(pool_hash::padded_message_size(&parameters, 1000), 1000);
}

#[test]
fn padding_rounds_up_to_the_block() {
    assert_eq!(pool_hash::pad_to_block(237, 16), 240);
    assert_eq!(pool_hash::pad_to_block(240, 16), 240);
    assert_eq!(pool_hash::pad_to_block(241, 16), 256);
    assert_eq!(pool_hash::pad_to_block(1, 16), 16);
    assert_eq!(pool_hash::pad_to_block(15, 16), 16);
    assert_eq!(pool_hash::pad_to_block(17, 16), 32);
}

#[test]
fn an_empty_message_is_not_padded() {
    assert_eq!(pool_hash::pad_to_block(0, 16), 0);
    assert_eq!(pool_hash::pad_to_block(0, 1), 0);
}

#[test]
fn padded_size_is_a_multiple_of_the_block() {
    let parameters = SchemeParameters::default();
    for block in 1..=300u32 {
        let padded = pool_hash::padded_message_size(&parameters, block);
        assert_eq!(padded % block as u128, 0);
        assert!(padded >= 241);
        assert!(padded < 241 + block as u128);
    }
    for size in 0..200u128 {
        for block in 1..40u32 {
            let padded = pool_hash::pad_to_block(size, block);
            assert_eq!(padded % block as u128, 0);
            assert!(size <= padded && padded < size + block as u128);
        }
    }
}
