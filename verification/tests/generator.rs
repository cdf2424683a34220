use evkms_metrics_simulation::generator::{
    assign_ids, check_parameters, connect, lists_neighbor, possible_neighbors,
};
use evkms_metrics_simulation::{
    initialize_network, ConfigurationError, Node, NodeType, NodesVec,
};

fn network(nodes: Vec<(NodeType, Vec<usize>, usize)>) -> NodesVec {
    let mut network = NodesVec::new();
    for (id, (kind, neighbors, cap)) in nodes.into_iter().enumerate() {
        network.push(Node::new(id, kind, neighbors, cap));
    }
    network
}

fn unlinked(caps: &[usize]) -> NodesVec {
    network(
        caps.iter()
            .map(|cap| (NodeType::Constrained, vec![], *cap))
            .collect(),
    )
}

fn neighbor_lists(nodes: &NodesVec) -> Vec<Vec<usize>> {
    nodes.iter().map(|node| node.neighbors.clone()).collect()
}

fn assert_well_formed(nodes: &NodesVec) {
    for (position, node) in nodes.iter().enumerate() {
        assert_eq!(node.id, position);
        assert!(node.neighbors.len() <= node.max_possible_neighbors);
        assert!(!node.neighbors.contains(&position));
        for (at, neighbor) in node.neighbors.iter().enumerate() {
            assert!(*neighbor < nodes.len());
            assert!(!node.neighbors[..at].contains(neighbor));
            assert!(nodes[*neighbor].neighbors.contains(&position));
        }
    }
}

fn assert_saturated(nodes: &NodesVec) {
    for u in 0..nodes.len() {
        for v in 0..nodes.len() {
            if u != v && !nodes[u].neighbors.contains(&v) {
                let u_full = nodes[u].neighbors.len() >= nodes[u].max_possible_neighbors;
                let v_full = nodes[v].neighbors.len() >= nodes[v].max_possible_neighbors;
                assert!(u_full || v_full);
            }
        }
    }
}

fn is_complete(nodes: &NodesVec) -> bool {
    (0..nodes.len()).all(|u| (0..nodes.len()).all(|v| u == v || nodes[u].neighbors.contains(&v)))
}

/// Every network that linking can end in when the nodes from `i` on are still
/// to be processed and node `i` has `remaining` draws left.
fn outcomes(nodes: NodesVec, i: usize, remaining: usize, found: &mut Vec<NodesVec>) {
    if i == nodes.len() {
        found.push(nodes);
        return;
    }
    let candidates = possible_neighbors(&nodes, i);
    if remaining == 0 || candidates.is_empty() {
        let next = i + 1;
        let draws = if next < nodes.len() {
            nodes[next].max_possible_neighbors - nodes[next].neighbors.len()
        } else {
            0
        };
        outcomes(nodes, next, draws, found);
        return;
    }
    for candidate in candidates {
        let mut linked = nodes.clone();
        connect(&mut linked, i, candidate);
        outcomes(linked, i, remaining - 1, found);
    }
}

fn all_outcomes(caps: &[usize]) -> Vec<NodesVec> {
    let nodes = unlinked(caps);
    let draws = if caps.is_empty() { 0 } else { caps[0] };
    let mut found = Vec::new();
    outcomes(nodes, 0, draws, &mut found);
    found
}

#[test]
fn parameters_in_order_are_accepted() {
    assert_eq!(check_parameters(10, 1, 2, 5), Ok(()));
    assert_eq!(check_parameters(0, 0, 0, 0), Ok(()));
    assert_eq!(check_parameters(7, 7, 3, 3), Ok(()));
}

#[test]
fn negative_values_are_refused() {
    assert_eq!(check_parameters(-1, 0, 0, 0), Err(ConfigurationError::NegativeCount));
    assert_eq!(check_parameters(5, -1, 0, 0), Err(ConfigurationError::NegativeCount));
    assert_eq!(check_parameters(5, 1, -1, 0), Err(ConfigurationError::NegativeCount));
    assert_eq!(check_parameters(5, 1, 0, -1), Err(ConfigurationError::NegativeCount));
}

#[test]
fn too_many_gateways_are_refused() {
    assert_eq!(check_parameters(4, 5, 1, 2), Err(ConfigurationError::TooManyGateways));
    assert_eq!(check_parameters(0, 1, 0, 0), Err(ConfigurationError::TooManyGateways));
}

#[test]
fn empty_degree_range_is_refused() {
    assert_eq!(check_parameters(4, 2, 3, 2), Err(ConfigurationError::EmptyDegreeRange));
    assert_eq!(check_parameters(0, 0, 1, 0), Err(ConfigurationError::EmptyDegreeRange));
}

#[test]
fn faults_are_reported_in_order() {
    assert_eq!(check_parameters(-4, 5, 3, 2), Err(ConfigurationError::NegativeCount));
    assert_eq!(check_parameters(4, 5, 3, 2), Err(ConfigurationError::TooManyGateways));
}

#[test]
fn generator_refuses_what_the_check_refuses() {
    assert_eq!(
        initialize_network(-1, 0, 0, 0).err(),
        Some(ConfigurationError::NegativeCount)
    );
    assert_eq!(
        initialize_network(4, 5, 1, 2).err(),
        Some(ConfigurationError::TooManyGateways)
    );
    assert_eq!(
        initialize_network(4, 2, 3, 2).err(),
        Some(ConfigurationError::EmptyDegreeRange)
    );
}

#[test]
fn no_nodes_give_an_empty_network() {
    let nodes = initialize_network(0, 0, 2, 5).unwrap();
    assert_eq!(nodes.len(), 0);
}

#[test]
fn generated_networks_are_well_formed_and_saturated() {
    for run in 0..200 {
        let total = 1 + run % 30;
        let gateways = total / 10;
        let low = run % 4;
        let high = low + run % 7;
        let nodes = initialize_network(total, gateways, low, high).unwrap();
        assert_eq!(nodes.len(), total as usize);
        assert_eq!(
            nodes.iter().filter(|node| node.kind == NodeType::Gateway).count(),
            gateways as usize
        );
        for node in nodes.iter() {
            assert!(low as usize <= node.max_possible_neighbors);
            assert!(node.max_possible_neighbors <= high as usize);
        }
        assert_well_formed(&nodes);
        assert_saturated(&nodes);
    }
}

#[test]
fn adjacency_is_symmetric() {
    for _ in 0..50 {
        let nodes = initialize_network(25, 3, 1, 6).unwrap();
        for u in 0..nodes.len() {
            for v in 0..nodes.len() {
                assert_eq!(
                    nodes[u].neighbors.contains(&v),
                    nodes[v].neighbors.contains(&u)
                );
            }
        }
    }
}

#[test]
fn no_node_exceeds_its_cap_or_lists_itself() {
    for _ in 0..50 {
        let nodes = initialize_network(40, 4, 0, 9).unwrap();
        for (position, node) in nodes.iter().enumerate() {
            assert!(node.neighbors.len() <= node.max_possible_neighbors);
            assert!(!node.neighbors.contains(&position));
        }
    }
}

#[test]
fn without_gateways_every_node_is_constrained() {
    let nodes = initialize_network(12, 0, 1, 3).unwrap();
    assert_eq!(nodes.len(), 12);
    assert!(nodes.iter().all(|node| node.kind == NodeType::Constrained));
}

#[test]
fn with_only_gateways_every_node_is_a_gateway() {
    let nodes = initialize_network(12, 12, 1, 3).unwrap();
    assert_eq!(nodes.len(), 12);
    assert!(nodes.iter().all(|node| node.kind == NodeType::Gateway));
}

#[test]
fn zero_caps_leave_the_network_without_edges() {
    let nodes = initialize_network(9, 2, 0, 0).unwrap();
    assert!(nodes.iter().all(|node| node.neighbors.is_empty()));
    assert!(nodes.iter().all(|node| node.max_possible_neighbors == 0));
}

#[test]
fn full_caps_connect_four_nodes_completely() {
    for _ in 0..100 {
        let nodes = initialize_network(4, 1, 3, 3).unwrap();
        assert!(is_complete(&nodes));
        assert!(nodes.iter().all(|node| node.neighbors.len() == 3));
    }
}

#[test]
fn full_caps_connect_completely_whatever_is_drawn() {
    for total in 1..=5usize {
        let caps = vec![total - 1; total];
        let found = all_outcomes(&caps);
        assert!(!found.is_empty());
        for nodes in found.iter() {
            assert_well_formed(nodes);
            assert!(is_complete(nodes));
        }
    }
    assert_eq!(all_outcomes(&[3, 3, 3, 3]).len(), 12);
}

#[test]
fn every_outcome_is_well_formed_and_saturated() {
    for caps in [
        vec![1, 1, 1],
        vec![2, 2, 2, 1],
        vec![1, 3, 2, 2],
        vec![0, 2, 1, 3],
        vec![2, 1, 1, 2, 2],
    ] {
        for nodes in all_outcomes(&caps).iter() {
            assert_well_formed(nodes);
            assert_saturated(nodes);
        }
    }
}

#[test]
fn a_node_may_stay_below_its_cap() {
    let found = all_outcomes(&[1, 1, 1]);
    assert_eq!(found.len(), 2);
    assert_eq!(neighbor_lists(&found[0]), vec![vec![1], vec![0], vec![]]);
    assert_eq!(neighbor_lists(&found[1]), vec![vec![2], vec![], vec![0]]);
}

#[test]
fn caps_are_drawn_across_the_range() {
    let nodes = initialize_network(200, 20, 0, 1_000_000).unwrap();
    assert!(nodes.iter().all(|node| node.max_possible_neighbors <= 1_000_000));
    assert!(nodes.iter().any(|node| node.max_possible_neighbors != 0));
    let first = nodes[0].max_possible_neighbors;
    assert!(nodes.iter().any(|node| node.max_possible_neighbors != first));
}

#[test]
fn gateways_do_not_stay_in_front() {
    let mut moved = false;
    for _ in 0..50 {
        let nodes = initialize_network(20, 10, 0, 0).unwrap();
        assert_eq!(
            nodes.iter().filter(|node| node.kind == NodeType::Gateway).count(),
            10
        );
        if nodes[10..].iter().any(|node| node.kind == NodeType::Gateway) {
            moved = true;
        }
    }
    assert!(moved);
}

#[test]
fn neighbors_are_not_always_the_first_candidate() {
    let mut varied = false;
    for _ in 0..50 {
        let nodes = initialize_network(30, 0, 1, 1).unwrap();
        if nodes[0].neighbors != vec![1] {
            varied = true;
        }
    }
    assert!(varied);
}

#[test]
fn ids_follow_positions() {
    let mut nodes = NodesVec::new();
    nodes.push(Node::new(7, NodeType::Gateway, vec![], 2));
    nodes.push(Node::new(7, NodeType::Constrained, vec![], 4));
    nodes.push(Node::new(0, NodeType::Constrained, vec![], 1));
    assign_ids(&mut nodes);
    assert_eq!(nodes.iter().map(|node| node.id).collect::<Vec<_>>(), vec![0, 1, 2]);
    assert_eq!(nodes[0].kind, NodeType::Gateway);
    assert_eq!(nodes[1].kind, NodeType::Constrained);
    assert_eq!(
        nodes.iter().map(|node| node.max_possible_neighbors).collect::<Vec<_>>(),
        vec![2, 4, 1]
    );
    assert!(nodes.iter().all(|node| node.neighbors.is_empty()));
}

#[test]
fn listed_neighbors_are_found() {
    let node = Node::new(0, NodeType::Constrained, vec![3, 1, 4], 5);
    assert!(lists_neighbor(&node, 3));
    assert!(lists_neighbor(&node, 4));
    assert!(!lists_neighbor(&node, 0));
    assert!(!lists_neighbor(&node, 2));
    let lonely = Node::new(1, NodeType::Gateway, vec![], 5);
    assert!(!lists_neighbor(&lonely, 0));
}

#[test]
fn candidates_are_the_other_nodes_with_room() {
    let nodes = network(vec![
        (NodeType::Constrained, vec![1], 3),
        (NodeType::Constrained, vec![0, 2], 2),
        (NodeType::Gateway, vec![1], 2),
        (NodeType::Constrained, vec![], 0),
        (NodeType::Constrained, vec![], 1),
    ]);
    assert_eq!(possible_neighbors(&nodes, 0), vec![2, 4]);
    assert_eq!(possible_neighbors(&nodes, 1), vec![4]);
    assert_eq!(possible_neighbors(&nodes, 2), vec![0, 4]);
    assert_eq!(possible_neighbors(&nodes, 3), vec![0, 2, 4]);
    assert_eq!(possible_neighbors(&nodes, 4), vec![0, 2]);
}

#[test]
fn a_single_node_has_no_candidates() {
    let nodes = unlinked(&[3]);
    assert_eq!(possible_neighbors(&nodes, 0), Vec::<usize>::new());
}

#[test]
fn connecting_adds_one_edge_in_both_directions() {
    let mut nodes = network(vec![
        (NodeType::Constrained, vec![1], 3),
        (NodeType::Constrained, vec![0], 2),
        (NodeType::Gateway, vec![], 2),
    ]);
    connect(&mut nodes, 0, 2);
    assert_eq!(neighbor_lists(&nodes), vec![vec![1, 2], vec![0], vec![0]]);
    connect(&mut nodes, 2, 1);
    assert_eq!(neighbor_lists(&nodes), vec![vec![1, 2], vec![0, 2], vec![0, 1]]);
    assert_eq!(nodes[2].kind, NodeType::Gateway);
    assert_eq!(
        nodes.iter().map(|node| node.max_possible_neighbors).collect::<Vec<_>>(),
        vec![3, 2, 2]
    );
    assert_well_formed(&nodes);
}

#[test]
fn new_node_keeps_what_it_is_given() {
    let node = Node::new(3, NodeType::Gateway, vec![1, 2], 6);
    assert_eq!(node.id, 3);
    assert_eq!(node.kind, NodeType::Gateway);
    assert_eq!(node.neighbors, vec![1, 2]);
    assert_eq!(node.max_possible_neighbors, 6);
}

#[test]
fn new_network_is_empty() {
    let nodes = NodesVec::new();
    assert_eq!(nodes.len(), 0);
    assert!(nodes.is_empty());
}
