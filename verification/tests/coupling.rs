use emergent_coupling::{
    classify_mode, coupling_edges, degenerate_coupling, edge_position, first_emergent_index, sweep_points,
    CouplingEdge, CouplingMode, EdgeBlock, BRIDGE_NODES,
};

fn mode_of_alignment(alignment: f64) -> CouplingMode {
    classify_mode(alignment > 0.3, alignment < -0.3)
}

#[test]
fn aligned_modes_reinforce() {
    assert_eq!(mode_of_alignment(1.0), CouplingMode::Reinforcing);
    assert_eq!(mode_of_alignment(0.31), CouplingMode::Reinforcing);
}

#[test]
fn opposed_modes_compete() {
    assert_eq!(mode_of_alignment(-1.0), CouplingMode::Competitive);
    assert_eq!(mode_of_alignment(-0.31), CouplingMode::Competitive);
}

#[test]
fn weakly_aligned_modes_complement() {
    assert_eq!(mode_of_alignment(0.0), CouplingMode::Complementary);
    assert_eq!(mode_of_alignment(0.3), CouplingMode::Complementary);
    assert_eq!(mode_of_alignment(-0.3), CouplingMode::Complementary);
}

#[test]
fn reinforcing_threshold_takes_precedence() {
    assert_eq!(classify_mode(true, true), CouplingMode::Reinforcing);
    assert_eq!(classify_mode(false, true), CouplingMode::Competitive);
    assert_eq!(classify_mode(false, false), CouplingMode::Complementary);
}

fn edge(block: EdgeBlock, i: usize, j: usize) -> CouplingEdge {
    CouplingEdge { block, i, j }
}

#[test]
fn coupled_four_by_four_has_twenty_one_edges() {
    let edges = coupling_edges(4, 4);
    // 6 pairs within each system and a 3 x 3 bridge.
    assert_eq!(edges.len(), 21);
    assert_eq!(BRIDGE_NODES, 3);
    for a in 0..edges.len() {
        for b in 0..edges.len() {
            if a != b {
                assert_ne!(edges[a], edges[b]);
            }
        }
    }
    assert!(edges.contains(&edge(EdgeBlock::First, 0, 3)));
    assert!(edges.contains(&edge(EdgeBlock::Second, 2, 3)));
    assert!(edges.contains(&edge(EdgeBlock::Bridge, 2, 2)));
    assert!(!edges.contains(&edge(EdgeBlock::Bridge, 3, 0)));
    assert!(!edges.contains(&edge(EdgeBlock::First, 3, 3)));
}

#[test]
fn coupled_graph_of_small_systems() {
    assert!(coupling_edges(0, 0).is_empty());
    assert!(coupling_edges(1, 0).is_empty());
    let edges = coupling_edges(2, 1);
    assert_eq!(
        edges,
        vec![
            edge(EdgeBlock::First, 0, 1),
            edge(EdgeBlock::Bridge, 0, 0),
            edge(EdgeBlock::Bridge, 1, 0),
        ]
    );
}

#[test]
fn bridge_uses_at_most_three_nodes_of_each_system() {
    let edges = coupling_edges(5, 2);
    // 10 pairs in the first system, 1 in the second, 3 x 2 bridge.
    assert_eq!(edges.len(), 17);
    let bridge = edges.iter().filter(|e| e.block == EdgeBlock::Bridge).count();
    assert_eq!(bridge, 6);
}

#[test]
fn edge_positions_in_adjacency_matrix() {
    assert_eq!(edge_position(4, 3, edge(EdgeBlock::First, 1, 3)), (1, 3));
    assert_eq!(edge_position(4, 3, edge(EdgeBlock::Second, 0, 2)), (4, 6));
    assert_eq!(edge_position(4, 3, edge(EdgeBlock::Bridge, 2, 1)), (2, 5));
}

#[test]
fn edge_positions_are_distinct_and_above_diagonal() {
    let (n_a, n_b) = (4, 4);
    let edges = coupling_edges(n_a, n_b);
    let positions: Vec<(usize, usize)> =
        edges.iter().map(|e| edge_position(n_a, n_b, *e)).collect();
    for (a, p) in positions.iter().enumerate() {
        assert!(p.0 < p.1 && p.1 < n_a + n_b);
        for q in positions.iter().skip(a + 1) {
            assert_ne!(p, q);
        }
    }
}

#[test]
fn first_emergent_sample() {
    assert_eq!(first_emergent_index(&[false, false, true, false, true]), Some(2));
    assert_eq!(first_emergent_index(&[true]), Some(0));
    assert_eq!(first_emergent_index(&[false, false]), None);
    assert_eq!(first_emergent_index(&[]), None);
}

#[test]
fn sweep_has_steps_plus_one_points() {
    assert_eq!(sweep_points(10).len(), 11);
    assert_eq!(sweep_points(20).len(), 21);
    assert_eq!(sweep_points(0), vec![0]);
    assert_eq!(sweep_points(3), vec![0, 1, 2, 3]);
}

#[test]
fn couplings_with_fewer_than_two_nodes_are_degenerate() {
    let outcome = Some((CouplingMode::Complementary, false));
    assert_eq!(degenerate_coupling(0, 0), outcome);
    assert_eq!(degenerate_coupling(1, 0), outcome);
    assert_eq!(degenerate_coupling(0, 1), outcome);
    assert_eq!(degenerate_coupling(1, 1), None);
    assert_eq!(degenerate_coupling(2, 0), None);
    assert_eq!(degenerate_coupling(0, 4), None);
    assert_eq!(degenerate_coupling(usize::MAX, usize::MAX), None);
}

#[test]
fn sweep_runs_from_zero_to_steps_increasing() {
    let points = sweep_points(20);
    assert_eq!(points[0], 0);
    assert_eq!(points[20], 20);
    assert!(points.windows(2).all(|w| w[0] < w[1]));
}
