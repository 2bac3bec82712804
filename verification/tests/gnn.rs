use star_os::models::gnn::{GnnConfig, Graph};

#[test]
fn gnn_default_config() {
    let config = GnnConfig::default();
    assert_eq!(config.node_dim, 32);
    assert_eq!(config.hidden_dim, 16);
}

#[test]
fn test_graph_operations() {
    let mut graph = Graph::empty(32);
    for _ in 0..5 {
        graph.add_node();
    }
    graph.add_edge(0, 1);
    graph.add_edge(1, 2);

    assert_eq!(graph.num_nodes, 5);
    assert_eq!(graph.edges.len(), 2);
    assert_eq!(graph.neighbors(1), vec![0, 2]);
}

#[test]
fn test_causal_graph() {
    let graph = Graph::example_causal_graph();
    assert_eq!(graph.num_nodes, 5);
    assert_eq!(graph.edges.len(), 4);
}

#[test]
fn graph_add_node_returns_previous_count() {
    let mut graph = Graph::empty(8);
    assert_eq!(graph.add_node(), 0);
    assert_eq!(graph.add_node(), 1);
    assert_eq!(graph.add_node(), 2);
    assert_eq!(graph.num_nodes, 3);
    assert_eq!(graph.node_dim, 8);
    assert!(graph.edges.is_empty());
}

#[test]
fn graph_neighbors_follow_edge_order_and_are_symmetric() {
    let graph = Graph::example_semantic_graph();
    assert_eq!(graph.num_nodes, 8);
    assert_eq!(graph.edges, vec![(0, 1), (0, 2), (1, 3), (2, 4), (3, 5), (4, 6), (5, 7)]);
    assert_eq!(graph.neighbors(0), vec![1, 2]);
    assert_eq!(graph.neighbors(3), vec![1, 5]);
    assert_eq!(graph.neighbors(7), vec![5]);
    for a in 0..8 {
        for b in graph.neighbors(a) {
            assert!(graph.neighbors(b).contains(&a));
        }
    }
}

#[test]
fn graph_neighbors_of_isolated_node_and_loops() {
    let mut graph = Graph::empty(4);
    for _ in 0..3 {
        graph.add_node();
    }
    graph.add_edge(0, 0);
    graph.add_edge(2, 0);
    assert_eq!(graph.neighbors(0), vec![0, 2]);
    assert_eq!(graph.neighbors(1), Vec::<usize>::new());
    assert_eq!(graph.neighbors(2), vec![0]);
}

#[test]
fn causal_graph_edges() {
    let graph = Graph::example_causal_graph();
    assert_eq!(graph.edges, vec![(0, 1), (1, 2), (2, 3), (0, 4)]);
    assert_eq!(graph.neighbors(0), vec![1, 4]);
}

#[test]
fn gnn_configs_and_parameter_counts() {
    let causal = GnnConfig::causal();
    assert_eq!((causal.node_dim, causal.hidden_dim, causal.output_dim, causal.num_layers, causal.edge_dim), (64, 32, 16, 3, 16));
    // 32*16*2 + 16*16*2 + 16*8
    assert_eq!(GnnConfig::default().param_count(), 1024 + 512 + 128);
    // 64*32*2 + 32*32*2 + 32*8
    assert_eq!(causal.param_count(), 4096 + 2048 + 256);
}
