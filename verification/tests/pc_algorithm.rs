use star_os::utils::pc_algorithm::{PcAlgorithm, PcAlgorithmConfig};

#[test]
fn default_search_configuration() {
    let pc = PcAlgorithm::default();
    assert_eq!(pc.config.max_condition_set_size, 3);
    assert!(pc.config.stable);
}

#[test]
fn infer_counts_variables() {
    let pc = PcAlgorithm::default();
    let names = vec!["A".to_string(), "B".to_string(), "C".to_string(), "D".to_string()];
    let never_independent = |_: usize, _: usize, _: &[usize]| false;
    let result = pc.infer_causal_graph(&names, &never_independent);
    assert_eq!(result.num_variables, 4);
}

#[test]
fn test_condition_sets() {
    let pc = PcAlgorithm::default();
    let neighbors = vec![1, 2, 3, 4];
    let sets = pc.generate_condition_sets(&neighbors, 2);
    assert!(!sets.is_empty());
}

#[test]
fn condition_sets_are_subsets() {
    let pc = PcAlgorithm::default();
    let neighbors = vec![1, 2, 3, 4];
    assert_eq!(
        pc.generate_condition_sets(&neighbors, 2),
        vec![vec![1, 2], vec![1, 3], vec![1, 4], vec![2, 3], vec![2, 4], vec![3, 4]]
    );
    assert_eq!(pc.generate_condition_sets(&neighbors, 0), vec![Vec::<usize>::new()]);
    assert_eq!(pc.generate_condition_sets(&neighbors, 4), vec![vec![1, 2, 3, 4]]);
    assert_eq!(pc.generate_condition_sets(&neighbors, 5), Vec::<Vec<usize>>::new());
    let many: Vec<usize> = (0..12).collect();
    let sets = pc.generate_condition_sets(&many, 3);
    assert_eq!(sets.len(), 10);
    assert_eq!(sets[0], vec![0, 1, 2]);
    assert_eq!(sets[9], vec![0, 1, 11]);
}

#[test]
fn never_independent_keeps_complete_skeleton() {
    let pc = PcAlgorithm::default();
    let skeleton = pc.discover_skeleton(4, &|_: usize, _: usize, _: &[usize]| false);
    assert_eq!(skeleton, vec![(0, 1), (0, 2), (0, 3), (1, 2), (1, 3), (2, 3)]);
}

#[test]
fn always_independent_removes_every_edge() {
    let pc = PcAlgorithm::default();
    let skeleton = pc.discover_skeleton(4, &|_: usize, _: usize, _: &[usize]| true);
    assert!(skeleton.is_empty());
}

#[test]
fn conditional_independence_removes_only_tested_pair() {
    // A - B - C chain: A and C are independent given B.
    let pc = PcAlgorithm::new(PcAlgorithmConfig { max_condition_set_size: 1, stable: true });
    let test = |a: usize, b: usize, s: &[usize]| a == 0 && b == 2 && s == [1];
    let skeleton = pc.discover_skeleton(3, &test);
    assert_eq!(skeleton, vec![(0, 1), (1, 2)]);
}

#[test]
fn orientation_finds_colliders() {
    let pc = PcAlgorithm::default();
    // Path 0 - 1 - 2: 0 and 2 are not adjacent, so 0 -> 1 <- 2.
    assert_eq!(pc.orient_edges(&vec![(0, 1), (1, 2)], 3), vec![(0, 1), (2, 1)]);
    // A triangle has no unshielded collider.
    assert!(pc.orient_edges(&vec![(0, 1), (0, 2), (1, 2)], 3).is_empty());
    // Path 0 - 1 - 2 - 3: colliders at 1 (from 0 and 2) and at 2 (from 1 and 3).
    assert_eq!(pc.orient_edges(&vec![(0, 1), (1, 2), (2, 3)], 4), vec![(0, 1), (1, 2), (2, 1), (3, 2)]);
    // Star around 0: every two leaves form a collider at 0.
    assert_eq!(pc.orient_edges(&vec![(0, 1), (0, 2), (0, 3)], 4), vec![(1, 0), (2, 0), (3, 0)]);
}

#[test]
fn infer_builds_graph_of_arrows() {
    let pc = PcAlgorithm::default();
    let names = vec!["X".to_string(), "Y".to_string(), "Z".to_string()];
    let result = pc.infer_causal_graph(&names, &|_: usize, _: usize, _: &[usize]| false);
    assert_eq!(result.skeleton_edges, vec![(0, 1), (0, 2), (1, 2)]);
    assert_eq!(result.graph.num_nodes, 3);
    assert_eq!(result.graph.edges, result.oriented_edges);
    assert_eq!(result.variable_names, names);
}

#[test]
fn conditioning_sets_come_from_current_neighbors() {
    // Level 0 removes 0 - 1, so at level 1 the variable 0 has no other
    // neighbour than 2 and the set {1} is never tried for the pair 0 - 2.
    let pc = PcAlgorithm::new(PcAlgorithmConfig { max_condition_set_size: 1, stable: true });
    let test = |a: usize, b: usize, s: &[usize]| (a == 0 && b == 1 && s.is_empty()) || (a == 0 && b == 2 && s == [1]);
    let skeleton = pc.discover_skeleton(3, &test);
    assert_eq!(skeleton, vec![(0, 2), (1, 2)]);
}

#[test]
fn stable_search_keeps_neighbors_of_the_level_start() {
    // At level 1, 0 - 1 goes given {2}. The stable search still draws 1 from
    // the neighbours that 0 had at the start of the level, so it also tests
    // 0 - 2 given {1} and removes it; the other search no longer can.
    let test = |a: usize, b: usize, s: &[usize]| (a == 0 && b == 1 && s == [2]) || (a == 0 && b == 2 && s == [1]);
    let stable = PcAlgorithm::new(PcAlgorithmConfig { max_condition_set_size: 1, stable: true });
    assert_eq!(stable.discover_skeleton(3, &test), vec![(1, 2)]);
    let unstable = PcAlgorithm::new(PcAlgorithmConfig { max_condition_set_size: 1, stable: false });
    assert_eq!(unstable.discover_skeleton(3, &test), vec![(0, 2), (1, 2)]);
}
