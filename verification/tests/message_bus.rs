use star_os::bus::message_bus::{causal_path_count, expert_for_target, route_target};
use star_os::models::ExpertType;

#[test]
fn categories_route_to_their_experts() {
    assert_eq!(route_target("security"), "textcnn");
    assert_eq!(route_target("semantic"), "encoder");
    assert_eq!(route_target("language"), "transformer");
    assert_eq!(route_target("causal"), "gnn");
    assert_eq!(route_target("anything"), "textcnn");
}

#[test]
fn targets_map_to_expert_types() {
    assert_eq!(expert_for_target("textcnn"), ExpertType::TextCNN);
    assert_eq!(expert_for_target("snn"), ExpertType::SNN);
    assert_eq!(expert_for_target("transformer"), ExpertType::Transformer);
    assert_eq!(expert_for_target("encoder"), ExpertType::SemanticEncoder);
    assert_eq!(expert_for_target("gnn"), ExpertType::TextCNN);
}

#[test]
fn causal_paths_per_category() {
    assert_eq!(causal_path_count("security"), 4);
    assert_eq!(causal_path_count("semantic"), 3);
    assert_eq!(causal_path_count("causal"), 5);
    assert_eq!(causal_path_count("language"), 2);
}
