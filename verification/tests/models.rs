use star_os::models::mamba::MambaConfig;
use star_os::models::moe_router::{top_k_experts, MoERouterConfig};
use star_os::models::vae::VaeConfig;
use star_os::models::ExpertType;

#[test]
fn router_default_config() {
    let config = MoERouterConfig::default();
    assert_eq!(config.num_experts, 4);
    assert_eq!(config.top_k, 2);
}

#[test]
fn test_expert_type_mapping() {
    let config = MoERouterConfig::default();
    assert_eq!(config.map_expert_type(0), ExpertType::TextCNN);
    assert_eq!(config.map_expert_type(1), ExpertType::SNN);
    assert_eq!(config.map_expert_type(2), ExpertType::Transformer);
    assert_eq!(config.map_expert_type(3), ExpertType::SemanticEncoder);
}

#[test]
fn expert_mapping_wraps_and_unknown_remainders_are_textcnn() {
    let config = MoERouterConfig::default();
    assert_eq!(config.map_expert_type(5), ExpertType::SNN);
    let wide = MoERouterConfig::new(128, 6, 2, 64);
    assert_eq!(wide.map_expert_type(4), ExpertType::TextCNN);
    assert_eq!(wide.map_expert_type(9), ExpertType::SemanticEncoder);
}

#[test]
fn top_k_experts_by_score() {
    assert_eq!(top_k_experts(&[10, 40, 30, 20], 2), vec![1, 2]);
    // Identical rows give identical experts.
    assert_eq!(top_k_experts(&[5, 5, 9, 1], 2), top_k_experts(&[5, 5, 9, 1], 2));
    // Ties go to the lower index.
    assert_eq!(top_k_experts(&[5, 5, 9, 1], 2), vec![2, 0]);
    // Fewer experts than k: all of them, best first.
    assert_eq!(top_k_experts(&[3, 7], 4), vec![1, 0]);
    assert!(top_k_experts(&[], 2).is_empty());
    assert!(top_k_experts(&[1, 2, 3], 0).is_empty());
}

#[test]
fn router_parameter_count() {
    // 128*64 + 64 + 64*4
    assert_eq!(MoERouterConfig::default().param_count(), 8192 + 64 + 256);
}

#[test]
fn mamba_small_config() {
    let config = MambaConfig::small();
    assert_eq!(config.d_model, 128);
    assert_eq!(config.d_state, 16);
    assert_eq!(config.d_inner(), 256);
}

#[test]
fn mamba_parameter_counts() {
    // 128*256 + 256*256 + 256*16*3 + 256*128*2
    assert_eq!(MambaConfig::small().param_count(), 32768 + 65536 + 12288 + 65536);
    let medium = MambaConfig::medium();
    assert_eq!((medium.d_model, medium.dt_rank, medium.d_inner()), (256, 32, 512));
}

#[test]
fn vae_default_config() {
    let config = VaeConfig::default();
    assert_eq!(config.latent_dim, 16);
    assert_eq!(config.input_dim, 128);
}

#[test]
fn vae_configs_and_parameter_count() {
    let memory = VaeConfig::memory();
    assert_eq!((memory.input_dim, memory.hidden_dim, memory.latent_dim, memory.decoder_hidden_dim), (256, 128, 32, 128));
    // 128*64 + 64 + 64*16*2 + 16*2 + 16*64 + 64 + 64*128 + 128
    assert_eq!(VaeConfig::default().param_count(), 8192 + 64 + 2048 + 32 + 1024 + 64 + 8192 + 128);
}
