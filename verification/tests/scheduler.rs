use star_os::utils::scheduler::{LoadStrategy, ModelScheduler, ModelState, SchedulerConfig};

#[test]
fn test_scheduler_init() {
    let scheduler = ModelScheduler::new();
    let models = scheduler.list_models();
    assert_eq!(models.len(), 9);
}

#[test]
fn test_scheduler_warmup() {
    let scheduler = ModelScheduler::new();
    let resident_ready = scheduler
        .list_models()
        .iter()
        .filter(|(_, strategy, state, _)| *strategy == LoadStrategy::Resident && *state == ModelState::Ready)
        .count();
    assert_eq!(resident_ready, 2);
}

#[test]
fn test_load_model() {
    let mut scheduler = ModelScheduler::new();
    scheduler.load_model("moe_router").unwrap();
    let model = scheduler.registry("moe_router").unwrap();
    assert_eq!(model.state, ModelState::Ready);
}

#[test]
fn test_unload_model() {
    let mut scheduler = ModelScheduler::new();
    scheduler.load_model("mamba").unwrap();
    scheduler.unload_model("mamba").unwrap();
    let model = scheduler.registry("mamba").unwrap();
    assert_eq!(model.state, ModelState::Unloaded);
}

#[test]
fn test_cannot_unload_resident() {
    let mut scheduler = ModelScheduler::new();
    let result = scheduler.unload_model("textcnn");
    assert!(result.is_err());
}

#[test]
fn test_schedule_inference() {
    let mut scheduler = ModelScheduler::new();
    let schedule = scheduler.schedule_inference("security");
    assert_eq!(schedule.required_models.len(), 3);
}

#[test]
fn default_config_figures() {
    let config = SchedulerConfig::default();
    assert_eq!(config.max_memory, 6 * 1024 * 1024 * 1024);
    assert_eq!(config.memory_warning_permille, 700);
    assert_eq!(config.memory_unload_permille, 850);
    assert!(config.warmup_on_start);
    assert_eq!(config.default_timeout_ms, 1000);
}

#[test]
fn warmup_loads_resident_models_once() {
    let scheduler = ModelScheduler::new();
    let textcnn = scheduler.registry("textcnn").unwrap();
    assert_eq!(textcnn.state, ModelState::Ready);
    assert_eq!(textcnn.load_count, 1);
    assert_eq!(textcnn.timeout_ms, 500);
    let gnn = scheduler.registry("gnn").unwrap();
    assert_eq!(gnn.state, ModelState::Unloaded);
    assert_eq!(gnn.load_count, 0);
    assert_eq!(gnn.timeout_ms, 3000);
    let usage = scheduler.memory_usage();
    assert_eq!(usage.total, 1_500_000);
    assert_eq!(usage.resident, 1_500_000);
    assert_eq!(usage.on_demand, 0);
    assert!(usage.warmed_up);
}

#[test]
fn load_adds_memory_and_unload_gives_it_back() {
    let mut scheduler = ModelScheduler::new();
    scheduler.load_model("transformer").unwrap();
    let usage = scheduler.memory_usage();
    assert_eq!(usage.total, 13_500_000);
    assert_eq!(usage.on_demand, 12_000_000);
    assert_eq!(usage.resident + usage.on_demand, usage.total);
    scheduler.unload_model("transformer").unwrap();
    assert_eq!(scheduler.memory_usage().total, 1_500_000);
    let transformer = scheduler.registry("transformer").unwrap();
    assert_eq!(transformer.state, ModelState::Unloaded);
    assert_eq!(transformer.load_count, 1);
}

#[test]
fn loading_twice_is_loading_once() {
    let mut scheduler = ModelScheduler::new();
    scheduler.load_model("vae").unwrap();
    scheduler.load_model("vae").unwrap();
    let vae = scheduler.registry("vae").unwrap();
    assert_eq!(vae.load_count, 1);
    assert_eq!(scheduler.memory_usage().total, 3_500_000);
}

#[test]
fn load_unknown_model_fails_with_message() {
    let mut scheduler = ModelScheduler::new();
    let err = scheduler.load_model("bert").unwrap_err();
    assert_eq!(err, "模型 'bert' 未注册");
    assert_eq!(scheduler.memory_usage().total, 1_500_000);
}

#[test]
fn unload_errors_name_their_reason() {
    let mut scheduler = ModelScheduler::new();
    assert_eq!(scheduler.unload_model("nope").unwrap_err(), "模型 'nope' 未注册");
    assert_eq!(scheduler.unload_model("ga").unwrap_err(), "模型 'ga' 是常驻模型，不可卸载");
    assert_eq!(scheduler.unload_model("snn").unwrap_err(), "模型 'snn' 当前状态为 Unloaded，无法卸载");
    assert_eq!(scheduler.registry("ga").unwrap().state, ModelState::Ready);
}

#[test]
fn get_model_loads_and_counts_inferences() {
    let mut scheduler = ModelScheduler::new();
    assert_eq!(scheduler.get_model("encoder").unwrap(), ModelState::Ready);
    assert_eq!(scheduler.get_model("encoder").unwrap(), ModelState::Ready);
    let encoder = scheduler.registry("encoder").unwrap();
    assert_eq!(encoder.inference_count, 2);
    assert_eq!(encoder.load_count, 1);
    assert_eq!(scheduler.get_model("missing").unwrap_err(), "模型 'missing' 未注册");
    let listed = scheduler.list_models();
    let entry = listed.iter().find(|(name, _, _, _)| name == "encoder").unwrap();
    assert_eq!(entry.3, 2);
}

#[test]
fn list_models_in_registration_order() {
    let scheduler = ModelScheduler::new();
    let names: Vec<String> = scheduler.list_models().into_iter().map(|(name, _, _, _)| name).collect();
    assert_eq!(
        names,
        vec!["textcnn", "ga", "moe_router", "mamba", "transformer", "encoder", "gnn", "vae", "snn"]
    );
}

#[test]
fn schedule_causal_task() {
    let mut scheduler = ModelScheduler::new();
    let schedule = scheduler.schedule_inference("causal");
    assert_eq!(schedule.task_type, "causal");
    assert_eq!(schedule.required_models, vec!["moe_router", "gnn", "mamba", "vae"]);
    assert_eq!(schedule.loaded_models, schedule.required_models);
    assert!(schedule.load_errors.is_empty());
    assert_eq!(schedule.estimated_memory, 1_000_000 + 1_000_000 + 4_000_000 + 2_000_000);
    assert_eq!(schedule.timeout_ms, 1000);
    for name in ["moe_router", "gnn", "mamba", "vae"] {
        assert_eq!(scheduler.registry(name).unwrap().state, ModelState::Ready);
    }
    assert_eq!(scheduler.memory_usage().total, 1_500_000 + 8_000_000);
}

#[test]
fn schedule_unknown_task_uses_security_models() {
    let mut scheduler = ModelScheduler::new();
    let schedule = scheduler.schedule_inference("poetry");
    assert_eq!(schedule.required_models, vec!["moe_router", "textcnn", "mamba"]);
    assert_eq!(schedule.estimated_memory, 6_000_000);
    let decision = scheduler.schedule_inference("decision");
    assert_eq!(decision.required_models, vec!["moe_router", "mamba", "gnn", "snn"]);
}
