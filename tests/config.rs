use chatloop::config::{
    default_allocator, default_cache_size, default_cpu_pinning, default_discovery_method,
    default_failure_threshold,
    default_log_level, default_metrics, default_metrics_port, default_numa, default_preallocate,
    default_quantization, default_request_timeout, default_simd, default_structured_logging,
    default_worker_threads, AllocatorType, BatchingConfig, ChatLoopConfig, CoordinatorConfig,
    LayerGroupConfig, QuantizationType, WorkerConfig,
};
use chatloop::error::ChatLoopError;

fn worker_config(start: usize, end: usize, max_batch: usize, max_queue: usize) -> WorkerConfig {
    WorkerConfig {
        worker_id: "test-worker".to_string(),
        layer_group: LayerGroupConfig {
            start_layer: start,
            end_layer: end,
            total_layers: 32,
            num_heads: 32,
            head_dim: 128,
            hidden_dim: 4096,
            intermediate_dim: 11008,
        },
        next_worker_endpoint: Some("http://localhost:50052".to_string()),
        prev_worker_endpoint: None,
        batching: BatchingConfig {
            max_batch_size: max_batch,
            batching_window_ms: 5,
            max_queue_size: max_queue,
            queue_timeout_ms: 100,
        },
        weights_path: "/models/weights".to_string(),
        worker_threads: 0,
        enable_cpu_pinning: true,
        cpu_cores: None,
        numa_node: None,
    }
}

fn base(mode: &str) -> ChatLoopConfig {
    ChatLoopConfig {
        mode: mode.to_string(),
        bind_address: "0.0.0.0".to_string(),
        port: 50051,
        worker: None,
        coordinator: None,
        model: None,
        performance: None,
        observability: None,
    }
}

#[test]
fn test_config_validation() {
    let mut config = base("worker");
    config.worker = Some(worker_config(0, 16, 32, 512));
    assert!(config.validate().is_ok());
}

#[test]
fn test_config_validation_missing_worker() {
    let config = base("worker");
    assert!(config.validate().is_err());
}

#[test]
fn config_rejects_unknown_mode() {
    let config = base("gateway");
    assert!(matches!(config.validate(), Err(ChatLoopError::Config(_))));
}

#[test]
fn config_coordinator_needs_section() {
    let mut config = base("coordinator");
    assert!(matches!(config.validate(), Err(ChatLoopError::Config(_))));
    config.coordinator = Some(CoordinatorConfig {
        worker_endpoints: vec!["http://localhost:50051".to_string()],
        discovery_method: chatloop::config::default_discovery_method(),
        health_check_interval_secs: chatloop::config::default_health_check_interval(),
        failure_threshold: chatloop::config::default_failure_threshold(),
        request_timeout_secs: 30,
        max_concurrent_requests: 100,
    });
    assert!(config.validate().is_ok());
    assert_eq!(config.request_timeout().unwrap(), std::time::Duration::from_secs(30));
    assert!(config.batching_window().is_err());
}

#[test]
fn config_rejects_bad_layer_range_and_batching() {
    let mut config = base("worker");
    config.worker = Some(worker_config(16, 16, 32, 512));
    assert!(matches!(config.validate(), Err(ChatLoopError::Config(_))));
    config.worker = Some(worker_config(0, 33, 32, 512));
    assert!(config.validate().is_err());
    config.worker = Some(worker_config(0, 16, 0, 512));
    assert!(config.validate().is_err());
    config.worker = Some(worker_config(0, 16, 32, 31));
    assert!(config.validate().is_err());
    config.worker = Some(worker_config(0, 32, 32, 32));
    assert!(config.validate().is_ok());
}

#[test]
fn config_batching_window_in_millis() {
    let mut config = base("worker");
    config.worker = Some(worker_config(0, 16, 32, 512));
    assert_eq!(config.batching_window().unwrap(), std::time::Duration::from_millis(5));
    assert!(config.request_timeout().is_err());
}

#[test]
fn config_defaults() {
    assert_eq!(default_worker_threads(), 0);
    assert!(default_cpu_pinning());
    assert_eq!(default_discovery_method(), "static");
    assert_eq!(default_failure_threshold(), 3);
    assert_eq!(default_request_timeout(), 30);
    assert_eq!(default_cache_size(), 512);
    assert_eq!(default_allocator(), AllocatorType::Arena);
    assert_eq!(AllocatorType::default(), AllocatorType::System);
    assert_eq!(default_quantization(), QuantizationType::Unquantized);
    assert_eq!(default_log_level(), "info");
    assert_eq!(default_metrics_port(), 9091);
    assert!(default_simd() && !default_numa() && default_preallocate());
    assert!(default_metrics() && default_structured_logging());
}
