//! Configuration tree of workers and coordinators, its defaults and its validation.
use vstd::prelude::*;
use core::time::Duration;
use crate::error::ChatLoopError;
use crate::error::Result;

verus! {

/// Top-level configuration of a process.
#[derive(Debug, Clone)]
pub struct ChatLoopConfig {
    /// "worker" or "coordinator".
    pub mode: String,
    pub bind_address: String,
    pub port: u16,
    pub worker: Option<WorkerConfig>,
    pub coordinator: Option<CoordinatorConfig>,
    pub model: Option<ModelConfig>,
    pub performance: Option<PerformanceConfig>,
    pub observability: Option<ObservabilityConfig>,
}

/// Settings of one pipeline worker.
#[derive(Debug, Clone)]
pub struct WorkerConfig {
    pub worker_id: String,
    pub layer_group: LayerGroupConfig,
    pub next_worker_endpoint: Option<String>,
    pub prev_worker_endpoint: Option<String>,
    pub batching: BatchingConfig,
    /// Path of the weight container.
    pub weights_path: String,
    /// Zero means one per CPU.
    pub worker_threads: usize,
    pub enable_cpu_pinning: bool,
    pub cpu_cores: Option<String>,
    pub numa_node: Option<u32>,
}

/// The layer range `[start_layer, end_layer)` a worker owns, and the model's dimensions.
#[derive(Debug, Clone, Copy)]
pub struct LayerGroupConfig {
    pub start_layer: usize,
    pub end_layer: usize,
    pub total_layers: usize,
    pub num_heads: usize,
    pub head_dim: usize,
    pub hidden_dim: usize,
    pub intermediate_dim: usize,
}

/// Batch assembly limits.
#[derive(Debug, Clone, Copy)]
pub struct BatchingConfig {
    pub max_batch_size: usize,
    pub batching_window_ms: u64,
    pub max_queue_size: usize,
    pub queue_timeout_ms: u64,
}

/// Settings of the coordinator.
#[derive(Debug, Clone)]
pub struct CoordinatorConfig {
    pub worker_endpoints: Vec<String>,
    pub discovery_method: String,
    pub health_check_interval_secs: u64,
    pub failure_threshold: u32,
    pub request_timeout_secs: u64,
    pub max_concurrent_requests: usize,
}

/// Description of the served model.
#[derive(Debug, Clone)]
pub struct ModelConfig {
    pub model_id: String,
    pub architecture: String,
    pub vocab_size: usize,
    pub max_sequence_length: usize,
    pub quantization: QuantizationType,
    pub num_layers: usize,
    pub layer_groups: Vec<LayerGroupConfig>,
}

/// Weight quantization scheme.
#[derive(Debug, Clone, Copy, PartialEq, Eq, Structural)]
pub enum QuantizationType {
    Unquantized,
    Int8,
    Int4,
}

impl Default for QuantizationType {
    fn default() -> (r: Self)
        ensures
            r == QuantizationType::Unquantized,
    {
        QuantizationType::Unquantized
    }
}

/// Performance tuning switches.
#[derive(Debug, Clone, Copy)]
pub struct PerformanceConfig {
    pub enable_simd: bool,
    pub enable_numa: bool,
    /// Megabytes for key/value caches, zero for no limit.
    pub kv_cache_mb: usize,
    pub preallocate_activations: bool,
    pub allocator: AllocatorType,
}

/// Memory allocation strategy.
#[derive(Debug, Clone, Copy, PartialEq, Eq, Structural)]
pub enum AllocatorType {
    System,
    Arena,
    Pool,
}

impl Default for AllocatorType {
    fn default() -> (r: Self)
        ensures
            r == AllocatorType::System,
    {
        AllocatorType::System
    }
}

/// Logging and metrics settings.
#[derive(Debug, Clone)]
pub struct ObservabilityConfig {
    pub log_level: String,
    pub enable_metrics: bool,
    pub metrics_port: u16,
    pub structured_logging: bool,
    pub otel_endpoint: Option<String>,
}

pub fn default_worker_threads() -> (r: usize)
    ensures
        r == 0,
{
    0
}

pub fn default_cpu_pinning() -> (r: bool)
    ensures
        r,
{
    true
}

pub fn default_discovery_method() -> (r: String)
    ensures
        r@ == "static"@,
{
    "static".to_owned()
}

pub fn default_health_check_interval() -> (r: u64)
    ensures
        r == 5,
{
    5
}

pub fn default_failure_threshold() -> (r: u32)
    ensures
        r == 3,
{
    3
}

pub fn default_request_timeout() -> (r: u64)
    ensures
        r == 30,
{
    30
}

pub fn default_quantization() -> (r: QuantizationType)
    ensures
        r == QuantizationType::Unquantized,
{
    QuantizationType::Unquantized
}

pub fn default_simd() -> (r: bool)
    ensures
        r,
{
    true
}

pub fn default_numa() -> (r: bool)
    ensures
        !r,
{
    false
}

/// Default key/value cache budget in megabytes.
pub fn default_cache_size() -> (r: usize)
    ensures
        r == 512,
{
    512
}

pub fn default_preallocate() -> (r: bool)
    ensures
        r,
{
    true
}

pub fn default_allocator() -> (r: AllocatorType)
    ensures
        r == AllocatorType::Arena,
{
    AllocatorType::Arena
}

pub fn default_log_level() -> (r: String)
    ensures
        r@ == "info"@,
{
    "info".to_owned()
}

pub fn default_metrics() -> (r: bool)
    ensures
        r,
{
    true
}

pub fn default_metrics_port() -> (r: u16)
    ensures
        r == 9091,
{
    9091
}

pub fn default_structured_logging() -> (r: bool)
    ensures
        r,
{
    true
}

/// The duration of `ms` milliseconds.
pub uninterp spec fn duration_of_millis(ms: u64) -> Duration;

/// The duration of `s` seconds.
pub uninterp spec fn duration_of_secs(s: u64) -> Duration;

/// Relies on `Duration::from_millis`: a duration of exactly `ms` milliseconds.
#[verifier::external_body]
fn millis(ms: u64) -> (r: Duration)
    ensures
        r == duration_of_millis(ms),
{
    Duration::from_millis(ms)
}

/// Relies on `Duration::from_secs`: a duration of exactly `s` seconds.
#[verifier::external_body]
fn secs(s: u64) -> (r: Duration)
    ensures
        r == duration_of_secs(s),
{
    Duration::from_secs(s)
}

/// The layer range is non-empty and within the model.
pub open spec fn layer_group_ok(g: LayerGroupConfig) -> bool {
    g.start_layer < g.end_layer && g.end_layer <= g.total_layers
}

/// At least one request per batch, and room in the queue for a full batch.
pub open spec fn batching_ok(b: BatchingConfig) -> bool {
    b.max_batch_size >= 1 && b.max_queue_size >= b.max_batch_size
}

/// The configuration passes validation.
pub open spec fn config_ok(c: ChatLoopConfig) -> bool {
    if c.mode@ == "worker"@ {
        c.worker matches Some(w) && layer_group_ok(w.layer_group) && batching_ok(w.batching)
    } else if c.mode@ == "coordinator"@ {
        c.coordinator is Some
    } else {
        false
    }
}

impl ChatLoopConfig {
    /// Check the mode, that the matching section is present, the worker's layer
    /// range and its batching limits. Every failure is a `Config` error.
    pub fn validate(&self) -> (r: Result<()>)
        ensures
            r is Ok <==> config_ok(*self),
            r matches Err(e) ==> e is Config,
    {
        if crate::container::str_equals(self.mode.as_str(), "worker") {
            match &self.worker {
                None => Err(ChatLoopError::config("Worker config required for worker mode")),
                Some(w) => {
                    let g = &w.layer_group;
                    if !(g.start_layer < g.end_layer && g.end_layer <= g.total_layers) {
                        return Err(
                            ChatLoopError::config(
                                "Layer group must satisfy start_layer < end_layer <= total_layers",
                            ),
                        );
                    }
                    let b = &w.batching;
                    if b.max_batch_size < 1 {
                        return Err(ChatLoopError::config("max_batch_size must be at least 1"));
                    }
                    if b.max_queue_size < b.max_batch_size {
                        return Err(
                            ChatLoopError::config("max_queue_size must be at least max_batch_size"),
                        );
                    }
                    Ok(())
                },
            }
        } else if crate::container::str_equals(self.mode.as_str(), "coordinator") {
            if self.coordinator.is_none() {
                Err(ChatLoopError::config("Coordinator config required for coordinator mode"))
            } else {
                Ok(())
            }
        } else {
            Err(ChatLoopError::config("Invalid mode"))
        }
    }

    /// The worker's batching window, or a `Config` error without a worker section.
    pub fn batching_window(&self) -> (r: Result<Duration>)
        ensures
            match self.worker {
                Some(w) => r == Ok::<Duration, ChatLoopError>(
                    duration_of_millis(w.batching.batching_window_ms),
                ),
                None => r matches Err(e) && e is Config,
            },
    {
        match &self.worker {
            Some(w) => Ok(millis(w.batching.batching_window_ms)),
            None => Err(ChatLoopError::config("Worker config not found")),
        }
    }

    /// The coordinator's request timeout, or a `Config` error without a coordinator section.
    pub fn request_timeout(&self) -> (r: Result<Duration>)
        ensures
            match self.coordinator {
                Some(c) => r == Ok::<Duration, ChatLoopError>(
                    duration_of_secs(c.request_timeout_secs),
                ),
                None => r matches Err(e) && e is Config,
            },
    {
        match &self.coordinator {
            Some(c) => Ok(secs(c.request_timeout_secs)),
            None => Err(ChatLoopError::config("Coordinator config not found")),
        }
    }
}

} // verus!
