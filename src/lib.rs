//! Core of a pipelined inference service: the weight container, tensor views,
//! the key/value cache, request batching, worker routing and configuration.
pub mod batching;
pub mod config;
pub mod container;
pub mod engine;
pub mod error;
pub mod kv_cache;
pub mod model;
pub mod queue;
pub mod router;
pub mod shape;
pub mod tensor;
pub mod transport;
