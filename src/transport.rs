//! Plain messages and endpoint handles of the worker and coordinator transports.
//! Framing and I/O are outside this library.
use vstd::prelude::*;

verus! {

/// Answer to a client's completion request.
#[derive(Debug, Clone)]
pub struct InferenceResponse {
    pub text: String,
    pub prompt_tokens: i32,
    pub completion_tokens: i32,
}

/// Health probe of a worker.
#[derive(Debug, Clone)]
pub struct HealthCheckRequest {
    pub service: String,
}

/// Answer to a health probe.
#[derive(Debug, Clone, Copy)]
pub struct HealthCheckResponse {
    pub serving: bool,
}

/// Handle on a worker reachable at `endpoint`.
#[derive(Debug, Clone)]
pub struct WorkerClient {
    endpoint: String,
}

impl WorkerClient {
    /// A client for the worker at `endpoint`.
    pub fn new(endpoint: String) -> (r: Self)
        ensures
            r.endpoint_spec() == endpoint,
    {
        WorkerClient { endpoint }
    }

    pub closed spec fn endpoint_spec(&self) -> String {
        self.endpoint
    }

    /// The worker's endpoint.
    pub fn endpoint(&self) -> (r: &String)
        ensures
            *r == self.endpoint_spec(),
    {
        &self.endpoint
    }
}

/// Listening address of a worker's server.
#[derive(Debug, Clone)]
pub struct WorkerServer {
    pub bind_address: String,
    pub port: u16,
}

impl WorkerServer {
    pub fn new(bind_address: String, port: u16) -> (r: Self)
        ensures
            r.bind_address == bind_address,
            r.port == port,
    {
        WorkerServer { bind_address, port }
    }
}

} // verus!
