use chatloop::transport::{HealthCheckResponse, WorkerClient, WorkerServer};

#[test]
fn transport_handles_keep_their_addresses() {
    let client = WorkerClient::new("http://localhost:50052".to_string());
    assert_eq!(client.endpoint(), "http://localhost:50052");
    let server = WorkerServer::new("0.0.0.0".to_string(), 50051);
    assert_eq!(server.bind_address, "0.0.0.0");
    assert_eq!(server.port, 50051);
    assert!(HealthCheckResponse { serving: true }.serving);
}
