use chatloop::error::ChatLoopError;
use chatloop::router::{Router, WorkerInfo};

fn worker(endpoint: &str, id: &str, layers: (usize, usize)) -> WorkerInfo {
    WorkerInfo::new(endpoint.to_string(), id.to_string(), layers, 0)
}

#[test]
fn test_router_worker_selection() {
    let mut router = Router::new(5, 3);
    router
        .register_worker(worker("http://localhost:50051", "worker-1", (0, 16)))
        .unwrap();
    router
        .register_worker(worker("http://localhost:50052", "worker-2", (16, 32)))
        .unwrap();
    let selected = router.select_worker().unwrap();
    assert!(selected.contains("localhost:5005"));
}

#[test]
fn test_healthy_worker_count() {
    let mut router = Router::new(5, 3);
    assert_eq!(router.healthy_worker_count(), 0);
    router
        .register_worker(worker("http://localhost:50051", "worker-1", (0, 16)))
        .unwrap();
    assert_eq!(router.healthy_worker_count(), 1);
}

#[test]
fn health_demotion_then_recovery() {
    let mut router = Router::new(5, 3);
    router.register_worker(worker("http://a:1", "a", (0, 16))).unwrap();
    router.mark_failed("http://a:1");
    router.mark_failed("http://a:1");
    assert_eq!(router.healthy_worker_count(), 1);
    router.mark_failed("http://a:1");
    assert_eq!(router.healthy_worker_count(), 0);
    assert!(matches!(router.select_worker(), Err(ChatLoopError::WorkerUnavailable(_))));
    router.record_probe("http://a:1", true, 1000);
    assert_eq!(router.healthy_worker_count(), 1);
    assert_eq!(router.select_worker().unwrap(), "http://a:1");
    // the counter was reset: two more failures keep the worker healthy
    router.record_probe("http://a:1", false, 2000);
    router.record_probe("http://a:1", false, 3000);
    assert_eq!(router.healthy_worker_count(), 1);
}

#[test]
fn router_selects_least_loaded() {
    let mut router = Router::new(5, 1);
    router.register_worker(worker("http://a:1", "A", (0, 16))).unwrap();
    router.register_worker(worker("http://b:1", "B", (0, 16))).unwrap();
    router.update_queue_depth("http://a:1", 2);
    router.update_queue_depth("http://b:1", 5);
    assert_eq!(router.select_worker().unwrap(), "http://a:1");
    router.mark_failed("http://a:1");
    assert_eq!(router.select_worker().unwrap(), "http://b:1");
    router.mark_failed("http://b:1");
    assert!(matches!(router.select_worker(), Err(ChatLoopError::WorkerUnavailable(_))));
}

#[test]
fn router_ties_go_to_first_registered() {
    let mut router = Router::new(5, 3);
    router.register_worker(worker("http://b:1", "B", (0, 16))).unwrap();
    router.register_worker(worker("http://a:1", "A", (0, 16))).unwrap();
    assert_eq!(router.select_worker().unwrap(), "http://b:1");
}

#[test]
fn router_empty_is_unavailable() {
    let router = Router::new(5, 3);
    assert!(matches!(router.select_worker(), Err(ChatLoopError::WorkerUnavailable(_))));
}

#[test]
fn router_register_replaces_and_unregister_removes() {
    let mut router = Router::new(5, 3);
    router.register_worker(worker("http://a:1", "A", (0, 16))).unwrap();
    router.register_worker(worker("http://a:1", "A2", (16, 32))).unwrap();
    assert_eq!(router.get_worker_endpoints(), vec!["http://a:1".to_string()]);
    router.register_worker(worker("http://b:1", "B", (0, 16))).unwrap();
    router.unregister_worker("http://a:1").unwrap();
    assert_eq!(router.get_worker_endpoints(), vec!["http://b:1".to_string()]);
    router.unregister_worker("http://missing").unwrap();
    assert_eq!(router.healthy_worker_count(), 1);
}

#[test]
fn router_admits_failed_record_as_unhealthy() {
    let mut router = Router::new(5, 2);
    let mut info = worker("http://a:1", "A", (0, 16));
    info.failure_count = 2;
    router.register_worker(info).unwrap();
    assert_eq!(router.healthy_worker_count(), 0);
}

#[test]
fn worker_info_score_and_probe_due() {
    let mut info = worker("http://a:1", "A", (0, 16));
    info.queue_depth = 7;
    assert_eq!(info.load_score(), Some(7));
    assert!(!info.needs_health_check(5000, 5000));
    assert!(info.needs_health_check(5000, 5001));
    info.healthy = false;
    assert_eq!(info.load_score(), None);
}
