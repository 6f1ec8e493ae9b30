use chatloop::batching::{BatchScheduler, InferenceRequest, Priority, PriorityScheduler};
use chatloop::config::BatchingConfig;
use chatloop::error::ChatLoopError;

fn request(i: u64, len: usize) -> InferenceRequest {
    InferenceRequest {
        request_id: format!("req-{}", i),
        sequence_id: i,
        tokens: vec![1; len],
        temperature_bits: 1.0f32.to_bits(),
        top_p_bits: 0.9f32.to_bits(),
        top_k: 50,
        max_tokens: 100,
        arrival_ms: 0,
        metadata: "{}".to_string(),
    }
}

fn config(max_batch: usize, window: u64, max_queue: usize) -> BatchingConfig {
    BatchingConfig {
        max_batch_size: max_batch,
        batching_window_ms: window,
        max_queue_size: max_queue,
        queue_timeout_ms: 1000,
    }
}

#[test]
fn test_batch_scheduler() {
    let mut scheduler = BatchScheduler::new(config(4, 10, 100));
    for i in 0..3 {
        scheduler.submit(request(i, 3)).unwrap();
    }
    let mut batch = scheduler.begin_batch(0).unwrap();
    scheduler.fill_batch(&mut batch, 0);
    assert_eq!(batch.len(), 3);
}

#[test]
fn test_batch_backpressure() {
    let mut scheduler = BatchScheduler::new(config(4, 10, 5));
    for i in 0..10 {
        let result = scheduler.submit(request(i, 3));
        if i < 5 {
            assert!(result.is_ok());
        } else {
            assert!(result.is_err());
        }
    }
    assert_eq!(scheduler.queue_depth(), 5);
}

#[test]
fn backpressure_sixth_is_queue_full() {
    let mut scheduler = BatchScheduler::new(config(4, 10, 5));
    for i in 0..5 {
        assert!(scheduler.submit(request(i, 1)).is_ok());
    }
    assert!(matches!(scheduler.submit(request(5, 1)), Err(ChatLoopError::QueueFull(_))));
    assert_eq!(scheduler.queue_depth(), 5);
}

#[test]
fn batch_fills_before_window() {
    let mut scheduler = BatchScheduler::new(config(4, 10, 100));
    for i in 0..4 {
        scheduler.submit(request(i, 2)).unwrap();
    }
    let mut batch = scheduler.begin_batch(0).unwrap();
    let ready = scheduler.fill_batch(&mut batch, 0);
    assert!(ready);
    assert_eq!(batch.len(), 4);
    assert!(batch.age(0) < 10);
    let ids: Vec<u64> = batch.requests.iter().map(|r| r.sequence_id).collect();
    assert_eq!(ids, vec![0, 1, 2, 3]);
}

#[test]
fn batch_flushes_on_window() {
    let mut scheduler = BatchScheduler::new(config(4, 10, 100));
    scheduler.submit(request(0, 2)).unwrap();
    let mut batch = scheduler.begin_batch(0).unwrap();
    assert!(!scheduler.fill_batch(&mut batch, 5));
    assert!(scheduler.fill_batch(&mut batch, 10));
    assert_eq!(batch.len(), 1);
    assert_eq!(batch.age(10), 10);
}

#[test]
fn batch_never_exceeds_max_and_keeps_rest() {
    let mut scheduler = BatchScheduler::new(config(2, 10, 100));
    for i in 0..5 {
        scheduler.submit(request(i, i as usize + 1)).unwrap();
    }
    let mut batch = scheduler.begin_batch(0).unwrap();
    assert!(scheduler.fill_batch(&mut batch, 1));
    assert_eq!(batch.len(), 2);
    assert_eq!(batch.max_seq_len, 2);
    assert_eq!(scheduler.queue_depth(), 3);
    let mut next = scheduler.begin_batch(2).unwrap();
    scheduler.fill_batch(&mut next, 2);
    assert_eq!(next.requests[0].sequence_id, 2);
    assert_eq!(next.requests[1].sequence_id, 3);
}

#[test]
fn empty_or_shut_down_gives_no_batch() {
    let mut scheduler = BatchScheduler::new(config(4, 10, 100));
    assert!(scheduler.begin_batch(0).is_none());
    scheduler.submit(request(0, 1)).unwrap();
    scheduler.shutdown();
    assert!(scheduler.is_shutdown());
    assert!(scheduler.begin_batch(0).is_none());
    assert_eq!(scheduler.queue_depth(), 1);
}

#[test]
fn scheduler_health_threshold() {
    let mut scheduler = BatchScheduler::new(config(4, 10, 10));
    for i in 0..8 {
        scheduler.submit(request(i, 1)).unwrap();
    }
    assert!(scheduler.is_healthy());
    scheduler.submit(request(8, 1)).unwrap();
    assert!(!scheduler.is_healthy());
}

#[test]
fn priority_scheduler_drains_high_first() {
    let mut scheduler = PriorityScheduler::new();
    scheduler.submit(request(1, 1), Priority::Low).unwrap();
    scheduler.submit(request(2, 1), Priority::Normal).unwrap();
    scheduler.submit(request(3, 1), Priority::High).unwrap();
    scheduler.submit(request(4, 1), Priority::High).unwrap();
    let batch = scheduler.next_batch(3, 0).unwrap();
    let ids: Vec<u64> = batch.requests.iter().map(|r| r.sequence_id).collect();
    assert_eq!(ids, vec![3, 4, 2]);
    let rest = scheduler.next_batch(3, 0).unwrap();
    assert_eq!(rest.requests[0].sequence_id, 1);
    assert!(scheduler.next_batch(3, 0).is_none());
    scheduler.submit(request(5, 1), Priority::Normal).unwrap();
    scheduler.shutdown();
    assert!(scheduler.next_batch(3, 0).is_none());
}
