use chatloop::error::{ChatLoopError, StatusKind};

#[test]
fn error_status_classes() {
    assert_eq!(ChatLoopError::invalid_input("x").status_kind(), StatusKind::InvalidArgument);
    assert_eq!(ChatLoopError::queue_full("x").status_kind(), StatusKind::ResourceExhausted);
    assert_eq!(ChatLoopError::overloaded("x").status_kind(), StatusKind::ResourceExhausted);
    assert_eq!(ChatLoopError::timeout("x").status_kind(), StatusKind::DeadlineExceeded);
    assert_eq!(ChatLoopError::worker_unavailable("x").status_kind(), StatusKind::Unavailable);
    assert_eq!(ChatLoopError::Connection("x".to_string()).status_kind(), StatusKind::Unavailable);
    assert_eq!(ChatLoopError::model("x").status_kind(), StatusKind::Internal);
    assert_eq!(ChatLoopError::tensor("x").status_kind(), StatusKind::Internal);
    assert_eq!(ChatLoopError::MemoryMap("x".to_string()).status_kind(), StatusKind::Internal);
    assert_eq!(ChatLoopError::config("bad").message(), "bad");
}
