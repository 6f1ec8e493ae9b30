//! Error taxonomy shared by every component, and its mapping onto
//! transport-level status classes.
use vstd::prelude::*;

verus! {

/// Every failure the library reports; each variant carries a human-readable message.
#[derive(Debug, Clone, PartialEq, Eq)]
pub enum ChatLoopError {
    Config(String),
    GrpcTransport(String),
    Connection(String),
    Model(String),
    Tensor(String),
    Serialization(String),
    Io(String),
    MemoryMap(String),
    InvalidInput(String),
    QueueFull(String),
    Timeout(String),
    WorkerUnavailable(String),
    Overloaded(String),
    Numa(String),
    Parse(String),
    Internal(String),
}

/// Transport-level status class that a boundary reports for an error.
#[derive(Debug, Clone, Copy, PartialEq, Eq, Structural)]
pub enum StatusKind {
    /// 400-equivalent.
    InvalidArgument,
    /// 429-equivalent.
    ResourceExhausted,
    /// 504-equivalent.
    DeadlineExceeded,
    /// 503-equivalent.
    Unavailable,
    /// 500-equivalent.
    Internal,
}

pub type Result<T> = core::result::Result<T, ChatLoopError>;

/// The status class of each error kind.
pub open spec fn status_of(e: ChatLoopError) -> StatusKind {
    match e {
        ChatLoopError::InvalidInput(_) | ChatLoopError::Parse(_) => StatusKind::InvalidArgument,
        ChatLoopError::QueueFull(_) | ChatLoopError::Overloaded(_) => StatusKind::ResourceExhausted,
        ChatLoopError::Timeout(_) => StatusKind::DeadlineExceeded,
        ChatLoopError::WorkerUnavailable(_)
        | ChatLoopError::GrpcTransport(_)
        | ChatLoopError::Connection(_) => StatusKind::Unavailable,
        _ => StatusKind::Internal,
    }
}

impl ChatLoopError {
    /// Classify this error for the transport boundary.
    pub fn status_kind(&self) -> (r: StatusKind)
        ensures
            r == status_of(*self),
    {
        match self {
            ChatLoopError::InvalidInput(_) => StatusKind::InvalidArgument,
            ChatLoopError::Parse(_) => StatusKind::InvalidArgument,
            ChatLoopError::QueueFull(_) => StatusKind::ResourceExhausted,
            ChatLoopError::Overloaded(_) => StatusKind::ResourceExhausted,
            ChatLoopError::Timeout(_) => StatusKind::DeadlineExceeded,
            ChatLoopError::WorkerUnavailable(_) => StatusKind::Unavailable,
            ChatLoopError::GrpcTransport(_) => StatusKind::Unavailable,
            ChatLoopError::Connection(_) => StatusKind::Unavailable,
            _ => StatusKind::Internal,
        }
    }

    /// The message carried by this error.
    pub fn message(&self) -> (r: &String)
        ensures
            r@ == message_of(*self)@,
    {
        match self {
            ChatLoopError::Config(m) => m,
            ChatLoopError::GrpcTransport(m) => m,
            ChatLoopError::Connection(m) => m,
            ChatLoopError::Model(m) => m,
            ChatLoopError::Tensor(m) => m,
            ChatLoopError::Serialization(m) => m,
            ChatLoopError::Io(m) => m,
            ChatLoopError::MemoryMap(m) => m,
            ChatLoopError::InvalidInput(m) => m,
            ChatLoopError::QueueFull(m) => m,
            ChatLoopError::Timeout(m) => m,
            ChatLoopError::WorkerUnavailable(m) => m,
            ChatLoopError::Overloaded(m) => m,
            ChatLoopError::Numa(m) => m,
            ChatLoopError::Parse(m) => m,
            ChatLoopError::Internal(m) => m,
        }
    }

    /// A `Config` error carrying `msg`.
    pub fn config(msg: &str) -> (r: Self)
        ensures
            r is Config,
            message_of(r)@ == msg@,
    {
        ChatLoopError::Config(msg.to_owned())
    }

    /// A `Model` error carrying `msg`.
    pub fn model(msg: &str) -> (r: Self)
        ensures
            r is Model,
            message_of(r)@ == msg@,
    {
        ChatLoopError::Model(msg.to_owned())
    }

    /// A `Tensor` error carrying `msg`.
    pub fn tensor(msg: &str) -> (r: Self)
        ensures
            r is Tensor,
            message_of(r)@ == msg@,
    {
        ChatLoopError::Tensor(msg.to_owned())
    }

    /// An `InvalidInput` error carrying `msg`.
    pub fn invalid_input(msg: &str) -> (r: Self)
        ensures
            r is InvalidInput,
            message_of(r)@ == msg@,
    {
        ChatLoopError::InvalidInput(msg.to_owned())
    }

    /// A `QueueFull` error carrying `msg`.
    pub fn queue_full(msg: &str) -> (r: Self)
        ensures
            r is QueueFull,
            message_of(r)@ == msg@,
    {
        ChatLoopError::QueueFull(msg.to_owned())
    }

    /// A `Timeout` error carrying `msg`.
    pub fn timeout(msg: &str) -> (r: Self)
        ensures
            r is Timeout,
            message_of(r)@ == msg@,
    {
        ChatLoopError::Timeout(msg.to_owned())
    }

    /// A `WorkerUnavailable` error carrying `msg`.
    pub fn worker_unavailable(msg: &str) -> (r: Self)
        ensures
            r is WorkerUnavailable,
            message_of(r)@ == msg@,
    {
        ChatLoopError::WorkerUnavailable(msg.to_owned())
    }

    /// An `Overloaded` error carrying `msg`.
    pub fn overloaded(msg: &str) -> (r: Self)
        ensures
            r is Overloaded,
            message_of(r)@ == msg@,
    {
        ChatLoopError::Overloaded(msg.to_owned())
    }
}

/// The message of an error, whatever its kind.
pub open spec fn message_of(e: ChatLoopError) -> String {
    match e {
        ChatLoopError::Config(m) => m,
        ChatLoopError::GrpcTransport(m) => m,
        ChatLoopError::Connection(m) => m,
        ChatLoopError::Model(m) => m,
        ChatLoopError::Tensor(m) => m,
        ChatLoopError::Serialization(m) => m,
        ChatLoopError::Io(m) => m,
        ChatLoopError::MemoryMap(m) => m,
        ChatLoopError::InvalidInput(m) => m,
        ChatLoopError::QueueFull(m) => m,
        ChatLoopError::Timeout(m) => m,
        ChatLoopError::WorkerUnavailable(m) => m,
        ChatLoopError::Overloaded(m) => m,
        ChatLoopError::Numa(m) => m,
        ChatLoopError::Parse(m) => m,
        ChatLoopError::Internal(m) => m,
    }
}

} // verus!
