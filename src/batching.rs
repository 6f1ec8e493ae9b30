//! Admission and window-bounded batch assembly.
//!
//! The scheduler here holds the queue and makes every decision; the caller owns
//! the clock and the waiting. To build one batch it calls `begin_batch`, then
//! `fill_batch` until that reports the batch ready, waiting for new requests (at
//! most until the window closes) between calls.
use vstd::prelude::*;
use crossbeam::queue::SegQueue;
use crate::queue::queue_len;
use crate::queue::queue_new;
use crate::queue::queue_pop;
use crate::queue::queue_push;
use crate::queue::queued_requests;
use crate::config::BatchingConfig;
use crate::error::ChatLoopError;
use crate::error::Result;

verus! {

/// One request waiting to be batched. Times are monotonic milliseconds; the
/// sampling temperature and top-p are carried as the bit patterns of `f32` values.
#[derive(Debug, Clone)]
pub struct InferenceRequest {
    pub request_id: String,
    pub sequence_id: u64,
    pub tokens: Vec<i32>,
    pub temperature_bits: u32,
    pub top_p_bits: u32,
    pub top_k: i32,
    pub max_tokens: u32,
    pub arrival_ms: u64,
    /// Opaque metadata (JSON text).
    pub metadata: String,
}

/// Requests dispatched together in one forward pass.
#[derive(Debug)]
pub struct RequestBatch {
    pub requests: Vec<InferenceRequest>,
    pub creation_ms: u64,
    /// Longest token sequence among the requests.
    pub max_seq_len: usize,
}

/// Longest token sequence among `reqs`, zero when there are none.
pub open spec fn longest(reqs: Seq<InferenceRequest>) -> nat
    decreases reqs.len(),
{
    if reqs.len() == 0 {
        0
    } else {
        let rest = longest(reqs.drop_last());
        let l = reqs.last().tokens@.len();
        if l > rest {
            l
        } else {
            rest
        }
    }
}

/// Milliseconds from `from` to `now`, zero if `now` is earlier.
pub open spec fn elapsed(from: u64, now: u64) -> nat {
    if now >= from {
        (now - from) as nat
    } else {
        0
    }
}

impl RequestBatch {
    /// An empty batch created at `now_ms`.
    pub fn new(now_ms: u64) -> (r: Self)
        ensures
            r.requests@.len() == 0,
            r.creation_ms == now_ms,
            r.max_seq_len == 0,
    {
        RequestBatch { requests: Vec::new(), creation_ms: now_ms, max_seq_len: 0 }
    }

    /// Append a request, keeping `max_seq_len` the longest token sequence.
    pub fn add(&mut self, request: InferenceRequest)
        ensures
            final(self).requests@ == old(self).requests@.push(request),
            final(self).creation_ms == old(self).creation_ms,
            final(self).max_seq_len as nat == if request.tokens@.len() > old(self).max_seq_len {
                request.tokens@.len()
            } else {
                old(self).max_seq_len as nat
            },
    {
        let l = request.tokens.len();
        if l > self.max_seq_len {
            self.max_seq_len = l;
        }
        self.requests.push(request);
    }

    pub fn len(&self) -> (r: usize)
        ensures
            r == self.requests@.len(),
    {
        self.requests.len()
    }

    pub fn is_empty(&self) -> (r: bool)
        ensures
            r == (self.requests@.len() == 0),
    {
        self.requests.len() == 0
    }

    /// Milliseconds since creation, as of `now_ms`.
    pub fn age(&self, now_ms: u64) -> (r: u64)
        ensures
            r == elapsed(self.creation_ms, now_ms),
    {
        if now_ms >= self.creation_ms {
            now_ms - self.creation_ms
        } else {
            0
        }
    }
}

/// A single-class FIFO scheduler with a bounded queue.
pub struct BatchScheduler {
    config: BatchingConfig,
    queue: SegQueue<InferenceRequest>,
    shutdown: bool,
}

impl BatchScheduler {
    /// Requests waiting, oldest first.
    pub closed spec fn queued(&self) -> Seq<InferenceRequest> {
        queued_requests(self.queue)
    }

    pub closed spec fn limits(&self) -> BatchingConfig {
        self.config
    }

    pub closed spec fn is_shut_down(&self) -> bool {
        self.shutdown
    }

    /// The queue never exceeds its bound and batches hold at least one request.
    pub closed spec fn wf(&self) -> bool {
        &&& queued_requests(self.queue).len() <= self.config.max_queue_size
        &&& self.config.max_batch_size >= 1
    }

    /// An empty, running scheduler with the given limits.
    pub fn new(config: BatchingConfig) -> (r: Self)
        requires
            config.max_batch_size >= 1,
        ensures
            r.wf(),
            r.queued().len() <= r.limits().max_queue_size,
            r.queued().len() == 0,
            r.limits() == config,
            !r.is_shut_down(),
    {
        BatchScheduler { config, queue: queue_new(), shutdown: false }
    }

    /// Admit a request, or refuse it with `QueueFull` when the queue is at its bound.
    pub fn submit(&mut self, request: InferenceRequest) -> (r: Result<()>)
        requires
            old(self).wf(),
        ensures
            final(self).wf(),
            final(self).queued().len() <= final(self).limits().max_queue_size,
            final(self).limits() == old(self).limits(),
            final(self).is_shut_down() == old(self).is_shut_down(),
            r is Ok <==> old(self).queued().len() < old(self).limits().max_queue_size,
            r is Ok ==> final(self).queued() == old(self).queued().push(request),
            r matches Err(e) ==> e is QueueFull && final(self).queued() == old(self).queued(),
    {
        if queue_len(&self.queue) >= self.config.max_queue_size {
            return Err(ChatLoopError::queue_full("Request queue is full, rejecting new request"));
        }
        queue_push(&mut self.queue, request);
        Ok(())
    }

    /// Start a batch at `now_ms` with the oldest waiting request. `None` when the
    /// scheduler is shut down or nothing waits; the caller may then wait for the
    /// window and try once more.
    pub fn begin_batch(&mut self, now_ms: u64) -> (r: Option<RequestBatch>)
        requires
            old(self).wf(),
        ensures
            final(self).wf(),
            final(self).queued().len() <= final(self).limits().max_queue_size,
            final(self).limits() == old(self).limits(),
            final(self).is_shut_down() == old(self).is_shut_down(),
            r is None <==> old(self).is_shut_down() || old(self).queued().len() == 0,
            r is None ==> final(self).queued() == old(self).queued(),
            r matches Some(b) ==> 1 <= b.requests@.len() <= old(self).limits().max_batch_size,
            r matches Some(b) ==> b.requests@ == seq![old(self).queued()[0]] && b.creation_ms
                == now_ms && b.max_seq_len == longest(b.requests@) && final(self).queued()
                == old(self).queued().drop_first(),
    {
        if self.shutdown {
            return None;
        }
        match queue_pop(&mut self.queue) {
            None => None,
            Some(req) => {
                let mut batch = RequestBatch::new(now_ms);
                batch.add(req);
                proof {
                    assert(batch.requests@.drop_last() =~= Seq::<InferenceRequest>::empty());
                    assert(batch.requests@ =~= seq![queued_requests(old(self).queue)[0]]);
                    assert(longest(batch.requests@.drop_last()) == 0);
                }
                Some(batch)
            },
        }
    }

    /// Move waiting requests, oldest first, into `batch` until it is full or
    /// nothing waits, unless its window has already closed at `now_ms`. Returns
    /// whether the batch is ready to dispatch: full, window elapsed, or shut down.
    pub fn fill_batch(&mut self, batch: &mut RequestBatch, now_ms: u64) -> (ready: bool)
        requires
            old(self).wf(),
            1 <= old(batch).requests@.len() <= old(self).limits().max_batch_size,
            old(batch).max_seq_len == longest(old(batch).requests@),
        ensures
            final(self).wf(),
            final(self).queued().len() <= final(self).limits().max_queue_size,
            final(self).limits() == old(self).limits(),
            final(self).is_shut_down() == old(self).is_shut_down(),
            final(batch).creation_ms == old(batch).creation_ms,
            final(batch).max_seq_len == longest(final(batch).requests@),
            1 <= final(batch).requests@.len() <= old(self).limits().max_batch_size,
            final(batch).requests@.len() - old(batch).requests@.len() <= old(self).queued().len(),
            final(batch).requests@ == old(batch).requests@ + old(self).queued().subrange(
                0,
                final(batch).requests@.len() - old(batch).requests@.len(),
            ),
            final(self).queued() == old(self).queued().subrange(
                final(batch).requests@.len() - old(batch).requests@.len(),
                old(self).queued().len() as int,
            ),
            elapsed(old(batch).creation_ms, now_ms) < old(self).limits().batching_window_ms
                ==> (final(batch).requests@.len() == old(self).limits().max_batch_size
                || final(self).queued().len() == 0),
            elapsed(old(batch).creation_ms, now_ms) >= old(self).limits().batching_window_ms
                ==> final(batch).requests@ == old(batch).requests@,
            ready == (final(batch).requests@.len() == old(self).limits().max_batch_size
                || elapsed(old(batch).creation_ms, now_ms) >= old(
                self,
            ).limits().batching_window_ms || old(self).is_shut_down()),
    {
        let max = self.config.max_batch_size;
        let window_open = batch.age(now_ms) < self.config.batching_window_ms;
        let ghost q0 = queued_requests(self.queue);
        let ghost b0 = batch.requests@;
        let mut k: usize = 0;
        if window_open {
            while batch.requests.len() < max && queue_len(&self.queue) > 0
                invariant
                    self.config.max_batch_size == max,
                    self.config == old(self).config,
                    self.shutdown == old(self).shutdown,
                    self.wf(),
                    q0 == queued_requests(old(self).queue),
                    b0 == old(batch).requests@,
                    batch.creation_ms == old(batch).creation_ms,
                    1 <= batch.requests@.len() <= max,
                    batch.max_seq_len == longest(batch.requests@),
                    k <= q0.len(),
                    batch.requests@ == b0 + q0.subrange(0, k as int),
                    queued_requests(self.queue) == q0.subrange(k as int, q0.len() as int),
                decreases queued_requests(self.queue).len(),
            {
                let req = queue_pop(&mut self.queue).unwrap();
                let ghost before = batch.requests@;
                batch.add(req);
                proof {
                    assert(batch.requests@.drop_last() == before);
                }
                k = k + 1;
                proof {
                    assert(batch.requests@ =~= b0 + q0.subrange(0, k as int));
                    assert(queued_requests(self.queue) =~= q0.subrange(k as int, q0.len() as int));
                }
            }
        } else {
            proof {
                assert(b0 =~= b0 + q0.subrange(0, 0));
                assert(q0 =~= q0.subrange(0, q0.len() as int));
            }
        }
        batch.requests.len() == max || !window_open || self.shutdown
    }

    /// Number of requests waiting; never more than `max_queue_size`.
    pub fn queue_depth(&self) -> (r: usize)
        requires
            self.wf(),
        ensures
            r == self.queued().len(),
            r <= self.limits().max_queue_size,
    {
        queue_len(&self.queue)
    }

    /// Whether the queue is below nine tenths of its bound.
    pub fn is_healthy(&self) -> (r: bool)
        ensures
            r == (self.queued().len() < self.limits().max_queue_size * 9 / 10),
    {
        let bound = (self.config.max_queue_size as u128) * 9 / 10;
        (queue_len(&self.queue) as u128) < bound
    }

    /// Stop handing out batches. Waiting requests are not drained.
    pub fn shutdown(&mut self)
        requires
            old(self).wf(),
        ensures
            final(self).wf(),
            final(self).queued().len() <= final(self).limits().max_queue_size,
            final(self).is_shut_down(),
            final(self).queued() == old(self).queued(),
            final(self).limits() == old(self).limits(),
    {
        self.shutdown = true;
    }

    pub fn is_shutdown(&self) -> (r: bool)
        ensures
            r == self.is_shut_down(),
    {
        self.shutdown
    }

    /// The batching limits.
    pub fn config(&self) -> (r: BatchingConfig)
        ensures
            r == self.limits(),
    {
        self.config
    }
}

/// Requests leave the queue only by moving, oldest first, into batches. When the
/// admitted requests `admitted` are drained into the successive batches
/// `batches` (each batch takes a prefix of what is left, so together they are
/// the queue in order), a request admitted once is dispatched in exactly one batch.
pub proof fn lemma_admitted_dispatched_once(
    admitted: Seq<InferenceRequest>,
    batches: Seq<Seq<InferenceRequest>>,
    r: InferenceRequest,
)
    requires
        admitted == batches.flatten(),
        admitted.to_multiset().count(r) == 1,
    ensures
        exists|k: int| 0 <= k < batches.len() && (#[trigger] batches[k]).contains(r),
        forall|k1: int, k2: int|
            0 <= k1 < batches.len() && 0 <= k2 < batches.len() && (#[trigger] batches[k1]).contains(
                r,
            ) && (#[trigger] batches[k2]).contains(r) ==> k1 == k2,
        forall|k: int|
            0 <= k < batches.len() && (#[trigger] batches[k]).contains(r) ==> batches[k].to_multiset().count(r) == 1,
    decreases batches.len(),
{
    broadcast use vstd::seq_lib::lemma_multiset_commutative;
    broadcast use Seq::to_multiset_ensures;

    if batches.len() == 0 {
        assert(admitted.len() == 0);
        assert(admitted.to_multiset().len() == 0);
        assert(admitted.to_multiset().count(r) == 0);
    } else {
        let first = batches[0];
        let rest = batches.drop_first();
        assert(admitted == first + rest.flatten());
        assert(admitted.to_multiset() =~= first.to_multiset().add(rest.flatten().to_multiset()));
        first.to_multiset_ensures();
        rest.flatten().to_multiset_ensures();
        let c0 = first.to_multiset().count(r);
        let c1 = rest.flatten().to_multiset().count(r);
        assert(c0 + c1 == 1);
        if c0 == 1 {
            assert(first.contains(r));
            assert(batches[0].contains(r));
            assert forall|k: int| 1 <= k < batches.len() implies !(#[trigger] batches[k]).contains(
                r,
            ) by {
                if batches[k].contains(r) {
                    lemma_count_in_flatten(rest, k - 1, r);
                }
            }
        } else {
            lemma_admitted_dispatched_once(rest.flatten(), rest, r);
            let k = choose|k: int| 0 <= k < rest.len() && (#[trigger] rest[k]).contains(r);
            assert(batches[k + 1] == rest[k]);
            assert(!batches[0].contains(r));
            assert forall|k1: int|
                1 <= k1 < batches.len() && (#[trigger] batches[k1]).contains(r) implies batches[k1]
                == rest[k1 - 1] by {}
        }
    }
}

proof fn lemma_flatten_push(parts: Seq<Seq<InferenceRequest>>, t: Seq<InferenceRequest>)
    ensures
        parts.push(t).flatten() == parts.flatten() + t,
    decreases parts.len(),
{
    if parts.len() == 0 {
        assert(parts.push(t).drop_first() =~= Seq::<Seq<InferenceRequest>>::empty());
        assert(parts.push(t).drop_first().flatten() =~= Seq::<InferenceRequest>::empty());
        assert(parts.push(t).first() == t);
        assert(parts.flatten() =~= Seq::<InferenceRequest>::empty());
        assert(parts.push(t).flatten() =~= parts.flatten() + t);
    } else {
        lemma_flatten_push(parts.drop_first(), t);
        assert(parts.push(t).drop_first() =~= parts.drop_first().push(t));
        assert(parts.push(t).first() == parts.first());
        assert(parts.push(t).flatten() == parts.first() + parts.drop_first().push(t).flatten());
        assert(parts.push(t).flatten() =~= parts.flatten() + t);
    }
}

/// Bookkeeping across calls: while every request ever admitted (`admitted`, in
/// order of admission) equals the dispatched batches followed by the waiting
/// queue, a successful `submit` of `r` keeps it so.
pub proof fn lemma_accounting_submit(
    admitted: Seq<InferenceRequest>,
    batches: Seq<Seq<InferenceRequest>>,
    queue: Seq<InferenceRequest>,
    r: InferenceRequest,
)
    requires
        admitted == batches.flatten() + queue,
    ensures
        admitted.push(r) == batches.flatten() + queue.push(r),
{
    assert(admitted.push(r) =~= batches.flatten() + queue.push(r));
}

/// Bookkeeping across calls: dispatching a batch `b` taken from the front of the
/// queue (as `begin_batch` then `fill_batch` do, leaving `rest`) keeps every
/// admitted request either in exactly the dispatched batches or in the queue.
pub proof fn lemma_accounting_dispatch(
    admitted: Seq<InferenceRequest>,
    batches: Seq<Seq<InferenceRequest>>,
    queue: Seq<InferenceRequest>,
    b: Seq<InferenceRequest>,
    rest: Seq<InferenceRequest>,
)
    requires
        admitted == batches.flatten() + queue,
        queue == b + rest,
    ensures
        admitted == batches.push(b).flatten() + rest,
{
    lemma_flatten_push(batches, b);
    assert(admitted =~= batches.push(b).flatten() + rest);
}

/// Under that bookkeeping, the admitted requests are, as a multiset, exactly
/// those dispatched plus those still waiting: none is lost or duplicated.
pub proof fn lemma_accounting_multiset(
    admitted: Seq<InferenceRequest>,
    batches: Seq<Seq<InferenceRequest>>,
    queue: Seq<InferenceRequest>,
)
    requires
        admitted == batches.flatten() + queue,
    ensures
        admitted.to_multiset() == batches.flatten().to_multiset().add(queue.to_multiset()),
{
    vstd::seq_lib::lemma_multiset_commutative(batches.flatten(), queue);
}

proof fn lemma_count_in_flatten(parts: Seq<Seq<InferenceRequest>>, k: int, r: InferenceRequest)
    requires
        0 <= k < parts.len(),
        parts[k].contains(r),
    ensures
        parts.flatten().to_multiset().count(r) >= 1,
    decreases parts.len(),
{
    broadcast use vstd::seq_lib::lemma_multiset_commutative;
    broadcast use Seq::to_multiset_ensures;

    let first = parts[0];
    let rest = parts.drop_first();
    assert(parts.flatten() == first + rest.flatten());
    assert(parts.flatten().to_multiset() =~= first.to_multiset().add(rest.flatten().to_multiset()));
    first.to_multiset_ensures();
    parts[k].to_multiset_ensures();
    if k > 0 {
        assert(rest[k - 1] == parts[k]);
        lemma_count_in_flatten(rest, k - 1, r);
    }
}

/// Request priority class.
#[derive(Debug, Clone, Copy, PartialEq, Eq, Structural)]
pub enum Priority {
    High,
    Normal,
    Low,
}

/// Number of requests moved from a queue of `queued` into a batch of `have`
/// requests bounded by `max`.
pub open spec fn take_count(have: nat, max: nat, queued: nat) -> nat {
    if have >= max {
        0
    } else if max - have < queued {
        (max - have) as nat
    } else {
        queued
    }
}

/// Move requests from the front of `q` into `batch` until it holds `max` or `q` is empty.
fn drain_into(q: &mut SegQueue<InferenceRequest>, batch: &mut RequestBatch, max: usize)
    requires
        old(batch).max_seq_len == longest(old(batch).requests@),
    ensures
        final(batch).creation_ms == old(batch).creation_ms,
        final(batch).max_seq_len == longest(final(batch).requests@),
        final(batch).requests@ == old(batch).requests@ + queued_requests(*old(q)).subrange(
            0,
            take_count(old(batch).requests@.len(), max as nat, queued_requests(*old(q)).len()) as int,
        ),
        queued_requests(*final(q)) == queued_requests(*old(q)).subrange(
            take_count(old(batch).requests@.len(), max as nat, queued_requests(*old(q)).len()) as int,
            queued_requests(*old(q)).len() as int,
        ),
{
    let ghost q0 = queued_requests(*q);
    let ghost b0 = batch.requests@;
    let mut k: usize = 0;
    while batch.requests.len() < max && queue_len(q) > 0
        invariant
            batch.creation_ms == old(batch).creation_ms,
            batch.max_seq_len == longest(batch.requests@),
            q0 == queued_requests(*old(q)),
            b0 == old(batch).requests@,
            k <= q0.len(),
            batch.requests@ == b0 + q0.subrange(0, k as int),
            queued_requests(*q) == q0.subrange(k as int, q0.len() as int),
            b0.len() >= max ==> k == 0,
            b0.len() < max ==> b0.len() + k <= max,
        decreases queued_requests(*q).len(),
    {
        let req = queue_pop(q).unwrap();
        let ghost before = batch.requests@;
        batch.add(req);
        proof {
            assert(batch.requests@.drop_last() == before);
        }
        k = k + 1;
        proof {
            assert(batch.requests@ =~= b0 + q0.subrange(0, k as int));
            assert(queued_requests(*q) =~= q0.subrange(k as int, q0.len() as int));
        }
    }
    assert(k == take_count(b0.len(), max as nat, q0.len()));
}

/// A scheduler with three FIFO classes drained strictly in priority order.
/// Low-priority requests wait as long as higher classes have work.
pub struct PriorityScheduler {
    high_priority: SegQueue<InferenceRequest>,
    normal_priority: SegQueue<InferenceRequest>,
    low_priority: SegQueue<InferenceRequest>,
    shutdown: bool,
}

impl PriorityScheduler {
    /// Waiting requests of each class, oldest first.
    pub closed spec fn high(&self) -> Seq<InferenceRequest> {
        queued_requests(self.high_priority)
    }

    pub closed spec fn normal(&self) -> Seq<InferenceRequest> {
        queued_requests(self.normal_priority)
    }

    pub closed spec fn low(&self) -> Seq<InferenceRequest> {
        queued_requests(self.low_priority)
    }

    pub closed spec fn is_shut_down(&self) -> bool {
        self.shutdown
    }

    /// All waiting requests in dispatch order.
    pub open spec fn pending(&self) -> Seq<InferenceRequest> {
        self.high() + self.normal() + self.low()
    }

    pub fn new() -> (r: Self)
        ensures
            r.high().len() == 0 && r.normal().len() == 0 && r.low().len() == 0,
            !r.is_shut_down(),
    {
        PriorityScheduler {
            high_priority: queue_new(),
            normal_priority: queue_new(),
            low_priority: queue_new(),
            shutdown: false,
        }
    }

    /// Queue a request in its class.
    pub fn submit(&mut self, request: InferenceRequest, priority: Priority) -> (r: Result<()>)
        ensures
            r is Ok,
            final(self).is_shut_down() == old(self).is_shut_down(),
            final(self).high() == if priority == Priority::High {
                old(self).high().push(request)
            } else {
                old(self).high()
            },
            final(self).normal() == if priority == Priority::Normal {
                old(self).normal().push(request)
            } else {
                old(self).normal()
            },
            final(self).low() == if priority == Priority::Low {
                old(self).low().push(request)
            } else {
                old(self).low()
            },
    {
        match priority {
            Priority::High => queue_push(&mut self.high_priority, request),
            Priority::Normal => queue_push(&mut self.normal_priority, request),
            Priority::Low => queue_push(&mut self.low_priority, request),
        }
        Ok(())
    }

    /// A batch, created at `now_ms`, of the first `max_batch_size` waiting requests
    /// in dispatch order (all high, then normal, then low, each oldest first).
    /// `None` when shut down, when nothing waits, or when `max_batch_size` is zero;
    /// the caller then waits for a submission.
    pub fn next_batch(&mut self, max_batch_size: usize, now_ms: u64) -> (r: Option<RequestBatch>)
        ensures
            final(self).is_shut_down() == old(self).is_shut_down(),
            r is None <==> old(self).is_shut_down() || old(self).pending().len() == 0
                || max_batch_size == 0,
            r is None ==> final(self).pending() == old(self).pending(),
            r matches Some(b) ==> {
                let k = if max_batch_size < old(self).pending().len() {
                    max_batch_size as int
                } else {
                    old(self).pending().len() as int
                };
                &&& b.creation_ms == now_ms
                &&& b.max_seq_len == longest(b.requests@)
                &&& b.requests@ == old(self).pending().subrange(0, k)
                &&& final(self).pending() == old(self).pending().subrange(
                    k,
                    old(self).pending().len() as int,
                )
            },
    {
        if self.shutdown || max_batch_size == 0 {
            return None;
        }
        if queue_len(&self.high_priority) == 0 && queue_len(&self.normal_priority) == 0
            && queue_len(&self.low_priority) == 0 {
            return None;
        }
        let ghost h = queued_requests(self.high_priority);
        let ghost n = queued_requests(self.normal_priority);
        let ghost l = queued_requests(self.low_priority);
        let mut batch = RequestBatch::new(now_ms);
        drain_into(&mut self.high_priority, &mut batch, max_batch_size);
        drain_into(&mut self.normal_priority, &mut batch, max_batch_size);
        drain_into(&mut self.low_priority, &mut batch, max_batch_size);
        proof {
            let all = h + n + l;
            let k = batch.requests@.len();
            assert(batch.requests@ =~= all.subrange(0, k as int));
            assert(self.pending() =~= all.subrange(k as int, all.len() as int));
        }
        Some(batch)
    }

    /// Stop handing out batches.
    pub fn shutdown(&mut self)
        ensures
            final(self).is_shut_down(),
            final(self).pending() == old(self).pending(),
    {
        self.shutdown = true;
    }
}

} // verus!
