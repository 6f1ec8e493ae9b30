//! The unbounded lock-free FIFO that holds waiting requests, as the batching
//! logic sees it: a sequence of requests, oldest first.
use vstd::prelude::*;
use crossbeam::queue::SegQueue;
use crate::batching::InferenceRequest;

verus! {

#[verifier::external_type_specification]
#[verifier::external_body]
#[verifier::reject_recursive_types(T)]
pub struct ExSegQueue<T>(crossbeam::queue::SegQueue<T>);

/// The requests a queue holds, oldest first.
pub uninterp spec fn queued_requests(q: SegQueue<InferenceRequest>) -> Seq<InferenceRequest>;

/// Relies on `SegQueue::new`: a new queue is empty.
#[verifier::external_body]
pub(crate) fn queue_new() -> (r: SegQueue<InferenceRequest>)
    ensures
        queued_requests(r).len() == 0,
{
    SegQueue::new()
}

/// Relies on `SegQueue::push_mut`: the request joins the back of the queue.
#[verifier::external_body]
pub(crate) fn queue_push(q: &mut SegQueue<InferenceRequest>, request: InferenceRequest)
    ensures
        queued_requests(*final(q)) == queued_requests(*old(q)).push(request),
{
    q.push_mut(request)
}

/// Relies on `SegQueue::pop_mut`: the front request leaves the queue, `None`
/// when it is empty.
#[verifier::external_body]
pub(crate) fn queue_pop(q: &mut SegQueue<InferenceRequest>) -> (r: Option<InferenceRequest>)
    ensures
        queued_requests(*old(q)).len() == 0 ==> r is None && queued_requests(*final(q))
            == queued_requests(*old(q)),
        queued_requests(*old(q)).len() > 0 ==> r == Some(queued_requests(*old(q))[0])
            && queued_requests(*final(q)) == queued_requests(*old(q)).drop_first(),
{
    q.pop_mut()
}

/// Relies on `SegQueue::len`: the number of requests held.
#[verifier::external_body]
pub(crate) fn queue_len(q: &SegQueue<InferenceRequest>) -> (r: usize)
    ensures
        r == queued_requests(*q).len(),
{
    q.len()
}

} // verus!
