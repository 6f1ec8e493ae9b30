//! The coordinator's worker table: health and load per worker, least-loaded
//! selection, and demotion after consecutive failures.
use vstd::prelude::*;
use crate::container::str_equals;
use crate::error::ChatLoopError;
use crate::error::Result;

verus! {

/// What the router knows of one worker. Times are monotonic milliseconds.
#[derive(Debug)]
pub struct WorkerInfo {
    pub endpoint: String,
    pub worker_id: String,
    /// Owned layer range `[start, end)`.
    pub layer_group: (usize, usize),
    /// Last observed queue depth.
    pub queue_depth: usize,
    pub healthy: bool,
    /// Time of the last successful probe.
    pub last_health_check_ms: u64,
    /// Consecutive failed probes.
    pub failure_count: u32,
}

impl WorkerInfo {
    /// A healthy worker with an empty queue and no failures, last probed at `now_ms`.
    pub fn new(endpoint: String, worker_id: String, layer_group: (usize, usize), now_ms: u64) -> (r:
        Self)
        ensures
            r.endpoint == endpoint,
            r.worker_id == worker_id,
            r.layer_group == layer_group,
            r.queue_depth == 0,
            r.healthy,
            r.last_health_check_ms == now_ms,
            r.failure_count == 0,
    {
        WorkerInfo {
            endpoint,
            worker_id,
            layer_group,
            queue_depth: 0,
            healthy: true,
            last_health_check_ms: now_ms,
            failure_count: 0,
        }
    }

    /// Routing cost, lower is better: the queue depth of a healthy worker, and
    /// `None` (an infinite cost) for an unhealthy one.
    pub fn load_score(&self) -> (r: Option<usize>)
        ensures
            r == score_of(*self),
    {
        if self.healthy {
            Some(self.queue_depth)
        } else {
            None
        }
    }

    /// Whether more than `interval_ms` has passed since the last successful probe.
    pub fn needs_health_check(&self, interval_ms: u64, now_ms: u64) -> (r: bool)
        ensures
            r == (now_ms as int - self.last_health_check_ms as int > interval_ms as int),
    {
        now_ms > self.last_health_check_ms && now_ms - self.last_health_check_ms > interval_ms
    }
}

/// Routing cost of a worker: its queue depth when healthy, none (infinite) otherwise.
pub open spec fn score_of(w: WorkerInfo) -> Option<usize> {
    if w.healthy {
        Some(w.queue_depth)
    } else {
        None
    }
}

/// The record after one more failed probe: the counter grows (saturating) and the
/// worker is demoted once it reaches the threshold.
pub open spec fn after_failure(w: WorkerInfo, threshold: u32) -> WorkerInfo {
    let c = if w.failure_count < u32::MAX {
        (w.failure_count + 1) as u32
    } else {
        w.failure_count
    };
    WorkerInfo { failure_count: c, healthy: w.healthy && c < threshold, ..w }
}

/// The record after a successful probe at `now_ms`.
pub open spec fn after_success(w: WorkerInfo, now_ms: u64) -> WorkerInfo {
    WorkerInfo { failure_count: 0, healthy: true, last_health_check_ms: now_ms, ..w }
}

/// The record as the table stores it: a worker already at the threshold is unhealthy.
pub open spec fn admitted(w: WorkerInfo, threshold: u32) -> WorkerInfo {
    WorkerInfo { healthy: w.healthy && w.failure_count < threshold, ..w }
}

/// Position of the worker registered under `endpoint`, if any.
pub open spec fn position_of(ws: Seq<WorkerInfo>, endpoint: Seq<char>) -> Option<int> {
    if exists|i: int| 0 <= i < ws.len() && (#[trigger] ws[i]).endpoint@ == endpoint {
        Some(choose|i: int| 0 <= i < ws.len() && (#[trigger] ws[i]).endpoint@ == endpoint)
    } else {
        None
    }
}

/// Number of healthy workers.
pub open spec fn healthy_count(ws: Seq<WorkerInfo>) -> nat
    decreases ws.len(),
{
    if ws.len() == 0 {
        0
    } else {
        healthy_count(ws.drop_last()) + if ws.last().healthy {
            1nat
        } else {
            0nat
        }
    }
}

/// Endpoints are unique in the table.
pub open spec fn endpoints_unique(ws: Seq<WorkerInfo>) -> bool {
    forall|i: int, j: int|
        0 <= i < ws.len() && 0 <= j < ws.len() && i != j ==> (#[trigger] ws[i]).endpoint@ != (
        #[trigger] ws[j]).endpoint@
}

/// The worker table of a coordinator.
pub struct Router {
    workers: Vec<WorkerInfo>,
    health_check_interval_secs: u64,
    failure_threshold: u32,
}

impl Router {
    /// The registered workers, in registration order.
    pub closed spec fn workers(&self) -> Seq<WorkerInfo> {
        self.workers@
    }

    /// Consecutive failures after which a worker is demoted.
    pub closed spec fn threshold(&self) -> u32 {
        self.failure_threshold
    }

    /// Endpoints are unique and no worker at or past the failure threshold is healthy.
    pub closed spec fn wf(&self) -> bool {
        &&& endpoints_unique(self.workers@)
        &&& forall|i: int|
            0 <= i < self.workers@.len() && self.failure_threshold > 0 && (#[trigger] self.workers@[i]).failure_count
                >= self.failure_threshold ==> !self.workers@[i].healthy
    }

    /// An empty table probing every `health_check_interval_secs` seconds and demoting a
    /// worker after `failure_threshold` consecutive failures.
    pub fn new(health_check_interval_secs: u64, failure_threshold: u32) -> (r: Self)
        ensures
            r.wf(),
            r.workers().len() == 0,
            r.threshold() == failure_threshold,
            r.interval() == health_check_interval_secs,
    {
        Router { workers: Vec::new(), health_check_interval_secs, failure_threshold }
    }

    /// Seconds between two rounds of health probes.
    pub closed spec fn interval(&self) -> u64 {
        self.health_check_interval_secs
    }

    /// Seconds between two rounds of health probes.
    pub fn health_check_interval_secs(&self) -> (r: u64)
        ensures
            r == self.interval(),
    {
        self.health_check_interval_secs
    }

    fn find(&self, endpoint: &str) -> (r: Option<usize>)
        requires
            self.wf(),
        ensures
            r == (match position_of(self.workers@, endpoint@) {
                Some(i) => Some(i as usize),
                None => None::<usize>,
            }),
            r matches Some(i) ==> i < self.workers@.len() && self.workers@[i as int].endpoint@
                == endpoint@,
    {
        let n = self.workers.len();
        let mut i: usize = 0;
        while i < n
            invariant
                n == self.workers@.len(),
                i <= n,
                self.wf(),
                forall|j: int| 0 <= j < i ==> (#[trigger] self.workers@[j]).endpoint@ != endpoint@,
            decreases n - i,
        {
            if str_equals(self.workers[i].endpoint.as_str(), endpoint) {
                proof {
                    let ws = self.workers@;
                    assert(ws[i as int].endpoint@ == endpoint@);
                    let k = choose|k: int| 0 <= k < ws.len() && (#[trigger] ws[k]).endpoint@ == endpoint@;
                    assert(k == i);
                }
                return Some(i);
            }
            i = i + 1;
        }
        None
    }

    /// Register a worker, replacing any record under the same endpoint. A record
    /// already at the failure threshold is stored as unhealthy.
    pub fn register_worker(&mut self, worker_info: WorkerInfo) -> (r: Result<()>)
        requires
            old(self).wf(),
        ensures
            final(self).wf(),
            r is Ok,
            final(self).threshold() == old(self).threshold(),
            final(self).workers() == (match position_of(old(self).workers(), worker_info.endpoint@) {
                Some(i) => old(self).workers().update(i, admitted(worker_info, old(self).threshold())),
                None => old(self).workers().push(admitted(worker_info, old(self).threshold())),
            }),
    {
        let mut info = worker_info;
        if info.failure_count >= self.failure_threshold {
            info.healthy = false;
        }
        match self.find(info.endpoint.as_str()) {
            Some(i) => {
                self.workers.set(i, info);
            },
            None => {
                self.workers.push(info);
            },
        }
        Ok(())
    }

    /// Remove the worker registered under `endpoint`, if any.
    pub fn unregister_worker(&mut self, endpoint: &str) -> (r: Result<()>)
        requires
            old(self).wf(),
        ensures
            final(self).wf(),
            r is Ok,
            final(self).threshold() == old(self).threshold(),
            final(self).workers() == (match position_of(old(self).workers(), endpoint@) {
                Some(i) => old(self).workers().remove(i),
                None => old(self).workers(),
            }),
    {
        match self.find(endpoint) {
            Some(i) => {
                self.workers.remove(i);
            },
            None => {},
        }
        Ok(())
    }

    /// The endpoint of a healthy worker with the least queue depth, the earliest
    /// registered among equals (every healthy worker before it has a deeper
    /// queue), or `WorkerUnavailable` when no worker is healthy.
    pub fn select_worker(&self) -> (r: Result<String>)
        requires
            self.wf(),
        ensures
            r is Err <==> forall|i: int|
                0 <= i < self.workers().len() ==> !(#[trigger] self.workers()[i]).healthy,
            r matches Err(e) ==> e is WorkerUnavailable,
            r matches Ok(e) ==> exists|i: int|
                0 <= i < self.workers().len() && (#[trigger] self.workers()[i]).healthy
                    && self.workers()[i].endpoint@ == e@ && forall|j: int|
                    0 <= j < self.workers().len() && (#[trigger] self.workers()[j]).healthy
                        ==> self.workers()[i].queue_depth <= self.workers()[j].queue_depth
                    && forall|j: int|
                    0 <= j < i && (#[trigger] self.workers()[j]).healthy
                        ==> self.workers()[i].queue_depth < self.workers()[j].queue_depth,
    {
        if self.workers.len() == 0 {
            return Err(ChatLoopError::worker_unavailable("No workers available"));
        }
        let n = self.workers.len();
        let mut best: Option<usize> = None;
        let mut i: usize = 0;
        while i < n
            invariant
                n == self.workers@.len(),
                i <= n,
                best is None ==> forall|j: int| 0 <= j < i ==> !(#[trigger] self.workers@[j]).healthy,
                best matches Some(b) ==> b < i && self.workers@[b as int].healthy && forall|j: int|
                    0 <= j < i && (#[trigger] self.workers@[j]).healthy
                        ==> self.workers@[b as int].queue_depth <= self.workers@[j].queue_depth,
                best matches Some(b) ==> forall|j: int|
                    0 <= j < b && (#[trigger] self.workers@[j]).healthy
                        ==> self.workers@[b as int].queue_depth < self.workers@[j].queue_depth,
            decreases n - i,
        {
            let w = &self.workers[i];
            if w.healthy {
                match best {
                    None => {
                        best = Some(i);
                    },
                    Some(b) => {
                        if w.queue_depth < self.workers[b].queue_depth {
                            best = Some(i);
                        }
                    },
                }
            }
            i = i + 1;
        }
        match best {
            Some(b) => {
                let ghost bi = b as int;
                assert(self.workers()[bi].healthy);
                assert(forall|j: int|
                    0 <= j < self.workers().len() && (#[trigger] self.workers()[j]).healthy
                        ==> self.workers()[bi].queue_depth <= self.workers()[j].queue_depth);
                assert(forall|j: int|
                    0 <= j < bi && (#[trigger] self.workers()[j]).healthy
                        ==> self.workers()[bi].queue_depth < self.workers()[j].queue_depth);
                Ok(self.workers[b].endpoint.clone())
            },
            None => Err(ChatLoopError::worker_unavailable("No healthy workers available")),
        }
    }

    /// Record the queue depth last reported by the worker under `endpoint`.
    pub fn update_queue_depth(&mut self, endpoint: &str, depth: usize)
        requires
            old(self).wf(),
        ensures
            final(self).wf(),
            final(self).threshold() == old(self).threshold(),
            final(self).workers() == (match position_of(old(self).workers(), endpoint@) {
                Some(i) => old(self).workers().update(
                    i,
                    WorkerInfo { queue_depth: depth, ..old(self).workers()[i] },
                ),
                None => old(self).workers(),
            }),
    {
        match self.find(endpoint) {
            Some(i) => {
                let mut w = self.workers[i].clone_info();
                w.queue_depth = depth;
                self.workers.set(i, w);
            },
            None => {},
        }
    }

    /// Count one more failed probe of the worker under `endpoint`; it becomes
    /// unhealthy once the count reaches the failure threshold.
    pub fn mark_failed(&mut self, endpoint: &str)
        requires
            old(self).wf(),
        ensures
            final(self).wf(),
            final(self).threshold() == old(self).threshold(),
            final(self).workers() == (match position_of(old(self).workers(), endpoint@) {
                Some(i) => old(self).workers().update(
                    i,
                    after_failure(old(self).workers()[i], old(self).threshold()),
                ),
                None => old(self).workers(),
            }),
    {
        match self.find(endpoint) {
            Some(i) => {
                let mut w = self.workers[i].clone_info();
                w.failure_count = w.failure_count.saturating_add(1);
                if w.failure_count >= self.failure_threshold {
                    w.healthy = false;
                }
                self.workers.set(i, w);
            },
            None => {},
        }
    }

    /// Record a successful probe at `now_ms`: the worker is healthy again and its
    /// failure count is reset.
    pub fn mark_healthy(&mut self, endpoint: &str, now_ms: u64)
        requires
            old(self).wf(),
        ensures
            final(self).wf(),
            final(self).threshold() == old(self).threshold(),
            final(self).workers() == (match position_of(old(self).workers(), endpoint@) {
                Some(i) => old(self).workers().update(i, after_success(old(self).workers()[i], now_ms)),
                None => old(self).workers(),
            }),
    {
        match self.find(endpoint) {
            Some(i) => {
                let mut w = self.workers[i].clone_info();
                w.healthy = true;
                w.failure_count = 0;
                w.last_health_check_ms = now_ms;
                self.workers.set(i, w);
            },
            None => {},
        }
    }

    /// Apply the outcome of one health probe of `endpoint` at `now_ms`.
    pub fn record_probe(&mut self, endpoint: &str, probe_ok: bool, now_ms: u64)
        requires
            old(self).wf(),
        ensures
            final(self).wf(),
            final(self).threshold() == old(self).threshold(),
            final(self).workers() == (match position_of(old(self).workers(), endpoint@) {
                Some(i) => old(self).workers().update(
                    i,
                    if probe_ok {
                        after_success(old(self).workers()[i], now_ms)
                    } else {
                        after_failure(old(self).workers()[i], old(self).threshold())
                    },
                ),
                None => old(self).workers(),
            }),
    {
        if probe_ok {
            self.mark_healthy(endpoint, now_ms);
        } else {
            self.mark_failed(endpoint);
        }
    }

    /// The endpoints of all registered workers, in registration order.
    pub fn get_worker_endpoints(&self) -> (r: Vec<String>)
        ensures
            r@.len() == self.workers().len(),
            forall|i: int| 0 <= i < r@.len() ==> r@[i]@ == self.workers()[i].endpoint@,
    {
        let mut out: Vec<String> = Vec::new();
        let n = self.workers.len();
        let mut i: usize = 0;
        while i < n
            invariant
                n == self.workers@.len(),
                i <= n,
                out@.len() == i,
                forall|j: int| 0 <= j < i ==> out@[j]@ == self.workers@[j].endpoint@,
            decreases n - i,
        {
            out.push(self.workers[i].endpoint.clone());
            i = i + 1;
        }
        out
    }

    /// Number of healthy workers.
    pub fn healthy_worker_count(&self) -> (r: usize)
        ensures
            r == healthy_count(self.workers()),
    {
        let n = self.workers.len();
        let mut c: usize = 0;
        let mut i: usize = 0;
        while i < n
            invariant
                n == self.workers@.len(),
                i <= n,
                c <= i,
                c == healthy_count(self.workers@.subrange(0, i as int)),
            decreases n - i,
        {
            proof {
                assert(self.workers@.subrange(0, i + 1).drop_last() =~= self.workers@.subrange(
                    0,
                    i as int,
                ));
            }
            if self.workers[i].healthy {
                c = c + 1;
            }
            i = i + 1;
        }
        proof {
            assert(self.workers@.subrange(0, n as int) =~= self.workers@);
        }
        c
    }
}

impl WorkerInfo {
    /// A field-by-field copy.
    pub fn clone_info(&self) -> (r: Self)
        ensures
            r == *self,
    {
        WorkerInfo {
            endpoint: self.endpoint.clone(),
            worker_id: self.worker_id.clone(),
            layer_group: self.layer_group,
            queue_depth: self.queue_depth,
            healthy: self.healthy,
            last_health_check_ms: self.last_health_check_ms,
            failure_count: self.failure_count,
        }
    }
}

impl Clone for WorkerInfo {
    fn clone(&self) -> (r: Self)
        ensures
            r == *self,
    {
        self.clone_info()
    }
}

/// In every well-formed table, a worker whose consecutive failures reached the
/// threshold is unhealthy.
pub proof fn lemma_threshold_implies_unhealthy(r: &Router, i: int)
    requires
        r.wf(),
        r.threshold() > 0,
        0 <= i < r.workers().len(),
        r.workers()[i].failure_count >= r.threshold(),
    ensures
        !r.workers()[i].healthy,
{
}

/// After a successful probe of a registered worker its failure count is zero and it is healthy.
pub proof fn lemma_success_resets(w: WorkerInfo, now_ms: u64)
    ensures
        after_success(w, now_ms).failure_count == 0,
        after_success(w, now_ms).healthy,
{
}

} // verus!
