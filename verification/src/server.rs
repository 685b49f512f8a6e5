//! The worker pool: a fixed number of workers, each busy with at most one
//! request, and the requests that wait for a free one, oldest first.
//!
//! The pool decides; it does not run anything. `submit` and `complete` say
//! which request goes to which worker, and the caller carries that out.

use crate::pool::{
    busy_count, first_idle, has_idle, is_first_idle, lemma_busy_count_bounds, lemma_complete_wf,
    lemma_first_idle_unique, lemma_start_wf, lemma_submit_wf, PoolState,
};
use crate::scanner::Scan;
use std::collections::VecDeque;
use vstd::prelude::*;

verus! {

/// A request handed to a worker: the caller is to have `worker` scan it.
#[derive(Debug)]
pub struct Assignment {
    /// The worker that takes the request, counted from zero.
    pub worker: usize,
    /// The request it takes.
    pub request: Scan,
}

/// Why the pool refused to take note of a finished scan.
#[derive(Debug, Clone, Copy, PartialEq, Eq, Structural)]
pub enum PoolError {
    /// The pool has no worker of that number.
    UnknownWorker,
    /// That worker had no request to finish.
    IdleWorker,
}

/// The pool of workers.
pub struct Server {
    /// For each worker, whether it is busy.
    busy: Vec<bool>,
    /// How many workers are busy.
    active: usize,
    /// The requests that no worker has taken yet, oldest first.
    waiting: VecDeque<Scan>,
    /// The tickets and counts that go with the fields above.
    state: Ghost<PoolState>,
}

impl View for Server {
    type V = PoolState;

    closed spec fn view(&self) -> PoolState {
        self.state@
    }
}

impl Server {
    /// Whether the pool's fields agree with each other. Every pool that this
    /// module hands out is well formed.
    pub closed spec fn wf(&self) -> bool {
        &&& self.state@.wf()
        &&& self.state@.waiting == self.waiting@
        &&& self.state@.slots.len() == self.busy@.len()
        &&& forall|w: int|
            0 <= w < self.busy@.len() ==> self.busy@[w] == (#[trigger] self.state@.slots[w] is Some)
        &&& self.active == busy_count(self.state@.slots)
    }

    /// Well-formedness of the pool carries over to its mathematical value.
    pub proof fn lemma_wf(&self)
        requires
            self.wf(),
        ensures
            self@.wf(),
    {
    }

    /// A pool of `workers` idle workers.
    pub fn new(workers: usize) -> (server: Server)
        ensures
            server.wf(),
            server@ == PoolState::start(workers as nat),
    {
        let mut busy: Vec<bool> = Vec::new();
        let mut i: usize = 0;
        while i < workers
            invariant
                i <= workers,
                busy@.len() == i,
                forall|k: int| 0 <= k < i ==> !busy@[k],
            decreases workers - i,
        {
            busy.push(false);
            i += 1;
        }
        let ghost state = PoolState::start(workers as nat);
        proof {
            lemma_start_wf(workers as nat);
        }
        Server { busy, active: 0, waiting: VecDeque::new(), state: Ghost(state) }
    }

    /// How many workers the pool has.
    pub fn workers(&self) -> (n: usize)
        requires
            self.wf(),
        ensures
            n == self@.slots.len(),
    {
        self.busy.len()
    }

    /// How many workers are busy.
    pub fn in_flight(&self) -> (n: usize)
        requires
            self.wf(),
        ensures
            n == busy_count(self@.slots),
    {
        self.active
    }

    /// How many requests wait for a worker.
    pub fn queued(&self) -> (n: usize)
        requires
            self.wf(),
        ensures
            n == self@.waiting.len(),
    {
        self.waiting.len()
    }

    /// Whether nothing waits and no worker is busy: every request submitted
    /// so far was finished.
    pub fn is_idle(&self) -> (idle: bool)
        requires
            self.wf(),
        ensures
            idle == self@.idle(),
            idle == (self@.resolved == self@.submitted),
    {
        self.active == 0 && self.waiting.len() == 0
    }

    /// The idle worker with the lowest number, if any.
    fn find_idle(&self) -> (found: Option<usize>)
        requires
            self.wf(),
        ensures
            found is Some <==> has_idle(self@.slots),
            found matches Some(w) ==> w == first_idle(self@.slots) && is_first_idle(
                self@.slots,
                w as int,
            ),
    {
        let mut w: usize = 0;
        while w < self.busy.len()
            invariant
                self.wf(),
                w <= self.busy@.len(),
                forall|k: int| 0 <= k < w ==> self.state@.slots[k] is Some,
            decreases self.busy@.len() - w,
        {
            if !self.busy[w] {
                proof {
                    lemma_first_idle_unique(self.state@.slots, w as int);
                }
                return Some(w);
            }
            w += 1;
        }
        None
    }

    /// Takes a request. If a worker is idle, the one with the lowest number
    /// takes it and the call hands back that assignment; if all are busy the
    /// request waits its turn and the call hands back nothing.
    pub fn submit(&mut self, request: Scan) -> (handed: Option<Assignment>)
        requires
            old(self).wf(),
        ensures
            final(self).wf(),
            final(self)@ == old(self)@.submit(request),
            handed == old(self)@.handed_on_submit(request),
    {
        proof {
            lemma_submit_wf(self.state@, request);
            lemma_busy_count_bounds(self.state@.slots);
        }
        match self.find_idle() {
            Some(w) => {
                assert(self.active < self.busy.len());
                self.busy.set(w, true);
                self.active = self.active + 1;
                self.state = Ghost(self.state@.submit(request));
                Some(Assignment { worker: w, request })
            },
            None => {
                self.waiting.push_back(request);
                self.state = Ghost(self.state@.submit(request));
                None
            },
        }
    }

    /// Takes note that `worker` finished its request. The worker takes the
    /// oldest waiting request, which the call hands back, or falls idle. A
    /// worker that the pool does not have, or that was not busy, changes
    /// nothing.
    pub fn complete(&mut self, worker: usize) -> (next: Result<Option<Assignment>, PoolError>)
        requires
            old(self).wf(),
        ensures
            final(self).wf(),
            next == old(self)@.answer_on_complete(worker as int),
            final(self)@ == old(self)@.after_complete(worker as int),
    {
        if worker >= self.busy.len() {
            return Err(PoolError::UnknownWorker);
        }
        if !self.busy[worker] {
            return Err(PoolError::IdleWorker);
        }
        proof {
            lemma_complete_wf(self.state@, worker as int);
            lemma_busy_count_bounds(self.state@.slots);
        }
        let ghost before = self.state@;
        match self.waiting.pop_front() {
            Some(request) => {
                self.state = Ghost(before.complete(worker as int));
                Ok(Some(Assignment { worker, request }))
            },
            None => {
                self.busy.set(worker, false);
                self.active = self.active - 1;
                self.state = Ghost(before.complete(worker as int));
                Ok(None)
            },
        }
    }
}

} // verus!
