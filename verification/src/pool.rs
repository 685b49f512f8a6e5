//! The worker pool as a mathematical value, the two steps it can take, and
//! what holds of every pool those steps lead to.

use crate::scanner::Scan;
use crate::server::{Assignment, PoolError};
use vstd::prelude::*;

verus! {

/// The pool as a mathematical value. Requests are numbered in the order in
/// which they were submitted; that number is a request's ticket.
pub struct PoolState {
    /// For each worker, the ticket of the request it is busy with.
    pub slots: Seq<Option<nat>>,
    /// The requests that no worker has taken yet, oldest first.
    pub waiting: Seq<Scan>,
    /// How many requests were submitted so far.
    pub submitted: nat,
    /// How many requests were finished so far.
    pub resolved: nat,
}

/// How many of `slots` hold a ticket.
pub open spec fn busy_count(slots: Seq<Option<nat>>) -> nat
    decreases slots.len(),
{
    if slots.len() == 0 {
        0
    } else {
        busy_count(slots.drop_last()) + if slots.last() is Some {
            1nat
        } else {
            0nat
        }
    }
}

/// Whether `worker` is idle and every worker before it is busy.
pub open spec fn is_first_idle(slots: Seq<Option<nat>>, worker: int) -> bool {
    &&& 0 <= worker < slots.len()
    &&& slots[worker] is None
    &&& forall|k: int| 0 <= k < worker ==> slots[k] is Some
}

/// Whether some worker is idle.
pub open spec fn has_idle(slots: Seq<Option<nat>>) -> bool {
    exists|worker: int| 0 <= worker < slots.len() && slots[worker] is None
}

/// The idle worker with the lowest number, where there is one.
pub open spec fn first_idle(slots: Seq<Option<nat>>) -> int {
    choose|worker: int| is_first_idle(slots, worker)
}

impl PoolState {
    /// A pool of `workers` idle workers that has seen no request.
    pub open spec fn start(workers: nat) -> PoolState {
        PoolState {
            slots: Seq::new(workers, |i: int| None::<nat>),
            waiting: Seq::empty(),
            submitted: 0,
            resolved: 0,
        }
    }

    /// How many requests a worker has taken so far: the tickets below this
    /// number are in a worker's hands or finished, the others wait.
    pub open spec fn dispatched(self) -> int {
        self.submitted - self.waiting.len()
    }

    /// Whether a worker is busy with ticket `t`.
    pub open spec fn in_flight(self, t: nat) -> bool {
        exists|w: int| 0 <= w < self.slots.len() && self.slots[w] == Some(t)
    }

    /// Whether the request with ticket `t` waits for a worker.
    pub open spec fn is_waiting(self, t: nat) -> bool {
        self.dispatched() <= t < self.submitted
    }

    /// The waiting request with ticket `t`: tickets are given in the order in
    /// which requests wait.
    pub open spec fn waiting_request(self, t: nat) -> Scan
        recommends
            self.is_waiting(t),
    {
        self.waiting[t - self.dispatched()]
    }

    /// Whether the request with ticket `t` was finished.
    pub open spec fn is_resolved(self, t: nat) -> bool {
        t < self.dispatched() && !self.in_flight(t)
    }

    /// Whether nothing waits and no worker is busy.
    pub open spec fn idle(self) -> bool {
        self.waiting.len() == 0 && busy_count(self.slots) == 0
    }

    /// What holds of every pool that `start`, `submit` and `complete` lead to.
    pub open spec fn wf(self) -> bool {
        &&& self.waiting.len() <= self.submitted
        &&& forall|w: int|
            0 <= w < self.slots.len() && self.slots[w] is Some ==> (#[trigger] self.slots[w])->0
                < self.dispatched()
        &&& forall|v: int, w: int|
            0 <= v < w < self.slots.len() && self.slots[v] is Some ==> #[trigger] self.slots[v]
                != #[trigger] self.slots[w]
        &&& self.waiting.len() > 0 ==> !has_idle(self.slots)
        &&& self.resolved + busy_count(self.slots) + self.waiting.len() == self.submitted
    }

    /// The pool after `request` was submitted: the idle worker with the lowest
    /// number takes it at once; if all are busy, it waits behind the others.
    pub open spec fn submit(self, request: Scan) -> PoolState {
        if has_idle(self.slots) {
            PoolState {
                slots: self.slots.update(first_idle(self.slots), Some(self.submitted)),
                submitted: self.submitted + 1,
                ..self
            }
        } else {
            PoolState {
                waiting: self.waiting.push(request),
                submitted: self.submitted + 1,
                ..self
            }
        }
    }

    /// What `submit` hands to a worker.
    pub open spec fn handed_on_submit(self, request: Scan) -> Option<Assignment> {
        if has_idle(self.slots) {
            Some(Assignment { worker: first_idle(self.slots) as usize, request })
        } else {
            None
        }
    }

    /// The pool after `worker` finished its request: it takes the oldest
    /// waiting request, or falls idle if none waits.
    pub open spec fn complete(self, worker: int) -> PoolState {
        if self.waiting.len() > 0 {
            PoolState {
                slots: self.slots.update(worker, Some(self.dispatched() as nat)),
                waiting: self.waiting.subrange(1, self.waiting.len() as int),
                resolved: self.resolved + 1,
                ..self
            }
        } else {
            PoolState {
                slots: self.slots.update(worker, None),
                resolved: self.resolved + 1,
                ..self
            }
        }
    }

    /// What `complete` hands to the worker that finished.
    pub open spec fn handed_on_complete(self, worker: int) -> Option<Assignment> {
        if self.waiting.len() > 0 {
            Some(Assignment { worker: worker as usize, request: self.waiting[0] })
        } else {
            None
        }
    }

    /// Whether `worker` is a worker of the pool and busy.
    pub open spec fn can_complete(self, worker: int) -> bool {
        0 <= worker < self.slots.len() && self.slots[worker] is Some
    }

    /// What the pool answers when told that `worker` finished: what it hands
    /// to the worker next, or why nothing finished.
    pub open spec fn answer_on_complete(self, worker: int) -> Result<Option<Assignment>, PoolError> {
        if !(0 <= worker < self.slots.len()) {
            Err(PoolError::UnknownWorker)
        } else if self.slots[worker] is None {
            Err(PoolError::IdleWorker)
        } else {
            Ok(self.handed_on_complete(worker))
        }
    }

    /// The pool after it was told that `worker` finished: only a busy worker
    /// of the pool changes anything.
    pub open spec fn after_complete(self, worker: int) -> PoolState {
        if self.can_complete(worker) {
            self.complete(worker)
        } else {
            self
        }
    }
}

/// At most one worker is the first idle one.
pub proof fn lemma_first_idle_unique(slots: Seq<Option<nat>>, worker: int)
    requires
        is_first_idle(slots, worker),
    ensures
        has_idle(slots),
        first_idle(slots) == worker,
{
    let other = first_idle(slots);
    assert(is_first_idle(slots, other));
    if other < worker {
        assert(slots[other] is Some);
    } else if worker < other {
        assert(slots[worker] is Some);
    }
}

/// Where some worker is idle, one of them is the first.
pub proof fn lemma_first_idle_exists(slots: Seq<Option<nat>>)
    requires
        has_idle(slots),
    ensures
        is_first_idle(slots, first_idle(slots)),
{
    let some = choose|w: int| 0 <= w < slots.len() && slots[w] is None;
    lemma_idle_below(slots, some);
}

/// Below an idle worker, or at it, stands the first idle one.
proof fn lemma_idle_below(slots: Seq<Option<nat>>, bound: int)
    requires
        0 <= bound < slots.len(),
        slots[bound] is None,
    ensures
        exists|w: int| is_first_idle(slots, w),
    decreases bound,
{
    if exists|k: int| 0 <= k < bound && slots[k] is None {
        let k = choose|k: int| 0 <= k < bound && slots[k] is None;
        lemma_idle_below(slots, k);
    } else {
        assert(is_first_idle(slots, bound));
    }
}

/// The busy workers are no more than the workers, and fewer where one is idle.
pub proof fn lemma_busy_count_bounds(slots: Seq<Option<nat>>)
    ensures
        busy_count(slots) <= slots.len(),
        has_idle(slots) <==> busy_count(slots) < slots.len(),
        busy_count(slots) == 0 <==> forall|w: int| 0 <= w < slots.len() ==> slots[w] is None,
    decreases slots.len(),
{
    if slots.len() > 0 {
        let front = slots.drop_last();
        lemma_busy_count_bounds(front);
        if has_idle(front) {
            let w = choose|w: int| 0 <= w < front.len() && front[w] is None;
            assert(slots[w] is None);
        }
        if has_idle(slots) {
            let w = choose|w: int| 0 <= w < slots.len() && slots[w] is None;
            if w < front.len() {
                assert(front[w] is None);
            }
        }
        if slots.last() is None {
            assert(slots[slots.len() - 1] is None);
        }
        if busy_count(slots) == 0 {
            assert forall|w: int| 0 <= w < slots.len() implies slots[w] is None by {
                if w < front.len() {
                    assert(front[w] is None);
                }
            }
        }
        if forall|w: int| 0 <= w < slots.len() ==> slots[w] is None {
            assert forall|w: int| 0 <= w < front.len() implies front[w] is None by {
                assert(slots[w] is None);
            }
        }
    }
}

/// Changing one slot changes the number of busy workers by what that slot
/// gains or loses.
pub proof fn lemma_busy_count_update(slots: Seq<Option<nat>>, worker: int, slot: Option<nat>)
    requires
        0 <= worker < slots.len(),
    ensures
        busy_count(slots.update(worker, slot)) + (if slots[worker] is Some {
            1nat
        } else {
            0nat
        }) == busy_count(slots) + (if slot is Some {
            1nat
        } else {
            0nat
        }),
    decreases slots.len(),
{
    let after = slots.update(worker, slot);
    if worker == slots.len() - 1 {
        assert(after.drop_last() =~= slots.drop_last());
    } else {
        assert(after.drop_last() =~= slots.drop_last().update(worker, slot));
        lemma_busy_count_update(slots.drop_last(), worker, slot);
    }
}

/// A fresh pool is well formed and idle.
pub proof fn lemma_start_wf(workers: nat)
    ensures
        PoolState::start(workers).wf(),
        PoolState::start(workers).idle(),
        PoolState::start(workers).slots.len() == workers,
{
    let s = PoolState::start(workers);
    lemma_busy_count_bounds(s.slots);
}

/// Submitting keeps the pool well formed, with the same workers.
pub proof fn lemma_submit_wf(s: PoolState, request: Scan)
    requires
        s.wf(),
    ensures
        s.submit(request).wf(),
        s.submit(request).slots.len() == s.slots.len(),
        s.submit(request).submitted == s.submitted + 1,
        s.submit(request).resolved == s.resolved,
{
    let after = s.submit(request);
    if has_idle(s.slots) {
        let w = first_idle(s.slots);
        lemma_first_idle_exists(s.slots);
        lemma_busy_count_update(s.slots, w, Some(s.submitted));
        if after.waiting.len() > 0 {
            assert(false);
        }
    } else {
        assert forall|w: int| 0 <= w < after.slots.len() implies !(after.slots[w] is None) by {
            if s.slots[w] is None {
                assert(has_idle(s.slots));
            }
        }
    }
}

/// Finishing a request keeps the pool well formed, with the same workers.
pub proof fn lemma_complete_wf(s: PoolState, worker: int)
    requires
        s.wf(),
        s.can_complete(worker),
    ensures
        s.complete(worker).wf(),
        s.complete(worker).slots.len() == s.slots.len(),
        s.complete(worker).submitted == s.submitted,
        s.complete(worker).resolved == s.resolved + 1,
{
    let after = s.complete(worker);
    if s.waiting.len() > 0 {
        lemma_busy_count_update(s.slots, worker, Some(s.dispatched() as nat));
        assert forall|w: int| 0 <= w < after.slots.len() implies !(after.slots[w] is None) by {
            if w != worker && s.slots[w] is None {
                assert(has_idle(s.slots));
            }
        }
    } else {
        lemma_busy_count_update(s.slots, worker, None);
    }
}

/// Something that happens to a pool.
pub enum PoolEvent {
    /// A request is submitted.
    Submit(Scan),
    /// The worker of this number finishes its request.
    Complete(int),
}

/// How many of `events` are finished requests.
pub open spec fn completions(events: Seq<PoolEvent>) -> nat
    decreases events.len(),
{
    if events.len() == 0 {
        0
    } else {
        completions(events.drop_last()) + if events.last() is Complete {
            1nat
        } else {
            0nat
        }
    }
}

impl PoolState {
    /// Whether `event` can happen to the pool: only a busy worker finishes.
    pub open spec fn enabled(self, event: PoolEvent) -> bool {
        match event {
            PoolEvent::Submit(_) => true,
            PoolEvent::Complete(worker) => self.can_complete(worker),
        }
    }

    /// The pool after `event`.
    pub open spec fn step(self, event: PoolEvent) -> PoolState {
        match event {
            PoolEvent::Submit(request) => self.submit(request),
            PoolEvent::Complete(worker) => self.complete(worker),
        }
    }

    /// The pool after `events`, one after the other.
    pub open spec fn run(self, events: Seq<PoolEvent>) -> PoolState
        decreases events.len(),
    {
        if events.len() == 0 {
            self
        } else {
            self.run(events.drop_last()).step(events.last())
        }
    }

    /// Whether `events` can happen to the pool one after the other.
    pub open spec fn admits(self, events: Seq<PoolEvent>) -> bool
        decreases events.len(),
    {
        events.len() == 0 || (self.admits(events.drop_last()) && self.run(
            events.drop_last(),
        ).enabled(events.last()))
    }
}

/// A pool is idle exactly when every request submitted was finished.
pub proof fn lemma_idle_iff_all_resolved(s: PoolState)
    requires
        s.wf(),
    ensures
        s.idle() <==> s.resolved == s.submitted,
{
}

/// Every request submitted so far is in exactly one place: it waits, or one
/// worker is busy with it, or it was finished.
pub proof fn lemma_ticket_in_one_place(s: PoolState, t: nat)
    requires
        s.wf(),
        t < s.submitted,
    ensures
        s.is_waiting(t) || s.in_flight(t) || s.is_resolved(t),
        !(s.is_waiting(t) && s.in_flight(t)),
        !(s.is_waiting(t) && s.is_resolved(t)),
        !(s.in_flight(t) && s.is_resolved(t)),
        forall|v: int, w: int|
            0 <= v < s.slots.len() && 0 <= w < s.slots.len() && s.slots[v] == Some(t)
                && s.slots[w] == Some(t) ==> v == w,
{
    if s.in_flight(t) {
        let w = choose|w: int| 0 <= w < s.slots.len() && s.slots[w] == Some(t);
        assert(s.slots[w]->0 < s.dispatched());
    }
    assert forall|v: int, w: int|
        0 <= v < s.slots.len() && 0 <= w < s.slots.len() && s.slots[v] == Some(t) && s.slots[w]
            == Some(t) implies v == w by {
        if v < w {
            assert(s.slots[v] != s.slots[w]);
        } else if w < v {
            assert(s.slots[w] != s.slots[v]);
        }
    }
}

/// A request gets a ticket no request had before it, and waits or is in a
/// worker's hands from then on.
pub proof fn lemma_submit_adds_ticket(s: PoolState, request: Scan)
    requires
        s.wf(),
    ensures
        !s.is_waiting(s.submitted) && !s.in_flight(s.submitted) && !s.is_resolved(s.submitted),
        s.submit(request).is_waiting(s.submitted) || s.submit(request).in_flight(s.submitted),
        has_idle(s.slots) ==> s.submit(request).slots[first_idle(s.slots)] == Some(s.submitted),
        !has_idle(s.slots) ==> s.submit(request).waiting.last() == request,
{
    if s.in_flight(s.submitted) {
        let w = choose|w: int| 0 <= w < s.slots.len() && s.slots[w] == Some(s.submitted);
        assert(s.slots[w]->0 < s.dispatched());
    }
    if has_idle(s.slots) {
        lemma_first_idle_exists(s.slots);
        let w = first_idle(s.slots);
        assert(s.submit(request).slots[w] == Some(s.submitted));
    }
}

/// When a worker finishes, the request it was busy with is finished, and the
/// oldest waiting request, if there is one, is in that worker's hands.
pub proof fn lemma_complete_resolves(s: PoolState, worker: int)
    requires
        s.wf(),
        s.can_complete(worker),
    ensures
        s.complete(worker).is_resolved(s.slots[worker]->0),
        s.waiting.len() > 0 ==> s.complete(worker).slots[worker] == Some(s.dispatched() as nat),
        s.waiting.len() > 0 ==> s.complete(worker).waiting == s.waiting.skip(1),
        s.waiting.len() == 0 ==> s.complete(worker).slots[worker] is None,
{
    let t = s.slots[worker]->0;
    let after = s.complete(worker);
    assert(s.slots[worker]->0 < s.dispatched());
    if after.in_flight(t) {
        let w = choose|w: int| 0 <= w < after.slots.len() && after.slots[w] == Some(t);
        if w != worker {
            assert(s.slots[w] == Some(t));
            if w < worker {
                assert(s.slots[w] != s.slots[worker]);
            } else {
                assert(s.slots[worker] != s.slots[w]);
            }
        }
    }
    if s.waiting.len() > 0 {
        assert(after.waiting =~= s.waiting.skip(1));
    }
}

/// Requests wait in the order of their tickets and keep it: a request that
/// waits before and after an event is the same request under the same ticket,
/// a request that has to wait gets the newest ticket, and a worker that
/// finishes is handed the request with the oldest.
pub proof fn lemma_waiting_keeps_ticket(s: PoolState, event: PoolEvent, t: nat)
    requires
        s.wf(),
        s.enabled(event),
    ensures
        s.is_waiting(t) && s.step(event).is_waiting(t) ==> s.step(event).waiting_request(t)
            == s.waiting_request(t),
        event matches PoolEvent::Submit(request) ==> (!has_idle(s.slots) ==> s.step(
            event,
        ).is_waiting(s.submitted) && s.step(event).waiting_request(s.submitted) == request),
        event matches PoolEvent::Complete(worker) ==> (s.waiting.len() > 0 ==> s.is_waiting(
            s.dispatched() as nat,
        ) && s.handed_on_complete(worker) == Some(
            (Assignment {
                worker: worker as usize,
                request: s.waiting_request(s.dispatched() as nat),
            }),
        )),
{
    match event {
        PoolEvent::Submit(request) => {
            if has_idle(s.slots) {
                lemma_first_idle_exists(s.slots);
            }
        },
        PoolEvent::Complete(worker) => {},
    }
}

/// A finished request stays finished: no worker is handed it again.
pub proof fn lemma_resolved_stays(s: PoolState, event: PoolEvent, t: nat)
    requires
        s.wf(),
        s.enabled(event),
        s.is_resolved(t),
    ensures
        s.step(event).is_resolved(t),
{
    let after = s.step(event);
    if after.in_flight(t) {
        let w = choose|w: int| 0 <= w < after.slots.len() && after.slots[w] == Some(t);
        match event {
            PoolEvent::Submit(request) => {
                if has_idle(s.slots) {
                    lemma_first_idle_exists(s.slots);
                }
                assert(s.slots[w] == Some(t));
            },
            PoolEvent::Complete(worker) => {
                assert(s.slots[w] == Some(t));
            },
        }
    }
}

/// Events that can happen keep the pool well formed and with the same
/// workers; requests are only ever added, and each finished request counts
/// once.
pub proof fn lemma_run_wf(s: PoolState, events: Seq<PoolEvent>)
    requires
        s.wf(),
        s.admits(events),
    ensures
        s.run(events).wf(),
        s.run(events).slots.len() == s.slots.len(),
        s.run(events).submitted >= s.submitted,
        s.run(events).resolved == s.resolved + completions(events),
        s.run(events).dispatched() >= s.dispatched(),
    decreases events.len(),
{
    if events.len() > 0 {
        let before = s.run(events.drop_last());
        lemma_run_wf(s, events.drop_last());
        match events.last() {
            PoolEvent::Submit(request) => {
                lemma_submit_wf(before, request);
            },
            PoolEvent::Complete(worker) => {
                lemma_complete_wf(before, worker);
            },
        }
    }
}

/// No request waits forever: a request with `ahead` requests waiting before
/// it is in a worker's hands, or finished, once `ahead + 1` scans have
/// finished, whatever else is submitted meanwhile.
pub proof fn lemma_no_starvation(s: PoolState, events: Seq<PoolEvent>, t: nat)
    requires
        s.wf(),
        s.admits(events),
        s.is_waiting(t),
        completions(events) > t - s.dispatched(),
    ensures
        !s.run(events).is_waiting(t),
        s.run(events).in_flight(t) || s.run(events).is_resolved(t),
{
    lemma_progress(s, events);
    lemma_run_wf(s, events);
    lemma_ticket_in_one_place(s.run(events), t);
}

/// A busy worker keeps its request until it finishes: whatever else happens
/// to the pool, no other event takes the request away or hands the worker
/// another one.
pub proof fn lemma_busy_until_finished(s: PoolState, events: Seq<PoolEvent>, worker: int, t: nat)
    requires
        s.wf(),
        s.admits(events),
        0 <= worker < s.slots.len(),
        s.slots[worker] == Some(t),
        forall|i: int| 0 <= i < events.len() ==> events[i] != PoolEvent::Complete(worker),
    ensures
        s.run(events).slots[worker] == Some(t),
    decreases events.len(),
{
    if events.len() > 0 {
        let front = events.drop_last();
        let before = s.run(front);
        assert forall|i: int| 0 <= i < front.len() implies front[i] != PoolEvent::Complete(
            worker,
        ) by {
            assert(front[i] == events[i]);
        }
        lemma_busy_until_finished(s, front, worker, t);
        lemma_run_wf(s, front);
        assert(events[events.len() - 1] != PoolEvent::Complete(worker));
        match events.last() {
            PoolEvent::Submit(request) => {
                if has_idle(before.slots) {
                    lemma_first_idle_exists(before.slots);
                }
            },
            PoolEvent::Complete(other) => {
                assert(other != worker);
            },
        }
    }
}

/// A request in a worker's hands is finished once that worker finishes,
/// whatever else happens to the pool before and after.
pub proof fn lemma_resolved_once_worker_finishes(
    s: PoolState,
    events: Seq<PoolEvent>,
    worker: int,
    t: nat,
)
    requires
        s.wf(),
        s.admits(events),
        0 <= worker < s.slots.len(),
        s.slots[worker] == Some(t),
        exists|i: int| 0 <= i < events.len() && events[i] == PoolEvent::Complete(worker),
    ensures
        s.run(events).is_resolved(t),
    decreases events.len(),
{
    let front = events.drop_last();
    let before = s.run(front);
    lemma_run_wf(s, front);
    if exists|i: int| 0 <= i < front.len() && front[i] == PoolEvent::Complete(worker) {
        lemma_resolved_once_worker_finishes(s, front, worker, t);
        lemma_resolved_stays(before, events.last(), t);
    } else {
        let i = choose|i: int| 0 <= i < events.len() && events[i] == PoolEvent::Complete(worker);
        if i < front.len() {
            assert(front[i] == PoolEvent::Complete(worker));
        }
        assert(events.last() == PoolEvent::Complete(worker));
        assert forall|k: int| 0 <= k < front.len() implies front[k] != PoolEvent::Complete(
            worker,
        ) by {}
        lemma_busy_until_finished(s, front, worker, t);
        lemma_complete_resolves(before, worker);
    }
}

/// Every finished scan hands the oldest waiting request to a worker, as long
/// as one waits.
proof fn lemma_progress(s: PoolState, events: Seq<PoolEvent>)
    requires
        s.wf(),
        s.admits(events),
    ensures
        s.run(events).dispatched() >= s.dispatched() + completions(events) || s.run(
            events,
        ).dispatched() >= s.submitted,
    decreases events.len(),
{
    if events.len() > 0 {
        let before = s.run(events.drop_last());
        lemma_progress(s, events.drop_last());
        lemma_run_wf(s, events.drop_last());
        match events.last() {
            PoolEvent::Submit(request) => {
                lemma_submit_wf(before, request);
            },
            PoolEvent::Complete(worker) => {
                lemma_complete_wf(before, worker);
            },
        }
    }
}

} // verus!
