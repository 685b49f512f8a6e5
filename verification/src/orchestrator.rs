//! One run over a set of files: every file goes to the pool as a request,
//! every result is taken back in the order in which it comes, and the summary
//! is made when none is missing.

use crate::pool::{lemma_complete_wf, lemma_submit_wf, PoolState};
use crate::scanner::{Scan, ScanResult, DEFAULT_TIMEOUT};
use crate::server::{Assignment, PoolError, Server};
use crate::summary::{infected_files, ScanData, NANOS_PER_MILLI};
use std::path::PathBuf;
use vstd::prelude::*;

verus! {

/// A run in progress.
pub struct Orchestrator {
    /// The pool that the requests of the run go to.
    server: Server,
    /// The results taken back so far, oldest first.
    results: Vec<ScanResult>,
    /// How many requests the pool had finished when the run began.
    base: Ghost<nat>,
}

impl Orchestrator {
    /// Whether the run's fields agree with each other. Every run that this
    /// module hands out is well formed.
    pub closed spec fn wf(&self) -> bool {
        &&& self.server.wf()
        &&& self.base@ + self.results@.len() == self.server@.resolved
    }

    /// The pool of the run.
    pub closed spec fn pool(&self) -> PoolState {
        self.server@
    }

    /// The results taken back so far, oldest first.
    pub closed spec fn results(&self) -> Seq<ScanResult> {
        self.results@
    }

    /// How many requests the run has submitted so far.
    pub closed spec fn submitted(&self) -> nat {
        (self.server@.submitted - self.base@) as nat
    }

    /// How many results the run has taken back so far.
    pub open spec fn collected(&self) -> nat {
        self.results().len()
    }

    /// The pool of a well-formed run is well formed, and the run has taken
    /// back one result for each request that its pool finished for it. So
    /// the pool is idle exactly when no result of the run is missing.
    pub proof fn lemma_all_collected(&self)
        requires
            self.wf(),
        ensures
            self.pool().wf(),
            self.collected() <= self.submitted(),
            self.pool().idle() <==> self.collected() == self.submitted(),
    {
        self.server.lemma_wf();
    }

    /// Begins a run on `server`. A pool that still has requests of its own
    /// to finish is handed back.
    pub fn new(server: Server) -> (run: Result<Orchestrator, Server>)
        requires
            server.wf(),
        ensures
            run is Ok <==> server@.idle(),
            run matches Ok(o) ==> o.wf() && o.pool() == server@ && o.results() == Seq::<
                ScanResult,
            >::empty() && o.submitted() == 0,
            run matches Err(s) ==> s == server,
    {
        if server.is_idle() {
            let ghost base = server@.resolved;
            Ok(Orchestrator { server, results: Vec::new(), base: Ghost(base) })
        } else {
            Err(server)
        }
    }

    /// Submits the request to scan `file`, with the default timeout, and
    /// hands back the assignment if a worker takes it at once.
    pub fn submit(&mut self, file: PathBuf) -> (handed: Option<Assignment>)
        requires
            old(self).wf(),
        ensures
            final(self).wf(),
            final(self).pool() == old(self).pool().submit(
                (Scan { file, timeout: DEFAULT_TIMEOUT }),
            ),
            handed == old(self).pool().handed_on_submit((Scan { file, timeout: DEFAULT_TIMEOUT })),
            final(self).results() == old(self).results(),
            final(self).submitted() == old(self).submitted() + 1,
    {
        let request = Scan::new(file);
        proof {
            self.server.lemma_wf();
            lemma_submit_wf(self.server@, request);
        }
        self.server.submit(request)
    }

    /// Takes back the result of the request that `worker` was busy with, and
    /// hands back the worker's next assignment, if a request waited. The
    /// result of a worker that the pool does not have, or that was not busy,
    /// is not counted.
    pub fn collect(&mut self, worker: usize, result: ScanResult) -> (next: Result<
        Option<Assignment>,
        PoolError,
    >)
        requires
            old(self).wf(),
        ensures
            final(self).wf(),
            next == old(self).pool().answer_on_complete(worker as int),
            final(self).pool() == old(self).pool().after_complete(worker as int),
            final(self).results() == if next is Ok {
                old(self).results().push(result)
            } else {
                old(self).results()
            },
            final(self).submitted() == old(self).submitted(),
    {
        proof {
            self.server.lemma_wf();
            if self.server@.can_complete(worker as int) {
                lemma_complete_wf(self.server@, worker as int);
            }
        }
        let next = self.server.complete(worker);
        if next.is_ok() {
            self.results.push(result);
        }
        next
    }

    /// Whether every request of the run has its result.
    pub fn is_done(&self) -> (done: bool)
        requires
            self.wf(),
        ensures
            done == self.pool().idle(),
            done == (self.collected() == self.submitted()),
    {
        proof {
            self.lemma_all_collected();
        }
        self.server.is_idle()
    }

    /// Ends the run. Once every request has its result, the results are
    /// folded into the summary; `secs` and `subsec_nanos` are the time the run
    /// took. A run that still misses results is handed back unchanged.
    pub fn finish(self, secs: u64, subsec_nanos: u32) -> (end: Result<ScanData, Orchestrator>)
        requires
            self.wf(),
        ensures
            end is Ok <==> self.collected() == self.submitted(),
            end matches Ok(data) ==> data.time_secs == secs && data.time_subsec_nanos
                == subsec_nanos / NANOS_PER_MILLI && data.infected@ == infected_files(
                self.results(),
            ),
            end matches Err(o) ==> o == self,
    {
        if self.is_done() {
            Ok(ScanData::new(secs, subsec_nanos, self.results))
        } else {
            Err(self)
        }
    }
}

} // verus!
