//! The summary of a finished run: how long it took and which files matched.

use crate::scanner::ScanResult;
use std::path::PathBuf;
use vstd::prelude::*;

verus! {

/// What a run reports at its end.
#[derive(Debug)]
pub struct ScanData {
    /// Whole seconds that the run took.
    pub time_secs: u64,
    /// What the run took beyond `time_secs`, cut to whole milliseconds.
    pub time_subsec_nanos: u32,
    /// The files on which at least one rule matched, in the order in which
    /// their results came in.
    pub infected: Vec<PathBuf>,
}

/// How many nanoseconds make a millisecond.
pub const NANOS_PER_MILLI: u32 = 1_000_000;

/// The file of `result` if a rule matched on it.
pub open spec fn infected_file() -> spec_fn(ScanResult) -> Option<PathBuf> {
    |result: ScanResult|
        if result.infected() {
            Some(result.file)
        } else {
            None
        }
}

/// The files of the results on which a rule matched, in the order of the
/// results.
pub open spec fn infected_files(results: Seq<ScanResult>) -> Seq<PathBuf> {
    results.filter_map(infected_file())
}

impl ScanData {
    /// Folds the results of a run into its summary. `secs` and `subsec_nanos`
    /// are the elapsed time as whole seconds and the nanoseconds beyond them.
    pub fn new(secs: u64, subsec_nanos: u32, results: Vec<ScanResult>) -> (data: ScanData)
        ensures
            data.time_secs == secs,
            data.time_subsec_nanos == subsec_nanos / NANOS_PER_MILLI,
            data.infected@ == infected_files(results@),
            data.infected@.len() <= results@.len(),
    {
        proof {
            lemma_infected_files(results@);
        }
        let ghost all = results@;
        let mut infected: Vec<PathBuf> = Vec::new();
        assert(all.take(0) =~= Seq::empty());
        for result in it: results.into_iter()
            invariant
                it.seq() == all,
                infected@ == infected_files(all.take(it.index() as int)),
        {
            proof {
                all.lemma_filter_map_take_succ(infected_file(), it.index() as int);
            }
            if result.outcome.is_matched() {
                infected.push(result.file);
            }
        }
        assert(all.take(all.len() as int) =~= all);
        ScanData { time_secs: secs, time_subsec_nanos: subsec_nanos / NANOS_PER_MILLI, infected }
    }
}

/// One more result adds its file to the infected files if a rule matched on
/// it, and changes nothing otherwise: a clean file and a failed scan never
/// show up.
pub proof fn lemma_infected_files_push(results: Seq<ScanResult>, result: ScanResult)
    ensures
        infected_files(results.push(result)) == if result.infected() {
            infected_files(results).push(result.file)
        } else {
            infected_files(results)
        },
{
    let all = results.push(result);
    assert(all.drop_last() =~= results);
    assert(infected_files(results) + seq![result.file] =~= infected_files(results).push(
        result.file,
    ));
}

/// The infected files are no more than the results, and a file is among them
/// exactly when it is the file of a result on which a rule matched.
pub proof fn lemma_infected_files(results: Seq<ScanResult>)
    ensures
        infected_files(results).len() <= results.len(),
        forall|file: PathBuf|
            infected_files(results).contains(file) <==> exists|i: int|
                0 <= i < results.len() && (#[trigger] results[i]).infected() && results[i].file
                    == file,
    decreases results.len(),
{
    if results.len() > 0 {
        let front = results.drop_last();
        let last = results.last();
        lemma_infected_files(front);
        assert(front.push(last) =~= results);
        lemma_infected_files_push(front, last);
        assert forall|file: PathBuf|
            infected_files(results).contains(file) <==> exists|i: int|
                0 <= i < results.len() && (#[trigger] results[i]).infected() && results[i].file
                    == file by {
            let listed = infected_files(results);
            if listed.contains(file) {
                let k = choose|k: int| 0 <= k < listed.len() && listed[k] == file;
                if k < infected_files(front).len() {
                    assert(infected_files(front)[k] == file);
                    assert(infected_files(front).contains(file));
                    let i = choose|i: int|
                        0 <= i < front.len() && (#[trigger] front[i]).infected() && front[i].file
                            == file;
                    assert(results[i].infected() && results[i].file == file);
                } else {
                    assert(results[results.len() - 1].infected());
                }
            }
            if exists|i: int|
                0 <= i < results.len() && (#[trigger] results[i]).infected() && results[i].file
                    == file {
                let i = choose|i: int|
                    0 <= i < results.len() && (#[trigger] results[i]).infected() && results[i].file
                        == file;
                if i < front.len() {
                    assert(front[i].infected() && front[i].file == file);
                    assert(infected_files(front).contains(file));
                    let k = choose|k: int|
                        0 <= k < infected_files(front).len() && infected_files(front)[k] == file;
                    assert(listed[k] == file);
                } else {
                    assert(listed[listed.len() - 1] == file);
                }
            }
        }
    } else {
        assert forall|file: PathBuf| !infected_files(results).contains(file) by {}
    }
}

} // verus!
