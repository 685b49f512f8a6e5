use scan_pool::orchestrator::Orchestrator;
use scan_pool::scanner::{Scan, ScanFailure, ScanResult};
use scan_pool::server::{Assignment, PoolError, Server};
use std::path::PathBuf;

fn begin(workers: usize) -> Orchestrator {
    match Orchestrator::new(Server::new(workers)) {
        Ok(run) => run,
        Err(_) => panic!("a fresh pool is idle"),
    }
}

fn scan_with_r1(assignment: Assignment) -> (usize, ScanResult) {
    let name = assignment.request.file.to_string_lossy().into_owned();
    let report = if name.ends_with(".bin") { Ok(vec!["R1".to_string()]) } else { Ok(Vec::new()) };
    (assignment.worker, ScanResult::new(assignment.request, report))
}

#[test]
fn run_over_nothing_is_done_at_once() {
    let run = begin(4);
    assert!(run.is_done());
    let data = run.finish(0, 0).ok().expect("nothing is missing");
    assert!(data.infected.is_empty());
}

#[test]
fn run_begins_only_on_an_idle_pool() {
    let mut server = Server::new(1);
    server.submit(Scan::new(PathBuf::from("left over")));
    let server = match Orchestrator::new(server) {
        Ok(_) => panic!("the pool is busy"),
        Err(server) => server,
    };
    assert_eq!(server.in_flight(), 1);
}

#[test]
fn run_is_not_finished_while_results_are_missing() {
    let mut run = begin(2);
    let first = run.submit(PathBuf::from("a.bin")).expect("a worker is idle");
    let second = run.submit(PathBuf::from("b.txt")).expect("a worker is idle");
    assert!(!run.is_done());
    let mut run = match run.finish(1, 0) {
        Ok(_) => panic!("two results are missing"),
        Err(run) => run,
    };
    let (worker, result) = scan_with_r1(first);
    assert!(run.collect(worker, result).unwrap().is_none());
    let mut run = match run.finish(1, 0) {
        Ok(_) => panic!("one result is missing"),
        Err(run) => run,
    };
    let (worker, result) = scan_with_r1(second);
    assert!(run.collect(worker, result).unwrap().is_none());
    assert!(run.is_done());
    let data = run.finish(1, 0).ok().expect("nothing is missing");
    assert_eq!(data.infected, vec![PathBuf::from("a.bin")]);
}

#[test]
fn directory_with_one_matching_file() {
    let mut run = begin(4);
    let mut pending = Vec::new();
    for name in ["a.bin", "b.txt"] {
        if let Some(assignment) = run.submit(PathBuf::from(name)) {
            pending.push(assignment);
        }
    }
    assert_eq!(pending.len(), 2);
    for assignment in pending {
        let (worker, result) = scan_with_r1(assignment);
        assert!(run.collect(worker, result).unwrap().is_none());
    }
    let data = run.finish(0, 7_000_000).ok().expect("nothing is missing");
    assert_eq!(data.infected, vec![PathBuf::from("a.bin")]);
    assert_eq!(data.time_secs, 0);
    assert_eq!(data.time_subsec_nanos, 7);
}

#[test]
fn single_file_target_gives_one_request() {
    let mut run = begin(4);
    let assignment = run.submit(PathBuf::from("only.bin")).expect("a worker is idle");
    assert_eq!(assignment.worker, 0);
    assert_eq!(assignment.request.file, PathBuf::from("only.bin"));
    assert_eq!(assignment.request.timeout, 60);
    let (worker, result) = scan_with_r1(assignment);
    assert!(run.collect(worker, result).unwrap().is_none());
    assert!(run.is_done());
    let data = run.finish(0, 0).ok().expect("nothing is missing");
    assert_eq!(data.infected, vec![PathBuf::from("only.bin")]);
}

#[test]
fn single_clean_file_gives_an_empty_summary() {
    let mut run = begin(4);
    let assignment = run.submit(PathBuf::from("notes.txt")).expect("a worker is idle");
    let (worker, result) = scan_with_r1(assignment);
    run.collect(worker, result).unwrap();
    let data = run.finish(0, 0).ok().expect("nothing is missing");
    assert!(data.infected.is_empty());
}

#[test]
fn thousand_files_on_four_workers_all_get_a_result() {
    let mut run = begin(4);
    let mut busy: Vec<Assignment> = Vec::new();
    for i in 0..1000 {
        let name = if i % 10 == 0 { format!("f{}.bin", i) } else { format!("f{}.txt", i) };
        if let Some(assignment) = run.submit(PathBuf::from(name)) {
            busy.push(assignment);
        }
    }
    assert_eq!(busy.len(), 4);
    let mut collected = 0;
    while !run.is_done() {
        // the worker that was handed its request last finishes first
        let assignment = busy.pop().expect("a busy worker while results are missing");
        let (worker, result) = scan_with_r1(assignment);
        collected += 1;
        if let Some(next) = run.collect(worker, result).unwrap() {
            assert_eq!(next.worker, worker);
            busy.push(next);
        }
    }
    assert!(busy.is_empty());
    assert_eq!(collected, 1000);
    let data = run.finish(2, 500_000_000).ok().expect("nothing is missing");
    assert_eq!(data.infected.len(), 100);
    assert_eq!(data.time_subsec_nanos, 500);
    // workers 0 to 2 are still busy with the first three files when the rest is done
    assert_eq!(data.infected[0], PathBuf::from("f10.bin"));
    assert_eq!(data.infected[99], PathBuf::from("f0.bin"));
}

#[test]
fn infected_files_come_in_completion_order() {
    let mut run = begin(2);
    let first = run.submit(PathBuf::from("first.bin")).expect("a worker is idle");
    let second = run.submit(PathBuf::from("second.bin")).expect("a worker is idle");
    let (worker, result) = scan_with_r1(second);
    run.collect(worker, result).unwrap();
    let (worker, result) = scan_with_r1(first);
    run.collect(worker, result).unwrap();
    let data = run.finish(0, 0).ok().expect("nothing is missing");
    assert_eq!(data.infected, vec![PathBuf::from("second.bin"), PathBuf::from("first.bin")]);
}

#[test]
fn failed_scans_count_as_results_but_not_as_infected() {
    let mut run = begin(1);
    let a = run.submit(PathBuf::from("a.bin")).expect("a worker is idle");
    assert!(run.submit(PathBuf::from("b.bin")).is_none());
    let result = ScanResult::new(a.request, Err(ScanFailure::Timeout));
    let b = run.collect(0, result).unwrap().expect("a request waited");
    assert_eq!(b.request.file, PathBuf::from("b.bin"));
    let (worker, result) = scan_with_r1(b);
    assert!(run.collect(worker, result).unwrap().is_none());
    let data = run.finish(60, 0).ok().expect("nothing is missing");
    assert_eq!(data.infected, vec![PathBuf::from("b.bin")]);
}

#[test]
fn result_from_no_busy_worker_is_not_counted() {
    let mut run = begin(2);
    let a = run.submit(PathBuf::from("a.bin")).expect("a worker is idle");
    let stray = ScanResult::new(Scan::new(PathBuf::from("stray.bin")), Ok(vec!["R1".to_string()]));
    assert_eq!(run.collect(1, stray).unwrap_err(), PoolError::IdleWorker);
    let stray = ScanResult::new(Scan::new(PathBuf::from("stray.bin")), Ok(vec!["R1".to_string()]));
    assert_eq!(run.collect(9, stray).unwrap_err(), PoolError::UnknownWorker);
    assert!(!run.is_done());
    let (worker, result) = scan_with_r1(a);
    run.collect(worker, result).unwrap();
    let data = run.finish(0, 0).ok().expect("nothing is missing");
    assert_eq!(data.infected, vec![PathBuf::from("a.bin")]);
}
