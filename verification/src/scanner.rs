//! One scan: the request a worker receives, what the rule engine reported for
//! it, and the result the worker hands back.

use std::path::PathBuf;
use vstd::prelude::*;

verus! {

/// `std::path::PathBuf`, carried through the library as an opaque value: the
/// library moves paths around and never looks inside one.
#[verifier::external_type_specification]
#[verifier::external_body]
pub struct ExPathBuf(PathBuf);

/// The time every request of a run is given, in seconds.
pub const DEFAULT_TIMEOUT: u16 = 60;

/// A request to scan one file.
#[derive(Debug)]
pub struct Scan {
    /// The file to scan.
    pub file: PathBuf,
    /// How long the scan may take, in seconds.
    pub timeout: u16,
}

impl Scan {
    /// The request for `file` with the default timeout.
    pub fn new(file: PathBuf) -> (scan: Scan)
        ensures
            scan.file == file,
            scan.timeout == DEFAULT_TIMEOUT,
    {
        Scan { file, timeout: DEFAULT_TIMEOUT }
    }
}

/// Why the rule engine could not say whether a file matches.
#[derive(Debug, Clone, Copy, PartialEq, Eq, Structural)]
pub enum ScanFailure {
    /// The file could not be opened or read.
    Unreadable,
    /// The engine could not make sense of the file.
    Malformed,
    /// The scan took longer than the request allowed.
    Timeout,
    /// Any other error inside the engine.
    Internal,
}

/// What the scan of one file found.
#[derive(Debug)]
pub enum ScanOutcome {
    /// No rule matched.
    Clean,
    /// The identifiers of the rules that matched: at least one, each once.
    Matched(Vec<String>),
    /// The engine gave up on the file.
    Failed(ScanFailure),
}

/// A `ScanOutcome` as a mathematical value.
pub enum OutcomeView {
    Clean,
    Matched(Seq<Seq<char>>),
    Failed(ScanFailure),
}

/// What the strings of `list` hold, in order.
pub open spec fn texts(list: Seq<String>) -> Seq<Seq<char>> {
    Seq::new(list.len(), |i: int| list[i]@)
}

impl View for ScanOutcome {
    type V = OutcomeView;

    open spec fn view(&self) -> OutcomeView {
        match *self {
            ScanOutcome::Clean => OutcomeView::Clean,
            ScanOutcome::Matched(ids) => OutcomeView::Matched(texts(ids@)),
            ScanOutcome::Failed(kind) => OutcomeView::Failed(kind),
        }
    }
}

/// `ids` without the entries that repeat an earlier one.
pub open spec fn distinct(ids: Seq<Seq<char>>) -> Seq<Seq<char>>
    decreases ids.len(),
{
    if ids.len() == 0 {
        Seq::empty()
    } else {
        let rest = distinct(ids.drop_last());
        if rest.contains(ids.last()) {
            rest
        } else {
            rest.push(ids.last())
        }
    }
}

/// The outcome that a report of the rule engine stands for: an error is a
/// failure of that kind, no identifier is a clean file, and anything else is a
/// match on the distinct identifiers reported.
pub open spec fn classify(report: Result<Seq<Seq<char>>, ScanFailure>) -> OutcomeView {
    match report {
        Err(kind) => OutcomeView::Failed(kind),
        Ok(ids) => if ids.len() == 0 {
            OutcomeView::Clean
        } else {
            OutcomeView::Matched(distinct(ids))
        },
    }
}

/// A report of the rule engine as a mathematical value.
pub open spec fn report_view(report: Result<Vec<String>, ScanFailure>) -> Result<
    Seq<Seq<char>>,
    ScanFailure,
> {
    match report {
        Ok(ids) => Ok(texts(ids@)),
        Err(kind) => Err(kind),
    }
}

/// `distinct` repeats nothing and keeps exactly the entries of its argument.
pub proof fn lemma_distinct(ids: Seq<Seq<char>>)
    ensures
        distinct(ids).no_duplicates(),
        distinct(ids).to_set() == ids.to_set(),
        distinct(ids).len() <= ids.len(),
        ids.len() > 0 ==> distinct(ids).len() > 0,
    decreases ids.len(),
{
    if ids.len() > 0 {
        let front = ids.drop_last();
        let rest = distinct(front);
        lemma_distinct(front);
        assert forall|x: Seq<char>| distinct(ids).to_set().contains(x) <==> ids.to_set().contains(
            x,
        ) by {
            if ids.contains(x) {
                let k = choose|k: int| 0 <= k < ids.len() && ids[k] == x;
                if k < front.len() {
                    assert(front[k] == x);
                    assert(front.to_set().contains(x));
                    assert(rest.contains(x));
                    let j = choose|j: int| 0 <= j < rest.len() && rest[j] == x;
                    assert(distinct(ids)[j] == x);
                } else if !rest.contains(ids.last()) {
                    assert(distinct(ids)[rest.len() as int] == x);
                }
            }
            if distinct(ids).contains(x) {
                let j = choose|j: int| 0 <= j < distinct(ids).len() && distinct(ids)[j] == x;
                if j < rest.len() {
                    assert(rest[j] == x);
                    assert(rest.to_set().contains(x));
                    assert(front.contains(x));
                    let k = choose|k: int| 0 <= k < front.len() && front[k] == x;
                    assert(ids[k] == x);
                } else {
                    assert(ids[ids.len() - 1] == x);
                }
            }
        }
        assert(distinct(ids).to_set() =~= ids.to_set());
    } else {
        assert(distinct(ids).to_set() =~= ids.to_set());
    }
}

impl ScanOutcome {
    /// Whether the value is one that a scan can produce: a match names at
    /// least one rule and names no rule twice.
    pub open spec fn wf(&self) -> bool {
        match *self {
            ScanOutcome::Matched(ids) => ids@.len() > 0 && texts(ids@).no_duplicates(),
            _ => true,
        }
    }

    /// The set of rules that matched; empty unless the outcome is a match.
    pub open spec fn rules(&self) -> Set<Seq<char>> {
        match *self {
            ScanOutcome::Matched(ids) => texts(ids@).to_set(),
            _ => Set::empty(),
        }
    }

    /// Turns what the rule engine reported for a file into the outcome of the
    /// scan.
    pub fn from_report(report: Result<Vec<String>, ScanFailure>) -> (outcome: ScanOutcome)
        ensures
            outcome@ == classify(report_view(report)),
            outcome.wf(),
            report matches Ok(ids) ==> outcome.rules() == texts(ids@).to_set(),
    {
        match report {
            Err(kind) => ScanOutcome::Failed(kind),
            Ok(ids) => {
                if ids.len() == 0 {
                    assert(texts(ids@).to_set() =~= Set::empty());
                    ScanOutcome::Clean
                } else {
                    let kept = distinct_names(&ids);
                    proof {
                        lemma_distinct(texts(ids@));
                    }
                    ScanOutcome::Matched(kept)
                }
            },
        }
    }

    /// Whether at least one rule matched.
    pub fn is_matched(&self) -> (matched: bool)
        ensures
            matched == (*self is Matched),
    {
        match self {
            ScanOutcome::Matched(_) => true,
            _ => false,
        }
    }
}

/// Whether `id` is among `ids`.
fn contains_name(ids: &Vec<String>, id: &String) -> (found: bool)
    ensures
        found == texts(ids@).contains(id@),
{
    let mut j: usize = 0;
    while j < ids.len()
        invariant
            j <= ids.len(),
            forall|k: int| 0 <= k < j ==> texts(ids@)[k] != id@,
        decreases ids.len() - j,
    {
        if ids[j] == *id {
            assert(texts(ids@)[j as int] == id@);
            return true;
        }
        j += 1;
    }
    false
}

/// Copies `ids`, leaving out every identifier that already occurred.
pub fn distinct_names(ids: &Vec<String>) -> (kept: Vec<String>)
    ensures
        texts(kept@) == distinct(texts(ids@)),
{
    let mut kept: Vec<String> = Vec::new();
    let mut i: usize = 0;
    assert(texts(ids@).take(0) =~= Seq::empty());
    while i < ids.len()
        invariant
            i <= ids.len(),
            texts(kept@) == distinct(texts(ids@).take(i as int)),
        decreases ids.len() - i,
    {
        let ghost before = texts(kept@);
        let ghost prefix = texts(ids@).take(i as int + 1);
        assert(prefix.drop_last() =~= texts(ids@).take(i as int));
        assert(prefix.last() == ids@[i as int]@);
        if !contains_name(&kept, &ids[i]) {
            let id = ids[i].clone();
            kept.push(id);
            assert(texts(kept@) =~= before.push(ids@[i as int]@));
        }
        i += 1;
    }
    assert(texts(ids@).take(ids.len() as int) =~= texts(ids@));
    kept
}

/// What a worker hands back for one request.
#[derive(Debug)]
pub struct ScanResult {
    /// The file that was scanned: the one the request named.
    pub file: PathBuf,
    /// What the scan found.
    pub outcome: ScanOutcome,
}

impl ScanResult {
    /// The result of `request`, given what the rule engine reported for its
    /// file. An error of the engine is recorded in the result, never raised.
    pub fn new(request: Scan, report: Result<Vec<String>, ScanFailure>) -> (result: ScanResult)
        ensures
            result.file == request.file,
            result.outcome@ == classify(report_view(report)),
            result.outcome.wf(),
    {
        ScanResult { file: request.file, outcome: ScanOutcome::from_report(report) }
    }

    /// Whether the file counts as infected: at least one rule matched.
    pub open spec fn infected(&self) -> bool {
        self.outcome is Matched
    }
}

/// A match names each rule that matched once: it holds as many identifiers as
/// there are rules in `rules()`, and at least one.
pub proof fn lemma_matched_names_each_rule_once(outcome: ScanOutcome)
    requires
        outcome.wf(),
        outcome is Matched,
    ensures
        outcome.rules().finite(),
        outcome->Matched_0@.len() == outcome.rules().len(),
        outcome.rules().len() >= 1,
{
    let ids = texts(outcome->Matched_0@);
    vstd::seq_lib::seq_to_set_is_finite(ids);
    ids.unique_seq_to_set();
}

/// Scanning is repeatable: two requests for the same file whose scans
/// reported the same give results with the same file and the same outcome.
pub proof fn lemma_same_report_same_result(
    first: ScanResult,
    second: ScanResult,
    request: Scan,
    again: Scan,
    report: Result<Vec<String>, ScanFailure>,
    report_again: Result<Vec<String>, ScanFailure>,
)
    requires
        request.file == again.file,
        report_view(report) == report_view(report_again),
        first.file == request.file && first.outcome@ == classify(report_view(report)),
        second.file == again.file && second.outcome@ == classify(report_view(report_again)),
    ensures
        first.file == second.file,
        first.outcome@ == second.outcome@,
        first.infected() == second.infected(),
{
}

} // verus!
