//! The decisions of the background job that carries a queued run through
//! fuzzing and verification: what its findings are stored as, how they are
//! counted, and which status the run ends in. The job's own steps (writing
//! harnesses, running the fuzzer and the solver, the database) happen outside
//! this library.

use vstd::prelude::*;

use crate::finding::{Finding, FindingKind, FindingSeverity};
use crate::ids::{parse_uuid, parsed_uuid};
use crate::run::RunStatus;

verus! {

/// The text that stores a finding kind.
pub open spec fn kind_text(kind: FindingKind) -> Seq<char> {
    match kind {
        FindingKind::FuzzCrash => "fuzz_crash"@,
        FindingKind::InvariantViolation => "invariant_violation"@,
        FindingKind::CoverageEdge => "coverage_edge"@,
    }
}

/// The text that stores a finding severity.
pub open spec fn severity_text(severity: FindingSeverity) -> Seq<char> {
    match severity {
        FindingSeverity::Critical => "critical"@,
        FindingSeverity::High => "high"@,
        FindingSeverity::Medium => "medium"@,
        FindingSeverity::Low => "low"@,
        FindingSeverity::Info => "info"@,
    }
}

/// The text that stores a finding kind.
pub fn kind_str(kind: &FindingKind) -> (s: &'static str)
    ensures
        s@ == kind_text(*kind),
{
    match kind {
        FindingKind::FuzzCrash => "fuzz_crash",
        FindingKind::InvariantViolation => "invariant_violation",
        FindingKind::CoverageEdge => "coverage_edge",
    }
}

/// The text that stores a finding severity.
pub fn severity_str(severity: &FindingSeverity) -> (s: &'static str)
    ensures
        s@ == severity_text(*severity),
{
    match severity {
        FindingSeverity::Critical => "critical",
        FindingSeverity::High => "high",
        FindingSeverity::Medium => "medium",
        FindingSeverity::Low => "low",
        FindingSeverity::Info => "info",
    }
}

/// Stored kinds tell the kinds apart: distinct kinds are stored as distinct texts.
pub proof fn lemma_kind_text_distinct(a: FindingKind, b: FindingKind)
    requires
        a != b,
    ensures
        kind_text(a) != kind_text(b),
{
    reveal_strlit("fuzz_crash");
    reveal_strlit("invariant_violation");
    reveal_strlit("coverage_edge");
    if kind_text(a) == kind_text(b) {
        assert(kind_text(a).len() == kind_text(b).len());
        assert(kind_text(a)[0] == kind_text(b)[0]);
    }
}

/// Stored severities tell the severities apart: distinct severities are
/// stored as distinct texts.
pub proof fn lemma_severity_text_distinct(a: FindingSeverity, b: FindingSeverity)
    requires
        a != b,
    ensures
        severity_text(a) != severity_text(b),
{
    reveal_strlit("critical");
    reveal_strlit("high");
    reveal_strlit("medium");
    reveal_strlit("low");
    reveal_strlit("info");
    if severity_text(a) == severity_text(b) {
        assert(severity_text(a).len() == severity_text(b).len());
        assert(severity_text(a)[0] == severity_text(b)[0]);
    }
}

/// The status a run ends in when its pipeline completes with `finding_count`
/// findings: failed where there is any finding, passed otherwise.
pub fn completion_status(finding_count: i64) -> (s: RunStatus)
    ensures
        s == (if finding_count > 0 {
            RunStatus::Failed
        } else {
            RunStatus::Passed
        }),
{
    if finding_count > 0 {
        RunStatus::Failed
    } else {
        RunStatus::Passed
    }
}

/// The status a run ends in: the completion status of its finding count
/// where its pipeline completed (`Some`), errored where it failed (`None`).
pub fn final_status(outcome: Option<i64>) -> (s: RunStatus)
    ensures
        s == match outcome {
            Some(count) => if count > 0 {
                RunStatus::Failed
            } else {
                RunStatus::Passed
            },
            None => RunStatus::Errored,
        },
{
    match outcome {
        Some(count) => completion_status(count),
        None => RunStatus::Errored,
    }
}

/// A step of one contract's processing that failed.
#[derive(Debug, Clone, Copy, PartialEq, Eq, Structural)]
pub enum ContractFailure {
    /// The fuzz harness could not be generated or written.
    Harness,
    /// The fuzzer could not run or failed; the contract then has no fuzz
    /// findings and a zero coverage snapshot.
    Fuzzer,
    /// Storing the contract's coverage snapshot failed, after the fuzzer ran
    /// (`after_fuzz_run`) or after it failed.
    CoverageSnapshot { after_fuzz_run: bool },
    /// Storing one of the contract's findings failed.
    FindingStore,
}

/// What the pipeline does on a failed step.
#[derive(Debug, Clone, Copy, PartialEq, Eq, Structural)]
pub enum FailureAction {
    /// Log it and go on with the run.
    Continue,
    /// Stop the pipeline: the run ends errored.
    AbortRun,
}

/// What the pipeline does when a step of a contract fails: a missing harness
/// and a failed fuzzer are logged and the run goes on, and so is a failed
/// zero-coverage snapshot after a failed fuzzer; a failed snapshot of a real
/// fuzz run, and a finding that cannot be stored, stop the run.
pub fn on_contract_failure(failure: ContractFailure) -> (a: FailureAction)
    ensures
        a == match failure {
            ContractFailure::Harness => FailureAction::Continue,
            ContractFailure::Fuzzer => FailureAction::Continue,
            ContractFailure::CoverageSnapshot { after_fuzz_run } => if after_fuzz_run {
                FailureAction::AbortRun
            } else {
                FailureAction::Continue
            },
            ContractFailure::FindingStore => FailureAction::AbortRun,
        },
{
    match failure {
        ContractFailure::Harness => FailureAction::Continue,
        ContractFailure::Fuzzer => FailureAction::Continue,
        ContractFailure::CoverageSnapshot { after_fuzz_run } => if after_fuzz_run {
            FailureAction::AbortRun
        } else {
            FailureAction::Continue
        },
        ContractFailure::FindingStore => FailureAction::AbortRun,
    }
}

/// What the pipeline of one run has gathered so far.
pub struct PipelineTally {
    /// The run's UUID, as its 128 bits.
    pub run_uuid: u128,
    /// The findings of the contracts processed so far.
    pub finding_count: i64,
}

impl PipelineTally {
    /// Starts the tally of the run whose id is the text `run_id`; `None` where
    /// that text is not a UUID, and then the pipeline fails.
    pub fn begin(run_id: &str) -> (t: Option<PipelineTally>)
        ensures
            match t {
                Some(t) => parsed_uuid(run_id@) == Some(t.run_uuid) && t.finding_count == 0,
                None => parsed_uuid(run_id@) is None,
            },
    {
        match parse_uuid(run_id) {
            Ok(id) => Some(PipelineTally { run_uuid: id, finding_count: 0 }),
            Err(_) => None,
        }
    }

    /// Takes in the findings of one contract, the fuzzer's and then the
    /// verifier's, counts them, and gives them all back in that order to be
    /// stored. `fuzz_findings` is `None` where the fuzzer failed or could not
    /// run; such a contract counts the verifier's findings alone.
    pub fn record_contract(&mut self, fuzz_findings: Option<Vec<Finding>>, verifier_findings: Vec<Finding>) -> (all: Vec<Finding>)
        requires
            0 <= old(self).finding_count,
            old(self).finding_count + fuzzed(fuzz_findings).len() + verifier_findings@.len() <= i64::MAX,
        ensures
            all@ == fuzzed(fuzz_findings) + verifier_findings@,
            final(self).run_uuid == old(self).run_uuid,
            final(self).finding_count == old(self).finding_count + all@.len(),
            0 <= final(self).finding_count,
    {
        let mut all = match fuzz_findings {
            Some(found) => found,
            None => Vec::new(),
        };
        let mut rest = verifier_findings;
        all.append(&mut rest);
        let n = all.len();
        self.finding_count = self.finding_count + n as i64;
        all
    }
}

/// The findings that a fuzz outcome contributes: those it found, or none
/// where the fuzzer failed.
pub open spec fn fuzzed(outcome: Option<Vec<Finding>>) -> Seq<Finding> {
    match outcome {
        Some(found) => found@,
        None => Seq::empty(),
    }
}

/// A completed fuzz run contributes all it found, and a failed one nothing.
pub proof fn lemma_fuzzed(found: Vec<Finding>)
    ensures
        fuzzed(Some(found)) == found@,
        fuzzed(None) == Seq::<Finding>::empty(),
{
}

/// The number that the coverage of all contracts is divided by to average
/// it: the number of contracts, and at least one.
pub fn coverage_divisor(contract_count: usize) -> (d: usize)
    ensures
        d == (if contract_count > 1 {
            contract_count
        } else {
            1
        }),
        d >= 1,
{
    if contract_count > 1 {
        contract_count
    } else {
        1
    }
}

} // verus!
