use sentinel::finding::{Finding, FindingKind, FindingSeverity};
use sentinel::run::RunStatus;
use sentinel::worker::{
    completion_status, coverage_divisor, final_status, kind_str, on_contract_failure, severity_str, ContractFailure,
    FailureAction, PipelineTally,
};

fn finding(desc: &str) -> Finding {
    Finding::new(1, "c".to_string(), FindingKind::FuzzCrash, FindingSeverity::High, desc.to_string(), None)
}

#[test]
fn stored_kinds_and_severities() {
    assert_eq!(kind_str(&FindingKind::FuzzCrash), "fuzz_crash");
    assert_eq!(kind_str(&FindingKind::InvariantViolation), "invariant_violation");
    assert_eq!(kind_str(&FindingKind::CoverageEdge), "coverage_edge");
    assert_eq!(severity_str(&FindingSeverity::Critical), "critical");
    assert_eq!(severity_str(&FindingSeverity::High), "high");
    assert_eq!(severity_str(&FindingSeverity::Medium), "medium");
    assert_eq!(severity_str(&FindingSeverity::Low), "low");
    assert_eq!(severity_str(&FindingSeverity::Info), "info");
}

#[test]
fn stored_statuses() {
    assert_eq!(RunStatus::Queued.as_str(), "queued");
    assert_eq!(RunStatus::Running.as_str(), "running");
    assert_eq!(RunStatus::Passed.as_str(), "passed");
    assert_eq!(RunStatus::Failed.as_str(), "failed");
    assert_eq!(RunStatus::Errored.as_str(), "errored");
}

#[test]
fn a_run_fails_exactly_when_it_has_findings() {
    assert_eq!(completion_status(0), RunStatus::Passed);
    assert_eq!(completion_status(1), RunStatus::Failed);
    assert_eq!(completion_status(42), RunStatus::Failed);
    assert_eq!(completion_status(-1), RunStatus::Passed);
}

#[test]
fn tally_starts_from_a_valid_run_id() {
    let t = PipelineTally::begin("67e55044-10b1-426f-9247-bb680e5fe0c8").unwrap();
    assert_eq!(t.run_uuid, 0x67e55044_10b1_426f_9247_bb680e5fe0c8);
    assert_eq!(t.finding_count, 0);
    assert!(PipelineTally::begin("not-a-uuid").is_none());
    assert!(PipelineTally::begin("").is_none());
}

#[test]
fn tally_counts_and_orders_findings() {
    let mut t = PipelineTally::begin("67e55044-10b1-426f-9247-bb680e5fe0c8").unwrap();
    let all = t.record_contract(Some(vec![finding("f1"), finding("f2")]), vec![finding("v1")]);
    let descs: Vec<&str> = all.iter().map(|f| f.description.as_str()).collect();
    assert_eq!(descs, vec!["f1", "f2", "v1"]);
    assert_eq!(t.finding_count, 3);
    let none = t.record_contract(Some(vec![]), vec![]);
    assert!(none.is_empty());
    assert_eq!(t.finding_count, 3);
    let failed_fuzz = t.record_contract(None, vec![finding("v2")]);
    assert_eq!(failed_fuzz.len(), 1);
    assert_eq!(failed_fuzz[0].description, "v2");
    assert_eq!(t.finding_count, 4);
}

#[test]
fn coverage_average_divides_by_at_least_one() {
    assert_eq!(coverage_divisor(0), 1);
    assert_eq!(coverage_divisor(1), 1);
    assert_eq!(coverage_divisor(3), 3);
}

#[test]
fn final_status_of_completed_and_failed_pipelines() {
    assert_eq!(final_status(Some(0)), RunStatus::Passed);
    assert_eq!(final_status(Some(2)), RunStatus::Failed);
    assert_eq!(final_status(None), RunStatus::Errored);
}

#[test]
fn failed_steps_continue_or_stop_the_run() {
    assert_eq!(on_contract_failure(ContractFailure::Harness), FailureAction::Continue);
    assert_eq!(on_contract_failure(ContractFailure::Fuzzer), FailureAction::Continue);
    assert_eq!(
        on_contract_failure(ContractFailure::CoverageSnapshot { after_fuzz_run: false }),
        FailureAction::Continue
    );
    assert_eq!(
        on_contract_failure(ContractFailure::CoverageSnapshot { after_fuzz_run: true }),
        FailureAction::AbortRun
    );
    assert_eq!(on_contract_failure(ContractFailure::FindingStore), FailureAction::AbortRun);
}
