use sentinel::config::default_fuzz_timeout;
use sentinel::coverage::CoverageSnapshot;
use sentinel::finding::{Finding, FindingKind, FindingSeverity};
use sentinel::run::{Run, RunStatus};

#[test]
fn default_timeout_is_a_minute() {
    assert_eq!(default_fuzz_timeout(), 60);
}

#[test]
fn new_runs_are_queued_and_empty() {
    let r = Run::new("https://example.com/repo.git".to_string(), "abc123".to_string(), Some(12));
    assert_eq!(r.repo, "https://example.com/repo.git");
    assert_eq!(r.commit_sha, "abc123");
    assert_eq!(r.pr_number, Some(12));
    assert_eq!(r.status, RunStatus::Queued);
    assert_eq!(r.completed_at, None);
    assert_eq!(r.coverage_pct_bits, None);
    assert_eq!(r.finding_count, 0);
    assert_eq!(uuid::Uuid::from_u128(r.id).get_version_num(), 4);
    assert!(chrono::DateTime::parse_from_rfc3339(&r.created_at).is_ok());
    assert!(r.created_at.ends_with("+00:00") && r.created_at.len() >= 25);
}

#[test]
fn new_findings_keep_their_fields_and_get_fresh_ids() {
    let a = Finding::new(5, "c".to_string(), FindingKind::CoverageEdge, FindingSeverity::Info, "d".to_string(), Some("r".to_string()));
    let b = Finding::new(5, "c".to_string(), FindingKind::CoverageEdge, FindingSeverity::Info, "d".to_string(), None);
    assert_eq!(a.run_id, 5);
    assert_eq!(a.contract_name, "c");
    assert_eq!(a.kind, FindingKind::CoverageEdge);
    assert_eq!(a.severity, FindingSeverity::Info);
    assert_eq!(a.description, "d");
    assert_eq!(a.reproducer.as_deref(), Some("r"));
    assert_eq!(b.reproducer, None);
    assert_ne!(a.id, b.id);
    let u = uuid::Uuid::from_u128(a.id);
    assert_eq!(u.get_version_num(), 4);
    assert_eq!(u.get_variant(), uuid::Variant::RFC4122);
    assert!(chrono::DateTime::parse_from_rfc3339(&a.created_at).is_ok());
    assert!(a.created_at.ends_with("+00:00") && a.created_at.len() >= 25);
}

#[test]
fn coverage_snapshots_keep_their_figures() {
    let s = CoverageSnapshot::new("run".to_string(), "c".to_string(), 42.5f32.to_bits(), 17);
    assert_eq!(s.run_id, "run");
    assert_eq!(s.contract_name, "c");
    assert_eq!(f32::from_bits(s.coverage_pct_bits), 42.5);
    assert_eq!(s.unique_edges, 17);
    assert!(chrono::DateTime::parse_from_rfc3339(&s.timestamp).is_ok());
    assert!(s.timestamp.ends_with("+00:00") && s.timestamp.len() >= 25);
}
