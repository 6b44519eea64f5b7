//! A `Run` tracks one full Sentinel execution (fuzz + verify) triggered by a CI event.

use vstd::prelude::*;

use crate::ids::{is_random_uuid, is_utc_stamp, now_rfc3339, random_uuid};

verus! {

#[derive(Debug, Clone, Copy, PartialEq, Eq, Structural)]
pub enum RunStatus {
    Queued,
    Running,
    Passed,
    Failed,
    Errored,
}

/// The text that stores a run status.
pub open spec fn status_text(status: RunStatus) -> Seq<char> {
    match status {
        RunStatus::Queued => "queued"@,
        RunStatus::Running => "running"@,
        RunStatus::Passed => "passed"@,
        RunStatus::Failed => "failed"@,
        RunStatus::Errored => "errored"@,
    }
}

impl RunStatus {
    /// The text that stores this status.
    pub fn as_str(&self) -> (s: &'static str)
        ensures
            s@ == status_text(*self),
    {
        match self {
            RunStatus::Queued => "queued",
            RunStatus::Running => "running",
            RunStatus::Passed => "passed",
            RunStatus::Failed => "failed",
            RunStatus::Errored => "errored",
        }
    }
}

/// Stored statuses tell the statuses apart: distinct statuses are stored as
/// distinct texts.
pub proof fn lemma_status_text_distinct(a: RunStatus, b: RunStatus)
    requires
        a != b,
    ensures
        status_text(a) != status_text(b),
{
    reveal_strlit("queued");
    reveal_strlit("running");
    reveal_strlit("passed");
    reveal_strlit("failed");
    reveal_strlit("errored");
    if status_text(a) == status_text(b) {
        assert(status_text(a).len() == status_text(b).len());
        assert(status_text(a)[0] == status_text(b)[0]);
    }
}

#[derive(Debug, Clone)]
pub struct Run {
    /// The run's UUID, as its 128 bits.
    pub id: u128,
    /// Git repository URL.
    pub repo: String,
    /// Commit SHA that triggered this run.
    pub commit_sha: String,
    /// PR / MR number if triggered by a pull request.
    pub pr_number: Option<u64>,
    pub status: RunStatus,
    /// When the run was created, in RFC 3339 form.
    pub created_at: String,
    /// When the run completed, in RFC 3339 form.
    pub completed_at: Option<String>,
    /// Aggregate fuzz coverage percentage (0–100), as the bits of its `f32` (`f32::to_bits`).
    pub coverage_pct_bits: Option<u32>,
    /// Total number of findings in this run.
    pub finding_count: u32,
}

impl Run {
    /// A new queued run with a fresh random id, stamped with the current time,
    /// not completed, with no coverage and no findings yet.
    pub fn new(repo: String, commit_sha: String, pr_number: Option<u64>) -> (r: Run)
        ensures
            is_random_uuid(r.id),
            is_utc_stamp(r.created_at@),
            r.repo == repo,
            r.commit_sha == commit_sha,
            r.pr_number == pr_number,
            r.status == RunStatus::Queued,
            r.completed_at is None,
            r.coverage_pct_bits is None,
            r.finding_count == 0,
    {
        Run {
            id: random_uuid(),
            repo,
            commit_sha,
            pr_number,
            status: RunStatus::Queued,
            created_at: now_rfc3339(),
            completed_at: None,
            coverage_pct_bits: None,
            finding_count: 0,
        }
    }
}

} // verus!
