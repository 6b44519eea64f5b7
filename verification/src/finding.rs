//! A `Finding` is a single discovered invariant violation or crash.

use vstd::prelude::*;

use crate::ids::{is_random_uuid, is_utc_stamp, now_rfc3339, random_uuid};

verus! {

#[derive(Debug, Clone, Copy, PartialEq, Eq, Structural)]
pub enum FindingSeverity {
    Critical,
    High,
    Medium,
    Low,
    Info,
}

#[derive(Debug, Clone, Copy, PartialEq, Eq, Structural)]
pub enum FindingKind {
    /// Fuzzer found a panic / trap.
    FuzzCrash,
    /// SMT solver proved an invariant is violated.
    InvariantViolation,
    /// Fuzzer discovered a new coverage edge (informational).
    CoverageEdge,
}

#[derive(Debug, Clone)]
pub struct Finding {
    /// The finding's UUID, as its 128 bits.
    pub id: u128,
    /// The UUID of the run that found it, as its 128 bits.
    pub run_id: u128,
    pub contract_name: String,
    pub kind: FindingKind,
    pub severity: FindingSeverity,
    /// Human-readable description of the finding.
    pub description: String,
    /// The reproducer input (hex-encoded bytes for fuzz crashes, SMT model for violations).
    pub reproducer: Option<String>,
    /// When the finding was made, in RFC 3339 form.
    pub created_at: String,
}

impl Finding {
    /// A new finding with a fresh random id, stamped with the current time.
    pub fn new(
        run_id: u128,
        contract_name: String,
        kind: FindingKind,
        severity: FindingSeverity,
        description: String,
        reproducer: Option<String>,
    ) -> (f: Finding)
        ensures
            is_utc_stamp(f.created_at@),
            is_random_uuid(f.id),
            f.run_id == run_id,
            f.contract_name == contract_name,
            f.kind == kind,
            f.severity == severity,
            f.description == description,
            f.reproducer == reproducer,
    {
        Finding {
            id: random_uuid(),
            run_id,
            contract_name,
            kind,
            severity,
            description,
            reproducer,
            created_at: now_rfc3339(),
        }
    }
}

} // verus!
