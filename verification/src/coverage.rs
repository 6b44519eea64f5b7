//! A coverage snapshot records how much of a contract one fuzz run reached.

use vstd::prelude::*;

use crate::ids::{is_utc_stamp, now_rfc3339};

verus! {

#[derive(Debug, Clone)]
pub struct CoverageSnapshot {
    pub run_id: String,
    pub contract_name: String,
    /// Edge coverage 0–100, as the bits of its `f32` (`f32::to_bits`).
    pub coverage_pct_bits: u32,
    /// Total unique edges discovered.
    pub unique_edges: u64,
    /// When the snapshot was taken, in RFC 3339 form.
    pub timestamp: String,
}

impl CoverageSnapshot {
    /// A snapshot of the given figures, stamped with the current time.
    pub fn new(run_id: String, contract_name: String, coverage_pct_bits: u32, unique_edges: u64) -> (c: CoverageSnapshot)
        ensures
            is_utc_stamp(c.timestamp@),
            c.run_id == run_id,
            c.contract_name == contract_name,
            c.coverage_pct_bits == coverage_pct_bits,
            c.unique_edges == unique_edges,
    {
        CoverageSnapshot {
            run_id,
            contract_name,
            coverage_pct_bits,
            unique_edges,
            timestamp: now_rfc3339(),
        }
    }
}

} // verus!
