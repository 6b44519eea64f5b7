//! The `.sentinel.toml` schema: one configuration shared by the fuzzer, the
//! verifier and the API.

use vstd::prelude::*;

verus! {

/// A parsed `.sentinel.toml`.
#[derive(Debug, Clone)]
pub struct SentinelConfig {
    pub version: String,
    pub contracts: Vec<ContractConfig>,
}

/// One contract target of a `.sentinel.toml`.
#[derive(Debug, Clone)]
pub struct ContractConfig {
    pub name: String,
    pub path: String,
    pub invariants: Vec<String>,
    /// Fuzzing time budget in seconds; `default_fuzz_timeout()` where the file gives none.
    pub fuzz_timeout_secs: u64,
    /// Iteration budget; 0 where the file gives none.
    pub fuzz_iterations: u64,
}

/// Default fuzzing time budget, in seconds, for a contract whose configuration names none.
pub fn default_fuzz_timeout() -> (secs: u64)
    ensures
        secs == 60,
{
    60
}

} // verus!
