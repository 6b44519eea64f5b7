//! Built-in invariants that the SMT engine checks.

use vstd::prelude::*;

use crate::text::same_text;

verus! {

/// The result of checking a single invariant.
#[derive(Debug, Clone)]
pub enum VerificationResult {
    /// Invariant holds — no counterexample exists within modelled bounds.
    Holds,
    /// Invariant violated — counterexample model included.
    Violated { counterexample: String },
    /// Solver timed out or hit resource limits.
    Unknown,
}

/// Identifies which built-in invariant to check.
#[derive(Debug, Clone, Copy, PartialEq, Eq, Structural)]
pub enum Invariant {
    BalanceConservation,
    AccessControl,
    NoOverflow,
}

/// The invariant that a configuration names with `name`, if any.
pub open spec fn invariant_named(name: Seq<char>) -> Option<Invariant> {
    if name == "balance_conservation"@ {
        Some(Invariant::BalanceConservation)
    } else if name == "access_control"@ {
        Some(Invariant::AccessControl)
    } else if name == "no_overflow"@ {
        Some(Invariant::NoOverflow)
    } else {
        None
    }
}

/// The text that describes `inv`.
pub open spec fn description_text(inv: Invariant) -> Seq<char> {
    match inv {
        Invariant::BalanceConservation => "Sum of all account balances equals total supply"@,
        Invariant::AccessControl => "Privileged functions revert for non-owner callers"@,
        Invariant::NoOverflow => "All arithmetic operations are overflow-free"@,
    }
}

impl Invariant {
    /// The invariant that a configuration names with `s`; `None` for a name
    /// that is not one of `balance_conservation`, `access_control`, `no_overflow`.
    pub fn from_str(s: &str) -> (r: Option<Self>)
        ensures
            r == invariant_named(s@),
    {
        if same_text(s, "balance_conservation") {
            Some(Self::BalanceConservation)
        } else if same_text(s, "access_control") {
            Some(Self::AccessControl)
        } else if same_text(s, "no_overflow") {
            Some(Self::NoOverflow)
        } else {
            None
        }
    }

    pub fn description(&self) -> (d: &'static str)
        ensures
            d@ == description_text(*self),
    {
        match self {
            Self::BalanceConservation => "Sum of all account balances equals total supply",
            Self::AccessControl => "Privileged functions revert for non-owner callers",
            Self::NoOverflow => "All arithmetic operations are overflow-free",
        }
    }
}

} // verus!
