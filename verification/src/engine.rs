//! Turning the SMT solver's verdicts on the built-in invariants into findings.
//!
//! Each invariant is encoded by negating the property and asking the solver
//! for a satisfying assignment: UNSAT means the property holds, SAT gives a
//! counterexample. The solver runs outside this library; its verdicts come in
//! as `SolverVerdict` values and `SolverOutcomes`.

use vstd::prelude::*;

use crate::config::ContractConfig;
use crate::finding::{Finding, FindingKind, FindingSeverity};
use crate::invariants::{description_text, invariant_named, Invariant, VerificationResult};

verus! {

/// What a satisfiability check of a negated property answered.
#[derive(Debug, Clone, Copy, PartialEq, Eq, Structural)]
pub enum SolverVerdict {
    Unsat,
    Sat,
    Unknown,
}

/// The results of the solver checks, one for each invariant that has an encoding.
#[derive(Debug, Clone)]
pub struct SolverOutcomes {
    pub no_overflow: VerificationResult,
    pub balance_conservation: VerificationResult,
}

pub struct VerificationEngine;

/// The result that a check of `inv` has, given the solver's outcomes: access
/// control has no encoding yet and stays unknown.
pub open spec fn outcome_of(inv: Invariant, outcomes: SolverOutcomes) -> VerificationResult {
    match inv {
        Invariant::NoOverflow => outcomes.no_overflow,
        Invariant::BalanceConservation => outcomes.balance_conservation,
        Invariant::AccessControl => VerificationResult::Unknown,
    }
}

/// The description of the finding for the invariant that a configuration
/// names `name`, violated with counterexample `ce`.
pub open spec fn violation_description(name: Seq<char>, inv: Invariant, ce: Seq<char>) -> Seq<char> {
    "Invariant '"@ + name + "' violated: "@ + description_text(inv) + ". Counterexample: "@ + ce
}

/// The description and counterexample of the finding that the configured
/// invariant name `name` yields, if it yields one: only a known invariant
/// whose check gives a counterexample does.
pub open spec fn violation(name: Seq<char>, outcomes: SolverOutcomes) -> Option<(Seq<char>, Seq<char>)> {
    match invariant_named(name) {
        Some(inv) => match outcome_of(inv, outcomes) {
            VerificationResult::Violated { counterexample } => Some(
                (violation_description(name, inv, counterexample@), counterexample@),
            ),
            _ => None,
        },
        None => None,
    }
}

/// The findings, as (description, counterexample), that the configured
/// invariant names yield, in the order of the names.
pub open spec fn violations(names: Seq<Seq<char>>, outcomes: SolverOutcomes) -> Seq<(Seq<char>, Seq<char>)>
    decreases names.len(),
{
    if names.len() == 0 {
        seq![]
    } else {
        let before = violations(names.drop_last(), outcomes);
        match violation(names.last(), outcomes) {
            Some(v) => before.push(v),
            None => before,
        }
    }
}

/// Verifying a list of invariant names made of two parts gives the findings
/// of the first part followed by those of the second.
pub proof fn lemma_violations_concat(a: Seq<Seq<char>>, b: Seq<Seq<char>>, outcomes: SolverOutcomes)
    ensures
        violations(a + b, outcomes) == violations(a, outcomes) + violations(b, outcomes),
    decreases b.len(),
{
    if b.len() == 0 {
        assert(a + b =~= a);
        assert(violations(a, outcomes) + violations(b, outcomes) =~= violations(a, outcomes));
    } else {
        lemma_violations_concat(a, b.drop_last(), outcomes);
        assert((a + b).drop_last() =~= a + b.drop_last());
        assert((a + b).last() == b.last());
        match violation(b.last(), outcomes) {
            Some(v) => {
                assert(violations(a, outcomes) + violations(b, outcomes) =~= (violations(a, outcomes)
                    + violations(b.drop_last(), outcomes)).push(v));
            },
            None => {},
        }
    }
}

/// What verifying one declared invariant name gives, for every name and
/// every solver outcome: a name of balance conservation or of overflow
/// freedom whose check is violated with counterexample `c` gives one finding,
/// described as `Invariant '<name>' violated: <description>. Counterexample: <c>`
/// with `c` itself as reproducer; such a name whose check holds or is unknown
/// gives none; and any other name (access control, or no known invariant)
/// gives none. With `lemma_violations_concat`, this fixes what `verify` gives
/// for every list of names.
pub proof fn lemma_violations_of_one_name(name: Seq<char>, outcomes: SolverOutcomes)
    ensures
        name == "balance_conservation"@ ==> match outcomes.balance_conservation {
            VerificationResult::Violated { counterexample } => violations(seq![name], outcomes) == seq![
                ("Invariant '"@ + name + "' violated: "@ + "Sum of all account balances equals total supply"@
                    + ". Counterexample: "@ + counterexample@, counterexample@),
            ],
            _ => violations(seq![name], outcomes) == Seq::<(Seq<char>, Seq<char>)>::empty(),
        },
        name == "no_overflow"@ ==> match outcomes.no_overflow {
            VerificationResult::Violated { counterexample } => violations(seq![name], outcomes) == seq![
                ("Invariant '"@ + name + "' violated: "@ + "All arithmetic operations are overflow-free"@
                    + ". Counterexample: "@ + counterexample@, counterexample@),
            ],
            _ => violations(seq![name], outcomes) == Seq::<(Seq<char>, Seq<char>)>::empty(),
        },
        name != "balance_conservation"@ && name != "no_overflow"@ ==> violations(seq![name], outcomes)
            == Seq::<(Seq<char>, Seq<char>)>::empty(),
{
    reveal_strlit("balance_conservation");
    reveal_strlit("no_overflow");
    reveal_strlit("access_control");
    let one = seq![name];
    assert(one.drop_last() =~= Seq::<Seq<char>>::empty());
    assert(one.last() == name);
    assert(violations(Seq::<Seq<char>>::empty(), outcomes) == Seq::<(Seq<char>, Seq<char>)>::empty());
    if name == "no_overflow"@ {
        assert(name != "balance_conservation"@) by {
            assert(name.len() != "balance_conservation"@.len());
        }
    }
    match violation(name, outcomes) {
        Some(v) => {
            assert(Seq::<(Seq<char>, Seq<char>)>::empty().push(v) =~= seq![v]);
        },
        None => {},
    }
}

/// The texts of a list of strings.
pub open spec fn texts(v: Seq<String>) -> Seq<Seq<char>> {
    v.map_values(|s: String| s@)
}

fn copy_result(r: &VerificationResult) -> (c: VerificationResult)
    ensures
        c == *r,
{
    match r {
        VerificationResult::Holds => VerificationResult::Holds,
        VerificationResult::Violated { counterexample } => VerificationResult::Violated {
            counterexample: counterexample.clone(),
        },
        VerificationResult::Unknown => VerificationResult::Unknown,
    }
}

impl VerificationEngine {
    /// The result that a solver verdict on a negated property stands for:
    /// UNSAT is `Holds`, SAT is `Violated` with the model's text (empty where
    /// the solver gave no model), and anything else is `Unknown`.
    pub fn verdict_result(verdict: SolverVerdict, model: Option<String>) -> (r: VerificationResult)
        ensures
            verdict == SolverVerdict::Unsat ==> r is Holds,
            verdict == SolverVerdict::Unknown ==> r is Unknown,
            verdict == SolverVerdict::Sat ==> (r matches VerificationResult::Violated { counterexample }
                && counterexample@ == match model {
                Some(m) => m@,
                None => Seq::<char>::empty(),
            }),
    {
        match verdict {
            SolverVerdict::Unsat => VerificationResult::Holds,
            SolverVerdict::Sat => {
                let counterexample = match model {
                    Some(m) => m,
                    None => String::new(),
                };
                VerificationResult::Violated { counterexample }
            },
            SolverVerdict::Unknown => VerificationResult::Unknown,
        }
    }

    /// The result of checking `inv`.
    pub fn check_invariant(inv: &Invariant, outcomes: &SolverOutcomes) -> (r: VerificationResult)
        ensures
            r == outcome_of(*inv, *outcomes),
    {
        match inv {
            Invariant::NoOverflow => copy_result(&outcomes.no_overflow),
            Invariant::BalanceConservation => copy_result(&outcomes.balance_conservation),
            Invariant::AccessControl => VerificationResult::Unknown,
        }
    }

    /// Check all invariants declared in `contract` and return one finding for
    /// each declared invariant that is violated, in the order of the
    /// declaration: a critical invariant violation of the contract, with the
    /// counterexample as reproducer. Names that are not known invariants, and
    /// invariants that hold or whose check is unknown, give none.
    pub fn verify(run_id: u128, contract: &ContractConfig, outcomes: &SolverOutcomes) -> (findings: Vec<Finding>)
        ensures
            findings@.len() == violations(texts(contract.invariants@), *outcomes).len(),
            forall|k: int|
                #![trigger findings@[k]]
                0 <= k < findings@.len() ==> {
                    let v = violations(texts(contract.invariants@), *outcomes)[k];
                    &&& findings@[k].run_id == run_id
                    &&& findings@[k].contract_name@ == contract.name@
                    &&& findings@[k].kind == FindingKind::InvariantViolation
                    &&& findings@[k].severity == FindingSeverity::Critical
                    &&& findings@[k].description@ == v.0
                    &&& findings@[k].reproducer matches Some(c) && c@ == v.1
                },
    {
        let mut findings: Vec<Finding> = Vec::new();
        let n = contract.invariants.len();
        let ghost names = texts(contract.invariants@);
        let mut i: usize = 0;
        while i < n
            invariant
                n == contract.invariants@.len(),
                names == texts(contract.invariants@),
                i <= n,
                findings@.len() == violations(names.take(i as int), *outcomes).len(),
                forall|k: int|
                    #![trigger findings@[k]]
                    0 <= k < findings@.len() ==> {
                        let v = violations(names.take(i as int), *outcomes)[k];
                        &&& findings@[k].run_id == run_id
                        &&& findings@[k].contract_name@ == contract.name@
                        &&& findings@[k].kind == FindingKind::InvariantViolation
                        &&& findings@[k].severity == FindingSeverity::Critical
                        &&& findings@[k].description@ == v.0
                        &&& findings@[k].reproducer matches Some(c) && c@ == v.1
                    },
            decreases n - i,
        {
            let inv_name: &String = &contract.invariants[i];
            let ghost before = violations(names.take(i as int), *outcomes);
            proof {
                assert(names.take(i + 1).drop_last() =~= names.take(i as int));
                assert(names.take(i + 1).last() == inv_name@);
            }
            if let Some(inv) = Invariant::from_str(inv_name.as_str()) {
                let result = Self::check_invariant(&inv, outcomes);
                match result {
                    VerificationResult::Violated { counterexample } => {
                        let mut description = String::new();
                        description.append("Invariant '");
                        description.append(inv_name.as_str());
                        description.append("' violated: ");
                        description.append(inv.description());
                        description.append(". Counterexample: ");
                        description.append(counterexample.as_str());
                        proof {
                            assert(description@ =~= violation_description(inv_name@, inv, counterexample@));
                        }
                        let ghost ce = counterexample@;
                        let ghost old_findings = findings@;
                        findings.push(
                            Finding::new(
                                run_id,
                                contract.name.clone(),
                                FindingKind::InvariantViolation,
                                FindingSeverity::Critical,
                                description,
                                Some(counterexample),
                            ),
                        );
                        proof {
                            assert(violations(names.take(i + 1), *outcomes) == before.push(
                                (violation_description(inv_name@, inv, ce), ce),
                            ));
                            assert forall|k: int| #![trigger findings@[k]] 0 <= k < findings@.len() implies {
                                let v = violations(names.take(i + 1), *outcomes)[k];
                                &&& findings@[k].run_id == run_id
                                &&& findings@[k].contract_name@ == contract.name@
                                &&& findings@[k].kind == FindingKind::InvariantViolation
                                &&& findings@[k].severity == FindingSeverity::Critical
                                &&& findings@[k].description@ == v.0
                                &&& findings@[k].reproducer matches Some(c) && c@ == v.1
                            } by {
                                if k < old_findings.len() {
                                    assert(findings@[k] == old_findings[k]);
                                }
                            }
                        }
                    },
                    _ => {
                        proof {
                            assert(violations(names.take(i + 1), *outcomes) == before);
                        }
                    },
                }
            } else {
                proof {
                    assert(violations(names.take(i + 1), *outcomes) == before);
                }
            }
            i = i + 1;
        }
        proof {
            assert(names.take(n as int) =~= names);
        }
        findings
    }
}

} // verus!
