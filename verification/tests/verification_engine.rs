use sentinel::config::ContractConfig;
use sentinel::engine::{SolverOutcomes, SolverVerdict, VerificationEngine};
use sentinel::finding::{FindingKind, FindingSeverity};
use sentinel::invariants::{Invariant, VerificationResult};

fn contract(invariants: &[&str]) -> ContractConfig {
    ContractConfig {
        name: "token".to_string(),
        path: "contracts/token".to_string(),
        invariants: invariants.iter().map(|s| s.to_string()).collect(),
        fuzz_timeout_secs: 60,
        fuzz_iterations: 0,
    }
}

fn outcomes() -> SolverOutcomes {
    SolverOutcomes {
        no_overflow: VerificationResult::Violated { counterexample: "a -> 1".to_string() },
        balance_conservation: VerificationResult::Holds,
    }
}

#[test]
fn invariant_names() {
    assert_eq!(Invariant::from_str("balance_conservation"), Some(Invariant::BalanceConservation));
    assert_eq!(Invariant::from_str("access_control"), Some(Invariant::AccessControl));
    assert_eq!(Invariant::from_str("no_overflow"), Some(Invariant::NoOverflow));
    assert_eq!(Invariant::from_str("No_Overflow"), None);
    assert_eq!(Invariant::from_str(""), None);
    assert_eq!(Invariant::NoOverflow.description(), "All arithmetic operations are overflow-free");
    assert_eq!(
        Invariant::BalanceConservation.description(),
        "Sum of all account balances equals total supply"
    );
    assert_eq!(
        Invariant::AccessControl.description(),
        "Privileged functions revert for non-owner callers"
    );
}

#[test]
fn violated_invariants_become_critical_findings_in_order() {
    let c = contract(&["no_overflow", "unknown", "balance_conservation", "access_control", "no_overflow"]);
    let findings = VerificationEngine::verify(3, &c, &outcomes());
    assert_eq!(findings.len(), 2);
    for f in &findings {
        assert_eq!(f.run_id, 3);
        assert_eq!(f.contract_name, "token");
        assert_eq!(f.kind, FindingKind::InvariantViolation);
        assert_eq!(f.severity, FindingSeverity::Critical);
        assert_eq!(
            f.description,
            "Invariant 'no_overflow' violated: All arithmetic operations are overflow-free. Counterexample: a -> 1"
        );
        assert_eq!(f.reproducer.as_deref(), Some("a -> 1"));
    }
}

#[test]
fn holding_unknown_and_unnamed_invariants_give_nothing() {
    assert!(VerificationEngine::verify(1, &contract(&[]), &outcomes()).is_empty());
    assert!(VerificationEngine::verify(1, &contract(&["balance_conservation", "access_control", "x"]), &outcomes()).is_empty());
    let unknown = SolverOutcomes {
        no_overflow: VerificationResult::Unknown,
        balance_conservation: VerificationResult::Violated { counterexample: String::new() },
    };
    let f = VerificationEngine::verify(1, &contract(&["no_overflow", "balance_conservation"]), &unknown);
    assert_eq!(f.len(), 1);
    assert_eq!(
        f[0].description,
        "Invariant 'balance_conservation' violated: Sum of all account balances equals total supply. Counterexample: "
    );
}

#[test]
fn solver_verdicts() {
    assert!(matches!(VerificationEngine::verdict_result(SolverVerdict::Unsat, None), VerificationResult::Holds));
    assert!(matches!(
        VerificationEngine::verdict_result(SolverVerdict::Unknown, Some("m".to_string())),
        VerificationResult::Unknown
    ));
    match VerificationEngine::verdict_result(SolverVerdict::Sat, Some("(define-fun a () Int 1)".to_string())) {
        VerificationResult::Violated { counterexample } => assert_eq!(counterexample, "(define-fun a () Int 1)"),
        other => panic!("unexpected {:?}", other),
    }
    match VerificationEngine::verdict_result(SolverVerdict::Sat, None) {
        VerificationResult::Violated { counterexample } => assert_eq!(counterexample, ""),
        other => panic!("unexpected {:?}", other),
    }
}

#[test]
fn checks_per_invariant() {
    let o = outcomes();
    assert!(matches!(VerificationEngine::check_invariant(&Invariant::AccessControl, &o), VerificationResult::Unknown));
    assert!(matches!(VerificationEngine::check_invariant(&Invariant::BalanceConservation, &o), VerificationResult::Holds));
    assert!(matches!(
        VerificationEngine::check_invariant(&Invariant::NoOverflow, &o),
        VerificationResult::Violated { .. }
    ));
}

#[test]
fn verifying_two_lists_concatenates_findings() {
    let a = ["no_overflow", "balance_conservation"];
    let b = ["x", "no_overflow"];
    let joined: Vec<&str> = a.iter().chain(b.iter()).copied().collect();
    let whole = VerificationEngine::verify(1, &contract(&joined), &outcomes());
    let first = VerificationEngine::verify(1, &contract(&a), &outcomes());
    let second = VerificationEngine::verify(1, &contract(&b), &outcomes());
    let whole_d: Vec<String> = whole.into_iter().map(|f| f.description).collect();
    let parts_d: Vec<String> = first.into_iter().chain(second).map(|f| f.description).collect();
    assert_eq!(whole_d, parts_d);
    assert_eq!(whole_d.len(), 2);
}
