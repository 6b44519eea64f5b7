use sentinel::config::ContractConfig;
use sentinel::finding::{FindingKind, FindingSeverity};
use sentinel::runner::{
    coverage_candidates, execs_candidates, extract_reproducer, fuzz_target_name, reproducer_file,
    harness_file_name, FuzzRunner,
};

fn contract(name: &str, timeout: u64) -> ContractConfig {
    ContractConfig {
        name: name.to_string(),
        path: "contracts/token".to_string(),
        invariants: vec![],
        fuzz_timeout_secs: timeout,
        fuzz_iterations: 0,
    }
}

const CRASH_OUTPUT: &str = "INFO: Seed: 1\n\
#2\tINITED cov: 120 ft: 130 corp: 1/1b exec/s: 0 rss: 30Mb\n\
==42== ERROR: libFuzzer: deadly signal\n\
   SUMMARY: libFuzzer: deadly signal   \n\
MS: 1 ChangeBit-; base unit: 0\n\
artifact_prefix='./'; Test unit written to ./crash-da39a3ee  \n\
thread 'main' panicked at src/lib.rs:10:5:\r\n";

#[test]
fn crashes_become_high_severity_findings() {
    let runner = FuzzRunner::new("/tmp/ws".to_string());
    let c = contract("token-contract", 60);
    let input: Vec<u8> = vec![0xde, 0xad, 0x01, 0x7f];
    let findings = runner.parse_crashes(7, &c, CRASH_OUTPUT, Some(input.as_slice()));
    assert_eq!(findings.len(), 2);
    assert_eq!(findings[0].description, "libFuzzer crash: SUMMARY: libFuzzer: deadly signal");
    assert_eq!(findings[1].description, "libFuzzer crash: thread 'main' panicked at src/lib.rs:10:5:");
    for f in &findings {
        assert_eq!(f.run_id, 7);
        assert_eq!(f.contract_name, "token-contract");
        assert_eq!(f.kind, FindingKind::FuzzCrash);
        assert_eq!(f.severity, FindingSeverity::High);
        assert_eq!(f.reproducer.as_deref(), Some("dead017f"));
    }
    assert_ne!(findings[0].id, findings[1].id);
}

#[test]
fn timeouts_are_crashes_and_quiet_runs_have_none() {
    let runner = FuzzRunner::new("/tmp/ws".to_string());
    let c = contract("t", 60);
    let findings = runner.parse_crashes(1, &c, "SUMMARY: libFuzzer: timeout\n", None);
    assert_eq!(findings.len(), 1);
    assert_eq!(findings[0].reproducer, None);
    let empty: Vec<u8> = vec![];
    let findings = runner.parse_crashes(1, &c, "SUMMARY: libFuzzer: timeout\n", Some(empty.as_slice()));
    assert_eq!(findings[0].reproducer.as_deref(), Some(""));
    assert!(runner.parse_crashes(1, &c, "#1 DONE cov: 3 exec/s: 10\nDone 1 runs\n", None).is_empty());
    assert!(runner.parse_crashes(1, &c, "", None).is_empty());
}

#[test]
fn reproducer_is_first_trimmed_line() {
    assert_eq!(
        extract_reproducer(CRASH_OUTPUT).as_deref(),
        Some("artifact_prefix='./'; Test unit written to ./crash-da39a3ee")
    );
    assert_eq!(
        extract_reproducer("==1== ERROR: libFuzzer: deadly signal\n  Test unit written to ./crash-1  \nTest unit written to ./crash-2\n")
            .as_deref(),
        Some("Test unit written to ./crash-1")
    );
    assert_eq!(extract_reproducer("Test unit written to\n").as_deref(), Some("Test unit written to"));
    assert_eq!(extract_reproducer("INFO: no crash\n"), None);
}

#[test]
fn reproducer_file_is_named_by_first_line() {
    assert_eq!(reproducer_file(CRASH_OUTPUT).as_deref(), Some("./crash-da39a3ee"));
    assert_eq!(
        reproducer_file("x\n  Test unit written to a  \nTest unit written to b\n").as_deref(),
        Some("a")
    );
    assert_eq!(reproducer_file("Test unit written to\n").as_deref(), Some(""));
    assert_eq!(reproducer_file("nothing here\n"), None);
}

#[test]
fn coverage_figures_come_from_cov_lines() {
    assert_eq!(coverage_candidates("cov: 1234 ft: 5\nfoo\ncov: 99\n"), vec!["1234", "99"]);
    assert_eq!(coverage_candidates("cov: \n"), vec!["0"]);
    assert_eq!(
        coverage_candidates("#2\tINITED cov: 2500 ft: 3 corp: 1/1b exec/s: 0 rss: 30Mb\n"),
        vec!["2500"]
    );
    assert_eq!(coverage_candidates(CRASH_OUTPUT), vec!["120"]);
    assert_eq!(coverage_candidates("a cov: 1 cov: 2\n"), vec!["1"]);
    assert_eq!(coverage_candidates("cov:12\n"), Vec::<String>::new());
}

#[test]
fn speed_figures_follow_exec_marker() {
    assert_eq!(
        execs_candidates("#100\tDONE cov: 5 ft: 6 corp: 1 exec/s: 250 rss: 30Mb\n"),
        vec!["250"]
    );
    assert_eq!(execs_candidates("exec/s:\n"), vec!["0"]);
    assert_eq!(execs_candidates("a exec/s: 1 exec/s: 2\n"), vec!["1"]);
    assert_eq!(execs_candidates("exec/s:exec/s: 9\n"), vec!["0"]);
    assert_eq!(execs_candidates("none\n"), Vec::<String>::new());
}

#[test]
fn target_and_harness_names() {
    assert_eq!(fuzz_target_name("my-token-contract"), "my_token_contract");
    assert_eq!(fuzz_target_name("plain"), "plain");
    assert_eq!(fuzz_target_name(""), "");
    assert_eq!(fuzz_target_name("--é-"), "__é_");
    assert_eq!(fuzz_target_name(&fuzz_target_name("a-b")), "a_b");
    assert_eq!(harness_file_name("my-token"), "my_token.rs");
}

#[test]
fn fuzz_command_and_deadline() {
    let c = contract("my-token", 60);
    assert_eq!(
        FuzzRunner::fuzz_args(&c),
        vec!["fuzz", "run", "my_token", "--", "-max_total_time=60", "-print_final_stats=1"]
    );
    assert_eq!(FuzzRunner::deadline_secs(&c), 90);
    assert_eq!(FuzzRunner::fuzz_args(&contract("x", 0))[4], "-max_total_time=0");
    assert_eq!(FuzzRunner::deadline_secs(&contract("x", u64::MAX - 30)), u64::MAX);
}
