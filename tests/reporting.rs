use forge_runner::campaign::{Call, SequenceOutcome};
use forge_runner::classify::{Classification, TestKind};
use forge_runner::coverage::CoverageMap;
use forge_runner::fuzz::Verdict;
use forge_runner::gas::{gas_stats, GasReport, GasStats};
use forge_runner::gen::ParamKind;
use forge_runner::options::TestOptions;
use forge_runner::outcome::{FailureReason, Outcome, Trial};
use forge_runner::runner::{run_contract, FunctionSig, TestVerdict};

#[test]
fn gas_statistics() {
    let s = gas_stats(&vec![30, 10, 20, 40]);
    assert_eq!(s, GasStats { min: 10, max: 40, mean: 25, median: 30, calls: 4 });
    let one = gas_stats(&vec![u64::MAX]);
    assert_eq!((one.min, one.max, one.mean, one.median, one.calls), (u64::MAX, u64::MAX, u64::MAX, u64::MAX, 1));
    let big = gas_stats(&vec![u64::MAX, u64::MAX, 1]);
    assert_eq!(big.mean, ((u64::MAX as u128 * 2 + 1) / 3) as u64);
}

#[test]
fn gas_report_groups_by_contract_and_function() {
    let mut r = GasReport::new();
    r.record("Counter", "inc", 100);
    r.record("Counter", "inc", 300);
    r.record("Counter", "dec", 50);
    r.record("Token", "inc", 7);
    let inc = r.stats("Counter", "inc").unwrap();
    assert_eq!((inc.calls, inc.min, inc.max, inc.mean), (2, 100, 300, 200));
    assert_eq!(r.stats("Counter", "dec").unwrap().calls, 1);
    assert_eq!(r.stats("Token", "inc").unwrap().max, 7);
    assert!(r.stats("Token", "dec").is_none());
}

#[test]
fn coverage_hits_and_merges() {
    let mut a = CoverageMap::new(&vec![3, 2]);
    let mut b = CoverageMap::new(&vec![3, 2]);
    a.hit(0, 1, 2);
    b.hit(0, 1, 5);
    b.hit(1, 0, u64::MAX);
    a.hit(1, 0, 1);
    a.merge(&b);
    assert_eq!(a.get(0, 1), 7);
    assert_eq!(a.get(1, 0), u64::MAX);
    assert_eq!(a.get(0, 0), 0);
}

fn options() -> TestOptions {
    TestOptions {
        fuzz_runs: 64,
        fuzz_max_local_rejects: 1000,
        fuzz_max_global_rejects: 1000,
        fuzz_seed: Some([42u8; 32]),
        invariant_runs: 8,
        invariant_depth: 4,
        invariant_fail_on_revert: false,
        invariant_call_override: false,
    }
}

#[test]
fn contract_runner_dispatches_by_kind() {
    let functions = vec![
        FunctionSig { name: "setValue".to_string(), params: vec![ParamKind::Uint(32)] },
        FunctionSig { name: "testPasses".to_string(), params: vec![] },
        FunctionSig { name: "testAddsCorrectly".to_string(), params: vec![ParamKind::Uint(1), ParamKind::Uint(1)] },
        FunctionSig { name: "invariantValueNeverExceeds1000".to_string(), params: vec![] },
        FunctionSig { name: "invariantBroken".to_string(), params: vec![ParamKind::Bool] },
    ];
    let exec = |i: usize, a: &Vec<Vec<u8>>| {
        if i == 2 && a[0][31] as u16 + a[1][31] as u16 > 255 {
            Trial { outcome: Outcome::Fail(FailureReason::Revert), gas_used: 1 }
        } else {
            Trial { outcome: Outcome::Pass, gas_used: 1 }
        }
    };
    let replay = |_: usize, calls: &Vec<Call>| {
        let at = calls.iter().position(|c| c.args[0][..30].iter().any(|b| *b != 0));
        SequenceOutcome { first_revert: None, first_violation: at }
    };
    let r = run_contract(&functions, &options(), [0u8; 32], &vec![], &exec, &replay);
    assert_eq!(r.len(), 4);
    assert_eq!(r[0].function, 1);
    assert_eq!(r[0].kind, Classification::Test(TestKind::Unit));
    assert_eq!(r[0].verdict, TestVerdict::Ran(Verdict::Success));
    assert_eq!(r[1].verdict, TestVerdict::Ran(Verdict::Failure(FailureReason::Revert)));
    let cex = r[1].counterexample.as_ref().unwrap();
    assert!(cex[0][31] as u16 + cex[1][31] as u16 > 255);
    assert_eq!(r[2].kind, Classification::Test(TestKind::Invariant));
    assert_eq!(r[2].verdict, TestVerdict::Ran(Verdict::Failure(FailureReason::InvariantViolation)));
    assert_eq!(r[2].sequence.as_ref().unwrap().len(), 1);
    assert_eq!(r[3].verdict, TestVerdict::Skipped);
}
