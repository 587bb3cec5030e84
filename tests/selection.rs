use forge_runner::classify::{classify, Classification, TestKind};
use forge_runner::fuzz::Verdict;
use forge_runner::suite::{run_suite, select, ContractTests, TestRecord};
use std::cell::RefCell;

fn contracts() -> Vec<ContractTests> {
    vec![
        ContractTests { name: "Counter".to_string(), tests: vec!["testInc".to_string(), "testDec".to_string()] },
        ContractTests { name: "Token".to_string(), tests: vec!["testMint".to_string()] },
        ContractTests { name: "Vault".to_string(), tests: vec!["testDeposit".to_string(), "testIncome".to_string()] },
    ]
}

#[test]
fn filter_keeps_exactly_matching_tests() {
    let only_inc = |_: &str, t: &str| t.starts_with("testInc");
    let sel = select(&contracts(), &only_inc);
    assert_eq!(sel.len(), 2);
    assert_eq!((sel[0].contract, sel[0].tests.clone()), (0, vec![0]));
    assert_eq!((sel[1].contract, sel[1].tests.clone()), (2, vec![1]));
}

#[test]
fn contract_without_kept_tests_is_left_out() {
    let only_token = |c: &str, _: &str| c == "Token";
    let sel = select(&contracts(), &only_token);
    assert_eq!(sel.len(), 1);
    assert_eq!(sel[0].contract, 1);
}

#[test]
fn filtered_out_tests_are_never_run() {
    let ran = RefCell::new(Vec::new());
    let exec = |c: usize, t: usize| {
        ran.borrow_mut().push((c, t));
        TestRecord { verdict: Verdict::Success, gas_used: 100 }
    };
    let no_dec = |_: &str, t: &str| t != "testDec";
    let r = run_suite(&contracts(), &no_dec, &exec);
    assert_eq!(*ran.borrow(), vec![(0, 0), (1, 0), (2, 0), (2, 1)]);
    assert_eq!(r.contracts.len(), 3);
    assert_eq!(r.contracts[0].results.len(), 1);
    let none = |_: &str, _: &str| false;
    let empty = run_suite(&contracts(), &none, &exec);
    assert!(empty.contracts.is_empty());
    assert_eq!(ran.borrow().len(), 4);
}

#[test]
fn classifier_sorts_functions() {
    assert_eq!(classify("testInc", 0), Classification::Test(TestKind::Unit));
    assert_eq!(classify("testAddsCorrectly", 2), Classification::Test(TestKind::Fuzz));
    assert_eq!(classify("invariantValueNeverExceeds1000", 0), Classification::Test(TestKind::Invariant));
    assert_eq!(classify("invariantBad", 1), Classification::Malformed);
    assert_eq!(classify("setValue", 1), Classification::Target);
    assert_eq!(classify("tes", 0), Classification::Target);
}
