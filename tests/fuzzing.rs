use proptest::prelude::Rng;
use proptest::test_runner::{RngAlgorithm, TestRng};
use forge_runner::fuzz::{run_fuzz, run_unit, FuzzConfig, Verdict};
use forge_runner::gen::{generate_args, ParamKind};
use forge_runner::options::TestOptions;
use forge_runner::outcome::{FailureReason, Outcome, Trial};
use forge_runner::rng::SeededRng;
use forge_runner::shrink::shrink_args;

fn config(runs: u32) -> FuzzConfig {
    FuzzConfig { runs, max_local_rejects: 65536, max_global_rejects: 1024, max_shrink_attempts: 1024 }
}

fn word_value(w: &[u8]) -> u128 {
    w.iter().fold(0u128, |acc, b| acc.wrapping_mul(256).wrapping_add(*b as u128))
}

fn adds_correctly(args: &Vec<Vec<u8>>) -> Trial {
    let a = args[0][31] as u16;
    let b = args[1][31] as u16;
    // checked arithmetic on uint8 reverts on overflow
    if a + b > 255 {
        Trial { outcome: Outcome::Fail(FailureReason::Revert), gas_used: 21000 }
    } else {
        Trial { outcome: Outcome::Pass, gas_used: 21000 }
    }
}

#[test]
fn uint8_addition_overflow_is_caught_and_shrunk() {
    let kinds = vec![ParamKind::Uint(1), ParamKind::Uint(1)];
    let mut rng = SeededRng::from_seed([7u8; 32]);
    let r = run_fuzz(&adds_correctly, config(256), &kinds, &vec![], &mut rng);
    assert_eq!(r.verdict, Verdict::Failure(FailureReason::Revert));
    let first = r.failing_input.unwrap();
    let cex = r.counterexample.unwrap();
    let (a, b) = (cex[0][31] as u16, cex[1][31] as u16);
    assert!(a + b > 255);
    assert!(a <= first[0][31] as u16 && b <= first[1][31] as u16);
    assert!(cex[0][..31].iter().all(|x| *x == 0));
}

#[test]
fn same_seed_gives_same_campaign() {
    let kinds = vec![ParamKind::Uint(1), ParamKind::Uint(1)];
    let mut r1 = SeededRng::from_seed([3u8; 32]);
    let mut r2 = SeededRng::from_seed([3u8; 32]);
    let a = run_fuzz(&adds_correctly, config(256), &kinds, &vec![], &mut r1);
    let b = run_fuzz(&adds_correctly, config(256), &kinds, &vec![], &mut r2);
    assert_eq!(a.verdict, b.verdict);
    assert_eq!(a.failing_input, b.failing_input);
    assert_eq!(a.counterexample, b.counterexample);
    assert_eq!(a.gas_samples, b.gas_samples);
}

#[test]
fn same_seed_gives_same_arguments() {
    let kinds = vec![ParamKind::Uint(32), ParamKind::Address, ParamKind::Bool, ParamKind::Bytes];
    let pool = vec![vec![0u8; 32]];
    let mut r1 = SeededRng::from_seed([9u8; 32]);
    let mut r2 = SeededRng::from_seed([9u8; 32]);
    for _ in 0..50 {
        assert_eq!(generate_args(&kinds, &pool, &mut r1), generate_args(&kinds, &pool, &mut r2));
    }
}

#[test]
fn different_seeds_give_different_words() {
    let mut r1 = SeededRng::from_seed([1u8; 32]);
    let mut r2 = SeededRng::from_seed([2u8; 32]);
    assert_ne!(r1.next_words(8), r2.next_words(8));
}

#[test]
fn stream_goes_on_across_blocks() {
    let mut r = SeededRng::from_seed([5u8; 32]);
    let first = r.next_words(64);
    let second = r.next_words(64);
    assert_ne!(first, second);
}

#[test]
fn generated_values_have_their_shapes() {
    let kinds = vec![ParamKind::Uint(1), ParamKind::Address, ParamKind::Bool, ParamKind::Bytes];
    let mut r = SeededRng::from_seed([4u8; 32]);
    for _ in 0..100 {
        let v = generate_args(&kinds, &vec![], &mut r);
        assert_eq!(v[0].len(), 32);
        assert!(v[0][..31].iter().all(|x| *x == 0));
        assert!(v[1][..12].iter().all(|x| *x == 0));
        assert!(v[2][31] <= 1 && v[2][..31].iter().all(|x| *x == 0));
        assert!(v[3].len() < 64);
    }
}

#[test]
fn rejecting_every_input_exhausts_the_budget() {
    let always_reject = |_: &Vec<Vec<u8>>| Trial { outcome: Outcome::Rejected, gas_used: 0 };
    let mut rng = SeededRng::from_seed([0u8; 32]);
    let r = run_fuzz(&always_reject, config(256), &vec![ParamKind::Uint(32)], &vec![], &mut rng);
    assert_eq!(r.verdict, Verdict::RejectionExhausted);
    assert!(r.counterexample.is_none());
}

#[test]
fn local_rejections_in_a_row_exhaust_the_budget() {
    let always_reject = |_: &Vec<Vec<u8>>| Trial { outcome: Outcome::Rejected, gas_used: 0 };
    let cfg = FuzzConfig { runs: 10, max_local_rejects: 3, max_global_rejects: 1000, max_shrink_attempts: 10 };
    let mut rng = SeededRng::from_seed([0u8; 32]);
    let r = run_fuzz(&always_reject, cfg, &vec![ParamKind::Bool], &vec![], &mut rng);
    assert_eq!(r.verdict, Verdict::RejectionExhausted);
}

#[test]
fn passing_test_succeeds_with_one_gas_sample_per_run() {
    let pass = |_: &Vec<Vec<u8>>| Trial { outcome: Outcome::Pass, gas_used: 5 };
    let mut rng = SeededRng::from_seed([0u8; 32]);
    let r = run_fuzz(&pass, config(40), &vec![ParamKind::Uint(32)], &vec![], &mut rng);
    assert_eq!(r.verdict, Verdict::Success);
    assert_eq!(r.gas_samples, vec![5u64; 40]);
}

#[test]
fn unit_matches_single_run_fuzz() {
    let outcomes = [Outcome::Pass, Outcome::Fail(FailureReason::Assertion), Outcome::Rejected];
    for o in outcomes {
        let t = move |_: &Vec<Vec<u8>>| Trial { outcome: o, gas_used: 1 };
        let unit = run_unit(&t);
        let mut rng = SeededRng::from_seed([0u8; 32]);
        let fuzz = run_fuzz(&t, config(1), &vec![], &vec![], &mut rng);
        assert_eq!(unit.verdict, fuzz.verdict);
    }
}

#[test]
fn shrinking_keeps_the_failure_and_never_grows() {
    let fails_from_1000 = |a: &Vec<Vec<u8>>| {
        if word_value(&a[0][16..]) >= 1000 {
            Trial { outcome: Outcome::Fail(FailureReason::Assertion), gas_used: 0 }
        } else {
            Trial { outcome: Outcome::Pass, gas_used: 0 }
        }
    };
    let mut big = vec![0u8; 32];
    big[28] = 0x12;
    big[29] = 0x34;
    big[30] = 0x56;
    big[31] = 0x78;
    let (r, exhausted) = shrink_args(&fails_from_1000, &vec![ParamKind::Uint(32)], vec![big.clone()], FailureReason::Assertion, 1000);
    assert!(!exhausted);
    let v = word_value(&r[0][16..]);
    assert!(v >= 1000);
    assert!(v <= word_value(&big[16..]));
    assert_eq!(r[0].len(), 32);
}

#[test]
fn shrinking_bytes_shortens_them() {
    let fails_when_nonempty = |a: &Vec<Vec<u8>>| {
        if !a[0].is_empty() && a[0][0] == 0xaa {
            Trial { outcome: Outcome::Fail(FailureReason::Revert), gas_used: 0 }
        } else {
            Trial { outcome: Outcome::Pass, gas_used: 0 }
        }
    };
    let (r, _) = shrink_args(&fails_when_nonempty, &vec![ParamKind::Bytes], vec![vec![0xaa, 1, 2, 3, 4]], FailureReason::Revert, 100);
    assert_eq!(r, vec![vec![0xaa]]);
}

#[test]
fn shrinking_without_budget_returns_the_input() {
    let fail = |_: &Vec<Vec<u8>>| Trial { outcome: Outcome::Fail(FailureReason::Assertion), gas_used: 0 };
    let input = vec![vec![9u8; 32]];
    let (r, exhausted) = shrink_args(&fail, &vec![ParamKind::Uint(32)], input.clone(), FailureReason::Assertion, 0);
    assert_eq!(r, input);
    assert!(exhausted);
}

#[test]
fn fuzzer_follows_the_options() {
    let opts = TestOptions {
        fuzz_runs: 12,
        fuzz_max_local_rejects: 3,
        fuzz_max_global_rejects: 4,
        fuzz_seed: Some([1u8; 32]),
        invariant_runs: 5,
        invariant_depth: 6,
        invariant_fail_on_revert: true,
        invariant_call_override: false,
    };
    let mut f = opts.fuzzer([8u8; 32]);
    assert_eq!(f.seed, [1u8; 32]);
    assert_eq!(f.config.runs, 12);
    assert_eq!(f.config.max_local_rejects, 3);
    assert_eq!(f.config.max_global_rejects, 4);
    assert_eq!(f.config.max_shrink_attempts, 48);
    let many = TestOptions { fuzz_runs: u32::MAX, ..opts };
    assert_eq!(many.fuzz_config().max_shrink_attempts, u32::MAX as u64);
    let mut seeded = SeededRng::from_seed([1u8; 32]);
    assert_eq!(f.rng.next_words(3), seeded.next_words(3));
    let inv = opts.invariant_config();
    assert_eq!((inv.runs, inv.depth, inv.fail_on_revert, inv.call_override), (5, 6, true, false));
    let unseeded = TestOptions { fuzz_seed: None, ..opts };
    let mut g = unseeded.fuzzer([8u8; 32]);
    assert_eq!(g.seed, [8u8; 32]);
    let replay = TestOptions { fuzz_seed: Some(g.seed), ..opts };
    assert_eq!(g.rng.next_words(5), replay.fuzzer([0u8; 32]).rng.next_words(5));
}

#[test]
fn shrinking_zero_values_spends_no_budget() {
    let fail = |_: &Vec<Vec<u8>>| Trial { outcome: Outcome::Fail(FailureReason::Assertion), gas_used: 0 };
    let input = vec![vec![0u8; 32], vec![]];
    let (r, exhausted) = shrink_args(&fail, &vec![ParamKind::Uint(32), ParamKind::Bytes], input.clone(), FailureReason::Assertion, 5);
    assert_eq!(r, input);
    assert!(!exhausted);
}

#[test]
fn shrinking_reaches_a_settled_input() {
    let fails_if_any_big = |a: &Vec<Vec<u8>>| {
        if a[0][31] >= 3 || a[1][31] >= 200 {
            Trial { outcome: Outcome::Fail(FailureReason::Assertion), gas_used: 0 }
        } else {
            Trial { outcome: Outcome::Pass, gas_used: 0 }
        }
    };
    let mut x = vec![0u8; 32];
    x[31] = 250;
    x[30] = 9;
    let mut y = vec![0u8; 32];
    y[31] = 201;
    let (r, exhausted) = shrink_args(&fails_if_any_big, &vec![ParamKind::Uint(32), ParamKind::Uint(32)], vec![x, y], FailureReason::Assertion, 1000);
    assert!(!exhausted);
    assert_eq!(r[0], vec![0u8; 32]);
    assert_eq!(r[1][31], 201);
}

#[test]
fn stream_is_the_chacha_stream_of_its_seed() {
    let seed = [6u8; 32];
    let mut ours = SeededRng::from_seed(seed);
    let mut theirs = TestRng::from_seed(RngAlgorithm::ChaCha, &seed);
    for _ in 0..200 {
        assert_eq!(ours.next_u64(), theirs.next_u64());
    }
}

#[test]
fn test_seeds_differ_by_index() {
    use_seed_helpers();
}

fn use_seed_helpers() {
    let seed = [3u8; 32];
    assert_eq!(forge_runner::options::derive_test_seed(&seed, 0), seed);
    let one = forge_runner::options::derive_test_seed(&seed, 1);
    assert_eq!(one[31], 3 ^ 1);
    assert_eq!(one[..31], seed[..31]);
    let big = forge_runner::options::derive_test_seed(&seed, 0x0102);
    assert_eq!((big[30], big[31]), (3 ^ 1, 3 ^ 2));
}
