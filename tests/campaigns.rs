use forge_runner::campaign::{run_campaign, shrink_sequence, Call, InvariantConfig, SequenceOutcome};
use forge_runner::fuzz::Verdict;
use forge_runner::gen::ParamKind;
use forge_runner::outcome::FailureReason;
use forge_runner::rng::SeededRng;

fn word(n: u64) -> Vec<u8> {
    let mut w = vec![0u8; 32];
    w[24..].copy_from_slice(&n.to_be_bytes());
    w
}

fn value_of(w: &[u8]) -> Option<u64> {
    if w[..24].iter().any(|b| *b != 0) {
        None
    } else {
        Some(u64::from_be_bytes(w[24..].try_into().unwrap()))
    }
}

/// A contract with `setValue(uint256)` (target 0) and `reset()` (target 1),
/// and the invariant that its value never exceeds 1000.
fn replay_set_value(calls: &Vec<Call>) -> SequenceOutcome {
    let mut value: u64 = 0;
    for (i, c) in calls.iter().enumerate() {
        let small = if c.target == 0 { value_of(&c.args[0]) } else { Some(0) };
        match small {
            Some(v) if v <= 1000 => value = v,
            _ => return SequenceOutcome { first_revert: None, first_violation: Some(i) },
        }
    }
    SequenceOutcome { first_revert: None, first_violation: None }
}

fn set_value(n: u64) -> Call {
    Call { target: 0, args: vec![word(n)] }
}

fn cfg() -> InvariantConfig {
    InvariantConfig { runs: 16, depth: 8, fail_on_revert: false, call_override: false, max_shrink_attempts: 256 }
}

#[test]
fn set_value_1500_shrinks_to_one_call() {
    let calls = vec![set_value(5), Call { target: 1, args: vec![] }, set_value(1500), set_value(7)];
    let (r, exhausted) = shrink_sequence(&replay_set_value, calls, false, FailureReason::InvariantViolation, 100);
    assert!(!exhausted);
    assert_eq!(r.len(), 1);
    assert_eq!(r[0].target, 0);
    assert_eq!(value_of(&r[0].args[0]), Some(1500));
}

#[test]
fn campaign_reports_a_replayable_single_step_counterexample() {
    let targets = vec![vec![ParamKind::Uint(32)], vec![]];
    let mut rng = SeededRng::from_seed([11u8; 32]);
    let r = run_campaign(&replay_set_value, cfg(), &targets, &vec![], &mut rng);
    assert_eq!(r.verdict, Verdict::Failure(FailureReason::InvariantViolation));
    let cex = r.counterexample.unwrap();
    assert_eq!(cex.len(), 1);
    let again = replay_set_value(&cex);
    assert_eq!(again.first_violation, Some(0));
    let failing = r.failing_sequence.unwrap();
    assert!(cex.len() <= failing.len());
    assert!(replay_set_value(&failing).first_violation == Some(failing.len() - 1));
}

#[test]
fn campaign_with_a_holding_invariant_succeeds() {
    let holds = |_: &Vec<Call>| SequenceOutcome { first_revert: Some(0), first_violation: None };
    let targets = vec![vec![ParamKind::Bool]];
    let mut rng = SeededRng::from_seed([1u8; 32]);
    let r = run_campaign(&holds, cfg(), &targets, &vec![], &mut rng);
    assert_eq!(r.verdict, Verdict::Success);
    assert!(r.counterexample.is_none());
}

#[test]
fn revert_fails_the_campaign_when_asked() {
    let reverts = |calls: &Vec<Call>| SequenceOutcome {
        first_revert: if calls.is_empty() { None } else { Some(0) },
        first_violation: None,
    };
    let targets = vec![vec![ParamKind::Bool]];
    let mut rng = SeededRng::from_seed([1u8; 32]);
    let strict = InvariantConfig { fail_on_revert: true, ..cfg() };
    let r = run_campaign(&reverts, strict, &targets, &vec![], &mut rng);
    assert_eq!(r.verdict, Verdict::Failure(FailureReason::Revert));
    assert_eq!(r.counterexample.unwrap().len(), 1);
}

#[test]
fn campaign_without_targets_succeeds() {
    let breaks = |_: &Vec<Call>| SequenceOutcome { first_revert: None, first_violation: Some(0) };
    let mut rng = SeededRng::from_seed([1u8; 32]);
    let r = run_campaign(&breaks, cfg(), &vec![], &vec![], &mut rng);
    assert_eq!(r.verdict, Verdict::Success);
}

#[test]
fn sequence_shrinking_repeats_until_nothing_drops() {
    // the invariant breaks once two calls have set a value above 1000
    let two_big = |calls: &Vec<Call>| {
        let mut seen = 0;
        for (i, c) in calls.iter().enumerate() {
            if value_of(&c.args[0]).map_or(true, |v| v > 1000) {
                seen += 1;
                if seen == 2 {
                    return SequenceOutcome { first_revert: None, first_violation: Some(i) };
                }
            }
        }
        SequenceOutcome { first_revert: None, first_violation: None }
    };
    let calls = vec![set_value(1), set_value(2000), set_value(3), set_value(4), set_value(3000), set_value(5)];
    let (r, exhausted) = shrink_sequence(&two_big, calls, false, FailureReason::InvariantViolation, 100);
    assert!(!exhausted);
    assert_eq!(r.len(), 2);
    assert_eq!(value_of(&r[0].args[0]), Some(2000));
    assert_eq!(value_of(&r[1].args[0]), Some(3000));
}
