use vstd::prelude::*;
use crate::campaign::{Call, SequenceOutcome, calls_view, failure_of, fails_within, prefix_closed, run_campaign, targets_ok};
use crate::classify::{Classification, TestKind, class_of, classify};
use crate::fuzz::{Verdict, gives, run_fuzz, run_unit, unit_verdict};
use crate::gen::{ParamKind, kind_ok, views};
use crate::options::{TestOptions, derive_test_seed};
use crate::rng::SeededRng;
use crate::outcome::{FailureReason, Outcome, Trial};

verus! {

/// A function of a contract: its name and the types of its parameters.
pub struct FunctionSig {
    pub name: String,
    pub params: Vec<ParamKind>,
}

/// Whether a function is a test to the runner (a malformed one included).
pub open spec fn is_test_fn(f: FunctionSig) -> bool {
    class_of(f.name@, f.params@.len()) != Classification::Target
}

/// The indices, ascending, of the test functions.
pub open spec fn test_indices(fs: Seq<FunctionSig>) -> Seq<usize>
    decreases fs.len(),
{
    if fs.len() == 0 {
        Seq::empty()
    } else if is_test_fn(fs.last()) {
        test_indices(fs.drop_last()).push((fs.len() - 1) as usize)
    } else {
        test_indices(fs.drop_last())
    }
}

/// The parameter types of the functions that invariant sequences call, in order.
pub open spec fn target_params(fs: Seq<FunctionSig>) -> Seq<Seq<ParamKind>>
    decreases fs.len(),
{
    if fs.len() == 0 {
        Seq::empty()
    } else if !is_test_fn(fs.last()) {
        target_params(fs.drop_last()).push(fs.last().params@)
    } else {
        target_params(fs.drop_last())
    }
}

/// Whether `exec` answers for every function and arguments.
pub open spec fn exec_total<E: Fn(usize, &Vec<Vec<u8>>) -> Trial>(exec: E) -> bool {
    forall|i: usize, a: &Vec<Vec<u8>>| #[trigger] exec.requires((i, a))
}

/// Whether `exec` gives the same trial for the same function and argument contents.
pub open spec fn exec_deterministic<E: Fn(usize, &Vec<Vec<u8>>) -> Trial>(exec: E) -> bool {
    forall|i: usize, a: &Vec<Vec<u8>>, b: &Vec<Vec<u8>>, s: Trial, t: Trial|
        #[trigger] exec.ensures((i, a), s) && #[trigger] exec.ensures((i, b), t) && views(a@) == views(b@) ==> s == t
}

/// Whether calling function `i` on arguments with contents `a` was seen to fail for `reason`.
pub open spec fn exec_fails<E: Fn(usize, &Vec<Vec<u8>>) -> Trial>(exec: E, i: usize, a: Seq<Seq<u8>>, reason: FailureReason) -> bool {
    exists|v: &Vec<Vec<u8>>, t: Trial| #[trigger] exec.ensures((i, v), t) && views(v@) == a && t.outcome == Outcome::Fail(reason)
}

/// Whether `v` is the verdict of unit test `i`: the verdict of a trial that
/// calling it without arguments was seen to give.
pub open spec fn exec_unit_verdict<E: Fn(usize, &Vec<Vec<u8>>) -> Trial>(exec: E, i: usize, v: Verdict) -> bool {
    exists|a: &Vec<Vec<u8>>, t: Trial|
        #[trigger] exec.ensures((i, a), t) && views(a@) == Seq::<Seq<u8>>::empty() && v == unit_verdict(t)
}

/// Whether `replay` answers for every invariant and sequence.
pub open spec fn replay_at_total<R: Fn(usize, &Vec<Call>) -> SequenceOutcome>(replay: R) -> bool {
    forall|i: usize, cs: &Vec<Call>| #[trigger] replay.requires((i, cs))
}

/// Whether `replay` gives the same outcome for the same invariant and sequence contents.
pub open spec fn replay_at_deterministic<R: Fn(usize, &Vec<Call>) -> SequenceOutcome>(replay: R) -> bool {
    forall|i: usize, a: &Vec<Call>, b: &Vec<Call>, s: SequenceOutcome, t: SequenceOutcome|
        #[trigger] replay.ensures((i, a), s) && #[trigger] replay.ensures((i, b), t) && calls_view(a@) == calls_view(b@) ==> s == t
}

/// Whether `replay` runs the calls of each sequence in order from the
/// baseline: a prefix that holds the failing call fails at that same call.
pub open spec fn replay_at_prefix_closed<R: Fn(usize, &Vec<Call>) -> SequenceOutcome>(replay: R, fail_on_revert: bool) -> bool {
    forall|i: usize, v: &Vec<Call>, o: SequenceOutcome, w: &Vec<Call>, p: SequenceOutcome|
        #[trigger] replay.ensures((i, v), o) && #[trigger] replay.ensures((i, w), p)
            && calls_view(w@) == calls_view(v@).take(calls_view(w@).len() as int)
            && (match failure_of(o, fail_on_revert) { Some((_, at)) => at < calls_view(w@).len(), None => false })
            ==> failure_of(p, fail_on_revert) == failure_of(o, fail_on_revert)
}

/// Whether replaying a sequence with contents `cs` against invariant `i` was
/// seen to fail within it for `reason`.
pub open spec fn replay_fails<R: Fn(usize, &Vec<Call>) -> SequenceOutcome>(
    replay: R,
    i: usize,
    cs: Seq<(u32, Seq<Seq<u8>>)>,
    fail_on_revert: bool,
    reason: FailureReason,
) -> bool {
    exists|v: &Vec<Call>, o: SequenceOutcome|
        #[trigger] replay.ensures((i, v), o) && calls_view(v@) == cs && fails_within(o, fail_on_revert, reason, cs.len())
}

/// The verdict on a test, or the note that it was skipped as malformed.
#[derive(Debug, Clone, Copy, PartialEq, Eq, Structural)]
pub enum TestVerdict {
    Ran(Verdict),
    Skipped,
}

/// The result of one test of a contract.
pub struct TestResult {
    /// The index of the test function.
    pub function: usize,
    /// How the function was classified.
    pub kind: Classification,
    /// The verdict.
    pub verdict: TestVerdict,
    /// For a failed unit or fuzz test, the shrunk failing arguments.
    pub counterexample: Option<Vec<Vec<u8>>>,
    /// For a failed invariant test, the shrunk failing call sequence.
    pub sequence: Option<Vec<Call>>,
    /// Gas used by passing executions.
    pub gas_samples: Vec<u64>,
}

/// Whether `r` is a sound result for test function `i`.
pub open spec fn result_ok<E: Fn(usize, &Vec<Vec<u8>>) -> Trial, R: Fn(usize, &Vec<Call>) -> SequenceOutcome>(
    r: TestResult,
    fs: Seq<FunctionSig>,
    i: usize,
    exec: E,
    replay: R,
    fail_on_revert: bool,
) -> bool {
    &&& r.function == i
    &&& r.kind == class_of(fs[i as int].name@, fs[i as int].params@.len())
    &&& (r.kind == Classification::Malformed <==> r.verdict == TestVerdict::Skipped)
    &&& (r.kind == Classification::Test(TestKind::Unit) ==> exists|v: Verdict|
            r.verdict == TestVerdict::Ran(v) && #[trigger] exec_unit_verdict(exec, i, v))
    &&& match r.verdict {
        TestVerdict::Ran(Verdict::Failure(reason)) => if r.kind == Classification::Test(TestKind::Invariant) {
            r.sequence is Some && r.counterexample is None
                && replay_fails(replay, i, calls_view(r.sequence->0@), fail_on_revert, reason)
        } else {
            r.counterexample is Some && r.sequence is None
                && exec_fails(exec, i, views(r.counterexample->0@), reason)
        },
        _ => r.counterexample is None && r.sequence is None,
    }
}

fn fuzz_one<E: Fn(usize, &Vec<Vec<u8>>) -> Trial>(
    exec: &E,
    i: usize,
    params: &Vec<ParamKind>,
    pool: &Vec<Vec<u8>>,
    options: &TestOptions,
    fresh_seed: [u8; 32],
) -> (r: (Verdict, Option<Vec<Vec<u8>>>, Vec<u64>))
    requires
        exec_total(*exec),
        exec_deterministic(*exec),
        forall|k: int| 0 <= k < params@.len() ==> kind_ok(#[trigger] params@[k]),
    ensures
        match r.0 {
            Verdict::Failure(reason) => r.1 is Some && exec_fails(*exec, i, views(r.1->0@), reason),
            _ => r.1 is None,
        },
        params@.len() == 0 ==> exec_unit_verdict(*exec, i, r.0),
{
    let f = |a: &Vec<Vec<u8>>| -> (t: Trial)
        ensures
            exec.ensures((i, a), t),
    {
        exec(i, a)
    };
    assert forall|a: &Vec<Vec<u8>>| #[trigger] f.requires((a,)) by {
        assert(exec.requires((i, a)));
    }
    assert forall|a: &Vec<Vec<u8>>, b: &Vec<Vec<u8>>, s: Trial, t: Trial|
        #[trigger] f.ensures((a,), s) && #[trigger] f.ensures((b,), t) && views(a@) == views(b@) implies s == t by {
        assert(exec.ensures((i, a), s) && exec.ensures((i, b), t));
    }
    let report = if params.len() == 0 {
        let rep = run_unit(&f);
        if let Verdict::Failure(reason) = rep.verdict {
            assert(views(rep.counterexample->0@) =~= Seq::<Seq<u8>>::empty());
        }
        proof {
            let t = choose|t: Trial| #[trigger] gives(f, Seq::empty(), t) && rep.verdict == unit_verdict(t);
            let v = choose|v: &Vec<Vec<u8>>| #[trigger] f.ensures((v,), t) && views(v@) == Seq::<Seq<u8>>::empty();
            assert(exec.ensures((i, v), t));
        }
        rep
    } else {
        let fuzzer = options.fuzzer(fresh_seed);
        let mut rng = SeededRng::from_seed(derive_test_seed(&fuzzer.seed, i as u64));
        run_fuzz(&f, fuzzer.config, params, pool, &mut rng)
    };
    match report.verdict {
        Verdict::Failure(reason) => {
            let c = report.counterexample.unwrap();
            assert(crate::outcome::fails_with(f, views(c@), reason));
            proof {
                let (v, t) = choose|v: &Vec<Vec<u8>>, t: Trial|
                    #[trigger] f.ensures((v,), t) && views(v@) == views(c@) && t.outcome == Outcome::Fail(reason);
                assert(exec.ensures((i, v), t));
            }
            (report.verdict, Some(c), report.gas_samples)
        },
        _ => (report.verdict, None, report.gas_samples),
    }
}

fn invariant_one<R: Fn(usize, &Vec<Call>) -> SequenceOutcome>(
    replay: &R,
    i: usize,
    targets: &Vec<Vec<ParamKind>>,
    pool: &Vec<Vec<u8>>,
    options: &TestOptions,
    fresh_seed: [u8; 32],
) -> (r: (Verdict, Option<Vec<Call>>))
    requires
        replay_at_total(*replay),
        replay_at_deterministic(*replay),
        replay_at_prefix_closed(*replay, options.invariant_fail_on_revert),
        targets@.len() < u32::MAX,
        targets_ok(targets@.map_values(|k: Vec<ParamKind>| k@)),
    ensures
        match r.0 {
            Verdict::Failure(reason) => r.1 is Some
                && replay_fails(*replay, i, calls_view(r.1->0@), options.invariant_fail_on_revert, reason),
            _ => r.1 is None,
        },
{
    let g = |cs: &Vec<Call>| -> (o: SequenceOutcome)
        ensures
            replay.ensures((i, cs), o),
    {
        replay(i, cs)
    };
    assert forall|cs: &Vec<Call>| #[trigger] g.requires((cs,)) by {
        assert(replay.requires((i, cs)));
    }
    assert forall|a: &Vec<Call>, b: &Vec<Call>, s: SequenceOutcome, t: SequenceOutcome|
        #[trigger] g.ensures((a,), s) && #[trigger] g.ensures((b,), t) && calls_view(a@) == calls_view(b@) implies s == t by {
        assert(replay.ensures((i, a), s) && replay.ensures((i, b), t));
    }
    let cfg = options.invariant_config();
    assert forall|v: &Vec<Call>, o: SequenceOutcome, w: &Vec<Call>, p: SequenceOutcome|
        #[trigger] g.ensures((v,), o) && #[trigger] g.ensures((w,), p)
            && calls_view(w@) == calls_view(v@).take(calls_view(w@).len() as int)
            && (match failure_of(o, cfg.fail_on_revert) { Some((_, at)) => at < calls_view(w@).len(), None => false })
        implies failure_of(p, cfg.fail_on_revert) == failure_of(o, cfg.fail_on_revert) by {
        assert(replay.ensures((i, v), o) && replay.ensures((i, w), p));
    }
    let fuzzer = options.fuzzer(fresh_seed);
    let mut rng = SeededRng::from_seed(derive_test_seed(&fuzzer.seed, i as u64));
    let report = run_campaign(&g, cfg, targets, pool, &mut rng);
    match report.verdict {
        Verdict::Failure(reason) => {
            let c = report.counterexample.unwrap();
            proof {
                let (v, o) = choose|v: &Vec<Call>, o: SequenceOutcome|
                    #[trigger] g.ensures((v,), o) && calls_view(v@) == calls_view(c@)
                        && fails_within(o, cfg.fail_on_revert, reason, calls_view(c@).len());
                assert(replay.ensures((i, v), o));
            }
            (report.verdict, Some(c))
        },
        _ => (report.verdict, None),
    }
}

/// Runs the tests of one contract in declaration order. `exec(i, args)` calls
/// function `i` on `args` from the contract's baseline state; `replay(i, calls)`
/// replays a call sequence from the baseline and checks invariant function `i`
/// after each call, where a call's target is an index into the non-test
/// functions, in declaration order. Unit tests run once; fuzz tests and
/// invariant tests draw from a seed of their own, derived from the options'
/// seed (or `fresh_seed` where the options give none) and the test's index;
/// malformed tests are skipped.
pub fn run_contract<E: Fn(usize, &Vec<Vec<u8>>) -> Trial, R: Fn(usize, &Vec<Call>) -> SequenceOutcome>(
    functions: &Vec<FunctionSig>,
    options: &TestOptions,
    fresh_seed: [u8; 32],
    pool: &Vec<Vec<u8>>,
    exec: &E,
    replay: &R,
) -> (r: Vec<TestResult>)
    requires
        functions@.len() < u32::MAX,
        forall|f: int, k: int| 0 <= f < functions@.len() && 0 <= k < functions@[f].params@.len()
            ==> kind_ok(#[trigger] functions@[f].params@[k]),
        exec_total(*exec),
        exec_deterministic(*exec),
        replay_at_total(*replay),
        replay_at_deterministic(*replay),
        replay_at_prefix_closed(*replay, options.invariant_fail_on_revert),
    ensures
        r@.len() == test_indices(functions@).len(),
        forall|k: int| 0 <= k < r@.len() ==> result_ok(#[trigger] r@[k], functions@, test_indices(functions@)[k],
            *exec, *replay, options.invariant_fail_on_revert),
{
    let mut targets: Vec<Vec<ParamKind>> = Vec::new();
    let mut i: usize = 0;
    while i < functions.len()
        invariant
            i <= functions@.len() < u32::MAX,
            targets@.len() <= i,
            forall|f: int, k: int| 0 <= f < functions@.len() && 0 <= k < functions@[f].params@.len()
                ==> kind_ok(#[trigger] functions@[f].params@[k]),
            targets_ok(targets@.map_values(|k: Vec<ParamKind>| k@)),
        decreases functions@.len() - i,
    {
        if classify(functions[i].name.as_str(), functions[i].params.len()) == Classification::Target {
            let ghost prev = targets@;
            targets.push(functions[i].params.clone());
            assert(targets@.map_values(|k: Vec<ParamKind>| k@) =~= prev.map_values(|k: Vec<ParamKind>| k@).push(functions@[i as int].params@));
        }
        i = i + 1;
    }
    let mut results: Vec<TestResult> = Vec::new();
    let mut j: usize = 0;
    while j < functions.len()
        invariant
            j <= functions@.len() < u32::MAX,
            targets@.len() < u32::MAX,
            forall|f: int, k: int| 0 <= f < functions@.len() && 0 <= k < functions@[f].params@.len()
                ==> kind_ok(#[trigger] functions@[f].params@[k]),
            targets_ok(targets@.map_values(|k: Vec<ParamKind>| k@)),
            exec_total(*exec),
            exec_deterministic(*exec),
            replay_at_total(*replay),
            replay_at_deterministic(*replay),
            replay_at_prefix_closed(*replay, options.invariant_fail_on_revert),
            results@.len() == test_indices(functions@.take(j as int)).len(),
            forall|k: int| 0 <= k < results@.len() ==> result_ok(#[trigger] results@[k], functions@,
                test_indices(functions@.take(j as int))[k], *exec, *replay, options.invariant_fail_on_revert),
        decreases functions@.len() - j,
    {
        let f = &functions[j];
        let kind = classify(f.name.as_str(), f.params.len());
        let ghost prev = results@;
        proof {
            let t = functions@.take(j + 1);
            assert(t.drop_last() =~= functions@.take(j as int));
            assert(t.last() == functions@[j as int]);
        }
        match kind {
            Classification::Target => {},
            Classification::Malformed => {
                results.push(TestResult {
                    function: j,
                    kind,
                    verdict: TestVerdict::Skipped,
                    counterexample: None,
                    sequence: None,
                    gas_samples: Vec::new(),
                });
            },
            Classification::Test(TestKind::Invariant) => {
                let (v, seq) = invariant_one(replay, j, &targets, pool, options, fresh_seed);
                results.push(TestResult {
                    function: j,
                    kind,
                    verdict: TestVerdict::Ran(v),
                    counterexample: None,
                    sequence: seq,
                    gas_samples: Vec::new(),
                });
            },
            Classification::Test(_) => {
                assert forall|k: int| 0 <= k < f.params@.len() implies kind_ok(#[trigger] f.params@[k]) by {
                    assert(kind_ok(functions@[j as int].params@[k]));
                }
                let (v, cex, gas) = fuzz_one(exec, j, &f.params, pool, options, fresh_seed);
                results.push(TestResult {
                    function: j,
                    kind,
                    verdict: TestVerdict::Ran(v),
                    counterexample: cex,
                    sequence: None,
                    gas_samples: gas,
                });
            },
        }
        proof {
            let ti = test_indices(functions@.take(j + 1));
            assert forall|k: int| 0 <= k < results@.len() implies result_ok(#[trigger] results@[k], functions@,
                ti[k], *exec, *replay, options.invariant_fail_on_revert) by {
                if k < prev.len() {
                    assert(results@[k] == prev[k]);
                }
            }
        }
        j = j + 1;
    }
    assert(functions@.take(functions@.len() as int) =~= functions@);
    results
}

} // verus!
