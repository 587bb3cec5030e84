use vstd::prelude::*;
use crate::gen::{ParamKind, gen_args, generate_args, kind_ok, views};
use crate::outcome::{FailureReason, Outcome, Trial, deterministic, fails_with, total};
use crate::rng::{SeededRng, StreamPos};
use crate::shrink::{no_larger, shrink_args, shrink_done};

verus! {

/// How a fuzz campaign runs.
#[derive(Debug, Clone, Copy, PartialEq, Eq, Structural)]
pub struct FuzzConfig {
    /// Passing trials needed for success.
    pub runs: u32,
    /// Rejections in a row after which the campaign gives up.
    pub max_local_rejects: u32,
    /// Rejections in all after which the campaign gives up.
    pub max_global_rejects: u32,
    /// Executions that the shrinker may spend on a failure.
    pub max_shrink_attempts: u64,
}

/// The verdict on a test.
#[derive(Debug, Clone, Copy, PartialEq, Eq, Structural)]
pub enum Verdict {
    /// Every trial passed.
    Success,
    /// A trial failed for the given reason.
    Failure(FailureReason),
    /// Preconditions rejected more arguments than the budget allows.
    RejectionExhausted,
}

/// Whether `run` was seen to give `t` on arguments with contents `a`.
pub open spec fn gives<F: Fn(&Vec<Vec<u8>>) -> Trial>(run: F, a: Seq<Seq<u8>>, t: Trial) -> bool {
    exists|v: &Vec<Vec<u8>>| #[trigger] run.ensures((v,), t) && views(v@) == a
}

/// The trial that a deterministic `run` gives on arguments with contents `a`.
pub open spec fn trial_of<F: Fn(&Vec<Vec<u8>>) -> Trial>(run: F, a: Seq<Seq<u8>>) -> Trial {
    choose|t: Trial| #[trigger] gives(run, a, t)
}

/// Where a campaign stands: its stream, and its passes, rejections, and
/// rejections since the last pass.
pub struct FuzzState {
    pub s: StreamPos,
    pub passes: nat,
    pub rejects: nat,
    pub streak: nat,
}

/// What a campaign comes to: the verdict and the arguments tried, in order.
pub struct FuzzRun {
    pub verdict: Verdict,
    pub inputs: Seq<Seq<Seq<u8>>>,
}

/// The rest of a campaign from state `st`: draw arguments, run the test; a pass
/// counts toward `runs`, a rejection toward both budgets, a failure ends it.
#[verifier::opaque]
pub open spec fn fuzz_from<F: Fn(&Vec<Vec<u8>>) -> Trial>(
    cfg: FuzzConfig,
    kinds: Seq<ParamKind>,
    pool: Seq<Seq<u8>>,
    run: F,
    st: FuzzState,
) -> FuzzRun
    decreases cfg.runs - st.passes, cfg.max_global_rejects - st.rejects,
{
    if st.passes >= cfg.runs {
        FuzzRun { verdict: Verdict::Success, inputs: Seq::empty() }
    } else {
        let (a, s1) = gen_args(kinds, pool, st.s);
        match trial_of(run, a).outcome {
            Outcome::Pass => {
                let rest = fuzz_from(cfg, kinds, pool, run, FuzzState { s: s1, passes: st.passes + 1, rejects: st.rejects, streak: 0 });
                FuzzRun { verdict: rest.verdict, inputs: seq![a] + rest.inputs }
            },
            Outcome::Fail(r) => FuzzRun { verdict: Verdict::Failure(r), inputs: seq![a] },
            Outcome::Rejected => if st.rejects + 1 > cfg.max_global_rejects || st.streak + 1 > cfg.max_local_rejects {
                FuzzRun { verdict: Verdict::RejectionExhausted, inputs: seq![a] }
            } else {
                let rest = fuzz_from(cfg, kinds, pool, run, FuzzState { s: s1, passes: st.passes, rejects: st.rejects + 1, streak: st.streak + 1 });
                FuzzRun { verdict: rest.verdict, inputs: seq![a] + rest.inputs }
            },
        }
    }
}

/// A whole campaign from stream position `s`.
pub open spec fn fuzz_spec<F: Fn(&Vec<Vec<u8>>) -> Trial>(
    cfg: FuzzConfig,
    kinds: Seq<ParamKind>,
    pool: Seq<Seq<u8>>,
    run: F,
    s: StreamPos,
) -> FuzzRun {
    fuzz_from(cfg, kinds, pool, run, FuzzState { s, passes: 0, rejects: 0, streak: 0 })
}

/// One step of a campaign: a finished one succeeds; otherwise the drawn
/// arguments are run and the campaign ends or goes on as they decide.
pub proof fn lemma_fuzz_step<F: Fn(&Vec<Vec<u8>>) -> Trial>(
    cfg: FuzzConfig,
    kinds: Seq<ParamKind>,
    pool: Seq<Seq<u8>>,
    run: F,
    st: FuzzState,
)
    ensures
        st.passes >= cfg.runs ==> fuzz_from(cfg, kinds, pool, run, st)
            == (FuzzRun { verdict: Verdict::Success, inputs: Seq::empty() }),
        st.passes < cfg.runs ==> ({
            let (a, s1) = gen_args(kinds, pool, st.s);
            let pass_rest = fuzz_from(cfg, kinds, pool, run, FuzzState { s: s1, passes: st.passes + 1, rejects: st.rejects, streak: 0 });
            let rej_rest = fuzz_from(cfg, kinds, pool, run, FuzzState { s: s1, passes: st.passes, rejects: st.rejects + 1, streak: st.streak + 1 });
            fuzz_from(cfg, kinds, pool, run, st) == match trial_of(run, a).outcome {
                Outcome::Pass => FuzzRun { verdict: pass_rest.verdict, inputs: seq![a] + pass_rest.inputs },
                Outcome::Fail(r) => FuzzRun { verdict: Verdict::Failure(r), inputs: seq![a] },
                Outcome::Rejected => if st.rejects + 1 > cfg.max_global_rejects || st.streak + 1 > cfg.max_local_rejects {
                    FuzzRun { verdict: Verdict::RejectionExhausted, inputs: seq![a] }
                } else {
                    FuzzRun { verdict: rej_rest.verdict, inputs: seq![a] + rej_rest.inputs }
                },
            }
        }),
{
    reveal(fuzz_from);
}

/// The report of a fuzz campaign.
pub struct FuzzReport {
    /// The verdict.
    pub verdict: Verdict,
    /// On failure, the arguments that first failed.
    pub failing_input: Option<Vec<Vec<u8>>>,
    /// On failure, the shrunk arguments that still fail.
    pub counterexample: Option<Vec<Vec<u8>>>,
    /// Whether the shrinker ran out of attempts before it settled.
    pub shrink_exhausted: bool,
    /// The gas used by each passing trial, in order.
    pub gas_samples: Vec<u64>,
    /// The arguments tried, in order.
    pub inputs: Ghost<Seq<Seq<Seq<u8>>>>,
}

/// The trial that a deterministic run was seen to give is the one it gives.
pub proof fn lemma_trial_of<F: Fn(&Vec<Vec<u8>>) -> Trial>(run: F, v: &Vec<Vec<u8>>, t: Trial)
    requires
        deterministic(run),
        run.ensures((v,), t),
    ensures
        trial_of(run, views(v@)) == t,
{
    let a = views(v@);
    assert(gives(run, a, t));
    let t2 = trial_of(run, a);
    assert(gives(run, a, t2));
    let w = choose|w: &Vec<Vec<u8>>| #[trigger] run.ensures((w,), t2) && views(w@) == a;
}

/// Runs a fuzz campaign of the test `run` over parameters `kinds`, drawing
/// arguments from `rng` (addresses partly from `pool`). On failure the failing
/// arguments are shrunk.
#[verifier::rlimit(40)]
pub fn run_fuzz<F: Fn(&Vec<Vec<u8>>) -> Trial>(
    run: &F,
    cfg: FuzzConfig,
    kinds: &Vec<ParamKind>,
    pool: &Vec<Vec<u8>>,
    rng: &mut SeededRng,
) -> (r: FuzzReport)
    requires
        total(*run),
        deterministic(*run),
        old(rng).wf(),
        forall|i: int| 0 <= i < kinds@.len() ==> kind_ok(#[trigger] kinds@[i]),
    ensures
        final(rng).wf(),
        r.verdict == fuzz_spec(cfg, kinds@, views(pool@), *run, old(rng)@).verdict,
        r.inputs@ == fuzz_spec(cfg, kinds@, views(pool@), *run, old(rng)@).inputs,
        match r.verdict {
            Verdict::Failure(reason) => r.failing_input is Some && r.counterexample is Some
                && views(r.failing_input->0@) == r.inputs@.last()
                && fails_with(*run, views(r.failing_input->0@), reason)
                && fails_with(*run, views(r.counterexample->0@), reason)
                && no_larger(views(r.counterexample->0@), views(r.failing_input->0@))
                && (!r.shrink_exhausted ==> shrink_done(*run, kinds@, views(r.counterexample->0@), reason)),
            _ => r.failing_input is None && r.counterexample is None,
        },
{
    let ghost s0 = old(rng)@;
    let ghost whole = fuzz_spec(cfg, kinds@, views(pool@), *run, s0);
    let mut passes: u32 = 0;
    let mut rejects: u32 = 0;
    let mut streak: u32 = 0;
    let mut gas_samples: Vec<u64> = Vec::new();
    let ghost mut seen: Seq<Seq<Seq<u8>>> = Seq::empty();
    loop
        invariant
            total(*run),
            deterministic(*run),
            rng.wf(),
            forall|i: int| 0 <= i < kinds@.len() ==> kind_ok(#[trigger] kinds@[i]),
            passes <= cfg.runs,
            rejects <= cfg.max_global_rejects,
            streak <= cfg.max_local_rejects,
            s0 == old(rng)@,
            whole == fuzz_spec(cfg, kinds@, views(pool@), *run, s0),
            whole.verdict == fuzz_from(cfg, kinds@, views(pool@), *run,
                FuzzState { s: rng@, passes: passes as nat, rejects: rejects as nat, streak: streak as nat }).verdict,
            whole.inputs == seen + fuzz_from(cfg, kinds@, views(pool@), *run,
                FuzzState { s: rng@, passes: passes as nat, rejects: rejects as nat, streak: streak as nat }).inputs,
        decreases cfg.runs - passes, cfg.max_global_rejects - rejects,
    {
        let ghost st = FuzzState { s: rng@, passes: passes as nat, rejects: rejects as nat, streak: streak as nat };
        proof {
            lemma_fuzz_step(cfg, kinds@, views(pool@), *run, st);
        }
        if passes >= cfg.runs {
            assert(fuzz_from(cfg, kinds@, views(pool@), *run, st).verdict == Verdict::Success);
            assert(fuzz_from(cfg, kinds@, views(pool@), *run, st).inputs == Seq::<Seq<Seq<u8>>>::empty());
            assert(seen + Seq::<Seq<Seq<u8>>>::empty() =~= seen);
            return FuzzReport {
                verdict: Verdict::Success,
                failing_input: None,
                counterexample: None,
                shrink_exhausted: false,
                gas_samples,
                inputs: Ghost(seen),
            };
        }
        let args = generate_args(kinds, pool, rng);
        let t = run(&args);
        proof {
            lemma_trial_of(*run, &args, t);
        }
        let ghost a = views(args@);
        match t.outcome {
            Outcome::Pass => {
                gas_samples.push(t.gas_used);
                proof {
                    let rest = fuzz_from(cfg, kinds@, views(pool@), *run,
                        FuzzState { s: rng@, passes: passes as nat + 1, rejects: rejects as nat, streak: 0 });
                    assert(seen + (seq![a] + rest.inputs) =~= seen.push(a) + rest.inputs);
                    seen = seen.push(a);
                }
                passes = passes + 1;
                streak = 0;
            },
            Outcome::Fail(reason) => {
                proof {
                    assert(seen + seq![a] =~= seen.push(a));
                    seen = seen.push(a);
                    assert(fails_with(*run, a, reason));
                }
                let first = crate::shrink::copy_args(&args);
                let (small, exhausted) = shrink_args(run, kinds, args, reason, cfg.max_shrink_attempts);
                return FuzzReport {
                    verdict: Verdict::Failure(reason),
                    failing_input: Some(first),
                    counterexample: Some(small),
                    shrink_exhausted: exhausted,
                    gas_samples,
                    inputs: Ghost(seen),
                };
            },
            Outcome::Rejected => {
                if rejects >= cfg.max_global_rejects || streak >= cfg.max_local_rejects {
                    proof {
                        assert(seen + seq![a] =~= seen.push(a));
                        seen = seen.push(a);
                    }
                    return FuzzReport {
                        verdict: Verdict::RejectionExhausted,
                        failing_input: None,
                        counterexample: None,
                        shrink_exhausted: false,
                        gas_samples,
                        inputs: Ghost(seen),
                    };
                }
                proof {
                    let rest = fuzz_from(cfg, kinds@, views(pool@), *run,
                        FuzzState { s: rng@, passes: passes as nat, rejects: rejects as nat + 1, streak: streak as nat + 1 });
                    assert(seen + (seq![a] + rest.inputs) =~= seen.push(a) + rest.inputs);
                    seen = seen.push(a);
                }
                rejects = rejects + 1;
                streak = streak + 1;
            },
        }
    }
}

/// Two campaigns with the same configuration, test and seed draw the same
/// arguments in the same order and reach the same verdict.
pub proof fn lemma_fuzz_reproducible<F: Fn(&Vec<Vec<u8>>) -> Trial>(
    cfg: FuzzConfig,
    kinds: Seq<ParamKind>,
    pool: Seq<Seq<u8>>,
    run: F,
    seed: Seq<u8>,
    r1: FuzzReport,
    r2: FuzzReport,
)
    requires
        r1.verdict == fuzz_spec(cfg, kinds, pool, run, StreamPos::start(seed)).verdict,
        r1.inputs@ == fuzz_spec(cfg, kinds, pool, run, StreamPos::start(seed)).inputs,
        r2.verdict == fuzz_spec(cfg, kinds, pool, run, StreamPos::start(seed)).verdict,
        r2.inputs@ == fuzz_spec(cfg, kinds, pool, run, StreamPos::start(seed)).inputs,
    ensures
        r1.verdict == r2.verdict,
        r1.inputs@ == r2.inputs@,
{
}

/// Whether `run` gives some trial on arguments with contents `a`.
pub open spec fn answers<F: Fn(&Vec<Vec<u8>>) -> Trial>(run: F, a: Seq<Seq<u8>>) -> bool {
    exists|t: Trial| #[trigger] gives(run, a, t)
}

/// Whether `run` rejects every list of arguments, and answers on each.
pub open spec fn always_rejects<F: Fn(&Vec<Vec<u8>>) -> Trial>(run: F) -> bool {
    &&& forall|a: Seq<Seq<u8>>| #[trigger] answers(run, a)
    &&& forall|v: &Vec<Vec<u8>>, t: Trial| #[trigger] run.ensures((v,), t) ==> t.outcome == Outcome::Rejected
}

proof fn lemma_rejecting_from<F: Fn(&Vec<Vec<u8>>) -> Trial>(
    cfg: FuzzConfig,
    kinds: Seq<ParamKind>,
    pool: Seq<Seq<u8>>,
    run: F,
    st: FuzzState,
)
    requires
        always_rejects(run),
        st.passes < cfg.runs,
        st.rejects <= cfg.max_global_rejects,
    ensures
        fuzz_from(cfg, kinds, pool, run, st).verdict == Verdict::RejectionExhausted,
        fuzz_from(cfg, kinds, pool, run, st).inputs.len() <= cfg.max_global_rejects - st.rejects + 1,
    decreases cfg.max_global_rejects - st.rejects,
{
    lemma_fuzz_step(cfg, kinds, pool, run, st);
    let (a, s1) = gen_args(kinds, pool, st.s);
    assert(answers(run, a));
    let t = trial_of(run, a);
    assert(gives(run, a, t));
    if !(st.rejects + 1 > cfg.max_global_rejects || st.streak + 1 > cfg.max_local_rejects) {
        lemma_rejecting_from(cfg, kinds, pool, run,
            FuzzState { s: s1, passes: st.passes, rejects: st.rejects + 1, streak: st.streak + 1 });
    }
}

/// A test whose precondition rejects every input ends, once the rejection
/// budget is spent, in `RejectionExhausted`, and never in success; it is run
/// at most `max_global_rejects + 1` times.
pub proof fn lemma_all_rejected_exhausts<F: Fn(&Vec<Vec<u8>>) -> Trial>(
    cfg: FuzzConfig,
    kinds: Seq<ParamKind>,
    pool: Seq<Seq<u8>>,
    run: F,
    s: StreamPos,
)
    requires
        always_rejects(run),
        cfg.runs > 0,
    ensures
        fuzz_spec(cfg, kinds, pool, run, s).verdict == Verdict::RejectionExhausted,
        fuzz_spec(cfg, kinds, pool, run, s).inputs.len() <= cfg.max_global_rejects + 1,
{
    lemma_rejecting_from(cfg, kinds, pool, run, FuzzState { s, passes: 0, rejects: 0, streak: 0 });
}

/// The verdict of a unit test whose single execution came to `t`.
pub open spec fn unit_verdict(t: Trial) -> Verdict {
    match t.outcome {
        Outcome::Pass => Verdict::Success,
        Outcome::Fail(r) => Verdict::Failure(r),
        Outcome::Rejected => Verdict::RejectionExhausted,
    }
}

/// Runs a test without parameters once.
pub fn run_unit<F: Fn(&Vec<Vec<u8>>) -> Trial>(run: &F) -> (r: FuzzReport)
    requires
        total(*run),
        deterministic(*run),
    ensures
        r.verdict == unit_verdict(trial_of(*run, Seq::empty())),
        exists|t: Trial| #[trigger] gives(*run, Seq::empty(), t) && r.verdict == unit_verdict(t),
        r.inputs@ == seq![Seq::<Seq<u8>>::empty()],
        match r.verdict {
            Verdict::Failure(reason) => r.failing_input is Some && r.counterexample is Some
                && r.failing_input->0@.len() == 0 && r.counterexample->0@.len() == 0
                && fails_with(*run, Seq::empty(), reason),
            _ => r.failing_input is None && r.counterexample is None,
        },
{
    let args: Vec<Vec<u8>> = Vec::new();
    let t = run(&args);
    proof {
        assert(views(args@) =~= Seq::<Seq<u8>>::empty());
        lemma_trial_of(*run, &args, t);
        assert(gives(*run, Seq::empty(), t));
    }
    let mut gas_samples: Vec<u64> = Vec::new();
    let ghost one: Seq<Seq<Seq<u8>>> = seq![Seq::empty()];
    match t.outcome {
        Outcome::Pass => {
            gas_samples.push(t.gas_used);
            FuzzReport { verdict: Verdict::Success, failing_input: None, counterexample: None, shrink_exhausted: false, gas_samples, inputs: Ghost(one) }
        },
        Outcome::Fail(reason) => {
            assert(fails_with(*run, views(args@), reason));
            FuzzReport {
                verdict: Verdict::Failure(reason),
                failing_input: Some(Vec::new()),
                counterexample: Some(args),
                shrink_exhausted: false,
                gas_samples,
                inputs: Ghost(one),
            }
        },
        Outcome::Rejected => FuzzReport {
            verdict: Verdict::RejectionExhausted,
            failing_input: None,
            counterexample: None,
            shrink_exhausted: false,
            gas_samples,
            inputs: Ghost(one),
        },
    }
}

proof fn lemma_unit_from<F: Fn(&Vec<Vec<u8>>) -> Trial>(
    cfg: FuzzConfig,
    pool: Seq<Seq<u8>>,
    run: F,
    st: FuzzState,
)
    requires
        cfg.runs == 1,
        st.passes == 0,
        answers(run, Seq::empty()),
    ensures
        fuzz_from(cfg, Seq::empty(), pool, run, st).verdict == unit_verdict(trial_of(run, Seq::empty())),
    decreases cfg.max_global_rejects - st.rejects,
{
    lemma_fuzz_step(cfg, Seq::empty(), pool, run, st);
    let (a, s1) = gen_args(Seq::<ParamKind>::empty(), pool, st.s);
    assert(a == Seq::<Seq<u8>>::empty());
    let t = trial_of(run, a);
    if t.outcome == Outcome::Pass {
        lemma_fuzz_step(cfg, Seq::empty(), pool, run, FuzzState { s: s1, passes: 1, rejects: st.rejects, streak: 0 });
    } else if t.outcome == Outcome::Rejected
        && !(st.rejects + 1 > cfg.max_global_rejects || st.streak + 1 > cfg.max_local_rejects) {
        lemma_unit_from(cfg, pool, run, FuzzState { s: s1, passes: 0, rejects: st.rejects + 1, streak: st.streak + 1 });
    }
}

/// A unit test is a fuzz test with one run and no parameters: both give the
/// same verdict.
pub proof fn lemma_unit_is_single_fuzz<F: Fn(&Vec<Vec<u8>>) -> Trial>(
    cfg: FuzzConfig,
    pool: Seq<Seq<u8>>,
    run: F,
    s: StreamPos,
)
    requires
        cfg.runs == 1,
        answers(run, Seq::empty()),
    ensures
        fuzz_spec(cfg, Seq::empty(), pool, run, s).verdict == unit_verdict(trial_of(run, Seq::empty())),
{
    lemma_unit_from(cfg, pool, run, FuzzState { s, passes: 0, rejects: 0, streak: 0 });
}

} // verus!
