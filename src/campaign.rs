use vstd::prelude::*;
use crate::gen::{ParamKind, gen_args, generate_args, kind_ok, views};
use crate::outcome::FailureReason;
use crate::rng::{SeededRng, StreamPos};
use crate::fuzz::Verdict;

verus! {

/// One call of a sequence: the index of the target function and its arguments.
pub struct Call {
    pub target: u32,
    pub args: Vec<Vec<u8>>,
}

/// The contents of a call.
pub open spec fn call_view(c: Call) -> (u32, Seq<Seq<u8>>) {
    (c.target, views(c.args@))
}

/// The contents of a call sequence.
pub open spec fn calls_view(cs: Seq<Call>) -> Seq<(u32, Seq<Seq<u8>>)> {
    cs.map_values(|c: Call| call_view(c))
}

/// What replaying a call sequence from the baseline state came to: the first
/// call that reverted and the first call after which the invariant failed.
#[derive(Debug, Clone, Copy, PartialEq, Eq, Structural)]
pub struct SequenceOutcome {
    pub first_revert: Option<usize>,
    pub first_violation: Option<usize>,
}

/// How an invariant campaign runs.
#[derive(Debug, Clone, Copy, PartialEq, Eq, Structural)]
pub struct InvariantConfig {
    /// Independent sequences to try.
    pub runs: u32,
    /// Calls in each sequence.
    pub depth: u32,
    /// Whether a reverting call fails the campaign.
    pub fail_on_revert: bool,
    /// Whether calls that the backend would refuse as unsafe are still made.
    pub call_override: bool,
    /// Replays that the shrinker may spend on a failure.
    pub max_shrink_attempts: u64,
}

/// The failure that a sequence outcome shows, and the index of the call that
/// shows it: a revert when reverts fail the campaign and it comes first, else
/// an invariant violation.
pub open spec fn failure_of(o: SequenceOutcome, fail_on_revert: bool) -> Option<(FailureReason, usize)> {
    match (o.first_revert, o.first_violation) {
        (Some(i), Some(j)) => if fail_on_revert && i <= j {
            Some((FailureReason::Revert, i))
        } else {
            Some((FailureReason::InvariantViolation, j))
        },
        (Some(i), None) => if fail_on_revert { Some((FailureReason::Revert, i)) } else { None },
        (None, Some(j)) => Some((FailureReason::InvariantViolation, j)),
        (None, None) => None,
    }
}

/// Whether `replay` answers for every call sequence.
pub open spec fn replay_total<F: Fn(&Vec<Call>) -> SequenceOutcome>(replay: F) -> bool {
    forall|cs: &Vec<Call>| #[trigger] replay.requires((cs,))
}

/// Whether `replay` gives the same outcome for sequences with the same
/// contents: each replay starts from the same baseline state.
pub open spec fn replay_deterministic<F: Fn(&Vec<Call>) -> SequenceOutcome>(replay: F) -> bool {
    forall|a: &Vec<Call>, b: &Vec<Call>, s: SequenceOutcome, t: SequenceOutcome|
        #[trigger] replay.ensures((a,), s) && #[trigger] replay.ensures((b,), t)
            && calls_view(a@) == calls_view(b@) ==> s == t
}

/// Whether an outcome shows a failure for `reason` within the first `n` calls.
pub open spec fn fails_within(o: SequenceOutcome, fail_on_revert: bool, reason: FailureReason, n: nat) -> bool {
    match failure_of(o, fail_on_revert) {
        Some((r, at)) => r == reason && at < n,
        None => false,
    }
}

/// Whether replaying a sequence with contents `cs` was seen to fail for `reason`.
pub open spec fn sequence_fails<F: Fn(&Vec<Call>) -> SequenceOutcome>(
    replay: F,
    cs: Seq<(u32, Seq<Seq<u8>>)>,
    fail_on_revert: bool,
    reason: FailureReason,
) -> bool {
    exists|v: &Vec<Call>, o: SequenceOutcome|
        #[trigger] replay.ensures((v,), o) && calls_view(v@) == cs
            && fails_within(o, fail_on_revert, reason, cs.len())
}

/// A reported counterexample replays: replaying a sequence with the same
/// contents from the baseline fails again, within it, for the same reason.
pub proof fn lemma_counterexample_replays<F: Fn(&Vec<Call>) -> SequenceOutcome>(
    replay: F,
    cs: Seq<(u32, Seq<Seq<u8>>)>,
    fail_on_revert: bool,
    reason: FailureReason,
    v: &Vec<Call>,
    o: SequenceOutcome,
)
    requires
        replay_deterministic(replay),
        sequence_fails(replay, cs, fail_on_revert, reason),
        replay.ensures((v,), o),
        calls_view(v@) == cs,
    ensures
        fails_within(o, fail_on_revert, reason, cs.len()),
{
    let (w, p) = choose|w: &Vec<Call>, p: SequenceOutcome|
        #[trigger] replay.ensures((w,), p) && calls_view(w@) == cs
            && fails_within(p, fail_on_revert, reason, cs.len());
    assert(replay.ensures((w,), p) && replay.ensures((v,), o) && calls_view(w@) == calls_view(v@));
}

fn copy_call(c: &Call) -> (r: Call)
    ensures
        call_view(r) == call_view(*c),
{
    Call { target: c.target, args: crate::shrink::copy_args(&c.args) }
}

/// The first `n` calls of a sequence, copied.
fn prefix(cs: &Vec<Call>, n: usize) -> (r: Vec<Call>)
    requires
        n <= cs@.len(),
    ensures
        calls_view(r@) == calls_view(cs@).take(n as int),
{
    let mut out: Vec<Call> = Vec::new();
    let mut i: usize = 0;
    while i < n
        invariant
            i <= n <= cs@.len(),
            calls_view(out@) == calls_view(cs@).take(i as int),
        decreases n - i,
    {
        let ghost prev = out@;
        out.push(copy_call(&cs[i]));
        assert(calls_view(out@) =~= calls_view(prev).push(call_view(cs@[i as int])));
        assert(calls_view(cs@).take(i + 1) =~= calls_view(cs@).take(i as int).push(call_view(cs@[i as int])));
        i = i + 1;
    }
    out
}

/// The sequence without its call at `k`, copied.
fn without(cs: &Vec<Call>, k: usize) -> (r: Vec<Call>)
    requires
        k < cs@.len(),
    ensures
        calls_view(r@) == calls_view(cs@).remove(k as int),
{
    let mut out: Vec<Call> = Vec::new();
    let mut i: usize = 0;
    let ghost full = calls_view(cs@);
    while i < cs.len()
        invariant
            k < cs@.len(),
            i <= cs@.len(),
            full == calls_view(cs@),
            i <= k ==> calls_view(out@) == full.take(i as int),
            i > k ==> calls_view(out@) == full.take(k as int) + full.subrange(k + 1, i as int),
        decreases cs@.len() - i,
    {
        let ghost prev = out@;
        if i != k {
            out.push(copy_call(&cs[i]));
            assert(calls_view(out@) =~= calls_view(prev).push(full[i as int]));
            if i < k {
                assert(full.take(i + 1) =~= full.take(i as int).push(full[i as int]));
            } else {
                assert(full.subrange(k + 1, i + 1) =~= full.subrange(k + 1, i as int).push(full[i as int]));
                assert(full.take(k as int) + full.subrange(k + 1, i + 1)
                    =~= (full.take(k as int) + full.subrange(k + 1, i as int)).push(full[i as int]));
            }
        } else {
            assert(full.subrange(k + 1, k + 1) =~= Seq::<(u32, Seq<Seq<u8>>)>::empty());
            assert(full.take(k as int) + full.subrange(k + 1, k + 1) =~= full.take(k as int));
        }
        i = i + 1;
    }
    assert(full.take(k as int) + full.subrange(k + 1, full.len() as int) =~= full.remove(k as int));
    out
}

/// Whether replaying a sequence with contents `cs` was seen not to fail for
/// `reason` within it.
pub open spec fn sequence_passes<F: Fn(&Vec<Call>) -> SequenceOutcome>(
    replay: F,
    cs: Seq<(u32, Seq<Seq<u8>>)>,
    fail_on_revert: bool,
    reason: FailureReason,
) -> bool {
    exists|v: &Vec<Call>, o: SequenceOutcome|
        #[trigger] replay.ensures((v,), o) && calls_view(v@) == cs
            && !fails_within(o, fail_on_revert, reason, cs.len())
}

/// Whether no call can be dropped from `cs` with the replay still failing.
pub open spec fn sequence_minimal<F: Fn(&Vec<Call>) -> SequenceOutcome>(
    replay: F,
    cs: Seq<(u32, Seq<Seq<u8>>)>,
    fail_on_revert: bool,
    reason: FailureReason,
) -> bool {
    cs.len() > 1 ==> forall|k: int| 0 <= k < cs.len()
        ==> sequence_passes(replay, #[trigger] cs.remove(k), fail_on_revert, reason)
}

/// Whether `a` is `b` with some elements left out, the rest in order.
pub open spec fn is_subseq<T>(a: Seq<T>, b: Seq<T>) -> bool {
    exists|m: Seq<int>| #[trigger] picks(m, a, b)
}

/// Whether the ascending indices `m` pick `a` out of `b`.
pub open spec fn picks<T>(m: Seq<int>, a: Seq<T>, b: Seq<T>) -> bool {
    &&& m.len() == a.len()
    &&& forall|i: int| 0 <= i < m.len() ==> 0 <= #[trigger] m[i] < b.len() && a[i] == b[m[i]]
    &&& forall|i: int, j: int| 0 <= i < j < m.len() ==> #[trigger] m[i] < #[trigger] m[j]
}

proof fn lemma_subseq_remove<T>(b: Seq<T>, k: int)
    requires
        0 <= k < b.len(),
    ensures
        is_subseq(b.remove(k), b),
{
    let a = b.remove(k);
    let m = Seq::new(a.len(), |i: int| if i < k { i } else { i + 1 });
    assert(picks(m, a, b));
}

proof fn lemma_subseq_take<T>(b: Seq<T>, n: int)
    requires
        0 <= n <= b.len(),
    ensures
        is_subseq(b.take(n), b),
{
    let m = Seq::new(n as nat, |i: int| i);
    assert(picks(m, b.take(n), b));
}

proof fn lemma_subseq_refl<T>(b: Seq<T>)
    ensures
        is_subseq(b, b),
{
    lemma_subseq_take(b, b.len() as int);
    assert(b.take(b.len() as int) =~= b);
}

proof fn lemma_subseq_trans<T>(a: Seq<T>, b: Seq<T>, c: Seq<T>)
    requires
        is_subseq(a, b),
        is_subseq(b, c),
    ensures
        is_subseq(a, c),
{
    let m1 = choose|m: Seq<int>| #[trigger] picks(m, a, b);
    let m2 = choose|m: Seq<int>| #[trigger] picks(m, b, c);
    let m = Seq::new(a.len(), |i: int| m2[m1[i]]);
    assert forall|i: int, j: int| 0 <= i < j < m.len() implies #[trigger] m[i] < #[trigger] m[j] by {
        assert(m1[i] < m1[j]);
    }
    assert forall|i: int| 0 <= i < m.len() implies 0 <= #[trigger] m[i] < c.len() && a[i] == c[m[i]] by {
        assert(0 <= m1[i] < b.len());
    }
    assert(picks(m, a, c));
}

/// Whether `replay` runs calls in order from the baseline: replaying a prefix
/// that holds the failing call of a sequence fails at that same call.
pub open spec fn prefix_closed<F: Fn(&Vec<Call>) -> SequenceOutcome>(replay: F, fail_on_revert: bool) -> bool {
    forall|v: &Vec<Call>, o: SequenceOutcome, w: &Vec<Call>, p: SequenceOutcome|
        #[trigger] replay.ensures((v,), o) && #[trigger] replay.ensures((w,), p)
            && calls_view(w@) == calls_view(v@).take(calls_view(w@).len() as int)
            && (match failure_of(o, fail_on_revert) { Some((_, at)) => at < calls_view(w@).len(), None => false })
            ==> failure_of(p, fail_on_revert) == failure_of(o, fail_on_revert)
}

/// Whether replaying a sequence with contents `cs` was seen to fail for
/// `reason` at its last call.
pub open spec fn fails_at_end<F: Fn(&Vec<Call>) -> SequenceOutcome>(
    replay: F,
    cs: Seq<(u32, Seq<Seq<u8>>)>,
    fail_on_revert: bool,
    reason: FailureReason,
) -> bool {
    exists|v: &Vec<Call>, o: SequenceOutcome|
        #[trigger] replay.ensures((v,), o) && calls_view(v@) == cs
            && failure_of(o, fail_on_revert) == Some((reason, (cs.len() - 1) as usize))
}

/// A counterexample from which no call can be dropped fails at its last call,
/// for a deterministic backend that runs calls in order: otherwise dropping
/// the last call would leave a sequence that still fails.
pub proof fn lemma_minimal_fails_at_end<F: Fn(&Vec<Call>) -> SequenceOutcome>(
    replay: F,
    cs: Seq<(u32, Seq<Seq<u8>>)>,
    fail_on_revert: bool,
    reason: FailureReason,
)
    requires
        prefix_closed(replay, fail_on_revert),
        cs.len() <= usize::MAX,
        sequence_fails(replay, cs, fail_on_revert, reason),
        sequence_minimal(replay, cs, fail_on_revert, reason),
    ensures
        fails_at_end(replay, cs, fail_on_revert, reason),
{
    let (v, o) = choose|v: &Vec<Call>, o: SequenceOutcome|
        #[trigger] replay.ensures((v,), o) && calls_view(v@) == cs
            && fails_within(o, fail_on_revert, reason, cs.len());
    let (why, at) = failure_of(o, fail_on_revert)->0;
    if at + 1 < cs.len() {
        let last = cs.len() - 1;
        assert(cs.remove(last) =~= cs.take(last));
        assert(sequence_passes(replay, cs.remove(last), fail_on_revert, reason));
        let (w, p) = choose|w: &Vec<Call>, p: SequenceOutcome|
            #[trigger] replay.ensures((w,), p) && calls_view(w@) == cs.remove(last)
                && !fails_within(p, fail_on_revert, reason, cs.remove(last).len());
        assert(calls_view(w@) == calls_view(v@).take(last));
        assert(failure_of(p, fail_on_revert) == failure_of(o, fail_on_revert));
        assert(false);
    }
    assert(replay.ensures((v,), o));
}

/// Shrinks a failing call sequence: calls are dropped one at a time, from
/// the last to the first, and the whole shorter sequence is replayed from the
/// baseline; a drop is kept where the replay still fails for `reason`, and
/// the sequence is then also tried cut after the failing call. Passes repeat
/// until no call can be dropped, or until `max_attempts` replays are spent,
/// which the second result reports.
pub fn shrink_sequence<F: Fn(&Vec<Call>) -> SequenceOutcome>(
    replay: &F,
    calls: Vec<Call>,
    fail_on_revert: bool,
    reason: FailureReason,
    max_attempts: u64,
) -> (r: (Vec<Call>, bool))
    requires
        replay_total(*replay),
        calls@.len() > 0,
        sequence_fails(*replay, calls_view(calls@), fail_on_revert, reason),
    ensures
        r.0@.len() > 0,
        r.0@.len() <= calls@.len(),
        sequence_fails(*replay, calls_view(r.0@), fail_on_revert, reason),
        !r.1 ==> sequence_minimal(*replay, calls_view(r.0@), fail_on_revert, reason),
        is_subseq(calls_view(r.0@), calls_view(calls@)),
        max_attempts >= 2 * calls@.len() * calls@.len() ==> !r.1,
{
    let ghost c0 = calls_view(calls@);
    let ghost n0: int = calls@.len() as int;
    proof { lemma_subseq_refl(c0); }
    let mut cur = calls;
    let mut attempts: u64 = 0;
    let mut starved = false;
    loop
        invariant_except_break
            attempts <= 2 * n0 * (n0 - cur@.len()),
        invariant
            replay_total(*replay),
            cur@.len() > 0,
            cur@.len() <= calls@.len(),
            sequence_fails(*replay, calls_view(cur@), fail_on_revert, reason),
            attempts <= max_attempts,
            is_subseq(calls_view(cur@), c0),
            n0 == calls@.len(),
            max_attempts >= 2 * n0 * n0 ==> !starved,
        ensures
            max_attempts >= 2 * n0 * n0 ==> !starved,
            cur@.len() > 0,
            cur@.len() <= calls@.len(),
            sequence_fails(*replay, calls_view(cur@), fail_on_revert, reason),
            !starved ==> sequence_minimal(*replay, calls_view(cur@), fail_on_revert, reason),
            is_subseq(calls_view(cur@), c0),
        decreases cur@.len(),
    {
        let ghost len0 = cur@.len();
        assert(calls_view(cur@).len() == cur@.len());
        if cur.len() <= 1 {
            break;
        }
        let mut kept = false;
        let mut k: usize = cur.len();
        let ghost pstart = attempts as int;
        while k > 0 && !kept && !starved
            invariant
                replay_total(*replay),
                cur@.len() > 0,
                cur@.len() <= calls@.len(),
                !kept ==> k <= cur@.len(),
                is_subseq(calls_view(cur@), c0),
                n0 == calls@.len(),
                1 <= len0 <= n0,
                pstart <= 2 * n0 * (n0 - len0),
                !kept ==> attempts <= pstart + (len0 - k),
                kept ==> attempts <= pstart + (len0 - k) + 1,
                max_attempts >= 2 * n0 * n0 ==> !starved,
                sequence_fails(*replay, calls_view(cur@), fail_on_revert, reason),
                attempts <= max_attempts,
                kept ==> cur@.len() < len0,
                !kept ==> cur@.len() == len0,
                !kept && !starved ==> forall|q: int| k <= q < cur@.len()
                    ==> sequence_passes(*replay, #[trigger] calls_view(cur@).remove(q), fail_on_revert, reason),
            decreases k,
        {
            k = k - 1;
            if attempts >= max_attempts {
                assert(pstart + (len0 - 1 - k) < 2 * n0 * n0) by (nonlinear_arith)
                    requires pstart <= 2 * n0 * (n0 - len0), 1 <= len0 <= n0, 0 <= k;
                starved = true;
            } else {
                let cand = without(&cur, k);
                assert(cand@.len() == calls_view(cand@).len());
                assert(cur@.len() == calls_view(cur@).len());
                let o = replay(&cand);
                attempts = attempts + 1;
                let mut fails = false;
                let mut at: usize = 0;
                if let Some((why, i)) = failure_at(o, fail_on_revert) {
                    fails = why == reason && i < cand.len();
                    at = i;
                }
                assert(fails == fails_within(o, fail_on_revert, reason, calls_view(cand@).len()));
                if fails {
                    assert(replay.ensures((&cand,), o));
                    proof {
                        lemma_subseq_remove(calls_view(cur@), k as int);
                        lemma_subseq_trans(calls_view(cand@), calls_view(cur@), c0);
                    }
                    cur = cand;
                    kept = true;
                    if at + 1 < cur.len() && attempts < max_attempts {
                        let cut = prefix(&cur, at + 1);
                        assert(cut@.len() == calls_view(cut@).len());
                        let o2 = replay(&cut);
                        attempts = attempts + 1;
                        if let Some((why2, at2)) = failure_at(o2, fail_on_revert) {
                            if why2 == reason && at2 < cut.len() {
                                assert(fails_within(o2, fail_on_revert, reason, calls_view(cut@).len()));
                                assert(replay.ensures((&cut,), o2));
                                proof {
                                    lemma_subseq_take(calls_view(cur@), at + 1);
                                    lemma_subseq_trans(calls_view(cut@), calls_view(cur@), c0);
                                }
                                cur = cut;
                            }
                        }
                    }
                } else {
                    assert(replay.ensures((&cand,), o));
                    assert(sequence_passes(*replay, calls_view(cur@).remove(k as int), fail_on_revert, reason));
                }
            }
        }
        if !kept {
            assert(!starved ==> sequence_minimal(*replay, calls_view(cur@), fail_on_revert, reason));
            break;
        }
        assert(attempts <= 2 * n0 * (n0 - cur@.len())) by (nonlinear_arith)
            requires attempts <= pstart + len0 + 1, pstart <= 2 * n0 * (n0 - len0), 1 <= len0 <= n0,
                cur@.len() < len0, 2 <= len0;
    }
    (cur, starved)
}

/// The failure that a sequence outcome shows.
pub fn failure_at(o: SequenceOutcome, fail_on_revert: bool) -> (r: Option<(FailureReason, usize)>)
    ensures
        r == failure_of(o, fail_on_revert),
{
    match (o.first_revert, o.first_violation) {
        (Some(i), Some(j)) => if fail_on_revert && i <= j {
            Some((FailureReason::Revert, i))
        } else {
            Some((FailureReason::InvariantViolation, j))
        },
        (Some(i), None) => if fail_on_revert { Some((FailureReason::Revert, i)) } else { None },
        (None, Some(j)) => Some((FailureReason::InvariantViolation, j)),
        (None, None) => None,
    }
}

/// Whether every parameter type of every target is well formed.
pub open spec fn targets_ok(targets: Seq<Seq<ParamKind>>) -> bool {
    forall|t: int, i: int| 0 <= t < targets.len() && 0 <= i < targets[t].len() ==> kind_ok(#[trigger] targets[t][i])
}

/// The call drawn at stream position `s`: a target, then its arguments.
pub open spec fn gen_call(targets: Seq<Seq<ParamKind>>, pool: Seq<Seq<u8>>, s: StreamPos) -> ((u32, Seq<Seq<u8>>), StreamPos) {
    let t = (s.word() % (targets.len() as u64)) as u32;
    let (args, s2) = gen_args(targets[t as int], pool, s.next());
    ((t, args), s2)
}

/// The `n` calls drawn from stream position `s`, in order.
pub open spec fn gen_calls(targets: Seq<Seq<ParamKind>>, pool: Seq<Seq<u8>>, s: StreamPos, n: nat) -> (Seq<(u32, Seq<Seq<u8>>)>, StreamPos)
    decreases n,
{
    if n == 0 {
        (Seq::empty(), s)
    } else {
        let (cs, s1) = gen_calls(targets, pool, s, (n - 1) as nat);
        let (c, s2) = gen_call(targets, pool, s1);
        (cs.push(c), s2)
    }
}

/// Whether `replay` was seen to give `o` on a sequence with contents `cs`.
pub open spec fn replay_gives<F: Fn(&Vec<Call>) -> SequenceOutcome>(replay: F, cs: Seq<(u32, Seq<Seq<u8>>)>, o: SequenceOutcome) -> bool {
    exists|v: &Vec<Call>| #[trigger] replay.ensures((v,), o) && calls_view(v@) == cs
}

/// The outcome that a deterministic `replay` gives on a sequence with contents `cs`.
pub open spec fn outcome_of<F: Fn(&Vec<Call>) -> SequenceOutcome>(replay: F, cs: Seq<(u32, Seq<Seq<u8>>)>) -> SequenceOutcome {
    choose|o: SequenceOutcome| #[trigger] replay_gives(replay, cs, o)
}

/// What an invariant campaign comes to: the verdict and, on failure, the
/// drawn sequence cut after the failing call.
pub struct InvariantRun {
    pub verdict: Verdict,
    pub failing: Seq<(u32, Seq<Seq<u8>>)>,
}

/// The rest of an invariant campaign after `done` sequences: each sequence
/// draws `depth` calls and is replayed from the baseline; the first failure
/// within it ends the campaign.
pub open spec fn campaign_from<F: Fn(&Vec<Call>) -> SequenceOutcome>(
    cfg: InvariantConfig,
    targets: Seq<Seq<ParamKind>>,
    pool: Seq<Seq<u8>>,
    replay: F,
    s: StreamPos,
    done: nat,
) -> InvariantRun
    decreases cfg.runs - done,
{
    if done >= cfg.runs || targets.len() == 0 {
        InvariantRun { verdict: Verdict::Success, failing: Seq::empty() }
    } else {
        let (cs, s1) = gen_calls(targets, pool, s, cfg.depth as nat);
        match failure_of(outcome_of(replay, cs), cfg.fail_on_revert) {
            Some((r, at)) => if at < cs.len() {
                InvariantRun { verdict: Verdict::Failure(r), failing: cs.take(at + 1) }
            } else {
                campaign_from(cfg, targets, pool, replay, s1, done + 1)
            },
            None => campaign_from(cfg, targets, pool, replay, s1, done + 1),
        }
    }
}

/// The report of an invariant campaign.
pub struct InvariantReport {
    /// The verdict.
    pub verdict: Verdict,
    /// On failure, the drawn sequence cut after the failing call.
    pub failing_sequence: Option<Vec<Call>>,
    /// On failure, the shrunk sequence that still fails within it.
    pub counterexample: Option<Vec<Call>>,
    /// Whether the shrinker ran out of replays before it settled.
    pub shrink_exhausted: bool,
}

fn generate_call(targets: &Vec<Vec<ParamKind>>, pool: &Vec<Vec<u8>>, rng: &mut SeededRng) -> (r: Call)
    requires
        old(rng).wf(),
        targets@.len() > 0,
        targets@.len() < u32::MAX,
        targets_ok(targets@.map_values(|k: Vec<ParamKind>| k@)),
    ensures
        final(rng).wf(),
        (call_view(r), final(rng)@) == gen_call(targets@.map_values(|k: Vec<ParamKind>| k@), views(pool@), old(rng)@),
{
    let ghost tv = targets@.map_values(|k: Vec<ParamKind>| k@);
    let w = rng.next_u64();
    let t = (w % (targets.len() as u64)) as u32;
    let kinds = &targets[t as usize];
    assert(kinds@ == tv[t as int]);
    assert forall|i: int| 0 <= i < kinds@.len() implies kind_ok(#[trigger] kinds@[i]) by {
        assert(kind_ok(tv[t as int][i]));
    }
    let args = generate_args(kinds, pool, rng);
    Call { target: t, args }
}

fn generate_calls(targets: &Vec<Vec<ParamKind>>, pool: &Vec<Vec<u8>>, rng: &mut SeededRng, n: u32) -> (r: Vec<Call>)
    requires
        old(rng).wf(),
        targets@.len() > 0,
        targets@.len() < u32::MAX,
        targets_ok(targets@.map_values(|k: Vec<ParamKind>| k@)),
    ensures
        final(rng).wf(),
        (calls_view(r@), final(rng)@) == gen_calls(targets@.map_values(|k: Vec<ParamKind>| k@), views(pool@), old(rng)@, n as nat),
        r@.len() == n,
{
    let ghost tv = targets@.map_values(|k: Vec<ParamKind>| k@);
    let ghost s0 = old(rng)@;
    let mut out: Vec<Call> = Vec::new();
    let mut i: u32 = 0;
    while i < n
        invariant
            rng.wf(),
            s0 == old(rng)@,
            i <= n,
            out@.len() == i,
            targets@.len() > 0,
            targets@.len() < u32::MAX,
            tv == targets@.map_values(|k: Vec<ParamKind>| k@),
            targets_ok(tv),
            (calls_view(out@), rng@) == gen_calls(tv, views(pool@), s0, i as nat),
        decreases n - i,
    {
        let ghost prev = out@;
        let c = generate_call(targets, pool, rng);
        out.push(c);
        assert(calls_view(out@) =~= calls_view(prev).push(call_view(c)));
        i = i + 1;
    }
    out
}

/// Runs an invariant campaign: `cfg.runs` sequences of `cfg.depth` calls to
/// the functions `targets` (the parameter types of each), each replayed from
/// the baseline state by `replay`, which runs the calls in order. A failing
/// sequence is cut after its failing call and shrunk.
#[verifier::rlimit(40)]
pub fn run_campaign<F: Fn(&Vec<Call>) -> SequenceOutcome>(
    replay: &F,
    cfg: InvariantConfig,
    targets: &Vec<Vec<ParamKind>>,
    pool: &Vec<Vec<u8>>,
    rng: &mut SeededRng,
) -> (r: InvariantReport)
    requires
        replay_total(*replay),
        replay_deterministic(*replay),
        prefix_closed(*replay, cfg.fail_on_revert),
        old(rng).wf(),
        targets@.len() < u32::MAX,
        targets_ok(targets@.map_values(|k: Vec<ParamKind>| k@)),
    ensures
        final(rng).wf(),
        r.verdict == campaign_from(cfg, targets@.map_values(|k: Vec<ParamKind>| k@), views(pool@), *replay, old(rng)@, 0).verdict,
        match r.verdict {
            Verdict::Failure(reason) => r.failing_sequence is Some && r.counterexample is Some
                && calls_view(r.failing_sequence->0@)
                    == campaign_from(cfg, targets@.map_values(|k: Vec<ParamKind>| k@), views(pool@), *replay, old(rng)@, 0).failing
                && r.counterexample->0@.len() > 0
                && r.counterexample->0@.len() <= cfg.depth
                && is_subseq(calls_view(r.counterexample->0@),
                    campaign_from(cfg, targets@.map_values(|k: Vec<ParamKind>| k@), views(pool@), *replay, old(rng)@, 0).failing)
                && sequence_fails(*replay, calls_view(r.counterexample->0@), cfg.fail_on_revert, reason)
                && (!r.shrink_exhausted ==> sequence_minimal(*replay, calls_view(r.counterexample->0@), cfg.fail_on_revert, reason)),
            _ => r.failing_sequence is None && r.counterexample is None,
        },
{
    let ghost tv = targets@.map_values(|k: Vec<ParamKind>| k@);
    let ghost s0 = old(rng)@;
    let ghost whole = campaign_from(cfg, tv, views(pool@), *replay, s0, 0);
    if targets.len() == 0 {
        return InvariantReport { verdict: Verdict::Success, failing_sequence: None, counterexample: None, shrink_exhausted: false };
    }
    let mut done: u32 = 0;
    while done < cfg.runs
        invariant
            replay_total(*replay),
            replay_deterministic(*replay),
            prefix_closed(*replay, cfg.fail_on_revert),
            rng.wf(),
            s0 == old(rng)@,
            targets@.len() > 0,
            targets@.len() < u32::MAX,
            tv == targets@.map_values(|k: Vec<ParamKind>| k@),
            targets_ok(tv),
            done <= cfg.runs,
            whole == campaign_from(cfg, tv, views(pool@), *replay, s0, 0),
            whole == campaign_from(cfg, tv, views(pool@), *replay, rng@, done as nat),
        decreases cfg.runs - done,
    {
        let ghost s = rng@;
        let calls = generate_calls(targets, pool, rng, cfg.depth);
        let o = replay(&calls);
        let ghost cs = calls_view(calls@);
        proof {
            assert(replay_gives(*replay, cs, o));
            let o2 = outcome_of(*replay, cs);
            assert(replay_gives(*replay, cs, o2));
            let w = choose|w: &Vec<Call>| #[trigger] replay.ensures((w,), o2) && calls_view(w@) == cs;
            assert(replay.ensures((w,), o2) && replay.ensures((&calls,), o));
            assert(o2 == o);
        }
        if let Some((reason, at)) = failure_at(o, cfg.fail_on_revert) {
            if at < calls.len() {
                let failing = prefix(&calls, at + 1);
                assert(calls_view(failing@).len() == failing@.len());
                assert(calls_view(calls@).len() == calls@.len());
                let o3 = replay(&failing);
                proof {
                    assert(calls_view(failing@) == calls_view(calls@).take(calls_view(failing@).len() as int));
                    assert(replay.ensures((&calls,), o) && replay.ensures((&failing,), o3));
                    assert(failure_of(o3, cfg.fail_on_revert) == failure_of(o, cfg.fail_on_revert));
                    assert(fails_within(o3, cfg.fail_on_revert, reason, calls_view(failing@).len()));
                    assert(sequence_fails(*replay, calls_view(failing@), cfg.fail_on_revert, reason));
                }
                let first = prefix(&failing, failing.len());
                assert(calls_view(failing@).take(failing@.len() as int) =~= calls_view(failing@));
                let (small, exhausted) = shrink_sequence(replay, failing, cfg.fail_on_revert, reason, cfg.max_shrink_attempts);
                return InvariantReport {
                    verdict: Verdict::Failure(reason),
                    failing_sequence: Some(first),
                    counterexample: Some(small),
                    shrink_exhausted: exhausted,
                };
            }
        }
        done = done + 1;
    }
    InvariantReport { verdict: Verdict::Success, failing_sequence: None, counterexample: None, shrink_exhausted: false }
}

} // verus!
