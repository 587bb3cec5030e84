use vstd::prelude::*;
use crate::gen::views;

verus! {

/// Why a trial failed.
#[derive(Debug, Clone, Copy, PartialEq, Eq, Structural)]
pub enum FailureReason {
    /// An assertion of the test fired.
    Assertion,
    /// The call reverted where it was not expected to.
    Revert,
    /// The invariant did not hold after a call.
    InvariantViolation,
}

/// What one execution of a test on given arguments came to.
#[derive(Debug, Clone, Copy, PartialEq, Eq, Structural)]
pub enum Outcome {
    /// The test passed.
    Pass,
    /// The test failed, for the given reason.
    Fail(FailureReason),
    /// A precondition of the test rejected the arguments.
    Rejected,
}

/// One execution of a call: what it came to and the gas it used.
#[derive(Debug, Clone, Copy, PartialEq, Eq, Structural)]
pub struct Trial {
    pub outcome: Outcome,
    pub gas_used: u64,
}

/// Whether `run` answers for every list of arguments.
pub open spec fn total<F: Fn(&Vec<Vec<u8>>) -> Trial>(run: F) -> bool {
    forall|a: &Vec<Vec<u8>>| #[trigger] run.requires((a,))
}

/// Whether `run` gives the same trial for arguments with the same contents: the
/// backend behind it starts each execution from the same state.
pub open spec fn deterministic<F: Fn(&Vec<Vec<u8>>) -> Trial>(run: F) -> bool {
    forall|a: &Vec<Vec<u8>>, b: &Vec<Vec<u8>>, s: Trial, t: Trial|
        #[trigger] run.ensures((a,), s) && #[trigger] run.ensures((b,), t) && views(a@) == views(b@)
            ==> s == t
}

/// Whether running `run` on `a` is seen to fail for `reason`.
pub open spec fn fails_with<F: Fn(&Vec<Vec<u8>>) -> Trial>(run: F, a: Seq<Seq<u8>>, reason: FailureReason) -> bool {
    exists|v: &Vec<Vec<u8>>, t: Trial|
        #[trigger] run.ensures((v,), t) && views(v@) == a && t.outcome == Outcome::Fail(reason)
}

/// Whether running `run` on `a` is seen to give anything but a failure for `reason`.
pub open spec fn not_failing<F: Fn(&Vec<Vec<u8>>) -> Trial>(run: F, a: Seq<Seq<u8>>, reason: FailureReason) -> bool {
    exists|v: &Vec<Vec<u8>>, t: Trial|
        #[trigger] run.ensures((v,), t) && views(v@) == a && t.outcome != Outcome::Fail(reason)
}

/// A deterministic test is not seen both to fail and not to fail for the
/// same reason on the same arguments.
pub proof fn lemma_fail_or_pass<F: Fn(&Vec<Vec<u8>>) -> Trial>(run: F, a: Seq<Seq<u8>>, reason: FailureReason)
    requires
        deterministic(run),
        not_failing(run, a, reason),
    ensures
        !fails_with(run, a, reason),
{
    if fails_with(run, a, reason) {
        let (v, t) = choose|v: &Vec<Vec<u8>>, t: Trial|
            #[trigger] run.ensures((v,), t) && views(v@) == a && t.outcome == Outcome::Fail(reason);
        let (w, u) = choose|w: &Vec<Vec<u8>>, u: Trial|
            #[trigger] run.ensures((w,), u) && views(w@) == a && u.outcome != Outcome::Fail(reason);
        assert(run.ensures((v,), t) && run.ensures((w,), u) && views(v@) == views(w@));
    }
}

/// A failure seen once is seen again: a deterministic test run once more on
/// arguments with the same contents fails for the same reason.
pub proof fn lemma_failure_replays<F: Fn(&Vec<Vec<u8>>) -> Trial>(
    run: F,
    a: Seq<Seq<u8>>,
    reason: FailureReason,
    v: &Vec<Vec<u8>>,
    t: Trial,
)
    requires
        deterministic(run),
        fails_with(run, a, reason),
        run.ensures((v,), t),
        views(v@) == a,
    ensures
        t.outcome == Outcome::Fail(reason),
{
    let (w, s) = choose|w: &Vec<Vec<u8>>, s: Trial|
        #[trigger] run.ensures((w,), s) && views(w@) == a && s.outcome == Outcome::Fail(reason);
    assert(run.ensures((w,), s) && run.ensures((v,), t) && views(w@) == views(v@));
}

} // verus!
