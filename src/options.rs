use vstd::prelude::*;
use crate::campaign::InvariantConfig;
use crate::fuzz::FuzzConfig;
use crate::rng::{SeededRng, StreamPos};

verus! {

/// Replays that the invariant shrinker may spend on one failure.
pub const SHRINK_ATTEMPTS: u64 = 1024;

/// The shrink budget of a fuzz test of `runs` cases: four executions per
/// case, held at the largest `u32`.
pub open spec fn fuzz_shrink_budget(runs: u32) -> u64 {
    if 4 * runs > u32::MAX { u32::MAX as u64 } else { (4 * runs) as u64 }
}

/// How fuzz and invariant tests run.
#[derive(Debug, Clone, Copy)]
pub struct TestOptions {
    /// Passing cases needed for each fuzz test.
    pub fuzz_runs: u32,
    /// Rejections in a row, by the test's preconditions, that a fuzz test tolerates.
    pub fuzz_max_local_rejects: u32,
    /// Rejections in all that a fuzz test tolerates.
    pub fuzz_max_global_rejects: u32,
    /// The seed of the random stream, as 32 big-endian bytes; none for a fresh one.
    pub fuzz_seed: Option<[u8; 32]>,
    /// Sequences tried for each invariant test.
    pub invariant_runs: u32,
    /// Calls in each sequence.
    pub invariant_depth: u32,
    /// Whether a reverting call fails an invariant test.
    pub invariant_fail_on_revert: bool,
    /// Whether calls that would be refused as unsafe (reentrancy) are still made.
    pub invariant_call_override: bool,
}

/// A fuzz configuration with its random stream and the seed it started from,
/// with which a run can be replayed.
pub struct Fuzzer {
    pub config: FuzzConfig,
    pub seed: [u8; 32],
    pub rng: SeededRng,
}

impl TestOptions {
    /// The fuzz configuration these options describe.
    pub fn fuzz_config(&self) -> (r: FuzzConfig)
        ensures
            r.runs == self.fuzz_runs,
            r.max_local_rejects == self.fuzz_max_local_rejects,
            r.max_global_rejects == self.fuzz_max_global_rejects,
            r.max_shrink_attempts == fuzz_shrink_budget(self.fuzz_runs),
    {
        let budget: u64 = if self.fuzz_runs > u32::MAX / 4 { u32::MAX as u64 } else { 4 * self.fuzz_runs as u64 };
        FuzzConfig {
            runs: self.fuzz_runs,
            max_local_rejects: self.fuzz_max_local_rejects,
            max_global_rejects: self.fuzz_max_global_rejects,
            max_shrink_attempts: budget,
        }
    }

    /// The invariant configuration these options describe.
    pub fn invariant_config(&self) -> (r: InvariantConfig)
        ensures
            r.runs == self.invariant_runs,
            r.depth == self.invariant_depth,
            r.fail_on_revert == self.invariant_fail_on_revert,
            r.call_override == self.invariant_call_override,
            r.max_shrink_attempts == SHRINK_ATTEMPTS,
    {
        InvariantConfig {
            runs: self.invariant_runs,
            depth: self.invariant_depth,
            fail_on_revert: self.invariant_fail_on_revert,
            call_override: self.invariant_call_override,
            max_shrink_attempts: SHRINK_ATTEMPTS,
        }
    }

    /// A fuzzer: the fuzz configuration, and a random stream that starts at
    /// the seed when one is given, and at `fresh_seed` (drawn by the caller
    /// from the system's entropy) otherwise. The seed used is kept, so that
    /// `TestOptions { fuzz_seed: Some(r.seed), .. }` replays the run.
    pub fn fuzzer(&self, fresh_seed: [u8; 32]) -> (r: Fuzzer)
        ensures
            r.rng.wf(),
            r.config.runs == self.fuzz_runs,
            r.config.max_local_rejects == self.fuzz_max_local_rejects,
            r.config.max_global_rejects == self.fuzz_max_global_rejects,
            r.config.max_shrink_attempts == fuzz_shrink_budget(self.fuzz_runs),
            r.seed == (match self.fuzz_seed { Some(s) => s, None => fresh_seed }),
            r.rng@ == StreamPos::start(r.seed@),
    {
        let config = self.fuzz_config();
        let seed = match self.fuzz_seed {
            Some(s) => s,
            None => fresh_seed,
        };
        let rng = SeededRng::from_seed(seed);
        Fuzzer { config, seed, rng }
    }
}

/// The seed of the test at index `test` in a run seeded with `seed`: the last
/// eight bytes of `seed` mixed with the index, so that tests draw
/// independently and the run's seed still replays each of them.
pub open spec fn test_seed(seed: Seq<u8>, test: u64) -> Seq<u8> {
    Seq::new(32, |k: int| if k < 24 { seed[k] } else { seed[k] ^ ((test >> ((8 * (31 - k)) as u64)) as u8) })
}

/// Derives the seed of one test from the seed of the run.
pub fn derive_test_seed(seed: &[u8; 32], test: u64) -> (r: [u8; 32])
    ensures
        r@ == test_seed(seed@, test),
{
    let mut out: [u8; 32] = *seed;
    let mut k: usize = 24;
    while k < 32
        invariant
            24 <= k <= 32,
            out@.len() == 32,
            forall|j: int| 0 <= j < k ==> out@[j] == test_seed(seed@, test)[j],
            forall|j: int| k <= j < 32 ==> out@[j] == seed@[j],
        decreases 32 - k,
    {
        let sh: u64 = (8 * (31 - k)) as u64;
        out[k] = seed[k] ^ ((test >> sh) as u8);
        k = k + 1;
    }
    assert(out@ =~= test_seed(seed@, test));
    out
}

} // verus!
