use vstd::prelude::*;
use vstd::string::*;
use crate::text::str_equals;

verus! {

/// Whether `s` is in ascending order.
pub open spec fn ascending(s: Seq<u64>) -> bool {
    forall|i: int, j: int| 0 <= i <= j < s.len() ==> s[i] <= s[j]
}

/// Relies on `slice::sort` of std, which orders the slice ascending and keeps
/// its elements.
#[verifier::external_body]
fn sorted_copy(v: &Vec<u64>) -> (r: Vec<u64>)
    ensures
        ascending(r@),
        r@.to_multiset() == v@.to_multiset(),
        r@.len() == v@.len(),
{
    let mut s = v.clone();
    s.sort();
    s
}

/// The sum of a list of samples.
pub open spec fn total_of(s: Seq<u64>) -> nat
    decreases s.len(),
{
    if s.len() == 0 { 0 } else { total_of(s.drop_last()) + s.last() as nat }
}

/// Gas statistics over a list of samples.
#[derive(Debug, Clone, Copy, PartialEq, Eq, Structural)]
pub struct GasStats {
    pub min: u64,
    pub max: u64,
    /// The mean, rounded down.
    pub mean: u64,
    /// The middle sample in ascending order (the upper one of two).
    pub median: u64,
    pub calls: u64,
}

/// Whether `r` holds the statistics of samples `s`.
pub open spec fn stats_of(r: GasStats, s: Seq<u64>) -> bool {
    &&& r.calls == s.len()
    &&& s.contains(r.min) && forall|i: int| 0 <= i < s.len() ==> r.min <= #[trigger] s[i]
    &&& s.contains(r.max) && forall|i: int| 0 <= i < s.len() ==> r.max >= #[trigger] s[i]
    &&& r.mean == total_of(s) / s.len()
    &&& exists|t: Seq<u64>| ascending(t) && #[trigger] t.to_multiset() == s.to_multiset()
            && t.len() == s.len() && r.median == t[(s.len() / 2) as int]
}

/// Statistics over a non-empty list of samples.
pub fn gas_stats(samples: &Vec<u64>) -> (r: GasStats)
    requires
        samples@.len() > 0,
    ensures
        stats_of(r, samples@),
{
    let n = samples.len();
    let mut min = samples[0];
    let mut max = samples[0];
    let mut sum: u128 = 0;
    let mut i: usize = 0;
    while i < n
        invariant
            n == samples@.len(),
            n > 0,
            i <= n,
            samples@.contains(min),
            samples@.contains(max),
            forall|k: int| 0 <= k < i ==> min <= #[trigger] samples@[k],
            forall|k: int| 0 <= k < i ==> max >= #[trigger] samples@[k],
            sum == total_of(samples@.take(i as int)),
            sum <= i * 0xffff_ffff_ffff_ffffu128,
        decreases n - i,
    {
        let x = samples[i];
        if x < min {
            min = x;
        }
        if x > max {
            max = x;
        }
        assert(samples@.take(i + 1).drop_last() =~= samples@.take(i as int));
        assert(sum + x <= (i + 1) * 0xffff_ffff_ffff_ffffu128) by (nonlinear_arith)
            requires sum <= i * 0xffff_ffff_ffff_ffffu128, x <= 0xffff_ffff_ffff_ffffu64;
        sum = sum + x as u128;
        i = i + 1;
    }
    assert(samples@.take(n as int) =~= samples@);
    let mean128 = sum / (n as u128);
    assert(mean128 <= 0xffff_ffff_ffff_ffffu128) by (nonlinear_arith)
        requires mean128 == sum / (n as u128), sum <= n * 0xffff_ffff_ffff_ffffu128, n > 0;
    let sorted = sorted_copy(samples);
    let median = sorted[n / 2];
    GasStats { min, max, mean: mean128 as u64, median, calls: n as u64 }
}

/// The gas used by the calls of each function of each contract.
pub struct GasReport {
    entries: Vec<(String, String, Vec<u64>)>,
}

/// The key of an entry of a gas report.
pub open spec fn entry_key(e: (String, String, Vec<u64>)) -> (Seq<char>, Seq<char>) {
    (e.0@, e.1@)
}

impl GasReport {
    /// The samples recorded for each (contract, function).
    pub closed spec fn view(&self) -> Map<(Seq<char>, Seq<char>), Seq<u64>> {
        Map::new(
            |k: (Seq<char>, Seq<char>)| exists|i: int| 0 <= i < self.entries@.len() && entry_key(#[trigger] self.entries@[i]) == k,
            |k: (Seq<char>, Seq<char>)| {
                let i = choose|i: int| 0 <= i < self.entries@.len() && entry_key(#[trigger] self.entries@[i]) == k;
                self.entries@[i].2@
            },
        )
    }

    /// Keys are unique, and each holds a sample.
    pub closed spec fn wf(&self) -> bool {
        &&& forall|i: int, j: int| 0 <= i < j < self.entries@.len()
            ==> entry_key(#[trigger] self.entries@[i]) != entry_key(#[trigger] self.entries@[j])
        &&& forall|i: int| 0 <= i < self.entries@.len() ==> (#[trigger] self.entries@[i]).2@.len() > 0
    }

    /// An empty report.
    pub fn new() -> (r: GasReport)
        ensures
            r.wf(),
            r.view() == Map::<(Seq<char>, Seq<char>), Seq<u64>>::empty(),
    {
        let r = GasReport { entries: Vec::new() };
        assert(r.view() =~= Map::<(Seq<char>, Seq<char>), Seq<u64>>::empty());
        r
    }

    fn find(&self, contract: &str, function: &str) -> (r: Option<usize>)
        requires
            self.wf(),
        ensures
            r is Some ==> r->0 < self.entries@.len() && entry_key(self.entries@[r->0 as int]) == (contract@, function@),
            r is None ==> forall|i: int| 0 <= i < self.entries@.len() ==> entry_key(#[trigger] self.entries@[i]) != (contract@, function@),
    {
        let mut i: usize = 0;
        while i < self.entries.len()
            invariant
                i <= self.entries@.len(),
                forall|k: int| 0 <= k < i ==> entry_key(#[trigger] self.entries@[k]) != (contract@, function@),
            decreases self.entries@.len() - i,
        {
            if str_equals(self.entries[i].0.as_str(), contract) && str_equals(self.entries[i].1.as_str(), function) {
                return Some(i);
            }
            i = i + 1;
        }
        None
    }

    /// Records the gas of one call of `function` of `contract`.
    pub fn record(&mut self, contract: &str, function: &str, gas: u64)
        requires
            old(self).wf(),
        ensures
            final(self).wf(),
            final(self).view() == old(self).view().insert(
                (contract@, function@),
                if old(self).view().contains_key((contract@, function@)) {
                    old(self).view()[(contract@, function@)].push(gas)
                } else {
                    seq![gas]
                },
            ),
    {
        let ghost key = (contract@, function@);
        match self.find(contract, function) {
            Some(i) => {
                let ghost before = self.entries@;
                let mut e = self.entries.remove(i);
                let ghost old_samples = e.2@;
                e.2.push(gas);
                self.entries.insert(i, e);
                assert(self.entries@ =~= before.update(i as int, e));
                assert forall|a: int| 0 <= a < self.entries@.len() implies (#[trigger] self.entries@[a]).2@.len() > 0 by {
                    if a != i {
                        assert(self.entries@[a] == before[a]);
                    }
                }
                assert(old(self).view().contains_key(key));
                assert(old(self).view()[key] == old_samples) by {
                    let j = choose|j: int| 0 <= j < before.len() && entry_key(#[trigger] before[j]) == key;
                    if j != i {
                        assert(entry_key(before[j]) != entry_key(before[i as int]));
                    }
                }
                assert forall|a: int, b: int| 0 <= a < b < self.entries@.len() implies
                    entry_key(#[trigger] self.entries@[a]) != entry_key(#[trigger] self.entries@[b]) by {
                    assert(entry_key(self.entries@[a]) == entry_key(before[a]));
                    assert(entry_key(self.entries@[b]) == entry_key(before[b]));
                }
                assert(self.view() =~= old(self).view().insert(key, old_samples.push(gas))) by {
                    assert forall|k| #[trigger] self.view().contains_key(k) == old(self).view().insert(key, old_samples.push(gas)).contains_key(k) by {
                        if old(self).view().contains_key(k) {
                            let j = choose|j: int| 0 <= j < before.len() && entry_key(#[trigger] before[j]) == k;
                            assert(entry_key(self.entries@[j]) == k);
                        }
                        if self.view().contains_key(k) {
                            let j = choose|j: int| 0 <= j < self.entries@.len() && entry_key(#[trigger] self.entries@[j]) == k;
                            assert(entry_key(before[j]) == k);
                        }
                    }
                    assert forall|k| #[trigger] self.view().contains_key(k) implies
                        self.view()[k] == old(self).view().insert(key, old_samples.push(gas))[k] by {
                        let j = choose|j: int| 0 <= j < self.entries@.len() && entry_key(#[trigger] self.entries@[j]) == k;
                        assert(entry_key(before[j]) == k);
                        if k != key {
                            let j2 = choose|j2: int| 0 <= j2 < before.len() && entry_key(#[trigger] before[j2]) == k;
                            if j2 != j {
                                assert(entry_key(before[j2]) != entry_key(before[j]));
                            }
                        } else {
                            if j != i {
                                assert(entry_key(before[j]) != entry_key(before[i as int]));
                            }
                        }
                    }
                }
            },
            None => {
                let ghost before = self.entries@;
                let mut samples: Vec<u64> = Vec::new();
                samples.push(gas);
                self.entries.push((String::from_str(contract), String::from_str(function), samples));
                assert(entry_key(self.entries@[before.len() as int]) == key);
                assert forall|a: int| 0 <= a < self.entries@.len() implies (#[trigger] self.entries@[a]).2@.len() > 0 by {
                    if a < before.len() {
                        assert(self.entries@[a] == before[a]);
                    }
                }
                assert forall|a: int, b: int| 0 <= a < b < self.entries@.len() implies
                    entry_key(#[trigger] self.entries@[a]) != entry_key(#[trigger] self.entries@[b]) by {
                    if b < before.len() {
                        assert(self.entries@[a] == before[a] && self.entries@[b] == before[b]);
                    } else {
                        assert(self.entries@[a] == before[a]);
                    }
                }
                assert(!old(self).view().contains_key(key));
                assert(self.view() =~= old(self).view().insert(key, seq![gas])) by {
                    assert forall|k| #[trigger] self.view().contains_key(k) == old(self).view().insert(key, seq![gas]).contains_key(k) by {
                        if old(self).view().contains_key(k) {
                            let j = choose|j: int| 0 <= j < before.len() && entry_key(#[trigger] before[j]) == k;
                            assert(self.entries@[j] == before[j]);
                        }
                        if self.view().contains_key(k) && k != key {
                            let j = choose|j: int| 0 <= j < self.entries@.len() && entry_key(#[trigger] self.entries@[j]) == k;
                            assert(self.entries@[j] == before[j]);
                        }
                    }
                    assert forall|k| #[trigger] self.view().contains_key(k) implies
                        self.view()[k] == old(self).view().insert(key, seq![gas])[k] by {
                        let j = choose|j: int| 0 <= j < self.entries@.len() && entry_key(#[trigger] self.entries@[j]) == k;
                        if k != key {
                            assert(self.entries@[j] == before[j]);
                            let j2 = choose|j2: int| 0 <= j2 < before.len() && entry_key(#[trigger] before[j2]) == k;
                            if j2 != j {
                                assert(entry_key(before[j2]) != entry_key(before[j]));
                            }
                        } else if j != before.len() {
                            assert(self.entries@[j] == before[j]);
                        }
                    }
                }
            },
        }
    }

    /// The statistics of a (contract, function), if any call was recorded.
    pub fn stats(&self, contract: &str, function: &str) -> (r: Option<GasStats>)
        requires
            self.wf(),
        ensures
            r is Some <==> self.view().contains_key((contract@, function@)),
            r is Some ==> stats_of(r->0, self.view()[(contract@, function@)]),
    {
        match self.find(contract, function) {
            Some(i) => {
                let ghost key = (contract@, function@);
                proof {
                    assert(self.view().contains_key(key));
                    let j = choose|j: int| 0 <= j < self.entries@.len() && entry_key(#[trigger] self.entries@[j]) == key;
                    if j != i {
                        assert(entry_key(self.entries@[j]) != entry_key(self.entries@[i as int]));
                    }
                }
                Some(gas_stats(&self.entries[i].2))
            },
            None => None,
        }
    }
}

} // verus!
