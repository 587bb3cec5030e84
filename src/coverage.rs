use vstd::prelude::*;

verus! {

/// `a + b`, held at the largest `u64`.
pub open spec fn sat_add(a: u64, b: u64) -> u64 {
    if a + b > u64::MAX { u64::MAX } else { (a + b) as u64 }
}

/// Hit counts of the program locations of each contract: contract `c`,
/// location `l` has been reached `hits[c][l]` times.
pub struct CoverageMap {
    hits: Vec<Vec<u64>>,
}

impl View for CoverageMap {
    type V = Seq<Seq<u64>>;

    closed spec fn view(&self) -> Seq<Seq<u64>> {
        self.hits@.map_values(|v: Vec<u64>| v@)
    }
}

/// Whether two tables have the same number of contracts and of locations in each.
pub open spec fn same_shape(a: Seq<Seq<u64>>, b: Seq<Seq<u64>>) -> bool {
    a.len() == b.len() && forall|c: int| 0 <= c < a.len() ==> (#[trigger] a[c]).len() == b[c].len()
}

impl CoverageMap {
    /// A map with no hits, for contracts with `sizes[c]` locations each.
    pub fn new(sizes: &Vec<usize>) -> (r: CoverageMap)
        ensures
            r@.len() == sizes@.len(),
            forall|c: int| 0 <= c < sizes@.len() ==> (#[trigger] r@[c]) == Seq::new(sizes@[c] as nat, |l: int| 0u64),
    {
        let mut hits: Vec<Vec<u64>> = Vec::new();
        let mut c: usize = 0;
        while c < sizes.len()
            invariant
                c <= sizes@.len(),
                hits@.len() == c,
                forall|k: int| 0 <= k < c ==> (#[trigger] hits@[k])@ == Seq::new(sizes@[k] as nat, |l: int| 0u64),
            decreases sizes@.len() - c,
        {
            let n = sizes[c];
            let mut row: Vec<u64> = Vec::new();
            let mut l: usize = 0;
            while l < n
                invariant
                    l <= n,
                    row@ == Seq::new(l as nat, |k: int| 0u64),
                decreases n - l,
            {
                row.push(0);
                assert(row@ =~= Seq::new((l + 1) as nat, |k: int| 0u64));
                l = l + 1;
            }
            hits.push(row);
            c = c + 1;
        }
        let r = CoverageMap { hits };
        assert forall|k: int| 0 <= k < sizes@.len() implies (#[trigger] r@[k]) == Seq::new(sizes@[k] as nat, |l: int| 0u64) by {
            assert(r@[k] == hits@[k]@);
        }
        r
    }

    /// The hit count of a location.
    pub fn get(&self, contract: usize, location: usize) -> (r: u64)
        requires
            contract < self@.len(),
            location < self@[contract as int].len(),
        ensures
            r == self@[contract as int][location as int],
    {
        self.hits[contract][location]
    }

    /// Counts `n` more hits of a location.
    pub fn hit(&mut self, contract: usize, location: usize, n: u64)
        requires
            contract < old(self)@.len(),
            location < old(self)@[contract as int].len(),
        ensures
            final(self)@ == old(self)@.update(
                contract as int,
                old(self)@[contract as int].update(location as int, sat_add(old(self)@[contract as int][location as int], n)),
            ),
    {
        let mut row = self.hits.remove(contract);
        let ghost before = old(self).hits@;
        let cur = row[location];
        let next = if cur > u64::MAX - n { u64::MAX } else { cur + n };
        row.set(location, next);
        self.hits.insert(contract, row);
        assert(self.hits@ =~= before.update(contract as int, row));
        assert(self@ =~= old(self)@.update(
            contract as int,
            old(self)@[contract as int].update(location as int, sat_add(old(self)@[contract as int][location as int], n)),
        ));
    }

    /// Adds the hits of `other`, a map of the same shape, location by location.
    pub fn merge(&mut self, other: &CoverageMap)
        requires
            same_shape(old(self)@, other@),
        ensures
            same_shape(final(self)@, other@),
            forall|c: int, l: int| 0 <= c < other@.len() && 0 <= l < other@[c].len()
                ==> #[trigger] final(self)@[c][l] == sat_add(old(self)@[c][l], other@[c][l]),
    {
        let mut c: usize = 0;
        while c < other.hits.len()
            invariant
                c <= other@.len(),
                same_shape(self@, other@),
                same_shape(old(self)@, other@),
                forall|k: int, l: int| 0 <= k < c && 0 <= l < other@[k].len()
                    ==> #[trigger] self@[k][l] == sat_add(old(self)@[k][l], other@[k][l]),
                forall|k: int| c <= k < other@.len() ==> #[trigger] self@[k] == old(self)@[k],
            decreases other@.len() - c,
        {
            let n = other.hits[c].len();
            assert(other.hits@[c as int]@ == other@[c as int]);
            let mut l: usize = 0;
            while l < n
                invariant
                    c < other@.len(),
                    n == other@[c as int].len(),
                    l <= n,
                    same_shape(self@, other@),
                    same_shape(old(self)@, other@),
                    forall|k: int, m: int| 0 <= k < c && 0 <= m < other@[k].len()
                        ==> #[trigger] self@[k][m] == sat_add(old(self)@[k][m], other@[k][m]),
                    forall|k: int| c < k < other@.len() ==> #[trigger] self@[k] == old(self)@[k],
                    forall|m: int| 0 <= m < l ==> #[trigger] self@[c as int][m] == sat_add(old(self)@[c as int][m], other@[c as int][m]),
                    forall|m: int| l <= m < n ==> #[trigger] self@[c as int][m] == old(self)@[c as int][m],
                decreases n - l,
            {
                let add = other.hits[c][l];
                assert(add == other@[c as int][l as int]);
                let ghost prev = self@;
                self.hit(c, l, add);
                assert forall|k: int| 0 <= k < other@.len() implies (#[trigger] self@[k]).len() == other@[k].len() by {
                    if k == c {
                        assert(self@[k] == prev[k].update(l as int, sat_add(prev[k][l as int], add)));
                    } else {
                        assert(self@[k] == prev[k]);
                    }
                }
                assert forall|k: int, m: int| 0 <= k < c && 0 <= m < other@[k].len()
                    implies #[trigger] self@[k][m] == sat_add(old(self)@[k][m], other@[k][m]) by {
                    assert(self@[k] == prev[k]);
                }
                assert forall|k: int| c < k < other@.len() implies #[trigger] self@[k] == old(self)@[k] by {
                    assert(self@[k] == prev[k]);
                }
                l = l + 1;
            }
            c = c + 1;
        }
    }
}

} // verus!
