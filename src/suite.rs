use vstd::prelude::*;
use crate::fuzz::Verdict;

verus! {

/// A contract and the names of its tests, in declaration order.
pub struct ContractTests {
    pub name: String,
    pub tests: Vec<String>,
}

/// The contents of a list of contracts: each name with its test names.
pub open spec fn contracts_view(cs: Seq<ContractTests>) -> Seq<(Seq<char>, Seq<Seq<char>>)> {
    cs.map_values(|c: ContractTests| (c.name@, c.tests@.map_values(|t: String| t@)))
}

/// Whether `filter` answers for every contract and test name.
pub open spec fn filter_total<P: Fn(&str, &str) -> bool>(filter: P) -> bool {
    forall|a: &str, b: &str| #[trigger] filter.requires((a, b))
}

/// Whether `filter` gives the same answer for the same names.
pub open spec fn filter_deterministic<P: Fn(&str, &str) -> bool>(filter: P) -> bool {
    forall|a1: &str, b1: &str, a2: &str, b2: &str, x: bool, y: bool|
        #[trigger] filter.ensures((a1, b1), x) && #[trigger] filter.ensures((a2, b2), y)
            && a1@ == a2@ && b1@ == b2@ ==> x == y
}

/// Whether `filter` was seen to keep test `t` of contract `c`.
pub open spec fn keeps<P: Fn(&str, &str) -> bool>(filter: P, c: Seq<char>, t: Seq<char>) -> bool {
    exists|a: &str, b: &str| #[trigger] filter.ensures((a, b), true) && a@ == c && b@ == t
}

/// The indices, ascending, of the tests of contract `c` that `filter` keeps.
pub open spec fn kept_tests<P: Fn(&str, &str) -> bool>(filter: P, c: Seq<char>, tests: Seq<Seq<char>>) -> Seq<usize>
    decreases tests.len(),
{
    if tests.len() == 0 {
        Seq::empty()
    } else {
        let prev = kept_tests(filter, c, tests.drop_last());
        if keeps(filter, c, tests.last()) {
            prev.push((tests.len() - 1) as usize)
        } else {
            prev
        }
    }
}

/// The contracts, in order, that keep at least one test, each with its kept tests.
pub open spec fn selection<P: Fn(&str, &str) -> bool>(filter: P, cs: Seq<(Seq<char>, Seq<Seq<char>>)>) -> Seq<(usize, Seq<usize>)>
    decreases cs.len(),
{
    if cs.len() == 0 {
        Seq::empty()
    } else {
        let prev = selection(filter, cs.drop_last());
        let ks = kept_tests(filter, cs.last().0, cs.last().1);
        if ks.len() > 0 {
            prev.push(((cs.len() - 1) as usize, ks))
        } else {
            prev
        }
    }
}

/// The (contract, test) pairs of a selection, in order.
pub open spec fn selected_pairs(sel: Seq<(usize, Seq<usize>)>) -> Seq<(usize, usize)>
    decreases sel.len(),
{
    if sel.len() == 0 {
        Seq::empty()
    } else {
        selected_pairs(sel.drop_last()) + sel.last().1.map_values(|j: usize| (sel.last().0, j))
    }
}

/// A contract that kept tests, and their indices.
pub struct Selected {
    pub contract: usize,
    pub tests: Vec<usize>,
}

/// The contents of a selection.
pub open spec fn selected_view(s: Seq<Selected>) -> Seq<(usize, Seq<usize>)> {
    s.map_values(|x: Selected| (x.contract, x.tests@))
}

fn kept_of<P: Fn(&str, &str) -> bool>(filter: &P, c: &ContractTests) -> (r: Vec<usize>)
    requires
        filter_total(*filter),
        filter_deterministic(*filter),
    ensures
        r@ == kept_tests(*filter, c.name@, c.tests@.map_values(|t: String| t@)),
{
    let ghost tv = c.tests@.map_values(|t: String| t@);
    let mut out: Vec<usize> = Vec::new();
    let mut j: usize = 0;
    while j < c.tests.len()
        invariant
            filter_total(*filter),
            filter_deterministic(*filter),
            j <= c.tests@.len(),
            tv == c.tests@.map_values(|t: String| t@),
            out@ == kept_tests(*filter, c.name@, tv.take(j as int)),
        decreases c.tests@.len() - j,
    {
        let a = c.name.as_str();
        let b = c.tests[j].as_str();
        let keep = filter(a, b);
        proof {
            let t = tv.take(j + 1);
            assert(t.drop_last() =~= tv.take(j as int));
            assert(t.last() == b@);
            if keep {
                assert(keeps(*filter, c.name@, b@));
            } else if keeps(*filter, c.name@, b@) {
                let (a2, b2) = choose|a2: &str, b2: &str| #[trigger] filter.ensures((a2, b2), true) && a2@ == c.name@ && b2@ == b@;
                assert(filter.ensures((a2, b2), true) && filter.ensures((a, b), keep));
            }
        }
        if keep {
            out.push(j);
        }
        j = j + 1;
    }
    assert(tv.take(c.tests@.len() as int) =~= tv);
    out
}

/// The contracts and tests that `filter` keeps: contracts in order, each with
/// the indices of its kept tests; a contract that keeps none is left out.
pub fn select<P: Fn(&str, &str) -> bool>(contracts: &Vec<ContractTests>, filter: &P) -> (r: Vec<Selected>)
    requires
        filter_total(*filter),
        filter_deterministic(*filter),
    ensures
        selected_view(r@) == selection(*filter, contracts_view(contracts@)),
{
    let ghost cv = contracts_view(contracts@);
    let mut out: Vec<Selected> = Vec::new();
    let mut i: usize = 0;
    while i < contracts.len()
        invariant
            filter_total(*filter),
            filter_deterministic(*filter),
            i <= contracts@.len(),
            cv == contracts_view(contracts@),
            selected_view(out@) == selection(*filter, cv.take(i as int)),
        decreases contracts@.len() - i,
    {
        let ks = kept_of(filter, &contracts[i]);
        let ghost prev = out@;
        proof {
            let t = cv.take(i + 1);
            assert(t.drop_last() =~= cv.take(i as int));
            assert(t.last() == cv[i as int]);
        }
        if ks.len() > 0 {
            out.push(Selected { contract: i, tests: ks });
            assert(selected_view(out@) =~= selected_view(prev).push((i, ks@)));
        }
        i = i + 1;
    }
    assert(cv.take(contracts@.len() as int) =~= cv);
    out
}

/// What running one test came to.
#[derive(Debug, Clone, Copy, PartialEq, Eq, Structural)]
pub struct TestRecord {
    pub verdict: Verdict,
    pub gas_used: u64,
}

/// The results of one contract's kept tests, in declaration order.
pub struct ContractResult {
    pub contract: usize,
    pub tests: Vec<usize>,
    pub results: Vec<TestRecord>,
}

/// The results of a suite, and the tests that were run, in order.
pub struct SuiteResult {
    pub contracts: Vec<ContractResult>,
    pub executed: Ghost<Seq<(usize, usize)>>,
}

/// Runs the tests that `filter` keeps, contract by contract and, within a
/// contract, in declaration order; `exec` runs one test, given the index of
/// its contract and its own. No other test is run.
pub fn run_suite<P: Fn(&str, &str) -> bool, E: Fn(usize, usize) -> TestRecord>(
    contracts: &Vec<ContractTests>,
    filter: &P,
    exec: &E,
) -> (r: SuiteResult)
    requires
        filter_total(*filter),
        filter_deterministic(*filter),
        forall|i: usize, j: usize| #[trigger] exec.requires((i, j)),
    ensures
        ({
            let sel = selection(*filter, contracts_view(contracts@));
            &&& r.contracts@.len() == sel.len()
            &&& forall|k: int| 0 <= k < sel.len() ==> {
                let c = #[trigger] r.contracts@[k];
                &&& c.contract == sel[k].0
                &&& c.tests@ == sel[k].1
                &&& c.results@.len() == sel[k].1.len()
                &&& forall|m: int| 0 <= m < c.results@.len()
                    ==> exec.ensures((c.contract, c.tests@[m]), #[trigger] c.results@[m])
            }
            &&& r.executed@ == selected_pairs(sel)
        }),
{
    let sel = select(contracts, filter);
    let ghost sv = selected_view(sel@);
    let mut out: Vec<ContractResult> = Vec::new();
    let ghost mut executed: Seq<(usize, usize)> = Seq::empty();
    let mut k: usize = 0;
    while k < sel.len()
        invariant
            forall|i: usize, j: usize| #[trigger] exec.requires((i, j)),
            k <= sel@.len(),
            sv == selected_view(sel@),
            out@.len() == k,
            forall|q: int| 0 <= q < k ==> {
                let c = #[trigger] out@[q];
                &&& c.contract == sv[q].0
                &&& c.tests@ == sv[q].1
                &&& c.results@.len() == sv[q].1.len()
                &&& forall|m: int| 0 <= m < c.results@.len()
                    ==> exec.ensures((c.contract, c.tests@[m]), #[trigger] c.results@[m])
            },
            executed == selected_pairs(sv.take(k as int)),
        decreases sel@.len() - k,
    {
        let ci = sel[k].contract;
        let tests = &sel[k].tests;
        let mut results: Vec<TestRecord> = Vec::new();
        let ghost base = executed;
        let mut m: usize = 0;
        while m < tests.len()
            invariant
                forall|i: usize, j: usize| #[trigger] exec.requires((i, j)),
                m <= tests@.len(),
                results@.len() == m,
                forall|q: int| 0 <= q < m ==> exec.ensures((ci, tests@[q]), #[trigger] results@[q]),
                executed == base + tests@.take(m as int).map_values(|j: usize| (ci, j)),
            decreases tests@.len() - m,
        {
            let rec = exec(ci, tests[m]);
            results.push(rec);
            proof {
                assert(tests@.take(m + 1).map_values(|j: usize| (ci, j))
                    =~= tests@.take(m as int).map_values(|j: usize| (ci, j)).push((ci, tests@[m as int])));
                executed = executed.push((ci, tests@[m as int]));
                assert(executed =~= base + tests@.take(m + 1).map_values(|j: usize| (ci, j)));
            }
            m = m + 1;
        }
        proof {
            assert(tests@.take(tests@.len() as int) =~= tests@);
            let t = sv.take(k + 1);
            assert(t.drop_last() =~= sv.take(k as int));
            assert(t.last() == sv[k as int]);
        }
        out.push(ContractResult { contract: ci, tests: tests.clone(), results });
        k = k + 1;
    }
    assert(sv.take(sel@.len() as int) =~= sv);
    SuiteResult { contracts: out, executed: Ghost(executed) }
}

proof fn lemma_kept_tests<P: Fn(&str, &str) -> bool>(filter: P, c: Seq<char>, ts: Seq<Seq<char>>, j: usize)
    requires
        ts.len() <= usize::MAX,
    ensures
        kept_tests(filter, c, ts).contains(j) <==> (j < ts.len() && keeps(filter, c, ts[j as int])),
        forall|q: int| 0 <= q < kept_tests(filter, c, ts).len() ==> #[trigger] kept_tests(filter, c, ts)[q] < ts.len(),
    decreases ts.len(),
{
    if ts.len() > 0 {
        let l = (ts.len() - 1) as usize;
        let d = ts.drop_last();
        let prev = kept_tests(filter, c, d);
        let k = kept_tests(filter, c, ts);
        lemma_kept_tests(filter, c, d, j);
        if j < l {
            assert(d[j as int] == ts[j as int]);
        }
        assert(ts.last() == ts[l as int]);
        if keeps(filter, c, ts.last()) {
            assert(k == prev.push(l));
            if k.contains(j) {
                let q = choose|q: int| 0 <= q < k.len() && k[q] == j;
                if q < prev.len() {
                    assert(prev[q] == j);
                    assert(prev.contains(j));
                }
            }
            if j < ts.len() && keeps(filter, c, ts[j as int]) {
                if j == l {
                    assert(k[prev.len() as int] == j);
                } else {
                    let q = choose|q: int| 0 <= q < prev.len() && prev[q] == j;
                    assert(k[q] == j);
                }
            }
            assert forall|q: int| 0 <= q < k.len() implies #[trigger] k[q] < ts.len() by {
                if q < prev.len() {
                    assert(k[q] == prev[q]);
                }
            }
        } else {
            assert(k == prev);
        }
    }
}

/// Whether selection `sel` holds test `j` of contract `i`.
pub open spec fn selects(sel: Seq<(usize, Seq<usize>)>, i: usize, j: usize) -> bool {
    exists|k: int| 0 <= k < sel.len() && (#[trigger] sel[k]).0 == i && sel[k].1.contains(j)
}

/// Filtering is exact: the selection holds a test exactly when the filter
/// keeps it, and holds no contract without tests.
pub proof fn lemma_selection_exact<P: Fn(&str, &str) -> bool>(
    filter: P,
    cs: Seq<(Seq<char>, Seq<Seq<char>>)>,
    i: usize,
    j: usize,
)
    requires
        cs.len() <= usize::MAX,
        forall|q: int| 0 <= q < cs.len() ==> (#[trigger] cs[q]).1.len() <= usize::MAX,
    ensures
        selects(selection(filter, cs), i, j)
            <==> (i < cs.len() && j < cs[i as int].1.len() && keeps(filter, cs[i as int].0, cs[i as int].1[j as int])),
        forall|k: int| 0 <= k < selection(filter, cs).len() ==> (#[trigger] selection(filter, cs)[k]).1.len() > 0
            && selection(filter, cs)[k].0 < cs.len(),
    decreases cs.len(),
{
    if cs.len() > 0 {
        let prev = selection(filter, cs.drop_last());
        let last = (cs.len() - 1) as usize;
        let ks = kept_tests(filter, cs.last().0, cs.last().1);
        assert forall|q: int| 0 <= q < cs.drop_last().len() implies (#[trigger] cs.drop_last()[q]).1.len() <= usize::MAX by {
            assert(cs.drop_last()[q] == cs[q]);
        }
        lemma_selection_exact(filter, cs.drop_last(), i, j);
        assert(cs.last() == cs[last as int]);
        lemma_kept_tests(filter, cs.last().0, cs.last().1, j);
        if i < last {
            assert(cs.drop_last()[i as int] == cs[i as int]);
        }
        let sel = selection(filter, cs);
        if ks.len() > 0 {
            assert(sel == prev.push((last, ks)));
            if selects(prev, i, j) {
                let k = choose|k: int| 0 <= k < prev.len() && (#[trigger] prev[k]).0 == i && prev[k].1.contains(j);
                assert(sel[k] == prev[k]);
            }
            if i == last && ks.contains(j) {
                assert(sel[prev.len() as int] == (last, ks));
            }
            if selects(sel, i, j) {
                let k = choose|k: int| 0 <= k < sel.len() && (#[trigger] sel[k]).0 == i && sel[k].1.contains(j);
                if k < prev.len() {
                    assert(sel[k] == prev[k]);
                    assert(selects(prev, i, j));
                }
            }
            assert forall|k: int| 0 <= k < sel.len() implies (#[trigger] sel[k]).1.len() > 0 && sel[k].0 < cs.len() by {
                if k < prev.len() {
                    assert(sel[k] == prev[k]);
                }
            }
        } else {
            assert(sel == prev);
            if i == last && ks.contains(j) {
                assert(false);
            }
            if selects(prev, i, j) {
                let k = choose|k: int| 0 <= k < prev.len() && (#[trigger] prev[k]).0 == i && prev[k].1.contains(j);
                assert(prev[k].0 < cs.drop_last().len());
            }
        }
    }
}

} // verus!
