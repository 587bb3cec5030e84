use vstd::prelude::*;
use crate::gen::{ParamKind, views};
use crate::outcome::{FailureReason, Outcome, Trial, deterministic, fails_with, lemma_fail_or_pass, not_failing, total};

verus! {

/// The number that a byte string spells, most significant byte first.
pub open spec fn be_nat(s: Seq<u8>) -> nat
    decreases s.len(),
{
    if s.len() == 0 {
        0
    } else {
        be_nat(s.drop_last()) * 256 + s.last() as nat
    }
}

/// The structural size of a value: its length and the magnitude it spells.
pub open spec fn value_size(s: Seq<u8>) -> nat {
    s.len() + be_nat(s)
}

/// Whether every value of `a` is no larger than the value at its place in `b`.
pub open spec fn no_larger(a: Seq<Seq<u8>>, b: Seq<Seq<u8>>) -> bool {
    &&& a.len() == b.len()
    &&& forall|i: int| 0 <= i < a.len() ==> value_size(#[trigger] a[i]) <= value_size(b[i])
}

/// The sum of the sizes of a list of values.
pub open spec fn args_size(a: Seq<Seq<u8>>) -> nat
    decreases a.len(),
{
    if a.len() == 0 {
        0
    } else {
        args_size(a.drop_last()) + value_size(a.last())
    }
}

proof fn lemma_be_nat_drop_last(s: Seq<u8>)
    requires
        s.len() > 0,
    ensures
        be_nat(s.drop_last()) <= be_nat(s),
{
    let y = be_nat(s.drop_last());
    assert(y <= y * 256) by (nonlinear_arith);
}

proof fn lemma_be_nat_zeros(n: nat)
    ensures
        be_nat(Seq::new(n, |i: int| 0u8)) == 0,
    decreases n,
{
    if n > 0 {
        lemma_be_nat_zeros((n - 1) as nat);
        assert(Seq::new(n, |i: int| 0u8).drop_last() =~= Seq::new((n - 1) as nat, |i: int| 0u8));
    }
}

/// Within the same number of values, each no larger, the total size is no larger.
pub proof fn lemma_no_larger_size(a: Seq<Seq<u8>>, b: Seq<Seq<u8>>)
    requires
        no_larger(a, b),
    ensures
        args_size(a) <= args_size(b),
    decreases a.len(),
{
    if a.len() > 0 {
        lemma_no_larger_size(a.drop_last(), b.drop_last());
        assert(value_size(a[a.len() - 1]) <= value_size(b[b.len() - 1]));
    }
}

/// The executions one pass of the shrinker may make on `a`: two for each
/// value and one for each of its bytes.
pub open spec fn pass_cost(a: Seq<Seq<u8>>) -> nat
    decreases a.len(),
{
    if a.len() == 0 { 0 } else { pass_cost(a.drop_last()) + 2 + a.last().len() }
}

/// Whether each value of `a` is no longer than the value at its place in `b`.
pub open spec fn lens_le(a: Seq<Seq<u8>>, b: Seq<Seq<u8>>) -> bool {
    a.len() == b.len() && forall|q: int| 0 <= q < a.len() ==> (#[trigger] a[q]).len() <= b[q].len()
}

proof fn lemma_pass_cost_take(a: Seq<Seq<u8>>, i: int)
    requires
        0 <= i < a.len(),
    ensures
        pass_cost(a.take(i + 1)) == pass_cost(a.take(i)) + 2 + a[i].len(),
        pass_cost(a.take(i + 1)) <= pass_cost(a),
    decreases a.len(),
{
    assert(a.take(i + 1).drop_last() =~= a.take(i));
    if i + 1 < a.len() {
        lemma_pass_cost_take(a.drop_last(), i);
        assert(a.drop_last().take(i + 1) =~= a.take(i + 1));
        assert(a.drop_last().take(i) =~= a.take(i));
    } else {
        assert(a.take(i + 1) =~= a);
    }
}

proof fn lemma_args_size_update(a: Seq<Seq<u8>>, i: int, x: Seq<u8>)
    requires
        0 <= i < a.len(),
    ensures
        args_size(a.update(i, x)) + value_size(a[i]) == args_size(a) + value_size(x),
    decreases a.len(),
{
    let u = a.update(i, x);
    if i == a.len() - 1 {
        assert(u.drop_last() =~= a.drop_last());
    } else {
        assert(u.drop_last() =~= a.drop_last().update(i, x));
        lemma_args_size_update(a.drop_last(), i, x);
    }
}

proof fn lemma_be_nat_zero_is_zeros(s: Seq<u8>)
    requires
        be_nat(s) == 0,
    ensures
        s == Seq::new(s.len(), |k: int| 0u8),
    decreases s.len(),
{
    if s.len() > 0 {
        let x = be_nat(s.drop_last());
        assert(x * 256 + s.last() as nat == 0);
        assert(x == 0) by (nonlinear_arith) requires x * 256 + s.last() as nat == 0, x >= 0;
        lemma_be_nat_zero_is_zeros(s.drop_last());
        assert(s.last() == 0);
        assert forall|k: int| 0 <= k < s.len() implies s[k] == 0u8 by {
            if k < s.len() - 1 {
                assert(s.drop_last()[k] == Seq::new(s.drop_last().len(), |q: int| 0u8)[k]);
            }
        }
        assert(s =~= Seq::new(s.len(), |k: int| 0u8));
    } else {
        assert(s =~= Seq::new(0, |k: int| 0u8));
    }
}

proof fn lemma_be_nat_zero_byte_strict(s: Seq<u8>, j: int)
    requires
        0 <= j < s.len(),
        s[j] != 0,
    ensures
        be_nat(s.update(j, 0)) < be_nat(s),
    decreases s.len(),
{
    let u = s.update(j, 0);
    if j == s.len() - 1 {
        assert(u.drop_last() =~= s.drop_last());
    } else {
        assert(u.drop_last() =~= s.drop_last().update(j, 0));
        lemma_be_nat_zero_byte_strict(s.drop_last(), j);
        let x = be_nat(u.drop_last());
        let y = be_nat(s.drop_last());
        assert(x * 256 + 255 < y * 256) by (nonlinear_arith)
            requires x < y;
    }
}

pub(crate) fn copy_args(v: &Vec<Vec<u8>>) -> (r: Vec<Vec<u8>>)
    ensures
        views(r@) == views(v@),
{
    let mut out: Vec<Vec<u8>> = Vec::new();
    let mut i: usize = 0;
    while i < v.len()
        invariant
            i <= v@.len(),
            views(out@) == views(v@).take(i as int),
        decreases v@.len() - i,
    {
        let ghost prev = out@;
        out.push(v[i].clone());
        assert(views(out@) =~= views(prev).push(v@[i as int]@));
        assert(views(v@).take(i + 1) =~= views(v@).take(i as int).push(v@[i as int]@));
        i = i + 1;
    }
    assert(views(v@).take(v@.len() as int) =~= views(v@));
    out
}

/// Replaces value `i` of `cur` by `val` if the test still fails for `reason`
/// on the result; counts the attempt.
fn try_candidate<F: Fn(&Vec<Vec<u8>>) -> Trial>(
    run: &F,
    cur: &mut Vec<Vec<u8>>,
    i: usize,
    val: Vec<u8>,
    reason: FailureReason,
) -> (kept: bool)
    requires
        total(*run),
        i < old(cur)@.len(),
        value_size(val@) < value_size(old(cur)@[i as int]@),
        val@.len() <= old(cur)@[i as int]@.len(),
        fails_with(*run, views(old(cur)@), reason),
    ensures
        kept ==> args_size(views(final(cur)@)) < args_size(views(old(cur)@)),
        lens_le(views(final(cur)@), views(old(cur)@)),
        fails_with(*run, views(final(cur)@), reason),
        no_larger(views(final(cur)@), views(old(cur)@)),
        !kept ==> views(final(cur)@) == views(old(cur)@),
        !kept ==> not_failing(*run, views(old(cur)@).update(i as int, val@), reason),
        kept ==> views(final(cur)@) == views(old(cur)@).update(i as int, val@),
{
    let mut cand = copy_args(cur);
    let ghost before = views(cur@);
    cand.set(i, val);
    assert(views(cand@) =~= before.update(i as int, val@));
    let t = run(&cand);
    proof {
        lemma_args_size_update(before, i as int, val@);
    }
    if t.outcome == Outcome::Fail(reason) {
        *cur = cand;
        assert(no_larger(views(cur@), before));
        true
    } else {
        assert(no_larger(before, before));
        assert(run.ensures((&cand,), t));
        false
    }
}

/// Whether argument `i` is a byte string.
pub open spec fn is_bytes_at(kinds: Seq<ParamKind>, i: int) -> bool {
    i < kinds.len() && kinds[i] == ParamKind::Bytes
}

/// The value a reduction to zero gives: the empty string for a byte string,
/// all bytes zero otherwise.
pub open spec fn zero_value(bytes: bool, v: Seq<u8>) -> Seq<u8> {
    if bytes { Seq::empty() } else { Seq::new(v.len(), |k: int| 0u8) }
}

/// Whether every reduction of argument `i` of `a` that the shrinker tries is
/// seen not to fail for `reason`: the value at zero (where that changes it),
/// a byte string without its last byte, and each non-zero byte at zero.
pub open spec fn settled<F: Fn(&Vec<Vec<u8>>) -> Trial>(
    run: F,
    kinds: Seq<ParamKind>,
    a: Seq<Seq<u8>>,
    i: int,
    reason: FailureReason,
) -> bool {
    let v = a[i];
    let b = is_bytes_at(kinds, i);
    &&& (v.len() > 0 && zero_value(b, v) != v) ==> not_failing(run, a.update(i, zero_value(b, v)), reason)
    &&& (b && v.len() > 0) ==> not_failing(run, a.update(i, v.drop_last()), reason)
    &&& forall|j: int| 0 <= j < v.len() && v[j] != 0 ==> not_failing(run, a.update(i, #[trigger] v.update(j, 0)), reason)
}

/// Whether no reduction that the shrinker tries on `a` still fails for `reason`.
pub open spec fn shrink_done<F: Fn(&Vec<Vec<u8>>) -> Trial>(
    run: F,
    kinds: Seq<ParamKind>,
    a: Seq<Seq<u8>>,
    reason: FailureReason,
) -> bool {
    forall|i: int| 0 <= i < a.len() ==> #[trigger] settled(run, kinds, a, i, reason)
}

fn all_zero(v: &Vec<u8>) -> (r: bool)
    ensures
        r == (v@ == Seq::new(v@.len(), |k: int| 0u8)),
{
    let mut i: usize = 0;
    while i < v.len()
        invariant
            i <= v@.len(),
            forall|k: int| 0 <= k < i ==> v@[k] == 0,
        decreases v@.len() - i,
    {
        if v[i] != 0 {
            assert(v@[i as int] != Seq::new(v@.len(), |k: int| 0u8)[i as int]);
            return false;
        }
        i = i + 1;
    }
    assert(v@ =~= Seq::new(v@.len(), |k: int| 0u8));
    true
}

proof fn lemma_budget_left(pstart: int, s0: int, sps: int, w: int, x: int)
    requires
        0 <= sps <= s0,
        0 <= w,
        pstart <= (s0 - sps) * w,
        x < pstart + w,
    ensures
        x < (s0 + 1) * w,
{
    assert((s0 - sps) * w + w <= (s0 + 1) * w) by (nonlinear_arith)
        requires 0 <= sps, 0 <= w;
}

proof fn lemma_budget_next(attempts: int, pstart: int, s0: int, sps: int, scur: int, w: int)
    requires
        0 <= scur < sps <= s0,
        0 <= w,
        pstart <= (s0 - sps) * w,
        attempts <= pstart + w,
    ensures
        attempts <= (s0 - scur) * w,
{
    assert((s0 - sps) * w + w <= (s0 - scur) * w) by (nonlinear_arith)
        requires scur < sps, 0 <= w;
}

proof fn lemma_lens_trans(a: Seq<Seq<u8>>, b: Seq<Seq<u8>>, c: Seq<Seq<u8>>)
    requires
        lens_le(a, b),
        lens_le(b, c),
    ensures
        lens_le(a, c),
{
    assert forall|q: int| 0 <= q < a.len() implies (#[trigger] a[q]).len() <= c[q].len() by {
        assert(a[q].len() <= b[q].len());
    }
}

/// Searches for smaller arguments on which `run` still fails for `reason`.
/// Each value is tried at zero (a byte string empty), a byte string without
/// its last byte, and each non-zero byte at zero; a change is kept only where
/// the test still fails. Passes repeat until one keeps nothing, or until
/// `max_attempts` executions are spent, which the second result reports.
/// Arguments none of whose reductions fail come back unchanged.
pub fn shrink_args<F: Fn(&Vec<Vec<u8>>) -> Trial>(
    run: &F,
    kinds: &Vec<ParamKind>,
    args: Vec<Vec<u8>>,
    reason: FailureReason,
    max_attempts: u64,
) -> (r: (Vec<Vec<u8>>, bool))
    requires
        total(*run),
        deterministic(*run),
        fails_with(*run, views(args@), reason),
    ensures
        fails_with(*run, views(r.0@), reason),
        no_larger(views(r.0@), views(args@)),
        args_size(views(r.0@)) <= args_size(views(args@)),
        !r.1 ==> shrink_done(*run, kinds@, views(r.0@), reason),
        shrink_done(*run, kinds@, views(args@), reason) ==> views(r.0@) == views(args@),
        max_attempts >= (args_size(views(args@)) + 1) * pass_cost(views(args@)) ==> !r.1,
{
    let ghost a0 = views(args@);
    let ghost w0: int = pass_cost(a0) as int;
    let ghost s0: int = args_size(a0) as int;
    let ghost big: bool = max_attempts >= (s0 + 1) * w0;
    assert(lens_le(a0, a0));
    let ghost done0 = shrink_done(*run, kinds@, views(args@), reason);
    let mut cur = args;
    let mut attempts: u64 = 0;
    let mut starved = false;
    let ghost mut first = true;
    assert(no_larger(views(cur@), views(args@)));
    loop
        invariant_except_break
            attempts <= (s0 - args_size(views(cur@))) * w0,
        invariant
            w0 == pass_cost(a0),
            s0 == args_size(a0),
            big == (max_attempts >= (s0 + 1) * w0),
            lens_le(views(cur@), a0),
            big ==> !starved,
            total(*run),
            deterministic(*run),
            fails_with(*run, views(cur@), reason),
            no_larger(views(cur@), views(args@)),
            attempts <= max_attempts,
            a0 == views(args@),
            done0 == shrink_done(*run, kinds@, a0, reason),
            first && done0 ==> views(cur@) == a0,
            !first ==> !done0,
        ensures
            fails_with(*run, views(cur@), reason),
            no_larger(views(cur@), views(args@)),
            !starved ==> shrink_done(*run, kinds@, views(cur@), reason),
            done0 ==> views(cur@) == a0,
            big ==> !starved,
        decreases max_attempts - attempts,
    {
        let start = attempts;
        proof { lemma_no_larger_size(views(cur@), a0); }
        let ghost sps: int = args_size(views(cur@)) as int;
        let ghost pstart: int = attempts as int;
        let mut kept_any = false;
        let mut i: usize = 0;
        let ghost len0 = cur@.len();
        while i < cur.len()
            invariant
                total(*run),
                fails_with(*run, views(cur@), reason),
                no_larger(views(cur@), views(args@)),
                cur@.len() == len0,
                i <= len0,
                start <= attempts <= max_attempts,
                kept_any ==> attempts > start,
                !kept_any && !starved ==> forall|q: int| 0 <= q < i ==> #[trigger] settled(*run, kinds@, views(cur@), q, reason),
                deterministic(*run),
                a0 == views(args@),
                done0 == shrink_done(*run, kinds@, a0, reason),
                first && done0 ==> !kept_any && views(cur@) == a0,
                w0 == pass_cost(a0),
                s0 == args_size(a0),
                big == (max_attempts >= (s0 + 1) * w0),
                lens_le(views(cur@), a0),
                big ==> !starved,
                0 <= sps <= s0,
                pstart == start,
                pstart <= (s0 - sps) * w0,
                args_size(views(cur@)) <= sps,
                kept_any ==> args_size(views(cur@)) < sps,
                attempts <= pstart + pass_cost(a0.take(i as int)),
            decreases len0 - i,
        {
            let b = i < kinds.len() && kinds[i] == ParamKind::Bytes;
            let ghost vi = views(cur@);
            assert(b == is_bytes_at(kinds@, i as int));
            let n = cur[i].len();
            let zero_changes = n > 0 && (b || !all_zero(&cur[i]));
            assert(zero_changes == (vi[i as int].len() > 0 && zero_value(b, vi[i as int]) != vi[i as int])) by {
                if n > 0 && b {
                    assert(zero_value(b, vi[i as int]).len() == 0);
                }
            }
            if zero_changes {
                if attempts < max_attempts {
                    let zero: Vec<u8> = if b { Vec::new() } else { zeros(n) };
                    proof {
                        lemma_be_nat_zeros(n as nat);
                        assert(zero@ =~= zero_value(b, vi[i as int]));
                        if !b && be_nat(vi[i as int]) == 0 {
                            lemma_be_nat_zero_is_zeros(vi[i as int]);
                        }
                    }
                    let ghost prev = views(cur@);
                    let ghost zv = zero@;
                    let k = try_candidate(run, &mut cur, i, zero, reason);
                    proof {
                        if first && done0 {
                            assert(settled(*run, kinds@, a0, i as int, reason));
                            lemma_fail_or_pass(*run, prev.update(i as int, zv), reason);
                        }
                    }
                    if k {
                        kept_any = true;
                    }
                    proof { lemma_keep_bound(prev, views(cur@), views(args@)); }
                    proof {
                        lemma_lens_trans(views(cur@), prev, a0);
                        lemma_no_larger_size(views(cur@), prev);
                    }
                    attempts = attempts + 1;
                } else {
                    proof {
                        if big {
                            lemma_pass_cost_take(a0, i as int);
                            lemma_budget_left(pstart, s0, sps, w0, attempts as int);
                        }
                    }
                    starved = true;
                }
            }
            assert(attempts <= pstart + pass_cost(a0.take(i as int)) + 1);
            let ghost after_zero = views(cur@);
            if b && cur[i].len() > 0 {
                if attempts < max_attempts {
                    let mut shorter = cur[i].clone();
                    proof { lemma_be_nat_drop_last(shorter@); }
                    shorter.pop();
                    let ghost prev = views(cur@);
                    let ghost sv = shorter@;
                    let k = try_candidate(run, &mut cur, i, shorter, reason);
                    proof {
                        if first && done0 {
                            assert(settled(*run, kinds@, a0, i as int, reason));
                            assert(sv == a0[i as int].drop_last());
                            lemma_fail_or_pass(*run, prev.update(i as int, sv), reason);
                        }
                    }
                    if k {
                        kept_any = true;
                    }
                    proof { lemma_keep_bound(prev, views(cur@), views(args@)); }
                    proof {
                        lemma_lens_trans(views(cur@), prev, a0);
                        lemma_no_larger_size(views(cur@), prev);
                    }
                    attempts = attempts + 1;
                } else {
                    proof {
                        if big {
                            lemma_pass_cost_take(a0, i as int);
                            lemma_budget_left(pstart, s0, sps, w0, attempts as int);
                        }
                    }
                    starved = true;
                }
            }
            assert(attempts <= pstart + pass_cost(a0.take(i as int)) + 2);
            let mut j: usize = 0;
            let m = cur[i].len();
            assert(views(cur@)[i as int].len() <= a0[i as int].len());
            while j < m
                invariant
                    total(*run),
                    i < cur@.len(),
                    cur@.len() == len0,
                    cur@[i as int]@.len() == m,
                    fails_with(*run, views(cur@), reason),
                    no_larger(views(cur@), views(args@)),
                    start <= attempts <= max_attempts,
                    kept_any ==> attempts > start,
                    !kept_any && !starved ==> views(cur@) == vi,
                    !kept_any && !starved ==> forall|q: int| 0 <= q < i ==> #[trigger] settled(*run, kinds@, vi, q, reason),
                    !kept_any && !starved ==> ((vi[i as int].len() > 0 && zero_value(b, vi[i as int]) != vi[i as int])
                        ==> not_failing(*run, vi.update(i as int, zero_value(b, vi[i as int])), reason)),
                    !kept_any && !starved ==> ((b && vi[i as int].len() > 0)
                        ==> not_failing(*run, vi.update(i as int, vi[i as int].drop_last()), reason)),
                    !kept_any && !starved ==> forall|k: int| 0 <= k < j && vi[i as int][k] != 0
                        ==> not_failing(*run, vi.update(i as int, #[trigger] vi[i as int].update(k, 0)), reason),
                    b == is_bytes_at(kinds@, i as int),
                    deterministic(*run),
                    done0 == shrink_done(*run, kinds@, a0, reason),
                    first && done0 ==> !kept_any && views(cur@) == a0 && vi == a0,
                    w0 == pass_cost(a0),
                    s0 == args_size(a0),
                    big == (max_attempts >= (s0 + 1) * w0),
                    lens_le(views(cur@), a0),
                    big ==> !starved,
                    0 <= sps <= s0,
                    pstart == start,
                    pstart <= (s0 - sps) * w0,
                    args_size(views(cur@)) <= sps,
                    kept_any ==> args_size(views(cur@)) < sps,
                    m <= a0[i as int].len(),
                    j <= m,
                    attempts <= pstart + pass_cost(a0.take(i as int)) + 2 + j,
                decreases m - j,
            {
                if cur[i][j] != 0 {
                    if attempts < max_attempts {
                        let mut smaller = cur[i].clone();
                        proof { lemma_be_nat_zero_byte_strict(smaller@, j as int); }
                        smaller.set(j, 0);
                        let ghost sm = smaller@;
                        let ghost prev = views(cur@);
                        let k = try_candidate(run, &mut cur, i, smaller, reason);
                        proof {
                            if first && done0 {
                                assert(settled(*run, kinds@, a0, i as int, reason));
                                assert(sm == a0[i as int].update(j as int, 0));
                                lemma_fail_or_pass(*run, prev.update(i as int, sm), reason);
                            }
                        }
                        if k {
                            kept_any = true;
                            assert(views(cur@)[i as int] == sm);
                        } else {
                            assert(views(cur@)[i as int] == prev[i as int]);
                        }
                        proof { lemma_keep_bound(prev, views(cur@), views(args@)); }
                        proof {
                            lemma_lens_trans(views(cur@), prev, a0);
                            lemma_no_larger_size(views(cur@), prev);
                        }
                        attempts = attempts + 1;
                    } else {
                        proof {
                            if big {
                                lemma_pass_cost_take(a0, i as int);
                                lemma_budget_left(pstart, s0, sps, w0, attempts as int);
                            }
                        }
                        starved = true;
                    }
                }
                j = j + 1;
            }
            proof {
                if !kept_any && !starved {
                    assert(settled(*run, kinds@, vi, i as int, reason));
                }
                lemma_pass_cost_take(a0, i as int);
            }
            i = i + 1;
        }
        if !kept_any {
            assert(!starved ==> shrink_done(*run, kinds@, views(cur@), reason));
            break;
        }
        proof {
            first = false;
            assert(a0.take(len0 as int) =~= a0);
            lemma_budget_next(attempts as int, pstart, s0, sps, args_size(views(cur@)) as int, w0);
        }
    }
    proof { lemma_no_larger_size(views(cur@), views(args@)); }
    (cur, starved)
}

proof fn lemma_keep_bound(prev: Seq<Seq<u8>>, next: Seq<Seq<u8>>, orig: Seq<Seq<u8>>)
    requires
        no_larger(next, prev),
        no_larger(prev, orig),
    ensures
        no_larger(next, orig),
{
    assert forall|i: int| 0 <= i < next.len() implies value_size(#[trigger] next[i]) <= value_size(orig[i]) by {
        assert(value_size(prev[i]) <= value_size(orig[i]));
    }
}

fn zeros(n: usize) -> (r: Vec<u8>)
    ensures
        r@ == Seq::new(n as nat, |i: int| 0u8),
{
    let mut out: Vec<u8> = Vec::new();
    let mut i: usize = 0;
    while i < n
        invariant
            i <= n,
            out@ == Seq::new(i as nat, |k: int| 0u8),
        decreases n - i,
    {
        out.push(0);
        assert(out@ =~= Seq::new((i + 1) as nat, |k: int| 0u8));
        i = i + 1;
    }
    out
}

} // verus!
