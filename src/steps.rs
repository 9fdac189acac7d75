use vstd::prelude::*;

verus! {

/// The integration steps that cover `t` ticks with steps of `dt` ticks: first the
/// remainder of `t` by `dt` when it is not zero, then `t / dt` whole steps.
pub open spec fn step_plan(t: nat, dt: nat) -> Seq<nat>
    recommends
        dt > 0,
{
    let whole = Seq::new(t / dt, |i: int| dt);
    if t % dt == 0 {
        whole
    } else {
        seq![t % dt] + whole
    }
}

pub open spec fn sum(s: Seq<nat>) -> nat
    decreases s.len(),
{
    if s.len() == 0 {
        0
    } else {
        sum(s.drop_last()) + s.last()
    }
}

/// Splits a duration of `t` ticks into the steps that one update each takes:
/// a short remainder step first, if any, then whole steps of `dt`.
pub fn update_steps(t: u64, dt: u64) -> (r: Vec<u64>)
    requires
        dt > 0,
    ensures
        r@.len() == step_plan(t as nat, dt as nat).len(),
        forall|i: int| 0 <= i < r@.len() ==> r@[i] as nat == #[trigger] step_plan(t as nat, dt as nat)[i],
{
    let n = t / dt;
    let rem = t % dt;
    let mut r: Vec<u64> = Vec::new();
    if rem != 0 {
        r.push(rem);
    }
    let start: usize = r.len();
    let mut k: u64 = 0;
    while k < n
        invariant
            n == t / dt,
            rem == t % dt,
            k <= n,
            start == (if rem == 0 { 0usize } else { 1usize }),
            r@.len() == start + k,
            start == 1 ==> r@[0] == rem,
            forall|i: int| start <= i < r@.len() ==> #[trigger] r@[i] == dt,
        decreases n - k,
    {
        r.push(dt);
        k = k + 1;
    }
    r
}

/// The steps of `update_steps` add up to the whole duration, and none is longer than `dt`.
pub proof fn lemma_steps_cover(t: nat, dt: nat)
    requires
        dt > 0,
    ensures
        sum(step_plan(t, dt)) == t,
        forall|i: int| 0 <= i < step_plan(t, dt).len() ==> 0 < #[trigger] step_plan(t, dt)[i] <= dt,
{
    lemma_sum_constant(t / dt, dt);
    let whole = Seq::new(t / dt, |i: int| dt);
    assert(sum(whole) == (t / dt) * dt);
    vstd::arithmetic::div_mod::lemma_fundamental_div_mod(t as int, dt as int);
    assert(dt * (t / dt) == (t / dt) * dt) by (nonlinear_arith);
    if t % dt == 0 {
        assert(step_plan(t, dt) == whole);
    } else {
        assert(step_plan(t, dt) == seq![t % dt] + whole);
        lemma_sum_prepend(t % dt, whole);
        vstd::arithmetic::div_mod::lemma_mod_bound(t as int, dt as int);
    }
}

proof fn lemma_sum_constant(n: nat, v: nat)
    ensures
        sum(Seq::new(n, |i: int| v)) == n * v,
    decreases n,
{
    if n > 0 {
        lemma_sum_constant((n - 1) as nat, v);
        let s = Seq::new(n, |i: int| v);
        assert(s.drop_last() =~= Seq::new((n - 1) as nat, |i: int| v));
        assert(s.last() == v);
        assert(sum(s) == sum(s.drop_last()) + s.last());
        assert((n - 1) * v + v == n * v) by (nonlinear_arith)
            requires
                n > 0,
        ;
    } else {
        assert(0 * v == 0);
    }
}

proof fn lemma_sum_prepend(x: nat, s: Seq<nat>)
    ensures
        sum(seq![x] + s) == x + sum(s),
    decreases s.len(),
{
    if s.len() > 0 {
        lemma_sum_prepend(x, s.drop_last());
        assert((seq![x] + s).drop_last() =~= seq![x] + s.drop_last());
        assert((seq![x] + s).last() == s.last());
    } else {
        assert(seq![x] + s =~= seq![x]);
        assert(seq![x].drop_last() =~= Seq::<nat>::empty());
        assert(sum(seq![x].drop_last()) == 0);
    }
}

} // verus!
