//! The fan curve and its evaluator.
//!
//! A curve is an unordered collection of [`FanStep`] breakpoints.  Its
//! power at a temperature is defined on the sorted form of the curve:
//! clamp below the first breakpoint and above the last one, and
//! interpolate linearly inside, rounding to the nearest percent with
//! halves rounded up.  Breakpoints are ordered by temperature; two
//! breakpoints with the same temperature are ordered by power, which
//! fixes an otherwise arbitrary tie-break.

use vstd::prelude::*;
use vstd::relations::{sorted_by, total_ordering};
use vstd::seq_lib::lemma_sorted_unique;

verus! {

/// One breakpoint of a fan curve: at `temp` degrees Celsius the fan
/// should run at `power` percent of its maximum speed.
#[derive(Clone, Copy, Debug, PartialEq, Eq, Structural)]
pub struct FanStep {
    pub temp: i32,
    pub power: u8,
}

impl FanStep {
    /// A breakpoint is well formed when its power is a percentage.
    pub open spec fn wf(self) -> bool {
        self.power <= 100
    }
}

/// All breakpoints of a curve carry a power of at most `hi`.
pub open spec fn powers_at_most(steps: Seq<FanStep>, hi: int) -> bool {
    forall|i: int| 0 <= i < steps.len() ==> #[trigger] steps[i].power as int <= hi
}

/// Breakpoint order: by temperature, ties broken by power.
pub open spec fn step_le(a: FanStep, b: FanStep) -> bool {
    a.temp < b.temp || (a.temp == b.temp && a.power <= b.power)
}

/// The breakpoint order as a relation value, for `sort_by` and the
/// sortedness predicate.
pub open spec fn step_ord() -> spec_fn(FanStep, FanStep) -> bool {
    |a: FanStep, b: FanStep| step_le(a, b)
}

/// The breakpoint order is a total order, so every curve has exactly
/// one sorted form.
pub proof fn lemma_step_ord_total()
    ensures
        total_ordering(step_ord()),
{
    let r = step_ord();
    assert forall|a: FanStep, b: FanStep| #[trigger] r(a, b) && #[trigger] r(b, a) implies a == b by {
        assert(a.temp == b.temp && a.power == b.power);
    }
    assert forall|a: FanStep, b: FanStep| !(#[trigger] r(a, b)) implies r(b, a) by {}
    assert forall|a: FanStep, b: FanStep, c: FanStep|
        #[trigger] r(a, b) && #[trigger] r(b, c) implies r(a, c) by {}
    assert forall|a: FanStep| #[trigger] r(a, a) by {}
}

/// Round-to-nearest division `n / d` for `n >= 0`, `d > 0`; halves
/// round up.
pub open spec fn round_div(n: int, d: int) -> int
    recommends
        0 <= n,
        0 < d,
{
    (2 * n + d) / (2 * d)
}

/// Exact linear interpolation between `(t0, p0)` and `(t1, p1)` at
/// temperature `t`, rounded to the nearest integer.
pub open spec fn interp_at(t0: int, p0: int, t1: int, p1: int, t: int) -> int
    recommends
        t0 < t1,
        t0 <= t <= t1,
        0 <= p0,
        0 <= p1,
{
    round_div(p0 * (t1 - t) + p1 * (t - t0), t1 - t0)
}

/// Power of a curve strictly inside its temperature range: linear
/// interpolation within the first bracket of consecutive breakpoints
/// whose temperatures enclose `t`.
pub open spec fn bracket_power(s: Seq<FanStep>, t: int) -> int
    recommends
        s.len() > 0,
    decreases s.len(),
{
    if s.len() <= 1 {
        s[0].power as int
    } else if t <= s[0].temp as int {
        s[0].power as int
    } else if t <= s[1].temp as int {
        interp_at(s[0].temp as int, s[0].power as int, s[1].temp as int, s[1].power as int, t)
    } else {
        bracket_power(s.drop_first(), t)
    }
}

/// Power of a sorted curve: zero when empty, clamped to the first
/// breakpoint's power below it and to the last one's above it, and
/// interpolated in between.
pub open spec fn power_on_sorted(s: Seq<FanStep>, t: int) -> int {
    if s.len() == 0 {
        0
    } else if t <= s[0].temp as int {
        s[0].power as int
    } else if t >= s.last().temp as int {
        s.last().power as int
    } else {
        bracket_power(s, t)
    }
}

/// The sorted form of a curve.
pub open spec fn sorted_form(steps: Seq<FanStep>) -> Seq<FanStep> {
    steps.sort_by(step_ord())
}

/// The power a curve commands at temperature `t`: evaluate the sorted
/// form of the curve.
pub open spec fn power_spec(steps: Seq<FanStep>, t: int) -> int {
    power_on_sorted(sorted_form(steps), t)
}

fn step_le_exec(a: &FanStep, b: &FanStep) -> (r: bool)
    ensures
        r == step_le(*a, *b),
{
    a.temp < b.temp || (a.temp == b.temp && a.power <= b.power)
}

/// Sort breakpoints by temperature, ties by power.
pub fn sort_fan_steps(steps: &Vec<FanStep>) -> (out: Vec<FanStep>)
    ensures
        out@ == sorted_form(steps@),
        out@.to_multiset() == steps@.to_multiset(),
        sorted_by(out@, step_ord()),
{
    broadcast use vstd::seq_lib::group_to_multiset_ensures;
    broadcast use vstd::multiset::group_multiset_axioms;

    let mut work: Vec<FanStep> = Vec::new();
    let mut c: usize = 0;
    while c < steps.len()
        invariant
            c <= steps@.len(),
            work@ == steps@.take(c as int),
        decreases steps@.len() - c,
    {
        work.push(steps[c]);
        assert(steps@.take(c as int).push(steps@[c as int]) =~= steps@.take(c + 1));
        c += 1;
    }
    assert(work@ =~= steps@);

    let mut out: Vec<FanStep> = Vec::new();
    while work.len() > 0
        invariant
            out@.to_multiset().add(work@.to_multiset()) == steps@.to_multiset(),
            sorted_by(out@, step_ord()),
            forall|i: int, j: int|
                0 <= i < out@.len() && 0 <= j < work@.len() ==> step_le(out@[i], work@[j]),
        decreases work@.len(),
    {
        let mut m: usize = 0;
        let mut k: usize = 1;
        while k < work.len()
            invariant
                0 < work@.len(),
                m < k <= work@.len(),
                forall|j: int| 0 <= j < k ==> step_le(work@[m as int], work@[j]),
            decreases work@.len() - k,
        {
            if step_le_exec(&work[k], &work[m]) {
                m = k;
            }
            k += 1;
        }
        let ghost old_out = out@;
        let ghost old_work = work@;
        let x = work.remove(m);
        out.push(x);
        proof {
            broadcast use vstd::seq_lib::group_to_multiset_ensures;
            broadcast use vstd::multiset::group_multiset_axioms;

            assert(old_work[m as int] == x);
            assert(old_work.contains(x));
            assert(old_work.to_multiset().contains(x));
            assert(out@ == old_out.push(x));
            assert(work@ == old_work.remove(m as int));
            assert(old_out.push(x).to_multiset() =~= old_out.to_multiset().insert(x));
            assert(old_work.remove(m as int).to_multiset() =~= old_work.to_multiset().remove(x));
            assert(out@.to_multiset() =~= old_out.to_multiset().insert(x));
            assert(work@.to_multiset() =~= old_work.to_multiset().remove(x));
            assert(out@.to_multiset().add(work@.to_multiset()) =~= old_out.to_multiset().add(
                old_work.to_multiset(),
            ));
            assert forall|i: int, j: int|
                0 <= i < out@.len() && 0 <= j < work@.len() implies step_le(
                out@[i],
                work@[j],
            ) by {
                assert(work@[j] == if j < m { old_work[j] } else { old_work[j + 1] });
            }
            assert forall|i: int, j: int| 0 <= i < j < out@.len() implies step_le(
                out@[i],
                out@[j],
            ) by {
                if j < out@.len() - 1 {
                    assert(step_ord()(old_out[i], old_out[j]));
                }
            }
        }
    }
    proof {
        steps@.lemma_sort_by_ensures(step_ord());
        lemma_step_ord_total();
        assert(out@.to_multiset() =~= steps@.to_multiset());
        lemma_sorted_unique(out@, sorted_form(steps@), step_ord());
        assert(out@ =~= sorted_form(steps@));
    }
    out
}

/// Rounded division stays between any pair of bounds that hold of the
/// exact quotient.
pub proof fn lemma_round_div_bounds(n: int, d: int, lo: int, hi: int)
    requires
        0 < d,
        lo * d <= n,
        n <= hi * d,
    ensures
        lo <= round_div(n, d) <= hi,
{
    broadcast use vstd::arithmetic::div_mod::lemma_div_is_ordered;
    broadcast use vstd::arithmetic::div_mod::lemma_fundamental_div_mod_converse_div;

    assert(2 * (lo * d) + d == lo * (2 * d) + d) by (nonlinear_arith);
    assert((lo * (2 * d) + d) / (2 * d) == lo) by {
        lemma_fundamental_div_mod_converse_div_use(lo * (2 * d) + d, 2 * d, lo, d);
    }
    assert(2 * (hi * d) + d == hi * (2 * d) + d) by (nonlinear_arith);
    assert((hi * (2 * d) + d) / (2 * d) == hi) by {
        lemma_fundamental_div_mod_converse_div_use(hi * (2 * d) + d, 2 * d, hi, d);
    }
    assert(2 * n + d <= 2 * (hi * d) + d);
    assert(2 * (lo * d) + d <= 2 * n + d);
    assert((2 * (lo * d) + d) / (2 * d) <= (2 * n + d) / (2 * d));
    assert((2 * n + d) / (2 * d) <= (2 * (hi * d) + d) / (2 * d));
}

proof fn lemma_fundamental_div_mod_converse_div_use(x: int, d: int, q: int, r: int)
    requires
        0 < d,
        0 <= r < d,
        x == q * d + r,
    ensures
        x / d == q,
{
    vstd::arithmetic::div_mod::lemma_fundamental_div_mod_converse_div(x, d, q, r);
}

/// An interpolated power lies between the powers it interpolates,
/// whenever those lie between `lo` and `hi`.
pub proof fn lemma_interp_bounds(t0: int, p0: int, t1: int, p1: int, t: int, lo: int, hi: int)
    requires
        t0 < t1,
        t0 <= t <= t1,
        lo <= p0 <= hi,
        lo <= p1 <= hi,
    ensures
        lo <= interp_at(t0, p0, t1, p1, t) <= hi,
{
    let d = t1 - t0;
    let n = p0 * (t1 - t) + p1 * (t - t0);
    assert(lo * d <= n) by (nonlinear_arith)
        requires
            t0 < t1,
            t0 <= t <= t1,
            lo <= p0,
            lo <= p1,
            d == t1 - t0,
            n == p0 * (t1 - t) + p1 * (t - t0),
    ;
    assert(n <= hi * d) by (nonlinear_arith)
        requires
            t0 < t1,
            t0 <= t <= t1,
            p0 <= hi,
            p1 <= hi,
            d == t1 - t0,
            n == p0 * (t1 - t) + p1 * (t - t0),
    ;
    lemma_round_div_bounds(n, d, lo, hi);
}

/// Every power the curve can command lies between bounds that hold of
/// all its breakpoints.
pub proof fn lemma_bracket_power_range(s: Seq<FanStep>, t: int, hi: int)
    requires
        s.len() > 0,
        powers_at_most(s, hi),
    ensures
        0 <= bracket_power(s, t) <= hi,
    decreases s.len(),
{
    if s.len() <= 1 {
    } else if t <= s[0].temp as int {
    } else if t <= s[1].temp as int {
        lemma_interp_bounds(
            s[0].temp as int,
            s[0].power as int,
            s[1].temp as int,
            s[1].power as int,
            t,
            0,
            hi,
        );
    } else {
        assert(powers_at_most(s.drop_first(), hi)) by {
            assert forall|i: int| 0 <= i < s.drop_first().len() implies #[trigger] s.drop_first()[i].power as int
                <= hi by {
                assert(s.drop_first()[i] == s[i + 1]);
            }
        }
        lemma_bracket_power_range(s.drop_first(), t, hi);
    }
}

/// Same bounds for the whole evaluator on a (not necessarily sorted)
/// sequence.
pub proof fn lemma_power_on_sorted_range(s: Seq<FanStep>, t: int, hi: int)
    requires
        0 <= hi,
        powers_at_most(s, hi),
    ensures
        0 <= power_on_sorted(s, t) <= hi,
{
    if s.len() == 0 {
    } else if t <= s[0].temp as int {
    } else if t >= s.last().temp as int {
        assert(s.last().power as int <= hi);
    } else {
        lemma_bracket_power_range(s, t, hi);
    }
}

/// The bracket the evaluator interpolates in is the first pair of
/// consecutive breakpoints whose temperatures enclose `t`.
pub proof fn lemma_bracket_finds(s: Seq<FanStep>, t: int, k: int)
    requires
        sorted_by(s, step_ord()),
        0 <= k < s.len() - 1,
        (s[k].temp as int) < t,
        t <= s[k + 1].temp as int,
    ensures
        bracket_power(s, t) == interp_at(
            s[k].temp as int,
            s[k].power as int,
            s[k + 1].temp as int,
            s[k + 1].power as int,
            t,
        ),
    decreases k,
{
    if k == 0 {
    } else {
        if k > 1 {
            assert(step_ord()(s[1], s[k]));
        }
        assert(s[1].temp as int <= s[k].temp as int);
        assert(step_ord()(s[0], s[1]));
        assert(s[0].temp as int <= s[1].temp as int);
        assert(!(t <= s[0].temp as int) && !(t <= s[1].temp as int));
        let d = s.drop_first();
        assert forall|i: int, j: int| 0 <= i < j < d.len() implies #[trigger] step_ord()(
            d[i],
            d[j],
        ) by {
            assert(d[i] == s[i + 1]);
            assert(d[j] == s[j + 1]);
            assert(step_ord()(s[i + 1], s[j + 1]));
        }
        assert(d[k - 1] == s[k]);
        assert(d[k] == s[k + 1]);
        lemma_bracket_finds(d, t, k - 1);
    }
}

/// Rounded linear interpolation on machine integers, for breakpoint
/// temperatures (which fit an `i32`) and powers (which fit a `u8`).
fn interp_exec(t0: i64, p0: u64, t1: i64, p1: u64, tt: i64) -> (r: u64)
    requires
        -0x8000_0000 <= t0,
        t1 <= 0x7fff_ffff,
        t0 < t1,
        t0 <= tt <= t1,
        p0 <= 255,
        p1 <= 255,
    ensures
        r as int == interp_at(t0 as int, p0 as int, t1 as int, p1 as int, tt as int),
        r <= 255,
{
    let d = (t1 - t0) as u64;
    let a = (t1 - tt) as u64;
    let b = (tt - t0) as u64;
    assert(a <= d && b <= d && 0 < d && d <= 0xffff_ffffu64);
    assert(p0 * a <= 255 * 0xffff_ffffu64) by (nonlinear_arith)
        requires
            p0 <= 255,
            a <= 0xffff_ffffu64,
    ;
    assert(p1 * b <= 255 * 0xffff_ffffu64) by (nonlinear_arith)
        requires
            p1 <= 255,
            b <= 0xffff_ffffu64,
    ;
    let n = p0 * a + p1 * b;
    let q = (2 * n + d) / (2 * d);
    proof {
        lemma_interp_bounds(t0 as int, p0 as int, t1 as int, p1 as int, tt as int, 0, 255);
        assert(n as int == p0 as int * (t1 - tt) + p1 as int * (tt - t0));
    }
    q
}

/// Evaluate a curve already in sorted form.
pub fn power_from_sorted(s: &Vec<FanStep>, t: i32) -> (p: u8)
    requires
        sorted_by(s@, step_ord()),
    ensures
        p as int == power_on_sorted(s@, t as int),
{
    let n = s.len();
    if n == 0 {
        return 0;
    }
    if t <= s[0].temp {
        return s[0].power;
    }
    if t >= s[n - 1].temp {
        proof {
            assert(s@.last() == s@[n - 1]);
        }
        return s[n - 1].power;
    }
    proof {
        assert(s@.last() == s@[n - 1]);
    }
    let mut i: usize = 0;
    loop
        invariant
            sorted_by(s@, step_ord()),
            n == s@.len(),
            2 <= n,
            i < n - 1,
            (s@[i as int].temp as int) < t as int,
            (t as int) < s@.last().temp as int,
        decreases n - i,
    {
        if t <= s[i + 1].temp {
            let q = interp_exec(
                s[i].temp as i64,
                s[i].power as u64,
                s[i + 1].temp as i64,
                s[i + 1].power as u64,
                t as i64,
            );
            proof {
                lemma_bracket_finds(s@, t as int, i as int);
            }
            return q as u8;
        }
        i += 1;
        proof {
            assert(s@.last() == s@[n - 1]);
            if i == n - 1 {
                assert((t as int) > s@.last().temp as int);
            }
        }
    }
}

/// Power the curve commands at temperature `t`.
///
/// The breakpoints need not be sorted; evaluation sorts them first.
/// An empty curve commands zero power, a temperature at or below the
/// lowest breakpoint its power, one at or above the highest breakpoint
/// that one's power, and anything in between the rounded linear
/// interpolation within its bracket.
pub fn get_fan_power(steps: &Vec<FanStep>, temp: i32) -> (p: u8)
    ensures
        p as int == power_spec(steps@, temp as int),
        powers_at_most(steps@, 100) ==> p <= 100,
{
    let sorted = sort_fan_steps(steps);
    let p = power_from_sorted(&sorted, temp);
    proof {
        if powers_at_most(steps@, 100) {
            broadcast use vstd::seq_lib::group_to_multiset_ensures;
            broadcast use vstd::multiset::group_multiset_axioms;

            assert(powers_at_most(sorted@, 100)) by {
                assert forall|i: int| 0 <= i < sorted@.len() implies #[trigger] sorted@[i].power as int
                    <= 100 by {
                    assert(sorted@.to_multiset().contains(sorted@[i]));
                    assert(steps@.to_multiset().contains(sorted@[i]));
                    let w = choose|w: int| 0 <= w < steps@.len() && steps@[w] == sorted@[i];
                    assert(steps@[w].power as int <= 100);
                }
            }
            lemma_power_on_sorted_range(sorted@, temp as int, 100);
        }
    }
    p
}

/// The curve is an unordered collection: two arrangements of the
/// same breakpoints command the same power everywhere.
pub proof fn lemma_power_order_irrelevant(s1: Seq<FanStep>, s2: Seq<FanStep>, t: int)
    requires
        s1.to_multiset() == s2.to_multiset(),
    ensures
        power_spec(s1, t) == power_spec(s2, t),
{
    s1.lemma_sort_by_ensures(step_ord());
    s2.lemma_sort_by_ensures(step_ord());
    lemma_step_ord_total();
    lemma_sorted_unique(sorted_form(s1), sorted_form(s2), step_ord());
    assert(sorted_form(s1) =~= sorted_form(s2));
}

/// An empty curve evaluates to zero power at every temperature.
pub proof fn lemma_power_empty(t: int)
    ensures
        power_spec(Seq::<FanStep>::empty(), t) == 0,
{
    broadcast use vstd::seq_lib::group_to_multiset_ensures;

    let e = Seq::<FanStep>::empty();
    e.lemma_sort_by_ensures(step_ord());
    assert(sorted_form(e).to_multiset().len() == 0);
}

/// At or below the least breakpoint, the curve commands that
/// breakpoint's power.  `i` must name the least breakpoint in the
/// breakpoint order, so with equal temperatures the least power wins.
pub proof fn lemma_power_clamps_low(steps: Seq<FanStep>, t: int, i: int)
    requires
        0 <= i < steps.len(),
        forall|j: int| 0 <= j < steps.len() ==> step_le(steps[i], #[trigger] steps[j]),
        t <= steps[i].temp as int,
    ensures
        power_spec(steps, t) == steps[i].power as int,
{
    broadcast use vstd::seq_lib::group_to_multiset_ensures;
    broadcast use vstd::multiset::group_multiset_axioms;

    let s = sorted_form(steps);
    steps.lemma_sort_by_ensures(step_ord());
    lemma_step_ord_total();
    assert(steps.to_multiset().len() == steps.len());
    assert(s.to_multiset().len() == s.len());
    assert(s.len() == steps.len());
    assert(steps.contains(steps[i]));
    assert(s.to_multiset().count(steps[i]) > 0);
    assert(s.contains(steps[i]));
    let w = choose|w: int| 0 <= w < s.len() && s[w] == steps[i];
    if w > 0 {
        assert(step_ord()(s[0], s[w]));
    }
    assert(s.contains(s[0]));
    assert(steps.to_multiset().count(s[0]) > 0);
    assert(steps.contains(s[0]));
    let v = choose|v: int| 0 <= v < steps.len() && steps[v] == s[0];
    assert(step_le(steps[i], steps[v]));
    assert(step_le(s[0], steps[i]) && step_le(steps[i], s[0]));
    assert(s[0] == steps[i]);
    assert(t <= s[0].temp as int);
}

/// At or above the greatest breakpoint, the curve commands that
/// breakpoint's power.  `i` must name the greatest breakpoint in the
/// breakpoint order, so with equal temperatures the greatest power
/// wins.  When the curve has several breakpoints that all share
/// temperature `t`, the low clamp applies instead, so that case is
/// left out here.
pub proof fn lemma_power_clamps_high(steps: Seq<FanStep>, t: int, i: int)
    requires
        0 <= i < steps.len(),
        forall|j: int| 0 <= j < steps.len() ==> step_le(#[trigger] steps[j], steps[i]),
        t >= steps[i].temp as int,
        steps.len() == 1 || exists|j: int|
            0 <= j < steps.len() && (#[trigger] steps[j].temp as int) < t,
    ensures
        power_spec(steps, t) == steps[i].power as int,
{
    broadcast use vstd::seq_lib::group_to_multiset_ensures;
    broadcast use vstd::multiset::group_multiset_axioms;

    let s = sorted_form(steps);
    steps.lemma_sort_by_ensures(step_ord());
    lemma_step_ord_total();
    assert(steps.to_multiset().len() == steps.len());
    assert(s.to_multiset().len() == s.len());
    assert(s.len() == steps.len());
    assert(steps.contains(steps[i]));
    assert(s.to_multiset().count(steps[i]) > 0);
    assert(s.contains(steps[i]));
    let w = choose|w: int| 0 <= w < s.len() && s[w] == steps[i];
    let lastx = s.len() - 1;
    if w < lastx {
        assert(step_ord()(s[w], s[lastx]));
    }
    assert(s.contains(s[lastx]));
    assert(steps.to_multiset().count(s[lastx]) > 0);
    assert(steps.contains(s[lastx]));
    let v = choose|v: int| 0 <= v < steps.len() && steps[v] == s[lastx];
    assert(step_le(steps[v], steps[i]));
    assert(step_le(s[lastx], steps[i]) && step_le(steps[i], s[lastx]));
    assert(s[lastx] == steps[i]);
    assert(s.last() == s[lastx]);
    assert(t >= s.last().temp as int);
    if s.len() > 1 {
        let j = choose|j: int| 0 <= j < steps.len() && (#[trigger] steps[j].temp as int) < t;
        assert(steps.to_multiset().count(steps[j]) > 0);
        assert(s.contains(steps[j]));
        let u = choose|u: int| 0 <= u < s.len() && s[u] == steps[j];
        if u > 0 {
            assert(step_ord()(s[0], s[u]));
        }
        assert(s[0].temp as int <= steps[j].temp as int);
        assert(!(t <= s[0].temp as int));
    }
}

/// Strictly between two consecutive breakpoints of the sorted curve,
/// the power is the rounded exact linear interpolation between them,
/// and lies between their powers.
pub proof fn lemma_power_interpolates(steps: Seq<FanStep>, t: int, k: int)
    requires
        0 <= k < sorted_form(steps).len() - 1,
        (sorted_form(steps)[k].temp as int) < t,
        t < sorted_form(steps)[k + 1].temp as int,
    ensures
        power_spec(steps, t) == interp_at(
            sorted_form(steps)[k].temp as int,
            sorted_form(steps)[k].power as int,
            sorted_form(steps)[k + 1].temp as int,
            sorted_form(steps)[k + 1].power as int,
            t,
        ),
        sorted_form(steps)[k].power <= sorted_form(steps)[k + 1].power ==> sorted_form(
            steps,
        )[k].power as int <= power_spec(steps, t) <= sorted_form(steps)[k + 1].power as int,
        sorted_form(steps)[k + 1].power <= sorted_form(steps)[k].power ==> sorted_form(
            steps,
        )[k + 1].power as int <= power_spec(steps, t) <= sorted_form(steps)[k].power as int,
{
    let s = sorted_form(steps);
    steps.lemma_sort_by_ensures(step_ord());
    lemma_step_ord_total();
    if 0 < k {
        assert(step_ord()(s[0], s[k]));
    }
    assert(s[0].temp as int <= s[k].temp as int);
    if k + 1 < s.len() - 1 {
        assert(step_ord()(s[k + 1], s[s.len() - 1]));
    }
    assert(s.last() == s[s.len() - 1]);
    assert(t < s.last().temp as int);
    assert(t > s[0].temp as int);
    lemma_bracket_finds(s, t, k);
    let p0 = s[k].power as int;
    let p1 = s[k + 1].power as int;
    if p0 <= p1 {
        lemma_interp_bounds(s[k].temp as int, p0, s[k + 1].temp as int, p1, t, p0, p1);
    } else {
        lemma_interp_bounds(s[k].temp as int, p0, s[k + 1].temp as int, p1, t, p1, p0);
    }
}

} // verus!
