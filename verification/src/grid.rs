//! Tick marks for a logarithmic axis.
//!
//! An axis is measured in whole units. Given the visible interval of the axis
//! and the smallest step worth drawing, [`generate_grid_marks`] rounds that
//! step up to a power of the base and lays out three tiers of marks: at the
//! multiples of that power, of the next power and of the one after.

use vstd::prelude::*;
use vstd::arithmetic::div_mod::lemma_fundamental_div_mod_converse;
use vstd::arithmetic::power::{lemma_pow_strictly_increases, pow};
use crate::scalar::magnitude;

verus! {

/// One tick mark: where it lies on the axis, and the step of the tier that it
/// belongs to.
#[derive(Clone, Copy, Debug, PartialEq, Eq, Structural)]
pub struct GridMark {
    pub value: i64,
    pub step_size: i64,
}

/// The quotient of `n` by `d`, rounded up. Meaningful for `d > 0`.
pub open spec fn ceil_div(n: int, d: int) -> int
    recommends
        d > 0,
{
    -((-n) / d)
}

/// The mark of the tier `step` that lies `index` steps from zero.
pub open spec fn mark_at(step: int, index: int) -> GridMark {
    GridMark { value: (index * step) as i64, step_size: step as i64 }
}

/// The marks of the tier `step` in the interval from `min` to `max`, in
/// ascending order: one at each multiple of `step` from `min`, which counts if
/// it is one, up to but not including `max`. A step below zero has no marks:
/// counted in such steps the interval runs backwards.
pub open spec fn marks_between(step: int, min: int, max: int) -> Seq<GridMark> {
    let first = ceil_div(min, step);
    let last = ceil_div(max, step);
    Seq::new(
        if step > 0 && last >= first {
            (last - first) as nat
        } else {
            0
        },
        |j: int| mark_at(step, first + j),
    )
}

/// Whether `base` to the power `k` is the smallest power of `base` that is at
/// least `n`.
pub open spec fn is_ceil_log(base: int, n: int, k: nat) -> bool {
    pow(base, k) >= n && (k == 0 || pow(base, (k - 1) as nat) < n)
}

/// The logarithm of `n` to the base `base`, rounded up; zero for `n <= 1`.
/// Meaningful for `base >= 2`.
pub open spec fn ceil_log(base: int, n: int) -> nat
    recommends
        base >= 2,
{
    choose|k: nat| is_ceil_log(base, n, k)
}

/// The smallest power of `base` that is at least as large as the magnitude
/// of `base_step_size`: the step of the finest tier.
pub open spec fn smallest_visible_unit(base_step_size: int, base: int) -> int
    recommends
        base >= 2,
{
    pow(base, ceil_log(base, magnitude(base_step_size)))
}

/// Whether the steps of all three tiers are in the range of a mark's fields.
pub open spec fn tiers_fit(base_step_size: int, base: int) -> bool {
    smallest_visible_unit(base_step_size, base) * base * base <= i64::MAX
}

/// The marks of all three tiers, the finest tier first.
pub open spec fn grid_marks(bounds: (i64, i64), base_step_size: i64, base: i64) -> Seq<GridMark> {
    let unit = smallest_visible_unit(base_step_size as int, base as int);
    marks_between(unit, bounds.0 as int, bounds.1 as int)
        + marks_between(unit * base, bounds.0 as int, bounds.1 as int)
        + marks_between(unit * base * base, bounds.0 as int, bounds.1 as int)
}

/// The rounded-up quotient is the least integer whose product with the
/// divisor reaches the dividend.
pub proof fn lemma_ceil_div_bounds(n: int, d: int)
    requires
        d > 0,
    ensures
        (ceil_div(n, d) - 1) * d < n <= ceil_div(n, d) * d,
{
    let q = (-n) / d;
    let r = (-n) % d;
    assert(-n == d * q + r && 0 <= r < d) by (nonlinear_arith)
        requires
            d > 0,
            q == (-n) / d,
            r == (-n) % d,
    ;
    assert((-q - 1) * d < n <= (-q) * d) by (nonlinear_arith)
        requires
            -n == d * q + r,
            0 <= r < d,
    ;
}

/// Only one integer lies within one divisor above the dividend, so whichever
/// does is the rounded-up quotient.
pub proof fn lemma_ceil_div_unique(n: int, d: int, q: int)
    requires
        d > 0,
        (q - 1) * d < n <= q * d,
    ensures
        ceil_div(n, d) == q,
{
    let r = q * d - n;
    assert(-n == (-q) * d + r) by (nonlinear_arith)
        requires
            r == q * d - n,
    ;
    assert(0 <= r < d) by (nonlinear_arith)
        requires
            r == q * d - n,
            (q - 1) * d < n <= q * d,
    ;
    lemma_fundamental_div_mod_converse(-n, d, -q, r);
}

/// Rounding up keeps the order.
pub proof fn lemma_ceil_div_monotonic(a: int, b: int, d: int)
    requires
        d > 0,
        a <= b,
    ensures
        ceil_div(a, d) <= ceil_div(b, d),
{
    lemma_ceil_div_bounds(a, d);
    lemma_ceil_div_bounds(b, d);
    let qa = ceil_div(a, d);
    let qb = ceil_div(b, d);
    assert(qa <= qb) by (nonlinear_arith)
        requires
            d > 0,
            a <= b,
            (qa - 1) * d < a,
            b <= qb * d,
    ;
}

/// The marks of a tier are the multiples of its step in the interval, the
/// lower bound included and the upper bound excluded, each once and in
/// ascending order.
pub proof fn lemma_marks_are_the_multiples(step: i64, min: i64, max: i64)
    requires
        step > 0,
        min <= max,
    ensures
        ({
            let marks = marks_between(step as int, min as int, max as int);
            let first = ceil_div(min as int, step as int);
            &&& forall|j: int|
                0 <= j < marks.len() ==> {
                    &&& (#[trigger] marks[j]).step_size == step
                    &&& marks[j].value == (first + j) * step
                    &&& min <= marks[j].value < max
                }
            &&& forall|m: int|
                min <= m < max && #[trigger] (m % (step as int)) == 0 ==> {
                    &&& 0 <= m / (step as int) - first < marks.len()
                    &&& marks[m / (step as int) - first].value == m
                }
            &&& forall|i: int, j: int|
                0 <= i < j < marks.len() ==> (#[trigger] marks[i]).value < (#[trigger] marks[j]).value
        }),
{
    let s = step as int;
    let first = ceil_div(min as int, s);
    let last = ceil_div(max as int, s);
    let marks = marks_between(s, min as int, max as int);
    lemma_ceil_div_bounds(min as int, s);
    lemma_ceil_div_bounds(max as int, s);
    lemma_ceil_div_monotonic(min as int, max as int, s);
    assert forall|j: int| 0 <= j < marks.len() implies {
        let mark = #[trigger] marks[j];
        &&& mark.step_size == step
        &&& mark.value == (first + j) * s
        &&& min <= mark.value < max
    } by {
        lemma_index_in_interval(s, min as int, max as int, first + j);
    }
    assert forall|m: int| min <= m < max && #[trigger] (m % s) == 0 implies {
        let j = m / s - first;
        &&& 0 <= j < marks.len()
        &&& marks[j].value == m
    } by {
        let q = m / s;
        assert(m == s * q + m % s) by (nonlinear_arith)
            requires
                s > 0,
                q == m / s,
        ;
        assert(first <= q) by (nonlinear_arith)
            requires
                s > 0,
                (first - 1) * s < min,
                min <= m,
                m == s * q,
        ;
        assert(q < last) by (nonlinear_arith)
            requires
                s > 0,
                max <= last * s,
                m < max,
                m == s * q,
        ;
        assert((first + (q - first)) * s == m) by (nonlinear_arith)
            requires
                m == s * q,
        ;
    }
    assert forall|i: int, j: int| 0 <= i < j < marks.len() implies (#[trigger] marks[i]).value < (
    #[trigger] marks[j]).value by {
        lemma_index_in_interval(s, min as int, max as int, first + i);
        lemma_index_in_interval(s, min as int, max as int, first + j);
        assert((first + i) * s < (first + j) * s) by (nonlinear_arith)
            requires
                s > 0,
                i < j,
        ;
    }
}

/// A multiple of the step whose index lies between the rounded-up quotients
/// of the bounds lies between the bounds.
proof fn lemma_index_in_interval(step: int, min: int, max: int, index: int)
    requires
        step > 0,
        ceil_div(min, step) <= index < ceil_div(max, step),
    ensures
        min <= index * step < max,
{
    lemma_ceil_div_bounds(min, step);
    lemma_ceil_div_bounds(max, step);
    let first = ceil_div(min, step);
    let last = ceil_div(max, step);
    assert(min <= index * step < max) by (nonlinear_arith)
        requires
            step > 0,
            first <= index < last,
            min <= first * step,
            (last - 1) * step < max,
    ;
}

/// Only one power of the base is the smallest that reaches `n`, so whichever
/// exponent passes [`is_ceil_log`] is the value of [`ceil_log`].
pub proof fn lemma_ceil_log_unique(base: int, n: int, k: nat)
    requires
        base >= 2,
        is_ceil_log(base, n, k),
    ensures
        ceil_log(base, n) == k,
{
    let c = ceil_log(base, n);
    assert(is_ceil_log(base, n, c));
    if c < k {
        if c < k - 1 {
            lemma_pow_strictly_increases(base as nat, c, (k - 1) as nat);
        }
    } else if k < c {
        if k < c - 1 {
            lemma_pow_strictly_increases(base as nat, k, (c - 1) as nat);
        }
    }
}

/// A power of a base of at least two is larger than its exponent.
proof fn lemma_pow_exceeds_exponent(base: int, k: nat)
    requires
        base >= 2,
    ensures
        pow(base, k) > k,
    decreases k,
{
    reveal(pow);
    if k > 0 {
        lemma_pow_exceeds_exponent(base, (k - 1) as nat);
        let below = pow(base, (k - 1) as nat);
        assert(base * below > k) by (nonlinear_arith)
            requires
                base >= 2,
                k >= 1,
                below > k - 1,
        ;
    }
}

/// Below any exponent whose power reaches `n` lies the least such exponent.
proof fn lemma_least_reaching_exponent(base: int, n: int, j: nat) -> (k: nat)
    requires
        pow(base, j) >= n,
    ensures
        is_ceil_log(base, n, k),
    decreases j,
{
    if j == 0 || pow(base, (j - 1) as nat) < n {
        j
    } else {
        lemma_least_reaching_exponent(base, n, (j - 1) as nat)
    }
}

/// Every number has a rounded-up logarithm: some power of the base is the
/// smallest that reaches it.
pub proof fn lemma_ceil_log_exists(base: int, n: int)
    requires
        base >= 2,
    ensures
        is_ceil_log(base, n, ceil_log(base, n)),
{
    let j: nat = if n > 0 {
        n as nat
    } else {
        0
    };
    lemma_pow_exceeds_exponent(base, j);
    let k = lemma_least_reaching_exponent(base, n, j);
}

/// The quotient of `n` by `d`, rounded up.
fn div_ceil(n: i64, d: i64) -> (q: i64)
    requires
        d > 0,
    ensures
        q == ceil_div(n as int, d as int),
{
    if n > 0 {
        let below: i64 = (n - 1) / d;
        proof {
            let r = (n - 1) % (d as int);
            assert(n - 1 == d * below + r && 0 <= r < d && below <= n - 1) by (nonlinear_arith)
                requires
                    d > 0,
                    n - 1 >= 0,
                    below == (n - 1) / (d as int),
                    r == (n - 1) % (d as int),
            ;
            assert((below + 1 - 1) * d < n <= (below + 1) * d) by (nonlinear_arith)
                requires
                    n - 1 == d * below + r,
                    0 <= r < d,
            ;
            lemma_ceil_div_unique(n as int, d as int, below + 1);
        }
        below + 1
    } else {
        n / d
    }
}

/// Appends to `out` the marks of the tier `step_size` in the interval
/// `bounds`: one at each multiple of the step from the lower bound, which
/// counts if it is one, up to but not including the upper bound, in ascending
/// order. For a step below zero nothing is appended.
pub fn fill_marks_between(out: &mut Vec<GridMark>, step_size: i64, bounds: (i64, i64))
    requires
        step_size != 0,
        bounds.0 < bounds.1,
    ensures
        final(out)@ == old(out)@ + marks_between(step_size as int, bounds.0 as int, bounds.1 as int),
        step_size < 0 ==> final(out)@ == old(out)@,
{
    if step_size < 0 {
        assert(out@ + marks_between(step_size as int, bounds.0 as int, bounds.1 as int) =~= out@);
        return;
    }
    let first: i64 = div_ceil(bounds.0, step_size);
    let last: i64 = div_ceil(bounds.1, step_size);
    let ghost before: Seq<GridMark> = out@;
    let ghost marks: Seq<GridMark> = marks_between(step_size as int, bounds.0 as int, bounds.1 as int);
    proof {
        lemma_ceil_div_monotonic(bounds.0 as int, bounds.1 as int, step_size as int);
    }
    let mut i: i64 = first;
    while i < last
        invariant
            step_size > 0,
            first == ceil_div(bounds.0 as int, step_size as int),
            last == ceil_div(bounds.1 as int, step_size as int),
            first <= i <= last,
            marks == marks_between(step_size as int, bounds.0 as int, bounds.1 as int),
            out@ == before + marks.subrange(0, i - first),
        decreases last - i,
    {
        proof {
            lemma_index_in_interval(step_size as int, bounds.0 as int, bounds.1 as int, i as int);
            assert(marks.subrange(0, i - first).push(marks[i - first]) =~= marks.subrange(
                0,
                i + 1 - first,
            ));
        }
        out.push(GridMark { value: i * step_size, step_size });
        i = i + 1;
    }
    assert(marks.subrange(0, last - first) =~= marks);
}

/// The steps of the three tiers for the smallest step worth drawing,
/// `base_step_size`: the smallest power of `base` that is at least as large as
/// its magnitude, then that power times `base`, then times `base` again.
/// `None` where the coarsest step is beyond the range of a mark's fields.
pub fn grid_tiers(base_step_size: i64, base: i64) -> (r: Option<(i64, i64, i64)>)
    requires
        base_step_size != 0,
        base >= 2,
    ensures
        r is Some <==> tiers_fit(base_step_size as int, base as int),
        r matches Some(tiers) ==> {
            let unit = smallest_visible_unit(base_step_size as int, base as int);
            &&& tiers.0 == unit
            &&& tiers.1 == unit * base
            &&& tiers.2 == unit * base * base
            &&& unit >= magnitude(base_step_size as int)
            &&& unit == 1 || unit < magnitude(base_step_size as int) * base
            &&& 0 < tiers.0 < tiers.1 < tiers.2
        },
{
    let n: i128 = if base_step_size < 0 {
        -(base_step_size as i128)
    } else {
        base_step_size as i128
    };
    let wide_base: i128 = base as i128;
    let mut unit: i128 = 1;
    let ghost mut k: nat = 0;
    proof {
        assert(pow(base as int, 0) == 1) by {
            reveal(pow);
        }
    }
    while unit < n
        invariant
            wide_base == base,
            2 <= base,
            1 <= n <= 0x8000_0000_0000_0000,
            1 <= unit,
            unit == pow(base as int, k),
            k == 0 || pow(base as int, (k - 1) as nat) < n,
            unit <= 0x4000_0000_0000_0000_0000_0000_0000_0000,
        decreases
                (if unit < n {
                    n - unit
                } else {
                    0
                }),
    {
        assert(unit < unit * wide_base && unit * wide_base
            <= 0x4000_0000_0000_0000_0000_0000_0000_0000) by (nonlinear_arith)
            requires
                1 <= unit < n,
                n <= 0x8000_0000_0000_0000,
                2 <= wide_base <= 0x7fff_ffff_ffff_ffff,
        ;
        proof {
            assert(pow(base as int, k + 1) == base * pow(base as int, k)) by {
                reveal(pow);
            }
            assert(base * pow(base as int, k) == unit * wide_base) by (nonlinear_arith)
                requires
                    unit == pow(base as int, k),
                    wide_base == base,
            ;
            k = k + 1;
        }
        unit = unit * wide_base;
    }
    proof {
        lemma_ceil_log_unique(base as int, n as int, k);
        assert(unit == smallest_visible_unit(base_step_size as int, base as int));
        assert(unit < unit * base && unit * base < unit * base * base) by (nonlinear_arith)
            requires
                1 <= unit,
                2 <= base,
        ;
        if k > 0 {
            assert(pow(base as int, k) == base * pow(base as int, (k - 1) as nat)) by {
                reveal(pow);
            }
            assert(unit < n * base) by (nonlinear_arith)
                requires
                    unit == base * pow(base as int, (k - 1) as nat),
                    pow(base as int, (k - 1) as nat) < n,
                    base >= 2,
            ;
        }
    }
    if unit > 0x7fff_ffff_ffff_ffff {
        return None;
    }
    assert(unit * wide_base <= 0x4000_0000_0000_0000_0000_0000_0000_0000) by (nonlinear_arith)
        requires
            1 <= unit <= 0x7fff_ffff_ffff_ffff,
            2 <= wide_base <= 0x7fff_ffff_ffff_ffff,
    ;
    let medium: i128 = unit * wide_base;
    if medium > 0x7fff_ffff_ffff_ffff {
        assert(medium <= medium * base) by (nonlinear_arith)
            requires
                1 <= medium,
                2 <= base,
        ;
        return None;
    }
    assert(medium * wide_base <= 0x4000_0000_0000_0000_0000_0000_0000_0000) by (nonlinear_arith)
        requires
            1 <= medium <= 0x7fff_ffff_ffff_ffff,
            2 <= wide_base <= 0x7fff_ffff_ffff_ffff,
    ;
    let coarse: i128 = medium * wide_base;
    if coarse > 0x7fff_ffff_ffff_ffff {
        return None;
    }
    Some((unit as i64, medium as i64, coarse as i64))
}

/// The marks of a logarithmic axis whose visible part is `bounds`, where
/// `base_step_size` is the smallest step worth drawing: three tiers, the
/// finest first, each filled as [`fill_marks_between`] fills it. A value that
/// several tiers share is marked once for each of them.
///
/// The interval must not be empty and the step must not be zero: an axis
/// without extent or resolution has no grid. [`grid_tiers`] tells whether the
/// tiers fit.
pub fn generate_grid_marks(bounds: (i64, i64), base_step_size: i64, base: i64) -> (r: Vec<GridMark>)
    requires
        bounds.0 < bounds.1,
        base_step_size != 0,
        base >= 2,
        tiers_fit(base_step_size as int, base as int),
    ensures
        r@ == grid_marks(bounds, base_step_size, base),
{
    let (fine, medium, coarse) = grid_tiers(base_step_size, base).unwrap();
    let mut out: Vec<GridMark> = Vec::new();
    fill_marks_between(&mut out, fine, bounds);
    fill_marks_between(&mut out, medium, bounds);
    fill_marks_between(&mut out, coarse, bounds);
    out
}

} // verus!
