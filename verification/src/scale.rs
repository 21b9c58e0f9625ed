//! Scaling a magnitude down by whole steps of a base.

use vstd::prelude::*;
use vstd::arithmetic::div_mod::{lemma_div_denominator, lemma_div_is_ordered};

verus! {

/// The last scale step: magnitudes beyond it stay at this step.
pub const LAST_STEP: usize = 8;

/// The size of one unit after `step` steps: `base` to the power `step`.
pub open spec fn unit(base: nat, step: nat) -> nat
    decreases step,
{
    if step == 0 {
        1
    } else {
        base * unit(base, (step - 1) as nat)
    }
}

/// The largest step up to `limit` whose unit does not exceed `value`, and
/// zero where there is none.
pub open spec fn step_within(base: nat, value: nat, limit: nat) -> nat
    decreases limit,
{
    if limit == 0 || unit(base, limit) <= value {
        limit
    } else {
        step_within(base, value, (limit - 1) as nat)
    }
}

/// The scale step of `value`: how many times it is divided by `base`.
pub open spec fn scale_step(base: nat, value: nat) -> nat {
    step_within(base, value, LAST_STEP as nat)
}

/// The whole units of `value` at its scale step.
pub open spec fn scale_whole(base: nat, value: nat) -> nat {
    value / unit(base, scale_step(base, value))
}

/// What the last division by `base` left over: the units of the step below
/// that do not fill a whole unit. Zero at step zero.
pub open spec fn scale_remainder(base: nat, value: nat) -> nat {
    let step = scale_step(base, value);
    if step == 0 {
        0
    } else {
        (value / unit(base, (step - 1) as nat)) % base
    }
}

/// A magnitude scaled down to its step.
#[derive(Clone, Copy, Debug, PartialEq, Eq)]
pub struct Scaled {
    /// The number of divisions made.
    pub step: usize,
    /// The quotient of the last division.
    pub whole: u128,
    /// The remainder of the last division.
    pub remainder: u128,
}

/// Units are positive.
pub proof fn lemma_unit_positive(base: nat, step: nat)
    requires
        base > 0,
    ensures
        unit(base, step) > 0,
    decreases step,
{
    if step > 0 {
        let below = unit(base, (step - 1) as nat);
        lemma_unit_positive(base, (step - 1) as nat);
        assert(base * below > 0) by (nonlinear_arith)
            requires
                base > 0,
                below > 0,
        ;
    }
}

/// Units do not shrink as the step grows.
pub proof fn lemma_unit_monotonic(base: nat, low: nat, high: nat)
    requires
        base > 0,
        low <= high,
    ensures
        unit(base, low) <= unit(base, high),
    decreases high,
{
    if low < high {
        let below = unit(base, (high - 1) as nat);
        lemma_unit_monotonic(base, low, (high - 1) as nat);
        assert(below <= base * below) by (nonlinear_arith)
            requires
                base > 0,
        ;
    }
}

/// A quotient reaches `base` exactly when the dividend reaches `base`
/// times the divisor.
proof fn lemma_quotient_reaches(value: nat, divisor: nat, base: nat)
    by (nonlinear_arith)
    requires
        divisor > 0,
        base > 0,
    ensures
        value / divisor >= base <==> value >= base * divisor,
{
}

/// A step that is within the limit, whose unit `value` reaches unless the
/// step is zero, and whose next unit `value` does not reach unless the step
/// is the limit, is the one that `step_within` gives.
proof fn lemma_step_within_unique(base: nat, value: nat, step: nat, limit: nat)
    requires
        base > 0,
        step <= limit,
        step > 0 ==> unit(base, step) <= value,
        step < limit ==> value < unit(base, step + 1),
    ensures
        step_within(base, value, limit) == step,
    decreases limit,
{
    if step < limit {
        lemma_unit_monotonic(base, step + 1, limit);
        lemma_step_within_unique(base, value, step, (limit - 1) as nat);
    }
}

/// What `step_within` gives is within the limit; `value` reaches its unit
/// unless it is zero, and does not reach the next unit unless it is the
/// limit.
proof fn lemma_step_within_bounds(base: nat, value: nat, limit: nat)
    ensures
        step_within(base, value, limit) <= limit,
        step_within(base, value, limit) > 0 ==> unit(base, step_within(base, value, limit))
            <= value,
        step_within(base, value, limit) < limit ==> value < unit(
            base,
            step_within(base, value, limit) + 1,
        ),
    decreases limit,
{
    if limit > 0 && unit(base, limit) > value {
        lemma_step_within_bounds(base, value, (limit - 1) as nat);
    }
}

/// The scale step is at most `LAST_STEP`. A scaled value reaches the unit
/// of its step, and stays below the next unit unless its step is the last.
pub proof fn lemma_scale_step_bounds(base: nat, value: nat)
    ensures
        scale_step(base, value) <= LAST_STEP,
        scale_step(base, value) > 0 ==> unit(base, scale_step(base, value)) <= value,
        scale_step(base, value) < LAST_STEP ==> value < unit(base, scale_step(base, value) + 1),
{
    lemma_step_within_bounds(base, value, LAST_STEP as nat);
}

/// The bounds of `lemma_scale_step_bounds` hold of one step only.
pub proof fn lemma_scale_step_unique(base: nat, value: nat, step: nat)
    requires
        base > 0,
        step <= LAST_STEP,
        step > 0 ==> unit(base, step) <= value,
        step < LAST_STEP ==> value < unit(base, step + 1),
    ensures
        scale_step(base, value) == step,
{
    lemma_step_within_unique(base, value, step, LAST_STEP as nat);
}

/// A value below the base stays as it is: no step, nothing left over.
pub proof fn lemma_unscaled_below_base(base: nat, value: nat)
    requires
        value < base,
    ensures
        scale_step(base, value) == 0,
        scale_whole(base, value) == value,
        scale_remainder(base, value) == 0,
{
    assert(unit(base, 0) == 1);
    assert(unit(base, 1) == base) by {
        assert(unit(base, 1) == base * unit(base, 0));
        assert(base * 1 == base) by (nonlinear_arith);
    }
    lemma_scale_step_unique(base, value, 0);
}

/// The whole part of a value that was scaled is at least one. The whole
/// part stays below the base exactly for the values below the unit that
/// would follow the last step.
pub proof fn lemma_whole_bounds(base: nat, value: nat)
    requires
        base > 0,
    ensures
        scale_step(base, value) > 0 ==> scale_whole(base, value) >= 1,
        scale_whole(base, value) < base <==> value < unit(base, LAST_STEP as nat + 1),
{
    let step = scale_step(base, value);
    let reached = unit(base, step);
    lemma_scale_step_bounds(base, value);
    lemma_unit_positive(base, step);
    lemma_unit_monotonic(base, step + 1, LAST_STEP as nat + 1);
    lemma_quotient_reaches(value, reached, base);
    lemma_quotient_reaches(value, reached, 1);
    assert(1 * reached == reached);
    assert(unit(base, step + 1) == base * reached);
}

/// Of two values at the same scale step, the larger has no smaller whole
/// part.
pub proof fn lemma_whole_monotonic(base: nat, small: nat, large: nat)
    requires
        base > 0,
        small <= large,
        scale_step(base, small) == scale_step(base, large),
    ensures
        scale_whole(base, small) <= scale_whole(base, large),
{
    let reached = unit(base, scale_step(base, small));
    lemma_unit_positive(base, scale_step(base, small));
    lemma_div_is_ordered(small as int, large as int, reached as int);
}

/// Divides `value` by `base` until it is below `base` or `LAST_STEP`
/// divisions are made.
pub fn scale(value: u128, base: u128) -> (scaled: Scaled)
    requires
        base > 0,
    ensures
        scaled.step <= LAST_STEP,
        scaled.step == scale_step(base as nat, value as nat),
        scaled.whole == scale_whole(base as nat, value as nat),
        scaled.remainder == scale_remainder(base as nat, value as nat),
{
    let mut step: usize = 0;
    let mut whole: u128 = value;
    let mut remainder: u128 = 0;
    assert(unit(base as nat, 0) == 1);
    while whole >= base && step < LAST_STEP
        invariant
            base > 0,
            step <= LAST_STEP,
            whole == value as nat / unit(base as nat, step as nat),
            step > 0 ==> unit(base as nat, step as nat) <= value,
            remainder == if step == 0 {
                0
            } else {
                (value as nat / unit(base as nat, (step - 1) as nat)) % (base as nat)
            },
        decreases LAST_STEP - step,
    {
        proof {
            let reached = unit(base as nat, step as nat);
            lemma_unit_positive(base as nat, step as nat);
            lemma_quotient_reaches(value as nat, reached, base as nat);
            lemma_div_denominator(value as int, reached as int, base as int);
            assert(reached * base == base * reached) by (nonlinear_arith);
        }
        step = step + 1;
        remainder = whole % base;
        whole = whole / base;
    }
    proof {
        let reached = unit(base as nat, step as nat);
        lemma_unit_positive(base as nat, step as nat);
        lemma_quotient_reaches(value as nat, reached, base as nat);
        lemma_scale_step_unique(base as nat, value as nat, step as nat);
    }
    Scaled { step, whole, remainder }
}

} // verus!
