//! Fixed-point scroll physics: exponential easing toward a target, rounding
//! of scroll positions to whole steps, and the safe-area rule that moves a
//! scroll target by one step when the selection leaves the safe area.
//!
//! Units: animated scalars (scroll positions, card sizes, text heights) are in
//! thousandths (`MILLI` per 1.0); screen coordinates are in ten-thousandths
//! (`SCREEN` per 1.0); rates are in hundredths; frame time is in milliseconds.

use vstd::prelude::*;

verus! {

/// Thousandths per unit for animated scalars.
pub const MILLI: i64 = 1000;

/// Ten-thousandths per unit for screen coordinates.
pub const SCREEN: i64 = 10000;

/// Easing rate of every scroll position, in hundredths.
pub const SCROLL_RATE: i64 = 90;

/// Easing rate of row title heights, in hundredths.
pub const TEXT_RATE: i64 = 70;

/// Easing rate of card sizes, in hundredths.
pub const SIZE_RATE: i64 = 70;

/// A frame of this many milliseconds (or longer) is one full easing step: it
/// lands every value exactly on its target. Longer frames are capped here:
/// past one second the factor `1 - (1 - delta_t) * rate` exceeds 1, so the
/// step would overshoot the target, which the decay toward the target that
/// easing approximates never does, and repeated long frames would push the
/// fixed-point values past any bound.
pub const FULL_STEP_MS: u32 = 1000;

/// Denominator of an easing factor.
pub const FACTOR_ONE: i64 = 100_000;

/// Largest magnitude of a scroll target, in whole steps.
pub const MAX_STEPS: i64 = 1_000_000_000_000;

/// Largest magnitude of an animated scalar, in thousandths: room for every
/// scroll position a target within `MAX_STEPS` can draw it to.
pub const MAX_MILLI: i64 = 1_000_000_000_000_000;

/// Horizontal distance between neighbouring cards, in screen units.
pub const CARD_SPACING: i64 = 4000;

/// Vertical distance between neighbouring rows, in screen units.
pub const ROW_SPACING: i64 = 6000;

/// Horizontal position of a row's first card before scrolling.
pub const FIRST_CARD_X: i64 = -7000;

/// Vertical position of the first row before scrolling.
pub const FIRST_ROW_Y: i64 = 6000;

/// Half-width of the horizontal safe area, in screen units.
pub const ROW_SAFE_AREA: i64 = 7100;

/// Half-height of the vertical safe area, in screen units.
pub const VERTICAL_SAFE_AREA: i64 = 7000;

/// Tiles whose centre lies beyond this distance from the middle of the
/// screen, on either axis, are culled.
pub const CULL_BOUND: i64 = 15000;

/// Target size of the selected card, in thousandths.
pub const SELECTED_CARD_SIZE: i64 = 420;

/// Target size of every other card, in thousandths.
pub const CARD_SIZE: i64 = 320;

/// Target size of the card shown in the detail view, in thousandths.
pub const MODAL_CARD_SIZE: i64 = 750;

/// Title height of the row whose front-most card is selected.
pub const SELECTED_TEXT_HEIGHT: i64 = 300;

/// Title height of every other row.
pub const TEXT_HEIGHT: i64 = 250;

/// Screen units per thousandth of a card step of horizontal scroll
/// (`CARD_SPACING / MILLI`).
pub const CARD_SCROLL_UNIT: i64 = 4;

/// Screen units per thousandth of a row step of vertical scroll
/// (`ROW_SPACING / MILLI`).
pub const ROW_SCROLL_UNIT: i64 = 6;

/// Screen units per thousandth of title height.
pub const TEXT_HEIGHT_UNIT: i64 = 10;

/// Horizontal position of the card shown in the detail view.
pub const MODAL_TILE_X: i64 = -5000;

/// Horizontal position of card `x` of a row before scrolling.
pub open spec fn card_x(x: int) -> int {
    FIRST_CARD_X + x * CARD_SPACING
}

/// Vertical position of row `y` before scrolling.
pub open spec fn row_y(y: int) -> int {
    FIRST_ROW_Y - y * ROW_SPACING
}

/// The easing factor `1 - (1 - delta_t) * rate`, in hundred-thousandths, with
/// the frame time capped at one full step.
pub open spec fn ease_factor(rate: int, delta_ms: int) -> int {
    let dt = if delta_ms > FULL_STEP_MS as int { FULL_STEP_MS as int } else { delta_ms };
    FACTOR_ONE - (FULL_STEP_MS - dt) * rate
}

/// `value + (target - value) * factor`, the fractional part of the step
/// truncated toward `value`.
pub open spec fn eased(value: int, target: int, rate: int, delta_ms: int) -> int {
    let f = ease_factor(rate, delta_ms);
    if target >= value {
        value + (target - value) * f / FACTOR_ONE as int
    } else {
        value - (value - target) * f / FACTOR_ONE as int
    }
}

/// Lies between `a` and `b` (inclusive), in either order.
pub open spec fn between(x: int, a: int, b: int) -> bool {
    (a <= x && x <= b) || (b <= x && x <= a)
}

proof fn lemma_step_bounded(d: int, f: int)
    requires
        0 <= d,
        0 <= f <= FACTOR_ONE,
    ensures
        0 <= d * f / FACTOR_ONE as int <= d,
{
    assert(0 <= d * f) by (nonlinear_arith)
        requires
            0 <= d,
            0 <= f,
    ;
    assert(d * f <= d * FACTOR_ONE) by (nonlinear_arith)
        requires
            0 <= d,
            f <= FACTOR_ONE,
    ;
    assert((d * FACTOR_ONE) / FACTOR_ONE as int == d) by (nonlinear_arith);
    assert(d * f / FACTOR_ONE as int <= (d * FACTOR_ONE) / FACTOR_ONE as int) by (nonlinear_arith)
        requires
            d * f <= d * FACTOR_ONE,
    ;
}

/// An eased value never leaves the interval spanned by the old value and
/// the target.
pub proof fn lemma_eased_between(value: int, target: int, rate: int, delta_ms: int)
    requires
        0 <= rate <= 100,
        0 <= delta_ms,
    ensures
        between(eased(value, target, rate, delta_ms), value, target),
{
    let f = ease_factor(rate, delta_ms);
    assert(0 <= f <= FACTOR_ONE) by (nonlinear_arith)
        requires
            f == ease_factor(rate, delta_ms),
            0 <= rate <= 100,
            0 <= delta_ms,
    ;
    if target >= value {
        lemma_step_bounded(target - value, f);
    } else {
        lemma_step_bounded(value - target, f);
    }
}

/// A frame of one full second lands any value exactly on its target; a
/// value already on its target stays there, however short the frame.
pub proof fn lemma_full_step_lands(value: int, target: int, rate: int, delta_ms: int)
    requires
        0 <= rate <= 100,
        0 <= delta_ms,
    ensures
        eased(value, target, rate, FULL_STEP_MS as int) == target,
        eased(target, target, rate, delta_ms) == target,
{
    assert(0 * rate == 0) by (nonlinear_arith);
    assert(ease_factor(rate, FULL_STEP_MS as int) == FACTOR_ONE);
    if target >= value {
        assert((target - value) * FACTOR_ONE / FACTOR_ONE as int == target - value) by (nonlinear_arith);
    } else {
        assert((value - target) * FACTOR_ONE / FACTOR_ONE as int == value - target) by (nonlinear_arith);
    }
}

/// One easing step of `value` toward `target` at `rate` hundredths over a
/// frame of `delta_ms` milliseconds.
pub fn ease(value: i64, target: i64, rate: i64, delta_ms: u32) -> (r: i64)
    requires
        0 <= rate <= 100,
    ensures
        r == eased(value as int, target as int, rate as int, delta_ms as int),
        between(r as int, value as int, target as int),
{
    proof {
        lemma_eased_between(value as int, target as int, rate as int, delta_ms as int);
    }
    let dt: i64 = if delta_ms > FULL_STEP_MS { FULL_STEP_MS as i64 } else { delta_ms as i64 };
    assert(0 <= (FULL_STEP_MS - dt) * rate <= FACTOR_ONE) by (nonlinear_arith)
        requires
            0 <= dt <= FULL_STEP_MS,
            0 <= rate <= 100,
    ;
    let f: i64 = FACTOR_ONE - (FULL_STEP_MS as i64 - dt) * rate;
    assert(f == ease_factor(rate as int, delta_ms as int));
    let d: u128 = if target >= value {
        (target as i128 - value as i128) as u128
    } else {
        (value as i128 - target as i128) as u128
    };
    assert(d * f <= 0x1_0000_0000_0000_0000 * FACTOR_ONE) by (nonlinear_arith)
        requires
            d < 0x1_0000_0000_0000_0000,
            0 <= f <= FACTOR_ONE,
    ;
    let step: u128 = d * (f as u128) / (FACTOR_ONE as u128);
    if target >= value {
        (value as i128 + step as i128) as i64
    } else {
        (value as i128 - step as i128) as i64
    }
}

/// A scroll position in thousandths of a step, rounded to the nearest whole
/// step, halves away from zero.
pub open spec fn rounded_steps(milli: int) -> int {
    if milli >= 0 {
        (milli + 500) / MILLI as int
    } else {
        -((-milli + 500) / MILLI as int)
    }
}

/// Rounds a scroll position in thousandths to whole steps.
pub fn round_steps(milli: i64) -> (r: i64)
    ensures
        r == rounded_steps(milli as int),
{
    if milli >= 0 {
        ((milli as i128 + 500) / 1000) as i64
    } else {
        let m: u128 = (-(milli as i128)) as u128;
        -(((m + 500) / 1000) as i128) as i64
    }
}

/// The safe-area rule: with the selection at `position` (before scrolling)
/// and the scroll at `target` steps of `spacing`, the target moves one step
/// toward the selection when the selection lies beyond `safe_area` on
/// either side.
pub open spec fn safe_area_target(position: int, target: int, spacing: int, safe_area: int) -> int {
    let offset = position - target * spacing;
    if offset > safe_area {
        target + 1
    } else if offset < -safe_area {
        target - 1
    } else {
        target
    }
}

/// Applies the safe-area rule once. All lengths are in screen units.
pub fn safe_area_step(position: i64, target: i64, spacing: i64, safe_area: i64) -> (r: i64)
    requires
        i64::MIN < target < i64::MAX,
    ensures
        r == safe_area_target(position as int, target as int, spacing as int, safe_area as int),
{
    assert(-0x4000_0000_0000_0000_0000_0000_0000_0000 <= target * spacing
        <= 0x4000_0000_0000_0000_0000_0000_0000_0000) by (nonlinear_arith)
        requires
            -0x8000_0000_0000_0000 <= target <= 0x8000_0000_0000_0000,
            -0x8000_0000_0000_0000 <= spacing <= 0x8000_0000_0000_0000,
    ;
    let offset: i128 = position as i128 - target as i128 * spacing as i128;
    if offset > safe_area as i128 {
        target + 1
    } else if offset < -(safe_area as i128) {
        target - 1
    } else {
        target
    }
}

} // verus!
