//! Linear interpolation between two points of the grid, in whole numbers.

use crate::point::{Point, Position};
use vstd::arithmetic::div_mod::{
    lemma_div_is_ordered, lemma_div_multiples_vanish, lemma_fundamental_div_mod, lemma_mod_bound,
};
use vstd::prelude::*;

verus! {

/// The fraction `num / den` of `delta`, rounded toward zero.
pub open spec fn scale(delta: int, num: nat, den: nat) -> int
    recommends
        den > 0,
{
    if delta >= 0 {
        (delta * num) / (den as int)
    } else {
        -((-delta * num) / (den as int))
    }
}

/// The position after `num` of `den` equal parts of the way from `a` to `b`,
/// each coordinate rounded toward that of `a`. Where `den` is zero there is no
/// way to divide, and the position is `a`.
pub open spec fn position_between(a: Position, b: Position, num: nat, den: nat) -> Position {
    if den == 0 {
        a
    } else {
        Position { x: a.x + scale(b.x - a.x, num, den), y: a.y + scale(b.y - a.y, num, den) }
    }
}

/// `v` lies between `from` and `to`, whichever of the two is the greater.
pub open spec fn between(from: int, v: int, to: int) -> bool {
    from <= v <= to || to <= v <= from
}

/// A fraction of a non-negative amount grows with its numerator, from zero
/// to the whole amount.
proof fn lemma_fraction_monotone(amount: int, num1: nat, num2: nat, den: nat)
    requires
        amount >= 0,
        num1 <= num2 <= den,
        den > 0,
    ensures
        0 <= (amount * num1) / (den as int) <= (amount * num2) / (den as int) <= amount,
{
    let d = den as int;
    assert(0 <= amount * num1 <= amount * num2 <= amount * den) by (nonlinear_arith)
        requires
            amount >= 0,
            0 <= num1 <= num2 <= den,
    ;
    lemma_div_is_ordered(0, amount * num1, d);
    lemma_div_is_ordered(amount * num1, amount * num2, d);
    lemma_div_is_ordered(amount * num2, amount * den, d);
    assert(amount * den == d * amount) by (nonlinear_arith)
        requires
            d == den,
    ;
    lemma_div_multiples_vanish(amount, d);
}

/// The scaled amount is the exact fraction of `delta` with what lies beyond
/// a whole number cut off: it is less than one away from the exact fraction,
/// on the side of zero.
pub proof fn lemma_scale_rounds_toward_zero(delta: int, num: nat, den: nat)
    requires
        den > 0,
    ensures
        delta >= 0 ==> scale(delta, num, den) * den <= delta * num < (scale(delta, num, den) + 1) * den,
        delta <= 0 ==> (scale(delta, num, den) - 1) * den < delta * num <= scale(delta, num, den) * den,
{
    let d = den as int;
    let amount = if delta >= 0 { delta } else { -delta };
    let whole = amount * num;
    let q = whole / d;
    lemma_fundamental_div_mod(whole, d);
    lemma_mod_bound(whole, d);
    assert(q * d <= whole < (q + 1) * d) by (nonlinear_arith)
        requires
            whole == d * q + whole % d,
            0 <= whole % d < d,
    ;
    if delta < 0 {
        assert((-q - 1) * d < delta * num <= (-q) * d) by (nonlinear_arith)
            requires
                q * d <= whole < (q + 1) * d,
                whole == (-delta) * num,
        ;
    } else if delta == 0 {
        assert(whole == 0) by (nonlinear_arith)
            requires
                whole == 0 * num,
        ;
        assert((q - 1) * d < q * d) by (nonlinear_arith)
            requires
                d > 0,
        ;
    }
}

/// Nothing of `delta` is taken at the start of the way, and all of it at the
/// end.
pub proof fn lemma_scale_ends(delta: int, den: nat)
    requires
        den > 0,
    ensures
        scale(delta, 0, den) == 0,
        scale(delta, den, den) == delta,
{
    let d = den as int;
    let amount = if delta >= 0 { delta } else { -delta };
    assert(amount * 0nat == 0) by (nonlinear_arith);
    assert(amount * den == d * amount) by (nonlinear_arith)
        requires
            d == den,
    ;
    lemma_div_multiples_vanish(amount, d);
}

/// The scaled amount moves away from zero, and never past `delta`, as the
/// numerator grows.
pub proof fn lemma_scale_monotone(delta: int, num1: nat, num2: nat, den: nat)
    requires
        num1 <= num2 <= den,
        den > 0,
    ensures
        between(0, scale(delta, num1, den), scale(delta, num2, den)),
        between(0, scale(delta, num2, den), delta),
{
    let amount = if delta >= 0 { delta } else { -delta };
    lemma_fraction_monotone(amount, num1, num2, den);
}

/// Interpolation starts at `a`, and ends at `b` wherever the way can be
/// divided.
pub proof fn lemma_position_between_ends(a: Position, b: Position, den: nat)
    ensures
        position_between(a, b, 0, den) == a,
        den > 0 ==> position_between(a, b, den, den) == b,
{
    if den > 0 {
        lemma_scale_ends(b.x - a.x, den);
        lemma_scale_ends(b.y - a.y, den);
    }
}

/// An interpolated position lies in the box spanned by `a` and `b`.
pub proof fn lemma_position_between_in_box(a: Position, b: Position, num: nat, den: nat)
    requires
        num <= den,
    ensures
        between(a.x, position_between(a, b, num, den).x, b.x),
        between(a.y, position_between(a, b, num, den).y, b.y),
{
    if den > 0 {
        lemma_scale_monotone(b.x - a.x, num, num, den);
        lemma_scale_monotone(b.y - a.y, num, num, den);
    }
}

/// The fraction `num / den` of the difference `to - from`, rounded toward
/// zero and added to `from`.
fn advance(from: i32, to: i32, num: u64, den: u64) -> (v: i32)
    requires
        num <= den,
        den > 0,
    ensures
        v == from + scale(to - from, num as nat, den as nat),
{
    let delta: i64 = to as i64 - from as i64;
    proof {
        lemma_scale_monotone(delta as int, num as nat, num as nat, den as nat);
    }
    if delta >= 0 {
        let amount: u128 = delta as u128;
        assert(amount * num <= 0xffff_ffff * 0xffff_ffff_ffff_ffff) by (nonlinear_arith)
            requires
                0 <= amount <= 0xffff_ffff,
                0 <= num <= 0xffff_ffff_ffff_ffff,
        ;
        let part: u128 = (amount * num as u128) / den as u128;
        (from as i64 + part as i64) as i32
    } else {
        let amount: u128 = (-delta) as u128;
        assert(amount * num <= 0xffff_ffff * 0xffff_ffff_ffff_ffff) by (nonlinear_arith)
            requires
                0 <= amount <= 0xffff_ffff,
                0 <= num <= 0xffff_ffff_ffff_ffff,
        ;
        let part: u128 = (amount * num as u128) / den as u128;
        (from as i64 - part as i64) as i32
    }
}

/// The point after `num` of `den` equal parts of the way from `a` to `b`,
/// each coordinate rounded toward that of `a`; `a` itself where `den` is zero.
pub fn interpolate(a: Point, b: Point, num: u64, den: u64) -> (p: Point)
    requires
        num <= den,
    ensures
        p@ == position_between(a@, b@, num as nat, den as nat),
{
    if den == 0 {
        a
    } else {
        Point { x: advance(a.x, b.x, num, den), y: advance(a.y, b.y, num, den) }
    }
}

} // verus!
