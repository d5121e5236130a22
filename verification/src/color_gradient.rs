//! Colour gradients: colour stops ordered by position, and the colour
//! between two stops by linear interpolation.

use vstd::prelude::*;
use vstd::arithmetic::div_mod::lemma_fundamental_div_mod;
use vstd::arithmetic::div_mod::lemma_hoist_over_denominator;
use vstd::arithmetic::div_mod::lemma_mod_bound;
use crate::fixed::clamp;
use crate::fixed::div_floor;
use crate::fixed::saturate;
use crate::fixed::UNIT;
use crate::ordered::after_index;
use crate::ordered::before_index;
use crate::ordered::has_after;
use crate::ordered::has_before;
use crate::ordered::index_after;
use crate::ordered::index_before;
use crate::ordered::is_sorted;
use crate::ordered::lemma_sorted_stable;
use crate::ordered::sort_stable;
use crate::ordered::sorted_stable;
use crate::ordered::Keyed;

verus! {

/// A colour: red, green, blue and alpha, each in fixed point.
#[derive(Clone, Copy, Debug)]
pub struct RGBFloat {
    pub r: i64,
    pub g: i64,
    pub b: i64,
    pub a: i64,
}

/// A colour at a position of a gradient.
#[derive(Clone, Copy, Debug)]
pub struct ColorStop {
    pub position: i64,
    pub color: RGBFloat,
}

/// A gradient: its colour stops, kept in ascending order of position by
/// `add_color_stop`.
pub type ColorGradient = Vec<ColorStop>;

/// The value at the fraction `factor` (in fixed point) of the way from
/// `from` to `to`, rounded down to a whole step.
pub open spec fn lerp(from: int, to: int, factor: int) -> int {
    from + factor * (to - from) / (UNIT as int)
}

/// A colour channel at the fraction `factor` of the way from `from` to `to`,
/// limited to what a channel can hold.
pub open spec fn lerp_channel(from: int, to: int, factor: int) -> int {
    clamp(lerp(from, to, factor), i64::MIN as int, i64::MAX as int)
}

/// The colour at the fraction `factor` of the way from `from` to `to`.
pub open spec fn lerp_color(from: RGBFloat, to: RGBFloat, factor: int) -> RGBFloat {
    RGBFloat {
        r: lerp_channel(from.r as int, to.r as int, factor) as i64,
        g: lerp_channel(from.g as int, to.g as int, factor) as i64,
        b: lerp_channel(from.b as int, to.b as int, factor) as i64,
        a: lerp_channel(from.a as int, to.a as int, factor) as i64,
    }
}

/// How far `x` lies on the way from `prev` to `next`, as a fraction in fixed
/// point; 0 where the two coincide.
pub open spec fn fraction(prev: int, next: int, x: int) -> int {
    if next == prev {
        0
    } else {
        (x - prev) * (UNIT as int) / (next - prev)
    }
}

/// The colour of a gradient at position `x`. There is none where the
/// gradient has fewer than two stops or `x` lies outside the range of their
/// positions; elsewhere it is interpolated between the stop before `x` and
/// the stop after `x`.
pub open spec fn gradient_color(stops: Seq<ColorStop>, x: int) -> Option<RGBFloat> {
    if stops.len() < 2 || !has_before(stops, x) || !has_after(stops, x) {
        None
    } else {
        let prev = stops[before_index(stops, x)];
        let next = stops[after_index(stops, x)];
        Some(lerp_color(prev.color, next.color, fraction(prev.position as int, next.position as int, x)))
    }
}

/// Interpolation starts at the one value, ends at the other and stays
/// between the two on the way.
pub proof fn lemma_lerp_between(from: int, to: int, factor: int)
    requires
        0 <= factor <= UNIT,
    ensures
        lerp(from, to, 0) == from,
        lerp(from, to, UNIT as int) == to,
        from <= to ==> from <= lerp(from, to, factor) <= to,
        to <= from ==> to <= lerp(from, to, factor) <= from,
{
    let u = UNIT as int;
    let diff = to - from;
    assert(0 * diff == 0);
    assert(u * diff / u == diff) by {
        vstd::arithmetic::div_mod::lemma_div_multiples_vanish(diff, u);
    }
    if diff >= 0 {
        assert(0 <= factor * diff <= u * diff) by (nonlinear_arith)
            requires
                0 <= factor <= u,
                diff >= 0,
        ;
        vstd::arithmetic::div_mod::lemma_div_is_ordered(0, factor * diff, u);
        vstd::arithmetic::div_mod::lemma_div_is_ordered(factor * diff, u * diff, u);
    } else {
        assert(u * diff <= factor * diff <= 0) by (nonlinear_arith)
            requires
                0 <= factor <= u,
                diff < 0,
        ;
        vstd::arithmetic::div_mod::lemma_div_is_ordered(factor * diff, 0, u);
        vstd::arithmetic::div_mod::lemma_div_is_ordered(u * diff, factor * diff, u);
    }
}

/// How far a position lies between the stop before it and the stop after
/// it is a fraction from 0 to 1: 0 at the stop before, 1 at the stop after.
pub proof fn lemma_fraction_within(prev: int, next: int, x: int)
    requires
        prev <= x <= next,
    ensures
        0 <= fraction(prev, next, x) <= UNIT,
        fraction(prev, next, prev) == 0,
        prev < next ==> fraction(prev, next, next) == UNIT,
{
    let u = UNIT as int;
    if prev < next {
        let span = next - prev;
        let gone = x - prev;
        assert(0 <= gone * u <= span * u) by (nonlinear_arith)
            requires
                0 <= gone <= span,
                u > 0,
        ;
        vstd::arithmetic::div_mod::lemma_div_is_ordered(0, gone * u, span);
        vstd::arithmetic::div_mod::lemma_div_is_ordered(gone * u, span * u, span);
        assert(span * u == u * span) by (nonlinear_arith);
        vstd::arithmetic::div_mod::lemma_div_multiples_vanish(u, span);
        assert(0 * u == 0);
    }
}

/// A product with a factor splits into the product with the factor's whole
/// units and the product with the rest.
proof fn lemma_split_factor(factor: int, diff: int)
    ensures
        factor * diff / (UNIT as int) == (factor / (UNIT as int)) * diff + (factor % (UNIT as int))
            * diff / (UNIT as int),
{
    let u = UNIT as int;
    let q = factor / u;
    let rest = factor % u;
    lemma_fundamental_div_mod(factor, u);
    assert(factor * diff == rest * diff + (q * diff) * u) by (nonlinear_arith)
        requires
            factor == u * q + rest,
    ;
    lemma_hoist_over_denominator(rest * diff, q * diff, u as nat);
}

/// One colour channel at the fraction `factor` of the way from `from` to
/// `to`.
fn lerp_value(from: i64, to: i64, factor: i64) -> (r: i64)
    ensures
        r == lerp_channel(from as int, to as int, factor as int),
{
    let diff: i128 = to as i128 - from as i128;
    let whole: i128 = div_floor(factor as i128, UNIT as i128);
    let rest: i128 = factor as i128 - whole * (UNIT as i128);
    proof {
        let u = UNIT as int;
        lemma_fundamental_div_mod(factor as int, u);
        lemma_mod_bound(factor as int, u);
        assert(rest == factor as int % u);
        assert(-9_223_372_037 <= whole <= 9_223_372_037);
        lemma_split_factor(factor as int, diff as int);
        assert(-0x1_0000_0000_0000_0000 * 9_223_372_037 <= whole * diff
            <= 0x1_0000_0000_0000_0000 * 9_223_372_037) by (nonlinear_arith)
            requires
                -9_223_372_037 <= whole <= 9_223_372_037,
                -0x1_0000_0000_0000_0000 < diff < 0x1_0000_0000_0000_0000,
        ;
        assert(-0x1_0000_0000_0000_0000 * 1_000_000_000 <= rest * diff
            <= 0x1_0000_0000_0000_0000 * 1_000_000_000) by (nonlinear_arith)
            requires
                0 <= rest < 1_000_000_000,
                -0x1_0000_0000_0000_0000 < diff < 0x1_0000_0000_0000_0000,
        ;
        let top: int = 0x1_0000_0000_0000_0000int * 1_000_000_000;
        vstd::arithmetic::div_mod::lemma_div_is_ordered(-top, rest * diff, u);
        vstd::arithmetic::div_mod::lemma_div_is_ordered(rest * diff, top, u);
    }
    let part: i128 = div_floor(rest * diff, UNIT as i128);
    saturate(from as i128 + whole * diff + part)
}

impl RGBFloat {
    /// The colour at the fraction `factor` (in fixed point) of the way from
    /// this colour to `destination`.
    pub fn get_lerped(&self, destination: RGBFloat, factor: i64) -> (r: RGBFloat)
        ensures
            r == lerp_color(*self, destination, factor as int),
    {
        RGBFloat {
            r: lerp_value(self.r, destination.r, factor),
            g: lerp_value(self.g, destination.g, factor),
            b: lerp_value(self.b, destination.b, factor),
            a: lerp_value(self.a, destination.a, factor),
        }
    }
}

impl Keyed for ColorStop {
    open spec fn key(&self) -> int {
        self.position as int
    }

    fn key_value(&self) -> (k: i64) {
        self.position
    }
}

/// How far `x` lies on the way from `prev` to `next`.
fn fraction_of(prev: i64, next: i64, x: i64) -> (r: i64)
    requires
        prev <= x <= next,
    ensures
        0 <= r <= UNIT,
        r == fraction(prev as int, next as int, x as int),
{
    if next == prev {
        0
    } else {
        let span: i128 = next as i128 - prev as i128;
        let gone: i128 = x as i128 - prev as i128;
        proof {
            let u = UNIT as int;
            assert(0 <= gone * u <= span * u) by (nonlinear_arith)
                requires
                    0 <= gone <= span,
                    u == 1_000_000_000,
            ;
            assert(span * u <= 0x1_0000_0000_0000_0000 * 1_000_000_000) by (nonlinear_arith)
                requires
                    0 < span < 0x1_0000_0000_0000_0000,
                    u == 1_000_000_000,
            ;
            vstd::arithmetic::div_mod::lemma_div_is_ordered(0, gone * u, span as int);
            vstd::arithmetic::div_mod::lemma_div_is_ordered(gone * u, span * u, span as int);
            assert(span * u == u * span) by (nonlinear_arith);
            vstd::arithmetic::div_mod::lemma_div_multiples_vanish(u, span as int);
        }
        let r: i128 = (gone * (UNIT as i128)) / span;
        r as i64
    }
}

/// What a gradient offers; `ColorGradient` is the one that has it.
pub trait Gradient {
    /// The colour stops in the order in which the gradient holds them.
    spec fn stops(&self) -> Seq<ColorStop>;

    /// Adds a colour stop, then brings the whole gradient into ascending
    /// order of position; among equal positions the new stop comes last.
    fn add_color_stop(&mut self, position: i64, color: RGBFloat)
        ensures
            final(self).stops() == sorted_stable(
                old(self).stops().push(ColorStop { position, color }),
            ),
            is_sorted(final(self).stops()),
            final(self).stops().len() == old(self).stops().len() + 1,
            final(self).stops().to_multiset() == old(self).stops().to_multiset().insert(
                ColorStop { position, color },
            ),
    ;

    /// The colour of the gradient at `position`, where it has one.
    fn get_color_at_position(&self, position: i64) -> (r: Option<RGBFloat>)
        ensures
            r == gradient_color(self.stops(), position as int),
    ;

    /// The stop before `position`: of those at or left of it the rightmost,
    /// and of several at that position the first.
    fn get_color_stop_before(&self, position: i64) -> (r: Option<&ColorStop>)
        ensures
            r.is_some() <==> has_before(self.stops(), position as int),
            r matches Some(p) ==> *p == self.stops()[before_index(self.stops(), position as int)],
    ;

    /// The stop after `position`: of those at or right of it the leftmost,
    /// and of several at that position the last.
    fn get_color_stop_after(&self, position: i64) -> (r: Option<&ColorStop>)
        ensures
            r.is_some() <==> has_after(self.stops(), position as int),
            r matches Some(p) ==> *p == self.stops()[after_index(self.stops(), position as int)],
    ;
}

impl Gradient for ColorGradient {
    open spec fn stops(&self) -> Seq<ColorStop> {
        self@
    }

    fn add_color_stop(&mut self, position: i64, color: RGBFloat) {
        proof {
            let grown = old(self)@.push(ColorStop { position, color });
            lemma_sorted_stable(grown);
            vstd::seq_lib::to_multiset_build(old(self)@, ColorStop { position, color });
        }
        self.push(ColorStop { position, color });
        sort_stable(self);
    }

    fn get_color_at_position(&self, position: i64) -> (r: Option<RGBFloat>) {
        if self.len() < 2 {
            return None;
        }
        match index_before(self, position) {
            None => None,
            Some(i) => match index_after(self, position) {
                None => None,
                Some(k) => {
                    let prev: &ColorStop = &self[i];
                    let next: &ColorStop = &self[k];
                    let factor: i64 = fraction_of(prev.position, next.position, position);
                    Some(prev.color.get_lerped(next.color, factor))
                },
            },
        }
    }

    fn get_color_stop_before(&self, position: i64) -> (r: Option<&ColorStop>) {
        match index_before(self, position) {
            Some(i) => Some(&self[i]),
            None => None,
        }
    }

    fn get_color_stop_after(&self, position: i64) -> (r: Option<&ColorStop>) {
        match index_after(self, position) {
            Some(i) => Some(&self[i]),
            None => None,
        }
    }
}

} // verus!
