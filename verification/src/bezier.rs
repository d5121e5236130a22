//! Cubic Bézier segments in fixed point: the closed form and the search for
//! the parameter at which a segment reaches a given abscissa.

use vstd::prelude::*;
use vstd::arithmetic::div_mod::lemma_div_is_ordered;
use vstd::arithmetic::div_mod::lemma_div_multiples_vanish;
use crate::convergence::lemma_search_converges;
use crate::convergence::lemma_value_on_curve;
use crate::convergence::segment_x;
use crate::convergence::segment_y;
use crate::convergence::value_parameter;
use crate::convergence::lemma_search_encloses;
use crate::fixed::distance;
use crate::fixed::distance_of;
use crate::fixed::div_floor;
use crate::ordered::after_index;
use crate::ordered::before_index;
use crate::ordered::has_after;
use crate::ordered::has_before;
use crate::ordered::index_after;
use crate::ordered::index_before;
use crate::ordered::is_sorted;
use crate::ordered::lemma_sorted_stable;
use crate::ordered::sort_stable;
use crate::ordered::sorted_stable;
use crate::ordered::Keyed;

verus! {

/// The integer that stands for the curve parameter 1. A parameter `t` between
/// 0 and 1 is held as `t * T_ONE`; a power of two, so that halving an
/// interval of parameters is exact.
pub const T_ONE: i64 = 1_048_576;

/// `T_ONE` cubed: the common denominator of the four Bernstein weights.
pub const T_CUBE: i128 = 1_152_921_504_606_846_976;

/// The most halvings a parameter search makes. After this many the interval
/// of parameters has shrunk to a single step.
pub const MAX_STEPS: u32 = 20;

/// A point of the plane, each coordinate in fixed point.
#[derive(Clone, Copy, Debug)]
pub struct Point2D {
    pub x: i64,
    pub y: i64,
}

/// A node of a curve with its incoming (`control_1`) and outgoing
/// (`control_2`) control points.
#[derive(Clone, Copy, Debug)]
pub struct AnchorPoint {
    pub anchor: Point2D,
    pub control_1: Point2D,
    pub control_2: Point2D,
}

/// The numerator of the cubic Bézier form at parameter `t / T_ONE`:
/// `(1-t)³a + 3(1-t)²t·b + 3(1-t)t²·c + t³·d`, scaled by `T_ONE³`.
pub open spec fn bezier_numerator(a: int, b: int, c: int, d: int, t: int) -> int {
    let s = T_ONE as int - t;
    s * s * s * a + 3 * (s * s * t) * b + 3 * (s * t * t) * c + t * t * t * d
}

/// The cubic Bézier form with end values `a`, `d` and control values `b`,
/// `c` at parameter `t / T_ONE`, rounded down to a whole fixed-point step.
pub open spec fn bezier(a: int, b: int, c: int, d: int, t: int) -> int {
    bezier_numerator(a, b, c, d, t) / (T_CUBE as int)
}

/// The middle of an interval of parameters.
pub open spec fn midpoint(lower: int, upper: int) -> int {
    lower + (upper - lower) / 2
}

/// The parameter that bisection settles on, starting from the interval
/// `lower..upper` with `steps` halvings left: the first midpoint at which the
/// form is within `precision` of `target`, or the midpoint reached when no
/// halving is left.
pub open spec fn bisect(
    start: int,
    c1: int,
    c2: int,
    end: int,
    target: int,
    precision: int,
    lower: int,
    upper: int,
    steps: nat,
) -> int
    decreases steps,
{
    let mid = midpoint(lower, upper);
    let x = bezier(start, c1, c2, end, mid);
    if distance(target, x) <= precision || steps == 0 {
        mid
    } else if target > x {
        bisect(start, c1, c2, end, target, precision, mid, upper, (steps - 1) as nat)
    } else {
        bisect(start, c1, c2, end, target, precision, lower, mid, (steps - 1) as nat)
    }
}

/// The parameter found for `target` on the whole segment.
pub open spec fn solve_t(start: int, c1: int, c2: int, end: int, target: int, precision: int) -> int {
    bisect(start, c1, c2, end, target, precision, 0, T_ONE as int, MAX_STEPS as nat)
}

/// The control values lie close enough together for a search to within
/// `precision`: three times the distance from each to the next is at most
/// `precision` parameter steps' worth.
pub open spec fn is_gentle(start: int, c1: int, c2: int, end: int, precision: int) -> bool {
    &&& 3 * distance(start, c1) <= precision * T_ONE
    &&& 3 * distance(c1, c2) <= precision * T_ONE
    &&& 3 * distance(c2, end) <= precision * T_ONE
}

/// The cubic passes `target` between parameter `t` and the next parameter
/// step: its value at `t` is at or below the target, its value one step on
/// at or above.
pub open spec fn crosses_after(start: int, c1: int, c2: int, end: int, target: int, t: int) -> bool {
    &&& 0 <= t < T_ONE
    &&& bezier(start, c1, c2, end, t) <= target <= bezier(start, c1, c2, end, t + 1)
}

/// The four Bernstein weights are non-negative and add up to `T_ONE³`.
proof fn lemma_weights(s: int, t: int)
    requires
        0 <= s,
        0 <= t,
        s + t == T_ONE,
    ensures
        0 <= s * s <= 1_099_511_627_776,
        0 <= t * t <= 1_099_511_627_776,
        0 <= s * t <= 1_099_511_627_776,
        0 <= s * s * s,
        0 <= s * s * t,
        0 <= s * t * t,
        0 <= t * t * t,
        s * s * s + 3 * (s * s * t) + 3 * (s * t * t) + t * t * t == T_CUBE,
{
    assert(0 <= s * s <= 1_099_511_627_776 && 0 <= t * t <= 1_099_511_627_776 && 0 <= s * t
        <= 1_099_511_627_776) by (nonlinear_arith)
        requires
            0 <= s <= 1_048_576,
            0 <= t <= 1_048_576,
    ;
    assert(0 <= s * s * s && 0 <= s * s * t && 0 <= s * t * t && 0 <= t * t * t)
        by (nonlinear_arith)
        requires
            0 <= s,
            0 <= t,
    ;
    assert((s + t) * (s + t) * (s + t) == s * s * s + 3 * (s * s * t) + 3 * (s * t * t) + t * t
        * t) by (nonlinear_arith);
    assert((s + t) * (s + t) * (s + t) == T_CUBE) by (nonlinear_arith)
        requires
            s + t == 1_048_576,
            T_CUBE == 1_152_921_504_606_846_976,
    ;
}

/// A product of a non-negative weight with a value lies between the
/// products of the weight with the value's bounds.
proof fn lemma_weighted(w: int, v: int, lo: int, hi: int)
    by (nonlinear_arith)
    requires
        0 <= w,
        lo <= v <= hi,
    ensures
        w * lo <= w * v <= w * hi,
{
}

/// The closed form never leaves the range spanned by its four values.
pub proof fn lemma_bezier_within(a: int, b: int, c: int, d: int, t: int, lo: int, hi: int)
    requires
        0 <= t <= T_ONE,
        lo <= a <= hi,
        lo <= b <= hi,
        lo <= c <= hi,
        lo <= d <= hi,
    ensures
        lo <= bezier(a, b, c, d, t) <= hi,
{
    let s = T_ONE as int - t;
    let w0 = s * s * s;
    let w1 = 3 * (s * s * t);
    let w2 = 3 * (s * t * t);
    let w3 = t * t * t;
    lemma_weights(s, t);
    lemma_weighted(w0, a, lo, hi);
    lemma_weighted(w1, b, lo, hi);
    lemma_weighted(w2, c, lo, hi);
    lemma_weighted(w3, d, lo, hi);
    let n = bezier_numerator(a, b, c, d, t);
    let k = T_CUBE as int;
    assert(w0 * lo + w1 * lo + w2 * lo + w3 * lo == k * lo) by (nonlinear_arith)
        requires
            w0 + w1 + w2 + w3 == k,
    ;
    assert(w0 * hi + w1 * hi + w2 * hi + w3 * hi == k * hi) by (nonlinear_arith)
        requires
            w0 + w1 + w2 + w3 == k,
    ;
    assert(k * lo <= n <= k * hi);
    lemma_div_is_ordered(k * lo, n, k);
    lemma_div_is_ordered(n, k * hi, k);
    lemma_div_multiples_vanish(lo, k);
    lemma_div_multiples_vanish(hi, k);
}

/// Evaluates the cubic Bézier form with end values `a`, `d` and control
/// values `b`, `c` at parameter `t / T_ONE`.
pub fn curve(a: i64, b: i64, c: i64, d: i64, t: i64) -> (r: i64)
    requires
        0 <= t <= T_ONE,
    ensures
        r == bezier(a as int, b as int, c as int, d as int, t as int),
{
    let s: i128 = (T_ONE - t) as i128;
    let u: i128 = t as i128;
    proof {
        lemma_weights(s as int, u as int);
    }
    let ss: i128 = s * s;
    let uu: i128 = u * u;
    let w0: i128 = ss * s;
    let w1: i128 = 3 * (ss * u);
    let su: i128 = s * u;
    let w2: i128 = 3 * (su * u);
    let w3: i128 = uu * u;
    proof {
        let lo = i64::MIN as int;
        let hi = i64::MAX as int;
        lemma_weighted(w0 as int, a as int, lo, hi);
        lemma_weighted(w1 as int, b as int, lo, hi);
        lemma_weighted(w2 as int, c as int, lo, hi);
        lemma_weighted(w3 as int, d as int, lo, hi);
        lemma_weighted(w0 as int, lo, lo, hi);
        lemma_weighted(w1 as int, lo, lo, hi);
        lemma_weighted(w2 as int, lo, lo, hi);
        lemma_weighted(w3 as int, lo, lo, hi);
        assert(w0 * hi + w1 * hi + w2 * hi + w3 * hi == T_CUBE * hi) by (nonlinear_arith)
            requires
                w0 + w1 + w2 + w3 == T_CUBE,
        ;
        assert(w0 * lo + w1 * lo + w2 * lo + w3 * lo == T_CUBE * lo) by (nonlinear_arith)
            requires
                w0 + w1 + w2 + w3 == T_CUBE,
        ;
        lemma_bezier_within(a as int, b as int, c as int, d as int, t as int, lo, hi);
    }
    let n: i128 = w0 * (a as i128) + w1 * (b as i128) + w2 * (c as i128) + w3 * (d as i128);
    let q: i128 = div_floor(n, T_CUBE);
    q as i64
}

/// The point of the segment from `start` to `end` with control points `c1`, `c2`
/// at parameter `t / T_ONE`.
pub fn get_point_on_curve(start: Point2D, c1: Point2D, c2: Point2D, end: Point2D, t: i64) -> (r:
    Point2D)
    requires
        0 <= t <= T_ONE,
    ensures
        r.x == bezier(start.x as int, c1.x as int, c2.x as int, end.x as int, t as int),
        r.y == bezier(start.y as int, c1.y as int, c2.y as int, end.y as int, t as int),
{
    Point2D { x: curve(start.x, c1.x, c2.x, end.x, t), y: curve(start.y, c1.y, c2.y, end.y, t) }
}

/// Searches by bisection for the parameter at which the form with end values
/// `start`, `end` and control values `c1`, `c2` comes within `precision` of
/// `target_x`. The search halves the interval of parameters at most
/// `MAX_STEPS` times, so it ends whatever the control values are. Where the
/// target lies between the end values, it ends within `precision` of the
/// target or at the parameter step in which the cubic passes the target;
/// where moreover the control values lie close together, it ends within
/// `precision` of the target.
pub fn find_t_for_x(start: i64, c1: i64, c2: i64, end: i64, target_x: i64, precision: i64) -> (t: i64)
    ensures
        0 <= t <= T_ONE,
        t == solve_t(
            start as int,
            c1 as int,
            c2 as int,
            end as int,
            target_x as int,
            precision as int,
        ),
        start <= target_x <= end ==> distance(
            target_x as int,
            bezier(start as int, c1 as int, c2 as int, end as int, t as int),
        ) <= precision || crosses_after(
            start as int,
            c1 as int,
            c2 as int,
            end as int,
            target_x as int,
            t as int,
        ),
        start <= target_x <= end && 0 <= precision && is_gentle(
            start as int,
            c1 as int,
            c2 as int,
            end as int,
            precision as int,
        ) ==> distance(
            target_x as int,
            bezier(start as int, c1 as int, c2 as int, end as int, t as int),
        ) <= precision,
{
    proof {
        if start <= target_x <= end {
            lemma_search_encloses(
                start as int,
                c1 as int,
                c2 as int,
                end as int,
                target_x as int,
                precision as int,
            );
        }
        if start <= target_x <= end && 0 <= precision && is_gentle(
            start as int,
            c1 as int,
            c2 as int,
            end as int,
            precision as int,
        ) {
            lemma_search_converges(
                start as int,
                c1 as int,
                c2 as int,
                end as int,
                target_x as int,
                precision as int,
            );
        }
    }
    let mut lower: i64 = 0;
    let mut upper: i64 = T_ONE;
    let mut steps: u32 = MAX_STEPS;
    let mut mid: i64 = lower + (upper - lower) / 2;
    let mut x: i64 = curve(start, c1, c2, end, mid);
    while distance_of(target_x, x) > precision as i128 && steps > 0
        invariant
            0 <= lower <= mid <= upper <= T_ONE,
            mid == midpoint(lower as int, upper as int),
            x == bezier(start as int, c1 as int, c2 as int, end as int, mid as int),
            bisect(
                start as int,
                c1 as int,
                c2 as int,
                end as int,
                target_x as int,
                precision as int,
                lower as int,
                upper as int,
                steps as nat,
            ) == solve_t(
                start as int,
                c1 as int,
                c2 as int,
                end as int,
                target_x as int,
                precision as int,
            ),
        decreases steps,
    {
        if target_x > x {
            lower = mid;
        } else {
            upper = mid;
        }
        steps = steps - 1;
        mid = lower + (upper - lower) / 2;
        x = curve(start, c1, c2, end, mid);
    }
    mid
}

/// How close to the queried abscissa the x-component must come for a
/// parameter search to end early: 10^-4.
pub const TOLERANCE: i64 = 100_000;

impl Keyed for AnchorPoint {
    open spec fn key(&self) -> int {
        self.anchor.x as int
    }

    fn key_value(&self) -> (k: i64) {
        self.anchor.x
    }
}

/// A curve: its anchor points, kept in ascending order of `anchor.x` by
/// `add_anchor_point`.
pub type BezierCurve = Vec<AnchorPoint>;

/// The ordinate at abscissa `x` of the segment that leaves `prev` and
/// arrives at `next`: the y-component of the cubic at the parameter at which
/// the search for `x` on its x-component ends.
pub open spec fn segment_value(prev: AnchorPoint, next: AnchorPoint, x: int) -> int {
    let t = solve_t(
        prev.anchor.x as int,
        prev.control_2.x as int,
        next.control_1.x as int,
        next.anchor.x as int,
        x,
        TOLERANCE as int,
    );
    bezier(
        prev.anchor.y as int,
        prev.control_2.y as int,
        next.control_1.y as int,
        next.anchor.y as int,
        t,
    )
}

/// The value of a curve at abscissa `x`. There is none where the curve has
/// fewer than two anchors or `x` lies outside the range of their abscissas;
/// elsewhere it is the value of the segment between the anchor before `x`
/// and the anchor after `x`.
pub open spec fn curve_value(points: Seq<AnchorPoint>, x: int) -> Option<int> {
    if points.len() < 2 || !has_before(points, x) || !has_after(points, x) {
        None
    } else {
        Some(segment_value(points[before_index(points, x)], points[after_index(points, x)], x))
    }
}

/// What a curve offers; `BezierCurve` is the one that has it.
pub trait Curve {
    /// The anchor points in the order in which the curve holds them.
    spec fn anchors(&self) -> Seq<AnchorPoint>;

    /// Adds an anchor point, then brings the whole curve into ascending order
    /// of `anchor.x`; among equal abscissas the new point comes last.
    fn add_anchor_point(&mut self, anchor: Point2D, control_1: Point2D, control_2: Point2D)
        ensures
            final(self).anchors() == sorted_stable(
                old(self).anchors().push(AnchorPoint { anchor, control_1, control_2 }),
            ),
            is_sorted(final(self).anchors()),
            final(self).anchors().len() == old(self).anchors().len() + 1,
            final(self).anchors().to_multiset() == old(self).anchors().to_multiset().insert(
                AnchorPoint { anchor, control_1, control_2 },
            ),
    ;

    /// The value of the curve at `position`, where it has one: the ordinate
    /// of the segment that holds `position` at a parameter at which the
    /// abscissa of the segment is within the tolerance of `position`, or
    /// between which and the next parameter step the segment passes
    /// `position`.
    fn get_value_at_position(&self, position: i64) -> (r: Option<i64>)
        ensures
            match r {
                Some(y) => curve_value(self.anchors(), position as int) == Some(y as int),
                None => curve_value(self.anchors(), position as int).is_none(),
            },
            r matches Some(y) ==> {
                let t = value_parameter(self.anchors(), position as int);
                &&& 0 <= t <= T_ONE
                &&& y == segment_y(self.anchors(), position as int, t)
                &&& distance(position as int, segment_x(self.anchors(), position as int, t))
                    <= TOLERANCE || (0 <= t < T_ONE && segment_x(
                    self.anchors(),
                    position as int,
                    t,
                ) <= position <= segment_x(self.anchors(), position as int, t + 1))
            },
    ;

    /// The anchor before `position`: of those at or left of it the rightmost,
    /// and of several at that abscissa the first.
    fn get_point_before(&self, position: i64) -> (r: Option<&AnchorPoint>)
        ensures
            r.is_some() <==> has_before(self.anchors(), position as int),
            r matches Some(p) ==> *p == self.anchors()[before_index(
                self.anchors(),
                position as int,
            )],
    ;

    /// The anchor after `position`: of those at or right of it the leftmost,
    /// and of several at that abscissa the last.
    fn get_point_after(&self, position: i64) -> (r: Option<&AnchorPoint>)
        ensures
            r.is_some() <==> has_after(self.anchors(), position as int),
            r matches Some(p) ==> *p == self.anchors()[after_index(
                self.anchors(),
                position as int,
            )],
    ;
}

impl Curve for BezierCurve {
    open spec fn anchors(&self) -> Seq<AnchorPoint> {
        self@
    }

    fn add_anchor_point(&mut self, anchor: Point2D, control_1: Point2D, control_2: Point2D) {
        proof {
            let grown = old(self)@.push(AnchorPoint { anchor, control_1, control_2 });
            lemma_sorted_stable(grown);
            vstd::seq_lib::to_multiset_build(old(self)@, AnchorPoint { anchor, control_1, control_2 });
        }
        self.push(AnchorPoint { anchor, control_1, control_2 });
        sort_stable(self);
    }

    fn get_value_at_position(&self, position: i64) -> (r: Option<i64>) {
        proof {
            if curve_value(self@, position as int).is_some() {
                lemma_value_on_curve(self@, position as int);
            }
        }
        if self.len() < 2 {
            return None;
        }
        match self.get_point_before(position) {
            None => None,
            Some(prev) => match self.get_point_after(position) {
                None => None,
                Some(next) => {
                    let t: i64 = find_t_for_x(
                        prev.anchor.x,
                        prev.control_2.x,
                        next.control_1.x,
                        next.anchor.x,
                        position,
                        TOLERANCE,
                    );
                    Some(
                        get_point_on_curve(
                            prev.anchor,
                            prev.control_2,
                            next.control_1,
                            next.anchor,
                            t,
                        ).y,
                    )
                },
            },
        }
    }

    fn get_point_before(&self, position: i64) -> (r: Option<&AnchorPoint>) {
        match index_before(self, position) {
            Some(i) => Some(&self[i]),
            None => None,
        }
    }

    fn get_point_after(&self, position: i64) -> (r: Option<&AnchorPoint>) {
        match index_after(self, position) {
            Some(i) => Some(&self[i]),
            None => None,
        }
    }
}

} // verus!
