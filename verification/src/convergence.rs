//! Why the parameter search ends close to its target: the cubic changes
//! little from one parameter step to the next where its control values lie
//! close together, and bisection keeps the target enclosed.

use vstd::prelude::*;
use vstd::arithmetic::div_mod::lemma_div_is_ordered;
use vstd::arithmetic::div_mod::lemma_div_multiples_vanish;
use vstd::arithmetic::div_mod::lemma_hoist_over_denominator;
use vstd::arithmetic::power2::lemma2_to64;
use vstd::arithmetic::power2::lemma_pow2_pos;
use vstd::arithmetic::power2::lemma_pow2_unfold;
use vstd::arithmetic::power2::pow2;
use crate::bezier::bezier;
use crate::bezier::bezier_numerator;
use crate::bezier::bisect;
use crate::bezier::crosses_after;
use crate::bezier::curve_value;
use crate::bezier::is_gentle;
use crate::bezier::lemma_bezier_within;
use crate::bezier::midpoint;
use crate::bezier::solve_t;
use crate::bezier::AnchorPoint;
use crate::bezier::MAX_STEPS;
use crate::bezier::TOLERANCE;
use crate::bezier::T_CUBE;
use crate::bezier::T_ONE;
use crate::fixed::distance;
use crate::fixed::UNIT;
use crate::ordered::after_index;
use crate::ordered::before_index;
use crate::ordered::lemma_after_exists;
use crate::ordered::lemma_before_exists;

verus! {

/// The cubic changes by at most `precision` from each parameter step to the
/// next.
pub open spec fn steps_within(start: int, c1: int, c2: int, end: int, precision: int) -> bool {
    forall|n: int|
        0 <= n < T_ONE ==> distance(
            #[trigger] bezier(start, c1, c2, end, n + 1),
            bezier(start, c1, c2, end, n),
        ) <= precision
}

/// How the three weights of a step change with the parameter.
proof fn lemma_weight_steps(s: int, n: int)
    requires
        1 <= s,
        0 <= n,
    ensures
        (s - 1) * (s - 1) * (s - 1) - s * s * s == -(3 * s * s - 3 * s + 1),
        3 * ((s - 1) * (s - 1) * (n + 1)) - 3 * (s * s * n) == (3 * s * s - 3 * s + 1) - (6 * s * n
            + 3 * s - 3 * n - 2),
        3 * ((s - 1) * (n + 1) * (n + 1)) - 3 * (s * n * n) == (6 * s * n + 3 * s - 3 * n - 2) - (3
            * n * n + 3 * n + 1),
        (n + 1) * (n + 1) * (n + 1) - n * n * n == 3 * n * n + 3 * n + 1,
        3 * s * s - 3 * s + 1 >= 0,
        6 * s * n + 3 * s - 3 * n - 2 >= 0,
        3 * n * n + 3 * n + 1 >= 0,
        (3 * s * s - 3 * s + 1) + (6 * s * n + 3 * s - 3 * n - 2) + (3 * n * n + 3 * n + 1) == 3 * (
        (s + n) * (s + n)),
{
    assert((s - 1) * (s - 1) * (s - 1) - s * s * s == -(3 * s * s - 3 * s + 1))
        by (nonlinear_arith);
    assert(3 * ((s - 1) * (s - 1) * (n + 1)) - 3 * (s * s * n) == (3 * s * s - 3 * s + 1) - (6 * s
        * n + 3 * s - 3 * n - 2)) by (nonlinear_arith);
    assert(3 * ((s - 1) * (n + 1) * (n + 1)) - 3 * (s * n * n) == (6 * s * n + 3 * s - 3 * n - 2)
        - (3 * n * n + 3 * n + 1)) by (nonlinear_arith);
    assert((n + 1) * (n + 1) * (n + 1) - n * n * n == 3 * n * n + 3 * n + 1) by (nonlinear_arith);
    assert(3 * s * s - 3 * s + 1 >= 0) by (nonlinear_arith)
        requires
            1 <= s,
    ;
    assert(6 * s * n + 3 * s - 3 * n - 2 >= 0) by (nonlinear_arith)
        requires
            1 <= s,
            0 <= n,
    ;
    assert(3 * n * n + 3 * n + 1 >= 0) by (nonlinear_arith)
        requires
            0 <= n,
    ;
    assert((3 * s * s - 3 * s + 1) + (6 * s * n + 3 * s - 3 * n - 2) + (3 * n * n + 3 * n + 1) == 3
        * ((s + n) * (s + n))) by (nonlinear_arith);
}

/// A product with a difference is the difference of the products.
proof fn lemma_times_difference(p: int, q: int, v: int)
    by (nonlinear_arith)
    ensures
        (p - q) * v == p * v - q * v,
        v * (p - q) == v * p - v * q,
        p * v == v * p,
        q * v == v * q,
{
}

/// A difference of weighted sums, term by term.
proof fn lemma_weighted_difference(
    w0: int,
    w1: int,
    w2: int,
    w3: int,
    u0: int,
    u1: int,
    u2: int,
    u3: int,
    a: int,
    b: int,
    c: int,
    d: int,
    x: int,
    y: int,
    z: int,
)
    requires
        u0 - w0 == -x,
        u1 - w1 == x - y,
        u2 - w2 == y - z,
        u3 - w3 == z,
    ensures
        (u0 * a + u1 * b + u2 * c + u3 * d) - (w0 * a + w1 * b + w2 * c + w3 * d) == x * (b - a)
            + y * (c - b) + z * (d - c),
{
    lemma_times_difference(u0, w0, a);
    lemma_times_difference(u1, w1, b);
    lemma_times_difference(u2, w2, c);
    lemma_times_difference(u3, w3, d);
    lemma_times_difference(0, x, a);
    lemma_times_difference(x, y, b);
    lemma_times_difference(y, z, c);
    lemma_times_difference(b, a, x);
    lemma_times_difference(c, b, y);
    lemma_times_difference(d, c, z);
    assert((u0 - w0) * a == (0 - x) * a);
    assert((u1 - w1) * b == (x - y) * b);
    assert((u2 - w2) * c == (y - z) * c);
    assert((u3 - w3) * d == z * d);
}

/// A product of a non-negative weight with a value of bounded size is
/// bounded by the weight times the bound.
proof fn lemma_weight_times_bounded(w: int, v: int, m: int)
    by (nonlinear_arith)
    requires
        0 <= w,
        -m <= v <= m,
    ensures
        -(w * m) <= w * v <= w * m,
{
}

/// A sum of three values weighted by non-negative weights is bounded by
/// the weights' total times a bound of the values.
proof fn lemma_weighted_bound(x: int, y: int, z: int, e: int, f: int, g: int, m: int)
    requires
        0 <= x,
        0 <= y,
        0 <= z,
        -m <= e <= m,
        -m <= f <= m,
        -m <= g <= m,
    ensures
        -((x + y + z) * m) <= x * e + y * f + z * g <= (x + y + z) * m,
{
    lemma_weight_times_bounded(x, e, m);
    lemma_weight_times_bounded(y, f, m);
    lemma_weight_times_bounded(z, g, m);
    assert((x + y + z) * m == x * m + y * m + z * m) by (nonlinear_arith);
}

/// From one parameter step to the next the numerator of the cubic changes
/// by at most `3 T_ONE²` times the greatest distance between control values
/// that follow each other.
pub proof fn lemma_numerator_step(a: int, b: int, c: int, d: int, n: int, m: int)
    requires
        0 <= n < T_ONE,
        distance(a, b) <= m,
        distance(b, c) <= m,
        distance(c, d) <= m,
    ensures
        distance(bezier_numerator(a, b, c, d, n + 1), bezier_numerator(a, b, c, d, n)) <= 3 * (
        T_ONE as int * T_ONE as int) * m,
{
    let s = T_ONE as int - n;
    let x = 3 * s * s - 3 * s + 1;
    let y = 6 * s * n + 3 * s - 3 * n - 2;
    let z = 3 * n * n + 3 * n + 1;
    lemma_weight_steps(s, n);
    let w0 = s * s * s;
    let w1 = 3 * (s * s * n);
    let w2 = 3 * (s * n * n);
    let w3 = n * n * n;
    let u0 = (s - 1) * (s - 1) * (s - 1);
    let u1 = 3 * ((s - 1) * (s - 1) * (n + 1));
    let u2 = 3 * ((s - 1) * (n + 1) * (n + 1));
    let u3 = (n + 1) * (n + 1) * (n + 1);
    lemma_weighted_difference(w0, w1, w2, w3, u0, u1, u2, u3, a, b, c, d, x, y, z);
    lemma_weighted_bound(x, y, z, b - a, c - b, d - c, m);
    assert(T_ONE as int - (n + 1) == s - 1);
    assert(bezier_numerator(a, b, c, d, n) == w0 * a + w1 * b + w2 * c + w3 * d);
    assert(bezier_numerator(a, b, c, d, n + 1) == u0 * a + u1 * b + u2 * c + u3 * d);
    assert(s + n == T_ONE);
    assert((x + y + z) * m == 3 * (T_ONE as int * T_ONE as int) * m) by (nonlinear_arith)
        requires
            x + y + z == 3 * ((s + n) * (s + n)),
            s + n == T_ONE,
    ;
}

/// Two numerators that differ by at most `j` denominators give values that
/// differ by at most `j`.
proof fn lemma_quotients_close(n1: int, n2: int, j: int)
    requires
        0 <= j,
        distance(n1, n2) <= j * T_CUBE,
    ensures
        distance(n1 / (T_CUBE as int), n2 / (T_CUBE as int)) <= j,
{
    let k = T_CUBE as int;
    lemma_hoist_over_denominator(n1, j, k as nat);
    lemma_hoist_over_denominator(n2, j, k as nat);
    lemma_div_is_ordered(n1, n2 + j * k, k);
    lemma_div_is_ordered(n2, n1 + j * k, k);
}

/// Where the control values lie close together the cubic changes little
/// from each parameter step to the next.
pub proof fn lemma_gentle_steps(start: int, c1: int, c2: int, end: int, precision: int)
    requires
        0 <= precision,
        is_gentle(start, c1, c2, end, precision),
    ensures
        steps_within(start, c1, c2, end, precision),
{
    assert forall|n: int| 0 <= n < T_ONE implies distance(
        #[trigger] bezier(start, c1, c2, end, n + 1),
        bezier(start, c1, c2, end, n),
    ) <= precision by {
        let m = if distance(start, c1) >= distance(c1, c2) {
            if distance(start, c1) >= distance(c2, end) {
                distance(start, c1)
            } else {
                distance(c2, end)
            }
        } else {
            if distance(c1, c2) >= distance(c2, end) {
                distance(c1, c2)
            } else {
                distance(c2, end)
            }
        };
        lemma_numerator_step(start, c1, c2, end, n, m);
        assert(3 * (T_ONE as int * T_ONE as int) * m <= precision * T_CUBE) by (nonlinear_arith)
            requires
                3 * m <= precision * T_ONE,
                T_ONE as int * T_ONE as int * T_ONE as int == T_CUBE,
                T_ONE > 0,
        ;
        lemma_quotients_close(
            bezier_numerator(start, c1, c2, end, n + 1),
            bezier_numerator(start, c1, c2, end, n),
            precision,
        );
    }
}

/// The value of the cubic is its closed form rounded down: it is at most
/// the exact value and less than one step below it.
pub proof fn lemma_bezier_rounds_down(a: int, b: int, c: int, d: int, t: int)
    ensures
        T_CUBE * bezier(a, b, c, d, t) <= bezier_numerator(a, b, c, d, t) < T_CUBE * (bezier(
            a,
            b,
            c,
            d,
            t,
        ) + 1),
{
    let n = bezier_numerator(a, b, c, d, t);
    let k = T_CUBE as int;
    vstd::arithmetic::div_mod::lemma_fundamental_div_mod(n, k);
    vstd::arithmetic::div_mod::lemma_mod_bound(n, k);
    assert(k * (n / k + 1) == k * (n / k) + k) by (nonlinear_arith);
}

/// Where the control values never decrease the cubic never decreases.
pub proof fn lemma_bezier_monotone(a: int, b: int, c: int, d: int, n: int)
    requires
        0 <= n < T_ONE,
        a <= b <= c <= d,
    ensures
        bezier(a, b, c, d, n) <= bezier(a, b, c, d, n + 1),
{
    let s = T_ONE as int - n;
    let x = 3 * s * s - 3 * s + 1;
    let y = 6 * s * n + 3 * s - 3 * n - 2;
    let z = 3 * n * n + 3 * n + 1;
    lemma_weight_steps(s, n);
    let w0 = s * s * s;
    let w1 = 3 * (s * s * n);
    let w2 = 3 * (s * n * n);
    let w3 = n * n * n;
    let u0 = (s - 1) * (s - 1) * (s - 1);
    let u1 = 3 * ((s - 1) * (s - 1) * (n + 1));
    let u2 = 3 * ((s - 1) * (n + 1) * (n + 1));
    let u3 = (n + 1) * (n + 1) * (n + 1);
    lemma_weighted_difference(w0, w1, w2, w3, u0, u1, u2, u3, a, b, c, d, x, y, z);
    assert(T_ONE as int - (n + 1) == s - 1);
    assert(x * (b - a) + y * (c - b) + z * (d - c) >= 0) by (nonlinear_arith)
        requires
            x >= 0,
            y >= 0,
            z >= 0,
            b - a >= 0,
            c - b >= 0,
            d - c >= 0,
    ;
    lemma_div_is_ordered(
        bezier_numerator(a, b, c, d, n),
        bezier_numerator(a, b, c, d, n + 1),
        T_CUBE as int,
    );
}

/// At the two ends of the parameter range the cubic takes its end values.
pub proof fn lemma_bezier_ends(a: int, b: int, c: int, d: int)
    ensures
        bezier(a, b, c, d, 0) == a,
        bezier(a, b, c, d, T_ONE as int) == d,
{
    let t = T_ONE as int;
    assert(bezier_numerator(a, b, c, d, 0) == a * T_CUBE) by (nonlinear_arith)
        requires
            bezier_numerator(a, b, c, d, 0) == t * t * t * a + 3 * (t * t * 0) * b + 3 * (t * 0 * 0)
                * c + 0 * 0 * 0 * d,
            t * t * t == T_CUBE,
    ;
    assert(bezier_numerator(a, b, c, d, t) == d * T_CUBE) by (nonlinear_arith)
        requires
            bezier_numerator(a, b, c, d, t) == 0 * 0 * 0 * a + 3 * (0 * 0 * t) * b + 3 * (0 * t * t)
                * c + t * t * t * d,
            t * t * t == T_CUBE,
    ;
    lemma_div_multiples_vanish(a, T_CUBE as int);
    lemma_div_multiples_vanish(d, T_CUBE as int);
    assert(a * T_CUBE == T_CUBE * a) by (nonlinear_arith);
    assert(d * T_CUBE == T_CUBE * d) by (nonlinear_arith);
}

/// Bisection never leaves the interval it starts from.
pub proof fn lemma_bisect_within(
    start: int,
    c1: int,
    c2: int,
    end: int,
    target: int,
    precision: int,
    lower: int,
    upper: int,
    steps: nat,
)
    requires
        lower <= upper,
    ensures
        lower <= bisect(start, c1, c2, end, target, precision, lower, upper, steps) <= upper,
    decreases steps,
{
    let mid = midpoint(lower, upper);
    let x = bezier(start, c1, c2, end, mid);
    if distance(target, x) <= precision || steps == 0 {
    } else if target > x {
        lemma_bisect_within(start, c1, c2, end, target, precision, mid, upper, (steps - 1) as nat);
    } else {
        lemma_bisect_within(start, c1, c2, end, target, precision, lower, mid, (steps - 1) as nat);
    }
}

/// Bisection that starts from an interval of `2^steps` parameter steps whose
/// ends enclose the target ends within `precision` of the target or at the
/// parameter step of that interval in which the cubic passes the target,
/// whatever the control values are.
pub proof fn lemma_bisect_encloses(
    start: int,
    c1: int,
    c2: int,
    end: int,
    target: int,
    precision: int,
    lower: int,
    upper: int,
    steps: nat,
)
    requires
        0 <= lower,
        upper <= T_ONE,
        upper - lower == pow2(steps),
        bezier(start, c1, c2, end, lower) <= target <= bezier(start, c1, c2, end, upper),
    ensures
        ({
            let t = bisect(start, c1, c2, end, target, precision, lower, upper, steps);
            &&& lower <= t <= upper
            &&& distance(target, bezier(start, c1, c2, end, t)) <= precision || (t < upper
                && crosses_after(start, c1, c2, end, target, t))
        }),
    decreases steps,
{
    let mid = midpoint(lower, upper);
    let x = bezier(start, c1, c2, end, mid);
    lemma2_to64();
    lemma_pow2_pos(steps);
    if distance(target, x) <= precision {
    } else if steps == 0 {
        assert(mid == lower);
        assert(upper == lower + 1);
    } else {
        lemma_pow2_unfold(steps);
        assert(mid - lower == pow2((steps - 1) as nat));
        if target > x {
            lemma_bisect_encloses(
                start,
                c1,
                c2,
                end,
                target,
                precision,
                mid,
                upper,
                (steps - 1) as nat,
            );
        } else {
            lemma_bisect_encloses(
                start,
                c1,
                c2,
                end,
                target,
                precision,
                lower,
                mid,
                (steps - 1) as nat,
            );
        }
    }
}

/// The search for a target that lies between the end values ends within
/// `precision` of the target or at the parameter step in which the cubic
/// passes the target, whatever the control values are.
pub proof fn lemma_search_encloses(
    start: int,
    c1: int,
    c2: int,
    end: int,
    target: int,
    precision: int,
)
    requires
        start <= target <= end,
    ensures
        ({
            let t = solve_t(start, c1, c2, end, target, precision);
            &&& 0 <= t <= T_ONE
            &&& distance(target, bezier(start, c1, c2, end, t)) <= precision || crosses_after(
                start,
                c1,
                c2,
                end,
                target,
                t,
            )
        }),
{
    lemma_bezier_ends(start, c1, c2, end);
    lemma2_to64();
    lemma_bisect_encloses(start, c1, c2, end, target, precision, 0, T_ONE as int, MAX_STEPS as nat);
}

/// Control values in the normalized range from 0 to 1 lie close enough
/// together for a search to within the tolerance of curves.
pub proof fn lemma_unit_range_is_gentle(start: int, c1: int, c2: int, end: int)
    requires
        0 <= start <= UNIT,
        0 <= c1 <= UNIT,
        0 <= c2 <= UNIT,
        0 <= end <= UNIT,
    ensures
        is_gentle(start, c1, c2, end, TOLERANCE as int),
{
}

/// Bisection that starts from an interval of `2^steps` parameter steps whose
/// ends enclose the target ends within `precision` of the target, where the
/// cubic changes by at most `precision` per step.
pub proof fn lemma_bisect_converges(
    start: int,
    c1: int,
    c2: int,
    end: int,
    target: int,
    precision: int,
    lower: int,
    upper: int,
    steps: nat,
)
    requires
        0 <= lower,
        upper <= T_ONE,
        upper - lower == pow2(steps),
        bezier(start, c1, c2, end, lower) <= target <= bezier(start, c1, c2, end, upper),
        steps_within(start, c1, c2, end, precision),
    ensures
        distance(
            target,
            bezier(
                start,
                c1,
                c2,
                end,
                bisect(start, c1, c2, end, target, precision, lower, upper, steps),
            ),
        ) <= precision,
    decreases steps,
{
    let mid = midpoint(lower, upper);
    let x = bezier(start, c1, c2, end, mid);
    lemma2_to64();
    lemma_pow2_pos(steps);
    if distance(target, x) <= precision {
    } else if steps == 0 {
        assert(mid == lower);
        assert(upper == lower + 1);
        assert(distance(bezier(start, c1, c2, end, lower + 1), bezier(start, c1, c2, end, lower))
            <= precision);
    } else {
        lemma_pow2_unfold(steps);
        assert(mid - lower == pow2((steps - 1) as nat));
        if target > x {
            lemma_bisect_converges(
                start,
                c1,
                c2,
                end,
                target,
                precision,
                mid,
                upper,
                (steps - 1) as nat,
            );
        } else {
            lemma_bisect_converges(
                start,
                c1,
                c2,
                end,
                target,
                precision,
                lower,
                mid,
                (steps - 1) as nat,
            );
        }
    }
}

/// The search ends within `precision` of a target that lies between the end
/// values, where the control values lie close together.
pub proof fn lemma_search_converges(
    start: int,
    c1: int,
    c2: int,
    end: int,
    target: int,
    precision: int,
)
    requires
        start <= target <= end,
        0 <= precision,
        is_gentle(start, c1, c2, end, precision),
    ensures
        0 <= solve_t(start, c1, c2, end, target, precision) <= T_ONE,
        distance(target, bezier(start, c1, c2, end, solve_t(start, c1, c2, end, target, precision)))
            <= precision,
{
    lemma_gentle_steps(start, c1, c2, end, precision);
    lemma_bezier_ends(start, c1, c2, end);
    lemma2_to64();
    lemma_bisect_within(start, c1, c2, end, target, precision, 0, T_ONE as int, MAX_STEPS as nat);
    lemma_bisect_converges(start, c1, c2, end, target, precision, 0, T_ONE as int, MAX_STEPS as nat);
}

/// How far the ordinate may move in the parameter step in which a curve
/// passes a position, for the value to count as accurate: 10^-3.
pub const VALUE_TOLERANCE: i64 = 1_000_000;

/// The segment of a curve that holds `x`: from the anchor before `x` to
/// the anchor after `x`.
pub open spec fn segment_before(points: Seq<AnchorPoint>, x: int) -> AnchorPoint {
    points[before_index(points, x)]
}

/// The anchor at which the segment that holds `x` ends.
pub open spec fn segment_after(points: Seq<AnchorPoint>, x: int) -> AnchorPoint {
    points[after_index(points, x)]
}

/// The parameter at which the value of a curve at `x` is taken.
pub open spec fn value_parameter(points: Seq<AnchorPoint>, x: int) -> int {
    solve_t(
        segment_before(points, x).anchor.x as int,
        segment_before(points, x).control_2.x as int,
        segment_after(points, x).control_1.x as int,
        segment_after(points, x).anchor.x as int,
        x,
        TOLERANCE as int,
    )
}

/// The abscissa of the segment that holds `x` at parameter `t`.
pub open spec fn segment_x(points: Seq<AnchorPoint>, x: int, t: int) -> int {
    bezier(
        segment_before(points, x).anchor.x as int,
        segment_before(points, x).control_2.x as int,
        segment_after(points, x).control_1.x as int,
        segment_after(points, x).anchor.x as int,
        t,
    )
}

/// The ordinate of the segment that holds `x` at parameter `t`.
pub open spec fn segment_y(points: Seq<AnchorPoint>, x: int, t: int) -> int {
    bezier(
        segment_before(points, x).anchor.y as int,
        segment_before(points, x).control_2.y as int,
        segment_after(points, x).control_1.y as int,
        segment_after(points, x).anchor.y as int,
        t,
    )
}

/// The value of a curve at `x` lies on the cubic between the anchor before
/// `x` and the anchor after `x`, whatever the control points are: it is the
/// ordinate of the cubic at a parameter `t` of the segment, and at `t` the
/// abscissa of the cubic is within the tolerance of `x`, or the cubic
/// passes `x` between `t` and the next parameter step.
pub proof fn lemma_value_on_curve(points: Seq<AnchorPoint>, x: int)
    requires
        curve_value(points, x).is_some(),
    ensures
        ({
            let t = value_parameter(points, x);
            &&& segment_before(points, x).anchor.x <= x <= segment_after(points, x).anchor.x
            &&& 0 <= t <= T_ONE
            &&& curve_value(points, x) == Some(segment_y(points, x, t))
            &&& distance(x, segment_x(points, x, t)) <= TOLERANCE || (0 <= t < T_ONE && segment_x(
                points,
                x,
                t,
            ) <= x <= segment_x(points, x, t + 1))
        }),
{
    lemma_before_exists(points, x);
    lemma_after_exists(points, x);
    let prev = segment_before(points, x);
    let next = segment_after(points, x);
    lemma_search_encloses(
        prev.anchor.x as int,
        prev.control_2.x as int,
        next.control_1.x as int,
        next.anchor.x as int,
        x,
        TOLERANCE as int,
    );
}

/// Where the abscissas of the control points of the segment that holds `x`
/// lie close together, the value of the curve at `x` is the ordinate of the
/// cubic at a parameter at which its abscissa is within the tolerance of
/// `x`.
pub proof fn lemma_value_within_tolerance(points: Seq<AnchorPoint>, x: int)
    requires
        curve_value(points, x).is_some(),
        is_gentle(
            segment_before(points, x).anchor.x as int,
            segment_before(points, x).control_2.x as int,
            segment_after(points, x).control_1.x as int,
            segment_after(points, x).anchor.x as int,
            TOLERANCE as int,
        ),
    ensures
        0 <= value_parameter(points, x) <= T_ONE,
        curve_value(points, x) == Some(segment_y(points, x, value_parameter(points, x))),
        distance(x, segment_x(points, x, value_parameter(points, x))) <= TOLERANCE,
{
    lemma_value_on_curve(points, x);
    let prev = segment_before(points, x);
    let next = segment_after(points, x);
    lemma_search_converges(
        prev.anchor.x as int,
        prev.control_2.x as int,
        next.control_1.x as int,
        next.anchor.x as int,
        x,
        TOLERANCE as int,
    );
}

/// The abscissas of all anchors and control points of a curve lie in the
/// normalized range from 0 to 1.
pub open spec fn in_unit_range(points: Seq<AnchorPoint>) -> bool {
    forall|i: int|
        0 <= i < points.len() ==> {
            &&& 0 <= (#[trigger] points[i]).anchor.x <= UNIT
            &&& 0 <= points[i].control_1.x <= UNIT
            &&& 0 <= points[i].control_2.x <= UNIT
        }
}

/// On a curve that lies in the normalized range, as the curves of a
/// timeline do, every value is the ordinate of the cubic at a parameter at
/// which its abscissa is within the tolerance of the position asked for.
pub proof fn lemma_value_on_unit_curve(points: Seq<AnchorPoint>, x: int)
    requires
        curve_value(points, x).is_some(),
        in_unit_range(points),
    ensures
        0 <= value_parameter(points, x) <= T_ONE,
        curve_value(points, x) == Some(segment_y(points, x, value_parameter(points, x))),
        distance(x, segment_x(points, x, value_parameter(points, x))) <= TOLERANCE,
{
    lemma_before_exists(points, x);
    lemma_after_exists(points, x);
    let prev = segment_before(points, x);
    let next = segment_after(points, x);
    lemma_unit_range_is_gentle(
        prev.anchor.x as int,
        prev.control_2.x as int,
        next.control_1.x as int,
        next.anchor.x as int,
    );
    lemma_value_within_tolerance(points, x);
}

/// Where the ordinates of the control points of the segment that holds `x`
/// lie close together, the ordinate moves by at most 10^-3 in the parameter
/// step in which the curve passes `x`: the value of the curve is that close
/// to the ordinate at either end of the step.
pub proof fn lemma_value_accuracy(points: Seq<AnchorPoint>, x: int)
    requires
        curve_value(points, x).is_some(),
        is_gentle(
            segment_before(points, x).anchor.y as int,
            segment_before(points, x).control_2.y as int,
            segment_after(points, x).control_1.y as int,
            segment_after(points, x).anchor.y as int,
            VALUE_TOLERANCE as int,
        ),
    ensures
        ({
            let t = value_parameter(points, x);
            &&& curve_value(points, x) == Some(segment_y(points, x, t))
            &&& 0 <= t < T_ONE ==> distance(segment_y(points, x, t + 1), segment_y(points, x, t))
                <= VALUE_TOLERANCE
        }),
{
    lemma_value_on_curve(points, x);
    let prev = segment_before(points, x);
    let next = segment_after(points, x);
    lemma_gentle_steps(
        prev.anchor.y as int,
        prev.control_2.y as int,
        next.control_1.y as int,
        next.anchor.y as int,
        VALUE_TOLERANCE as int,
    );
}

/// The ordinates of all anchors and control points of a curve lie in the
/// normalized range from 0 to 1.
pub open spec fn values_in_unit_range(points: Seq<AnchorPoint>) -> bool {
    forall|i: int|
        0 <= i < points.len() ==> {
            &&& 0 <= (#[trigger] points[i]).anchor.y <= UNIT
            &&& 0 <= points[i].control_1.y <= UNIT
            &&& 0 <= points[i].control_2.y <= UNIT
        }
}

/// On a curve whose values lie in the normalized range the ordinate moves
/// by at most 10^-3 in the parameter step in which the curve passes the
/// position asked for, and the value stays in that range.
pub proof fn lemma_value_accuracy_on_unit_curve(points: Seq<AnchorPoint>, x: int)
    requires
        curve_value(points, x).is_some(),
        values_in_unit_range(points),
    ensures
        ({
            let t = value_parameter(points, x);
            &&& curve_value(points, x) == Some(segment_y(points, x, t))
            &&& 0 <= segment_y(points, x, t) <= UNIT
            &&& 0 <= t < T_ONE ==> distance(segment_y(points, x, t + 1), segment_y(points, x, t))
                <= VALUE_TOLERANCE
        }),
{
    lemma_before_exists(points, x);
    lemma_after_exists(points, x);
    lemma_value_on_curve(points, x);
    lemma_value_accuracy(points, x);
    let prev = segment_before(points, x);
    let next = segment_after(points, x);
    lemma_bezier_within(
        prev.anchor.y as int,
        prev.control_2.y as int,
        next.control_1.y as int,
        next.anchor.y as int,
        value_parameter(points, x),
        0,
        UNIT as int,
    );
}

} // verus!
