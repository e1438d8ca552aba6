//! Laws of arithmetic on doubles: results are the doubles nearest to the exact ones.
use crate::double::{
    lemma_floor_exists, lemma_nearest, lemma_value_increases, magnitude_value, nearest, negation,
    product, quotient, remainder, signed, sum, to_integer, unit, Double, Rounding, INFINITY, NAN,
};
use vstd::arithmetic::div_mod::lemma_fundamental_div_mod;
use vstd::arithmetic::power2::lemma_pow2_pos;
use vstd::prelude::*;

verus! {

/// How far two integers are apart.
pub open spec fn apart(a: int, b: int) -> int {
    if a < b {
        b - a
    } else {
        a - b
    }
}

/// No magnitude is nearer to a number than the one that it is rounded to. Where that is
/// infinity, no finite magnitude reaches the number.
pub proof fn lemma_none_nearer(num: int, den: int, c: int)
    requires
        den > 0,
        num >= 0,
        0 <= c < INFINITY,
    ensures
        nearest(num, den) <= INFINITY,
        nearest(num, den) < INFINITY ==> apart(
            den * magnitude_value(nearest(num, den) as int),
            num,
        ) <= apart(den * magnitude_value(c), num),
        nearest(num, den) == INFINITY ==> den * magnitude_value(c) < num,
{
    lemma_value_increases(c, INFINITY as int);
    assert(den * magnitude_value(c) < den * magnitude_value(INFINITY as int)) by (nonlinear_arith)
        requires
            den > 0,
            magnitude_value(c) < magnitude_value(INFINITY as int),
    ;
    if num < den * magnitude_value(INFINITY as int) {
        let m = lemma_floor_exists(num, den, INFINITY as int);
        lemma_nearest(num, den, m);
        let low = magnitude_value(m);
        let high = magnitude_value(m + 1);
        lemma_value_increases(m, m + 1);
        assert(den * (low + high) == den * low + den * high) by (nonlinear_arith);
        let v = magnitude_value(c);
        if c < m {
            lemma_value_increases(c, m);
        }
        if m + 1 < c {
            lemma_value_increases(m + 1, c);
        }
        assert(c <= m ==> den * v <= den * low) by (nonlinear_arith)
            requires
                den > 0,
                c <= m ==> v <= low,
        ;
        assert(c > m ==> den * v >= den * high) by (nonlinear_arith)
            requires
                den > 0,
                c > m ==> v >= high,
        ;
    }
}

/// A sign and a magnitude are what the pattern made of them has.
pub proof fn lemma_signed(negative: bool, m: u64)
    requires
        m <= INFINITY,
    ensures
        signed(negative, m).magnitude() == m,
        signed(negative, m).negative() == negative,
{
}

/// The sum of two finite doubles is the double nearest to the exact sum: no other is
/// nearer. Where it is infinite, all finite doubles fall short of the exact sum, on the
/// side of the infinity.
pub proof fn lemma_sum_nearest(a: Double, b: Double, c: Double)
    requires
        a.magnitude() < INFINITY,
        b.magnitude() < INFINITY,
        c.magnitude() < INFINITY,
    ensures
        !sum(a, b).nan(),
        !sum(a, b).infinite() ==> apart(sum(a, b).value(), a.value() + b.value()) <= apart(
            c.value(),
            a.value() + b.value(),
        ),
        sum(a, b).infinite() ==> if sum(a, b).negative() {
            a.value() + b.value() < c.value()
        } else {
            c.value() < a.value() + b.value()
        },
{
    let total = a.value() + b.value();
    let n = if total < 0 { -total } else { total };
    let m = c.magnitude() as int;
    assert(magnitude_value(0) == 0);
    lemma_none_nearer(n, 1, m);
    lemma_none_nearer(n, 1, 0);
    lemma_signed(total < 0, nearest(n, 1));
    lemma_value_not_negative(m);
    lemma_value_not_negative(nearest(n, 1) as int);
    if total == 0 {
        lemma_signed(a.negative() && b.negative(), 0);
    }
}

/// No magnitude stands for a negative number.
pub proof fn lemma_value_not_negative(m: int)
    requires
        0 <= m <= INFINITY,
    ensures
        magnitude_value(m) >= 0,
{
    assert(magnitude_value(0) == 0);
    if m > 0 {
        lemma_value_increases(0, m);
    }
}

/// Negation turns a number into its opposite, and leaves alone what is not a number.
pub proof fn lemma_negation(a: Double)
    ensures
        negation(a).value() == -a.value(),
        negation(a).nan() == a.nan(),
        negation(a).infinite() == a.infinite(),
        negation(a).negative() != a.negative(),
        negation(negation(a)) == a,
{
    let b = negation(a);
    assert(b.magnitude() == a.magnitude());
}

/// The difference of two finite doubles, as the sum of one and the negation of the other,
/// is the double nearest to the exact difference. It does not matter but for the sign
/// which is taken from which, and nothing is left where a number is taken from itself.
pub proof fn lemma_difference_nearest(a: Double, b: Double, c: Double)
    requires
        a.magnitude() < INFINITY,
        b.magnitude() < INFINITY,
        c.magnitude() < INFINITY,
    ensures
        ({
            let d = sum(a, negation(b));
            &&& !d.nan()
            &&& !d.infinite() ==> apart(d.value(), a.value() - b.value()) <= apart(
                c.value(),
                a.value() - b.value(),
            )
            &&& d.infinite() ==> if d.negative() {
                a.value() - b.value() < c.value()
            } else {
                c.value() < a.value() - b.value()
            }
        }),
{
    lemma_negation(b);
    lemma_sum_nearest(a, negation(b), c);
}

proof fn lemma_scaled_sign(x: int, y: int)
    ensures
        (-x) * y == -(x * y),
        x * (-y) == -(x * y),
        (-x) * (-y) == x * y,
{
    assert((-x) * y == -(x * y)) by (nonlinear_arith);
    assert(x * (-y) == -(x * y)) by (nonlinear_arith);
    assert((-x) * (-y) == x * y) by (nonlinear_arith);
}

/// The product of two finite doubles is the double nearest to the exact product.
pub proof fn lemma_product_nearest(a: Double, b: Double, c: Double)
    requires
        a.magnitude() < INFINITY,
        b.magnitude() < INFINITY,
        c.magnitude() < INFINITY,
    ensures
        !product(a, b).nan(),
        product(a, b).negative() == (a.negative() != b.negative()),
        !product(a, b).infinite() ==> apart(
            product(a, b).value() * unit(),
            a.value() * b.value(),
        ) <= apart(c.value() * unit(), a.value() * b.value()),
        product(a, b).infinite() ==> c.size() * unit() < a.size() * b.size(),
{
    let x = a.size();
    let y = b.size();
    let u = unit();
    let n = x * y;
    let m = c.magnitude() as int;
    let neg = a.negative() != b.negative();
    lemma_pow2_pos(1074);
    lemma_value_not_negative(a.magnitude() as int);
    lemma_value_not_negative(b.magnitude() as int);
    lemma_value_not_negative(m);
    assert(n >= 0) by (nonlinear_arith)
        requires
            x >= 0,
            y >= 0,
            n == x * y,
    ;
    lemma_none_nearer(n, u, m);
    lemma_none_nearer(n, u, 0);
    assert(magnitude_value(0) == 0);
    assert(u * 0 == 0);
    let r = nearest(n, u);
    lemma_signed(neg, r);
    lemma_scaled_sign(x, y);
    lemma_scaled_sign(c.size(), u);
    lemma_scaled_sign(magnitude_value(r as int), u);
    lemma_turned(u, magnitude_value(r as int), c.size(), n);
}

/// Numbers that are not negative are nearer to one of their side than their opposites.
proof fn lemma_turned(u: int, r: int, c: int, n: int)
    requires
        u > 0,
        n >= 0,
        c >= 0,
    ensures
        u * r == r * u,
        u * c == c * u,
        c * u >= 0,
        apart(u * c, n) <= apart(-(u * c), n),
{
    assert(u * r == r * u) by (nonlinear_arith);
    assert(u * c == c * u && c * u >= 0) by (nonlinear_arith)
        requires
            u > 0,
            c >= 0,
    ;
}

/// The quotient of two finite doubles, the second not a zero, is the double nearest to
/// the exact quotient: times the divisor it is nearest to the dividend.
pub proof fn lemma_quotient_nearest(a: Double, b: Double, c: Double)
    requires
        a.magnitude() < INFINITY,
        0 < b.magnitude() < INFINITY,
        c.magnitude() < INFINITY,
    ensures
        !quotient(a, b).nan(),
        quotient(a, b).negative() == (a.negative() != b.negative()),
        !quotient(a, b).infinite() ==> apart(
            quotient(a, b).value() * b.value(),
            a.value() * unit(),
        ) <= apart(c.value() * b.value(), a.value() * unit()),
        quotient(a, b).infinite() ==> c.size() * b.size() < a.size() * unit(),
{
    let x = a.size();
    let y = b.size();
    let u = unit();
    let n = x * u;
    let m = c.magnitude() as int;
    let neg = a.negative() != b.negative();
    lemma_pow2_pos(1074);
    lemma_value_not_negative(a.magnitude() as int);
    assert(magnitude_value(0) == 0);
    lemma_value_increases(0, b.magnitude() as int);
    lemma_value_not_negative(m);
    assert(n >= 0) by (nonlinear_arith)
        requires
            x >= 0,
            u > 0,
            n == x * u,
    ;
    lemma_none_nearer(n, y, m);
    lemma_none_nearer(n, y, 0);
    assert(y * 0 == 0);
    let r = nearest(n, y);
    lemma_signed(neg, r);
    lemma_scaled_sign(x, u);
    lemma_scaled_sign(c.size(), y);
    lemma_scaled_sign(magnitude_value(r as int), y);
    lemma_turned(y, magnitude_value(r as int), c.size(), n);
}

/// What is not a number stays so, and so do an infinity beside a finite double, an
/// infinity times a number that is not zero, and a number over a zero or an infinity.
pub proof fn lemma_arithmetic_of_infinities(a: Double, b: Double)
    ensures
        a.nan() || b.nan() ==> sum(a, b).nan() && product(a, b).nan() && quotient(a, b).nan()
            && remainder(a, b).nan(),
        a.infinite() && b.magnitude() < INFINITY ==> sum(a, b) == a && sum(b, a) == a,
        a.infinite() && b.infinite() ==> if a.negative() == b.negative() {
            sum(a, b) == a
        } else {
            sum(a, b).nan()
        },
        a.infinite() && 0 < b.magnitude() <= INFINITY ==> product(a, b).infinite() && product(
            b,
            a,
        ).infinite() && (product(a, b).negative() <==> a.negative() != b.negative()),
        a.infinite() && b.zero() ==> product(a, b).nan() && product(b, a).nan(),
        a.infinite() && b.infinite() ==> quotient(a, b).nan(),
        a.infinite() && b.magnitude() < INFINITY ==> quotient(a, b).infinite() && remainder(
            a,
            b,
        ).nan(),
        a.magnitude() < INFINITY && b.infinite() ==> quotient(a, b).zero() && remainder(a, b) == a,
        0 < a.magnitude() < INFINITY && b.zero() ==> quotient(a, b).infinite(),
        a.zero() && b.zero() ==> quotient(a, b).nan(),
{
    lemma_signed(a.negative() != b.negative(), INFINITY);
    lemma_signed(a.negative() != b.negative(), 0);
    assert(Double { bits: NAN }.nan());
}

/// The double of an integer is the one nearest to it.
pub proof fn lemma_integer_nearest(i: int, c: Double)
    requires
        i64::MIN <= i <= i64::MAX,
        c.magnitude() < INFINITY,
    ensures
        !Double::nearest_to(i).nan(),
        !Double::nearest_to(i).infinite() ==> apart(Double::nearest_to(i).value(), i * unit())
            <= apart(c.value(), i * unit()),
{
    let x = if i < 0 { -i } else { i };
    let u = unit();
    let m = c.magnitude() as int;
    lemma_pow2_pos(1074);
    assert(x * u >= 0) by (nonlinear_arith)
        requires
            x >= 0,
            u > 0,
    ;
    assert((-x) * u == -(x * u)) by (nonlinear_arith);
    assert(magnitude_value(0) == 0);
    lemma_none_nearer(x * u, 1, m);
    lemma_none_nearer(x * u, 1, 0);
    lemma_value_not_negative(m);
    lemma_value_not_negative(nearest(x * u, 1) as int);
    lemma_signed(i < 0, nearest(x * u, 1));
}

/// The integer that a finite double is rounded to, where it is in range: the largest that
/// is not above it, the smallest that is not below it, the one with nothing between it
/// and the double on the side of zero, or the nearest, halves away from zero.
pub proof fn lemma_to_integer(a: Double)
    requires
        a.magnitude() < INFINITY,
    ensures
        ({
            let u = unit();
            let v = a.value();
            let floor = to_integer(a, Rounding::Floor) as int;
            let ceiling = to_integer(a, Rounding::Ceiling) as int;
            let whole = to_integer(a, Rounding::Truncate) as int;
            let near = to_integer(a, Rounding::Nearest) as int;
            &&& i64::MIN * u <= v && v < i64::MAX * u ==> floor * u <= v < (floor + 1) * u
            &&& i64::MIN * u < v && v <= i64::MAX * u ==> (ceiling - 1) * u < v <= ceiling * u
            &&& i64::MIN * u <= v && v <= i64::MAX * u ==> if v < 0 {
                v <= whole * u < v + u && whole * u <= 0
            } else {
                v - u < whole * u <= v && whole * u >= 0
            }
            &&& i64::MIN * u <= v && v <= i64::MAX * u ==> if v < 0 {
                -u <= 2 * (near * u - v) < u
            } else {
                -u < 2 * (near * u - v) <= u
            }
            &&& v < i64::MIN * u ==> floor == i64::MIN && whole == i64::MIN && near == i64::MIN
            &&& v > i64::MAX * u ==> ceiling == i64::MAX && whole == i64::MAX && near == i64::MAX
        }),
{
    let u = unit();
    let s = a.size();
    lemma_pow2_pos(1074);
    lemma_value_not_negative(a.magnitude() as int);
    let q = s / u;
    let r = s % u;
    lemma_fundamental_div_mod(s, u);
    assert(u * q == q * u) by (nonlinear_arith);
    lemma_multiples(u, q, s, r, i64::MAX as int);
    lemma_multiples(u, q, s, r, -(i64::MIN as int));
    lemma_scaled_sign(q, u);
    lemma_scaled_sign(q + 1, u);
    lemma_scaled_sign(q - 1, u);
    assert((q + 1) * u == q * u + u) by (nonlinear_arith);
    assert((q - 1) * u == q * u - u) by (nonlinear_arith);
    assert((-q + 1) * u == -(q * u) + u) by (nonlinear_arith);
    assert((-q - 1) * u == -(q * u) - u) by (nonlinear_arith);
    assert((q + 2) * u == q * u + u + u) by (nonlinear_arith);
    assert((-(q + 1) - 1) * u == -(q * u) - u - u) by (nonlinear_arith);
    assert((-(q + 1) + 1) * u == -(q * u)) by (nonlinear_arith);
    assert((q + 1 + 1) * u == q * u + u + u) by (nonlinear_arith);
    assert((q + 1 - 1) * u == q * u) by (nonlinear_arith);
    assert(i64::MIN * u == -((-(i64::MIN as int)) * u)) by (nonlinear_arith);
}

/// Where a multiple of a number stands to another.
proof fn lemma_multiples(u: int, q: int, s: int, r: int, k: int)
    requires
        u > 0,
        s == q * u + r,
        0 <= r < u,
        q >= 0,
        k >= 0,
    ensures
        q * u >= 0,
        s < k * u ==> q < k,
        s <= k * u ==> q <= k && (q == k ==> r == 0),
        s > k * u ==> q >= k,
        s >= k * u ==> q >= k,
        q == k ==> q * u == k * u,
{
    assert(q * u >= 0) by (nonlinear_arith)
        requires
            q >= 0,
            u > 0,
    ;
    assert(q > k ==> q * u >= k * u + u) by (nonlinear_arith)
        requires
            u > 0,
    ;
    assert(q < k ==> q * u + u <= k * u) by (nonlinear_arith)
        requires
            u > 0,
    ;
}

/// The remainder of finite doubles, the divisor not a zero, is the double nearest to what
/// is left of the dividend when the divisor is taken from it as often as it fits, with the
/// sign of the dividend.
pub proof fn lemma_remainder_nearest(a: Double, b: Double, c: Double)
    requires
        a.magnitude() < INFINITY,
        0 < b.magnitude() < INFINITY,
        c.magnitude() < INFINITY,
    ensures
        remainder(a, b).negative() == a.negative(),
        exists|q: int|
            {
                let rest = a.size() - #[trigger] (q * b.size());
                &&& 0 <= rest < b.size()
                &&& !remainder(a, b).infinite() ==> apart(remainder(a, b).size(), rest) <= apart(
                    c.size(),
                    rest,
                )
            },
{
    let x = a.size();
    let y = b.size();
    assert(magnitude_value(0) == 0);
    lemma_value_not_negative(a.magnitude() as int);
    lemma_value_increases(0, b.magnitude() as int);
    lemma_fundamental_div_mod(x, y);
    let q = x / y;
    assert(y * q == q * y) by (nonlinear_arith);
    assert(x - q * y == x % y);
    lemma_none_nearer(x % y, 1, c.magnitude() as int);
    lemma_signed(a.negative(), nearest(x % y, 1));
}

} // verus!
