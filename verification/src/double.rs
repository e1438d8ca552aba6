//! IEEE 754 double-precision numbers, held as their bit patterns.
//!
//! Every finite double is an integer multiple of 2^-1074, so the number that a
//! pattern stands for is modelled exactly by an integer that counts those
//! multiples. Arithmetic is specified as the exact result rounded to the
//! nearest double, ties going to the pattern whose last bit is zero.
use vstd::arithmetic::power2::{
    lemma2_to64, lemma2_to64_rest, lemma_pow2_adds, lemma_pow2_pos, lemma_pow2_strictly_increases,
    lemma_pow2_unfold, pow2,
};
use vstd::prelude::*;

pub mod laws;

verus! {

/// The weight of the sign bit.
pub const SIGN: u64 = 0x8000_0000_0000_0000;

/// The magnitude of infinity. Larger magnitudes are not numbers.
pub const INFINITY: u64 = 0x7ff0_0000_0000_0000;

/// The weight of the lowest exponent bit.
pub const FRACTION: u64 = 0x10_0000_0000_0000;

/// The pattern given for every result that is not a number.
pub const NAN: u64 = 0x7ff8_0000_0000_0000;

/// A double-precision number, given by its bit pattern.
#[derive(Clone, Copy, Debug, Hash)]
pub struct Double {
    pub bits: u64,
}

/// The number, in multiples of 2^-1074, that the magnitude `m` stands for.
/// The magnitude of infinity is given the value that would follow the largest
/// finite number.
pub open spec fn magnitude_value(m: int) -> int {
    let fraction = m % (FRACTION as int);
    let exponent = m / (FRACTION as int);
    if exponent == 0 {
        fraction
    } else {
        (FRACTION + fraction) * pow2((exponent - 1) as nat)
    }
}

/// Whether `m` is the largest magnitude whose value does not exceed `num / den`.
pub open spec fn is_floor(num: int, den: int, m: int) -> bool {
    &&& 0 <= m < INFINITY
    &&& den * magnitude_value(m) <= num
    &&& num < den * magnitude_value(m + 1)
}

/// The magnitude nearest to `num / den`, both taken in multiples of 2^-1074:
/// of two that are equally near, the even one.
pub open spec fn nearest(num: int, den: int) -> u64 {
    if num >= den * magnitude_value(INFINITY as int) {
        INFINITY
    } else {
        let m = choose|m: int| is_floor(num, den, m);
        let middle = den * (magnitude_value(m) + magnitude_value(m + 1));
        if 2 * num < middle || (2 * num == middle && m % 2 == 0) {
            m as u64
        } else {
            (m + 1) as u64
        }
    }
}

/// The pattern with the given sign and magnitude.
pub open spec fn signed(negative: bool, magnitude: u64) -> Double {
    Double { bits: if negative { (SIGN + magnitude) as u64 } else { magnitude } }
}

/// Two to the power 1074: the number one, in multiples of 2^-1074.
pub open spec fn unit() -> int {
    pow2(1074) as int
}

impl Double {
    pub open spec fn negative(self) -> bool {
        self.bits >= SIGN
    }

    pub open spec fn magnitude(self) -> u64 {
        if self.bits >= SIGN {
            (self.bits - SIGN) as u64
        } else {
            self.bits
        }
    }

    pub open spec fn nan(self) -> bool {
        self.magnitude() > INFINITY
    }

    pub open spec fn infinite(self) -> bool {
        self.magnitude() == INFINITY
    }

    pub open spec fn zero(self) -> bool {
        self.magnitude() == 0
    }

    /// The size of a finite number, in multiples of 2^-1074.
    pub open spec fn size(self) -> int {
        magnitude_value(self.magnitude() as int)
    }

    /// A finite number, in multiples of 2^-1074.
    pub open spec fn value(self) -> int {
        if self.negative() {
            -self.size()
        } else {
            self.size()
        }
    }

    /// Where the pattern stands among all that are numbers: the two zeros share
    /// a place.
    pub open spec fn rank(self) -> int {
        if self.negative() {
            -(self.magnitude() as int)
        } else {
            self.magnitude() as int
        }
    }
}

/// The value of the magnitude whose exponent is `u` above the lowest and whose
/// significand is `q`.
pub proof fn lemma_value_of_parts(u: int, q: int)
    requires
        0 <= u <= 2046,
        0 <= q <= 2 * FRACTION,
        u == 0 || q >= FRACTION,
    ensures
        magnitude_value(u * FRACTION + q) == q * pow2(u as nat),
{
    lemma2_to64();
    let m = u * FRACTION + q;
    if q < FRACTION {
        assert(u == 0);
        assert(m / (FRACTION as int) == 0 && m % (FRACTION as int) == q);
        assert(q * pow2(0) == q);
    } else if q < 2 * FRACTION {
        assert(m == (u + 1) * FRACTION + (q - FRACTION));
        assert(m / (FRACTION as int) == u + 1 && m % (FRACTION as int) == q - FRACTION);
    } else {
        assert(m == (u + 2) * FRACTION);
        assert(m / (FRACTION as int) == u + 2 && m % (FRACTION as int) == 0);
        lemma_pow2_unfold((u + 1) as nat);
        assert(FRACTION * (2 * pow2(u as nat)) == (2 * FRACTION) * pow2(u as nat))
            by (nonlinear_arith);
    }
}

/// Each magnitude stands for more than the one before it.
proof fn lemma_value_step(m: int)
    requires
        0 <= m < INFINITY,
    ensures
        0 <= magnitude_value(m) < magnitude_value(m + 1),
{
    let e = m / (FRACTION as int);
    let u = if e == 0 { 0 } else { e - 1 };
    let q = m - u * FRACTION;
    assert(0 <= q < 2 * FRACTION);
    assert(u == 0 || q >= FRACTION);
    assert(u <= 2046);
    lemma_value_of_parts(u, q);
    lemma_value_of_parts(u, q + 1);
    lemma_pow2_pos(u as nat);
    assert(q * pow2(u as nat) < (q + 1) * pow2(u as nat)) by (nonlinear_arith)
        requires
            pow2(u as nat) > 0,
    ;
    assert(0 <= q * pow2(u as nat)) by (nonlinear_arith)
        requires
            q >= 0,
            pow2(u as nat) > 0,
    ;
}

/// A larger magnitude stands for a larger number.
pub proof fn lemma_value_increases(a: int, b: int)
    requires
        0 <= a < b <= INFINITY,
    ensures
        0 <= magnitude_value(a) < magnitude_value(b),
    decreases b - a,
{
    lemma_value_step(a);
    if a + 1 < b {
        lemma_value_increases(a + 1, b);
    }
}

/// The magnitude below a number is unique.
proof fn lemma_floor_unique(num: int, den: int, a: int, b: int)
    requires
        den > 0,
        is_floor(num, den, a),
        is_floor(num, den, b),
    ensures
        a == b,
{
    let (low, high) = if a < b { (a, b) } else { (b, a) };
    if low + 1 < high {
        lemma_value_increases(low + 1, high);
    }
    assert(low != high ==> den * magnitude_value(low + 1) <= den * magnitude_value(high))
        by (nonlinear_arith)
        requires
            den > 0,
            low != high ==> magnitude_value(low + 1) <= magnitude_value(high),
    ;
}

/// What `nearest` gives, where the magnitude below the number is known.
pub proof fn lemma_nearest(num: int, den: int, m: int)
    requires
        den > 0,
        is_floor(num, den, m),
    ensures
        nearest(num, den) == ({
            let middle = den * (magnitude_value(m) + magnitude_value(m + 1));
            if 2 * num < middle || (2 * num == middle && m % 2 == 0) {
                m
            } else {
                m + 1
            }
        }),
{
    let c = choose|c: int| is_floor(num, den, c);
    lemma_floor_unique(num, den, m, c);
    if m + 1 < INFINITY {
        lemma_value_increases(m + 1, INFINITY as int);
    }
    assert(den * magnitude_value(m + 1) <= den * magnitude_value(INFINITY as int))
        by (nonlinear_arith)
        requires
            den > 0,
            magnitude_value(m + 1) <= magnitude_value(INFINITY as int),
    ;
}

/// Some magnitude is the largest that is not above a number.
pub proof fn lemma_floor_exists(num: int, den: int, high: int) -> (m: int)
    requires
        den > 0,
        0 <= num < den * magnitude_value(high),
        1 <= high <= INFINITY,
    ensures
        is_floor(num, den, m),
        m < high,
    decreases high,
{
    if den * magnitude_value(high - 1) <= num {
        high - 1
    } else {
        if high == 1 {
            lemma_value_of_parts(0, 0);
            assert(0 * pow2(0) == 0);
            assert(den * 0 == 0);
        }
        lemma_floor_exists(num, den, high - 1)
    }
}

/// Of two numbers over the same denominator, the larger is not rounded to a smaller
/// magnitude.
pub proof fn lemma_nearest_monotonic(x: int, y: int, den: int)
    requires
        den > 0,
        0 <= x <= y,
    ensures
        nearest(x, den) <= nearest(y, den) <= INFINITY,
{
    let top = den * magnitude_value(INFINITY as int);
    if y < top {
        let f = lemma_floor_exists(x, den, INFINITY as int);
        let g = lemma_floor_exists(y, den, INFINITY as int);
        lemma_nearest(x, den, f);
        lemma_nearest(y, den, g);
        if g < f {
            if g + 1 < f {
                lemma_value_increases(g + 1, f);
            }
            assert(den * magnitude_value(g + 1) <= den * magnitude_value(f)) by (nonlinear_arith)
                requires
                    den > 0,
                    magnitude_value(g + 1) <= magnitude_value(f),
            ;
        }
    } else if x < top {
        let f = lemma_floor_exists(x, den, INFINITY as int);
        lemma_nearest(x, den, f);
    }
}

/// An integer significand `m` with exponent `e`, kept 1200 above the exponent of
/// the unit, and a flag for whatever was cut off below it.
pub open spec fn brackets(num: int, den: int, m: int, e: nat, inexact: bool) -> bool {
    if inexact {
        &&& den * m * pow2(e) < num * pow2(1200)
        &&& num * pow2(1200) < den * (m + 1) * pow2(e)
    } else {
        num * pow2(1200) == den * m * pow2(e)
    }
}

/// Where the quotient `q` and the remainder `r` of `m` by a power of two place
/// the number among the multiples of 2^u.
proof fn lemma_place(num: int, den: int, m: int, e: nat, inexact: bool, s: nat, u: nat, q: int, r: int)
    requires
        den > 0,
        brackets(num, den, m, e, inexact),
        1 <= s,
        s + e == u + 1200,
        m == q * pow2(s) + r,
        0 <= r < pow2(s),
    ensures
        den * (q * pow2(u)) <= num,
        num < den * ((q + 1) * pow2(u)),
        r < pow2((s - 1) as nat) ==> 2 * num < den * (q * pow2(u) + (q + 1) * pow2(u)),
        r > pow2((s - 1) as nat) ==> 2 * num > den * (q * pow2(u) + (q + 1) * pow2(u)),
        r == pow2((s - 1) as nat) && inexact ==> 2 * num > den * (q * pow2(u) + (q + 1) * pow2(u)),
        r == pow2((s - 1) as nat) && !inexact ==> 2 * num == den * (q * pow2(u) + (q + 1)
            * pow2(u)),
{
    let half = pow2((s - 1) as nat) as int;
    let two = pow2(s) as int;
    let p = pow2(e) as int;
    let w = pow2(1200) as int;
    let t = pow2(u) as int;
    lemma_pow2_unfold(s);
    lemma_pow2_pos(s);
    lemma_pow2_pos(e);
    lemma_pow2_pos(u);
    lemma_pow2_pos(1200);
    lemma_pow2_adds(s, e);
    lemma_pow2_adds(u, 1200);
    assert(two == 2 * half);
    assert(two * p == t * w);
    let dp = den * p;
    assert(dp > 0) by (nonlinear_arith)
        requires
            den > 0,
            p > 0,
            dp == den * p,
    ;
    assert(den * m * p == dp * m) by (nonlinear_arith)
        requires
            dp == den * p,
    ;
    assert(den * (m + 1) * p == dp * (m + 1)) by (nonlinear_arith)
        requires
            dp == den * p,
    ;
    let nw = num * w;
    assert(dp * m <= nw);
    assert(nw < dp * (m + 1)) by (nonlinear_arith)
        requires
            inexact ==> nw < dp * (m + 1),
            !inexact ==> nw == dp * m,
            dp > 0,
    ;
    lemma_scaled(den, p, w, t, two, q);
    lemma_scaled(den, p, w, t, two, q + 1);
    assert(dp * (q * two) <= dp * m) by (nonlinear_arith)
        requires
            q * two <= m,
            dp > 0,
    ;
    assert((q + 1) * two == q * two + two) by (nonlinear_arith);
    assert(dp * (m + 1) <= dp * ((q + 1) * two)) by (nonlinear_arith)
        requires
            m + 1 <= (q + 1) * two,
            dp > 0,
    ;
    let low = den * (q * t);
    let high = den * ((q + 1) * t);
    assert(low <= num) by (nonlinear_arith)
        requires
            low * w <= num * w,
            w > 0,
    ;
    assert(num < high) by (nonlinear_arith)
        requires
            num * w < high * w,
            w > 0,
    ;
    assert(den * (q * t + (q + 1) * t) == low + high) by (nonlinear_arith)
        requires
            low == den * (q * t),
            high == den * ((q + 1) * t),
    ;
    // Both sides doubled and scaled: compare 2 * m with q * two + (q + 1) * two.
    let mid = q * two + (q + 1) * two;
    assert((low + high) * w == dp * mid) by (nonlinear_arith)
        requires
            low * w == dp * (q * two),
            high * w == dp * ((q + 1) * two),
            mid == q * two + (q + 1) * two,
    ;
    assert(2 * m - mid == 2 * (r - half));
    if r < half {
        assert((2 * num) * w < (low + high) * w) by (nonlinear_arith)
            requires
                nw == num * w,
                nw < dp * (m + 1),
                dp > 0,
                2 * (m + 1) <= mid,
                (low + high) * w == dp * mid,
        ;
        assert(2 * num < low + high) by (nonlinear_arith)
            requires
                (2 * num) * w < (low + high) * w,
                w > 0,
        ;
    } else if r > half {
        assert((2 * num) * w > (low + high) * w) by (nonlinear_arith)
            requires
                nw == num * w,
                nw >= dp * m,
                dp > 0,
                2 * m > mid,
                (low + high) * w == dp * mid,
        ;
        assert(2 * num > low + high) by (nonlinear_arith)
            requires
                (2 * num) * w > (low + high) * w,
                w > 0,
        ;
    } else {
        assert(2 * m == mid);
        assert(2 * (dp * m) == dp * mid) by (nonlinear_arith)
            requires
                2 * m == mid,
        ;
        assert((2 * num) * w == 2 * nw) by (nonlinear_arith)
            requires
                nw == num * w,
        ;
        if inexact {
            assert(2 * num > low + high) by (nonlinear_arith)
                requires
                    (2 * num) * w > (low + high) * w,
                    w > 0,
            ;
        } else {
            assert(2 * num == low + high) by (nonlinear_arith)
                requires
                    (2 * num) * w == (low + high) * w,
                    w > 0,
            ;
        }
    }
}

proof fn lemma_scaled(den: int, p: int, w: int, t: int, two: int, q: int)
    requires
        two * p == t * w,
    ensures
        (den * (q * t)) * w == (den * p) * (q * two),
{
    assert((den * (q * t)) * w == (den * q) * (t * w)) by (nonlinear_arith);
    assert((den * p) * (q * two) == (den * q) * (two * p)) by (nonlinear_arith);
}

/// Two to the power `k`.
fn power(k: u32) -> (r: u128)
    requires
        k < 128,
    ensures
        r == pow2(k as nat),
{
    let mut r: u128 = 1;
    let mut i: u32 = 0;
    proof {
        lemma2_to64();
    }
    while i < k
        invariant
            i <= k < 128,
            r == pow2(i as nat),
        decreases k - i,
    {
        proof {
            lemma_pow2_unfold((i + 1) as nat);
            lemma_below_128((i + 1) as nat);
        }
        r = r * 2;
        i = i + 1;
    }
    r
}

/// The powers of two that fit in 128 bits.
proof fn lemma_below_128(k: nat)
    requires
        k < 128,
    ensures
        pow2(k) <= u128::MAX,
        pow2(127) == 0x8000_0000_0000_0000_0000_0000_0000_0000,
{
    lemma2_to64();
    lemma2_to64_rest();
    lemma_pow2_adds(64, 63);
    assert(pow2(127) == 0x8000_0000_0000_0000_0000_0000_0000_0000) by (nonlinear_arith)
        requires
            pow2(127) == pow2(64) * pow2(63),
            pow2(64) == 0x1_0000_0000_0000_0000,
            pow2(63) == 0x8000_0000_0000_0000,
    ;
    if k < 127 {
        lemma_pow2_strictly_increases(k, 127);
    }
}

/// The number of binary digits of `m`.
fn bit_length(m: u128) -> (r: u32)
    requires
        0 < m < 0x8000_0000_0000_0000_0000_0000_0000_0000,
    ensures
        1 <= r <= 127,
        pow2((r - 1) as nat) <= m < pow2(r as nat),
{
    let mut r: u32 = 1;
    let mut limit: u128 = 2;
    proof {
        lemma2_to64();
        lemma_below_128(1);
    }
    while limit <= m
        invariant
            0 < m < pow2(127),
            pow2(127) == 0x8000_0000_0000_0000_0000_0000_0000_0000,
            1 <= r <= 127,
            limit == pow2(r as nat),
            pow2((r - 1) as nat) <= m,
        decreases 127 - r,
    {
        proof {
            lemma_pow2_unfold((r + 1) as nat);
            if r == 127 {
                assert(false);
            }
            lemma_below_128((r + 1) as nat);
        }
        limit = limit * 2;
        r = r + 1;
    }
    r
}

/// The magnitude nearest to the number that a significand and an exponent
/// bracket.
fn round(m: u128, e: u32, inexact: bool, Ghost(num): Ghost<int>, Ghost(den): Ghost<int>) -> (r: u64)
    requires
        0x40_0000_0000_0000 <= m < 0x8000_0000_0000_0000_0000_0000_0000_0000,
        e <= 10000,
        den > 0,
        brackets(num, den, m as int, e as nat, inexact),
    ensures
        r == nearest(num, den),
        r <= INFINITY,
{
    let length = bit_length(m);
    proof {
        lemma2_to64();
        lemma2_to64_rest();
        if length <= 54 {
            if length < 54 {
                lemma_pow2_strictly_increases(length as nat, 54);
            }
        }
        assert(length >= 55);
    }
    let top: u32 = e + length - 53;
    let place: u32 = if top > 1200 {
        top
    } else {
        1200
    };
    let s: u32 = place - e;
    let u: u32 = place - 1200;
    if s >= 128 {
        proof {
            lemma_below_128(127);
            lemma_pow2_strictly_increases(127, s as nat);
            if s > 128 {
                lemma_pow2_strictly_increases(127, (s - 1) as nat);
            }
            lemma_place(num, den, m as int, e as nat, inexact, s as nat, 0, 0, m as int);
            lemma_value_of_parts(0, 0);
            lemma_value_of_parts(0, 1);
            assert(0 * pow2(0) == 0 && 1 * pow2(0) == 1);
            assert(den * 0 == 0 && den * 1 == den);
            assert(is_floor(num, den, 0));
            lemma_nearest(num, den, 0);
        }
        return 0;
    }
    let step = power(s);
    let half = power(s - 1);
    proof {
        lemma_pow2_pos(s as nat);
    }
    let q: u128 = m / step;
    let rest: u128 = m % step;
    proof {
        assert(m == q * step + rest) by (nonlinear_arith)
            requires
                step > 0,
                q == m / step,
                rest == m % step,
        ;
        lemma_place(num, den, m as int, e as nat, inexact, s as nat, u as nat, q as int, rest as int);
        lemma_quotient(m as int, length as nat, s as nat, q as int, rest as int);
        assert(q < 2 * FRACTION);
        assert(u > 0 ==> q >= FRACTION);
    }
    if u > 2045 {
        proof {
            lemma_infinity(num, den, u as nat, q as int);
        }
        return INFINITY;
    }
    let below: u64 = u as u64 * FRACTION + q as u64;
    let up = rest > half || (rest == half && (inexact || q % 2 == 1));
    proof {
        lemma_value_of_parts(u as int, q as int);
        lemma_value_of_parts(u as int, q + 1);
        assert(is_floor(num, den, below as int));
        lemma_nearest(num, den, below as int);
        assert(below % 2 == q % 2);
    }
    if up {
        below + 1
    } else {
        below
    }
}

/// How large the quotient of a number of `length` digits by 2^s is.
proof fn lemma_quotient(m: int, length: nat, s: nat, q: int, rest: int)
    requires
        length >= 55,
        pow2((length - 1) as nat) <= m < pow2(length),
        s + 53 >= length,
        m == q * pow2(s) + rest,
        0 <= rest < pow2(s),
    ensures
        0 <= q < 2 * FRACTION,
        s + 53 == length ==> q >= FRACTION,
{
    lemma2_to64();
    lemma2_to64_rest();
    lemma_pow2_pos(s);
    lemma_pow2_pos((length - 1) as nat);
    lemma_pow2_adds(s, 53);
    lemma_pow2_adds(s, 52);
    if length < s + 53 {
        lemma_pow2_strictly_increases(length, s + 53);
    }
    assert(q < 2 * FRACTION) by (nonlinear_arith)
        requires
            q * pow2(s) < pow2(s) * 0x20_0000_0000_0000,
            pow2(s) > 0,
    ;
    assert(q >= 0) by (nonlinear_arith)
        requires
            q * pow2(s) + rest >= 0,
            rest < pow2(s),
            pow2(s) > 0,
    ;
    if s + 53 == length {
        assert(q >= FRACTION) by (nonlinear_arith)
            requires
                q * pow2(s) + rest >= pow2(s) * 0x10_0000_0000_0000,
                rest < pow2(s),
                pow2(s) > 0,
        ;
    }
}

/// A number whose leading digit lies beyond the largest exponent rounds to
/// infinity.
proof fn lemma_infinity(num: int, den: int, u: nat, q: int)
    requires
        den > 0,
        u > 2045,
        q >= FRACTION,
        den * (q * pow2(u)) <= num,
    ensures
        nearest(num, den) == INFINITY,
{
    lemma_pow2_pos(2046);
    if u > 2046 {
        lemma_pow2_strictly_increases(2046, u);
    }
    lemma_value_of_parts(2046, FRACTION as int);
    assert(2046 * FRACTION + FRACTION == INFINITY);
    assert(FRACTION * pow2(2046) <= q * pow2(u)) by (nonlinear_arith)
        requires
            FRACTION <= q,
            0 < pow2(2046) <= pow2(u),
    ;
    assert(den * (FRACTION * pow2(2046)) <= den * (q * pow2(u))) by (nonlinear_arith)
        requires
            den > 0,
            FRACTION * pow2(2046) <= q * pow2(u),
    ;
}

/// The magnitude nearest to `m` times a power of two.
fn round_exact(m: u128, e: u32, Ghost(num): Ghost<int>, Ghost(den): Ghost<int>) -> (r: u64)
    requires
        0 < m < 0x8000_0000_0000_0000_0000_0000_0000_0000,
        62 <= e <= 10000,
        den > 0,
        num * pow2(1200) == den * m * pow2(e as nat),
    ensures
        r == nearest(num, den),
        r <= INFINITY,
{
    if m < 0x1_0000_0000_0000_0000 {
        let scaled: u128 = m * 0x4000_0000_0000_0000;
        proof {
            lemma2_to64_rest();
            lemma_pow2_adds((e - 62) as nat, 62);
            let p = pow2((e - 62) as nat) as int;
            assert(den * m * (p * 0x4000_0000_0000_0000) == den * (m * 0x4000_0000_0000_0000) * p)
                by (nonlinear_arith);
        }
        round(scaled, e - 62, false, Ghost(num), Ghost(den))
    } else {
        round(m, e, false, Ghost(num), Ghost(den))
    }
}

/// The significand of a finite magnitude, and its exponent above the lowest.
pub fn parts(m: u64) -> (r: (u64, u32))
    requires
        m < INFINITY,
    ensures
        magnitude_value(m as int) == r.0 * pow2(r.1 as nat),
        r.0 < 2 * FRACTION,
        r.1 <= 2045,
        r.1 > 0 ==> r.0 >= FRACTION,
        m > 0 ==> r.0 > 0,
        m == 0 ==> r.0 == 0,
        m == r.1 * FRACTION + r.0,
{
    let exponent: u64 = m / FRACTION;
    let fraction: u64 = m % FRACTION;
    if exponent == 0 {
        proof {
            lemma_value_of_parts(0, fraction as int);
        }
        (fraction, 0)
    } else {
        proof {
            lemma_value_of_parts(exponent - 1, FRACTION + fraction);
        }
        (FRACTION + fraction, (exponent - 1) as u32)
    }
}

impl Double {
    /// The number with the given bit pattern.
    pub fn from_bits(bits: u64) -> (r: Double)
        ensures
            r == (Double { bits }),
    {
        Double { bits }
    }

    /// The bit pattern.
    pub fn to_bits(self) -> (r: u64)
        ensures
            r == self.bits,
    {
        self.bits
    }

    pub fn is_negative(self) -> (r: bool)
        ensures
            r == self.negative(),
    {
        self.bits >= SIGN
    }

    pub fn get_magnitude(self) -> (r: u64)
        ensures
            r == self.magnitude(),
            r < SIGN,
    {
        if self.bits >= SIGN {
            self.bits - SIGN
        } else {
            self.bits
        }
    }

    pub fn with_sign(negative: bool, magnitude: u64) -> (r: Double)
        requires
            magnitude < SIGN,
        ensures
            r == signed(negative, magnitude),
            r.magnitude() == magnitude,
            r.negative() == negative,
    {
        if negative {
            Double { bits: SIGN + magnitude }
        } else {
            Double { bits: magnitude }
        }
    }

    pub fn is_nan(self) -> (r: bool)
        ensures
            r == self.nan(),
    {
        self.get_magnitude() > INFINITY
    }

    /// Whether this is one of the two zeros.
    pub fn is_zero(self) -> (r: bool)
        ensures
            r == self.zero(),
    {
        self.get_magnitude() == 0
    }

    pub fn is_finite(self) -> (r: bool)
        ensures
            r == (self.magnitude() < INFINITY),
    {
        self.get_magnitude() < INFINITY
    }

    /// The number with its sign turned round.
    pub fn negate(self) -> (r: Double)
        ensures
            r == signed(!self.negative(), self.magnitude()),
    {
        Double::with_sign(!self.is_negative(), self.get_magnitude())
    }

    /// The number without its sign.
    pub fn absolute(self) -> (r: Double)
        ensures
            r == signed(false, self.magnitude()),
    {
        Double::with_sign(false, self.get_magnitude())
    }

    /// The double nearest to an integer.
    pub open spec fn nearest_to(i: int) -> Double {
        signed(i < 0, nearest((if i < 0 { -i } else { i }) * unit(), 1))
    }

    pub fn from_i64(i: i64) -> (r: Double)
        ensures
            r == Double::nearest_to(i as int),
    {
        let size: u128 = if i < 0 {
            (-(i as i128)) as u128
        } else {
            i as u128
        };
        if size == 0 {
            proof {
                lemma_nearest_zero(1);
            }
            return Double::with_sign(false, 0);
        }
        proof {
            lemma_pow2_adds(1074, 1200);
            let p = pow2(1074) as int;
            let w = pow2(1200) as int;
            assert((size * p) * w == 1 * size * (p * w)) by (nonlinear_arith);
        }
        let m = round_exact(size, 2274, Ghost(size * unit()), Ghost(1));
        Double::with_sign(i < 0, m)
    }
}

/// Zero is nearest to zero.
pub proof fn lemma_nearest_zero(den: int)
    requires
        den > 0,
    ensures
        nearest(0, den) == 0,
        den * 0 == 0,
        0 * unit() == 0,
{
    lemma_value_of_parts(0, 0);
    lemma_value_of_parts(0, 1);
    lemma2_to64();
    assert(is_floor(0, den, 0));
    lemma_nearest(0, den, 0);
}

/// The sum of two doubles.
pub open spec fn sum(a: Double, b: Double) -> Double {
    if a.nan() || b.nan() || (a.infinite() && b.infinite() && a.negative() != b.negative()) {
        Double { bits: NAN }
    } else if a.infinite() {
        a
    } else if b.infinite() {
        b
    } else {
        let total = a.value() + b.value();
        if total == 0 {
            signed(a.negative() && b.negative(), 0)
        } else if total < 0 {
            signed(true, nearest(-total, 1))
        } else {
            signed(false, nearest(total, 1))
        }
    }
}

/// The product of two doubles.
pub open spec fn product(a: Double, b: Double) -> Double {
    if a.nan() || b.nan() || (a.infinite() && b.zero()) || (a.zero() && b.infinite()) {
        Double { bits: NAN }
    } else if a.infinite() || b.infinite() {
        signed(a.negative() != b.negative(), INFINITY)
    } else {
        signed(a.negative() != b.negative(), nearest(a.size() * b.size(), unit()))
    }
}

/// The quotient of two doubles.
pub open spec fn quotient(a: Double, b: Double) -> Double {
    if a.nan() || b.nan() || (a.infinite() && b.infinite()) || (a.zero() && b.zero()) {
        Double { bits: NAN }
    } else if a.infinite() || b.zero() {
        signed(a.negative() != b.negative(), INFINITY)
    } else if b.infinite() {
        signed(a.negative() != b.negative(), 0)
    } else {
        signed(a.negative() != b.negative(), nearest(a.size() * unit(), b.size()))
    }
}

/// The remainder of a division that is cut off towards zero. It has the sign of
/// the dividend.
pub open spec fn remainder(a: Double, b: Double) -> Double {
    if a.nan() || b.nan() || a.infinite() || b.zero() {
        Double { bits: NAN }
    } else if b.infinite() {
        a
    } else {
        signed(a.negative(), nearest(a.size() % b.size(), 1))
    }
}

/// The negation of a double.
pub open spec fn negation(a: Double) -> Double {
    signed(!a.negative(), a.magnitude())
}

/// Whether one double is below another. Nothing is above or below what is not a
/// number.
pub open spec fn below(a: Double, b: Double) -> bool {
    !a.nan() && !b.nan() && a.rank() < b.rank()
}

/// Whether two doubles are the same number. What is not a number is not even
/// the same as itself; the two zeros are.
pub open spec fn same(a: Double, b: Double) -> bool {
    !a.nan() && !b.nan() && a.rank() == b.rank()
}

/// Of two finite doubles one is below the other exactly where the number that it
/// stands for is, and they are the same exactly where the numbers are.
pub proof fn lemma_below_is_less(a: Double, b: Double)
    requires
        a.magnitude() < INFINITY,
        b.magnitude() < INFINITY,
    ensures
        below(a, b) <==> a.value() < b.value(),
        same(a, b) <==> a.value() == b.value(),
{
    let x = a.magnitude() as int;
    let y = b.magnitude() as int;
    if x < y {
        lemma_value_increases(x, y);
    }
    if y < x {
        lemma_value_increases(y, x);
    }
    if x > 0 {
        lemma_value_increases(0, x);
    }
    if y > 0 {
        lemma_value_increases(0, y);
    }
    assert(magnitude_value(0) == 0);
}

/// Of two integers the larger is not rounded to a smaller double, and no integer is
/// rounded to what is not a number.
pub proof fn lemma_nearest_to_monotonic(i: int, j: int)
    requires
        i <= j,
    ensures
        !Double::nearest_to(i).nan(),
        !Double::nearest_to(j).nan(),
        Double::nearest_to(i).rank() <= Double::nearest_to(j).rank(),
{
    let x = if i < 0 { -i } else { i };
    let y = if j < 0 { -j } else { j };
    let u = unit();
    lemma_pow2_pos(1074);
    assert(x * u >= 0 && y * u >= 0) by (nonlinear_arith)
        requires
            x >= 0,
            y >= 0,
            u > 0,
    ;
    lemma_nearest_monotonic(x * u, x * u, 1);
    lemma_nearest_monotonic(y * u, y * u, 1);
    if x <= y {
        assert(x * u <= y * u) by (nonlinear_arith)
            requires
                x <= y,
                u > 0,
        ;
        lemma_nearest_monotonic(x * u, y * u, 1);
    } else {
        assert(y * u <= x * u) by (nonlinear_arith)
            requires
                y <= x,
                u > 0,
        ;
        lemma_nearest_monotonic(y * u, x * u, 1);
    }
}

/// The integer in the range of `i64` that is nearest to `i`.
pub open spec fn clamped(i: int) -> i64 {
    if i < i64::MIN {
        i64::MIN
    } else if i > i64::MAX {
        i64::MAX
    } else {
        i as i64
    }
}

/// The four ways to take a double to an integer.
#[derive(Clone, Copy, Debug, PartialEq, Eq, Structural)]
pub enum Rounding {
    /// Towards zero.
    Truncate,
    Floor,
    Ceiling,
    /// To the nearest integer, halves away from zero.
    Nearest,
}

/// The integer that a finite double is rounded to.
pub open spec fn integral(a: Double, rounding: Rounding) -> int {
    let whole = a.size() / unit();
    let rest = a.size() % unit();
    let away = match rounding {
        Rounding::Truncate => false,
        Rounding::Floor => a.negative() && rest > 0,
        Rounding::Ceiling => !a.negative() && rest > 0,
        Rounding::Nearest => 2 * rest >= unit(),
    };
    let size = if away { whole + 1 } else { whole };
    if a.negative() {
        -size
    } else {
        size
    }
}

/// The `i64` that a double is rounded to: what lies outside the range ends at
/// its border, and what is not a number at zero.
pub open spec fn to_integer(a: Double, rounding: Rounding) -> i64 {
    if a.nan() {
        0
    } else if a.infinite() {
        if a.negative() {
            i64::MIN
        } else {
            i64::MAX
        }
    } else {
        clamped(integral(a, rounding))
    }
}

/// A number counted in whole units, with what is left over.
struct Units {
    whole: u64,
    huge: bool,
    rest: bool,
    half: bool,
}

impl Units {
    spec fn describes(self, size: int) -> bool {
        if self.huge {
            size / unit() >= 0x8000_0000_0000_0000 && size % unit() == 0
        } else {
            &&& self.whole == size / unit()
            &&& self.rest == (size % unit() > 0)
            &&& self.half == (2 * (size % unit()) >= unit())
        }
    }
}

/// Splits a finite magnitude into whole units and the rest.
fn units(magnitude: u64) -> (r: Units)
    requires
        magnitude < INFINITY,
    ensures
        r.describes(magnitude_value(magnitude as int)),
{
    let (m, u) = parts(magnitude);
    let ghost size = magnitude_value(magnitude as int);
    proof {
        lemma_pow2_pos(1074);
    }
    if u >= 1085 {
        proof {
            lemma_whole(m as int, u as nat);
            lemma2_to64();
            lemma2_to64_rest();
            let p = pow2((u - 1074) as nat) as int;
            if u > 1085 {
                lemma_pow2_strictly_increases(11, (u - 1074) as nat);
            }
            assert(m * p >= 0x8000_0000_0000_0000) by (nonlinear_arith)
                requires
                    m >= 0x10_0000_0000_0000,
                    p >= 0x800,
            ;
        }
        Units { whole: 0, huge: true, rest: false, half: false }
    } else if u >= 1074 {
        let p = power(u - 1074);
        proof {
            lemma_whole(m as int, u as nat);
            lemma2_to64();
            lemma2_to64_rest();
            if u < 1084 {
                lemma_pow2_strictly_increases((u - 1074) as nat, 10);
            }
            assert(0 <= m * p < 0x1_0000_0000_0000_0000) by (nonlinear_arith)
                requires
                    0 <= m < 0x20_0000_0000_0000,
                    0 <= p <= 0x400,
            ;
        }
        Units { whole: (m as u128 * p) as u64, huge: false, rest: false, half: false }
    } else {
        let k: u32 = 1074 - u;
        if k >= 55 {
            proof {
                lemma2_to64();
                lemma2_to64_rest();
                if k > 55 {
                    lemma_pow2_strictly_increases(55, k as nat);
                }
                assert(m == 0 * pow2(k as nat) + m);
                lemma_split(m as int, u as nat, k as nat, 0, m as int);
            }
            Units { whole: 0, huge: false, rest: m > 0, half: false }
        } else {
            let step = power(k);
            proof {
                lemma_pow2_pos(k as nat);
            }
            let q: u128 = m as u128 / step;
            let rest: u128 = m as u128 % step;
            proof {
                assert(m == q * step + rest) by (nonlinear_arith)
                    requires
                        step > 0,
                        q == m as u128 / step,
                        rest == m as u128 % step,
                ;
                assert(q <= m) by (nonlinear_arith)
                    requires
                        m == q * step + rest,
                        step >= 1,
                        rest >= 0,
                        q >= 0,
                ;
                lemma_split(m as int, u as nat, k as nat, q as int, rest as int);
                lemma2_to64();
                lemma2_to64_rest();
                if k < 54 {
                    lemma_pow2_strictly_increases(k as nat, 54);
                }
            }
            Units { whole: q as u64, huge: false, rest: rest > 0, half: 2 * rest >= step }
        }
    }
}

/// A number whose last digit is a whole unit or more.
proof fn lemma_whole(m: int, u: nat)
    requires
        u >= 1074,
        m >= 0,
    ensures
        (m * pow2(u)) / unit() == m * pow2((u - 1074) as nat),
        (m * pow2(u)) % unit() == 0,
{
    let p = pow2((u - 1074) as nat) as int;
    lemma_pow2_adds((u - 1074) as nat, 1074);
    lemma_pow2_pos(1074);
    assert(m * (p * unit()) == (m * p) * unit() + 0) by (nonlinear_arith);
    vstd::arithmetic::div_mod::lemma_fundamental_div_mod_converse(m * pow2(u), unit(), m * p, 0);
}

/// A number with digits below the unit.
proof fn lemma_split(m: int, u: nat, k: nat, q: int, rest: int)
    requires
        u + k == 1074,
        m == q * pow2(k) + rest,
        0 <= rest < pow2(k),
    ensures
        (m * pow2(u)) / unit() == q,
        (m * pow2(u)) % unit() == rest * pow2(u),
        rest > 0 <==> rest * pow2(u) > 0,
        2 * rest >= pow2(k) <==> 2 * (rest * pow2(u)) >= unit(),
{
    let p = pow2(u) as int;
    let step = pow2(k) as int;
    lemma_pow2_adds(u, k);
    lemma_pow2_pos(u);
    assert((q * step + rest) * p == q * (p * step) + rest * p) by (nonlinear_arith);
    assert(0 <= rest * p < p * step) by (nonlinear_arith)
        requires
            0 <= rest < step,
            p > 0,
    ;
    vstd::arithmetic::div_mod::lemma_fundamental_div_mod_converse(m * p, unit(), q, rest * p);
    assert(rest > 0 <==> rest * p > 0) by (nonlinear_arith)
        requires
            rest >= 0,
            p > 0,
    ;
    assert(2 * rest >= step <==> 2 * (rest * p) >= p * step) by (nonlinear_arith)
        requires
            p > 0,
    ;
}

impl Double {
    pub fn is_below(self, other: Double) -> (r: bool)
        ensures
            r == below(self, other),
    {
        if self.is_nan() || other.is_nan() {
            return false;
        }
        let a = self.get_magnitude();
        let b = other.get_magnitude();
        if self.is_negative() {
            if other.is_negative() {
                b < a
            } else {
                a > 0 || b > 0
            }
        } else {
            !other.is_negative() && a < b
        }
    }

    pub fn is_same(self, other: Double) -> (r: bool)
        ensures
            r == same(self, other),
    {
        if self.is_nan() || other.is_nan() {
            return false;
        }
        self.bits == other.bits || (self.is_zero() && other.is_zero())
    }

    /// Rounds to an integer and limits it to the range of `i64`.
    pub fn to_i64(self, rounding: Rounding) -> (r: i64)
        ensures
            r == to_integer(self, rounding),
    {
        if self.is_nan() {
            return 0;
        }
        let negative = self.is_negative();
        if !self.is_finite() {
            return if negative {
                i64::MIN
            } else {
                i64::MAX
            };
        }
        let counted = units(self.get_magnitude());
        if counted.huge {
            return if negative {
                i64::MIN
            } else {
                i64::MAX
            };
        }
        let away = match rounding {
            Rounding::Truncate => false,
            Rounding::Floor => negative && counted.rest,
            Rounding::Ceiling => !negative && counted.rest,
            Rounding::Nearest => counted.half,
        };
        let size: i128 = if away {
            counted.whole as i128 + 1
        } else {
            counted.whole as i128
        };
        if negative {
            if size > 0x8000_0000_0000_0000 {
                i64::MIN
            } else {
                (-size) as i64
            }
        } else {
            if size > 0x7fff_ffff_ffff_ffff {
                i64::MAX
            } else {
                size as i64
            }
        }
    }

    pub fn modulo(self, other: Double) -> (r: Double)
        ensures
            r == remainder(self, other),
    {
        if self.is_nan() || other.is_nan() || !self.is_finite() || other.is_zero() {
            return Double { bits: NAN };
        }
        if !other.is_finite() {
            return self;
        }
        let (ma, ua) = parts(self.get_magnitude());
        let (mb, ub) = parts(other.get_magnitude());
        let (rest, u): (u64, u32) = if ua >= ub {
            (reduce(ma, ua - ub, mb), ub)
        } else {
            (ma, ua)
        };
        let ghost size = self.size() % other.size();
        let ghost p = pow2(u as nat) as int;
        proof {
            lemma_pow2_pos(ua as nat);
            lemma_pow2_pos(ub as nat);
            if ua >= ub {
                let pb = pow2(ub as nat) as int;
                let pd = pow2((ua - ub) as nat) as int;
                lemma_pow2_adds((ua - ub) as nat, ub as nat);
                assert(ma * (pd * pb) == (ma * pd) * pb) by (nonlinear_arith);
                assert(ma * pd >= 0) by (nonlinear_arith)
                    requires
                        ma >= 0,
                        pd >= 0,
                ;
                lemma_scaled_remainder(ma * pd, mb as int, pb);
            } else {
                lemma_pow2_unfold(ub as nat);
                if ua + 1 < ub {
                    lemma_pow2_strictly_increases(ua as nat, (ub - 1) as nat);
                }
                let pa = pow2(ua as nat) as int;
                let pb = pow2(ub as nat) as int;
                assert(0 <= ma * pa < mb * pb) by (nonlinear_arith)
                    requires
                        0 <= ma < 0x20_0000_0000_0000,
                        mb >= 0x10_0000_0000_0000,
                        2 * pa <= pb,
                        pa > 0,
                ;
                vstd::arithmetic::div_mod::lemma_small_mod((ma * pa) as nat, (mb * pb) as nat);
            }
            assert(size == rest * p);
        }
        if rest == 0 {
            proof {
                lemma_nearest_zero(1);
                assert(0 * p == 0);
            }
            return Double::with_sign(self.is_negative(), 0);
        }
        proof {
            lemma_pow2_adds(u as nat, 1200);
            let w = pow2(1200) as int;
            assert((rest * p) * w == 1 * rest * (p * w)) by (nonlinear_arith);
        }
        let r = round_exact(rest as u128, 1200 + u, Ghost(size), Ghost(1));
        Double::with_sign(self.is_negative(), r)
    }

    pub fn plus(self, other: Double) -> (r: Double)
        ensures
            r == sum(self, other),
    {
        if self.is_nan() || other.is_nan() {
            return Double { bits: NAN };
        }
        if !self.is_finite() {
            if !other.is_finite() && self.is_negative() != other.is_negative() {
                return Double { bits: NAN };
            }
            return self;
        }
        if !other.is_finite() {
            return other;
        }
        let (ma, ua) = parts(self.get_magnitude());
        let (mb, ub) = parts(other.get_magnitude());
        if ua >= ub {
            add_parts(ma, ua, self.is_negative(), mb, ub, other.is_negative())
        } else {
            add_parts(mb, ub, other.is_negative(), ma, ua, self.is_negative())
        }
    }

    pub fn minus(self, other: Double) -> (r: Double)
        ensures
            r == sum(self, negation(other)),
    {
        self.plus(other.negate())
    }

    pub fn times(self, other: Double) -> (r: Double)
        ensures
            r == product(self, other),
    {
        let negative = self.is_negative() != other.is_negative();
        if self.is_nan() || other.is_nan() {
            return Double { bits: NAN };
        }
        if !self.is_finite() || !other.is_finite() {
            if self.is_zero() || other.is_zero() {
                return Double { bits: NAN };
            }
            return Double::with_sign(negative, INFINITY);
        }
        let (ma, ua) = parts(self.get_magnitude());
        let (mb, ub) = parts(other.get_magnitude());
        proof {
            lemma_pow2_pos(1074);
        }
        if ma == 0 || mb == 0 {
            proof {
                lemma_nearest_zero(unit());
                assert(self.size() * other.size() == 0) by (nonlinear_arith)
                    requires
                        self.size() == 0 || other.size() == 0,
                ;
            }
            return Double::with_sign(negative, 0);
        }
        let m: u128 = small_product(ma, mb);
        let ghost num = self.size() * other.size();
        proof {
            lemma_pow2_adds(ua as nat, ub as nat);
            lemma_pow2_adds((ua + ub) as nat, 1200);
            lemma_pow2_adds(1074, (ua + ub + 126) as nat);
            let pa = pow2(ua as nat) as int;
            let pb = pow2(ub as nat) as int;
            let w = pow2(1200) as int;
            let e = pow2((ua + ub + 126) as nat) as int;
            assert(((ma * pa) * (mb * pb)) * w == (ma * mb) * ((pa * pb) * w)) by (nonlinear_arith);
            assert(unit() * m * e == m * (unit() * e)) by (nonlinear_arith);
        }
        let r = round_exact(m, ua + ub + 126, Ghost(num), Ghost(unit()));
        Double::with_sign(negative, r)
    }

    pub fn divided_by(self, other: Double) -> (r: Double)
        ensures
            r == quotient(self, other),
    {
        let negative = self.is_negative() != other.is_negative();
        if self.is_nan() || other.is_nan() {
            return Double { bits: NAN };
        }
        if !self.is_finite() {
            if !other.is_finite() {
                return Double { bits: NAN };
            }
            return Double::with_sign(negative, INFINITY);
        }
        if other.is_zero() {
            if self.is_zero() {
                return Double { bits: NAN };
            }
            return Double::with_sign(negative, INFINITY);
        }
        if !other.is_finite() {
            return Double::with_sign(negative, 0);
        }
        let (ma, ua) = parts(self.get_magnitude());
        let (mb, ub) = parts(other.get_magnitude());
        proof {
            lemma_pow2_pos(ub as nat);
            assert(other.size() > 0) by (nonlinear_arith)
                requires
                    other.size() == mb * pow2(ub as nat),
                    mb > 0,
                    pow2(ub as nat) > 0,
            ;
        }
        if ma == 0 {
            proof {
                lemma_nearest_zero(other.size());
            }
            return Double::with_sign(negative, 0);
        }
        // Bring the dividend to its full number of digits.
        let mut full: u64 = ma;
        let mut j: u32 = 0;
        proof {
            lemma2_to64();
            assert(ma * 1 == ma);
        }
        while full < FRACTION
            invariant
                0 < ma,
                full == ma * pow2(j as nat),
                0 < full < 2 * FRACTION,
                j <= 52,
            decreases 2 * FRACTION - full,
        {
            proof {
                lemma_pow2_unfold((j + 1) as nat);
                let p = pow2(j as nat) as int;
                assert(ma * (2 * p) == 2 * (ma * p)) by (nonlinear_arith);
                assert(p <= ma * p) by (nonlinear_arith)
                    requires
                        ma > 0,
                        p >= 0,
                ;
                if j >= 52 {
                    lemma2_to64();
                    lemma2_to64_rest();
                    if j > 52 {
                        lemma_pow2_strictly_increases(52, j as nat);
                    }
                }
            }
            full = full * 2;
            j = j + 1;
        }
        let dividend: u128 = full as u128 * 0x400_0000_0000_0000_0000;
        let divisor: u128 = mb as u128;
        let q: u128 = dividend / divisor;
        let rest: u128 = dividend % divisor;
        let e: u32 = 2274 + ua - j - 74 - ub;
        let ghost num = self.size() * unit();
        let ghost den = other.size();
        proof {
            assert(dividend == q * divisor + rest) by (nonlinear_arith)
                requires
                    divisor > 0,
                    q == dividend / divisor,
                    rest == dividend % divisor,
            ;
            assert(q <= dividend) by (nonlinear_arith)
                requires
                    dividend == q * divisor + rest,
                    divisor >= 1,
                    rest >= 0,
                    q >= 0,
            ;
            assert(q >= 0x40_0000_0000_0000) by (nonlinear_arith)
                requires
                    dividend == q * divisor + rest,
                    rest < divisor,
                    divisor < 0x20_0000_0000_0000,
                    dividend >= 0x10_0000_0000_0000 * 0x400_0000_0000_0000_0000,
            ;
            lemma_quotient_brackets(ma as int, ua as nat, mb as int, ub as nat, j as nat,
                dividend as int, q as int, rest as int, e as nat);
        }
        let r = round(q, e, rest != 0, Ghost(num), Ghost(den));
        Double::with_sign(negative, r)
    }
}

/// The remainder of `m` times a power of two.
fn reduce(m: u64, d: u32, n: u64) -> (r: u64)
    requires
        m < 2 * FRACTION,
        0 < n < 2 * FRACTION,
    ensures
        r == (m * pow2(d as nat)) % (n as int),
        r < n,
{
    let mut r: u64 = m % n;
    let mut i: u32 = 0;
    proof {
        lemma2_to64();
        assert(m * pow2(0) == m);
    }
    while i < d
        invariant
            i <= d,
            0 < n < 2 * FRACTION,
            r < n,
            r == (m * pow2(i as nat)) % (n as int),
        decreases d - i,
    {
        proof {
            lemma_pow2_unfold((i + 1) as nat);
            let p = pow2(i as nat) as int;
            assert(m * (2 * p) == 2 * (m * p)) by (nonlinear_arith);
            vstd::arithmetic::div_mod::lemma_mul_mod_noop_right(2, m * p, n as int);
        }
        r = (2 * r) % n;
        i = i + 1;
    }
    r
}

/// A common factor of dividend and divisor passes to the remainder.
proof fn lemma_scaled_remainder(a: int, b: int, p: int)
    requires
        a >= 0,
        b > 0,
        p > 0,
    ensures
        (a * p) % (b * p) == (a % b) * p,
{
    let q = a / b;
    let r = a % b;
    assert(a == q * b + r) by (nonlinear_arith)
        requires
            b > 0,
            q == a / b,
            r == a % b,
    ;
    assert((q * b + r) * p == q * (b * p) + r * p) by (nonlinear_arith);
    assert(0 <= r * p < b * p) by (nonlinear_arith)
        requires
            0 <= r < b,
            p > 0,
    ;
    vstd::arithmetic::div_mod::lemma_fundamental_div_mod_converse(a * p, b * p, q, r * p);
}

/// A number given by its sign, significand and exponent.
spec fn parts_value(m: u64, u: u32, negative: bool) -> int {
    if negative {
        -(m * pow2(u as nat))
    } else {
        m * pow2(u as nat)
    }
}

/// Adds two numbers, the one with the larger exponent first.
fn add_parts(mh: u64, uh: u32, nh: bool, ml: u64, ul: u32, nl: bool) -> (r: Double)
    requires
        mh < 2 * FRACTION,
        ml < 2 * FRACTION,
        ul <= uh <= 2045,
        uh > 0 ==> mh >= FRACTION,
    ensures
        r == ({
            let total = parts_value(mh, uh, nh) + parts_value(ml, ul, nl);
            if total == 0 {
                signed(nh && nl, 0)
            } else if total < 0 {
                signed(true, nearest(-total, 1))
            } else {
                signed(false, nearest(total, 1))
            }
        }),
{
    let d: u32 = uh - ul;
    let ghost total = parts_value(mh, uh, nh) + parts_value(ml, ul, nl);
    let ghost pl = pow2(ul as nat) as int;
    let ghost w = pow2(1200) as int;
    if d <= 70 {
        let shift = power(d);
        proof {
            lemma_near_shift(mh as int, d as nat);
            lemma_pow2_adds(d as nat, ul as nat);
            lemma_pow2_adds(ul as nat, 1200);
            lemma_pow2_pos(ul as nat);
            assert(mh * (shift * pl) == (mh * shift) * pl) by (nonlinear_arith);
        }
        let high: u128 = mh as u128 * shift;
        let low: u128 = ml as u128;
        let (m, negative): (u128, bool) = if nh == nl {
            (high + low, nh)
        } else if high >= low {
            (high - low, nh)
        } else {
            (low - high, nl)
        };
        proof {
            assert((high + low) * pl == high * pl + low * pl) by (nonlinear_arith);
            assert((high - low) * pl == high * pl - low * pl) by (nonlinear_arith);
            assert((low - high) * pl == low * pl - high * pl) by (nonlinear_arith);
            assert(total == if negative { -(m * pl) } else { m * pl });
            assert(m > 0 ==> m * pl > 0) by (nonlinear_arith)
                requires
                    pl > 0,
            ;
            assert(m == 0 ==> m * pl == 0);
            assert((m * pl) * w == 1 * m * (pl * w)) by (nonlinear_arith);
        }
        if m == 0 {
            return Double::with_sign(nh && nl, 0);
        }
        let r = round_exact(m, 1200 + ul, Ghost(m * pl), Ghost(1));
        Double::with_sign(negative, r)
    } else {
        let base: u128 = mh as u128 * 0x8000;
        let ghost t = pow2((uh - 15) as nat) as int;
        let ghost x = ml * pl;
        proof {
            lemma2_to64();
            lemma2_to64_rest();
            lemma_pow2_adds(15, (uh - 15) as nat);
            lemma_pow2_adds(53, ul as nat);
            lemma_pow2_strictly_increases((53 + ul) as nat, (uh - 15) as nat);
            lemma_pow2_adds((uh - 15) as nat, 1200);
            lemma_pow2_pos(ul as nat);
            lemma_pow2_pos(1200);
            assert(mh * (0x8000 * t) == (mh * 0x8000) * t) by (nonlinear_arith);
            assert(0 <= x < t) by (nonlinear_arith)
                requires
                    x == ml * pl,
                    0 <= ml < 0x20_0000_0000_0000,
                    pl > 0,
                    0x20_0000_0000_0000 * pl < t,
            ;
            assert(ml > 0 ==> x > 0) by (nonlinear_arith)
                requires
                    x == ml * pl,
                    pl > 0,
            ;
            assert(base * t >= 0x8000 * t) by (nonlinear_arith)
                requires
                    base >= 0x8000,
                    t > 0,
            ;
        }
        let (m, inexact): (u128, bool) = if ml == 0 {
            (base, false)
        } else if nh == nl {
            (base, true)
        } else {
            (base - 1, true)
        };
        let ghost num = if nh == nl { base * t + x } else { base * t - x };
        proof {
            assert(total == if nh { -num } else { num });
            assert(num > 0);
            lemma_far(base as int, t, x, w, nh == nl, m as int, inexact);
        }
        let r = round(m, 1200 + uh - 15, inexact, Ghost(num), Ghost(1));
        Double::with_sign(nh, r)
    }
}

/// A significand still fits after a shift by a small distance.
proof fn lemma_near_shift(m: int, d: nat)
    requires
        0 <= m < 2 * FRACTION,
        d <= 70,
    ensures
        0 <= m * pow2(d) < 0x800_0000_0000_0000_0000_0000_0000_0000,
{
    lemma2_to64();
    lemma2_to64_rest();
    lemma_pow2_adds(64, 6);
    assert(pow2(70) == 0x40_0000_0000_0000_0000) by (nonlinear_arith)
        requires
            pow2(70) == pow2(64) * pow2(6),
            pow2(64) == 0x1_0000_0000_0000_0000,
            pow2(6) == 0x40,
    ;
    if d < 70 {
        lemma_pow2_strictly_increases(d, 70);
    }
    assert(0 <= m * pow2(d) < 0x800_0000_0000_0000_0000_0000_0000_0000) by (nonlinear_arith)
        requires
            0 <= m < 0x20_0000_0000_0000,
            0 <= pow2(d) <= 0x40_0000_0000_0000_0000,
    ;
}

/// A sum in which the smaller number lies below the last digit that is kept.
proof fn lemma_far(base: int, t: int, x: int, w: int, same: bool, m: int, inexact: bool)
    requires
        0 <= x < t,
        w > 0,
        inexact == (x > 0),
        m == if x == 0 || same { base } else { base - 1 },
    ensures
        ({
            let num = if same { base * t + x } else { base * t - x };
            if inexact {
                &&& 1 * m * (t * w) < num * w
                &&& num * w < 1 * (m + 1) * (t * w)
            } else {
                num * w == 1 * m * (t * w)
            }
        }),
{
    let num = if same { base * t + x } else { base * t - x };
    assert(1 * m * (t * w) == (m * t) * w) by (nonlinear_arith);
    assert(1 * (m + 1) * (t * w) == ((m + 1) * t) * w) by (nonlinear_arith);
    assert((base - 1) * t == base * t - t) by (nonlinear_arith);
    assert((base + 1) * t == base * t + t) by (nonlinear_arith);
    if inexact {
        assert(m * t < num);
        assert(num < (m + 1) * t);
        assert((m * t) * w < num * w) by (nonlinear_arith)
            requires
                m * t < num,
                w > 0,
        ;
        assert(num * w < ((m + 1) * t) * w) by (nonlinear_arith)
            requires
                num < (m + 1) * t,
                w > 0,
        ;
    }
}

/// The product of two significands.
fn small_product(a: u64, b: u64) -> (r: u128)
    requires
        0 < a < 2 * FRACTION,
        0 < b < 2 * FRACTION,
    ensures
        r == a * b,
        0 < r < 0x8000_0000_0000_0000_0000_0000_0000_0000,
{
    assert(0 < a * b < 0x8000_0000_0000_0000_0000_0000_0000_0000) by (nonlinear_arith)
        requires
            0 < a < 0x20_0000_0000_0000,
            0 < b < 0x20_0000_0000_0000,
    ;
    a as u128 * b as u128
}

/// A quotient of significands brackets the quotient of the numbers.
proof fn lemma_quotient_brackets(
    ma: int,
    ua: nat,
    mb: int,
    ub: nat,
    j: nat,
    dividend: int,
    q: int,
    rest: int,
    e: nat,
)
    requires
        ma > 0,
        mb > 0,
        e + j + 74 + ub == 2274 + ua,
        dividend == (ma * pow2(j)) * 0x400_0000_0000_0000_0000,
        dividend == q * mb + rest,
        0 <= rest < mb,
    ensures
        brackets((ma * pow2(ua)) * unit(), mb * pow2(ub), q, e, rest != 0),
{
    let num = (ma * pow2(ua)) * unit();
    let den = mb * pow2(ub);
    let w = pow2(1200) as int;
    lemma2_to64();
    lemma_pow2_adds(64, 10);
    lemma2_to64_rest();
    assert(pow2(74) == 0x400_0000_0000_0000_0000) by (nonlinear_arith)
        requires
            pow2(74) == pow2(64) * pow2(10),
            pow2(64) == 0x1_0000_0000_0000_0000,
            pow2(10) == 0x400,
    ;
    lemma_pow2_adds(1074, 1200);
    lemma_pow2_adds(ua, 2274);
    lemma_pow2_adds(j, 74);
    lemma_pow2_adds(ub, e);
    lemma_pow2_adds(j + 74, ub + e);
    let x = pow2(ub + e) as int;
    lemma_pow2_pos(ub + e);
    // num * w == dividend * x, and den * q * 2^e == (q * mb) * x.
    let pa = pow2(ua) as int;
    let pj = pow2(j) as int;
    let k = 0x400_0000_0000_0000_0000int;
    assert(((ma * pa) * unit()) * w == ma * (pa * (unit() * w))) by (nonlinear_arith);
    assert(((ma * pj) * k) * x == ma * ((pj * k) * x)) by (nonlinear_arith);
    assert(num * w == dividend * x);
    let pb = pow2(ub) as int;
    let pe = pow2(e) as int;
    assert(((mb * pb) * q) * pe == (q * mb) * (pb * pe)) by (nonlinear_arith);
    assert(((mb * pb) * (q + 1)) * pe == ((q + 1) * mb) * (pb * pe)) by (nonlinear_arith);
    assert((q + 1) * mb == q * mb + mb) by (nonlinear_arith);
    if rest == 0 {
    } else {
        assert((q * mb) * x < dividend * x) by (nonlinear_arith)
            requires
                q * mb < dividend,
                x > 0,
        ;
        assert(dividend * x < ((q + 1) * mb) * x) by (nonlinear_arith)
            requires
                dividend < (q + 1) * mb,
                x > 0,
        ;
    }
}

} // verus!
