//! Writing doubles: the fewest decimal digits that still name the number.
use crate::decimal::{decimal_nearest, digits_end, digits_value, multiple, read_double, read_number};
use crate::double::{
    lemma_floor_exists, lemma_nearest, lemma_nearest_zero, lemma_value_increases,
    lemma_value_of_parts, magnitude_value, nearest, parts, unit, Double, FRACTION, INFINITY,
};
use crate::natural::{lemma_pow10_pos, pow10, Natural};
use crate::text::{decimal, digit, folded, integer_text, integer_to_text, is_digit, same_letters};
use vstd::arithmetic::power2::{lemma_pow2_pos, pow2};
use vstd::prelude::*;

verus! {

/// `d` times ten to the power `k`, brought to a common denominator.
pub open spec fn scaled(d: int, k: int) -> int {
    if k >= 0 {
        d * pow10(k as nat) * unit()
    } else {
        d * unit()
    }
}

/// That denominator.
pub open spec fn common(k: int) -> int {
    if k >= 0 {
        1
    } else {
        pow10((-k) as nat)
    }
}

/// Whether `d` times ten to the power `k` is read as the magnitude `m`.
pub open spec fn names(d: int, k: int, m: u64) -> bool {
    d >= 0 && decimal_nearest(d, k) == m
}

/// Whether some multiple of ten to the power `k` is read as the magnitude `m`.
pub open spec fn named_at(k: int, m: u64) -> bool {
    exists|d: int| names(d, k, m)
}

/// The largest power of ten with a multiple that is read as the magnitude `m`.
pub open spec fn last_place(m: u64) -> int {
    choose|k: int| #[trigger] named_at(k, m) && !named_at(k + 1, m)
}

/// The largest multiple of ten to the power `k` that is not above the magnitude
/// `m`.
pub open spec fn floor_digits(m: u64, k: int) -> int {
    let v = magnitude_value(m as int) * common(k);
    v / scaled(1, k)
}

/// Of the two multiples of ten to the power `k` next to the magnitude `m`, the
/// one that is read as `m`; where both are, the nearer one.
pub open spec fn digits_at(m: u64, k: int) -> int {
    let v = magnitude_value(m as int) * common(k);
    let f = floor_digits(m, k);
    if names(f, k, m) && (!names(f + 1, k, m) || 2 * v < scaled(f, k) + scaled(f + 1, k)) {
        f
    } else {
        f + 1
    }
}

/// The numbers that are rounded to one magnitude lie between its two middles.
proof fn lemma_rounds_to(num: int, den: int, m: u64)
    requires
        den > 0,
        num >= 0,
        0 < m < INFINITY,
    ensures
        nearest(num, den) == m <==> {
            let low = den * (magnitude_value(m - 1) + magnitude_value(m as int));
            let high = den * (magnitude_value(m as int) + magnitude_value(m + 1));
            &&& low < 2 * num || (low == 2 * num && m % 2 == 0)
            &&& 2 * num < high || (2 * num == high && m % 2 == 0)
        },
{
    let a = magnitude_value(m - 1);
    let b = magnitude_value(m as int);
    let c = magnitude_value(m + 1);
    lemma_value_increases(m - 1, m as int);
    lemma_value_increases(m as int, m + 1);
    let low = den * (a + b);
    let high = den * (b + c);
    assert(low == den * a + den * b) by (nonlinear_arith)
        requires
            low == den * (a + b),
    ;
    assert(high == den * b + den * c) by (nonlinear_arith)
        requires
            high == den * (b + c),
    ;
    assert(den * a < den * b && den * b < den * c) by (nonlinear_arith)
        requires
            a < b < c,
            den > 0,
    ;
    let top = magnitude_value(INFINITY as int);
    if num >= den * top {
        if m + 1 < INFINITY {
            lemma_value_increases(m + 1, INFINITY as int);
        }
        assert(den * c <= den * top) by (nonlinear_arith)
            requires
                c <= top,
                den > 0,
        ;
    } else {
        let f = lemma_floor_exists(num, den, INFINITY as int);
        lemma_nearest(num, den, f);
        let vf = magnitude_value(f);
        let vg = magnitude_value(f + 1);
        if f > m {
            if f > m + 1 {
                lemma_value_increases(m + 1, f);
            }
            assert(den * c <= den * vf) by (nonlinear_arith)
                requires
                    c <= vf,
                    den > 0,
            ;
        } else if f < m - 1 {
            if f + 1 < m - 1 {
                lemma_value_increases(f + 1, m - 1);
            }
            assert(den * vg <= den * a) by (nonlinear_arith)
                requires
                    vg <= a,
                    den > 0,
            ;
        }
    }
}

/// What a decimal is read as, in terms of the middles around a magnitude.
proof fn lemma_names(d: int, k: int, m: u64)
    requires
        d >= 0,
        0 < m < INFINITY,
    ensures
        common(k) > 0,
        unit() > 0,
        scaled(d, k) >= 0,
        names(d, k, m) <==> {
            let low = common(k) * (magnitude_value(m - 1) + magnitude_value(m as int));
            let high = common(k) * (magnitude_value(m as int) + magnitude_value(m + 1));
            &&& low < 2 * scaled(d, k) || (low == 2 * scaled(d, k) && m % 2 == 0)
            &&& 2 * scaled(d, k) < high || (2 * scaled(d, k) == high && m % 2 == 0)
        },
{
    lemma_pow2_pos(1074);
    if k >= 0 {
        lemma_pow10_pos(k as nat);
        let t = pow10(k as nat);
        assert(d * t >= 0) by (nonlinear_arith)
            requires
                d >= 0,
                t > 0,
        ;
        let dt = d * t;
        assert(dt * unit() >= 0) by (nonlinear_arith)
            requires
                dt >= 0,
                unit() > 0,
        ;
    } else {
        lemma_pow10_pos((-k) as nat);
        assert(d * unit() >= 0) by (nonlinear_arith)
            requires
                d >= 0,
                unit() > 0,
        ;
    }
    lemma_rounds_to(scaled(d, k), common(k), m);
}

proof fn lemma_scaled_linear(d: int, k: int)
    ensures
        scaled(d, k) == d * scaled(1, k),
        scaled(d + 1, k) == scaled(d, k) + scaled(1, k),
        scaled(1, k) > 0,
        common(k) > 0,
{
    lemma_pow2_pos(1074);
    let p = unit();
    if k >= 0 {
        lemma_pow10_pos(k as nat);
        let t = pow10(k as nat);
        assert(d * t * p == d * (1 * t * p)) by (nonlinear_arith);
        assert((d + 1) * t * p == d * t * p + 1 * t * p) by (nonlinear_arith);
        assert(1 * t * p > 0) by (nonlinear_arith)
            requires
                t > 0,
                p > 0,
        ;
    } else {
        lemma_pow10_pos((-k) as nat);
        assert((d + 1) * p == d * p + 1 * p) by (nonlinear_arith);
        assert(d * p == d * (1 * p)) by (nonlinear_arith);
    }
}

/// The multiples of a power of ten are multiples of the power below it.
proof fn lemma_step_down(d: int, v: int, k: int)
    ensures
        k >= 0 ==> scaled(10 * d, k) == scaled(d, k + 1) && v * common(k) == v * common(k + 1),
        k < 0 ==> scaled(10 * d, k) == 10 * scaled(d, k + 1) && v * common(k) == 10 * (v * common(
            k + 1,
        )),
        k < 0 ==> common(k) == 10 * common(k + 1),
{
    let p = unit();
    if k >= 0 {
        let t = pow10(k as nat);
        assert((10 * d) * t * p == d * (10 * t) * p) by (nonlinear_arith);
    } else {
        assert((10 * d) * p == 10 * (d * p)) by (nonlinear_arith);
        if k == -1 {
            assert(pow10(1) == 10 * pow10(0));
            assert(d * 1 * p == d * p);
            assert(v * 10 == 10 * (v * 1));
        } else {
            let t = pow10((-k - 1) as nat);
            assert(v * (10 * t) == 10 * (v * t)) by (nonlinear_arith);
        }
    }
}

/// What is named at one place is named at the next below it.
proof fn lemma_named_below(k: int, m: u64)
    requires
        0 < m < INFINITY,
        named_at(k + 1, m),
    ensures
        named_at(k, m),
{
    let j = k + 1;
    let d = choose|d: int| names(d, j, m);
    let b = magnitude_value(m as int);
    let x = magnitude_value(m - 1) + b;
    let y = b + magnitude_value(m + 1);
    lemma_names(d, k + 1, m);
    lemma_names(10 * d, k, m);
    lemma_step_down(d, x, k);
    lemma_step_down(d, y, k);
    assert(x * common(k) == common(k) * x && y * common(k) == common(k) * y) by (nonlinear_arith);
    assert(x * common(k + 1) == common(k + 1) * x && y * common(k + 1) == common(k + 1) * y)
        by (nonlinear_arith);
    assert(names(10 * d, k, m));
}

proof fn lemma_named_all_below(k: int, j: int, m: u64)
    requires
        0 < m < INFINITY,
        named_at(j, m),
        k <= j,
    ensures
        named_at(k, m),
    decreases j - k,
{
    if k < j {
        lemma_named_below(j - 1, m);
        lemma_named_all_below(k, j - 1, m);
    }
}

/// There is but one last place.
proof fn lemma_last_place(k: int, m: u64)
    requires
        0 < m < INFINITY,
        named_at(k, m),
        !named_at(k + 1, m),
    ensures
        last_place(m) == k,
{
    let j = last_place(m);
    assert(named_at(j, m) && !named_at(j + 1, m));
    if j < k {
        lemma_named_all_below(j + 1, k, m);
    } else if k < j {
        lemma_named_all_below(k + 1, j, m);
    }
}

/// Whether `f` is the largest multiple that is not above the magnitude.
spec fn is_floor_digits(f: int, k: int, m: u64) -> bool {
    let v = magnitude_value(m as int) * common(k);
    f >= 0 && scaled(f, k) <= v < scaled(f + 1, k)
}

proof fn lemma_floor_digits(f: int, k: int, m: u64)
    requires
        is_floor_digits(f, k, m),
    ensures
        floor_digits(m, k) == f,
{
    let v = magnitude_value(m as int) * common(k);
    lemma_scaled_linear(f, k);
    vstd::arithmetic::div_mod::lemma_fundamental_div_mod_converse(
        v,
        scaled(1, k),
        f,
        v - scaled(f, k),
    );
}

/// Where neither neighbour is read as the magnitude, no other multiple is.
proof fn lemma_not_named(f: int, k: int, m: u64)
    requires
        0 < m < INFINITY,
        is_floor_digits(f, k, m),
        !names(f, k, m),
        !names(f + 1, k, m),
    ensures
        !named_at(k, m),
{
    if named_at(k, m) {
        let d = choose|d: int| names(d, k, m);
        let a = magnitude_value(m - 1);
        let b = magnitude_value(m as int);
        let c = magnitude_value(m + 1);
        lemma_value_increases(m - 1, m as int);
        lemma_value_increases(m as int, m + 1);
        lemma_names(d, k, m);
        lemma_names(f, k, m);
        lemma_names(f + 1, k, m);
        lemma_scaled_linear(d, k);
        lemma_scaled_linear(f, k);
        lemma_scaled_linear(f + 1, k);
        let g = common(k);
        assert(g * (a + b) < 2 * (b * g) < g * (b + c)) by (nonlinear_arith)
            requires
                g > 0,
                a < b < c,
        ;
        let s = scaled(1, k);
        if d <= f {
            assert(d * s <= f * s) by (nonlinear_arith)
                requires
                    d <= f,
                    s > 0,
            ;
        } else {
            assert((f + 1) * s <= d * s) by (nonlinear_arith)
                requires
                    f + 1 <= d,
                    s > 0,
            ;
        }
    }
}

/// Five to the power `k`.
spec fn pow5(k: nat) -> int
    decreases k,
{
    if k == 0 {
        1
    } else {
        5 * pow5((k - 1) as nat)
    }
}

proof fn lemma_pow5(k: nat)
    ensures
        pow10(k) == pow5(k) * pow2(k),
        pow5(k) > 0,
    decreases k,
{
    vstd::arithmetic::power2::lemma2_to64();
    if k > 0 {
        let j = (k - 1) as nat;
        lemma_pow5(j);
        vstd::arithmetic::power2::lemma_pow2_unfold(k);
        let a = pow5(j);
        let b = pow2(j) as int;
        assert(10 * (a * b) == (5 * a) * (2 * b)) by (nonlinear_arith);
    }
}

/// Every double ends at the last decimal place that it can have.
proof fn lemma_ends(f: int, m: u64)
    requires
        0 < m < INFINITY,
        is_floor_digits(f, -1074, m),
    ensures
        names(f, -1074, m),
{
    let b = magnitude_value(m as int);
    lemma_value_increases(m - 1, m as int);
    lemma_value_increases(m as int, m + 1);
    lemma_pow5(1074);
    let x = pow5(1074);
    let d = b * x;
    assert(b * (x * unit()) == (b * x) * unit()) by (nonlinear_arith);
    assert(d >= 0) by (nonlinear_arith)
        requires
            d == b * x,
            b >= 0,
            x > 0,
    ;
    assert(scaled(d, -1074) == b * common(-1074));
    lemma_scaled_linear(d, -1074);
    assert(is_floor_digits(d, -1074, m));
    lemma_floor_digits(d, -1074, m);
    lemma_floor_digits(f, -1074, m);
    lemma_names(d, -1074, m);
    let g = common(-1074);
    let a = magnitude_value(m - 1);
    let c = magnitude_value(m + 1);
    assert(g * (a + b) < 2 * (b * g) < g * (b + c)) by (nonlinear_arith)
        requires
            g > 0,
            a < b < c,
    ;
}

/// The size of a power of ten that a place stands for, split by its sign.
fn split_place(k: i32) -> (r: (u128, u128))
    requires
        -2000 <= k <= 2000,
    ensures
        r.0 == if k >= 0 { k as int } else { 0 },
        r.1 == if k >= 0 { 0 } else { -k as int },
{
    if k >= 0 {
        (k as u128, 0)
    } else {
        (0, (-(k as i128)) as u128)
    }
}

/// Computes `scaled`.
fn scale(d: &Natural, k: i32) -> (r: Natural)
    requires
        -2000 <= k <= 2000,
    ensures
        r.value() == scaled(d.value(), k as int),
{
    let (up, _down) = split_place(k);
    proof {
        assert(d.value() * 1 == d.value());
    }
    d.times_pow10(up).times_pow2(1074)
}

/// Whether a decimal is read as a magnitude.
fn is_named(d: &Natural, k: i32, m: u64) -> (r: bool)
    requires
        -2000 <= k <= 2000,
        0 < m < INFINITY,
    ensures
        r == names(d.value(), k as int, m),
{
    proof {
        d.lemma_not_negative();
        lemma_names(d.value(), k as int, m);
    }
    let (_up, down) = split_place(k);
    let twice = scale(d, k).times_pow2(1);
    let (q, u) = parts(m - 1);
    let low = multiple(2 * q + 1, u, down);
    let (s, t) = parts(m);
    let high = multiple(2 * s + 1, t, down);
    proof {
        vstd::arithmetic::power2::lemma2_to64();
        lemma_value_of_parts(u as int, q + 1);
        lemma_value_of_parts(t as int, s + 1);
        let p = pow2(u as nat) as int;
        let w = pow2(t as nat) as int;
        assert((2 * q + 1) * p == q * p + (q + 1) * p) by (nonlinear_arith);
        assert((2 * s + 1) * w == s * w + (s + 1) * w) by (nonlinear_arith);
        assert(low.value() == common(k as int) * (magnitude_value(m - 1) + magnitude_value(
            m as int,
        )));
        assert(high.value() == common(k as int) * (magnitude_value(m as int) + magnitude_value(
            m + 1,
        )));
    }
    if m % 2 == 0 {
        low.at_most(&twice) && twice.at_most(&high)
    } else {
        !twice.at_most(&low) && !high.at_most(&twice)
    }
}

/// The decimal digits of a number, as characters and as a number.
struct Written {
    chars: Vec<char>,
    value: Natural,
}

impl Written {
    spec fn holds(self, d: int) -> bool {
        &&& self.value.value() == d
        &&& d >= 0
        &&& if d == 0 {
            self.chars@.len() == 0
        } else {
            self.chars@ == decimal(d as nat)
        }
    }
}

/// Adds a digit at the end.
fn extend(w: &Written, c: u32, Ghost(d): Ghost<int>) -> (r: Written)
    requires
        w.holds(d),
        c < 10,
    ensures
        r.holds(10 * d + c),
        r.chars.len() <= w.chars.len() + 1,
{
    let mut chars = w.chars.clone();
    let value = w.value.mul_add(10, c);
    if chars.len() > 0 || c > 0 {
        chars.push((c as u8 + 0x30u8) as char);
    }
    proof {
        let n = (10 * d + c) as nat;
        assert(n / 10 == d && n % 10 == c);
        if d > 0 {
            lemma_decimal_len(d as nat);
        }
        if n > 0 {
            assert(chars@ =~= decimal(n));
        }
    }
    Written { chars, value }
}

proof fn lemma_decimal_len(n: nat)
    ensures
        decimal(n).len() > 0,
{
}

/// The digits of the next number.
fn successor(chars: &Vec<char>, Ghost(n): Ghost<nat>) -> (r: Vec<char>)
    requires
        chars@ == decimal(n),
    ensures
        r@ == decimal(n + 1),
        r.len() <= chars.len() + 1,
    decreases chars.len(),
{
    let mut init = chars.clone();
    proof {
        assert(init@ =~= chars@);
        lemma_decimal_len(n);
    }
    let last = init.pop().unwrap();
    proof {
        assert(last == digit(n % 10));
    }
    if last != '9' {
        let mut r = init;
        r.push((last as u8 + 1u8) as char);
        proof {
            assert((n + 1) / 10 == n / 10);
            assert((n + 1) % 10 == n % 10 + 1);
            assert(r@ =~= decimal(n + 1));
        }
        return r;
    }
    proof {
        assert(n % 10 == 9);
        assert((n + 1) % 10 == 0);
        assert((n + 1) / 10 == n / 10 + 1);
    }
    let mut r: Vec<char> = Vec::new();
    if init.len() == 0 {
        proof {
            if n >= 10 {
                lemma_decimal_len(n / 10);
            }
        }
        r.push('1');
        proof {
            assert(decimal(1) =~= seq!['1']);
        }
    } else {
        proof {
            assert(init@ =~= decimal(n / 10));
        }
        r = successor(&init, Ghost(n / 10));
    }
    r.push('0');
    proof {
        assert(r@ =~= decimal(n + 1));
    }
    r
}

/// The next digit of the decimal expansion of a magnitude.
fn next_digit(w: &Written, k: i32, m: u64, Ghost(f): Ghost<int>) -> (r: Written)
    requires
        0 < m < INFINITY,
        -1074 <= k <= 1000,
        w.holds(f),
        is_floor_digits(f, k + 1, m),
    ensures
        exists|g: int| r.holds(g) && is_floor_digits(g, k as int, m),
        r.chars.len() <= w.chars.len() + 1,
{
    let (_up, down) = split_place(k);
    let (q, u) = parts(m);
    let target = multiple(q, u, down);
    let ghost v = magnitude_value(m as int) * common(k as int);
    proof {
        let b = magnitude_value(m as int);
        assert(common(k as int) * b == b * common(k as int)) by (nonlinear_arith);
        lemma_step_down(f, b, k as int);
        lemma_step_down(f + 1, b, k as int);
    }
    let mut c: u32 = 0;
    let mut r = extend(w, 0, Ghost(f));
    loop
        invariant
            target.value() == v,
            v == magnitude_value(m as int) * common(k as int),
            w.holds(f),
            c < 10,
            -1074 <= k <= 1000,
            r.holds(10 * f + c),
            r.chars.len() <= w.chars.len() + 1,
            scaled(10 * f + c, k as int) <= v < scaled(10 * (f + 1), k as int),
        decreases 10 - c,
    {
        if c == 9 {
            proof {
                assert(is_floor_digits(10 * f + c, k as int, m));
            }
            return r;
        }
        let next = extend(w, c + 1, Ghost(f));
        if !scale(&next.value, k).at_most(&target) {
            proof {
                assert(is_floor_digits(10 * f + c, k as int, m));
            }
            return r;
        }
        c = c + 1;
        r = next;
    }
}

/// The digits and the last place of a magnitude.
fn shortest(m: u64) -> (r: (Vec<char>, i32))
    requires
        0 < m < INFINITY,
    ensures
        r.1 == last_place(m),
        r.0@ == decimal(digits_at(m, r.1 as int) as nat),
        -1074 <= r.1 <= 401,
        r.0.len() <= 2000,
        digits_at(m, r.1 as int) > 0,
{
    let mut k: i32 = first_place(m);
    let mut w = Written { chars: Vec::new(), value: Natural::from_u64(0) };
    let ghost mut f: int = 0;
    proof {
        lemma_first_floor(k as int, m);
    }
    loop
        invariant
            0 < m < INFINITY,
            -1073 <= k <= 402,
            w.chars.len() + k <= 402,
            w.holds(f),
            is_floor_digits(f, k as int, m),
            !named_at(k as int, m),
        decreases k + 1074,
    {
        w = next_digit(&w, k - 1, m, Ghost(f));
        k = k - 1;
        proof {
            f = choose|g: int| w.holds(g) && is_floor_digits(g, k as int, m);
            lemma_floor_digits(f, k as int, m);
        }
        let down_fits = is_named(&w.value, k, m);
        let above = w.value.mul_add(1, 1);
        let up_fits = is_named(&above, k, m);
        if down_fits || up_fits {
            proof {
                assert(named_at(k as int, m)) by {
                    if down_fits {
                        assert(names(f, k as int, m));
                    } else {
                        assert(names(f + 1, k as int, m));
                    }
                }
                lemma_last_place(k as int, m);
            }
            let (_up, down) = split_place(k);
            let (q, u) = parts(m);
            let target = multiple(q, u, down).times_pow2(1);
            let middle = scale(&w.value.mul_add(2, 1), k);
            proof {
                let b = magnitude_value(m as int);
                assert(common(k as int) * b == b * common(k as int)) by (nonlinear_arith);
                vstd::arithmetic::power2::lemma2_to64();
                lemma_scaled_linear(f, k as int);
                lemma_scaled_linear(f * 2 + 1, k as int);
                let s = scaled(1, k as int);
                assert((f * 2 + 1) * s == f * s + (f * s + s)) by (nonlinear_arith);
                lemma_zero_named(k as int, m);
            }
            if down_fits && (!up_fits || !middle.at_most(&target)) {
                return (w.chars, k);
            }
            if w.chars.len() == 0 {
                let mut one: Vec<char> = Vec::new();
                one.push('1');
                proof {
                    assert(f == 0) by {
                        if f > 0 {
                            lemma_decimal_len(f as nat);
                        }
                    }
                    assert(decimal(1) =~= seq!['1']);
                }
                return (one, k);
            }
            return (successor(&w.chars, Ghost(f as nat)), k);
        }
        proof {
            lemma_not_named(f, k as int, m);
            if k == -1074 {
                lemma_ends(f, m);
            }
        }
    }
}

/// Zero is read as zero at every place.
proof fn lemma_zero_named(k: int, m: u64)
    requires
        m > 0,
    ensures
        !names(0, k, m),
{
    lemma_pow2_pos(1074);
    if k >= 0 {
        assert(0 * pow10(k as nat) == 0);
        lemma_nearest_zero(1);
    } else {
        lemma_pow10_pos((-k) as nat);
        lemma_nearest_zero(pow10((-k) as nat));
    }
}

/// Whether ten to the power `k` lies beyond the successor of a magnitude.
spec fn beyond(k: int, m: u64) -> bool {
    scaled(1, k) > magnitude_value(m + 1) * common(k)
}

/// A place above the first digit of a magnitude.
fn first_place(m: u64) -> (r: i32)
    requires
        0 < m < INFINITY,
    ensures
        -1073 <= r <= 402,
        beyond(r as int, m),
{
    // 0.30103 is the logarithm of two to the base ten.
    let exponent: i32 = (m / FRACTION) as i32 - 1022;
    let guess: i32 = (exponent * 30103) / 100000 + 1;
    let (q, u) = parts(m);
    let ghost b = magnitude_value(m + 1);
    proof {
        lemma_value_of_parts(u as int, q + 1);
        lemma_far_place(m);
    }
    if guess > -1073 && guess < 402 {
        let (_up, down) = split_place(guess);
        let target = multiple(q + 1, u, down);
        let power = scale(&Natural::from_u64(1), guess);
        proof {
            assert(common(guess as int) * b == b * common(guess as int)) by (nonlinear_arith);
        }
        if !power.at_most(&target) {
            return guess;
        }
    }
    402
}

/// Four hundred places are beyond every double.
proof fn lemma_far_place(m: u64)
    requires
        m < INFINITY,
    ensures
        beyond(402, m),
{
    crate::decimal::lemma_reach();
    lemma_pow2_pos(1074);
    lemma_pow10_pos(400);
    reveal_with_fuel(pow10, 3);
    if m + 1 < INFINITY {
        lemma_value_increases(m + 1, INFINITY as int);
    }
    let p = unit();
    assert(1 * pow10(402) * p > pow10(400) * p) by (nonlinear_arith)
        requires
            pow10(402) == 100 * pow10(400),
            pow10(400) > 0,
            p > 0,
    ;
}

proof fn lemma_first_floor(k: int, m: u64)
    requires
        0 < m < INFINITY,
        beyond(k, m),
    ensures
        is_floor_digits(0, k, m),
        !named_at(k, m),
{
    lemma_scaled_linear(0, k);
    lemma_value_increases(m as int, m + 1);
    let b = magnitude_value(m as int);
    let c = magnitude_value(m + 1);
    let g = common(k);
    assert(0 <= b * g < c * g) by (nonlinear_arith)
        requires
            0 <= b < c,
            g > 0,
    ;
    assert(0 * scaled(1, k) == 0);
    lemma_zero_named(k, m);
    lemma_names(1, k, m);
    assert(g * (b + c) <= 2 * (c * g)) by (nonlinear_arith)
        requires
            b < c,
            g > 0,
    ;
    lemma_not_named(0, k, m);
}

/// A run of zeros.
pub open spec fn zeros(n: nat) -> Seq<char> {
    Seq::new(n, |i: int| '0')
}

/// Digits with the decimal point behind the first `p` of them.
pub open spec fn plain(digits: Seq<char>, p: int) -> Seq<char> {
    if p <= 0 {
        seq!['0', '.'] + zeros((-p) as nat) + digits
    } else if p < digits.len() {
        digits.take(p) + seq!['.'] + digits.skip(p)
    } else {
        digits + zeros((p - digits.len()) as nat)
    }
}

/// Digits with the decimal point behind the first of them, and the power of ten
/// that makes up for it.
pub open spec fn scientific(digits: Seq<char>, p: int) -> Seq<char> {
    let fraction = if digits.len() > 1 { seq!['.'] + digits.skip(1) } else { Seq::empty() };
    digits.take(1) + fraction + seq!['e'] + integer_text(p - 1)
}

/// The digits of a magnitude.
pub open spec fn magnitude_digits(m: u64) -> Seq<char> {
    decimal(digits_at(m, last_place(m)) as nat)
}

/// How many digits of a magnitude stand before the decimal point.
pub open spec fn magnitude_point(m: u64) -> int {
    magnitude_digits(m).len() + last_place(m)
}

/// From this magnitude on, the debug form of a double is scientific.
pub const DEBUG_HIGH: u64 = 0x4341_c379_37e0_8000;

/// Below this magnitude, the debug form of a double is scientific.
pub const DEBUG_LOW: u64 = 0x3f1a_36e2_eb1c_432d;

/// The text of a magnitude.
pub open spec fn magnitude_text(m: u64) -> Seq<char> {
    if m == 0 {
        seq!['0']
    } else if m == INFINITY {
        seq!['i', 'n', 'f']
    } else {
        plain(magnitude_digits(m), magnitude_point(m))
    }
}

/// The debug text of a magnitude: always with a fraction or an exponent.
pub open spec fn magnitude_debug(m: u64) -> Seq<char> {
    if m == 0 {
        seq!['0', '.', '0']
    } else if m == INFINITY {
        seq!['i', 'n', 'f']
    } else if DEBUG_LOW <= m < DEBUG_HIGH {
        let text = plain(magnitude_digits(m), magnitude_point(m));
        if magnitude_point(m) >= magnitude_digits(m).len() {
            text + seq!['.', '0']
        } else {
            text
        }
    } else {
        scientific(magnitude_digits(m), magnitude_point(m))
    }
}

/// Puts a sign in front of the text of a magnitude.
pub open spec fn with_minus(negative: bool, s: Seq<char>) -> Seq<char> {
    if negative {
        seq!['-'] + s
    } else {
        s
    }
}

/// The text of a double.
pub open spec fn double_text(d: Double) -> Seq<char> {
    if d.nan() {
        seq!['N', 'a', 'N']
    } else {
        with_minus(d.negative(), magnitude_text(d.magnitude()))
    }
}

/// The debug text of a double.
pub open spec fn double_debug(d: Double) -> Seq<char> {
    if d.nan() {
        seq!['N', 'a', 'N']
    } else {
        with_minus(d.negative(), magnitude_debug(d.magnitude()))
    }
}

/// Adds some zeros.
fn push_zeros(s: &mut String, n: usize)
    ensures
        final(s)@ == old(s)@ + zeros(n as nat),
{
    let mut i: usize = 0;
    proof {
        assert(s@ + zeros(0) =~= s@);
    }
    while i < n
        invariant
            i <= n,
            s@ == old(s)@ + zeros(i as nat),
        decreases n - i,
    {
        s.push('0');
        proof {
            assert((old(s)@ + zeros(i as nat)).push('0') =~= old(s)@ + zeros((i + 1) as nat));
        }
        i = i + 1;
    }
}

/// Adds the characters from one place to another.
fn push_range(s: &mut String, x: &Vec<char>, from: usize, to: usize)
    requires
        from <= to <= x.len(),
    ensures
        final(s)@ == old(s)@ + x@.subrange(from as int, to as int),
{
    let mut i: usize = from;
    proof {
        assert(s@ + x@.subrange(from as int, from as int) =~= s@);
    }
    while i < to
        invariant
            from <= i <= to <= x.len(),
            s@ == old(s)@ + x@.subrange(from as int, i as int),
        decreases to - i,
    {
        s.push(x[i]);
        proof {
            assert((old(s)@ + x@.subrange(from as int, i as int)).push(x@[i as int]) =~= old(s)@
                + x@.subrange(from as int, i + 1));
        }
        i = i + 1;
    }
}

/// Writes digits without an exponent.
fn push_plain(s: &mut String, x: &Vec<char>, p: i64)
    requires
        -100000 <= p,
        p <= x.len() + 100000,
    ensures
        final(s)@ == old(s)@ + plain(x@, p as int),
{
    if p <= 0 {
        s.push('0');
        s.push('.');
        push_zeros(s, (-p) as usize);
        push_range(s, x, 0, x.len());
        proof {
            assert(x@.subrange(0, x@.len() as int) =~= x@);
            assert(s@ =~= old(s)@ + plain(x@, p as int));
        }
    } else if (p as u64) < x.len() as u64 {
        push_range(s, x, 0, p as usize);
        s.push('.');
        push_range(s, x, p as usize, x.len());
        proof {
            assert(s@ =~= old(s)@ + plain(x@, p as int));
        }
    } else {
        push_range(s, x, 0, x.len());
        push_zeros(s, (p as u64 - x.len() as u64) as usize);
        proof {
            assert(x@.subrange(0, x@.len() as int) =~= x@);
            assert(s@ =~= old(s)@ + plain(x@, p as int));
        }
    }
}

/// Writes digits with an exponent.
fn push_scientific(s: &mut String, x: &Vec<char>, p: i64)
    requires
        x.len() > 0,
        p > i64::MIN,
    ensures
        final(s)@ == old(s)@ + scientific(x@, p as int),
{
    push_range(s, x, 0, 1);
    if x.len() > 1 {
        s.push('.');
        push_range(s, x, 1, x.len());
    }
    s.push('e');
    s.append(integer_to_text(p - 1).as_str());
    proof {
        assert(s@ =~= old(s)@ + scientific(x@, p as int));
    }
}

/// The digits of a magnitude, and how many of them stand before the point.
fn written(m: u64) -> (r: (Vec<char>, i64))
    requires
        0 < m < INFINITY,
    ensures
        r.0@ == magnitude_digits(m),
        r.1 == magnitude_point(m),
        r.0.len() > 0,
        r.0.len() <= 2000,
        -2000 <= r.1 <= 4000,
{
    let (digits, k) = shortest(m);
    proof {
        lemma_decimal_len(digits_at(m, k as int) as nat);
    }
    let p: i64 = digits.len() as i64 + k as i64;
    (digits, p)
}

/// Writes a double.
pub fn double_to_text(d: Double) -> (r: String)
    ensures
        r@ == double_text(d),
{
    let mut s = String::new();
    if d.is_nan() {
        s.push('N');
        s.push('a');
        s.push('N');
        proof {
            assert(s@ =~= double_text(d));
        }
        return s;
    }
    if d.is_negative() {
        s.push('-');
    }
    let m = d.get_magnitude();
    if m == 0 {
        s.push('0');
    } else if m == INFINITY {
        s.push('i');
        s.push('n');
        s.push('f');
    } else {
        let (digits, p) = written(m);
        push_plain(&mut s, &digits, p);
    }
    proof {
        assert(s@ =~= double_text(d));
    }
    s
}

/// Writes a double in its debug form.
pub fn double_to_debug(d: Double) -> (r: String)
    ensures
        r@ == double_debug(d),
{
    let mut s = String::new();
    if d.is_nan() {
        s.push('N');
        s.push('a');
        s.push('N');
        proof {
            assert(s@ =~= double_debug(d));
        }
        return s;
    }
    if d.is_negative() {
        s.push('-');
    }
    let m = d.get_magnitude();
    if m == 0 {
        s.push('0');
        s.push('.');
        s.push('0');
    } else if m == INFINITY {
        s.push('i');
        s.push('n');
        s.push('f');
    } else {
        let (digits, p) = written(m);
        if DEBUG_LOW <= m && m < DEBUG_HIGH {
            push_plain(&mut s, &digits, p);
            if p >= digits.len() as i64 {
                s.push('.');
                s.push('0');
            }
        } else {
            push_scientific(&mut s, &digits, p);
        }
    }
    proof {
        assert(s@ =~= double_debug(d));
    }
    s
}

// === Reading back ===

proof fn lemma_floor_is_floor(k: int, m: u64)
    requires
        0 < m < INFINITY,
    ensures
        is_floor_digits(floor_digits(m, k), k, m),
{
    let b = magnitude_value(m as int);
    let g = common(k);
    let v = b * g;
    let w = scaled(1, k);
    let f = floor_digits(m, k);
    lemma_value_increases(m - 1, m as int);
    lemma_scaled_linear(1, k);
    lemma_scaled_linear(f, k);
    lemma_scaled_linear(f + 1, k);
    assert(v >= 0) by (nonlinear_arith)
        requires
            b >= 0,
            g > 0,
            v == b * g,
    ;
    vstd::arithmetic::div_mod::lemma_fundamental_div_mod(v, w);
    vstd::arithmetic::div_mod::lemma_div_pos_is_pos(v, w);
    assert(w * f == f * w && (f + 1) * w == f * w + w) by (nonlinear_arith);
}

/// Where a magnitude is named at one place and not at a higher one, there is a
/// last place between them.
proof fn lemma_switch(low: int, high: int, m: u64)
    requires
        named_at(low, m),
        !named_at(high, m),
        low < high,
    ensures
        exists|k: int| #[trigger] named_at(k, m) && !named_at(k + 1, m),
    decreases high - low,
{
    if named_at(low + 1, m) {
        lemma_switch(low + 1, high, m);
    }
}

/// The digits of a magnitude are read as it.
proof fn lemma_digits_name(m: u64)
    requires
        0 < m < INFINITY,
    ensures
        names(digits_at(m, last_place(m)), last_place(m), m),
{
    lemma_far_place(m);
    lemma_first_floor(402, m);
    lemma_floor_is_floor(-1074, m);
    lemma_ends(floor_digits(m, -1074), m);
    assert(named_at(-1074, m));
    lemma_switch(-1074, 402, m);
    let k = last_place(m);
    assert(named_at(k, m));
    let f = floor_digits(m, k);
    lemma_floor_is_floor(k, m);
    if !names(f, k, m) && !names(f + 1, k, m) {
        lemma_not_named(f, k, m);
    }
}

/// Whether characters are all digits.
spec fn all_digits(s: Seq<char>) -> bool {
    forall|i: int| 0 <= i < s.len() ==> is_digit(#[trigger] s[i])
}

/// The digits of a number make that number.
proof fn lemma_decimal_value(n: nat)
    ensures
        all_digits(decimal(n)),
        digits_value(decimal(n)) == n,
        decimal(n).len() > 0,
    decreases n,
{
    let last = n % 10;
    assert((0x30 + last) as u8 == 0x30 + last);
    reveal_with_fuel(digits_value, 2);
    if n < 10 {
        assert(decimal(n).drop_last() =~= Seq::<char>::empty());
    } else {
        lemma_decimal_value(n / 10);
        assert(decimal(n).drop_last() =~= decimal(n / 10));
    }
}

proof fn lemma_zeros_before(n: nat, s: Seq<char>)
    ensures
        digits_value(zeros(n) + s) == digits_value(s),
        all_digits(s) ==> all_digits(zeros(n) + s),
    decreases s.len(), n,
{
    let t = zeros(n) + s;
    if s.len() > 0 {
        lemma_zeros_before(n, s.drop_last());
        assert(t.drop_last() =~= zeros(n) + s.drop_last());
    } else if n > 0 {
        lemma_zeros_before((n - 1) as nat, s);
        assert(t.drop_last() =~= zeros((n - 1) as nat) + s);
    }
}

proof fn lemma_zeros_behind(s: Seq<char>, n: nat)
    ensures
        digits_value(s + zeros(n)) == digits_value(s) * pow10(n),
        all_digits(s) ==> all_digits(s + zeros(n)),
    decreases n,
{
    let t = s + zeros(n);
    if n > 0 {
        lemma_zeros_behind(s, (n - 1) as nat);
        assert(t.drop_last() =~= s + zeros((n - 1) as nat));
        let x = digits_value(s);
        let p = pow10((n - 1) as nat);
        assert(x * p * 10 == x * (10 * p)) by (nonlinear_arith);
    } else {
        assert(t =~= s);
        assert(digits_value(s) * 1 == digits_value(s));
    }
}

/// A run of digits ends at the first character that is none.
proof fn lemma_run_ends(s: Seq<char>, i: int, e: int)
    requires
        0 <= i <= e <= s.len(),
        forall|j: int| i <= j < e ==> is_digit(#[trigger] s[j]),
        e < s.len() ==> !is_digit(s[e]),
    ensures
        digits_end(s, i) == e,
    decreases e - i,
{
    if i < e {
        lemma_run_ends(s, i + 1, e);
    }
}

/// What is written without an exponent is read as its digits at their place.
proof fn lemma_plain_read(x: Seq<char>, p: int)
    requires
        all_digits(x),
        x.len() > 0,
    ensures
        read_number(plain(x, p)) matches Some((d, k)) && decimal_nearest(d, k)
            == decimal_nearest(digits_value(x), p - x.len()),
        is_digit(plain(x, p)[0]),
{
    let s = plain(x, p);
    let n = x.len() as int;
    if p <= 0 {
        let z = zeros((-p) as nat);
        lemma_run_ends(s, 0, 1);
        assert forall|j: int| 2 <= j < s.len() implies is_digit(#[trigger] s[j]) by {
            if j < 2 - p {
                assert(s[j] == z[j - 2]);
            } else {
                assert(s[j] == x[j - 2 + p]);
            }
        }
        lemma_run_ends(s, 2, s.len() as int);
        let digits = s.subrange(0, 1) + s.subrange(2, s.len() as int);
        assert(digits =~= zeros((1 - p) as nat) + x);
        lemma_zeros_before((1 - p) as nat, x);
    } else if p < n {
        lemma_run_ends(s, 0, p);
        assert forall|j: int| p + 1 <= j < s.len() implies is_digit(#[trigger] s[j]) by {
            assert(s[j] == x[j - 1]);
        }
        lemma_run_ends(s, p + 1, s.len() as int);
        assert(s.subrange(0, p) + s.subrange(p + 1, s.len() as int) =~= x);
    } else {
        let z = (p - n) as nat;
        lemma_zeros_behind(x, z);
        lemma_run_ends(s, 0, s.len() as int);
        assert(s.subrange(0, s.len() as int) =~= s);
        let d = digits_value(x) * pow10(z);
        assert(pow10(0) == 1);
        assert(d * 1 == d);
    }
}

/// A double that is written is read as itself, and what is not a number as what is
/// not one.
pub proof fn lemma_double_round_trip(d: Double)
    ensures
        !d.nan() ==> read_double(double_text(d)) == Some(d),
        d.nan() ==> (read_double(double_text(d)) matches Some(e) && e.nan()),
{
    let s = double_text(d);
    let m = d.magnitude();
    if d.nan() {
        reveal_strlit("inf");
        reveal_strlit("infinity");
        reveal_strlit("nan");
        assert(s.subrange(0, 0).len() == 0);
        assert(folded(s) =~= folded("nan"@));
        assert(folded(s)[0] == 'n');
        assert(folded("inf"@)[0] == 'i');
        assert(folded("infinity"@)[0] == 'i');
    } else {
        let body = magnitude_text(m);
        assert(d.negative() ==> s.drop_first() =~= body);
        if m == INFINITY {
            reveal_strlit("inf");
            assert(body =~= "inf"@);
            assert(same_letters(body, "inf"@));
            assert(body.subrange(0, 0).len() == 0);
        } else if m == 0 {
            lemma_run_ends(body, 0, 1);
            lemma_decimal_value(0);
            assert(body.subrange(0, 1) =~= decimal(0));
            lemma_nearest_zero(1);
            assert(0 * pow10(0) == 0);
        } else {
            let k = last_place(m);
            let n = digits_at(m, k);
            lemma_digits_name(m);
            lemma_decimal_value(n as nat);
            lemma_plain_read(magnitude_digits(m), magnitude_point(m));
        }
    }
}

} // verus!
