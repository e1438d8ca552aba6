//! Doubles in decimal: reading them from text and writing them as text.
use crate::double::{
    lemma_nearest, lemma_nearest_zero, lemma_value_of_parts, magnitude_value, nearest, parts,
    signed, unit, is_floor, Double, FRACTION, INFINITY, NAN,
};
use crate::natural::{lemma_pow10_pos, pow10, Natural};
use crate::text::{chars_of, digit_value, equal_ignoring_case, is_digit, same_letters, text_of};
use vstd::arithmetic::power2::{
    lemma2_to64, lemma_pow2_adds, lemma_pow2_pos, lemma_pow2_strictly_increases, pow2,
};
use vstd::prelude::*;

pub mod laws;

verus! {

/// The magnitude nearest to `d` times ten to the power `k`.
pub open spec fn decimal_nearest(d: int, k: int) -> u64 {
    if k >= 0 {
        nearest(d * pow10(k as nat) * unit(), 1)
    } else {
        nearest(d * unit(), pow10((-k) as nat))
    }
}

/// The value of a significand and an exponent, times a power of ten.
pub fn multiple(q: u64, u: u32, down: u128) -> (r: Natural)
    ensures
        r.value() == pow10(down as nat) * (q * pow2(u as nat)),
{
    let r = Natural::from_u64(q).times_pow10(down).times_pow2(u);
    proof {
        let t = pow10(down as nat);
        let p = pow2(u as nat) as int;
        assert((q * t) * p == t * (q * p)) by (nonlinear_arith);
    }
    r
}

/// The magnitude nearest to a quotient by a power of ten.
fn search(num: &Natural, down: u128) -> (r: u64)
    ensures
        r == nearest(num.value(), pow10(down as nat)),
        r <= INFINITY,
{
    let ghost n = num.value();
    let ghost den = pow10(down as nat);
    proof {
        lemma_pow10_pos(down as nat);
        num.lemma_not_negative();
        lemma_value_of_parts(2046, FRACTION as int);
        assert(2046 * FRACTION + FRACTION == INFINITY);
    }
    if multiple(FRACTION, 2046, down).at_most(num) {
        return INFINITY;
    }
    let mut low: u64 = 0;
    let mut high: u64 = INFINITY;
    proof {
        lemma_value_of_parts(0, 0);
        assert(0 * pow2(0) == 0);
        assert(den * 0 == 0);
    }
    while high - low > 1
        invariant
            n == num.value(),
            den == pow10(down as nat),
            low < high <= INFINITY,
            den * magnitude_value(low as int) <= n,
            n < den * magnitude_value(high as int),
        decreases high - low,
    {
        let middle: u64 = low + (high - low) / 2;
        let (q, u) = parts(middle);
        if multiple(q, u, down).at_most(num) {
            low = middle;
        } else {
            high = middle;
        }
    }
    proof {
        assert(is_floor(n, den, low as int));
        lemma_nearest(n, den, low as int);
    }
    let (q, u) = parts(low);
    let twice = num.times_pow2(1);
    let middle = multiple(2 * q + 1, u, down);
    proof {
        lemma_next(low, q, u);
        lemma2_to64();
        let p = pow2(u as nat) as int;
        assert((2 * q + 1) * p == q * p + (q + 1) * p) by (nonlinear_arith);
    }
    if !twice.at_most(&middle) {
        low + 1
    } else if !middle.at_most(&twice) {
        low
    } else if low % 2 == 0 {
        low
    } else {
        low + 1
    }
}

/// The value after that of a magnitude.
proof fn lemma_next(m: u64, q: u64, u: u32)
    requires
        m < INFINITY,
        magnitude_value(m as int) == q * pow2(u as nat),
        q < 2 * FRACTION,
        u <= 2045,
        u > 0 ==> q >= FRACTION,
        m == u * FRACTION + q,
    ensures
        magnitude_value(m + 1) == (q + 1) * pow2(u as nat),
{
    lemma_value_of_parts(u as int, q + 1);
}

/// Where the run of digits that starts at `i` ends.
pub open spec fn digits_end(s: Seq<char>, i: int) -> int
    decreases s.len() - i,
{
    if 0 <= i < s.len() && is_digit(s[i]) {
        digits_end(s, i + 1)
    } else {
        i
    }
}

/// The number that some decimal digits make.
pub open spec fn digits_value(s: Seq<char>) -> int
    decreases s.len(),
{
    if s.len() == 0 {
        0
    } else {
        digits_value(s.drop_last()) * 10 + digit_value(s.last())
    }
}

/// Reads the exponent of a number, from behind its `e`.
pub open spec fn read_exponent(s: Seq<char>) -> Option<int> {
    let digits = if s.len() > 0 && (s[0] == '-' || s[0] == '+') { s.drop_first() } else { s };
    if digits.len() == 0 || digits_end(digits, 0) != digits.len() {
        None
    } else if s[0] == '-' {
        Some(-digits_value(digits))
    } else {
        Some(digits_value(digits))
    }
}

/// Reads a number without a sign: its digits, and the power of ten that they are
/// multiplied by.
pub open spec fn read_number(s: Seq<char>) -> Option<(int, int)> {
    let i = digits_end(s, 0);
    let point = i < s.len() && s[i] == '.';
    let j = if point { digits_end(s, i + 1) } else { i };
    let digits = if point { s.subrange(0, i) + s.subrange(i + 1, j) } else { s.subrange(0, i) };
    let places = if point { j - i - 1 } else { 0 };
    if digits.len() == 0 {
        None
    } else if j == s.len() {
        Some((digits_value(digits), -places))
    } else if s[j] == 'e' || s[j] == 'E' {
        match read_exponent(s.skip(j + 1)) {
            Some(e) => Some((digits_value(digits), e - places)),
            None => None,
        }
    } else {
        None
    }
}

/// Reads a double: a decimal number, or a word for what is infinite or not a
/// number.
pub open spec fn read_double(s: Seq<char>) -> Option<Double> {
    if s.len() == 0 {
        None
    } else {
        let negative = s[0] == '-';
        let body = if negative || s[0] == '+' { s.drop_first() } else { s };
        match read_number(body) {
            Some((d, k)) => Some(signed(negative, decimal_nearest(d, k))),
            None => if same_letters(body, "inf"@) || same_letters(body, "infinity"@) {
                Some(signed(negative, INFINITY))
            } else if same_letters(body, "nan"@) {
                Some(signed(negative, NAN))
            } else {
                None
            },
        }
    }
}

proof fn lemma_digits_end(s: Seq<char>, i: int)
    requires
        0 <= i <= s.len(),
    ensures
        i <= digits_end(s, i) <= s.len(),
        forall|j: int| i <= j < digits_end(s, i) ==> is_digit(s[j]),
        digits_end(s, i) < s.len() ==> !is_digit(s[digits_end(s, i)]),
    decreases s.len() - i,
{
    if i < s.len() && is_digit(s[i]) {
        lemma_digits_end(s, i + 1);
    }
}

proof fn lemma_digits_value(s: Seq<char>)
    requires
        forall|j: int| 0 <= j < s.len() ==> is_digit(s[j]),
    ensures
        digits_value(s) >= 0,
    decreases s.len(),
{
    if s.len() > 0 {
        lemma_digits_value(s.drop_last());
    }
}

/// Finds the end of a run of digits.
fn skip_digits(x: &Vec<char>, from: usize) -> (r: usize)
    requires
        from <= x.len(),
    ensures
        r == digits_end(x@, from as int),
        from <= r <= x.len(),
{
    let mut i = from;
    while i < x.len() && '0' <= x[i] && x[i] <= '9'
        invariant
            from <= i <= x.len(),
            digits_end(x@, from as int) == digits_end(x@, i as int),
        decreases x.len() - i,
    {
        i = i + 1;
    }
    i
}

/// Digits read so far: their number without leading zeros, and the value.
struct Digits {
    count: u128,
    value: Natural,
}

impl Digits {
    spec fn holds(self, v: int) -> bool {
        &&& self.value.value() == v
        &&& self.count == 0 ==> v == 0
        &&& self.count > 0 ==> pow10((self.count - 1) as nat) <= v < pow10(self.count as nat)
    }
}

/// Reads digits on to those that were read before.
fn take_digits(
    x: &Vec<char>,
    from: usize,
    to: usize,
    before: Digits,
    Ghost(seen): Ghost<Seq<char>>,
) -> (r: Digits)
    requires
        from <= to <= x.len(),
        before.holds(digits_value(seen)),
        before.count <= from,
        forall|j: int| from <= j < to ==> is_digit(x[j]),
    ensures
        r.holds(digits_value(seen + x@.subrange(from as int, to as int))),
        r.count <= to,
{
    let mut r = before;
    let mut i = from;
    proof {
        assert(seen + x@.subrange(from as int, from as int) =~= seen);
    }
    while i < to
        invariant
            from <= i <= to <= x.len(),
            r.count <= i,
            r.holds(digits_value(seen + x@.subrange(from as int, i as int))),
            forall|j: int| from <= j < to ==> is_digit(x[j]),
        decreases to - i,
    {
        let ghost old_v = r.value.value();
        let d: u32 = (x[i] as u8 - 0x30u8) as u32;
        let ghost s = seen + x@.subrange(from as int, i + 1);
        proof {
            assert(s.drop_last() =~= seen + x@.subrange(from as int, i as int));
            assert(s.last() == x@[i as int]);
            assert(is_digit(x@[i as int]));
        }
        let value = r.value.mul_add(10, d);
        let count: u128 = if r.count == 0 && d == 0 {
            0
        } else {
            r.count + 1
        };
        proof {
            reveal_with_fuel(pow10, 2);
            assert(pow10(0) == 1 && pow10(1) == 10);
        }
        r = Digits { count, value };
        i = i + 1;
    }
    r
}

pub proof fn lemma_pow10_adds(a: nat, b: nat)
    ensures
        pow10(a + b) == pow10(a) * pow10(b),
    decreases b,
{
    if b == 0 {
        assert(pow10(a) * 1 == pow10(a));
    } else {
        lemma_pow10_adds(a, (b - 1) as nat);
        let x = pow10(a);
        let y = pow10((b - 1) as nat);
        assert(10 * (x * y) == x * (10 * y)) by (nonlinear_arith);
    }
}

pub proof fn lemma_pow10_monotonic(a: nat, b: nat)
    requires
        a <= b,
    ensures
        pow10(a) <= pow10(b),
    decreases b - a,
{
    if a < b {
        lemma_pow10_monotonic(a, (b - 1) as nat);
        lemma_pow10_pos((b - 1) as nat);
    }
}

/// A thousand is more than two to the power nine.
proof fn lemma_thousands(k: nat)
    ensures
        pow10(3 * k) >= pow2(9 * k),
    decreases k,
{
    lemma2_to64();
    if k > 0 {
        let j = (k - 1) as nat;
        lemma_thousands(j);
        reveal_with_fuel(pow10, 4);
        lemma_pow2_adds(9 * j, 9);
        assert(pow10(3 * k) == 1000 * pow10(3 * j));
    }
}

/// Four hundred decimal places reach beyond the largest double.
pub proof fn lemma_reach()
    ensures
        pow10(400) * unit() >= magnitude_value(INFINITY as int),
        pow10(400) > 2 * unit(),
{
    lemma_thousands(133);
    lemma_pow10_monotonic(399, 400);
    lemma_pow2_pos(1074);
    lemma_pow2_pos(1197);
    lemma_pow2_adds(1197, 1074);
    lemma_pow2_strictly_increases(2098, 2271);
    lemma2_to64();
    lemma_pow2_adds(1, 1074);
    lemma_pow2_strictly_increases(1075, 1197);
    vstd::arithmetic::power2::lemma2_to64_rest();
    lemma_pow2_adds(52, 2046);
    lemma_value_of_parts(2046, FRACTION as int);
    assert(2046 * FRACTION + FRACTION == INFINITY);
    assert(pow10(400) * unit() >= pow2(1197) * unit()) by (nonlinear_arith)
        requires
            pow10(400) >= pow2(1197),
            unit() > 0,
    ;
}

/// A number with its first digit so far up rounds to infinity.
pub proof fn lemma_too_large(d: int, n: nat, k: int)
    requires
        n >= 1,
        d >= pow10((n - 1) as nat),
        n + k > 400,
    ensures
        decimal_nearest(d, k) == INFINITY,
{
    lemma_reach();
    lemma_pow2_pos(1074);
    let v = magnitude_value(INFINITY as int);
    if k >= 0 {
        lemma_pow10_adds((n - 1) as nat, k as nat);
        lemma_pow10_pos(k as nat);
        lemma_pow10_monotonic(400, (n - 1 + k) as nat);
        let t = pow10(k as nat);
        assert(d * t >= pow10((n - 1) as nat) * t) by (nonlinear_arith)
            requires
                d >= pow10((n - 1) as nat),
                t > 0,
        ;
        assert(d * t * unit() >= pow10(400) * unit()) by (nonlinear_arith)
            requires
                d * t >= pow10(400),
                unit() > 0,
        ;
        assert(1 * v == v);
    } else {
        let t = pow10((-k) as nat);
        lemma_pow10_pos((-k) as nat);
        lemma_pow10_adds((n - 1 + k) as nat, (-k) as nat);
        lemma_pow10_monotonic(400, (n - 1 + k) as nat);
        let h = pow10((n - 1 + k) as nat);
        assert(d * unit() >= t * v) by (nonlinear_arith)
            requires
                d >= h * t,
                h >= pow10(400),
                pow10(400) * unit() >= v,
                unit() > 0,
                t > 0,
        {
            assert(d * unit() >= (h * t) * unit());
            assert((h * t) * unit() == t * (h * unit()));
            assert(h * unit() >= pow10(400) * unit());
            assert(t * (h * unit()) >= t * v);
        }
    }
}

/// A number with its first digit so far down rounds to zero.
proof fn lemma_too_small(d: int, n: nat, k: int)
    requires
        0 <= d < pow10(n),
        n + k < -400,
    ensures
        decimal_nearest(d, k) == 0,
{
    lemma_reach();
    lemma_pow2_pos(1074);
    let den = pow10((-k) as nat);
    let far = (-k - n) as nat;
    lemma_pow10_pos((-k) as nat);
    lemma_pow10_pos(n);
    lemma_pow10_adds(n, far);
    lemma_pow10_monotonic(400, far);
    let num = d * unit();
    let t = pow10(n);
    let h = pow10(far);
    assert(0 <= 2 * num < den) by (nonlinear_arith)
        requires
            num == d * unit(),
            0 <= d < t,
            unit() > 0,
            h > 2 * unit(),
            den == t * h,
    {
        assert(2 * num == d * (2 * unit()));
        assert(d * (2 * unit()) < t * (2 * unit()));
        assert(t * (2 * unit()) < t * h);
    }
    lemma_value_of_parts(0, 0);
    lemma_value_of_parts(0, 1);
    lemma2_to64();
    assert(den * 0 == 0 && den * 1 == den);
    assert(is_floor(num, den, 0));
    lemma_nearest(num, den, 0);
}

/// The bound beyond which exponents are not told apart.
pub const FAR: i128 = 0x10_0000_0000_0000_0000_0000_0000;

/// Whether an exponent that was cut off at a bound stands for another.
spec fn stands_for(k: i128, exact: int) -> bool {
    ||| k == exact
    ||| k >= FAR / 2 && exact >= FAR / 2
    ||| k <= -(FAR / 2) && exact <= -(FAR / 2)
}

/// The magnitude nearest to a decimal number.
fn magnitude_of(digits: &Digits, k: i128, Ghost(d): Ghost<int>, Ghost(exact): Ghost<int>) -> (r: u64)
    requires
        digits.holds(d),
        digits.count <= u64::MAX,
        -2 * FAR <= k <= 2 * FAR,
        stands_for(k, exact),
    ensures
        r == decimal_nearest(d, exact),
        r <= INFINITY,
{
    if digits.count == 0 {
        proof {
            lemma_nearest_zero(1);
            if exact < 0 {
                lemma_pow10_pos((-exact) as nat);
                lemma_nearest_zero(pow10((-exact) as nat));
            } else {
                assert(0 * pow10(exact as nat) == 0);
            }
        }
        return 0;
    }
    let first: i128 = digits.count as i128 + k;
    if first > 400 {
        proof {
            lemma_too_large(d, digits.count as nat, exact);
        }
        return INFINITY;
    }
    if first < -400 {
        proof {
            lemma_pow10_pos((digits.count - 1) as nat);
            lemma_too_small(d, digits.count as nat, exact);
        }
        return 0;
    }
    let (up, down): (u128, u128) = if k >= 0 {
        (k as u128, 0)
    } else {
        (0, (-k) as u128)
    };
    let num = digits.value.times_pow10(up).times_pow2(1074);
    proof {
        assert(d * 1 == d);
    }
    search(&num, down)
}

/// Reads the digits of an exponent, cut off at a bound.
fn take_exponent(x: &Vec<char>, from: usize) -> (r: u128)
    requires
        from <= x.len(),
        forall|j: int| from <= j < x.len() ==> is_digit(x[j]),
    ensures
        0 <= r <= FAR,
        r == digits_value(x@.skip(from as int)) || (r == FAR && digits_value(x@.skip(from as int))
            >= FAR),
{
    let mut r: u128 = 0;
    let mut i = from;
    proof {
        assert(x@.subrange(from as int, from as int) =~= Seq::<char>::empty());
    }
    while i < x.len()
        invariant
            from <= i <= x.len(),
            forall|j: int| from <= j < x.len() ==> is_digit(x[j]),
            0 <= r <= FAR,
            r == digits_value(x@.subrange(from as int, i as int)) || (r == FAR && digits_value(
                x@.subrange(from as int, i as int),
            ) >= FAR),
        decreases x.len() - i,
    {
        let d: u128 = (x[i] as u8 - 0x30u8) as u128;
        let ghost s = x@.subrange(from as int, i + 1);
        proof {
            assert(s.drop_last() =~= x@.subrange(from as int, i as int));
            assert(s.last() == x@[i as int]);
            assert(is_digit(x@[i as int]));
        }
        let next: u128 = 10 * r + d;
        r = if next > FAR as u128 {
            FAR as u128
        } else {
            next
        };
        i = i + 1;
    }
    proof {
        assert(x@.subrange(from as int, x.len() as int) =~= x@.skip(from as int));
    }
    r
}

/// Reads a number without a sign.
fn number_magnitude(x: &Vec<char>) -> (r: Option<u64>)
    ensures
        r == match read_number(x@) {
            Some((d, k)) => Some(decimal_nearest(d, k)),
            None => None,
        },
        r matches Some(m) ==> m <= INFINITY,
{
    let i = skip_digits(x, 0);
    let point = i < x.len() && x[i] == '.';
    let j = if point {
        skip_digits(x, i + 1)
    } else {
        i
    };
    let places: usize = if point {
        j - i - 1
    } else {
        0
    };
    let ghost digits = if point {
        x@.subrange(0, i as int) + x@.subrange(i + 1, j as int)
    } else {
        x@.subrange(0, i as int)
    };
    if i + places == 0 {
        return None;
    }
    proof {
        lemma_digits_end(x@, 0);
        if point {
            lemma_digits_end(x@, i + 1);
        }
        assert(Seq::<char>::empty() + x@.subrange(0, i as int) =~= x@.subrange(0, i as int));
    }
    let none = Digits { count: 0, value: Natural::from_u64(0) };
    let whole = take_digits(x, 0, i, none, Ghost(Seq::empty()));
    let all = if point {
        take_digits(x, i + 1, j, whole, Ghost(x@.subrange(0, i as int)))
    } else {
        whole
    };
    if j == x.len() {
        return Some(
            magnitude_of(
                &all,
                -(places as i128),
                Ghost(digits_value(digits)),
                Ghost(-(places as int)),
            ),
        );
    }
    if x[j] != 'e' && x[j] != 'E' {
        return None;
    }
    match exponent_of(x, j + 1) {
        Some(e) => {
            let ghost exact = read_exponent(x@.skip(j + 1))->0 - places;
            let k: i128 = e - places as i128;
            Some(magnitude_of(&all, k, Ghost(digits_value(digits)), Ghost(exact)))
        },
        None => None,
    }
}

/// Reads an exponent, cut off at a bound.
fn exponent_of(x: &Vec<char>, from: usize) -> (r: Option<i128>)
    requires
        from <= x.len(),
    ensures
        r is Some == read_exponent(x@.skip(from as int)) is Some,
        r matches Some(e) ==> {
            let exact = read_exponent(x@.skip(from as int))->0;
            &&& -FAR <= e <= FAR
            &&& e == exact || (e == FAR && exact >= FAR) || (e == -FAR && exact <= -FAR)
        },
{
    let negative = from < x.len() && x[from] == '-';
    let start: usize = if negative || (from < x.len() && x[from] == '+') {
        from + 1
    } else {
        from
    };
    let ghost tail = x@.skip(from as int);
    let ghost exponent = x@.skip(start as int);
    proof {
        if start == from {
            assert(exponent == tail);
        } else {
            assert(tail.drop_first() =~= exponent);
        }
        lemma_digits_end(exponent, 0);
        lemma_digits_end_skip(x@, start as int);
    }
    let end = skip_digits(x, start);
    if start == x.len() || end != x.len() {
        return None;
    }
    proof {
        lemma_digits_end(x@, start as int);
        lemma_digits_value(exponent);
    }
    let e = take_exponent(x, start);
    if negative {
        Some(-(e as i128))
    } else {
        Some(e as i128)
    }
}

proof fn lemma_digits_end_skip(s: Seq<char>, i: int)
    requires
        0 <= i <= s.len(),
    ensures
        digits_end(s, i) == digits_end(s.skip(i), 0) + i,
{
    lemma_digits_end_shift(s, i, 0);
}

proof fn lemma_digits_end_shift(s: Seq<char>, i: int, j: int)
    requires
        0 <= i <= s.len(),
        0 <= j <= s.len() - i,
    ensures
        digits_end(s, i + j) == digits_end(s.skip(i), j) + i,
    decreases s.len() - i - j,
{
    if i + j < s.len() && is_digit(s[i + j]) {
        lemma_digits_end_shift(s, i, j + 1);
    }
}

/// Reads a double.
pub fn text_to_double(s: &str) -> (r: Option<Double>)
    ensures
        r == read_double(s@),
{
    let all = chars_of(s);
    if all.len() == 0 {
        return None;
    }
    let negative = all[0] == '-';
    let mut body: Vec<char> = all;
    if negative || body[0] == '+' {
        body.remove(0);
        proof {
            assert(body@ =~= s@.drop_first());
        }
    }
    match number_magnitude(&body) {
        Some(m) => Some(Double::with_sign(negative, m)),
        None => {
            let word = text_of(&body);
            if equal_ignoring_case(word.as_str(), "inf") || equal_ignoring_case(
                word.as_str(),
                "infinity",
            ) {
                Some(Double::with_sign(negative, INFINITY))
            } else if equal_ignoring_case(word.as_str(), "nan") {
                Some(Double::with_sign(negative, NAN))
            } else {
                None
            }
        },
    }
}

} // verus!
