use merksql::decimal::text_to_double;
use merksql::double::{Double, Rounding};
use merksql::shortest::{double_to_debug, double_to_text};

fn double(x: f64) -> Double {
    Double::from_bits(x.to_bits())
}

fn number(d: Double) -> f64 {
    f64::from_bits(d.to_bits())
}

/// Numbers that differ in their bits, or are both none.
fn differs(a: f64, b: f64) -> bool {
    if a.is_nan() || b.is_nan() {
        a.is_nan() != b.is_nan()
    } else {
        a.to_bits() != b.to_bits()
    }
}

fn edges() -> Vec<f64> {
    vec![
        0.0,
        -0.0,
        1.0,
        -1.0,
        0.1,
        0.2,
        0.3,
        1.0 / 3.0,
        2.5,
        -2.5,
        3.5,
        0.5,
        -0.5,
        1.5,
        1e15,
        1e16,
        1e17,
        1e21,
        1e22,
        1e23,
        123456789.125,
        4503599627370496.5,
        4503599627370497.5,
        9007199254740991.0,
        9007199254740992.0,
        9007199254740993.0,
        9223372036854775807.0,
        -9223372036854775808.0,
        1.8446744073709552e19,
        0.0001,
        0.00009999,
        0.00001,
        1e-7,
        f64::MIN_POSITIVE,
        2.2250738585072011e-308,
        5e-324,
        -5e-324,
        f64::MAX,
        f64::MIN,
        f64::INFINITY,
        f64::NEG_INFINITY,
        f64::NAN,
        f64::EPSILON,
        1125899906842624.25,
        2251799813685248.5,
        1125899906842624.125,
    ]
}

/// Numbers of all magnitudes, and others that are close to each other.
fn sample(count: usize) -> Vec<f64> {
    let mut numbers = edges();
    let mut state: u64 = 0x9e3779b97f4a7c15;
    for i in 0..count {
        state ^= state << 13;
        state ^= state >> 7;
        state ^= state << 17;
        numbers.push(f64::from_bits(state));
        let near = (state % 2000000) as f64 / 100.0 - 10000.0;
        numbers.push(if i % 2 == 0 { near } else { near / 7.0 });
    }
    numbers
}

#[test]
fn arithmetic_is_that_of_the_machine() {
    let numbers = sample(60);
    for &x in &numbers {
        for &y in &numbers {
            let (a, b) = (double(x), double(y));
            assert!(!differs(number(a.plus(b)), x + y), "{x:e} + {y:e}");
            assert!(!differs(number(a.minus(b)), x - y), "{x:e} - {y:e}");
            assert!(!differs(number(a.times(b)), x * y), "{x:e} * {y:e}");
            assert!(!differs(number(a.divided_by(b)), x / y), "{x:e} / {y:e}");
            assert_eq!(a.is_below(b), x < y, "{x:e} < {y:e}");
            assert_eq!(a.is_same(b), x == y, "{x:e} == {y:e}");
        }
    }
}

#[test]
fn remainder_is_that_of_the_machine() {
    let numbers = sample(40);
    for &x in &numbers {
        for &y in &numbers {
            let r = double(x).modulo(double(y));
            assert!(!differs(number(r), x % y), "{x:e} % {y:e}");
        }
    }
}

#[test]
fn signs_are_those_of_the_machine() {
    for x in sample(500) {
        let d = double(x);
        assert!(!differs(number(d.negate()), -x));
        assert!(!differs(number(d.absolute()), x.abs()));
        assert_eq!(d.is_nan(), x.is_nan());
        assert_eq!(d.is_zero(), x == 0.0);
        assert_eq!(d.is_finite(), x.is_finite());
    }
}

#[test]
fn integers_are_those_of_the_machine() {
    for x in sample(100) {
        let d = double(x);
        assert_eq!(d.to_i64(Rounding::Truncate), x as i64, "{x:e}");
        assert_eq!(d.to_i64(Rounding::Floor), x.floor() as i64, "{x:e}");
        assert_eq!(d.to_i64(Rounding::Ceiling), x.ceil() as i64, "{x:e}");
        assert_eq!(d.to_i64(Rounding::Nearest), x.round() as i64, "{x:e}");
    }
    for i in [
        0,
        1,
        -1,
        i64::MAX,
        i64::MIN,
        i64::MAX - 511,
        i64::MAX - 512,
        9007199254740993,
        -9007199254740993,
        123456789012345678,
    ] {
        assert!(!differs(number(Double::from_i64(i)), i as f64), "{i}");
    }
}

#[test]
fn texts_are_those_of_the_machine() {
    for x in sample(100) {
        assert_eq!(double_to_text(double(x)), format!("{x}"));
        assert_eq!(double_to_debug(double(x)), format!("{x:?}"));
    }
}

#[test]
fn neighbours_of_powers_have_the_texts_of_the_machine() {
    let mut x: f64 = 5e-324;
    while x.is_finite() {
        for bits in [x.to_bits() - 1, x.to_bits(), x.to_bits() + 1] {
            let y = f64::from_bits(bits);
            assert_eq!(double_to_text(double(y)), format!("{y}"));
        }
        x = x * 128.0;
    }
    for k in (-320..309).step_by(7) {
        let y: f64 = format!("1e{k}").parse().unwrap();
        assert_eq!(double_to_debug(double(y)), format!("{y:?}"));
    }
}

#[test]
fn halves_and_quarters_have_the_texts_of_the_machine() {
    for i in (0..2000u64).step_by(9) {
        let y = 1125899906842624.0 + i as f64 * 0.25;
        assert_eq!(double_to_text(double(y)), format!("{y}"));
        let z = 562949953421312.0 + i as f64 * 0.125;
        assert_eq!(double_to_text(double(z)), format!("{z}"));
    }
}

#[test]
fn texts_are_read_as_by_the_machine() {
    for text in [
        "0", "-0", "+0", "1", "-1", "1.5", ".5", "5.", "-.5", ".", "", "-", "+", "1e5", "1E5", "1e+5",
        "1e-5", "1e", "e5", "1e5.5", "1_000", " 1", "1 ", "inf", "-inf", "+inf", "INF", "infinity",
        "-Infinity", "nan", "NaN", "-nan", "infinit", "1e400", "-1e400", "1e-400", "0e400",
        "179769313486231580793728971405303415079934132710037826936173778980444968292764750946649017977587207096330286416692887910946555547851940402630657488671505820681908902000708383676273854845817711531764475730270069855571366959622842914819860834936475292719074168444365510704342711559699508093042880",
        "179769313486231580793728971405303415079934132710037826936173778980444968292764750946649017977587207096330286416692887910946555547851940402630657488671505820681908902000708383676273854845817711531764475730270069855571366959622842914819860834936475292719074168444365510704342711559699508093042879",
        "2.4703282292062327208e-324", "2.4703282292062328e-324", "4.9e-324",
        "9007199254740993", "9007199254740992.9999999999999999999999", "9007199254740993.0000000000000000000001",
        "0.1", "0.30000000000000004", "123456789012345678901234567890", "3.141592653589793238462643383279",
        "1e99999999999999999999", "1e-99999999999999999999", "00000001.50000", "1.7976931348623159e308",
        "0x10", "1f", "١",
    ] {
        let expected: Option<f64> = text.parse().ok();
        let read = text_to_double(text).map(number);
        match (read, expected) {
            (Some(a), Some(b)) => assert!(!differs(a, b), "{text}: {a:e} {b:e}"),
            (None, None) => {}
            (a, b) => panic!("{text}: {a:?} {b:?}"),
        }
    }
    for x in sample(400) {
        let text = format!("{x}");
        assert!(!differs(number(text_to_double(&text).unwrap()), x), "{text}");
        let text = format!("{x:e}");
        assert!(!differs(number(text_to_double(&text).unwrap()), x), "{text}");
    }
}
