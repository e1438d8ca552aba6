//! Laws of how numbers are read.
use crate::decimal::{decimal_nearest, digits_end, digits_value, read_double, read_number};
use crate::double::laws::{apart, lemma_none_nearer, lemma_signed, lemma_value_not_negative};
use crate::double::{magnitude_value, nearest, signed, unit, Double, INFINITY};
use crate::natural::{lemma_pow10_pos, pow10};
use crate::text::laws::number_of;
use crate::text::{is_digit, read_digits, read_integer};
use vstd::arithmetic::power2::lemma_pow2_pos;
use vstd::prelude::*;

verus! {

/// Whether a text is made of digits.
pub open spec fn all_digits(s: Seq<char>) -> bool {
    forall|i: int| 0 <= i < s.len() ==> '0' <= #[trigger] s[i] <= '9'
}

proof fn lemma_run(s: Seq<char>, i: int, j: int)
    requires
        0 <= i <= j <= s.len(),
        forall|k: int| i <= k < j ==> '0' <= #[trigger] s[k] <= '9',
        j < s.len() ==> !is_digit(s[j]),
    ensures
        digits_end(s, i) == j,
    decreases j - i,
{
    if i < j {
        assert('0' <= s[i] <= '9');
        lemma_run(s, i + 1, j);
    }
}

proof fn lemma_number(s: Seq<char>)
    requires
        all_digits(s),
    ensures
        digits_value(s) == number_of(s),
        number_of(s) >= 0,
    decreases s.len(),
{
    if s.len() > 0 {
        let t = s.drop_last();
        assert(all_digits(t)) by {
            assert forall|i: int| 0 <= i < t.len() implies '0' <= #[trigger] t[i] <= '9' by {
                assert(t[i] == s[i]);
            }
        }
        lemma_number(t);
        assert('0' <= s[s.len() - 1] <= '9');
    }
}

/// Digits with a point among them are read as the double nearest to the number that they
/// stand for: times a power of ten for each digit behind the point, none is nearer to the
/// number that all digits make. A minus before them turns it into its opposite.
pub proof fn lemma_double_read(whole: Seq<char>, behind: Seq<char>, c: Double)
    requires
        all_digits(whole),
        all_digits(behind),
        whole.len() > 0,
        c.magnitude() < INFINITY,
    ensures
        ({
            let text = whole + seq!['.'] + behind;
            let exact = number_of(whole + behind) * unit();
            let places = pow10(behind.len());
            &&& read_double(text) matches Some(d) && !d.nan() && !d.negative() && (!d.infinite()
                ==> apart(d.value() * places, exact) <= apart(c.value() * places, exact))
            &&& read_double(seq!['-'] + text) matches Some(e) && e.negative() && Some(
                signed(false, e.magnitude()),
            ) == read_double(text)
        }),
{
    let text = whole + seq!['.'] + behind;
    let all = whole + behind;
    let n = whole.len() as int;
    assert forall|k: int| 0 <= k < n implies '0' <= #[trigger] text[k] <= '9' by {
        assert(text[k] == whole[k]);
    }
    assert(text[n] == '.');
    lemma_run(text, 0, n);
    assert forall|k: int| n + 1 <= k < text.len() implies '0' <= #[trigger] text[k] <= '9' by {
        assert(text[k] == behind[k - n - 1]);
    }
    lemma_run(text, n + 1, text.len() as int);
    assert(text.subrange(0, n) + text.subrange(n + 1, text.len() as int) =~= all);
    assert(all_digits(all));
    lemma_number(all);
    let d = number_of(all);
    assert(read_number(text) == Some((d, -(behind.len() as int))));
    assert('0' <= whole[0] <= '9');
    assert(text[0] == whole[0]);
    let negated = seq!['-'] + text;
    assert(negated.drop_first() =~= text);
    let u = unit();
    lemma_pow2_pos(1074);
    lemma_pow10_pos(behind.len());
    let m = c.magnitude() as int;
    lemma_value_not_negative(m);
    assert(d * u >= 0) by (nonlinear_arith)
        requires
            d >= 0,
            u > 0,
    ;
    let p = pow10(behind.len());
    assert(decimal_nearest(d, -(behind.len() as int)) == nearest(d * u, p)) by {
        if behind.len() == 0 {
            assert(pow10(0) == 1);
            assert(d * pow10(0) * u == d * u);
        }
    }
    let r = nearest(d * u, p);
    lemma_none_nearer(d * u, p, m);
    lemma_signed(false, r);
    lemma_signed(true, r);
    assert(p * magnitude_value(r as int) == magnitude_value(r as int) * p) by (nonlinear_arith);
    assert(p * magnitude_value(m) == magnitude_value(m) * p) by (nonlinear_arith);
    assert((-magnitude_value(m)) * p == -(magnitude_value(m) * p)) by (nonlinear_arith);
    assert(magnitude_value(m) * p >= 0) by (nonlinear_arith)
        requires
            magnitude_value(m) >= 0,
            p > 0,
    ;
}

proof fn lemma_read_digits(s: Seq<char>, acc: int, negative: bool)
    requires
        if negative {
            i64::MIN <= acc <= 0
        } else {
            0 <= acc <= i64::MAX
        },
    ensures
        read_digits(s, acc, negative) matches Ok(i) ==> all_digits(s) && i == acc * power_of_ten(
            s.len(),
        ) + if negative {
            -number_of(s)
        } else {
            number_of(s)
        },
        all_digits(s) && i64::MIN <= (acc * power_of_ten(s.len()) + if negative {
            -number_of(s)
        } else {
            number_of(s)
        }) <= i64::MAX ==> read_digits(s, acc, negative) is Ok,
    decreases s.len(),
{
    if s.len() == 0 {
        assert(power_of_ten(s.len()) == 1);
        assert(acc * power_of_ten(s.len()) == acc) by (nonlinear_arith)
            requires
                power_of_ten(s.len()) == 1,
        ;
    } else {
        let t = s.drop_first();
        let next = if negative {
            acc * 10 - (s[0] as int - 0x30)
        } else {
            acc * 10 + (s[0] as int - 0x30)
        };
        lemma_number_first(s);
        let k = power_of_ten(t.len());
        lemma_power_positive(t.len());
        assert(power_of_ten(s.len()) == 10 * k);
        assert((acc * 10 - (s[0] as int - 0x30)) * k == acc * (10 * k) - (s[0] as int - 0x30) * k)
            by (nonlinear_arith);
        assert((acc * 10 + (s[0] as int - 0x30)) * k == acc * (10 * k) + (s[0] as int - 0x30) * k)
            by (nonlinear_arith);
        if all_digits(s) {
            assert('0' <= s[0] <= '9');
            assert(all_digits(t)) by {
                assert forall|i: int| 0 <= i < t.len() implies '0' <= #[trigger] t[i] <= '9' by {
                    assert(t[i] == s[i + 1]);
                }
            }
            lemma_number(t);
            assert(next > i64::MAX && !negative ==> next * k >= next) by (nonlinear_arith)
                requires
                    k >= 1,
                    next > i64::MAX ==> next >= 0,
            ;
            assert(next < i64::MIN && negative ==> next * k <= next) by (nonlinear_arith)
                requires
                    k >= 1,
                    next < i64::MIN ==> next <= 0,
            ;
        }
        if is_digit(s[0]) && i64::MIN <= next <= i64::MAX {
            lemma_read_digits(t, next, negative);
            if all_digits(t) {
                assert(all_digits(s)) by {
                    assert forall|i: int| 0 <= i < s.len() implies '0' <= #[trigger] s[i]
                        <= '9' by {
                        if i > 0 {
                            assert(s[i] == t[i - 1]);
                        }
                    }
                }
            }
        }
    }
}

/// Ten times itself so many times.
pub open spec fn power_of_ten(n: nat) -> int
    decreases n,
{
    if n == 0 {
        1
    } else {
        10 * power_of_ten((n - 1) as nat)
    }
}

proof fn lemma_power_positive(n: nat)
    ensures
        power_of_ten(n) >= 1,
    decreases n,
{
    if n > 0 {
        lemma_power_positive((n - 1) as nat);
    }
}

proof fn lemma_number_first(s: Seq<char>)
    requires
        s.len() > 0,
    ensures
        number_of(s) == (s[0] as int - 0x30) * power_of_ten((s.len() - 1) as nat) + number_of(
            s.drop_first(),
        ),
    decreases s.len(),
{
    if s.len() == 1 {
        reveal_with_fuel(number_of, 2);
        assert((s[0] as int - 0x30) * 1 == s[0] as int - 0x30);
    } else {
        let t = s.drop_last();
        lemma_number_first(t);
        assert(t.drop_first() =~= s.drop_first().drop_last());
        assert(s.drop_first().last() == s.last());
        let x = s[0] as int - 0x30;
        let k = power_of_ten((t.len() - 1) as nat);
        assert(10 * (x * k) == x * (10 * k)) by (nonlinear_arith);
    }
}

/// An integer is read exactly in a text of digits, with a sign before them or not, that
/// stands for a number in range: as that number.
pub proof fn lemma_integer_read(digits: Seq<char>)
    requires
        digits.len() > 0,
    ensures
        match read_integer(digits) {
            Ok(i) => digits[0] == '-' || digits[0] == '+' || (all_digits(digits) && i == number_of(
                digits,
            )),
            Err(_) => !all_digits(digits) || number_of(digits) > i64::MAX,
        },
        match read_integer(seq!['-'] + digits) {
            Ok(i) => all_digits(digits) && i == -number_of(digits),
            Err(_) => !all_digits(digits) || -number_of(digits) < i64::MIN,
        },
        match read_integer(seq!['+'] + digits) {
            Ok(i) => all_digits(digits) && i == number_of(digits),
            Err(_) => !all_digits(digits) || number_of(digits) > i64::MAX,
        },
        read_integer(Seq::empty()) is Err,
{
    lemma_read_digits(digits, 0, false);
    lemma_read_digits(digits, 0, true);
    assert((seq!['-'] + digits).drop_first() =~= digits);
    assert((seq!['+'] + digits).drop_first() =~= digits);
    if all_digits(digits) {
        lemma_number(digits);
        assert('0' <= digits[0] <= '9');
    }
}

} // verus!
