//! Natural numbers of any size.
use vstd::arithmetic::power2::{lemma2_to64, lemma_pow2_adds, lemma_pow2_pos, pow2};
use vstd::prelude::*;

verus! {

/// One more than the largest digit of a `Natural`.
pub const BASE: u64 = 0x1_0000_0000;

/// A natural number: its digits to the base 2^32, the lowest first.
pub struct Natural {
    digits: Vec<u32>,
}

/// A digit, zero beyond the last that is held.
spec fn at(s: Seq<u32>, i: int) -> int {
    if 0 <= i < s.len() {
        s[i] as int
    } else {
        0
    }
}

/// The number that the lowest `n` digits make.
spec fn low(s: Seq<u32>, n: nat) -> int
    decreases n,
{
    if n == 0 {
        0
    } else {
        low(s, (n - 1) as nat) + at(s, n - 1) * pow2((32 * (n - 1)) as nat)
    }
}

/// Ten to the power `k`.
pub open spec fn pow10(k: nat) -> int
    decreases k,
{
    if k == 0 {
        1
    } else {
        10 * pow10((k - 1) as nat)
    }
}

pub proof fn lemma_pow10_pos(k: nat)
    ensures
        pow10(k) > 0,
    decreases k,
{
    if k > 0 {
        lemma_pow10_pos((k - 1) as nat);
    }
}

/// Digits beyond the last add nothing.
proof fn lemma_low_beyond(s: Seq<u32>, n: nat)
    requires
        n >= s.len(),
    ensures
        low(s, n) == low(s, s.len()),
    decreases n,
{
    if n > s.len() {
        lemma_low_beyond(s, (n - 1) as nat);
        assert(0 * pow2((32 * (n - 1)) as nat) == 0);
    }
}

/// The lowest digits do not depend on those above them.
proof fn lemma_low_same(s: Seq<u32>, t: Seq<u32>, n: nat)
    requires
        forall|i: int| 0 <= i < n ==> at(s, i) == at(t, i),
    ensures
        low(s, n) == low(t, n),
    decreases n,
{
    if n > 0 {
        lemma_low_same(s, t, (n - 1) as nat);
    }
}

/// `n` digits make less than the weight of the next.
proof fn lemma_low_bound(s: Seq<u32>, n: nat)
    ensures
        0 <= low(s, n) < pow2(32 * n),
    decreases n,
{
    lemma2_to64();
    if n > 0 {
        let m = (n - 1) as nat;
        lemma_low_bound(s, m);
        lemma_pow2_adds(32 * m, 32);
        lemma_pow2_pos(32 * m);
        let w = pow2(32 * m) as int;
        let d = at(s, m as int);
        assert(low(s, m) + d * w < w * 0x1_0000_0000) by (nonlinear_arith)
            requires
                0 <= low(s, m) < w,
                0 <= d <= 0xffff_ffff,
        ;
        assert(d * w >= 0) by (nonlinear_arith)
            requires
                d >= 0,
                w >= 0,
        ;
    }
}

impl Natural {
    pub closed spec fn value(self) -> int {
        low(self.digits@, self.digits@.len())
    }

    pub fn from_u64(n: u64) -> (r: Natural)
        ensures
            r.value() == n,
    {
        let mut digits: Vec<u32> = Vec::new();
        digits.push((n % BASE) as u32);
        digits.push((n / BASE) as u32);
        proof {
            lemma2_to64();
            let x = (n / BASE) as int;
            let y = (n % BASE) as int;
            let s = digits@;
            assert(at(s, 0) == y && at(s, 1) == x);
            assert(low(s, 0) == 0);
            assert(low(s, 1) == low(s, 0) + y * pow2(0));
            assert(low(s, 2) == low(s, 1) + x * pow2(32));
            assert(y * 1 == y);
            assert(x * pow2(32) == x * 0x1_0000_0000);
        }
        Natural { digits }
    }

    pub fn copy(&self) -> (r: Natural)
        ensures
            r.value() == self.value(),
    {
        Natural { digits: self.digits.clone() }
    }

    /// Multiplies by one factor and adds another number.
    pub fn mul_add(&self, factor: u32, extra: u32) -> (r: Natural)
        ensures
            r.value() == self.value() * factor + extra,
    {
        let mut digits: Vec<u32> = Vec::new();
        let mut carry: u64 = extra as u64;
        let mut i: usize = 0;
        proof {
            lemma2_to64();
            assert(0 * factor == 0);
            assert(carry * pow2(0) == carry);
        }
        while i < self.digits.len()
            invariant
                i <= self.digits.len(),
                digits.len() == i,
                carry < BASE,
                low(digits@, i as nat) + carry * pow2((32 * i) as nat) == low(
                    self.digits@,
                    i as nat,
                ) * factor + extra,
            decreases self.digits.len() - i,
        {
            let d: u32 = self.digits[i];
            proof {
                assert(d * factor + carry < 0x1_0000_0000_0000_0000) by (nonlinear_arith)
                    requires
                        d <= 0xffff_ffff,
                        factor <= 0xffff_ffff,
                        carry < 0x1_0000_0000,
                ;
                assert(d * factor <= 0xffff_ffff * 0xffff_ffff) by (nonlinear_arith)
                    requires
                        0 <= d <= 0xffff_ffff,
                        0 <= factor <= 0xffff_ffff,
                ;
            }
            let t: u64 = d as u64 * factor as u64 + carry;
            let next: u32 = (t % BASE) as u32;
            let ghost before = digits@;
            digits.push(next);
            proof {
                lemma_low_same(before, digits@, i as nat);
                lemma_pow2_adds((32 * i) as nat, 32);
                lemma2_to64();
                let w = pow2((32 * i) as nat) as int;
                let c = (t / BASE) as int;
                let x = low(self.digits@, i as nat);
                assert(next * w + c * (w * 0x1_0000_0000) == (next + c * 0x1_0000_0000) * w)
                    by (nonlinear_arith);
                assert((d * factor + carry) * w == (d * w) * factor + carry * w)
                    by (nonlinear_arith);
                assert((x + d * w) * factor == x * factor + (d * w) * factor) by (nonlinear_arith);
                assert(t == next + c * 0x1_0000_0000);
                assert(low(digits@, (i + 1) as nat) == low(digits@, i as nat) + next * w);
                assert(low(self.digits@, (i + 1) as nat) == x + d * w);
            }
            carry = t / BASE;
            i = i + 1;
        }
        if carry > 0 {
            let ghost before = digits@;
            digits.push(carry as u32);
            proof {
                lemma_low_same(before, digits@, i as nat);
            }
        }
        Natural { digits }
    }

    fn digit(&self, i: usize) -> (r: u32)
        ensures
            r == at(self.digits@, i as int),
    {
        if i < self.digits.len() {
            self.digits[i]
        } else {
            0
        }
    }

    /// Whether the number is another at most.
    pub fn at_most(&self, other: &Natural) -> (r: bool)
        ensures
            r == (self.value() <= other.value()),
    {
        let n: usize = if self.digits.len() >= other.digits.len() {
            self.digits.len()
        } else {
            other.digits.len()
        };
        let mut i: usize = n;
        let ghost a = self.digits@;
        let ghost b = other.digits@;
        proof {
            lemma_low_beyond(a, n as nat);
            lemma_low_beyond(b, n as nat);
        }
        while i > 0
            invariant
                i <= n,
                a == self.digits@,
                b == other.digits@,
                self.value() - low(a, i as nat) == other.value() - low(b, i as nat),
            decreases i,
        {
            let x = self.digit(i - 1);
            let y = other.digit(i - 1);
            proof {
                let m = (i - 1) as nat;
                lemma_low_bound(a, m);
                lemma_low_bound(b, m);
                let w = pow2((32 * (i - 1)) as nat) as int;
                assert(x < y ==> x * w + w <= y * w) by (nonlinear_arith)
                    requires
                        w > 0,
                ;
                assert(y < x ==> y * w + w <= x * w) by (nonlinear_arith)
                    requires
                        w > 0,
                ;
            }
            if x < y {
                return true;
            }
            if x > y {
                return false;
            }
            i = i - 1;
        }
        true
    }

    /// Multiplies by a power of two.
    pub fn times_pow2(&self, k: u32) -> (r: Natural)
        ensures
            r.value() == self.value() * pow2(k as nat),
    {
        let mut r = self.copy();
        let mut i: u32 = 0;
        proof {
            lemma2_to64();
            assert(self.value() * 1 == self.value());
        }
        while i < k
            invariant
                i <= k,
                r.value() == self.value() * pow2(i as nat),
            decreases k - i,
        {
            let (factor, step): (u32, u32) = if k - i >= 31 {
                (0x8000_0000, 31)
            } else if k - i >= 8 {
                (0x100, 8)
            } else {
                (2, 1)
            };
            proof {
                lemma2_to64();
                lemma_pow2_adds(i as nat, step as nat);
                let p = pow2(i as nat) as int;
                assert((self.value() * p) * factor == self.value() * (p * factor))
                    by (nonlinear_arith);
            }
            r = r.mul_add(factor, 0);
            i = i + step;
        }
        r
    }

    /// Multiplies by a power of ten.
    pub fn times_pow10(&self, k: u128) -> (r: Natural)
        ensures
            r.value() == self.value() * pow10(k as nat),
    {
        let mut r = self.copy();
        let mut i: u128 = 0;
        proof {
            assert(self.value() * 1 == self.value());
        }
        while i < k
            invariant
                i <= k,
                r.value() == self.value() * pow10(i as nat),
            decreases k - i,
        {
            let (factor, step): (u32, u128) = if k - i >= 9 {
                (1_000_000_000, 9)
            } else {
                (10, 1)
            };
            proof {
                reveal_with_fuel(pow10, 10);
                let p = pow10(i as nat);
                assert(pow10((i + step) as nat) == factor * p);
                assert((self.value() * p) * factor == self.value() * (factor * p))
                    by (nonlinear_arith);
            }
            r = r.mul_add(factor, 0);
            i = i + step;
        }
        r
    }

    /// No natural number is negative.
    pub proof fn lemma_not_negative(self)
        ensures
            self.value() >= 0,
    {
        lemma_low_bound(self.digits@, self.digits@.len());
    }

    pub fn is_zero(&self) -> (r: bool)
        ensures
            r == (self.value() == 0),
    {
        proof {
            lemma_low_bound(self.digits@, self.digits@.len());
        }
        self.at_most(&Natural::from_u64(0))
    }
}

} // verus!
