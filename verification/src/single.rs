//! Single-precision numbers, computed in whole numbers.
//!
//! The bits of a number are its sign and its code. Codes count the numbers
//! from zero up: the first 2^24 of them are whole multiples of 2^-149, and
//! from there on 2^23 codes further is twice the number.

use vstd::prelude::*;

use crate::double;

verus! {

/// A single-precision number, by its bits.
#[derive(Debug, Clone, Copy, PartialEq, Eq, Structural)]
pub struct Single {
    pub bits: u32,
}

/// The code of the infinite number. Larger codes are no numbers.
pub const INFINITE: u32 = 0x7f80_0000;

/// The bit of the sign.
pub const SIGN: u32 = 0x8000_0000;

/// The bits of no number.
pub const NAN: u32 = 0x7fc0_0000;

/// The bits of one.
pub const ONE: u32 = 0x3f80_0000;

/// The bits of two.
pub const TWO: u32 = 0x4000_0000;

/// What a code of a finite number stands for, in multiples of 2^-149.
pub open spec fn amount(code: int) -> int
    decreases code,
{
    if code < 0x100_0000 {
        code
    } else {
        2 * amount(code - 0x80_0000)
    }
}

/// One, in multiples of 2^-149.
pub open spec fn unit() -> int {
    vstd::arithmetic::power2::pow2(149) as int
}

/// The code of the number nearest to `n / d` multiples of 2^-149, however
/// large; of two, the one that ends in an even digit.
pub open spec fn near(n: int, d: int) -> int
    decreases n - d,
{
    if d <= 0 || n < 0x100_0000 * d {
        double::nearest(n, d)
    } else {
        near(n, 2 * d) + 0x80_0000
    }
}

/// The number with a sign and a code; it is infinite from that code on.
pub open spec fn coded(negative: bool, code: int) -> Single {
    let code = if code < INFINITE { code } else { INFINITE as int };
    Single { bits: (if negative { code + SIGN } else { code }) as u32 }
}

/// The number nearest to a whole one.
pub open spec fn of_int(n: int) -> Single {
    coded(n < 0, near(size(n) * unit(), 1))
}

/// A number without its sign.
pub open spec fn size(n: int) -> int {
    if n < 0 {
        -n
    } else {
        n
    }
}

impl Single {
    pub open spec fn negative(self) -> bool {
        self.bits >= SIGN
    }

    pub open spec fn code(self) -> int {
        if self.bits >= SIGN {
            self.bits - SIGN
        } else {
            self.bits as int
        }
    }

    pub open spec fn no_number(self) -> bool {
        self.code() > INFINITE
    }

    pub open spec fn infinite(self) -> bool {
        self.code() == INFINITE
    }

    pub open spec fn finite(self) -> bool {
        self.code() < INFINITE
    }

    /// A finite number in multiples of 2^-149.
    pub open spec fn value(self) -> int {
        if self.negative() {
            -amount(self.code())
        } else {
            amount(self.code())
        }
    }

    /// What numbers are ordered by.
    pub open spec fn place(self) -> int {
        if self.negative() {
            -self.code()
        } else {
            self.code()
        }
    }

    pub open spec fn below(self, other: Single) -> bool {
        !self.no_number() && !other.no_number() && self.place() < other.place()
    }

    pub open spec fn up_to(self, other: Single) -> bool {
        !self.no_number() && !other.no_number() && self.place() <= other.place()
    }

    pub open spec fn flipped(self) -> Single {
        Single { bits: (if self.bits >= SIGN { self.bits - SIGN } else { self.bits + SIGN }) as u32 }
    }

    pub open spec fn unsigned(self) -> Single {
        Single { bits: self.code() as u32 }
    }

    pub open spec fn plus(self, other: Single) -> Single {
        let sum = self.value() + other.value();
        if self.no_number() || other.no_number() {
            Single { bits: NAN }
        } else if self.infinite() {
            if other.infinite() && self.negative() != other.negative() {
                Single { bits: NAN }
            } else {
                self
            }
        } else if other.infinite() {
            other
        } else if sum == 0 {
            coded(self.negative() && other.negative(), 0)
        } else {
            coded(sum < 0, near(size(sum), 1))
        }
    }

    pub open spec fn minus(self, other: Single) -> Single {
        self.plus(other.flipped())
    }

    pub open spec fn times(self, other: Single) -> Single {
        let negative = self.negative() != other.negative();
        if self.no_number() || other.no_number() || (self.infinite() && other.code() == 0) || (
        other.infinite() && self.code() == 0) {
            Single { bits: NAN }
        } else if self.infinite() || other.infinite() {
            coded(negative, INFINITE as int)
        } else {
            coded(negative, near(amount(self.code()) * amount(other.code()), unit()))
        }
    }

    pub open spec fn over(self, other: Single) -> Single {
        let negative = self.negative() != other.negative();
        if self.no_number() || other.no_number() || (self.infinite() && other.infinite()) || (
        self.code() == 0 && other.code() == 0) {
            Single { bits: NAN }
        } else if self.infinite() || other.code() == 0 {
            coded(negative, INFINITE as int)
        } else if other.infinite() {
            coded(negative, 0)
        } else {
            coded(negative, near(amount(self.code()) * unit(), amount(other.code())))
        }
    }

    /// The larger of two; the other where one is no number.
    pub open spec fn larger(self, other: Single) -> Single {
        if self.no_number() || self.below(other) {
            other
        } else {
            self
        }
    }

    /// The smaller of two; the other where one is no number.
    pub open spec fn smaller(self, other: Single) -> Single {
        if self.no_number() || other.below(self) {
            other
        } else {
            self
        }
    }

    /// The number, brought between two others.
    pub open spec fn within(self, least: Single, most: Single) -> Single {
        if self.below(least) {
            least
        } else if most.below(self) {
            most
        } else {
            self
        }
    }

    /// The whole number nearest to a finite one without its sign; halves away
    /// from zero.
    pub open spec fn whole(self) -> int {
        (2 * amount(self.code()) + unit()) / (2 * unit())
    }

    /// A finite number rounded to a whole one; halves away from zero.
    pub open spec fn rounded(self) -> Single {
        coded(self.negative(), near(self.whole() * unit(), 1))
    }

    /// The number with as many decimals as `tens` has zeros, without its sign
    /// and its point; ties to even.
    pub open spec fn decimals(self, tens: int) -> int {
        double::nearest(amount(self.code()) * tens, unit())
    }
}

/// What a whole number is as a 32-bit one.
pub open spec fn saturated(n: int) -> int {
    if n < i32::MIN {
        i32::MIN as int
    } else if n > i32::MAX {
        i32::MAX as int
    } else {
        n
    }
}

proof fn lemma_nearest_scale(n: int, d: int)
    requires
        0 <= n,
        0 < d,
    ensures
        double::nearest(2 * n, 2 * d) == double::nearest(n, d),
{
    let q = n / d;
    let r = n % d;
    assert(d * q + r == n && 0 <= r < d) by (nonlinear_arith)
        requires
            q == n / d,
            r == n % d,
            0 < d,
    ;
    assert(2 * n == q * (2 * d) + 2 * r) by (nonlinear_arith)
        requires
            d * q + r == n,
    ;
    vstd::arithmetic::div_mod::lemma_fundamental_div_mod_converse(2 * n, 2 * d, q, 2 * r);
}

/// A fraction's code does not depend on how it is written.
proof fn lemma_near_scale(n: int, d: int)
    requires
        0 <= n,
        0 < d,
    ensures
        near(2 * n, 2 * d) == near(n, d),
    decreases n - d,
{
    lemma_nearest_scale(n, d);
    if n >= 0x100_0000 * d {
        lemma_near_scale(n, 2 * d);
    }
}

/// Twice a number has a code 2^23 further, once all digits are in use.
pub proof fn lemma_near_shift(n: int, d: int, k: nat)
    requires
        0 < d,
        0x80_0000 * d <= n,
    ensures
        near(n * vstd::arithmetic::power2::pow2(k), d) == near(n, d) + k * 0x80_0000,
    decreases k,
{
    vstd::arithmetic::power2::lemma2_to64();
    if k == 0 {
        assert(n * 1 == n);
    } else {
        let j = (k - 1) as nat;
        let p = vstd::arithmetic::power2::pow2(j) as int;
        vstd::arithmetic::power2::lemma_pow2_unfold(k);
        vstd::arithmetic::power2::lemma_pow2_pos(j);
        let m = n * p;
        assert(m >= n) by (nonlinear_arith)
            requires
                m == n * p,
                p >= 1,
                n >= 0,
        ;
        assert(n * (2 * p) == 2 * m) by (nonlinear_arith)
            requires
                m == n * p,
        ;
        lemma_near_scale(m, d);
        lemma_near_shift(n, d, j);
    }
}

/// A fraction's code does not depend on how it is written.
pub proof fn lemma_near_cancel(n: int, d: int, k: nat)
    requires
        0 <= n,
        0 < d,
    ensures
        near(
            n * vstd::arithmetic::power2::pow2(k),
            d * vstd::arithmetic::power2::pow2(k),
        ) == near(n, d),
    decreases k,
{
    vstd::arithmetic::power2::lemma2_to64();
    if k == 0 {
        assert(n * 1 == n && d * 1 == d);
    } else {
        let j = (k - 1) as nat;
        let p = vstd::arithmetic::power2::pow2(j) as int;
        vstd::arithmetic::power2::lemma_pow2_unfold(k);
        vstd::arithmetic::power2::lemma_pow2_pos(j);
        assert(n * (2 * p) == 2 * (n * p) && d * (2 * p) == 2 * (d * p)) by (nonlinear_arith);
        assert(n * p >= 0 && d * p >= 1) by (nonlinear_arith)
            requires
                n >= 0,
                d >= 1,
                p >= 1,
        ;
        lemma_near_scale(n * p, d * p);
        lemma_near_cancel(n, d, j);
    }
}

/// Whatever is close to a number that uses all digits has its code.
pub proof fn lemma_near_close(m: int, e: nat, d: int, off: int)
    requires
        0x80_0000 <= m < 0x100_0000,
        0 < d,
        4 * size(off) < vstd::arithmetic::power2::pow2(e) * d,
    ensures
        near(m * vstd::arithmetic::power2::pow2(e) * d + off, d) == m + e * 0x80_0000,
    decreases e,
{
    vstd::arithmetic::power2::lemma2_to64();
    let p = vstd::arithmetic::power2::pow2(e) as int;
    let n = m * p * d + off;
    if e == 0 {
        assert(m * 1 * d == m * d) by (nonlinear_arith);
        assert(1 * d == d);
        assert(m * d <= 0xff_ffff * d) by (nonlinear_arith)
            requires
                m <= 0xff_ffff,
                0 < d,
        ;
        assert(n < 0x100_0000 * d);
        lemma_nearest_close(m, d, off);
    } else {
        let j = (e - 1) as nat;
        let q = vstd::arithmetic::power2::pow2(j) as int;
        vstd::arithmetic::power2::lemma_pow2_unfold(e);
        vstd::arithmetic::power2::lemma_pow2_pos(j);
        assert(m * p * d == m * q * (2 * d) && p * d == q * (2 * d)) by (nonlinear_arith)
            requires
                p == 2 * q,
        ;
        if n >= 0x100_0000 * d {
            lemma_near_close(m, j, 2 * d, off);
        } else {
            // Just below twice the smallest number with all digits.
            if e >= 2 {
                vstd::arithmetic::power2::lemma_pow2_unfold(j);
                let h = vstd::arithmetic::power2::pow2((j - 1) as nat) as int;
                vstd::arithmetic::power2::lemma_pow2_pos((j - 1) as nat);
                assert(m * p * d - p * d >= 0x100_0000 * d) by (nonlinear_arith)
                    requires
                        p == 4 * h,
                        h >= 1,
                        m >= 0x80_0000,
                        0 < d,
                ;
                assert(false);
            }
            assert(p == 2);
            if m > 0x80_0000 {
                assert(m * p * d >= 0x100_0002 * d) by (nonlinear_arith)
                    requires
                        p == 2,
                        m >= 0x80_0001,
                        0 < d,
                ;
                assert(p * d == 2 * d);
                assert(false);
            }
            assert(m * p * d == 0x100_0000 * d) by (nonlinear_arith)
                requires
                    p == 2,
                    m == 0x80_0000,
            ;
            assert(p * d == 2 * d);
            lemma_nearest_close(0x100_0000, d, off);
        }
    }
}

proof fn lemma_nearest_close(m: int, d: int, off: int)
    requires
        0 <= m,
        0 < d,
        2 * size(off) < d,
    ensures
        double::nearest(m * d + off, d) == m,
{
    let n = m * d + off;
    if off >= 0 {
        vstd::arithmetic::div_mod::lemma_fundamental_div_mod_converse(n, d, m, off);
    } else {
        assert(n == (m - 1) * d + (d + off)) by (nonlinear_arith)
            requires
                n == m * d + off,
        ;
        vstd::arithmetic::div_mod::lemma_fundamental_div_mod_converse(n, d, m - 1, d + off);
    }
}

/// No number is closer to a fraction than the one that it is rounded to.
pub proof fn rounding_gives_the_nearest_number(n: int, d: int, code: int)
    requires
        0 <= n,
        0 < d,
        0 <= code,
    ensures
        size(amount(near(n, d)) * d - n) <= size(amount(code) * d - n),
    decreases n - d,
{
    lemma_nearest_range(n, d);
    let a = amount(code);
    if n < 0x100_0000 * d {
        let q = n / d;
        let r = double::nearest(n, d);
        vstd::arithmetic::div_mod::lemma_fundamental_div_mod(n, d);
        assert(q < 0x100_0000) by (nonlinear_arith)
            requires
                d * q <= n < 0x100_0000 * d,
                0 < d,
        ;
        assert(amount(0x80_0000) == 0x80_0000);
        assert(amount(r) == r);
        assert(r * d == if r == q { d * q } else { d * q + d }) by (nonlinear_arith)
            requires
                r == q || r == q + 1,
        ;
        if a <= q {
            assert(a * d <= d * q) by (nonlinear_arith)
                requires
                    a <= q,
                    0 < d,
            ;
        } else {
            assert(a * d >= d * q + d) by (nonlinear_arith)
                requires
                    a >= q + 1,
                    0 < d,
            ;
        }
    } else {
        let wide = near(n, 2 * d);
        lemma_near_least(n, 2 * d);
        assert(amount(wide + 0x80_0000) == 2 * amount(wide));
        let w = amount(wide);
        assert((2 * w) * d == w * (2 * d)) by (nonlinear_arith);
        if code >= 0x100_0000 {
            rounding_gives_the_nearest_number(n, 2 * d, code - 0x80_0000);
            let h = amount(code - 0x80_0000);
            assert((2 * h) * d == h * (2 * d)) by (nonlinear_arith);
        } else {
            rounding_gives_the_nearest_number(n, 2 * d, 0x80_0000);
            assert(a * d <= 0x100_0000 * d) by (nonlinear_arith)
                requires
                    a <= 0x100_0000,
                    0 < d,
            ;
        }
    }
}

/// Less than half of the smallest number is zero.
proof fn lemma_near_zero(n: int, d: int)
    requires
        0 <= n,
        2 * n < d,
    ensures
        near(n, d) == 0,
{
    lemma_nearest_close(0, d, n);
}

/// Codes keep the order.
pub proof fn lemma_near_order(m: int, n: int, d: int)
    requires
        0 < d,
        0 <= m <= n,
    ensures
        0 <= near(m, d) <= near(n, d),
    decreases n - d,
{
    lemma_nearest_range(m, d);
    lemma_nearest_range(n, d);
    if n < 0x100_0000 * d {
        assert(m / d <= n / d && (m / d == n / d ==> m % d <= n % d)) by (nonlinear_arith)
            requires
                0 <= m <= n,
                0 < d,
        ;
    } else if m < 0x100_0000 * d {
        assert(m / d < 0x100_0000) by (nonlinear_arith)
            requires
                d * (m / d) <= m < 0x100_0000 * d,
                0 < d,
        ;
        lemma_near_least(n, 2 * d);
    } else {
        lemma_near_order(m, n, 2 * d);
    }
}

proof fn lemma_near_least(n: int, d: int)
    requires
        0 < d,
        0x80_0000 * d <= n,
    ensures
        0x80_0000 <= near(n, d),
    decreases n - d,
{
    lemma_nearest_range(n, d);
    if n < 0x100_0000 * d {
        assert(n / d >= 0x80_0000) by (nonlinear_arith)
            requires
                0x80_0000 * d <= n < d * (n / d) + d,
                0 < d,
        ;
    } else {
        lemma_near_least(n, 2 * d);
    }
}

proof fn lemma_nearest_range(n: int, d: int)
    requires
        0 <= n,
        0 < d,
    ensures
        0 <= n / d <= double::nearest(n, d) <= n / d + 1,
        d * (n / d) <= n < d * (n / d) + d,
{
    let q = n / d;
    assert(d * q <= n < d * q + d && 0 <= q) by (nonlinear_arith)
        requires
            q == n / d,
            0 <= n,
            0 < d,
    ;
}

/// A finite number is the nearest to itself.
pub proof fn lemma_near_amount(code: int)
    requires
        0 <= code,
    ensures
        near(amount(code), 1) == code,
{
    lemma_amount(code);
    if power(code) > 0 {
        let m = digits(code);
        let p = vstd::arithmetic::power2::pow2(power(code)) as int;
        vstd::arithmetic::power2::lemma_pow2_pos(power(code));
        assert(m * p * 1 == m * p && p * 1 == p);
        lemma_near_close(m, power(code), 1, 0);
    } else {
        assert(code * 1 + 0 == code);
        lemma_nearest_close(code, 1, 0);
    }
}

/// Larger codes stand for larger numbers.
pub proof fn lemma_amount_order(a: int, b: int)
    requires
        0 <= a <= b,
    ensures
        0 <= amount(a) <= amount(b),
    decreases b,
{
    lemma_amount(a);
    if b >= 0x100_0000 {
        if a >= 0x100_0000 {
            lemma_amount_order(a - 0x80_0000, b - 0x80_0000);
        } else if a <= b - 0x80_0000 {
            lemma_amount_order(a, b - 0x80_0000);
        } else {
            lemma_amount_order(0x80_0000, b - 0x80_0000);
        }
    }
}

/// What takes no more than all digits is a number itself.
pub proof fn lemma_exact(k: int, e: nat)
    requires
        0 <= k <= 0x100_0000,
    ensures
        amount(near(k * vstd::arithmetic::power2::pow2(e), 1))
            == k * vstd::arithmetic::power2::pow2(e),
        0 <= near(k * vstd::arithmetic::power2::pow2(e), 1),
    decreases e,
{
    let p = vstd::arithmetic::power2::pow2(e) as int;
    let n = k * p;
    vstd::arithmetic::power2::lemma2_to64();
    vstd::arithmetic::power2::lemma_pow2_pos(e);
    assert(0 <= n) by (nonlinear_arith)
        requires
            n == k * p,
            0 <= k,
            0 < p,
    ;
    lemma_near_order(n, n, 1);
    if n < 0x100_0000 {
        assert(n * 1 + 0 == n);
        lemma_nearest_close(n, 1, 0);
    } else if e == 0 {
        assert(p == 1);
        assert(k * 1 == k);
        lemma_nearest_close(0x80_0000, 2, 0);
        assert(near(0x100_0000, 2) == 0x80_0000);
        assert(amount(0x80_0000) == 0x80_0000);
        assert(amount(0x100_0000) == 0x100_0000);
    } else {
        vstd::arithmetic::power2::lemma_pow2_unfold(e);
        let q = vstd::arithmetic::power2::pow2((e - 1) as nat) as int;
        let half = k * q;
        assert(n == 2 * half) by (nonlinear_arith)
            requires
                n == k * p,
                p == 2 * q,
                half == k * q,
        ;
        lemma_exact(k, (e - 1) as nat);
        lemma_near_scale(half, 1);
        lemma_near_least(half, 1);
    }
}

/// Whole numbers of 64 bits are finite, and zero only where they are.
pub proof fn lemma_of_int(n: int)
    requires
        size(n) <= 0x1_0000_0000_0000_0000,
    ensures
        of_int(n).finite(),
        of_int(n).negative() == (n < 0),
        n != 0 ==> 0 < of_int(n).code(),
{
    vstd::arithmetic::power2::lemma2_to64();
    vstd::arithmetic::power2::lemma_pow2_pos(149);
    vstd::arithmetic::power2::lemma_pow2_adds(64, 149);
    vstd::arithmetic::power2::lemma_pow2_adds(23, 190);
    vstd::arithmetic::power2::lemma_pow2_adds(23, 126);
    vstd::arithmetic::power2::lemma_pow2_pos(190);
    vstd::arithmetic::power2::lemma_pow2_pos(126);
    let u = unit();
    let s = size(n);
    assert(0 <= s * u <= 0x1_0000_0000_0000_0000 * u) by (nonlinear_arith)
        requires
            0 <= s <= 0x1_0000_0000_0000_0000,
            0 <= u,
    ;
    lemma_near_close(0x80_0000, 190, 1, 0);
    lemma_near_order(s * u, 0x1_0000_0000_0000_0000 * u, 1);
    if n != 0 {
        assert(u <= s * u) by (nonlinear_arith)
            requires
                1 <= s,
                0 <= u,
        ;
        lemma_near_close(0x80_0000, 126, 1, 0);
        lemma_near_order(u, s * u, 1);
    }
}

/// A quotient of finite numbers by other than zero is a number.
pub proof fn lemma_quotient(a: Single, b: Single)
    requires
        a.finite(),
        b.finite(),
        0 < b.code(),
    ensures
        !a.over(b).no_number(),
{
    lemma_amount(a.code());
    lemma_amount(b.code());
    vstd::arithmetic::power2::lemma_pow2_pos(149);
    let n = amount(a.code()) * unit();
    assert(0 <= n) by (nonlinear_arith)
        requires
            n == amount(a.code()) * unit(),
            0 <= amount(a.code()),
            0 <= unit(),
    ;
    lemma_near_order(n, n, amount(b.code()));
}

/// Whole numbers are not negative.
pub proof fn lemma_whole_size(value: Single)
    requires
        value.finite(),
    ensures
        0 <= value.whole(),
{
    lemma_amount(value.code());
    vstd::arithmetic::power2::lemma_pow2_pos(149);
    let u = unit();
    let x = 2 * amount(value.code()) + u;
    assert(0 <= x / (2 * u)) by (nonlinear_arith)
        requires
            0 <= x,
            0 < u,
    ;
}

/// Numbers below 2^23 have whole numbers no larger than 2^24.
pub proof fn lemma_whole_small(value: Single)
    requires
        value.code() < 0x4b00_0000,
    ensures
        0 <= value.whole() <= 0x100_0001,
{
    let code = value.code();
    lemma_amount(code);
    let e = power(code);
    let m = digits(code);
    let p = vstd::arithmetic::power2::pow2(e) as int;
    let u = unit();
    vstd::arithmetic::power2::lemma_pow2_pos(149);
    if e < 149 {
        vstd::arithmetic::power2::lemma_pow2_strictly_increases(e, 149);
    }
    assert(0 <= m * p <= 0x100_0000 * u) by (nonlinear_arith)
        requires
            0 <= m <= 0x100_0000,
            0 <= p <= u,
    ;
    let x = 2 * amount(code) + u;
    assert(0 <= x / (2 * u) <= 0x100_0001) by (nonlinear_arith)
        requires
            0 <= x <= 0x200_0001 * u,
            0 < u,
    ;
}

/// From 2^23 on, rounding to a whole number changes nothing.
pub proof fn large_numbers_are_whole(value: Single)
    requires
        value.finite(),
        0x4b00_0000 <= value.code(),
    ensures
        value.rounded() == value,
        value.minus(value.rounded()).code() == 0,
{
    let code = value.code();
    let m = digits(code);
    let u = unit();
    lemma_amount(code);
    lemma_near_amount(code);
    vstd::arithmetic::power2::lemma_pow2_pos(149);
    let up = (power(code) - 149) as nat;
    let t = vstd::arithmetic::power2::pow2(up) as int;
    vstd::arithmetic::power2::lemma_pow2_adds(up, 149);
    vstd::arithmetic::power2::lemma_pow2_pos(up);
    assert(m * (t * u) == (m * t) * u) by (nonlinear_arith);
    assert(2 * ((m * t) * u) + u == (m * t) * (2 * u) + u) by (nonlinear_arith);
    vstd::arithmetic::div_mod::lemma_fundamental_div_mod_converse(
        2 * ((m * t) * u) + u,
        2 * u,
        m * t,
        u,
    );
}

/// A 32-bit number divided by no less than 2^-7 is finite, and less than 2^40.
pub proof fn lemma_ratio_bound(n: int, s: Single)
    requires
        0 <= n <= u32::MAX,
        !s.negative(),
        0x3c00_0000 <= s.code() <= INFINITE,
    ensures
        !of_int(n).over(s).negative(),
        0 <= of_int(n).over(s).code() < 0x5380_0000,
{
    vstd::arithmetic::power2::lemma2_to64();
    vstd::arithmetic::power2::lemma_pow2_pos(149);
    let u = unit();
    // The dividend.
    vstd::arithmetic::power2::lemma_pow2_adds(32, 149);
    vstd::arithmetic::power2::lemma_pow2_adds(23, 158);
    assert(0 <= n * u <= 0x1_0000_0000 * u) by (nonlinear_arith)
        requires
            0 <= n <= 0x1_0000_0000,
            0 <= u,
    ;
    vstd::arithmetic::power2::lemma_pow2_pos(158);
    lemma_near_close(0x80_0000, 158, 1, 0);
    lemma_near_order(n * u, 0x1_0000_0000 * u, 1);
    let a = near(n * u, 1);
    assert(a <= 0x4f80_0000);
    lemma_amount_order(a, 0x4f80_0000);
    lemma_amount(0x4f80_0000);
    assert(of_int(n).code() == a);
    if !s.infinite() {
        // The divisor is at least 2^142.
        let b = amount(s.code());
        lemma_amount(s.code());
        lemma_amount_order(0x3c00_0000, s.code());
        lemma_amount(0x3c00_0000);
        vstd::arithmetic::power2::lemma_pow2_adds(23, 119);
        let least = vstd::arithmetic::power2::pow2(142) as int;
        assert(b >= least);
        vstd::arithmetic::power2::lemma_pow2_pos(142);
        vstd::arithmetic::power2::lemma_pow2_adds(181, 149);
        vstd::arithmetic::power2::lemma_pow2_adds(188, 142);
        vstd::arithmetic::power2::lemma_pow2_adds(23, 165);
        vstd::arithmetic::power2::lemma_pow2_pos(188);
        vstd::arithmetic::power2::lemma_pow2_pos(165);
        let top = vstd::arithmetic::power2::pow2(188) as int;
        let most = vstd::arithmetic::power2::pow2(181) as int;
        assert(amount(a) * u <= most * u) by (nonlinear_arith)
            requires
                amount(a) <= most,
                0 <= u,
        ;
        assert(top * least <= top * b) by (nonlinear_arith)
            requires
                least <= b,
                0 <= top,
        ;
        assert(0 <= amount(a) * u) by (nonlinear_arith)
            requires
                0 <= amount(a),
                0 <= u,
        ;
        lemma_near_order(amount(a) * u, top * b, b);
        let h = vstd::arithmetic::power2::pow2(165) as int;
        assert(0 < h * b) by (nonlinear_arith)
            requires
                0 < h,
                0 < b,
        ;
        lemma_near_close(0x80_0000, 165, b, 0);
    }
}

/// A fraction's whole part does not depend on how it is written.
proof fn lemma_cancel(n: int, d: int, k: int)
    requires
        0 <= n,
        0 < d,
        0 < k,
    ensures
        (n * k) / (d * k) == n / d,
{
    let q = n / d;
    let r = n % d;
    assert(d * q + r == n && 0 <= r < d) by (nonlinear_arith)
        requires
            q == n / d,
            r == n % d,
            0 < d,
    ;
    assert(n * k == q * (d * k) + r * k && 0 <= r * k < d * k) by (nonlinear_arith)
        requires
            d * q + r == n,
            0 <= r < d,
            0 < k,
    ;
    vstd::arithmetic::div_mod::lemma_fundamental_div_mod_converse(n * k, d * k, q, r * k);
}

proof fn lemma_nearest_cancel(n: int, d: int, k: nat)
    requires
        0 <= n,
        0 < d,
    ensures
        double::nearest(
            n * vstd::arithmetic::power2::pow2(k),
            d * vstd::arithmetic::power2::pow2(k),
        ) == double::nearest(n, d),
    decreases k,
{
    vstd::arithmetic::power2::lemma2_to64();
    if k == 0 {
        assert(n * 1 == n && d * 1 == d);
    } else {
        let j = (k - 1) as nat;
        let p = vstd::arithmetic::power2::pow2(j) as int;
        vstd::arithmetic::power2::lemma_pow2_unfold(k);
        vstd::arithmetic::power2::lemma_pow2_pos(j);
        assert(n * (2 * p) == 2 * (n * p) && d * (2 * p) == 2 * (d * p)) by (nonlinear_arith);
        assert(n * p >= 0 && d * p >= 1) by (nonlinear_arith)
            requires
                n >= 0,
                d >= 1,
                p >= 1,
        ;
        lemma_nearest_scale(n * p, d * p);
        lemma_nearest_cancel(n, d, j);
    }
}

/// The digits of a code and the power of two that they count.
pub open spec fn digits(code: int) -> int {
    if code < 0x100_0000 {
        code
    } else {
        code % 0x80_0000 + 0x80_0000
    }
}

pub open spec fn power(code: int) -> nat {
    if code < 0x100_0000 {
        0
    } else {
        (code / 0x80_0000 - 1) as nat
    }
}

pub proof fn lemma_amount(code: int)
    requires
        0 <= code,
    ensures
        amount(code) == digits(code) * vstd::arithmetic::power2::pow2(power(code)),
        0 <= digits(code) < 0x100_0000,
        power(code) > 0 ==> 0x80_0000 <= digits(code),
        0 <= amount(code),
        amount(code) == 0 <==> code == 0,
    decreases code,
{
    vstd::arithmetic::power2::lemma2_to64();
    if code < 0x100_0000 {
        assert(code * 1 == code);
    } else {
        let less = code - 0x80_0000;
        lemma_amount(less);
        assert(digits(less) == digits(code));
        assert(power(code) == power(less) + 1);
        let p = vstd::arithmetic::power2::pow2(power(less)) as int;
        vstd::arithmetic::power2::lemma_pow2_unfold(power(code));
        let g = digits(code);
        assert(2 * (g * p) == g * (2 * p)) by (nonlinear_arith);
    }
}

fn split(code: u32) -> (r: (u32, u32))
    requires
        code < INFINITE,
    ensures
        r.0 == digits(code as int),
        r.1 == power(code as int),
        r.1 <= 253,
{
    if code < 0x100_0000 {
        (code, 0)
    } else {
        (code % 0x80_0000 + 0x80_0000, code / 0x80_0000 - 1)
    }
}

fn power_of_two(k: u32) -> (r: u128)
    requires
        k <= 120,
    ensures
        r == vstd::arithmetic::power2::pow2(k as nat),
        1 <= r <= 0x100_0000_0000_0000_0000_0000_0000_0000,
{
    proof {
        vstd::arithmetic::power2::lemma2_to64();
        lemma_pow2_120(k as nat);
    }
    let mut r: u128 = 1;
    let mut i: u32 = 0;
    while i < k
        invariant
            i <= k <= 120,
            r == vstd::arithmetic::power2::pow2(i as nat),
        decreases k - i,
    {
        proof {
            lemma_pow2_120((i + 1) as nat);
            vstd::arithmetic::power2::lemma_pow2_unfold((i + 1) as nat);
        }
        r = 2 * r;
        i = i + 1;
    }
    r
}

proof fn lemma_pow2_120(k: nat)
    requires
        k <= 120,
    ensures
        1 <= vstd::arithmetic::power2::pow2(k) <= 0x100_0000_0000_0000_0000_0000_0000_0000,
        vstd::arithmetic::power2::pow2(120) == 0x100_0000_0000_0000_0000_0000_0000_0000,
{
    vstd::arithmetic::power2::lemma2_to64();
    vstd::arithmetic::power2::lemma2_to64_rest();
    vstd::arithmetic::power2::lemma_pow2_adds(60, 60);
    vstd::arithmetic::power2::lemma_pow2_pos(k);
    assert(vstd::arithmetic::power2::pow2(120) == 0x100_0000_0000_0000_0000_0000_0000_0000);
    if k < 120 {
        vstd::arithmetic::power2::lemma_pow2_strictly_increases(k, 120);
    }
}

/// The code of the number nearest to `n * 2^s / d`.
fn near_code(n: u128, d: u128, s: u32) -> (r: u64)
    requires
        0 < d <= 0x10_0000_0000_0000_0000,
        n <= 0x200_0000_0000_0000_0000_0000_0000_0000,
        s <= 1000,
    ensures
        r == near(n * vstd::arithmetic::power2::pow2(s as nat), d as int),
{
    let ghost all = n * vstd::arithmetic::power2::pow2(s as nat);
    proof {
        vstd::arithmetic::power2::lemma2_to64();
    }
    if n == 0 {
        proof {
            assert(all == 0) by (nonlinear_arith)
                requires
                    all == n * vstd::arithmetic::power2::pow2(s as nat),
                    n == 0,
            ;
            lemma_near_zero(0, d as int);
        }
        return 0;
    }
    let mut m: u128 = n;
    let mut left: u32 = s;
    while left > 0 && m < 0x100_0000 * d
        invariant
            left <= s <= 1000,
            0 < m <= 0x200_0000_0000_0000_0000_0000_0000_0000,
            0 < d <= 0x10_0000_0000_0000_0000,
            all == m * vstd::arithmetic::power2::pow2(left as nat),
        decreases left,
    {
        proof {
            vstd::arithmetic::power2::lemma_pow2_unfold(left as nat);
            let p = vstd::arithmetic::power2::pow2((left - 1) as nat) as int;
            assert(m * (2 * p) == (2 * m) * p) by (nonlinear_arith);
        }
        m = 2 * m;
        left = left - 1;
    }
    proof {
        if left > 0 {
            lemma_near_shift(m as int, d as int, left as nat);
        } else {
            assert(m * 1 == m);
        }
    }
    let mut under: u128 = d;
    let mut steps: u64 = 0;
    while m / under >= 0x100_0000
        invariant
            0 < under,
            0 < m <= 0x200_0000_0000_0000_0000_0000_0000_0000,
            under <= 0x200_0000_0000_0000_0000_0000_0000_0000,
            vstd::arithmetic::power2::pow2(steps as nat) <= under,
            steps <= 121,
            near(m as int, d as int) == near(m as int, under as int) + steps * 0x80_0000,
        decreases 200 - steps,
    {
        proof {
            let q = m as int / under as int;
            assert(under * q <= m) by (nonlinear_arith)
                requires
                    q == m as int / under as int,
                    0 < under,
            ;
            assert(0x100_0000 * under <= m) by (nonlinear_arith)
                requires
                    under * q <= m,
                    q >= 0x100_0000,
                    0 < under,
            ;
            vstd::arithmetic::power2::lemma_pow2_unfold((steps + 1) as nat);
            if steps >= 120 {
                lemma_pow2_120(120);
                if steps > 120 {
                    vstd::arithmetic::power2::lemma_pow2_strictly_increases(120, steps as nat);
                }
            }
        }
        under = 2 * under;
        steps = steps + 1;
    }
    let q: u128 = m / under;
    let rest: u128 = m % under;
    proof {
        assert(m < 0x100_0000 * under) by (nonlinear_arith)
            requires
                q == m as int / under as int,
                q < 0x100_0000,
                0 < under,
        ;
    }
    let last: u64 = if 2 * rest > under || (2 * rest == under && q % 2 == 1) {
        q as u64 + 1
    } else {
        q as u64
    };
    last + (steps + left as u64) * 0x80_0000
}

fn code_of(negative: bool, code: u64) -> (r: Single)
    ensures
        r == coded(negative, code as int),
{
    let code: u32 = if code < INFINITE as u64 {
        code as u32
    } else {
        INFINITE
    };
    Single { bits: if negative { code + SIGN } else { code } }
}

/// The sum of two finite numbers, the first with the larger power of two.
fn sum_of(big: Single, small: Single) -> (r: Single)
    requires
        big.finite(),
        small.finite(),
        power(big.code()) >= power(small.code()),
    ensures
        r == big.plus(small),
{
    let a: u32 = big.code_bits();
    let b: u32 = small.code_bits();
    let (m, e): (u32, u32) = split(a);
    let (n, f): (u32, u32) = split(b);
    let gap: u32 = e - f;
    let same = big.is_negative() == small.is_negative();
    let ghost q = vstd::arithmetic::power2::pow2(f as nat) as int;
    proof {
        lemma_amount(a as int);
        lemma_amount(b as int);
        vstd::arithmetic::power2::lemma_pow2_adds(gap as nat, f as nat);
        vstd::arithmetic::power2::lemma_pow2_pos(f as nat);
    }
    if gap > 90 {
        proof {
            let p = vstd::arithmetic::power2::pow2(e as nat) as int;
            let t = vstd::arithmetic::power2::pow2(gap as nat) as int;
            vstd::arithmetic::power2::lemma2_to64();
            vstd::arithmetic::power2::lemma_pow2_strictly_increases(32, gap as nat);
            assert(4 * (n * q) < p && n * q < m * p) by (nonlinear_arith)
                requires
                    p == t * q,
                    t > 0x1_0000_0000,
                    n <= 0xff_ffff,
                    q >= 1,
                    m >= 0x80_0000,
            ;
            let off = if same { n * q } else { -(n * q) };
            assert(0 <= n * q) by (nonlinear_arith)
                requires
                    0 <= n,
                    0 <= q,
            ;
            assert(m * p * 1 == m * p && p * 1 == p);
            lemma_near_close(m as int, e as nat, 1, off);
            assert(size(big.value() + small.value()) == m * p + off);
            assert(m + e * 0x80_0000 == a);
        }
        return big;
    }
    proof {
        lemma_pow2_120(gap as nat);
        vstd::arithmetic::power2::lemma2_to64();
        vstd::arithmetic::power2::lemma2_to64_rest();
        vstd::arithmetic::power2::lemma_pow2_adds(45, 45);
        if gap < 90 {
            vstd::arithmetic::power2::lemma_pow2_strictly_increases(gap as nat, 90);
        }
    }
    let t: u128 = power_of_two(gap);
    proof {
        assert(0 <= m * t <= 0xff_ffff * 0x400_0000_0000_0000_0000_0000) by (nonlinear_arith)
            requires
                0 <= m <= 0xff_ffff,
                0 <= t <= 0x400_0000_0000_0000_0000_0000,
        ;
        assert(m * (t * q) == (m * t) * q) by (nonlinear_arith);
    }
    let x: u128 = m as u128 * t;
    let y: u128 = n as u128;
    let total: u128 = if same {
        x + y
    } else if x >= y {
        x - y
    } else {
        y - x
    };
    let negative = if same || x >= y {
        big.is_negative()
    } else {
        small.is_negative()
    };
    proof {
        assert(total * q == if same { x * q + y * q } else if x >= y { x * q - y * q } else {
            y * q - x * q
        }) by (nonlinear_arith)
            requires
                total == if same { x + y } else if x >= y { x - y } else { y - x },
        ;
        assert(total * q == 0 <==> total == 0) by (nonlinear_arith)
            requires
                q >= 1,
                total >= 0,
        ;
        assert(total * q >= 0) by (nonlinear_arith)
            requires
                q >= 1,
                total >= 0,
        ;
        assert(size(big.value() + small.value()) == total * q);
    }
    if total == 0 {
        return code_of(big.is_negative() && small.is_negative(), 0);
    }
    code_of(negative, near_code(total, 1, f))
}

impl Single {
    pub fn is_negative(self) -> (r: bool)
        ensures
            r == self.negative(),
    {
        self.bits >= SIGN
    }

    pub fn is_no_number(self) -> (r: bool)
        ensures
            r == self.no_number(),
    {
        self.code_bits() > INFINITE
    }

    pub fn is_infinite(self) -> (r: bool)
        ensures
            r == self.infinite(),
    {
        self.code_bits() == INFINITE
    }

    fn code_bits(self) -> (r: u32)
        ensures
            r == self.code(),
            r < SIGN,
    {
        if self.bits >= SIGN {
            self.bits - SIGN
        } else {
            self.bits
        }
    }

    /// The number nearest to a whole one.
    pub fn of(n: i64) -> (r: Single)
        ensures
            r == of_int(n as int),
    {
        let size: u128 = if n < 0 {
            (-(n as i128)) as u128
        } else {
            n as u128
        };
        code_of(n < 0, near_code(size, 1, 149))
    }

    pub fn less(self, other: Single) -> (r: bool)
        ensures
            r == self.below(other),
    {
        let a: u32 = self.code_bits();
        let b: u32 = other.code_bits();
        if a > INFINITE || b > INFINITE {
            return false;
        }
        let p: i64 = if self.is_negative() { -(a as i64) } else { a as i64 };
        let q: i64 = if other.is_negative() { -(b as i64) } else { b as i64 };
        p < q
    }

    pub fn at_most(self, other: Single) -> (r: bool)
        ensures
            r == self.up_to(other),
    {
        !self.is_no_number() && !other.is_no_number() && !other.less(self)
    }

    pub fn negate(self) -> (r: Single)
        ensures
            r == self.flipped(),
    {
        Single { bits: if self.bits >= SIGN { self.bits - SIGN } else { self.bits + SIGN } }
    }

    pub fn abs(self) -> (r: Single)
        ensures
            r == self.unsigned(),
    {
        Single { bits: self.code_bits() }
    }

    pub fn max(self, other: Single) -> (r: Single)
        ensures
            r == self.larger(other),
    {
        if self.code_bits() > INFINITE || self.less(other) {
            other
        } else {
            self
        }
    }

    pub fn min(self, other: Single) -> (r: Single)
        ensures
            r == self.smaller(other),
    {
        if self.code_bits() > INFINITE || other.less(self) {
            other
        } else {
            self
        }
    }

    pub fn clamp(self, least: Single, most: Single) -> (r: Single)
        ensures
            r == self.within(least, most),
    {
        if self.less(least) {
            least
        } else if most.less(self) {
            most
        } else {
            self
        }
    }

    pub fn sum(self, other: Single) -> (r: Single)
        ensures
            r == self.plus(other),
    {
        let a: u32 = self.code_bits();
        let b: u32 = other.code_bits();
        if a > INFINITE || b > INFINITE {
            return Single { bits: NAN };
        }
        if a == INFINITE {
            if b == INFINITE && self.is_negative() != other.is_negative() {
                return Single { bits: NAN };
            }
            return self;
        }
        if b == INFINITE {
            return other;
        }
        if split(a).1 >= split(b).1 {
            sum_of(self, other)
        } else {
            proof {
                assert(self.value() + other.value() == other.value() + self.value());
            }
            sum_of(other, self)
        }
    }

    pub fn difference(self, other: Single) -> (r: Single)
        ensures
            r == self.minus(other),
    {
        self.sum(other.negate())
    }

    /// The whole number nearest to a finite one without its sign, as far as it
    /// is less than 2^40.
    pub fn round(self) -> (r: u64)
        requires
            self.finite(),
        ensures
            r == if self.whole() < 0x100_0000_0000 {
                self.whole()
            } else {
                0x100_0000_0000
            },
    {
        let a: u32 = self.code_bits();
        let (m, e): (u32, u32) = split(a);
        let ghost p = vstd::arithmetic::power2::pow2(e as nat) as int;
        proof {
            lemma_amount(a as int);
            vstd::arithmetic::power2::lemma_pow2_pos(149);
        }
        if e >= 149 {
            let up: u32 = e - 149;
            let ghost t = vstd::arithmetic::power2::pow2(up as nat) as int;
            proof {
                vstd::arithmetic::power2::lemma_pow2_adds(up as nat, 149);
                vstd::arithmetic::power2::lemma_pow2_pos(up as nat);
                vstd::arithmetic::power2::lemma2_to64();
                let u = unit();
                assert(m * (t * u) == (m * t) * u) by (nonlinear_arith);
                assert(2 * ((m * t) * u) + u == (m * t) * (2 * u) + u) by (nonlinear_arith);
                vstd::arithmetic::div_mod::lemma_fundamental_div_mod_converse(
                    2 * ((m * t) * u) + u,
                    2 * u,
                    m * t,
                    u,
                );
            }
            if up > 16 {
                proof {
                    vstd::arithmetic::power2::lemma_pow2_strictly_increases(16, up as nat);
                    vstd::arithmetic::power2::lemma_pow2_unfold(up as nat);
                    let h = vstd::arithmetic::power2::pow2((up - 1) as nat) as int;
                    if up > 17 {
                        vstd::arithmetic::power2::lemma_pow2_strictly_increases(
                            16,
                            (up - 1) as nat,
                        );
                    }
                    assert(h >= 0x1_0000);
                    assert(m * t >= 0x100_0000_0000) by (nonlinear_arith)
                        requires
                            t == 2 * h,
                            h >= 0x1_0000,
                            m >= 0x80_0000,
                    ;
                }
                return 0x100_0000_0000;
            }
            proof {
                if up < 16 {
                    vstd::arithmetic::power2::lemma_pow2_strictly_increases(up as nat, 16);
                }
                assert(m * t <= 0xff_ffff * 0x1_0000) by (nonlinear_arith)
                    requires
                        0 <= m <= 0xff_ffff,
                        1 <= t <= 0x1_0000,
                ;
            }
            return (m as u128 * power_of_two(up)) as u64;
        }
        let down: u32 = 149 - e;
        let ghost t = vstd::arithmetic::power2::pow2(down as nat) as int;
        proof {
            vstd::arithmetic::power2::lemma_pow2_adds(down as nat, e as nat);
            vstd::arithmetic::power2::lemma_pow2_pos(down as nat);
            vstd::arithmetic::power2::lemma_pow2_pos(e as nat);
            lemma_cancel(2 * m + t, 2 * t, p);
            assert((2 * m + t) * p == 2 * (m * p) + t * p) by (nonlinear_arith);
            assert((2 * t) * p == 2 * (t * p)) by (nonlinear_arith);
        }
        if down > 30 {
            proof {
                vstd::arithmetic::power2::lemma2_to64();
                vstd::arithmetic::power2::lemma_pow2_strictly_increases(30, down as nat);
                vstd::arithmetic::div_mod::lemma_fundamental_div_mod_converse(
                    2 * m + t,
                    2 * t,
                    0,
                    2 * m + t,
                );
            }
            return 0;
        }
        proof {
            vstd::arithmetic::power2::lemma2_to64();
            if down < 30 {
                vstd::arithmetic::power2::lemma_pow2_strictly_increases(down as nat, 30);
            }
        }
        let k: u64 = power_of_two(down) as u64;
        let n: u64 = (2 * m as u64 + k) / (2 * k);
        proof {
            let x = 2 * m + k;
            let y = 2 * k;
            assert(x / y <= x) by (nonlinear_arith)
                requires
                    x >= 0,
                    y >= 1,
            ;
        }
        n
    }

    /// A finite number rounded to a whole one; halves away from zero.
    pub fn round_whole(self) -> (r: Single)
        requires
            self.finite(),
        ensures
            r == self.rounded(),
    {
        if self.code_bits() >= 0x4b00_0000 {
            proof {
                large_numbers_are_whole(self);
            }
            return self;
        }
        proof {
            lemma_whole_small(self);
        }
        let n: u64 = self.round();
        code_of(self.is_negative(), near_code(n as u128, 1, 149))
    }

    /// The number times one or ten thousand, rounded to a whole one without
    /// its sign; ties to even.
    pub fn decimal_digits(self, tens: u32) -> (r: u64)
        requires
            self.code() < 0x5380_0000,
            tens == 1 || tens == 10_000,
        ensures
            r == self.decimals(tens as int),
            r <= 0x10_0000_0000_0000_0000,
    {
        let a: u32 = self.code_bits();
        let (m, e): (u32, u32) = split(a);
        let ghost p = vstd::arithmetic::power2::pow2(e as nat) as int;
        let n: u64 = m as u64 * tens as u64;
        proof {
            lemma_amount(a as int);
            vstd::arithmetic::power2::lemma_pow2_pos(149);
            assert((m * p) * tens == (m * tens) * p) by (nonlinear_arith);
        }
        if e >= 149 {
            let up: u32 = e - 149;
            let ghost t = vstd::arithmetic::power2::pow2(up as nat) as int;
            proof {
                vstd::arithmetic::power2::lemma_pow2_adds(up as nat, 149);
                vstd::arithmetic::power2::lemma_pow2_pos(up as nat);
                vstd::arithmetic::power2::lemma2_to64();
                if up < 18 {
                    vstd::arithmetic::power2::lemma_pow2_strictly_increases(up as nat, 18);
                }
                let u = unit();
                assert(n * (t * u) == (n * t) * u) by (nonlinear_arith);
                assert(n * t <= 0xff_ffff * 10_000 * 0x4_0000) by (nonlinear_arith)
                    requires
                        0 <= n <= 0xff_ffff * 10_000,
                        1 <= t <= 0x4_0000,
                ;
                assert(0 <= n * t) by (nonlinear_arith)
                    requires
                        0 <= n,
                        1 <= t,
                ;
                lemma_nearest_close(n * t, u, 0);
            }
            return (n as u128 * power_of_two(up)) as u64;
        }
        let down: u32 = 149 - e;
        let ghost t = vstd::arithmetic::power2::pow2(down as nat) as int;
        proof {
            vstd::arithmetic::power2::lemma_pow2_adds(down as nat, e as nat);
            vstd::arithmetic::power2::lemma_pow2_pos(down as nat);
            lemma_nearest_cancel(n as int, t, e as nat);
        }
        if down > 60 {
            proof {
                vstd::arithmetic::power2::lemma2_to64();
                vstd::arithmetic::power2::lemma2_to64_rest();
                vstd::arithmetic::power2::lemma_pow2_strictly_increases(60, down as nat);
                lemma_nearest_close(0, t, n as int);
            }
            return 0;
        }
        proof {
            vstd::arithmetic::power2::lemma2_to64_rest();
            if down < 60 {
                vstd::arithmetic::power2::lemma_pow2_strictly_increases(down as nat, 60);
            }
        }
        let k: u64 = power_of_two(down) as u64;
        let q: u64 = n / k;
        let rest: u64 = n % k;
        proof {
            lemma_nearest_range(n as int, k as int);
            assert(q <= n) by (nonlinear_arith)
                requires
                    k * q <= n,
                    k >= 1,
                    q >= 0,
            ;
        }
        if 2 * rest > k || (2 * rest == k && q % 2 == 1) {
            q + 1
        } else {
            q
        }
    }

    pub fn product(self, other: Single) -> (r: Single)
        ensures
            r == self.times(other),
    {
        let a: u32 = self.code_bits();
        let b: u32 = other.code_bits();
        let negative = self.is_negative() != other.is_negative();
        if a > INFINITE || b > INFINITE || (a == INFINITE && b == 0) || (b == INFINITE && a == 0) {
            return Single { bits: NAN };
        }
        if a == INFINITE || b == INFINITE {
            return code_of(negative, INFINITE as u64);
        }
        let (m, e): (u32, u32) = split(a);
        let (n, f): (u32, u32) = split(b);
        let ghost p = vstd::arithmetic::power2::pow2(e as nat) as int;
        let ghost q = vstd::arithmetic::power2::pow2(f as nat) as int;
        proof {
            lemma_amount(a as int);
            lemma_amount(b as int);
            assert(0 <= m * n <= 0xff_ffff * 0xff_ffff) by (nonlinear_arith)
                requires
                    0 <= m <= 0xff_ffff,
                    0 <= n <= 0xff_ffff,
            ;
            assert((m * p) * (n * q) == (m * n) * (p * q)) by (nonlinear_arith);
            vstd::arithmetic::power2::lemma_pow2_adds(e as nat, f as nat);
        }
        let both: u128 = m as u128 * n as u128;
        let shift: u32 = e + f;
        if shift >= 149 {
            proof {
                let s = (shift - 149) as nat;
                vstd::arithmetic::power2::lemma_pow2_adds(s, 149);
                lemma_near_cancel(
                    both * vstd::arithmetic::power2::pow2(s),
                    1,
                    149,
                );
                assert((both * vstd::arithmetic::power2::pow2(s)) * unit() == both * (
                vstd::arithmetic::power2::pow2(s) * unit())) by (nonlinear_arith);
            }
            return code_of(negative, near_code(both, 1, shift - 149));
        }
        let down: u32 = 149 - shift;
        proof {
            vstd::arithmetic::power2::lemma_pow2_adds(down as nat, shift as nat);
            vstd::arithmetic::power2::lemma_pow2_pos(down as nat);
            lemma_near_cancel(
                both as int,
                vstd::arithmetic::power2::pow2(down as nat) as int,
                shift as nat,
            );
        }
        if down > 60 {
            proof {
                vstd::arithmetic::power2::lemma2_to64_rest();
                vstd::arithmetic::power2::lemma_pow2_strictly_increases(60, down as nat);
                lemma_near_zero(
                    both as int,
                    vstd::arithmetic::power2::pow2(down as nat) as int,
                );
            }
            return code_of(negative, 0);
        }
        proof {
            vstd::arithmetic::power2::lemma2_to64();
            vstd::arithmetic::power2::lemma2_to64_rest();
            if down < 60 {
                vstd::arithmetic::power2::lemma_pow2_strictly_increases(down as nat, 60);
            }
            assert(both * 1 == both);
        }
        code_of(negative, near_code(both, power_of_two(down), 0))
    }

    pub fn quotient(self, other: Single) -> (r: Single)
        ensures
            r == self.over(other),
    {
        let a: u32 = self.code_bits();
        let b: u32 = other.code_bits();
        let negative = self.is_negative() != other.is_negative();
        if a > INFINITE || b > INFINITE || (a == INFINITE && b == INFINITE) || (a == 0 && b == 0) {
            return Single { bits: NAN };
        }
        if a == INFINITE || b == 0 {
            return code_of(negative, INFINITE as u64);
        }
        if b == INFINITE {
            return code_of(negative, 0);
        }
        let (m, e): (u32, u32) = split(a);
        let (n, f): (u32, u32) = split(b);
        let ghost p = vstd::arithmetic::power2::pow2(e as nat) as int;
        let ghost q = vstd::arithmetic::power2::pow2(f as nat) as int;
        proof {
            lemma_amount(a as int);
            lemma_amount(b as int);
            vstd::arithmetic::power2::lemma_pow2_adds(e as nat, 149);
            vstd::arithmetic::power2::lemma_pow2_pos(f as nat);
            assert(n > 0) by (nonlinear_arith)
                requires
                    n * q > 0,
                    q > 0,
            ;
            assert((m * p) * unit() == m * (p * unit())) by (nonlinear_arith);
        }
        if e + 149 >= f {
            let s: u32 = e + 149 - f;
            proof {
                let t = vstd::arithmetic::power2::pow2(s as nat) as int;
                vstd::arithmetic::power2::lemma_pow2_adds(s as nat, f as nat);
                assert(m * (t * q) == (m * t) * q) by (nonlinear_arith);
                lemma_near_cancel(m * t, n as int, f as nat);
            }
            return code_of(negative, near_code(m as u128, n as u128, s));
        }
        let s: u32 = f - (e + 149);
        proof {
            let up = (e + 149) as nat;
            let t = vstd::arithmetic::power2::pow2(s as nat) as int;
            let k = vstd::arithmetic::power2::pow2(up) as int;
            vstd::arithmetic::power2::lemma_pow2_adds(s as nat, up);
            assert(n * (t * k) == (n * t) * k) by (nonlinear_arith);
            vstd::arithmetic::power2::lemma_pow2_pos(s as nat);
            assert(n * t >= 1) by (nonlinear_arith)
                requires
                    n >= 1,
                    t >= 1,
            ;
            lemma_near_cancel(m as int, n * t, up);
        }
        if s > 30 {
            proof {
                let t = vstd::arithmetic::power2::pow2(s as nat) as int;
                vstd::arithmetic::power2::lemma2_to64();
                vstd::arithmetic::power2::lemma_pow2_strictly_increases(30, s as nat);
                assert(n * t >= t) by (nonlinear_arith)
                    requires
                        n >= 1,
                        t >= 1,
                ;
                lemma_near_zero(m as int, n * t);
            }
            return code_of(negative, 0);
        }
        proof {
            let t = vstd::arithmetic::power2::pow2(s as nat) as int;
            vstd::arithmetic::power2::lemma2_to64();
            if s < 30 {
                vstd::arithmetic::power2::lemma_pow2_strictly_increases(s as nat, 30);
            }
            assert(n * t <= 0xff_ffff * 0x4000_0000) by (nonlinear_arith)
                requires
                    n <= 0xff_ffff,
                    1 <= t <= 0x4000_0000,
            ;
            assert(m * 1 == m);
        }
        let under: u128 = n as u128 * power_of_two(s);
        code_of(negative, near_code(m as u128, under, 0))
    }
}

/// Whole numbers up to 2^24 are exact.
pub proof fn small_whole_numbers_are_exact(n: int)
    requires
        size(n) <= 0x100_0000,
    ensures
        of_int(n).finite(),
        of_int(n).value() == n * unit(),
        n >= 0 ==> !of_int(n).negative(),
        n > 0 ==> 0 < of_int(n).code(),
{
    lemma_exact(size(n), 149);
    lemma_of_int(n);
    assert(-(size(n) * unit()) == (-size(n)) * unit()) by (nonlinear_arith);
}

/// The number is as close to a fraction as any.
pub open spec fn closest(value: Single, n: int, d: int) -> bool {
    forall|code: int|
        0 <= code ==> size(value.value() * d - n * unit()) <= size(
            #[trigger] amount(code) * d - n * unit(),
        )
}

/// A part of a whole, both of up to 2^24, is the number closest to it, and at
/// most one.
pub proof fn quotients_are_closest(n: int, s: int)
    requires
        0 <= n <= s,
        0 < s <= 0x100_0000,
    ensures
        closest(of_int(n).over(of_int(s)), n, s),
        !of_int(n).over(of_int(s)).negative(),
        of_int(n).over(of_int(s)).code() <= ONE,
        of_int(n).over(of_int(s)).code() == near(n * unit() * unit(), s * unit()),
{
    let u = unit();
    let q = of_int(n).over(of_int(s));
    small_whole_numbers_are_exact(n);
    small_whole_numbers_are_exact(s);
    vstd::arithmetic::power2::lemma2_to64();
    vstd::arithmetic::power2::lemma_pow2_pos(149);
    vstd::arithmetic::power2::lemma_pow2_adds(23, 126);
    let d = s * u;
    let m = n * u * u;
    assert(0 <= m <= u * d && 0 < d) by (nonlinear_arith)
        requires
            m == n * u * u,
            d == s * u,
            0 <= n <= s,
            0 < s,
            0 < u,
    ;
    // At most one.
    vstd::arithmetic::power2::lemma_pow2_pos(126);
    assert(0 < vstd::arithmetic::power2::pow2(126) * d) by (nonlinear_arith)
        requires
            0 < vstd::arithmetic::power2::pow2(126),
            0 < d,
    ;
    lemma_near_close(0x80_0000, 126, d, 0);
    lemma_near_order(m, u * d, d);
    assert(0x80_0000 * vstd::arithmetic::power2::pow2(126) * d == u * d);
    assert(near(m, d) <= ONE);
    assert(q.code() == near(m, d));
    assert forall|code: int| 0 <= code implies size(q.value() * s - n * u) <= size(
        #[trigger] amount(code) * s - n * u,
    ) by {
        rounding_gives_the_nearest_number(m, d, code);
        let a = q.value() * s - n * u;
        let b = amount(code) * s - n * u;
        assert(q.value() * d - m == a * u && amount(code) * d - m == b * u) by (nonlinear_arith)
            requires
                a == q.value() * s - n * u,
                b == amount(code) * s - n * u,
                m == n * u * u,
                d == s * u,
        ;
        assert(size(a * u) == size(a) * u && size(b * u) == size(b) * u) by {
            assert((-a) * u == -(a * u) && (-b) * u == -(b * u)) by (nonlinear_arith);
            assert((a < 0 <==> a * u < 0) && (b < 0 <==> b * u < 0)) by (nonlinear_arith)
                requires
                    0 < u,
            ;
        }
        assert(size(a) <= size(b)) by (nonlinear_arith)
            requires
                size(a) * u <= size(b) * u,
                0 < u,
        ;
    }
}

/// Up to half a step above one is rounded to one.
pub proof fn lemma_near_one(n: int)
    requires
        0 <= n <= unit() + vstd::arithmetic::power2::pow2(125),
    ensures
        0 <= near(n, 1) <= ONE,
{
    let p = vstd::arithmetic::power2::pow2(125) as int;
    vstd::arithmetic::power2::lemma2_to64();
    vstd::arithmetic::power2::lemma_pow2_adds(24, 125);
    lemma_near_shift(0x100_0001, 1, 125);
    assert(0x100_0001 * p == unit() + p);
    assert(near(0x100_0001, 2) == double::nearest(0x100_0001, 2));
    assert(near(0x100_0001, 1) == 0x100_0000);
    lemma_near_order(n, unit() + p, 1);
}

/// Up to 2^24, sums and differences of whole numbers are exact, and whole
/// numbers are ordered as themselves.
pub proof fn small_whole_numbers_add_up(a: int, b: int)
    requires
        size(a) <= 0x100_0000,
        size(b) <= 0x100_0000,
    ensures
        size(a + b) <= 0x100_0000 ==> of_int(a).plus(of_int(b)) == of_int(a + b),
        size(a - b) <= 0x100_0000 ==> of_int(a).minus(of_int(b)) == of_int(a - b),
        of_int(a).below(of_int(b)) <==> a < b,
{
    let u = unit();
    let (p, q) = (of_int(a), of_int(b));
    small_whole_numbers_are_exact(a);
    small_whole_numbers_are_exact(b);
    lemma_of_int(a);
    lemma_of_int(b);
    lemma_amount(p.code());
    lemma_amount(q.code());
    vstd::arithmetic::power2::lemma_pow2_pos(149);
    assert(a * u + b * u == (a + b) * u && a * u - b * u == (a - b) * u) by (nonlinear_arith);
    assert(q.flipped().value() == -q.value());
    lemma_product_sign(a + b, u);
    lemma_product_sign(a - b, u);
    lemma_product_sign(a, u);
    lemma_product_sign(b, u);
    lemma_nearest_close(0, 1, 0);
    assert(near(0, 1) == 0);
    if size(a + b) <= 0x100_0000 {
        assert(p.plus(q) == of_int(a + b));
    }
    if size(a - b) <= 0x100_0000 {
        assert(p.minus(q) == of_int(a - b));
    }
    if p.code() <= q.code() {
        lemma_amount_order(p.code(), q.code());
    } else {
        lemma_amount_order(q.code(), p.code());
    }
    if p.code() == q.code() {
    } else if p.code() < q.code() && amount(p.code()) == amount(q.code()) {
        lemma_near_amount(p.code());
        lemma_near_amount(q.code());
    } else if q.code() < p.code() && amount(p.code()) == amount(q.code()) {
        lemma_near_amount(p.code());
        lemma_near_amount(q.code());
    }
}

proof fn lemma_product_sign(n: int, u: int)
    requires
        0 < u,
    ensures
        n < 0 <==> n * u < 0,
        n == 0 <==> n * u == 0,
        size(n * u) == size(n) * u,
{
    assert((n < 0 <==> n * u < 0) && (n == 0 <==> n * u == 0)) by (nonlinear_arith)
        requires
            0 < u,
    ;
    assert((-n) * u == -(n * u)) by (nonlinear_arith);
}

/// One by its bits is the whole number.
pub proof fn lemma_one()
    ensures
        of_int(1) == (Single { bits: ONE }),
{
    vstd::arithmetic::power2::lemma2_to64();
    vstd::arithmetic::power2::lemma_pow2_adds(23, 126);
    vstd::arithmetic::power2::lemma_pow2_pos(126);
    lemma_near_close(0x80_0000, 126, 1, 0);
    assert(1 * unit() == unit());
}

} // verus!
