//! Double-precision numbers, as far as scaling needs them.
//!
//! From one on, a double is a whole multiple of 2^-52: it is held here as that
//! multiple, so that one is `ONE`. A ratio of two 32-bit numbers that is less
//! than one is held as a multiple of 2^-85, so that one is `FINE`.

use vstd::prelude::*;

verus! {

/// 2^52: the number of steps from zero to one.
pub const ONE: u128 = 0x10_0000_0000_0000;

/// 2^85: the number of fine steps from zero to one.
pub const FINE: u128 = 0x20_0000_0000_0000_0000_0000;

/// More than any quotient of two 32-bit numbers.
pub const LIMIT: u128 = 0x20_0000_0000_0000_0000_0000;

/// The whole number nearest to `n / d`; of two, the even one.
pub open spec fn nearest(n: int, d: int) -> int {
    let q = n / d;
    let r = n % d;
    if 2 * r > d || (2 * r == d && q % 2 == 1) {
        q + 1
    } else {
        q
    }
}

/// `n / d` to 53 binary digits. What a double cannot hold is rounded to the
/// nearest one that it can; of two, to the one that ends in an even digit.
pub open spec fn kept(n: int, d: int) -> int
    decreases n - d,
{
    if d <= 0 || n < 0x20_0000_0000_0000 * d {
        nearest(n, d)
    } else {
        2 * kept(n, 2 * d)
    }
}

/// The steps to one in which the ratio `n / d` is held.
pub open spec fn steps(n: int, d: int) -> int {
    if n >= d {
        ONE as int
    } else {
        FINE as int
    }
}

/// `v` times the double nearest to `n / d`, rounded up.
pub open spec fn product_up(v: int, n: int, d: int) -> int {
    let one = steps(n, d);
    (times(v, kept(n * one, d)) + one - 1) / one
}

/// The double nearest to `n / d`, for `n` no less than `d`.
pub open spec fn ratio(n: int, d: int) -> int {
    kept(n * ONE, d)
}

/// The double nearest to `v` times the double `x`.
pub open spec fn times(v: int, x: int) -> int {
    kept(v * x, 1)
}

/// The double `x` rounded up to a whole number.
pub open spec fn ceiling(x: int) -> int {
    (x + ONE - 1) / ONE as int
}

/// The double `x` rounded to the nearest whole number, halves up.
pub open spec fn rounded(x: int) -> int {
    (x + ONE / 2) / ONE as int
}

proof fn lemma_nearest(n: int, d: int)
    requires
        0 <= n,
        0 < d,
    ensures
        0 <= n / d <= nearest(n, d) <= n / d + 1,
        d * (n / d) <= n < d * (n / d) + d,
        2 * (nearest(n, d) * d) <= 2 * n + d,
{
    let q = n / d;
    let r = n % d;
    assert(d * q + r == n && 0 <= r < d && 0 <= q) by (nonlinear_arith)
        requires
            q == n / d,
            r == n % d,
            0 <= n,
            0 < d,
    ;
    assert(q * d == d * q && (q + 1) * d == d * q + d) by (nonlinear_arith);
}

/// A kept number is at most twice the quotient.
proof fn lemma_kept_bound(n: int, d: int)
    requires
        0 < d,
        n == 0 || d <= n,
    ensures
        0 <= kept(n, d),
        kept(n, d) * d <= 2 * n,
        kept(n, d) <= 2 * n,
    decreases n - d,
{
    lemma_nearest(n, d);
    if n < 0x20_0000_0000_0000 * d {
        if n == 0 {
            assert(kept(n, d) == 0) by (nonlinear_arith)
                requires
                    2 * (kept(n, d) * d) <= d,
                    0 <= kept(n, d),
                    0 < d,
            ;
        }
    } else {
        lemma_kept_bound(n, 2 * d);
        let half = kept(n, 2 * d);
        assert((2 * half) * d == half * (2 * d)) by (nonlinear_arith);
    }
    let k = kept(n, d);
    assert(k <= k * d) by (nonlinear_arith)
        requires
            0 <= k,
            0 < d,
    ;
}

/// Rounding to 53 digits does not fall below their smallest number.
proof fn lemma_kept_from(n: int, d: int)
    requires
        0 < d,
        0x10_0000_0000_0000 * d <= n,
    ensures
        ONE <= kept(n, d),
    decreases n - d,
{
    lemma_nearest(n, d);
    if n < 0x20_0000_0000_0000 * d {
        assert(n / d >= ONE) by (nonlinear_arith)
            requires
                0x10_0000_0000_0000 * d <= n < d * (n / d) + d,
                0 < d,
        ;
    } else {
        lemma_kept_from(n, 2 * d);
    }
}

/// Rounding to 53 digits keeps the order.
proof fn lemma_kept_order(m: int, n: int, d: int)
    requires
        0 < d,
        0 <= m <= n,
    ensures
        0 <= kept(m, d) <= kept(n, d),
    decreases n - d,
{
    lemma_nearest(m, d);
    lemma_nearest(n, d);
    if n < 0x20_0000_0000_0000 * d {
        assert(m / d <= n / d && (m / d == n / d ==> m % d <= n % d)) by (nonlinear_arith)
            requires
                0 <= m <= n,
                0 < d,
        ;
    } else if m < 0x20_0000_0000_0000 * d {
        assert(m / d < 0x20_0000_0000_0000) by (nonlinear_arith)
            requires
                d * (m / d) <= m < 0x20_0000_0000_0000 * d,
                0 < d,
        ;
        lemma_kept_from(n, 2 * d);
    } else {
        lemma_kept_order(m, n, 2 * d);
    }
}

/// A number that needs no more than 53 digits is kept as it is.
proof fn lemma_kept_whole(a: int, j: nat, d: int)
    requires
        0 <= a < 0x20_0000_0000_0000,
        0 < d,
    ensures
        kept((a * vstd::arithmetic::power2::pow2(j)) * d, d) == a * vstd::arithmetic::power2::pow2(j),
    decreases j,
{
    let m = a * vstd::arithmetic::power2::pow2(j);
    let n = m * d;
    if n < 0x20_0000_0000_0000 * d {
        assert(n == d * m) by (nonlinear_arith)
            requires
                n == m * d,
        ;
        vstd::arithmetic::div_mod::lemma_fundamental_div_mod_converse(n, d, m, 0);
    } else {
        assert(m >= 0x20_0000_0000_0000) by (nonlinear_arith)
            requires
                m * d >= 0x20_0000_0000_0000 * d,
                0 < d,
        ;
        vstd::arithmetic::power2::lemma2_to64();
        assert(j > 0) by {
            if j == 0 {
                assert(m == a) by (nonlinear_arith)
                    requires
                        m == a * 1,
                ;
            }
        }
        let i = (j - 1) as nat;
        vstd::arithmetic::power2::lemma_pow2_unfold(j);
        let half = a * vstd::arithmetic::power2::pow2(i);
        let p = vstd::arithmetic::power2::pow2(i) as int;
        assert(m == 2 * half) by (nonlinear_arith)
            requires
                m == a * (2 * p),
                half == a * p,
        ;
        assert(n == half * (2 * d)) by (nonlinear_arith)
            requires
                n == m * d,
                m == 2 * half,
        ;
        lemma_kept_whole(a, i, 2 * d);
    }
}

/// A whole number times a whole scale is exact.
pub proof fn lemma_times_whole(v: int, s: int)
    requires
        0 <= v * s < 0x20_0000_0000_0000,
    ensures
        times(v, s * ONE) == v * s * ONE,
        rounded(times(v, s * ONE)) == v * s,
{
    vstd::arithmetic::power2::lemma2_to64_rest();
    lemma_kept_whole(v * s, 52, 1);
    assert(v * (s * ONE) == v * s * ONE) by (nonlinear_arith);
}

/// Every ratio lies between one and the limit.
pub proof fn lemma_ratio_range(n: int, d: int)
    requires
        0 < d <= n <= u32::MAX,
    ensures
        ONE <= ratio(n, d) <= LIMIT,
{
    assert(0x10_0000_0000_0000 * d <= n * ONE) by (nonlinear_arith)
        requires
            d <= n,
    ;
    assert(d <= n * ONE) by (nonlinear_arith)
        requires
            d <= n,
            0 < n,
            ONE >= 1,
    ;
    lemma_kept_from(n * ONE, d);
    lemma_kept_bound(n * ONE, d);
}

/// Scaled places keep their order, and lie within the scaled length.
pub proof fn lemma_scaled_order(v: int, w: int, length: int, x: int)
    requires
        0 <= v <= w <= length,
        0 <= x,
    ensures
        0 <= rounded(times(v, x)) <= rounded(times(w, x)) <= ceiling(times(length, x)),
{
    assert(0 <= v * x <= w * x <= length * x) by (nonlinear_arith)
        requires
            0 <= v <= w <= length,
            0 <= x,
    ;
    lemma_kept_order(v * x, w * x, 1);
    lemma_kept_order(w * x, length * x, 1);
}

fn keep(n: u128, d: u128) -> (r: u128)
    requires
        0 < d,
        n == 0 || d <= n,
        n <= 0x4_0000_0000 * LIMIT,
    ensures
        r == kept(n as int, d as int),
    decreases n - d,
{
    let q: u128 = n / d;
    let rest: u128 = n % d;
    proof {
        lemma_nearest(n as int, d as int);
        lemma_kept_bound(n as int, d as int);
    }
    if q < 0x20_0000_0000_0000 {
        assert(n < 0x20_0000_0000_0000 * d) by (nonlinear_arith)
            requires
                n < d * q + d,
                q < 0x20_0000_0000_0000,
                0 < d,
        ;
        if 2 * rest > d || (2 * rest == d && q % 2 == 1) {
            q + 1
        } else {
            q
        }
    } else {
        assert(n >= 0x20_0000_0000_0000 * d) by (nonlinear_arith)
            requires
                d * q <= n,
                q >= 0x20_0000_0000_0000,
                0 < d,
        ;
        proof {
            lemma_kept_bound(n as int, 2 * d);
        }
        2 * keep(n, 2 * d)
    }
}

/// The double nearest to `n / d`.
pub fn divide(n: u32, d: u32) -> (r: u128)
    requires
        0 < d <= n,
    ensures
        r == ratio(n as int, d as int),
{
    assert(n * ONE <= u32::MAX * LIMIT && d <= n * ONE) by (nonlinear_arith)
        requires
            0 < d <= n <= u32::MAX,
            1 <= ONE <= LIMIT,
    ;
    keep(n as u128 * ONE, d as u128)
}

/// The double nearest to `v` times the double `x`.
pub fn multiply(v: u32, x: u128) -> (r: u128)
    requires
        0 < x <= LIMIT,
    ensures
        r == times(v as int, x as int),
{
    assert(v * x <= u32::MAX * LIMIT && (v > 0 ==> v * x >= 1)) by (nonlinear_arith)
        requires
            0 <= v <= u32::MAX,
            0 < x <= LIMIT,
    ;
    keep(v as u128 * x, 1)
}

/// `v` times the double `x`, rounded up, as far as it can be represented.
pub fn multiply_up(v: u32, x: u128) -> (r: u32)
    requires
        0 < x <= LIMIT,
    ensures
        r == if ceiling(times(v as int, x as int)) <= u32::MAX {
            ceiling(times(v as int, x as int))
        } else {
            u32::MAX as int
        },
{
    let product: u128 = multiply(v, x);
    proof {
        lemma_times_bound(v, x);
    }
    let side: u128 = (product + ONE - 1) / ONE;
    if side <= 0xffff_ffff {
        side as u32
    } else {
        0xffff_ffff
    }
}

/// `v` times the double `x`, rounded to nearest.
pub fn multiply_round(v: u32, x: u128) -> (r: u128)
    requires
        0 < x <= LIMIT,
    ensures
        r == rounded(times(v as int, x as int)),
{
    let product: u128 = multiply(v, x);
    proof {
        lemma_times_bound(v, x);
    }
    (product + ONE / 2) / ONE
}

/// A length times the double nearest to `n / d`, rounded up and cut to `most`.
pub fn scale_up(v: u64, n: u32, d: u32, most: u32) -> (r: u32)
    requires
        0 < d,
        v <= 0x4_0000_0000,
    ensures
        r == if product_up(v as int, n as int, d as int) <= most {
            product_up(v as int, n as int, d as int)
        } else {
            most as int
        },
{
    let one: u128 = if n >= d { ONE } else { FINE };
    proof {
        lemma_steps(n as int, d as int);
        assert(n * one <= 0x4_0000_0000 * LIMIT && (n > 0 ==> d <= n * one)) by (nonlinear_arith)
            requires
                0 <= n <= 0xffff_ffff,
                0 < d <= 0xffff_ffff,
                0x1_0000_0000 <= one <= LIMIT,
        ;
    }
    let scale: u128 = keep(n as u128 * one, d as u128);
    proof {
        assert(v * scale <= 0x4_0000_0000 * LIMIT && (v > 0 && scale > 0 ==> v * scale >= 1)
            && (v == 0 || scale == 0 ==> v * scale == 0)) by (nonlinear_arith)
            requires
                0 <= v <= 0x4_0000_0000,
                0 <= scale <= LIMIT,
        ;
        lemma_kept_bound(v * scale, 1);
    }
    let product: u128 = keep(v as u128 * scale, 1);
    let up: u128 = (product + one - 1) / one;
    if up <= most as u128 {
        up as u32
    } else {
        most
    }
}

/// A ratio is at most the limit, in its steps.
proof fn lemma_steps(n: int, d: int)
    requires
        0 <= n <= u32::MAX,
        0 < d,
    ensures
        0 <= kept(n * steps(n, d), d) <= LIMIT,
{
    let one = steps(n, d);
    if n >= d {
        lemma_ratio_range(n, d);
    } else {
        assert(0 <= n * one <= one * d) by (nonlinear_arith)
            requires
                0 <= n < d,
                0 < one,
        ;
        lemma_kept_order(n * one, one * d, d);
        vstd::arithmetic::power2::lemma2_to64_rest();
        vstd::arithmetic::power2::lemma_pow2_adds(53, 32);
        vstd::arithmetic::power2::lemma2_to64();
        assert(1 * vstd::arithmetic::power2::pow2(85) == FINE);
        lemma_kept_whole(1, 85, d);
    }
}

/// With a scale that is a whole number `a` of parts, 2^`j` of them to one, the
/// scaled length is exact, as far as it is less than `most`.
pub proof fn lemma_product_exact(v: int, n: int, d: int, a: int, j: nat, most: int)
    requires
        0 <= v,
        0 <= n <= u32::MAX,
        0 < d <= u32::MAX,
        j <= 20,
        n * vstd::arithmetic::power2::pow2(j) == a * d,
        0 <= most <= u32::MAX,
    ensures
        ({
            let exact = (v * n + d - 1) / d;
            let up = product_up(v, n, d);
            &&& exact >= most <==> up >= most
            &&& exact < most ==> up == exact
        }),
{
    let p = vstd::arithmetic::power2::pow2(j) as int;
    vstd::arithmetic::power2::lemma2_to64();
    vstd::arithmetic::power2::lemma2_to64_rest();
    vstd::arithmetic::power2::lemma_pow2_pos(j);
    vstd::arithmetic::power2::lemma_pow2_adds(53, 32);
    if j < 20 {
        vstd::arithmetic::power2::lemma_pow2_strictly_increases(j, 20);
    }
    assert(p <= 0x10_0000);
    let one = steps(n, d);
    let bits: nat = if n >= d { 52 } else { 85 };
    assert(vstd::arithmetic::power2::pow2(bits) == one);
    let k = (bits - j) as nat;
    let q = vstd::arithmetic::power2::pow2(k) as int;
    vstd::arithmetic::power2::lemma_pow2_adds(j, k);
    vstd::arithmetic::power2::lemma_pow2_pos(k);
    assert(p * q == one);
    // The scale is `a * q` steps.
    assert(0 <= a <= n * p) by (nonlinear_arith)
        requires
            a * d == n * p,
            0 <= n,
            0 < p,
            1 <= d,
    ;
    assert(n * p <= 0xffff_ffff * 0x10_0000) by (nonlinear_arith)
        requires
            0 <= n <= 0xffff_ffff,
            0 < p <= 0x10_0000,
    ;
    assert(n * one == (a * q) * d) by (nonlinear_arith)
        requires
            p * q == one,
            n * p == a * d,
    ;
    lemma_kept_whole(a, k, d);
    let scale = a * q;
    // Exactly, the length is `v * a / p`.
    let exact = (v * n + d - 1) / d;
    assert(v * n * p == v * a * d) by (nonlinear_arith)
        requires
            n * p == a * d,
    ;
    assert(0 <= v * a) by (nonlinear_arith)
        requires
            0 <= v,
            0 <= a,
    ;
    assert(v * scale == (v * a) * q) by (nonlinear_arith)
        requires
            scale == a * q,
    ;
    lemma_same_ceiling(v * n, d, v * a, p);
    assert(exact == (v * a + p - 1) / p);
    if v * a < 0x20_0000_0000_0000 {
        lemma_kept_whole(v * a, k, 1);
        assert(times(v, scale) == (v * a) * q);
        assert((v * a) * one == ((v * a) * q) * p) by (nonlinear_arith)
            requires
                p * q == one,
        ;
        lemma_same_ceiling(v * a, p, (v * a) * q, one);
    } else {
        // Both are beyond what is asked for.
        assert(exact >= most) by (nonlinear_arith)
            requires
                exact == (v * a + p - 1) / p,
                v * a >= 0x20_0000_0000_0000,
                0 < p <= 0x10_0000,
                most <= 0xffff_ffff,
        ;
        assert(v * scale >= most * one) by (nonlinear_arith)
            requires
                v * scale == (v * a) * q,
                v * a >= 0x20_0000_0000_0000,
                p * q == one,
                0 < p <= 0x10_0000,
                0 < q,
                0 <= most <= 0xffff_ffff,
        ;
        assert(0 <= most * one) by (nonlinear_arith)
            requires
                0 <= most,
                0 <= one,
        ;
        lemma_kept_order(most * one, v * scale, 1);
        lemma_kept_whole(most, bits, 1);
        let product = times(v, scale);
        assert((product + one - 1) / one >= most) by (nonlinear_arith)
            requires
                product >= most * one,
                0 < one,
        ;
    }
}

/// Equal fractions round up to the same number.
proof fn lemma_same_ceiling(x: int, d: int, y: int, e: int)
    requires
        0 < d,
        0 < e,
        x * e == y * d,
    ensures
        (x + d - 1) / d == (y + e - 1) / e,
{
    let q = (x + d - 1) / d;
    assert(d * q <= x + d - 1 < d * q + d) by (nonlinear_arith)
        requires
            q == (x + d - 1) / d,
            0 < d,
    ;
    // x <= d * q and x > d * (q - 1), and so for y and e.
    assert(y <= e * q && y > e * q - e) by (nonlinear_arith)
        requires
            d * q <= x + d - 1,
            x + d - 1 < d * q + d,
            x * e == y * d,
            0 < d,
            0 < e,
    ;
    assert(q * e == e * q) by (nonlinear_arith);
    vstd::arithmetic::div_mod::lemma_fundamental_div_mod_converse(
        y + e - 1,
        e,
        q,
        y + e - 1 - e * q,
    );
}

proof fn lemma_times_bound(v: u32, x: u128)
    requires
        0 < x <= LIMIT,
    ensures
        0 <= times(v as int, x as int) <= 2 * (u32::MAX * LIMIT),
{
    assert(v * x <= u32::MAX * LIMIT && (v > 0 ==> v * x >= 1) && (v == 0 ==> v * x == 0))
        by (nonlinear_arith)
        requires
            0 <= v <= u32::MAX,
            0 < x <= LIMIT,
    ;
    lemma_kept_bound(v * x, 1);
}

/// A number without its sign.
pub open spec fn size(n: int) -> int {
    if n < 0 {
        -n
    } else {
        n
    }
}

/// No double is closer to a fraction than the one that it is rounded to.
pub proof fn rounding_gives_the_nearest_double(n: int, d: int, a: int, j: nat)
    requires
        0 <= n,
        0 < d,
        0 <= a < 0x20_0000_0000_0000,
    ensures
        size(kept(n, d) * d - n) <= size((a * vstd::arithmetic::power2::pow2(j)) * d - n),
    decreases n - d,
{
    let p = vstd::arithmetic::power2::pow2(j) as int;
    vstd::arithmetic::power2::lemma_pow2_pos(j);
    vstd::arithmetic::power2::lemma2_to64();
    lemma_nearest(n, d);
    let c = a * p;
    if n < 0x20_0000_0000_0000 * d {
        let q = n / d;
        let r = nearest(n, d);
        vstd::arithmetic::div_mod::lemma_fundamental_div_mod(n, d);
        assert(r * d == if r == q { d * q } else { d * q + d }) by (nonlinear_arith)
            requires
                r == q || r == q + 1,
        ;
        if c <= q {
            assert(c * d <= d * q) by (nonlinear_arith)
                requires
                    c <= q,
                    0 < d,
            ;
        } else {
            assert(c * d >= d * q + d) by (nonlinear_arith)
                requires
                    c >= q + 1,
                    0 < d,
            ;
        }
    } else {
        let w = kept(n, 2 * d);
        assert((2 * w) * d == w * (2 * d)) by (nonlinear_arith);
        if j > 0 {
            rounding_gives_the_nearest_double(n, 2 * d, a, (j - 1) as nat);
            vstd::arithmetic::power2::lemma_pow2_unfold(j);
            let h = vstd::arithmetic::power2::pow2((j - 1) as nat) as int;
            assert((a * (2 * h)) * d == (a * h) * (2 * d)) by (nonlinear_arith);
        } else {
            rounding_gives_the_nearest_double(n, 2 * d, 0x10_0000_0000_0000, 0);
            assert(a * 1 == a && p == 1);
            let half: int = 0x10_0000_0000_0000;
            assert(half * 1 == half);
            assert(half * (2 * d) == (2 * half) * d) by (nonlinear_arith);
            assert((2 * half) * d == 0x20_0000_0000_0000 * d);
            assert(a * d <= 0x20_0000_0000_0000 * d) by (nonlinear_arith)
                requires
                    a <= 0x20_0000_0000_0000,
                    0 < d,
            ;
        }
    }
}

/// Rounding to a whole number goes to the nearest, and rounding up to the next.
pub proof fn whole_parts_are_nearest(x: int)
    requires
        0 <= x,
    ensures
        -ONE <= 2 * (rounded(x) * ONE - x) <= ONE,
        x <= ceiling(x) * ONE < x + ONE,
{
}

} // verus!
