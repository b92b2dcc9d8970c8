//! Whole-number arithmetic that gives exactly what the game's float
//! arithmetic gives: rounding to a given number of significant bits (to the
//! nearest, ties to even, as IEEE 754 floats round) and the quotient of a
//! 64-bit float division, truncated toward zero as a cast to `i64` does.
use vstd::prelude::*;

verus! {

/// 2^24: a 32-bit float's significand holds 24 bits.
pub const F32_LIMIT: u128 = 0x100_0000;

/// 2^53: a 64-bit float's significand holds 53 bits.
pub const F64_LIMIT: u128 = 0x20_0000_0000_0000;

/// 2^52: the smallest whole number with 53 significant bits.
pub const F64_HALF_LIMIT: u128 = 0x10_0000_0000_0000;

/// The power of two that `x` is rounded to a multiple of when it is kept to
/// fewer significant bits than `limit` (a power of two) allows.
pub open spec fn sig_scale(x: nat, limit: nat) -> nat
    decreases x,
{
    if x < limit || x == 0 {
        1
    } else {
        2 * sig_scale(x / 2, limit)
    }
}

/// `num / den` rounded to the nearest whole number, ties to the even one.
pub open spec fn round_quotient(num: nat, den: nat) -> nat {
    let q = num / den;
    let r = num % den;
    if 2 * r > den || (2 * r == den && q % 2 == 1) {
        q + 1
    } else {
        q
    }
}

/// `x` kept to the significant bits `limit` allows: rounded to the nearest,
/// ties to an even significand.
pub open spec fn round_sig(x: nat, limit: nat) -> nat {
    let p = sig_scale(x, limit);
    round_quotient(x, p) * p
}

/// Doubles `d` until `a / d` falls below 2^53.
pub open spec fn down_scale(a: nat, d: nat) -> nat
    decreases a - d,
{
    if d == 0 || a / d < F64_LIMIT {
        d
    } else {
        proof {
            vstd::arithmetic::div_mod::lemma_fundamental_div_mod(a as int, d as int);
            assert(a >= d * F64_LIMIT) by (nonlinear_arith)
                requires
                    a == d * (a / d) + a % d,
                    a / d >= F64_LIMIT,
                    a % d >= 0,
                    d >= 1,
            ;
        }
        down_scale(a, 2 * d)
    }
}

/// Doubles `n` until `n / v` reaches 2^52.
pub open spec fn up_scale(n: nat, v: nat) -> nat
    decreases 2 * F64_LIMIT * v - n,
{
    if n == 0 || v == 0 || n / v >= F64_HALF_LIMIT || n >= F64_LIMIT * v {
        n
    } else {
        proof {
            assert(2 * (F64_LIMIT as int) * v - 2 * n < 2 * (F64_LIMIT as int) * v - n);
            assert(2 * (F64_LIMIT as int) * v - 2 * n >= 0) by (nonlinear_arith)
                requires
                    n < F64_LIMIT * v,
            ;
        }
        up_scale(2 * n, v)
    }
}

/// What `(a as f64 / v as f64)` is for whole `a` and `v` at least 1 (with
/// `v` below 2^53, so held exactly): `a` is rounded to 53 significant bits,
/// then the quotient is rounded to 53 significant bits; the result is that
/// float truncated toward zero.
pub open spec fn f64_quotient(a: nat, v: nat) -> nat {
    let x = round_sig(a, F64_LIMIT as nat);
    if x / v >= F64_LIMIT {
        let d = down_scale(x, v);
        round_quotient(x, d) * (d / v)
    } else {
        let n = up_scale(x, v);
        round_quotient(n, v) / (n / x)
    }
}

proof fn lemma_sig_scale_bounds(x: nat, limit: nat)
    requires
        limit >= 2,
    ensures
        sig_scale(x, limit) >= 1,
        sig_scale(x, limit) == 1 || sig_scale(x, limit) <= x,
    decreases x,
{
    if !(x < limit || x == 0) {
        lemma_sig_scale_bounds(x / 2, limit);
    }
}

/// Rounding to fewer significant bits at most doubles a whole number, and
/// keeps a positive one positive.
pub proof fn lemma_round_sig_bounds(x: nat, limit: nat)
    requires
        limit >= 2,
    ensures
        round_sig(x, limit) <= 2 * x,
        x >= 1 ==> round_sig(x, limit) >= 1,
{
    let p = sig_scale(x, limit);
    lemma_sig_scale_bounds(x, limit);
    let q = x / p;
    let r = x % p;
    vstd::arithmetic::div_mod::lemma_fundamental_div_mod(x as int, p as int);
    let qq = round_quotient(x, p);
    assert(qq * p <= 2 * x) by (nonlinear_arith)
        requires
            x == p * q + r,
            0 <= r < p,
            qq <= q + 1,
            p == 1 || p <= x,
            p >= 1,
            qq == q + 1 ==> 2 * r >= p,
            qq != q + 1 ==> qq == q,
    ;
    if x >= 1 {
        assert(q >= 1) by (nonlinear_arith)
            requires
                x == p * q + r,
                0 <= r < p,
                p == 1 || p <= x,
                x >= 1,
        ;
        assert(qq * p >= 1) by (nonlinear_arith)
            requires
                qq >= q,
                q >= 1,
                p >= 1,
        ;
    }
}

/// A whole number already within the significant bits is kept as it is.
pub proof fn lemma_round_sig_small(x: nat, limit: nat)
    requires
        x < limit,
    ensures
        round_sig(x, limit) == x,
{
    assert(sig_scale(x, limit) == 1);
}

/// Rounds `x` to the significant bits `limit` allows (see `round_sig`).
pub fn round_significant(x: u128, limit: u128) -> (r: u128)
    requires
        x < 0x1_0000_0000_0000_0000_0000_0000,
        limit >= 2,
    ensures
        r == round_sig(x as nat, limit as nat),
        r <= 2 * x,
        x >= 1 ==> r >= 1,
{
    let mut p: u128 = 1;
    while x / p >= limit && x / p != 0
        invariant
            1 <= p,
            limit >= 2,
            x < 0x1_0000_0000_0000_0000_0000_0000,
            p == 1 || p <= x,
            sig_scale(x as nat, limit as nat) == p * sig_scale((x / p) as nat, limit as nat),
        decreases x / p,
    {
        proof {
            let y = (x / p) as nat;
            assert(sig_scale(y, limit as nat) == 2 * sig_scale(y / 2, limit as nat));
            vstd::arithmetic::div_mod::lemma_div_denominator(x as int, p as int, 2);
            assert(y / 2 == (x as int) / ((p * 2) as int));
            assert(p * (2 * sig_scale(y / 2, limit as nat)) == (p * 2) * sig_scale(y / 2, limit as nat))
                by (nonlinear_arith);
            vstd::arithmetic::div_mod::lemma_fundamental_div_mod(x as int, p as int);
            assert(p * 2 <= x) by (nonlinear_arith)
                requires
                    x == p * y + x % p,
                    y >= 2,
                    p >= 1,
                    x % p >= 0,
            ;
            vstd::arithmetic::div_mod::lemma_div_decreases(y as int, 2);
        }
        p = p * 2;
    }
    proof {
        let fx = sig_scale((x / p) as nat, limit as nat);
        assert(fx == 1);
        assert(p * fx == p) by (nonlinear_arith)
            requires
                fx == 1,
        ;
        lemma_round_sig_bounds(x as nat, limit as nat);
        vstd::arithmetic::div_mod::lemma_fundamental_div_mod(x as int, p as int);
    }
    let q = quotient_rounded(x, p);
    proof {
        assert(q * p <= 2 * x);
    }
    q * p
}

/// `num / den` rounded to the nearest, ties to even (see `round_quotient`).
pub fn quotient_rounded(num: u128, den: u128) -> (r: u128)
    requires
        den >= 1,
        num < 0x8000_0000_0000_0000_0000_0000_0000_0000,
        den < 0x8000_0000_0000_0000_0000_0000_0000_0000,
    ensures
        r == round_quotient(num as nat, den as nat),
        r <= num / den + 1,
{
    let q = num / den;
    let rem = num % den;
    if 2 * rem > den || (2 * rem == den && q % 2 == 1) {
        q + 1
    } else {
        q
    }
}

/// Doubling `n` up to the 53-bit range multiplies it by some `k`, and lands
/// the quotient by `v` in [2^52, 2^53).
proof fn lemma_up_scale(n: nat, v: nat) -> (k: nat)
    requires
        n >= 1,
        v >= 1,
        n < F64_LIMIT * v,
    ensures
        k >= 1,
        up_scale(n, v) == n * k,
        F64_HALF_LIMIT * v <= up_scale(n, v) < F64_LIMIT * v,
    decreases 2 * F64_LIMIT * v - n,
{
    vstd::arithmetic::div_mod::lemma_fundamental_div_mod(n as int, v as int);
    if n / v >= F64_HALF_LIMIT {
        assert(F64_HALF_LIMIT * v <= n) by (nonlinear_arith)
            requires
                n == v * (n / v) + n % v,
                n / v >= F64_HALF_LIMIT,
                n % v >= 0,
                v >= 1,
        ;
        1
    } else {
        assert(n < F64_HALF_LIMIT * v) by (nonlinear_arith)
            requires
                n == v * (n / v) + n % v,
                n / v < F64_HALF_LIMIT,
                n % v < v,
                v >= 1,
        ;
        assert(2 * (F64_LIMIT as int) * v - 2 * n >= 0) by (nonlinear_arith)
            requires
                n < F64_HALF_LIMIT * v,
        ;
        let k2 = lemma_up_scale(2 * n, v);
        assert((2 * n) * k2 == n * (2 * k2)) by (nonlinear_arith);
        2 * k2
    }
}

/// Doubling `d` until `a / d` falls below 2^53 keeps it a multiple of `v`
/// no larger than `a`, with `a / d` in [2^52, 2^53).
proof fn lemma_down_scale(a: nat, d: nat, v: nat)
    requires
        d >= 1,
        v >= 1,
        d % v == 0,
        a / d >= F64_HALF_LIMIT,
    ensures
        down_scale(a, d) % v == 0,
        d <= down_scale(a, d) <= a,
        F64_HALF_LIMIT <= a / down_scale(a, d) < F64_LIMIT,
    decreases a - d,
{
    vstd::arithmetic::div_mod::lemma_fundamental_div_mod(a as int, d as int);
    assert(d <= a) by (nonlinear_arith)
        requires
            a == d * (a / d) + a % d,
            a / d >= F64_HALF_LIMIT,
            a % d >= 0,
            d >= 1,
    ;
    if a / d >= F64_LIMIT {
        vstd::arithmetic::div_mod::lemma_div_denominator(a as int, d as int, 2);
        assert(2 * d <= a) by (nonlinear_arith)
            requires
                a == d * (a / d) + a % d,
                a / d >= F64_LIMIT,
                a % d >= 0,
                d >= 1,
        ;
        assert((2 * d) % v == 0) by {
            vstd::arithmetic::div_mod::lemma_fundamental_div_mod(d as int, v as int);
            assert(2 * d == v * (2 * (d / v))) by (nonlinear_arith)
                requires
                    d == v * (d / v) + d % v,
                    d % v == 0,
            ;
            vstd::arithmetic::div_mod::lemma_mod_multiples_basic(2 * (d / v) as int, v as int);
            assert((2 * (d / v)) * v == v * (2 * (d / v))) by (nonlinear_arith);
        }
        lemma_down_scale(a, 2 * d, v);
    }
}

/// What `(a as f64 / v as f64)` truncates to (see `f64_quotient`), for `a`
/// up to 2^63 and `v` up to 2^20.
pub fn float_quotient(a: u128, v: u128) -> (r: u128)
    requires
        1 <= a <= 0x8000_0000_0000_0000,
        1 <= v <= 0x10_0000,
    ensures
        r == f64_quotient(a as nat, v as nat),
{
    let x = round_significant(a, F64_LIMIT);
    if x / v >= F64_LIMIT {
        let mut d: u128 = v;
        proof {
            assert(d % v == 0) by {
                vstd::arithmetic::div_mod::lemma_mod_self_0(v as int);
            }
            lemma_down_scale(x as nat, d as nat, v as nat);
        }
        while x / d >= F64_LIMIT
            invariant
                1 <= v <= d <= x,
                x <= 0x1_0000_0000_0000_0000,
                d % v == 0,
                x / d >= F64_HALF_LIMIT,
                down_scale(x as nat, v as nat) == down_scale(x as nat, d as nat),
            decreases x - d,
        {
            proof {
                lemma_down_scale(x as nat, d as nat, v as nat);
                vstd::arithmetic::div_mod::lemma_fundamental_div_mod(x as int, d as int);
                assert(2 * d <= x) by (nonlinear_arith)
                    requires
                        x == d * (x / d) + x % d,
                        x / d >= F64_LIMIT,
                        x % d >= 0,
                        d >= 1,
                ;
                vstd::arithmetic::div_mod::lemma_div_denominator(x as int, d as int, 2);
                assert(((2 * d) as int) % (v as int) == 0) by {
                    vstd::arithmetic::div_mod::lemma_fundamental_div_mod(d as int, v as int);
                    assert(2 * d == (2 * (d / v)) * v) by (nonlinear_arith)
                        requires
                            d == v * (d / v) + d % v,
                            d % v == 0,
                    ;
                    vstd::arithmetic::div_mod::lemma_mod_multiples_basic(2 * (d / v) as int, v as int);
                }
            }
            d = d * 2;
        }
        let m = quotient_rounded(x, d);
        proof {
            assert(m <= F64_LIMIT);
            assert(d / v <= d) by {
                vstd::arithmetic::div_mod::lemma_div_is_ordered_by_denominator(d as int, 1, v as int);
            }
            assert(m * (d / v) <= F64_LIMIT * 0x1_0000_0000_0000_0000) by (nonlinear_arith)
                requires
                    m <= F64_LIMIT,
                    d / v <= d,
                    d <= 0x1_0000_0000_0000_0000,
            ;
        }
        m * (d / v)
    } else {
        let mut n: u128 = x;
        proof {
            vstd::arithmetic::div_mod::lemma_fundamental_div_mod(x as int, v as int);
            assert(x < F64_LIMIT * v) by (nonlinear_arith)
                requires
                    x == v * (x / v) + x % v,
                    x / v < F64_LIMIT,
                    x % v < v,
                    v >= 1,
            ;
            let k = lemma_up_scale(x as nat, v as nat);
        }
        while n != 0 && n / v < F64_HALF_LIMIT && n < F64_LIMIT * v
            invariant
                1 <= v <= 0x10_0000,
                1 <= x <= n,
                n < F64_LIMIT * v,
                up_scale(x as nat, v as nat) == up_scale(n as nat, v as nat),
            decreases 2 * F64_LIMIT * v - n,
        {
            proof {
                vstd::arithmetic::div_mod::lemma_fundamental_div_mod(n as int, v as int);
                assert(n < F64_HALF_LIMIT * v) by (nonlinear_arith)
                    requires
                        n == v * (n / v) + n % v,
                        n / v < F64_HALF_LIMIT,
                        n % v < v,
                        v >= 1,
                ;
                assert(2 * (F64_LIMIT as int) * v - 2 * n >= 0) by (nonlinear_arith)
                    requires
                        n < F64_HALF_LIMIT * v,
                ;
            }
            n = n * 2;
        }
        let m = quotient_rounded(n, v);
        proof {
            assert(n / x >= 1) by {
                vstd::arithmetic::div_mod::lemma_div_is_ordered(x as int, n as int, x as int);
                vstd::arithmetic::div_mod::lemma_div_by_self(x as int);
            }
        }
        m / (n / x)
    }
}

/// Below 2^53 the float quotient truncates to the whole-number quotient: the
/// dividend is held exactly, and rounding the quotient never reaches the
/// next whole number.
pub proof fn lemma_f64_quotient_exact(a: nat, v: nat)
    requires
        1 <= a < F64_LIMIT,
        v >= 1,
    ensures
        f64_quotient(a, v) == a / v,
{
    lemma_round_sig_small(a, F64_LIMIT as nat);
    let x = round_sig(a, F64_LIMIT as nat);
    assert(x == a);
    vstd::arithmetic::div_mod::lemma_fundamental_div_mod(a as int, v as int);
    assert(a / v < F64_LIMIT) by {
        vstd::arithmetic::div_mod::lemma_div_is_ordered_by_denominator(a as int, 1, v as int);
    }
    assert(a < F64_LIMIT * v) by (nonlinear_arith)
        requires
            a < F64_LIMIT,
            v >= 1,
    ;
    let k = lemma_up_scale(a, v);
    let n = up_scale(a, v);
    assert(n / a == k) by {
        vstd::arithmetic::div_mod::lemma_div_multiples_vanish(k as int, a as int);
        assert(a * k == k * a) by (nonlinear_arith);
    }
    let t = a / v;
    let s = a % v;
    let q = n / v;
    let r = n % v;
    vstd::arithmetic::div_mod::lemma_fundamental_div_mod(n as int, v as int);
    let m = round_quotient(n, v);
    // The scale is fine enough: 2k > v.
    assert(2 * k > v) by (nonlinear_arith)
        requires
            n == a * k,
            F64_HALF_LIMIT * v <= n,
            a < F64_LIMIT,
            k >= 1,
    ;
    // n / v lies in [t k, (t + 1) k).
    assert(q >= t * k) by (nonlinear_arith)
        requires
            n == a * k,
            a == v * t + s,
            s >= 0,
            k >= 1,
            n == v * q + r,
            0 <= r < v,
    ;
    assert(q < (t + 1) * k) by (nonlinear_arith)
        requires
            n == a * k,
            a == v * t + s,
            s < v,
            k >= 1,
            n == v * q + r,
            0 <= r < v,
    ;
    if q + 1 == (t + 1) * k {
        // Rounding up would reach t + 1; the remainder is too small for it.
        assert(r == v - k * (v - s)) by (nonlinear_arith)
            requires
                n == a * k,
                a == v * t + s,
                n == v * q + r,
                q + 1 == (t + 1) * k,
        ;
        assert(2 * r < v) by (nonlinear_arith)
            requires
                r == v - k * (v - s),
                2 * k > v,
                s < v,
        ;
        assert(m == q);
    }
    assert(t * k <= m < (t + 1) * k);
    assert(m / k == t) by {
        vstd::arithmetic::div_mod::lemma_fundamental_div_mod(m as int, k as int);
        assert(m / k == t) by (nonlinear_arith)
            requires
                t * k <= m < (t + 1) * k,
                m == k * (m / k) + m % k,
                0 <= m % k < k,
                k >= 1,
        ;
    }
}

/// `x` as a 32-bit float times a float constant held as `m` times a power of
/// two, the product rounded to a float again; scaled by that power of two.
pub open spec fn f32_product_scaled(x: nat, m: nat) -> nat {
    round_sig(round_sig(x, F32_LIMIT as nat) * m, F32_LIMIT as nat)
}

/// A bound on `f32_product_scaled`.
pub proof fn lemma_f32_product_bounds(x: nat, m: nat)
    ensures
        f32_product_scaled(x, m) <= 4 * m * x,
{
    lemma_round_sig_bounds(x, F32_LIMIT as nat);
    lemma_round_sig_bounds(round_sig(x, F32_LIMIT as nat) * m, F32_LIMIT as nat);
    assert(round_sig(x, F32_LIMIT as nat) * m <= 2 * x * m) by (nonlinear_arith)
        requires
            round_sig(x, F32_LIMIT as nat) <= 2 * x,
    ;
    assert(2 * (2 * x * m) == 4 * m * x) by (nonlinear_arith);
}

/// `x` as a 32-bit float times a float constant (see `f32_product_scaled`).
pub fn f32_product(x: u128, m: u128) -> (r: u128)
    requires
        x <= 0x1_0000_0000_0000_0000,
        m <= 0x4000_0000,
    ensures
        r == f32_product_scaled(x as nat, m as nat),
        r <= 4 * m * x,
{
    let a = round_significant(x, F32_LIMIT);
    proof {
        assert(a * m <= 2 * x * m) by (nonlinear_arith)
            requires
                a <= 2 * x,
        ;
        assert(2 * x * m <= 0x8000_0000_0000_0000_0000_0000) by (nonlinear_arith)
            requires
                x <= 0x1_0000_0000_0000_0000,
                m <= 0x4000_0000,
        ;
        assert(a * m < 0x1_0000_0000_0000_0000_0000_0000);
        lemma_f32_product_bounds(x as nat, m as nat);
    }
    round_significant(a * m, F32_LIMIT)
}

/// The 32-bit float nearest to 0.01 is this many 2^-30.
pub const F32_HUNDREDTH: u128 = 10737418;

/// 2^30, the scale of `F32_HUNDREDTH`.
pub const F32_HUNDREDTH_SCALE: u128 = 0x4000_0000;

/// The 32-bit float nearest to 0.05 is this many 2^-28.
pub const F32_TWENTIETH: u128 = 13421773;

/// 2^28, the scale of `F32_TWENTIETH`.
pub const F32_TWENTIETH_SCALE: u128 = 0x1000_0000;

/// `(p as f32 * c).floor() as i64` for the float constant `c` held as
/// `m / scale`.
pub open spec fn f32_times_floor(p: int, m: nat, scale: nat) -> int {
    if p >= 0 {
        (f32_product_scaled(p as nat, m) / scale) as int
    } else {
        -(((f32_product_scaled((-p) as nat, m) + scale - 1) as nat / scale) as int)
    }
}

/// `(p as f32 * c).ceil() as i64` for the float constant `c` held as
/// `m / scale`.
pub open spec fn f32_times_ceil(p: int, m: nat, scale: nat) -> int {
    if p >= 0 {
        (((f32_product_scaled(p as nat, m) + scale - 1) as nat) / scale) as int
    } else {
        -((f32_product_scaled((-p) as nat, m) / scale) as int)
    }
}

/// Computes `f32_times_floor` (when `ceil` is false) or `f32_times_ceil`.
pub fn float_times(p: i64, m: u128, scale: u128, ceil: bool) -> (r: i64)
    requires
        1 <= scale <= 0x1_0000_0000,
        8 * m <= scale,
    ensures
        !ceil ==> r == f32_times_floor(p as int, m as nat, scale as nat),
        ceil ==> r == f32_times_ceil(p as int, m as nat, scale as nat),
{
    let magnitude: u128 = if p >= 0 {
        p as u128
    } else {
        (0 - (p as i128)) as u128
    };
    let b = f32_product(magnitude, m);
    proof {
        assert(b <= 4 * m * magnitude);
        assert(4 * m * magnitude <= scale * 0x4000_0000_0000_0000) by (nonlinear_arith)
            requires
                8 * m <= scale,
                magnitude <= 0x8000_0000_0000_0000,
        ;
        let bi = b as int;
        let si = scale as int;
        let ci = bi + si - 1;
        vstd::arithmetic::div_mod::lemma_fundamental_div_mod(ci, si);
        assert(ci / si <= 0x4000_0000_0000_0000) by (nonlinear_arith)
            requires
                bi <= si * 0x4000_0000_0000_0000,
                si >= 1,
                ci == bi + si - 1,
                ci == si * (ci / si) + ci % si,
                ci % si >= 0,
        ;
        vstd::arithmetic::div_mod::lemma_div_is_ordered(bi, ci, si);
    }
    let down = b / scale;
    let up = (b + scale - 1) / scale;
    if (p >= 0) != ceil {
        if p >= 0 {
            down as i64
        } else {
            0 - (down as i64)
        }
    } else if p >= 0 {
        up as i64
    } else {
        0 - (up as i64)
    }
}

} // verus!
