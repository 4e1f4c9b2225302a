//! Fixed-point arithmetic helpers shared by the geometric and ballistic
//! computations: integer square root, and truncating division on products
//! whose sign is carried separately so that division is only ever performed
//! on nonnegative operands.

use vstd::prelude::*;

verus! {

/// Largest magnitude, in thousandths, accepted for any coordinate, altitude,
/// range, sight elevation or dispersion radius. The bound is a machine limit:
/// it keeps every intermediate product of the fixed-point computations inside
/// the machine integer ranges.
pub const UNIT_LIMIT: i64 = 1_000_000_000;

/// The mathematical floor of the square root of `n`.
pub open spec fn floor_sqrt(n: nat) -> nat
    decreases n,
{
    if n == 0 {
        0
    } else {
        let r = floor_sqrt((n - 1) as nat);
        if (r + 1) * (r + 1) <= n {
            r + 1
        } else {
            r
        }
    }
}

/// `floor_sqrt(n)` is the unique `r` with `r * r <= n < (r + 1) * (r + 1)`.
pub proof fn lemma_floor_sqrt_bounds(n: nat)
    ensures
        floor_sqrt(n) * floor_sqrt(n) <= n,
        n < (floor_sqrt(n) + 1) * (floor_sqrt(n) + 1),
    decreases n,
{
    if n == 0 {
        assert(n < (floor_sqrt(n) + 1) * (floor_sqrt(n) + 1)) by (nonlinear_arith)
            requires
                n == 0,
                floor_sqrt(n) == 0,
        {}
    } else {
        let r = floor_sqrt((n - 1) as nat);
        lemma_floor_sqrt_bounds((n - 1) as nat);
        assert(floor_sqrt(n) == if (r + 1) * (r + 1) <= n {
            r + 1
        } else {
            r
        });
        if (r + 1) * (r + 1) <= n {
            assert(n < (r + 2) * (r + 2)) by (nonlinear_arith)
                requires
                    n - 1 < (r + 1) * (r + 1),
                    r >= 0,
            {}
            assert(n < (floor_sqrt(n) + 1) * (floor_sqrt(n) + 1)) by (nonlinear_arith)
                requires
                    floor_sqrt(n) == r + 1,
                    n < (r + 2) * (r + 2),
            {}
            assert(floor_sqrt(n) * floor_sqrt(n) <= n) by (nonlinear_arith)
                requires
                    floor_sqrt(n) == r + 1,
                    (r + 1) * (r + 1) <= n,
            {}
        } else {
            assert(floor_sqrt(n) == r);
            assert(floor_sqrt(n) * floor_sqrt(n) <= n) by (nonlinear_arith)
                requires
                    floor_sqrt(n) == r,
                    r * r <= n,
            {}
            assert(n < (floor_sqrt(n) + 1) * (floor_sqrt(n) + 1)) by (nonlinear_arith)
                requires
                    floor_sqrt(n) == r,
                    n < (r + 1) * (r + 1),
            {}
        }
    }
}

/// Any `r` sandwiched by consecutive squares around `n` is `floor_sqrt(n)`.
pub proof fn lemma_floor_sqrt_unique(n: nat, r: nat)
    requires
        r * r <= n,
        n < (r + 1) * (r + 1),
    ensures
        r == floor_sqrt(n),
{
    let f = floor_sqrt(n);
    lemma_floor_sqrt_bounds(n);
    if r < f {
        assert((r + 1) * (r + 1) <= f * f) by (nonlinear_arith)
            requires
                r + 1 <= f,
            {}
    }
    if f < r {
        assert((f + 1) * (f + 1) <= r * r) by (nonlinear_arith)
            requires
                f + 1 <= r,
            {}
    }
}

/// Computes the floor of the square root of `n` by binary search.
pub fn isqrt_u64(n: u64) -> (r: u64)
    ensures
        r == floor_sqrt(n as nat),
{
    let mut lo: u64 = 0;
    let mut hi: u64 = 4294967295;
    assert((n as int) < (hi + 1) * (hi + 1)) by (nonlinear_arith)
        requires
            n <= 0xffff_ffff_ffff_ffffu64,
            hi == 4294967295u64,
        {}
    while lo < hi
        invariant
            lo <= hi <= 4294967295,
            lo * lo <= n,
            (n as int) < (hi + 1) * (hi + 1),
        decreases hi - lo,
    {
        let mid = lo + (hi - lo + 1) / 2;
        assert(mid * mid <= 0xffff_fffe_0000_0001) by (nonlinear_arith)
            requires
                mid <= 4294967295u64,
            {}
        if mid * mid <= n {
            lo = mid;
        } else {
            hi = mid - 1;
        }
    }
    proof {
        lemma_floor_sqrt_unique(n as nat, lo as nat);
    }
    lo
}

/// Division of `p` by positive `q`, truncated toward zero; on nonnegative
/// operands this is ordinary integer division.
pub open spec fn div_trunc(p: int, q: int) -> int {
    if p >= 0 {
        p / q
    } else {
        -((-p) / q)
    }
}

/// The product of `a` and `b`, divided by positive `c` and truncated toward
/// zero.
pub open spec fn mul_div_trunc(a: int, b: int, c: int) -> int {
    div_trunc(a * b, c)
}

/// Truncated division of a 64-bit product: computes `a * b / c` rounded
/// toward zero, carrying the sign separately so only nonnegative quantities
/// are divided.
pub fn mul_div_i64(a: i64, b: i64, c: i64) -> (r: i64)
    requires
        c > 0,
        -0x4000_0000_0000_0000 < a < 0x4000_0000_0000_0000,
        -0x4000_0000_0000_0000 < b < 0x4000_0000_0000_0000,
        -0x4000_0000_0000_0000 < a * b < 0x4000_0000_0000_0000,
    ensures
        r == mul_div_trunc(a as int, b as int, c as int),
{
    let neg = (a < 0) != (b < 0);
    let ua: u64 = if a < 0 {
        (-a) as u64
    } else {
        a as u64
    };
    let ub: u64 = if b < 0 {
        (-b) as u64
    } else {
        b as u64
    };
    let uc: u64 = c as u64;
    assert(ua == abs_spec(a as int));
    assert(ub == abs_spec(b as int));
    assert(ua * ub == abs_spec((a as int) * (b as int))) by (nonlinear_arith)
        requires
            ua == abs_spec(a as int),
            ub == abs_spec(b as int),
        {}
    assert(ua * ub < 0x4000_0000_0000_0000);
    let q = ua * ub / uc;
    proof {
        vstd::arithmetic::div_mod::lemma_div_pos_is_pos((ua * ub) as int, uc as int);
        vstd::arithmetic::div_mod::lemma_div_nonincreasing((ua * ub) as int, uc as int);
        let p = (a as int) * (b as int);
        assert(q == abs_spec(p) / (c as int));
        if !neg {
            assert(p >= 0) by (nonlinear_arith)
                requires
                    p == (a as int) * (b as int),
                    (a < 0 && b < 0) || (a >= 0 && b >= 0),
            {}
        }
        if p >= 0 && neg {
            assert(p == 0) by (nonlinear_arith)
                requires
                    p == (a as int) * (b as int),
                    p >= 0,
                    (a < 0 && b >= 0) || (a >= 0 && b < 0),
            {}
        }
    }
    if neg {
        -(q as i64)
    } else {
        q as i64
    }
}

/// Truncated division of a 128-bit value by a positive divisor: computes
/// `p / c` rounded toward zero, carrying the sign separately so only
/// nonnegative quantities are divided.
pub fn div_trunc_i128(p: i128, c: i128) -> (r: i128)
    requires
        c > 0,
        p > i128::MIN,
    ensures
        r == div_trunc(p as int, c as int),
{
    let neg = p < 0;
    let up: u128 = if p < 0 {
        (-p) as u128
    } else {
        p as u128
    };
    let uc: u128 = c as u128;
    let q = up / uc;
    proof {
        vstd::arithmetic::div_mod::lemma_div_pos_is_pos(up as int, uc as int);
        vstd::arithmetic::div_mod::lemma_div_nonincreasing(up as int, uc as int);
    }
    if neg {
        -(q as i128)
    } else {
        q as i128
    }
}

/// The sign of `n`: one, minus one, or zero.
pub open spec fn sgn(n: int) -> int {
    if n > 0 {
        1
    } else if n < 0 {
        -1
    } else {
        0
    }
}

/// Division of `n` by nonzero `d`, truncated toward zero, whatever the sign
/// of `d`.
pub open spec fn rat_trunc(n: int, d: int) -> int {
    if d > 0 {
        div_trunc(n, d)
    } else {
        div_trunc(-n, -d)
    }
}

/// Truncated division shrinks toward zero and multiplies back to within one
/// divisor of the dividend.
pub proof fn lemma_div_trunc_props(p: int, q: int)
    requires
        q > 0,
    ensures
        p >= 0 ==> 0 <= div_trunc(p, q) <= p && q * div_trunc(p, q) <= p,
        p < 0 ==> p <= div_trunc(p, q) <= 0 && q * div_trunc(p, q) >= p,
{
    if p >= 0 {
        vstd::arithmetic::div_mod::lemma_div_pos_is_pos(p, q);
        vstd::arithmetic::div_mod::lemma_div_nonincreasing(p, q);
        vstd::arithmetic::div_mod::lemma_fundamental_div_mod(p, q);
        assert(q * (p / q) <= p);
    } else {
        vstd::arithmetic::div_mod::lemma_div_pos_is_pos(-p, q);
        vstd::arithmetic::div_mod::lemma_div_nonincreasing(-p, q);
        vstd::arithmetic::div_mod::lemma_fundamental_div_mod(-p, q);
        assert(q * ((-p) / q) <= -p);
        assert(q * div_trunc(p, q) == -(q * ((-p) / q))) by (nonlinear_arith)
            requires
                div_trunc(p, q) == -((-p) / q),
        {}
    }
}

/// Truncated division stays within any bound that the dividend respects
/// divisor-many times over.
pub proof fn lemma_div_trunc_le(p: int, q: int, b: int)
    requires
        q > 0,
        b >= 0,
        -(q * b) <= p <= q * b,
    ensures
        -b <= div_trunc(p, q) <= b,
{
    if p >= 0 {
        vstd::arithmetic::div_mod::lemma_div_pos_is_pos(p, q);
        vstd::arithmetic::div_mod::lemma_div_is_ordered(p, q * b, q);
        vstd::arithmetic::div_mod::lemma_div_multiples_vanish(b, q);
    } else {
        vstd::arithmetic::div_mod::lemma_div_pos_is_pos(-p, q);
        vstd::arithmetic::div_mod::lemma_div_is_ordered(-p, q * b, q);
        vstd::arithmetic::div_mod::lemma_div_multiples_vanish(b, q);
    }
}

/// A nonnegative dividend below `b` divisors gives a quotient of at most
/// `b`.
pub proof fn lemma_div_le_factor(p: int, q: int, b: int)
    requires
        q > 0,
        0 <= p,
        p <= b * q,
    ensures
        0 <= p / q <= b,
{
    assert(b * q == q * b) by (nonlinear_arith);
    vstd::arithmetic::div_mod::lemma_div_pos_is_pos(p, q);
    vstd::arithmetic::div_mod::lemma_div_is_ordered(p, q * b, q);
    vstd::arithmetic::div_mod::lemma_div_multiples_vanish(b, q);
}

/// A dividend at most `b` divisors large has a truncated quotient at most
/// one above `b`; a nonnegative one stays at or below `b`.
pub proof fn lemma_div_trunc_upper(p: int, q: int, b: int)
    requires
        q > 0,
        p <= q * b,
    ensures
        div_trunc(p, q) <= b + 1,
        p >= 0 ==> div_trunc(p, q) <= b,
{
    if p >= 0 {
        assert(b >= 0) by (nonlinear_arith)
            requires
                q > 0,
                0 <= p <= q * b,
        {}
        assert(p <= b * q) by (nonlinear_arith)
            requires
                p <= q * b,
        {}
        lemma_div_le_factor(p, q, b);
    } else {
        vstd::arithmetic::div_mod::lemma_fundamental_div_mod(-p, q);
        vstd::arithmetic::div_mod::lemma_mod_bound(-p, q);
        let w = (-p) / q;
        assert(q * w >= -p - q + 1);
        assert(q * (-w) <= p + q - 1 && p + q - 1 <= q * b + q - 1 && q * b + q - 1 < q * (b
            + 2)) by (nonlinear_arith)
            requires
                q * w >= -p - q + 1,
                p <= q * b,
                q > 0,
        {}
        assert(-w <= b + 1) by (nonlinear_arith)
            requires
                q * (-w) < q * (b + 2),
                q > 0,
        {}
    }
}

/// Truncated division is monotone in the dividend.
pub proof fn lemma_div_trunc_monotone(p1: int, p2: int, q: int)
    requires
        q > 0,
        p1 <= p2,
    ensures
        div_trunc(p1, q) <= div_trunc(p2, q),
{
    if p1 >= 0 {
        vstd::arithmetic::div_mod::lemma_div_is_ordered(p1, p2, q);
    } else if p2 < 0 {
        vstd::arithmetic::div_mod::lemma_div_is_ordered(-p2, -p1, q);
    } else {
        vstd::arithmetic::div_mod::lemma_div_pos_is_pos(-p1, q);
        vstd::arithmetic::div_mod::lemma_div_pos_is_pos(p2, q);
    }
}

/// Truncated division recovers an exact multiple of the divisor.
pub proof fn lemma_div_trunc_multiple(k: int, q: int)
    requires
        q > 0,
    ensures
        div_trunc(q * k, q) == k,
{
    if k >= 0 {
        vstd::arithmetic::div_mod::lemma_div_multiples_vanish(k, q);
    } else {
        vstd::arithmetic::div_mod::lemma_div_multiples_vanish(-k, q);
        assert(-(q * k) == q * (-k)) by (nonlinear_arith);
    }
}

/// The absolute value of `n`.
pub open spec fn abs_spec(n: int) -> int {
    if n >= 0 {
        n
    } else {
        -n
    }
}

/// The absolute value of `a`.
pub fn abs_i64(a: i64) -> (r: i64)
    requires
        a > i64::MIN,
    ensures
        r == abs_spec(a as int),
{
    if a < 0 {
        -a
    } else {
        a
    }
}

} // verus!
