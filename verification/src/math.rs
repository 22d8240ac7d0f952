//! Exact integer arithmetic helpers: saturation into `i64`, floor division,
//! and an integer square root.  Every contract pins the result to a spec-level
//! formula, so callers can state their own results exactly.

use vstd::prelude::*;

verus! {

use vstd::arithmetic::div_mod::{
    lemma_fundamental_div_mod, lemma_fundamental_div_mod_converse_div,
};

/// Clamp a mathematical integer into the `i64` range.  Saturation is this
/// kernel's analog of a float operation overflowing to infinity.
pub open spec fn sat64(x: int) -> i64 {
    if x > i64::MAX {
        i64::MAX
    } else if x < i64::MIN {
        i64::MIN
    } else {
        x as i64
    }
}

/// Saturating narrowing of an `i128` intermediate into an `i64` coordinate.
pub fn sat_to_i64(x: i128) -> (r: i64)
    ensures
        r == sat64(x as int),
{
    if x > i64::MAX as i128 {
        i64::MAX
    } else if x < i64::MIN as i128 {
        i64::MIN
    } else {
        x as i64
    }
}

/// Floor division by a positive divisor, as `int` division (`/` on `int` is
/// Euclidean, which for a positive divisor is floor division).
pub fn div_floor_i128(n: i128, d: i128) -> (q: i128)
    requires
        d > 0,
        n > i128::MIN,
    ensures
        q == n as int / d as int,
        n >= 0 ==> 0 <= q <= n,
        n < 0 ==> n <= q <= 0,
{
    if n >= 0 {
        let q = (n as u128) / (d as u128);
        proof {
            lemma_div_bound(n as int, d as int);
        }
        q as i128
    } else {
        let na = (-n) as u128;
        let du = d as u128;
        // ceil(na / du), so that -q is the floor of n / d
        let q = (na + (du - 1)) / du;
        proof {
            let qi = q as int;
            lemma_div_bound((na + (du - 1)) as int, du as int);
            lemma_fundamental_div_mod((na + (du - 1)) as int, du as int);
            // na + du - 1 == du * qi + r0 with 0 <= r0 < du
            let r0 = (na + (du - 1)) as int % du as int;
            assert(na + du - 1 == (du as int) * qi + r0);
            assert(na <= qi * (du as int) < na + du) by (nonlinear_arith)
                requires
                    na + du - 1 == (du as int) * qi + r0,
                    0 <= r0 < du as int,
                    du as int >= 1,
            ;
            let r = qi * (du as int) - na;
            assert(n as int == (-qi) * (d as int) + r) by (nonlinear_arith)
                requires
                    n as int == -(na as int),
                    d as int == du as int,
                    r == qi * (du as int) - na as int,
            ;
            lemma_fundamental_div_mod_converse_div(n as int, d as int, -qi, r);
            assert(qi <= na as int) by (nonlinear_arith)
                requires
                    qi * (du as int) < na as int + du as int,
                    du as int >= 1,
                    qi >= 0,
                    na as int >= 1,
            ;
        }
        -(q as i128)
    }
}

/// Dividing a non-negative value by a positive divisor never increases it.
pub proof fn lemma_div_bound(x: int, d: int)
    requires
        0 <= x,
        1 <= d,
    ensures
        0 <= x / d <= x,
{
    lemma_fundamental_div_mod(x, d);
    assert(0 <= x / d <= x) by (nonlinear_arith)
        requires
            0 <= x,
            1 <= d,
            x == d * (x / d) + (x % d),
            0 <= x % d < d,
    ;
}

/// A square of a value bounded by `b` in magnitude lies in `[0, b²]`.
pub proof fn lemma_square_bounds(x: int, b: int)
    requires
        -b <= x <= b,
    ensures
        0 <= x * x <= b * b,
{
    assert(0 <= x * x <= b * b) by (nonlinear_arith)
        requires
            -b <= x <= b,
    ;
}

/// A product of values bounded in magnitude is bounded by the product of the
/// bounds.
pub proof fn lemma_mul_abs_bound(a: int, b: int, ba: int, bb: int)
    requires
        -ba <= a <= ba,
        -bb <= b <= bb,
    ensures
        -(ba * bb) <= a * b <= ba * bb,
{
    assert(-(ba * bb) <= a * b <= ba * bb) by (nonlinear_arith)
        requires
            -ba <= a <= ba,
            -bb <= b <= bb,
    ;
}

/// The integer square root of `n`: the unique `r` with `r² ≤ n < (r+1)²`.
pub open spec fn sqrt_floor(n: nat) -> nat
    decreases n,
{
    if n <= 0 {
        0
    } else {
        let r = sqrt_floor((n - 1) as nat);
        if (r + 1) * (r + 1) <= n {
            r + 1
        } else {
            r
        }
    }
}

pub proof fn lemma_sqrt_floor_bounds(n: nat)
    ensures
        sqrt_floor(n) * sqrt_floor(n) <= n,
        n < (sqrt_floor(n) + 1) * (sqrt_floor(n) + 1),
    decreases n,
{
    if n > 0 {
        lemma_sqrt_floor_bounds((n - 1) as nat);
        let r = sqrt_floor((n - 1) as nat);
        assert(sqrt_floor(n) == if (r + 1) * (r + 1) <= n {
            r + 1
        } else {
            r
        });
        if (r + 1) * (r + 1) <= n {
            assert(n - 1 < (r + 1) * (r + 1));
            assert(sqrt_floor(n) == r + 1);
            assert(n < (sqrt_floor(n) + 1) * (sqrt_floor(n) + 1)) by (nonlinear_arith)
                requires
                    n <= (r + 1) * (r + 1),
                    sqrt_floor(n) == r + 1,
            ;
        } else {
            assert(sqrt_floor(n) == r);
            assert(n < (sqrt_floor(n) + 1) * (sqrt_floor(n) + 1));
        }
    } else {
        assert(sqrt_floor(0) == 0);
        assert(sqrt_floor(n) * sqrt_floor(n) <= n && n < (sqrt_floor(n) + 1) * (sqrt_floor(n)
            + 1)) by (nonlinear_arith)
            requires
                n == 0,
                sqrt_floor(n) == 0,
        ;
    }
}

pub proof fn lemma_sqrt_floor_unique(n: nat, r: nat)
    requires
        r * r <= n,
        n < (r + 1) * (r + 1),
    ensures
        r == sqrt_floor(n),
{
    let s = sqrt_floor(n);
    lemma_sqrt_floor_bounds(n);
    if r < s {
        assert((r + 1) * (r + 1) <= s * s) by (nonlinear_arith)
            requires
                r + 1 <= s,
        ;
    }
    if s < r {
        assert((s + 1) * (s + 1) <= r * r) by (nonlinear_arith)
            requires
                s + 1 <= r,
        ;
    }
}

/// Binary-search integer square root.
pub fn isqrt64(n: u64) -> (r: u64)
    ensures
        r == sqrt_floor(n as nat),
        r * r <= n < (r + 1) * (r + 1),
        r <= 0xFFFF_FFFF,
        n >= 1 ==> r >= 1,
{
    let mut lo: u64 = 0;
    let mut hi: u64 = 0x1_0000_0000;
    // invariant: lo² ≤ n < hi²
    proof {
        assert((0x1_0000_0000u64 as int) * (0x1_0000_0000u64 as int) == 0x1_0000_0000_0000_0000);
    }
    while lo + 1 < hi
        invariant
            lo < hi <= 0x1_0000_0000u64,
            (lo as int) * (lo as int) <= n as int,
            (n as int) < (hi as int) * (hi as int),
        decreases hi - lo,
    {
        let mid: u64 = lo + (hi - lo) / 2;
        proof {
            lemma_square_bounds(mid as int, 0x1_0000_0000);
        }
        if (mid as u128) * (mid as u128) <= n as u128 {
            lo = mid;
        } else {
            hi = mid;
        }
    }
    proof {
        lemma_sqrt_floor_unique(n as nat, lo as nat);
        assert(n >= 1 ==> lo >= 1) by (nonlinear_arith)
            requires
                (n as int) < (lo as int + 1) * (lo as int + 1),
        ;
    }
    lo
}

} // verus!
