//! Integer square root.
use vstd::prelude::*;

verus! {

/// `r` is the square root of `n`, rounded down.
pub open spec fn is_floor_sqrt(n: int, r: int) -> bool {
    0 <= r && r * r <= n < (r + 1) * (r + 1)
}

/// The square root of `n`, rounded down.
pub open spec fn floor_sqrt(n: nat) -> nat {
    choose|r: nat| #[trigger] is_floor_sqrt(n as int, r as int)
}

/// A number has one rounded-down square root: whatever satisfies
/// `is_floor_sqrt` is `floor_sqrt`.
pub proof fn lemma_floor_sqrt_unique(n: nat, r: nat)
    requires
        is_floor_sqrt(n as int, r as int),
    ensures
        floor_sqrt(n) == r,
{
    let s = floor_sqrt(n);
    assert(is_floor_sqrt(n as int, s as int));
    if s < r {
        assert((s + 1) * (s + 1) <= r * r) by (nonlinear_arith)
            requires
                s + 1 <= r,
                0 <= s,
        ;
    } else if r < s {
        assert((r + 1) * (r + 1) <= s * s) by (nonlinear_arith)
            requires
                r + 1 <= s,
                0 <= r,
        ;
    }
}

/// The rounded-down root reaches a bound exactly where the number reaches the
/// bound's square, so comparing roots decides the same as comparing squares.
pub proof fn lemma_floor_sqrt_reaches(n: nat, r: nat, bound: nat)
    requires
        is_floor_sqrt(n as int, r as int),
    ensures
        r >= bound <==> n >= bound * bound,
{
    if r >= bound {
        assert(bound * bound <= r * r) by (nonlinear_arith)
            requires
                0 <= bound <= r,
        ;
    } else {
        assert((r + 1) * (r + 1) <= bound * bound) by (nonlinear_arith)
            requires
                r + 1 <= bound,
                0 <= r,
        ;
    }
}

/// One step of Newton's iteration never falls below the rounded-down root.
proof fn lemma_newton_step_stays_above(n: int, x: int, y: int)
    requires
        0 <= n,
        0 < x,
        y == (x + n / x) / 2,
    ensures
        0 <= y,
        n < (y + 1) * (y + 1),
{
    let q = n / x;
    assert(0 <= q && q * x <= n && n < (q + 1) * x) by (nonlinear_arith)
        requires
            0 <= n,
            0 < x,
            q == n / x,
    ;
    let t = y + 1;
    assert(2 * t >= x + q + 1);
    assert((q + 1) * x <= t * t) by (nonlinear_arith)
        requires
            2 * t >= x + q + 1,
            0 < x,
            0 <= q,
    {
        let u = x + q + 1;
        assert(u * u - 4 * ((q + 1) * x) == (x - q - 1) * (x - q - 1));
        assert((x - q - 1) * (x - q - 1) >= 0);
        assert((2 * t) * (2 * t) >= u * u);
        assert((2 * t) * (2 * t) == 4 * (t * t));
    }
}

/// Where an iteration step does not go down any more, the root is reached.
proof fn lemma_newton_stop(n: int, x: int, y: int)
    requires
        0 <= n,
        0 < x,
        y == (x + n / x) / 2,
        y >= x,
    ensures
        x * x <= n,
{
    let q = n / x;
    assert(q >= x);
    assert(x * x <= n) by (nonlinear_arith)
        requires
            0 <= n,
            0 < x,
            q == n / x,
            q >= x,
    ;
}

/// The two terms of an iteration step add up to at most `n + 1`.
proof fn lemma_newton_sum_bound(n: int, x: int)
    requires
        0 < x <= n,
    ensures
        1 <= n / x,
        x + n / x <= n + 1,
{
    let q = n / x;
    assert(q >= 1 && q * x <= n) by (nonlinear_arith)
        requires
            0 < x <= n,
            q == n / x,
    ;
    assert(x + q <= q * x + 1) by (nonlinear_arith)
        requires
            x >= 1,
            q >= 1,
    ;
}

/// Integer square root by Newton's iteration, rounded down.
pub fn approximate_sqrt(n: u32) -> (r: u32)
    requires
        n < u32::MAX,
    ensures
        r == floor_sqrt(n as nat),
        is_floor_sqrt(n as int, r as int),
{
    if n == 0 {
        proof {
            lemma_floor_sqrt_unique(0, 0);
        }
        return 0;
    }
    if n == 1 {
        proof {
            lemma_floor_sqrt_unique(1, 1);
        }
        return 1;
    }
    let mut x: u32 = n;
    let mut y: u32 = (x + 1) / 2;
    assert(n as int / x as int == 1) by (nonlinear_arith)
        requires
            n == x,
            n > 0,
    ;
    assert((n + 1) * (n + 1) > n) by (nonlinear_arith)
        requires
            n > 0,
    ;
    while y < x
        invariant
            0 < n < u32::MAX,
            0 < x <= n,
            y == (x as int + n as int / x as int) / 2,
            n < (x + 1) * (x + 1),
            0 < y <= n,
        decreases x,
    {
        proof {
            lemma_newton_step_stays_above(n as int, x as int, y as int);
        }
        x = y;
        proof {
            lemma_newton_sum_bound(n as int, x as int);
        }
        y = (x + n / x) / 2;
    }
    proof {
        lemma_newton_stop(n as int, x as int, y as int);
        lemma_floor_sqrt_unique(n as nat, x as nat);
    }
    x
}

/// Every number lies between the square of its root and the next square.
pub proof fn law_root_brackets_its_number(n: nat)
    ensures
        floor_sqrt(n) * floor_sqrt(n) <= n,
        n < (floor_sqrt(n) + 1) * (floor_sqrt(n) + 1),
    decreases n,
{
    if n == 0 {
        lemma_floor_sqrt_unique(0, 0);
    } else {
        let before = (n - 1) as nat;
        law_root_brackets_its_number(before);
        let r = floor_sqrt(before);
        if (r + 1) * (r + 1) <= n {
            let s = (r + 1) as nat;
            assert((r + 1) * (r + 1) < (s + 1) * (s + 1)) by (nonlinear_arith)
                requires
                    s == r + 1,
                    r >= 0,
            ;
            lemma_floor_sqrt_unique(n, s);
        } else {
            lemma_floor_sqrt_unique(n, r);
        }
    }
}

} // verus!
