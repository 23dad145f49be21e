use vstd::prelude::*;

verus! {

/// Whether `root` is the whole part of the square root of `n`.
pub open spec fn is_sqrt_floor(n: nat, root: nat) -> bool {
    root * root <= n < (root + 1) * (root + 1)
}

/// The whole part of the square root of `n`.
pub open spec fn sqrt_floor(n: nat) -> nat {
    choose|root: nat| is_sqrt_floor(n, root)
}

/// A number has at most one whole square root.
pub proof fn lemma_sqrt_floor_is_unique(n: nat, a: nat, b: nat)
    by (nonlinear_arith)
    requires
        is_sqrt_floor(n, a),
        is_sqrt_floor(n, b),
    ensures
        a == b,
{
    if a < b {
        assert((a + 1) * (a + 1) <= b * b);
    } else if b < a {
        assert((b + 1) * (b + 1) <= a * a);
    }
}

/// The whole square root of `n` is the one number whose square is at most `n`
/// while the square of the next is more.
pub proof fn lemma_sqrt_floor_is(n: nat, root: nat)
    requires
        is_sqrt_floor(n, root),
    ensures
        sqrt_floor(n) == root,
{
    lemma_sqrt_floor_is_unique(n, sqrt_floor(n), root);
}

/// A larger number has no smaller whole square root.
pub proof fn lemma_sqrt_floor_is_monotonic(m: nat, n: nat, a: nat, b: nat)
    by (nonlinear_arith)
    requires
        m <= n,
        is_sqrt_floor(m, a),
        is_sqrt_floor(n, b),
    ensures
        a <= b,
{
    if b < a {
        assert((b + 1) * (b + 1) <= a * a);
    }
}

/// Every number has a whole square root.
pub proof fn lemma_sqrt_floor_exists(n: nat)
    ensures
        is_sqrt_floor(n, sqrt_floor(n)),
    decreases n,
{
    if n == 0 {
        assert(0nat * 0nat <= 0 < (0nat + 1) * (0nat + 1)) by (nonlinear_arith);
        assert(is_sqrt_floor(0, 0));
    } else {
        lemma_sqrt_floor_exists((n - 1) as nat);
        let r = sqrt_floor((n - 1) as nat);
        if n < (r + 1) * (r + 1) {
            assert(is_sqrt_floor(n, r));
        } else {
            assert(is_sqrt_floor(n, r + 1)) by (nonlinear_arith)
                requires
                    r * r <= n - 1 < (r + 1) * (r + 1),
                    n >= (r + 1) * (r + 1),
            ;
        }
    }
}

proof fn lemma_square_order(a: int, b: int)
    by (nonlinear_arith)
    requires
        0 <= a <= b,
    ensures
        a * a <= b * b,
{
}

/// The whole part of the square root of `n`, found by halving the interval
/// that holds it.
pub fn integer_sqrt(n: u128) -> (root: u128)
    ensures
        is_sqrt_floor(n as nat, root as nat),
        root == sqrt_floor(n as nat),
        root < 0x1_0000_0000_0000_0000,
{
    let mut low: u128 = 0;
    let mut high: u128 = 0x1_0000_0000_0000_0000;
    proof {
        assert(0x1_0000_0000_0000_0000int * 0x1_0000_0000_0000_0000int
            == 0x1_0000_0000_0000_0000_0000_0000_0000_0000int) by (nonlinear_arith);
        assert(0int * 0int == 0) by (nonlinear_arith);
    }
    while high - low > 1
        invariant
            low < high <= 0x1_0000_0000_0000_0000,
            low * low <= n < high * high,
        decreases high - low,
    {
        let middle: u128 = low + (high - low) / 2;
        proof {
            lemma_square_order(middle as int, 0xffff_ffff_ffff_ffff);
            assert(0xffff_ffff_ffff_ffffint * 0xffff_ffff_ffff_ffffint
                < 0x1_0000_0000_0000_0000_0000_0000_0000_0000int) by (nonlinear_arith);
        }
        let squared: u128 = middle * middle;
        if squared <= n {
            low = middle;
        } else {
            high = middle;
        }
    }
    proof {
        assert(high == low + 1);
        lemma_sqrt_floor_is(n as nat, low as nat);
    }
    low
}

} // verus!
