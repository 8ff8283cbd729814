//! Choosing a transform size: powers of two and the size rule for convolving
//! two buffers against each other.

use vstd::prelude::*;

verus! {

/// Holds exactly of 1, 2, 4, 8, ...
pub open spec fn is_power_of_two(x: int) -> bool
    decreases x,
{
    if x <= 0 {
        false
    } else if x == 1 {
        true
    } else {
        x % 2 == 0 && is_power_of_two(x / 2)
    }
}

/// The smallest power of two that is at least `n` (and at least 1).
pub open spec fn pow2_ceiling(n: int) -> int
    decreases n,
{
    if n <= 1 {
        1
    } else {
        2 * pow2_ceiling((n + 1) / 2)
    }
}

/// `pow2_ceiling(n)` is a power of two, is at least `n`, and is below `2 * n`
/// whenever `n >= 2`: it is the least power of two at or above `n`.
pub proof fn lemma_pow2_ceiling_bounds(n: int)
    ensures
        pow2_ceiling(n) >= 1,
        pow2_ceiling(n) >= n,
        is_power_of_two(pow2_ceiling(n)),
        n >= 2 ==> pow2_ceiling(n) < 2 * n,
    decreases n,
{
    if n <= 1 {
    } else {
        let m = (n + 1) / 2;
        lemma_pow2_ceiling_bounds(m);
        let p = pow2_ceiling(m);
        assert(pow2_ceiling(n) == 2 * p);
        assert(2 * m >= n);
        assert(is_power_of_two(2 * p));
        if m >= 2 {
            // p < 2 * m; when n is even 2 * m == n, and when n is odd p is
            // even while n is not, so in both cases p < n.
            assert(2 * m == n || 2 * m == n + 1);
            if 2 * m == n + 1 {
                assert(p == 2 * pow2_ceiling((m + 1) / 2));
                assert(p != n);
            }
            assert(p < n);
        } else {
            assert(n == 2 && p == 1);
        }
    }
}

/// A power of two `p` with `p >= n` and `p / 2 < n` (or `p == 1`) is the least
/// power of two at or above `n`.
pub proof fn lemma_pow2_ceiling_unique(p: int, n: int)
    requires
        is_power_of_two(p),
        p >= n,
        p == 1 || p / 2 < n,
    ensures
        p == pow2_ceiling(n),
    decreases p,
{
    if p == 1 {
        assert(n <= 1);
    } else {
        assert(p >= 2 && p % 2 == 0 && is_power_of_two(p / 2));
        assert(n >= 2);
        let m = (n + 1) / 2;
        assert(2 * m == n || 2 * m == n + 1);
        if 2 * m == n + 1 {
            assert(p != n);
        }
        assert(p >= 2 * m);
        if p / 2 >= 2 {
            assert(p / 2 % 2 == 0 && is_power_of_two(p / 4));
            assert(p / 2 <= n - 1);
            assert(p / 4 <= (n - 1) / 2);
            assert((n - 1) / 2 < m);
        }
        lemma_pow2_ceiling_unique(p / 2, m);
        assert(pow2_ceiling(n) == 2 * pow2_ceiling(m));
    }
}

/// The least power of two at or above `n`, found by repeated doubling.
pub fn next_power_of_two(n: i16) -> (r: i16)
    requires
        n <= 16384,
    ensures
        r as int == pow2_ceiling(n as int),
{
    let mut pow: i16 = 1;
    while pow < n
        invariant
            n <= 16384,
            1 <= pow,
            is_power_of_two(pow as int),
            pow == 1 || pow as int / 2 < n as int,
        decreases 2 * n - pow,
    {
        pow = pow * 2;
        proof {
            assert(is_power_of_two(pow as int));
        }
    }
    proof {
        lemma_pow2_ceiling_unique(pow as int, n as int);
    }
    pow
}

/// Transform size for convolving two buffers against each other: twice the
/// least power of two at or above the shorter buffer's length.
pub fn find_segment_size(len_a: usize, len_b: usize) -> (r: usize)
    requires
        len_a <= 16384 || len_b <= 16384,
    ensures
        r as int == 2 * pow2_ceiling(if len_a <= len_b { len_a as int } else { len_b as int }),
{
    let shorter: usize = if len_a <= len_b { len_a } else { len_b };
    proof {
        lemma_pow2_ceiling_bounds(shorter as int);
    }
    let p: i16 = next_power_of_two(shorter as i16);
    (p as usize) * 2
}

} // verus!
