//! Facts about remainders that the cursor arithmetic rests on.

use vstd::prelude::*;

verus! {

/// A remainder by a positive modulus lies in `[0, n)`.
pub proof fn lemma_mod_range(x: int, n: int)
    requires
        n > 0,
    ensures
        0 <= x % n < n,
{
    vstd::arithmetic::div_mod::lemma_mod_bound(x, n);
}

/// A number already in `[0, n)` is its own remainder.
pub proof fn lemma_mod_small(x: int, n: int)
    requires
        0 <= x < n,
    ensures
        x % n == x,
{
    vstd::arithmetic::div_mod::lemma_small_mod(x as nat, n as nat);
}

/// Adding a multiple of the modulus changes no remainder.
pub proof fn lemma_mod_shift(x: int, k: int, n: int)
    requires
        n > 0,
    ensures
        (x + k * n) % n == x % n,
{
    vstd::arithmetic::div_mod::lemma_mod_multiples_vanish(k, x, n);
    assert(n * k + x == x + k * n) by (nonlinear_arith);
}

/// Two numbers that differ by a multiple of the modulus have one remainder.
pub proof fn lemma_mod_congruent(x: int, y: int, k: int, n: int)
    requires
        n > 0,
        x == y + k * n,
    ensures
        x % n == y % n,
{
    lemma_mod_shift(y, k, n);
}

/// A number is its quotient times the modulus plus its remainder.
pub proof fn lemma_div_mod(x: int, n: int)
    requires
        n > 0,
    ensures
        x == (x / n) * n + x % n,
        0 <= x % n < n,
{
    vstd::arithmetic::div_mod::lemma_fundamental_div_mod(x, n);
    vstd::arithmetic::div_mod::lemma_mod_bound(x, n);
    assert(n * (x / n) == (x / n) * n) by (nonlinear_arith);
}

/// Quotient and remainder are the only pair that fits.
pub proof fn lemma_div_mod_unique(x: int, n: int, q: int, r: int)
    requires
        n > 0,
        0 <= r < n,
        x == q * n + r,
    ensures
        x / n == q,
        x % n == r,
{
    vstd::arithmetic::div_mod::lemma_fundamental_div_mod_converse(x, n, q, r);
}

/// Division by a positive number keeps the order.
pub proof fn lemma_div_monotone(x: int, y: int, n: int)
    requires
        x <= y,
        n > 0,
    ensures
        x / n <= y / n,
{
    vstd::arithmetic::div_mod::lemma_div_is_ordered(x, y, n);
}

/// Dividing by a positive number brings a number no further from zero.
pub proof fn lemma_div_bound(x: int, n: int)
    requires
        n > 0,
    ensures
        x <= 0 ==> x <= x / n <= 0,
        x >= 0 ==> 0 <= x / n <= x,
{
    lemma_div_mod(x, n);
    let q: int = x / n;
    let r: int = x % n;
    if x >= 0 {
        assert(0 <= q <= x) by (nonlinear_arith)
            requires
                x == q * n + r,
                0 <= r < n,
                x >= 0,
                n > 0,
        ;
    } else {
        assert(x <= q <= 0) by (nonlinear_arith)
            requires
                x == q * n + r,
                0 <= r < n,
                x <= 0,
                n > 0,
        ;
    }
}

/// Reducing a term before adding changes no remainder of the sum.
pub proof fn lemma_mod_add_left(x: int, y: int, n: int)
    requires
        n > 0,
    ensures
        (x % n + y) % n == (x + y) % n,
{
    lemma_div_mod(x, n);
    lemma_mod_congruent(x + y, x % n + y, x / n, n);
}

/// Reducing the second term before adding changes no remainder of the sum.
pub proof fn lemma_mod_add_right(x: int, y: int, n: int)
    requires
        n > 0,
    ensures
        (x + y % n) % n == (x + y) % n,
{
    lemma_div_mod(y, n);
    lemma_mod_congruent(x + y, x + y % n, y / n, n);
}

/// The remainder of a number in `[0, 2n)` is found by one subtraction.
pub proof fn lemma_mod_once(x: int, n: int)
    requires
        0 <= x < 2 * n,
    ensures
        x % n == if x < n { x } else { x - n },
{
    if x < n {
        lemma_mod_small(x, n);
    } else {
        lemma_mod_small(x - n, n);
        lemma_mod_congruent(x, x - n, 1, n);
    }
}

/// The remainder of a number in `[-n, n)` is found by one addition.
pub proof fn lemma_mod_once_below(x: int, n: int)
    requires
        -n <= x < n,
    ensures
        x % n == if x < 0 { x + n } else { x },
{
    if x < 0 {
        lemma_mod_small(x + n, n);
        lemma_mod_congruent(x, x + n, -1, n);
    } else {
        lemma_mod_small(x, n);
    }
}

/// Two numbers less than a modulus apart have different remainders.
pub proof fn lemma_mod_distinct(x: int, d: int, n: int)
    requires
        0 < d < n,
    ensures
        (x + d) % n != x % n,
{
    lemma_div_mod(x, n);
    lemma_div_mod(x + d, n);
    let k: int = (x + d) / n - x / n;
    if (x + d) % n == x % n {
        assert(d == k * n) by (nonlinear_arith)
            requires
                x == (x / n) * n + x % n,
                x + d == ((x + d) / n) * n + (x + d) % n,
                (x + d) % n == x % n,
                k == (x + d) / n - x / n,
        ;
        assert(false) by (nonlinear_arith)
            requires
                d == k * n,
                0 < d < n,
        ;
    }
}

/// The quotient of `x` by a positive `n`, rounded toward minus infinity.
pub(crate) fn div_floor(x: i128, n: i128) -> (q: i128)
    requires
        n > 0,
        x > i128::MIN,
    ensures
        q == (x as int) / (n as int),
{
    if x >= 0 {
        x / n
    } else {
        let m: i128 = -(x + 1);
        let down: i128 = m / n;
        proof {
            lemma_div_mod(m as int, n as int);
            assert((-(down as int) - 1) * n == -(down * n) - n) by (nonlinear_arith);
            lemma_div_mod_unique(x as int, n as int, -(down as int) - 1, n - 1 - (m as int) % (n as int));
            assert(0 <= down * n <= m) by (nonlinear_arith)
                requires
                    m == down * n + m % n,
                    0 <= m % n,
                    down >= 0,
                    n > 0,
            ;
        }
        -down - 1
    }
}

/// The remainder of `x` by a positive `n`: the one in `[0, n)`.
pub(crate) fn mod_floor(x: i128, n: i128) -> (r: i128)
    requires
        n > 0,
        x > i128::MIN,
    ensures
        r == (x as int) % (n as int),
        0 <= r < n,
{
    if x >= 0 {
        proof {
            lemma_mod_range(x as int, n as int);
        }
        x % n
    } else {
        let m: i128 = -(x + 1);
        let rest: i128 = m % n;
        proof {
            lemma_div_mod(m as int, n as int);
            let down: int = (m as int) / (n as int);
            assert((-down - 1) * n == -(down * n) - n) by (nonlinear_arith);
            lemma_div_mod_unique(x as int, n as int, -down - 1, n - 1 - rest);
        }
        n - 1 - rest
    }
}

} // verus!
