//! Arithmetic on stack values: fixed-width signed integers that wrap around
//! on overflow, with division that rounds toward zero.

use vstd::prelude::*;

verus! {

/// The number of distinct stack values.
pub open spec fn modulus() -> int {
    usize::MAX + 1
}

/// The stack value that the integer `x` wraps to: the one value in range
/// that differs from `x` by a multiple of [`modulus`].
pub open spec fn wrap(x: int) -> isize {
    let r = x % modulus();
    if r > isize::MAX {
        (r - modulus()) as isize
    } else {
        r as isize
    }
}

/// Absolute value of an integer.
pub open spec fn magnitude(x: int) -> int {
    if x < 0 {
        -x
    } else {
        x
    }
}

/// Quotient of `a` by `b`, rounded toward zero. Meaningful for `b != 0`.
pub open spec fn quotient_toward_zero(a: int, b: int) -> int {
    let q = magnitude(a) / magnitude(b);
    if (a < 0) != (b < 0) {
        -q
    } else {
        q
    }
}

/// What is left of `a` after taking out `b` times the quotient rounded
/// toward zero; it has the sign of `a`. Meaningful for `b != 0`.
pub open spec fn remainder_toward_zero(a: int, b: int) -> int {
    let r = magnitude(a) % magnitude(b);
    if a < 0 {
        -r
    } else {
        r
    }
}

/// How values wrap that are in range, or at most one modulus outside it.
pub proof fn lemma_wrap_near(x: int)
    ensures
        isize::MIN <= x <= isize::MAX ==> wrap(x) == x,
        isize::MAX < x <= isize::MAX + modulus() ==> wrap(x) == x - modulus(),
        isize::MIN - modulus() <= x < isize::MIN ==> wrap(x) == x + modulus(),
{
    let m = modulus();
    if -2 * m <= x < -m {
        assert(x % m == x + 2 * m) by (nonlinear_arith)
            requires
                -2 * m <= x < -m,
        ;
    } else if -m <= x < 0 {
        assert(x % m == x + m) by (nonlinear_arith)
            requires
                -m <= x < 0,
        ;
    } else if 0 <= x < m {
        assert(x % m == x) by (nonlinear_arith)
            requires
                0 <= x < m,
        ;
    } else if m <= x < 2 * m {
        assert(x % m == x - m) by (nonlinear_arith)
            requires
                m <= x < 2 * m,
        ;
    }
}

/// The quotient rounded toward zero times the divisor, plus the remainder,
/// gives the dividend back; the remainder is smaller than the divisor.
pub proof fn lemma_quotient_remainder(a: int, b: int)
    requires
        b != 0,
    ensures
        a == b * quotient_toward_zero(a, b) + remainder_toward_zero(a, b),
        magnitude(remainder_toward_zero(a, b)) < magnitude(b),
        magnitude(quotient_toward_zero(a, b)) <= magnitude(a),
{
    let x = magnitude(a);
    let d = magnitude(b);
    assert(x == d * (x / d) + x % d && 0 <= x % d < d && 0 <= x / d <= x) by (nonlinear_arith)
        requires
            x >= 0,
            d > 0,
    ;
    let q = x / d;
    assert(b * (-q) == -(b * q) && (-b) * q == -(b * q) && (-b) * (-q) == b * q)
        by (nonlinear_arith);
}

/// Sum of two stack values, wrapped.
pub fn sum(a: isize, b: isize) -> (r: isize)
    ensures
        r == wrap(a + b),
{
    proof {
        lemma_wrap_near(a + b);
    }
    a.wrapping_add(b)
}

/// Difference of two stack values, wrapped.
pub fn difference(a: isize, b: isize) -> (r: isize)
    ensures
        r == wrap(a - b),
{
    proof {
        lemma_wrap_near(a - b);
    }
    a.wrapping_sub(b)
}

/// Product of two stack values, wrapped.
pub fn product(a: isize, b: isize) -> (r: isize)
    ensures
        r == wrap(a * b),
{
    a.wrapping_mul(b)
}

/// Quotient of two stack values, rounded toward zero and wrapped: the
/// smallest value divided by -1 gives the smallest value. There is none
/// if the divisor is 0.
pub fn quotient(a: isize, b: isize) -> (r: Option<isize>)
    ensures
        r == if b == 0 {
            None
        } else {
            Some(wrap(quotient_toward_zero(a as int, b as int)))
        },
{
    if b == 0 {
        return None;
    }
    proof {
        lemma_quotient_remainder(a as int, b as int);
        lemma_wrap_near(quotient_toward_zero(a as int, b as int));
    }
    match a.checked_div(b) {
        Some(q) => Some(q),
        None => Some(isize::MIN),
    }
}

/// Remainder of two stack values under division rounded toward zero; it
/// is always in range. There is none if the divisor is 0.
pub fn remainder(a: isize, b: isize) -> (r: Option<isize>)
    ensures
        r == if b == 0 {
            None
        } else {
            Some(wrap(remainder_toward_zero(a as int, b as int)))
        },
        b != 0 ==> r == Some(remainder_toward_zero(a as int, b as int) as isize)
            && isize::MIN <= remainder_toward_zero(a as int, b as int) <= isize::MAX,
{
    if b == 0 {
        return None;
    }
    proof {
        lemma_quotient_remainder(a as int, b as int);
        lemma_wrap_near(remainder_toward_zero(a as int, b as int));
        let d = magnitude(b as int);
        assert(0int % d == 0) by (nonlinear_arith)
            requires
                d > 0,
        ;
    }
    match a.checked_rem(b) {
        Some(r) => Some(r),
        None => Some(0),
    }
}

} // verus!
