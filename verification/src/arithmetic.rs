//! Facts about products of whole numbers, each small enough for the solver
//! to see at once; the proofs about strokes are put together from them.

use vstd::prelude::*;

verus! {

/// The factors of a product of two products may change partners.
pub(crate) proof fn lemma_regroup(a: int, b: int, c: int, d: int)
    by (nonlinear_arith)
    ensures
        (a * b) * (c * d) == (a * c) * (b * d),
{
}

/// Factors may change places and brackets.
pub(crate) proof fn lemma_reorder(a: int, b: int, c: int)
    by (nonlinear_arith)
    ensures
        a * b == b * a,
        (a * b) * c == a * (b * c),
{
}

/// The squares of a difference and of a sum, written out.
pub(crate) proof fn lemma_square_of_difference(x: int, y: int)
    by (nonlinear_arith)
    ensures
        (x - y) * (x - y) == x * x - 2 * (x * y) + y * y,
        (x + y) * (x + y) == x * x + 2 * (x * y) + y * y,
{
}

/// No square is negative.
pub(crate) proof fn lemma_square_is_not_negative(x: int)
    by (nonlinear_arith)
    ensures
        0 <= x * x,
{
}

/// A factor may be drawn out of a sum or a difference.
pub(crate) proof fn lemma_distribute(m: int, p: int, q: int)
    by (nonlinear_arith)
    ensures
        m * p + m * q == m * (p + q),
        m * p - m * q == m * (p - q),
        (p + q) * m == p * m + q * m,
{
}

/// A difference of products, times a further factor.
pub(crate) proof fn lemma_combine(n: int, a: int, k: int, d: int, e: int)
    by (nonlinear_arith)
    ensures
        (n * a - k * d) * e == n * (a * e) - k * (d * e),
{
}

/// Multiplying both sides by a number that is not negative keeps their order.
pub(crate) proof fn lemma_scale(a: int, b: int, c: int)
    by (nonlinear_arith)
    requires
        a <= b,
        0 <= c,
    ensures
        a * c <= b * c,
        c * a <= c * b,
{
}

/// A positive factor may be struck from both sides.
pub(crate) proof fn lemma_cancel(a: int, b: int, n: int)
    by (nonlinear_arith)
    requires
        0 < n,
        a * n <= b * n,
    ensures
        a <= b,
{
}

/// The square of a number other than zero is positive.
pub(crate) proof fn lemma_square_is_positive(n: int)
    by (nonlinear_arith)
    requires
        n != 0,
    ensures
        0 < n * n,
{
}

/// A number whose square is at most that of a bound lies within the bound.
pub(crate) proof fn lemma_square_root_bound(x: int, y: int)
    by (nonlinear_arith)
    requires
        0 <= y,
        x * x <= y * y,
    ensures
        -y <= x <= y,
{
}

/// A product of two bounded numbers is bounded by the product of the bounds.
pub(crate) proof fn lemma_product_bounds(a: int, b: int, m: int, n: int)
    by (nonlinear_arith)
    requires
        -m <= a <= m,
        -n <= b <= n,
    ensures
        -(m * n) <= a * b <= m * n,
{
}

} // verus!
