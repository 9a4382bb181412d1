use vstd::prelude::*;

verus! {

/// A row-major index stays inside a width * height pixel store.
pub proof fn lemma_index_bound(x: int, y: int, w: int, h: int)
    by (nonlinear_arith)
    requires
        0 <= x < w,
        0 <= y < h,
    ensures
        0 <= y * w + x,
        y * w + x < w * h,
{
}

/// Row-major indexing is injective on in-bounds coordinates.
pub proof fn lemma_index_inj(x1: int, y1: int, x2: int, y2: int, w: int)
    by (nonlinear_arith)
    requires
        0 <= x1 < w,
        0 <= x2 < w,
        0 <= y1,
        0 <= y2,
        y1 * w + x1 == y2 * w + x2,
    ensures
        x1 == x2,
        y1 == y2,
{
}

/// Splitting an offset into a multiple of f plus a remainder below f
/// determines its quotient and remainder by f.
pub proof fn lemma_decompose(k: int, j: int, f: int)
    requires
        0 < f,
        0 <= j < f,
    ensures
        (k * f + j) / f == k,
        (k * f + j) % f == j,
{
    vstd::arithmetic::div_mod::lemma_fundamental_div_mod_converse(k * f + j, f, k, j);
}

/// A multiple of f lying in the half-open window [k*f, (k+1)*f) is k*f itself.
pub proof fn lemma_multiple_in_window(d: int, k: int, f: int)
    by (nonlinear_arith)
    requires
        0 < f,
        d % f == 0,
        k * f <= d < (k + 1) * f,
    ensures
        d == k * f,
{
}

/// Multiplication by a positive factor preserves strict order.
pub proof fn lemma_mul_lt(a: int, b: int, f: int)
    by (nonlinear_arith)
    requires
        0 < f,
        a < b,
    ensures
        a * f < b * f,
{
}

/// Multiplication preserves order for nonnegative factors.
pub proof fn lemma_mul_le(a: int, b: int, f: int)
    by (nonlinear_arith)
    requires
        0 <= f,
        a <= b,
    ensures
        a * f <= b * f,
{
}

/// An offset below w * f has a quotient by f below w.
pub proof fn lemma_div_below(d: int, w: int, f: int)
    by (nonlinear_arith)
    requires
        0 < f,
        0 <= d < w * f,
    ensures
        0 <= d / f < w,
{
}

/// A count is no larger than itself magnified by a positive factor.
pub proof fn lemma_le_mul(w: int, f: int)
    by (nonlinear_arith)
    requires
        1 <= f,
        0 <= w,
    ensures
        w <= w * f,
{
}

/// Stepping the multiplier adds one factor.
pub proof fn lemma_succ_mul(k: int, f: int)
    by (nonlinear_arith)
    ensures
        (k + 1) * f == k * f + f,
{
}

/// Multiplication is commutative.
pub proof fn lemma_mul_comm(a: int, b: int)
    by (nonlinear_arith)
    ensures
        a * b == b * a,
{
}

/// Every offset splits into its quotient times the factor plus a
/// remainder below the factor.
pub proof fn lemma_recompose(d: int, f: int)
    by (nonlinear_arith)
    requires
        0 < f,
    ensures
        d == (d / f) * f + d % f,
        0 <= d % f < f,
{
}

/// Multiplication distributes over addition.
pub proof fn lemma_mul_dist(a: int, b: int, f: int)
    by (nonlinear_arith)
    ensures
        (a + b) * f == a * f + b * f,
{
}

/// Segment geometry: cutting a width-w canvas into n segments of
/// floor(w / n) columns each keeps every segment start and end inside
/// [0, w], with room for at least one column after each start.
pub proof fn lemma_segment_bounds(w: int, n: int, i: int)
    by (nonlinear_arith)
    requires
        1 <= w,
        1 <= n,
        0 <= i < n,
    ensures
        0 <= w / n,
        (n - 1) * (w / n) <= w - w / n,
        0 <= i * (w / n),
        i * (w / n) <= (n - 1) * (w / n),
        i * (w / n) < w,
        i * (w / n) + w / n <= w,
{
}

} // verus!
