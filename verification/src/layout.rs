//! Arithmetic of row-major layouts.
//!
//! A buffer with dimensions `[.., n, d]` keeps element `(.., q, r)` at `q * d + r`.
//! The lemmas here say that such an index stays inside the buffer and that it
//! can be taken apart again, which is what makes two coordinates never share a
//! slot.
use vstd::arithmetic::div_mod::{lemma_fundamental_div_mod, lemma_fundamental_div_mod_converse};
use vstd::prelude::*;

verus! {

/// Row-major position of column `r` in row `q` of rows of width `d`.
pub open spec fn at2(q: int, d: int, r: int) -> int {
    q * d + r
}

/// Row-major position of `(a, b, c)` in a buffer `[_, nb, nc]`.
pub open spec fn at3(a: int, nb: int, b: int, nc: int, c: int) -> int {
    at2(at2(a, nb, b), nc, c)
}

/// Row-major position of `(a, b, c, e)` in a buffer `[_, nb, nc, ne]`.
pub open spec fn at4(a: int, nb: int, b: int, nc: int, c: int, ne: int, e: int) -> int {
    at2(at3(a, nb, b, nc, c), ne, e)
}

/// A position inside rows of width `d` splits back into its row and column.
pub proof fn lemma_split(q: int, d: int, r: int)
    requires
        0 <= r < d,
    ensures
        at2(q, d, r) / d == q,
        at2(q, d, r) % d == r,
{
    lemma_fundamental_div_mod_converse(at2(q, d, r), d, q, r);
}

/// Row and column of a position put it back together.
pub proof fn lemma_join(k: int, d: int)
    requires
        0 < d,
    ensures
        at2(k / d, d, k % d) == k,
        0 <= k % d < d,
{
    lemma_fundamental_div_mod(k, d);
    assert(at2(k / d, d, k % d) == k) by (nonlinear_arith)
        requires
            k == d * (k / d) + k % d,
    ;
}

/// A position in one of `n` rows of width `d` lies inside the `n * d` elements.
pub proof fn lemma_inside(q: int, n: int, d: int, r: int)
    requires
        0 <= q < n,
        0 <= r < d,
    ensures
        0 <= at2(q, d, r) < n * d,
        at2(q, d, r) + (d - r) <= n * d,
{
    assert(0 <= q * d) by (nonlinear_arith)
        requires
            0 <= q,
            0 < d,
    ;
    assert((q + 1) * d <= n * d) by (nonlinear_arith)
        requires
            q + 1 <= n,
            0 < d,
    ;
    assert((q + 1) * d == q * d + d) by (nonlinear_arith);
}

/// The row of a position inside `n` rows of width `d` is one of the `n` rows.
pub proof fn lemma_row_below(k: int, n: int, d: int)
    requires
        0 <= k < n * d,
        0 < d,
    ensures
        0 <= k / d < n,
{
    lemma_fundamental_div_mod(k, d);
    assert(0 <= k / d < n) by (nonlinear_arith)
        requires
            0 <= k < n * d,
            k == d * (k / d) + k % d,
            0 <= k % d < d,
            0 < d,
    ;
}

/// Two positions in rows of width `d` are the same only for the same row and column.
pub proof fn lemma_injective2(q1: int, r1: int, q2: int, r2: int, d: int)
    requires
        0 <= r1 < d,
        0 <= r2 < d,
        at2(q1, d, r1) == at2(q2, d, r2),
    ensures
        q1 == q2,
        r1 == r2,
{
    lemma_split(q1, d, r1);
    lemma_split(q2, d, r2);
}

/// A product of naturals with a positive second factor is at least the first.
pub proof fn lemma_grows(a: int, b: int)
    requires
        0 <= a,
        1 <= b,
    ensures
        a <= a * b,
        0 <= a * b,
{
    assert(a <= a * b && 0 <= a * b) by (nonlinear_arith)
        requires
            0 <= a,
            1 <= b,
    ;
}

/// Products of naturals grow with their factors.
pub proof fn lemma_monotone(a: int, b: int, c: int, d: int)
    requires
        0 <= a <= c,
        0 <= b <= d,
    ensures
        0 <= a * b <= c * d,
{
    assert(0 <= a * b <= c * d) by (nonlinear_arith)
        requires
            0 <= a <= c,
            0 <= b <= d,
    ;
}

} // verus!
