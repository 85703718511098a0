//! Flat positions in row-major tables.

use vstd::prelude::*;

verus! {

/// Row `i`, column `j` of a table with `m` columns lies inside its `n * m`
/// entries.
pub proof fn lemma_row_major_bound(i: int, n: int, j: int, m: int)
    requires
        0 <= i < n,
        0 <= j < m,
    ensures
        0 <= i * m + j < n * m,
        0 <= i * m <= i * m + j,
{
    assert(i * m + m <= n * m) by (nonlinear_arith)
        requires
            0 <= i < n,
            0 < m,
    ;
    assert(0 <= i * m) by (nonlinear_arith)
        requires
            0 <= i,
            0 < m,
    ;
}

/// Different rows or columns have different positions.
pub proof fn lemma_row_major_injective(i: int, j: int, p: int, q: int, m: int)
    requires
        0 <= j < m,
        0 <= q < m,
        i * m + j == p * m + q,
    ensures
        i == p,
        j == q,
{
    if i < p {
        assert(i * m + m <= p * m) by (nonlinear_arith)
            requires
                i < p,
                0 < m,
        ;
    } else if p < i {
        assert(p * m + m <= i * m) by (nonlinear_arith)
            requires
                p < i,
                0 < m,
        ;
    }
}

} // verus!
