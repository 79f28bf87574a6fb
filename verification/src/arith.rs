//! Index arithmetic shared by the flat (row-major) tensor layouts.

use vstd::prelude::*;

verus! {

/// A row-major index `row * width + x` splits back into `(row, x)`.
pub proof fn lemma_split_index(row: int, width: int, x: int)
    requires
        width > 0,
        0 <= x < width,
        row >= 0,
    ensures
        (row * width + x) / width == row,
        (row * width + x) % width == x,
{
    vstd::arithmetic::div_mod::lemma_fundamental_div_mod_converse(row * width + x, width, row, x);
}

/// `row * width + x` stays below `rows * width` when `row < rows`, `x < width`.
pub proof fn lemma_index_bound(row: int, rows: int, width: int, x: int)
    requires
        0 <= row < rows,
        0 <= x < width,
    ensures
        0 <= row * width + x < rows * width,
        row * width <= row * width + x,
{
    assert(0 <= row * width) by (nonlinear_arith)
        requires
            0 <= row,
            0 <= width,
    ;
    assert(row * width + x < rows * width) by (nonlinear_arith)
        requires
            0 <= row < rows,
            0 <= x < width,
    ;
}

/// Multiplication by a non-negative factor is monotone.
pub proof fn lemma_mul_le(a: int, b: int, k: int)
    requires
        0 <= a <= b,
        0 <= k,
    ensures
        0 <= a * k <= b * k,
{
    assert(0 <= a * k <= b * k) by (nonlinear_arith)
        requires
            0 <= a <= b,
            0 <= k,
    ;
}

} // verus!
