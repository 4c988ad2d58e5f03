//! Facts about products, quotients and remainders that the index arithmetic
//! of the patch matrix rests on.

use vstd::prelude::*;

verus! {

/// An index below `a * b` has a quotient by `b` below `a` and a remainder
/// below `b`, and is recovered from the two.
pub proof fn lemma_split_index(i: int, a: int, b: int)
    by (nonlinear_arith)
    requires
        0 <= i < a * b,
        b > 0,
    ensures
        0 <= i / b < a,
        0 <= i % b < b,
        i == (i / b) * b + i % b,
{
}

/// The index made of a quotient below `a` and a remainder below `b` lies below
/// `a * b` and splits back into the two.
pub proof fn lemma_join_index(q: int, r: int, a: int, b: int)
    requires
        0 <= q < a,
        0 <= r < b,
    ensures
        0 <= q * b + r < a * b,
        (q * b + r) / b == q,
        (q * b + r) % b == r,
{
    assert(0 <= q * b + r < a * b) by (nonlinear_arith)
        requires
            0 <= q < a,
            0 <= r < b,
    ;
    vstd::arithmetic::div_mod::lemma_fundamental_div_mod_converse(q * b + r, b, q, r);
}

/// The last cell of the last window lies inside the padded axis: with
/// `position` below the number of window positions and `offset` inside the
/// window, `position * stride + offset` is below `padded`.
pub proof fn lemma_window_inside(position: int, offset: int, padded: int, kernel: int, stride: int)
    by (nonlinear_arith)
    requires
        stride >= 1,
        kernel <= padded,
        0 <= position < (padded - kernel) / stride + 1,
        0 <= offset < kernel,
    ensures
        0 <= position * stride + offset < padded,
        position * stride <= padded - kernel,
{
}

/// A product of a positive and a non-negative factor is no smaller than the
/// latter.
pub proof fn lemma_product_grows(a: int, b: int)
    by (nonlinear_arith)
    requires
        a >= 1,
        b >= 0,
    ensures
        a * b >= b,
{
}

} // verus!
