//! Rounding of buffer offsets.

use vstd::prelude::*;

verus! {

/// The least multiple of `a` that is not below `x`.
pub open spec fn align_up_spec(x: int, a: int) -> int {
    (x + a - 1) / a * a
}

/// An aligned offset is a multiple of the alignment, less than one alignment above the offset.
pub proof fn lemma_align_up(x: int, a: int)
    requires
        0 <= x,
        0 < a,
    ensures
        x <= align_up_spec(x, a) < x + a,
        align_up_spec(x, a) % a == 0,
{
    let q = (x + a - 1) / a;
    let r = (x + a - 1) % a;
    assert(x + a - 1 == q * a + r && 0 <= r < a) by (nonlinear_arith)
        requires
            q == (x + a - 1) / a,
            r == (x + a - 1) % a,
            a > 0,
    ;
    assert((q * a) % a == 0) by (nonlinear_arith)
        requires
            a > 0,
    ;
}

/// Rounding up keeps the order.
pub proof fn lemma_align_up_mono(x: int, y: int, a: int)
    requires
        0 <= x <= y,
        0 < a,
    ensures
        align_up_spec(x, a) <= align_up_spec(y, a),
{
    let p = (x + a - 1) / a;
    let q = (y + a - 1) / a;
    assert(p <= q) by (nonlinear_arith)
        requires
            p == (x + a - 1) / a,
            q == (y + a - 1) / a,
            x <= y,
            a > 0,
    ;
    assert(p * a <= q * a) by (nonlinear_arith)
        requires
            p <= q,
            a > 0,
    ;
}

/// The least multiple of `a` that is not below `x`.
pub fn align_up(x: usize, a: usize) -> (r: usize)
    requires
        0 < a,
        x + a - 1 <= usize::MAX,
    ensures
        r == align_up_spec(x as int, a as int),
        x <= r < x + a,
        r % a == 0,
{
    proof {
        lemma_align_up(x as int, a as int);
    }
    (x + (a - 1)) / a * a
}

/// An aligned offset is the least multiple of the alignment that is not below the offset.
pub proof fn aligned_offsets_are_least(x: usize, a: usize, r: usize, m: int)
    requires
        call_ensures(align_up, (x, a), r),
        0 < a,
        m * a >= x,
    ensures
        r % a == 0,
        x <= r,
        r <= m * a,
{
    let b = a as int;
    let q = r as int / b;
    assert(r == q * b) by (nonlinear_arith)
        requires
            q == r as int / b,
            r as int % b == 0,
            b > 0,
    ;
    if m < q {
        assert(m * b <= (q - 1) * b) by (nonlinear_arith)
            requires
                m <= q - 1,
                b > 0,
        ;
        assert((q - 1) * b == q * b - b) by (nonlinear_arith);
    } else {
        assert(q * b <= m * b) by (nonlinear_arith)
            requires
                q <= m,
                b > 0,
        ;
    }
}

} // verus!
