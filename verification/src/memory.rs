//! Address alignment.
use vstd::prelude::*;

verus! {

/// The address `p` rounded up to a multiple of `align`.
pub open spec fn aligned_up(p: int, align: int) -> int {
    (p + align - 1) / align * align
}

/// Rounds the address `p` up to the next multiple of `align`.
pub fn align_pointer_to(p: usize, align: usize) -> (r: usize)
    requires
        align > 0,
        p + align - 1 <= usize::MAX,
    ensures
        r == aligned_up(p as int, align as int),
        r % align == 0,
        p <= r < p + align,
{
    let s = p + (align - 1);
    let q = s / align;
    proof {
        assert(q * align <= s) by (nonlinear_arith)
            requires
                q == s / align,
                align > 0,
                s >= 0,
        ;
        assert(s < q * align + align) by (nonlinear_arith)
            requires
                q == s / align,
                align > 0,
                s >= 0,
        ;
        assert((q * align) % (align as int) == 0) by (nonlinear_arith)
            requires
                align > 0,
                q >= 0,
        ;
    }
    q * align
}

/// Rounds the address `p` up to the alignment of `T`.
pub fn align_pointer<T>(p: usize) -> (r: usize)
    requires
        p + vstd::layout::align_of::<T>() - 1 <= usize::MAX,
    ensures
        r == aligned_up(p as int, vstd::layout::align_of::<T>() as int),
        (r as int) % (vstd::layout::align_of::<T>() as int) == 0,
        p <= r < p + vstd::layout::align_of::<T>(),
{
    proof {
        broadcast use vstd::layout::align_nonzero;
    }
    let align = core::mem::align_of::<T>();
    align_pointer_to(p, align)
}

} // verus!
