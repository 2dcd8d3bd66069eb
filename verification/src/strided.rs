//! Two-dimensional strided addressing: the cell `(i, j)` of a block that starts at
//! `offset` in a flat buffer sits at `offset + i * row_stride + j * col_stride`.
use vstd::prelude::*;

verus! {

/// Position of cell `(i, j)` in the flat buffer.
pub open spec fn spec_addr(offset: int, row_stride: int, col_stride: int, i: int, j: int) -> int {
    offset + i * row_stride + j * col_stride
}

/// Every cell of a `rows` x `cols` block lies inside a buffer of `len` elements.
pub open spec fn spec_spans(
    offset: int,
    row_stride: int,
    col_stride: int,
    rows: nat,
    cols: nat,
    len: nat,
) -> bool {
    forall|i: int, j: int|
        0 <= i < rows && 0 <= j < cols ==> 0 <= #[trigger] spec_addr(
            offset,
            row_stride,
            col_stride,
            i,
            j,
        ) < len
}

/// A multiple `m * s` with `0 <= m <= top` lies between `0` and `top * s`.
pub proof fn lemma_scaled_between(m: int, top: int, s: int)
    requires
        0 <= m <= top,
    ensures
        s >= 0 ==> 0 <= m * s <= top * s,
        s < 0 ==> top * s <= m * s <= 0,
{
    if s >= 0 {
        assert(0 <= m * s <= top * s) by (nonlinear_arith)
            requires
                0 <= m <= top,
                s >= 0,
        ;
    } else {
        assert(top * s <= m * s <= 0) by (nonlinear_arith)
            requires
                0 <= m <= top,
                s < 0,
        ;
    }
}

/// A count that fits a `usize` times a stride that fits an `isize` fits an `i128`.
pub(crate) proof fn lemma_product_fits_i128(m: int, s: int)
    requires
        0 <= m <= usize::MAX,
        isize::MIN <= s <= isize::MAX,
    ensures
        -0x7fff_ffff_ffff_ffff_8000_0000_0000_0000 <= m * s <= 0x7fff_ffff_ffff_ffff_8000_0000_0000_0000,
{
    assert(0 <= m <= 0xffff_ffff_ffff_ffff);
    assert(-0x8000_0000_0000_0000 <= s <= 0x7fff_ffff_ffff_ffff);
    assert(-0x7fff_ffff_ffff_ffff_8000_0000_0000_0000 <= m * s <= 0x7fff_ffff_ffff_ffff_8000_0000_0000_0000)
        by (nonlinear_arith)
        requires
            0 <= m <= 0xffff_ffff_ffff_ffff,
            -0x8000_0000_0000_0000 <= s <= 0x7fff_ffff_ffff_ffff,
    ;
}

/// `0 <= base + delta < len`, computed without leaving the range of `i128` for
/// any `base` and `len` that fit in a `usize`.
fn shifted_inside(base: i128, delta: i128, len: i128) -> (b: bool)
    requires
        0 <= base <= usize::MAX,
        0 <= len <= usize::MAX,
    ensures
        b == (0 <= base + delta < len),
{
    delta >= -base && delta < len - base
}

/// Whether every cell of a `rows` x `cols` block at `offset` with the given strides
/// lies inside a buffer of `len` elements. Decided from the four corners of the block.
pub fn spans(
    offset: usize,
    row_stride: isize,
    col_stride: isize,
    rows: usize,
    cols: usize,
    len: usize,
) -> (b: bool)
    ensures
        b == spec_spans(
            offset as int,
            row_stride as int,
            col_stride as int,
            rows as nat,
            cols as nat,
            len as nat,
        ),
{
    if rows == 0 || cols == 0 {
        return true;
    }
    let ghost (o, rs, cs) = (offset as int, row_stride as int, col_stride as int);
    let last_i: i128 = (rows - 1) as i128;
    let last_j: i128 = (cols - 1) as i128;
    let base: i128 = offset as i128;
    let n: i128 = len as i128;
    proof {
        lemma_product_fits_i128(last_i as int, rs);
        lemma_product_fits_i128(last_j as int, cs);
    }
    let down: i128 = last_i * (row_stride as i128);
    let across: i128 = last_j * (col_stride as i128);
    let inside = base < n && shifted_inside(base, down, n) && shifted_inside(base, across, n)
        && shifted_inside(base, down + across, n);
    proof {
        let last_r = last_i as int;
        let last_c = last_j as int;
        if inside {
            assert forall|i: int, j: int| 0 <= i < rows && 0 <= j < cols implies 0
                <= #[trigger] spec_addr(o, rs, cs, i, j) < len by {
                lemma_scaled_between(i, last_r, rs);
                lemma_scaled_between(j, last_c, cs);
            }
        } else {
            assert(spec_addr(o, rs, cs, 0, 0) == o);
            assert(spec_addr(o, rs, cs, last_r, 0) == o + down);
            assert(spec_addr(o, rs, cs, 0, last_c) == o + across);
            assert(spec_addr(o, rs, cs, last_r, last_c) == o + down + across);
        }
    }
    inside
}

} // verus!
