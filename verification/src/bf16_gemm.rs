//! Operand preparation of the bf16 tile kernel that packs its operands on every
//! `AddMatMul` call: the k-major A panel becomes row-major `[16, k_padded]`, the
//! row-major B panel `[k, 16]` is padded to `[k_padded, 16]`. Both hold bf16 bit
//! patterns, zero (the pattern of `+0.0`) in the padding.
use vstd::prelude::*;

use crate::amx_native_pack::{spec_a_panel, spec_b_panel, Bf16TensorView};
use crate::geometry::{k_padded, spec_k_padded};
use crate::tile::{pad_rows, spec_pad_rows, transpose_panel, TILE};

verus! {

/// The A operand of the tile primitive for a k-major packed A panel `pa`
/// (`pa[ik * 16 + i]`): row `i` holds `pa[ik * 16 + i]` at depth `ik < k`, zero beyond.
pub open spec fn spec_a_operand(pa: Seq<u16>, k: nat) -> Seq<u16> {
    let kp = spec_k_padded(k) as int;
    Seq::new(
        (TILE * kp) as nat,
        |x: int|
            if x % kp < k {
                pa[(x % kp) * TILE + x / kp]
            } else {
                0u16
            },
    )
}

/// Builds the row-major, depth-padded A operand from a k-major packed A panel.
pub fn a_operand(pa: &[u16], k: usize) -> (a: Vec<u16>)
    requires
        k * TILE <= pa@.len(),
        TILE * spec_k_padded(k as nat) <= usize::MAX,
    ensures
        a@ == spec_a_operand(pa@, k as nat),
        forall|i: int, ik: int|
            0 <= i < TILE && 0 <= ik < spec_k_padded(k as nat) ==> #[trigger] a@[i
                * spec_k_padded(k as nat) + ik] == if ik < k {
                pa@[ik * TILE + i]
            } else {
                0u16
            },
{
    let kp = k_padded(k);
    assert(TILE * k <= TILE * kp) by (nonlinear_arith)
        requires
            k <= kp,
    ;
    let rows = transpose_panel(pa, TILE, k);
    let a = pad_rows(rows.as_slice(), TILE, k, kp, 0u16);
    proof {
        let kpi = kp as int;
        assert forall|x: int| 0 <= x < TILE * kpi implies #[trigger] a@[x] == spec_a_operand(
            pa@,
            k as nat,
        )[x] by {
            let (i, ik) = (x / kpi, x % kpi);
            vstd::arithmetic::div_mod::lemma_fundamental_div_mod(x, kpi);
            assert(i * kpi == kpi * i) by (nonlinear_arith);
            assert(0 <= i < TILE) by (nonlinear_arith)
                requires
                    x == i * kpi + ik,
                    0 <= ik < kpi,
                    0 <= x < TILE * kpi,
            ;
            if ik < k {
                crate::geometry::lemma_split_index(i, ik, k as int);
                crate::geometry::lemma_index_below(i, ik, TILE as int, k as int);
            }
        }
    }
    assert(a@ =~= spec_a_operand(pa@, k as nat));
    a
}

/// The B operand of the tile primitive for a row-major B panel `pb` of `k` rows:
/// its `16 * k` cells, then zeros up to `16 * k_padded`.
pub open spec fn spec_b_operand(pb: Seq<u16>, k: nat) -> Seq<u16> {
    Seq::new(
        (spec_k_padded(k) * TILE) as nat,
        |x: int|
            if x < k * TILE {
                pb[x]
            } else {
                0u16
            },
    )
}

/// Builds the depth-padded B operand from a row-major `[k, 16]` B panel.
pub fn b_operand(pb: &[u16], k: usize) -> (b: Vec<u16>)
    requires
        k * TILE <= pb@.len(),
        spec_k_padded(k as nat) * TILE <= usize::MAX,
    ensures
        b@ == spec_b_operand(pb@, k as nat),
{
    let kp = k_padded(k);
    let b = pad_rows(pb, 1, k * TILE, kp * TILE, 0u16);
    proof {
        assert forall|x: int| 0 <= x < kp * TILE implies #[trigger] b@[x] == spec_b_operand(
            pb@,
            k as nat,
        )[x] by {
            let w = (kp * TILE) as int;
            vstd::arithmetic::div_mod::lemma_small_mod(x as nat, w as nat);
            vstd::arithmetic::div_mod::lemma_basic_div(x, w);
            assert(x / w == 0);
            assert(b@[x] == spec_pad_rows(pb@, 1, (k * TILE) as nat, w as nat, 0u16)[x]);
        }
    }
    assert(b@ =~= spec_b_operand(pb@, k as nat));
    b
}

/// The A operand built on every call equals panel 0 of the A packing format of any view
/// that presents the same 16 x `k` matrix (row `i`, depth `ik` holding `pa[ik * 16 + i]`),
/// whatever its axes, strides and offset: both bf16 kernels hand the tile primitive the
/// same A operand.
pub proof fn lemma_a_operand_is_a_panel(
    t: &Bf16TensorView,
    k_axis: int,
    mn_axis: int,
    pa: Seq<u16>,
    k: nat,
)
    requires
        t.shape@[mn_axis] == TILE,
        t.shape@[k_axis] == k,
        forall|i: int, ik: int|
            0 <= i < TILE && 0 <= ik < k ==> #[trigger] t.spec_at(k_axis, mn_axis, i, ik) == pa[ik
                * TILE + i],
    ensures
        spec_a_panel(t, k_axis, mn_axis, 0) == spec_a_operand(pa, k),
{
    let kp = spec_k_padded(k) as int;
    let panel = spec_a_panel(t, k_axis, mn_axis, 0);
    let op = spec_a_operand(pa, k);
    assert forall|x: int| 0 <= x < TILE * kp implies #[trigger] panel[x] == op[x] by {
        let (i, ik) = (x / kp, x % kp);
        vstd::arithmetic::div_mod::lemma_fundamental_div_mod(x, kp);
        assert(i * kp == kp * i) by (nonlinear_arith);
        assert(0 <= i < TILE) by (nonlinear_arith)
            requires
                x == i * kp + ik,
                0 <= ik < kp,
                0 <= x < TILE * kp,
        ;
        if ik < k {
            assert(t.spec_at(k_axis, mn_axis, i, ik) == pa[ik * TILE + i]);
        }
    }
    assert(panel =~= op);
}

/// The B operand built on every call equals panel 0 of the B packing format of any view
/// that presents the same `k` x 16 matrix (column `j`, depth `ik` holding
/// `pb[ik * 16 + j]`), whatever its axes, strides and offset: both bf16 kernels hand the
/// tile primitive's VNNI packer the same B operand.
pub proof fn lemma_b_operand_is_b_panel(
    t: &Bf16TensorView,
    k_axis: int,
    mn_axis: int,
    pb: Seq<u16>,
    k: nat,
)
    requires
        t.shape@[mn_axis] == TILE,
        t.shape@[k_axis] == k,
        forall|j: int, ik: int|
            0 <= j < TILE && 0 <= ik < k ==> #[trigger] t.spec_at(k_axis, mn_axis, j, ik) == pb[ik
                * TILE + j],
    ensures
        spec_b_panel(t, k_axis, mn_axis, 0) == spec_b_operand(pb, k),
{
    let kp = spec_k_padded(k) as int;
    let r = TILE as int;
    let panel = spec_b_panel(t, k_axis, mn_axis, 0);
    let op = spec_b_operand(pb, k);
    assert forall|x: int| 0 <= x < kp * r implies #[trigger] panel[x] == op[x] by {
        let (kk, lm) = (x / r, x % r);
        vstd::arithmetic::div_mod::lemma_fundamental_div_mod(x, r);
        assert(x == kk * r + lm);
        if kk < k {
            assert(t.spec_at(k_axis, mn_axis, lm, kk) == pb[kk * TILE + lm]);
        }
    }
    assert(panel =~= op);
}

} // verus!
