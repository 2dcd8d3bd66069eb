//! Panel geometry shared by the packing formats and the tile kernels.
use vstd::prelude::*;

verus! {

/// Rows in one packed panel: the bf16 tile primitive works on 16-row tiles.
pub const R: usize = 16;

/// Packed panels hold a depth that is a multiple of this.
pub const K_ALIGNMENT: usize = 32;

/// The smallest multiple of `K_ALIGNMENT` that is at least `k`.
pub open spec fn spec_k_padded(k: nat) -> nat {
    ((k + 31) / 32 * 32) as nat
}

/// `a / b` rounded up.
pub open spec fn spec_div_ceil(a: nat, b: nat) -> nat
    recommends
        b > 0,
{
    ((a + b - 1) / (b as int)) as nat
}

/// Depth `k` rounded up to the next multiple of 32 (zero stays zero).
pub fn k_padded(k: usize) -> (kp: usize)
    requires
        spec_k_padded(k as nat) <= usize::MAX,
    ensures
        kp == spec_k_padded(k as nat),
        kp % 32 == 0,
        k <= kp < k + 32,
{
    let rem = k % 32;
    if rem == 0 {
        k
    } else {
        k + (32 - rem)
    }
}

/// `p < ceil(mn / r)` exactly when panel `p` starts inside the `mn` rows.
pub proof fn lemma_panel_starts_inside(mn: nat, r: nat, p: nat)
    requires
        r > 0,
    ensures
        (p < spec_div_ceil(mn, r)) == (p * r < mn),
{
    let c = spec_div_ceil(mn, r);
    vstd::arithmetic::div_mod::lemma_fundamental_div_mod((mn + r - 1) as int, r as int);
    let q = (mn + r - 1) / (r as int);
    let rem = (mn + r - 1) % (r as int);
    assert(0 <= rem < r);
    if p < c {
        assert(p + 1 <= q);
        assert((p + 1) * r <= q * r) by (nonlinear_arith)
            requires
                p + 1 <= q,
                r > 0,
        ;
        assert(p * r + r == (p + 1) * r) by (nonlinear_arith);
    } else {
        assert(q <= p);
        assert(q * r <= p * r) by (nonlinear_arith)
            requires
                q <= p,
                r > 0,
        ;
    }
}

/// The `ceil(mn / r)` panels of `r` rows cover the `mn` rows, and none is empty: the
/// last panel starts before row `mn` and ends at or after it.
pub proof fn lemma_panels_cover(mn: nat, r: nat)
    requires
        r > 0,
    ensures
        spec_div_ceil(mn, r) * r >= mn,
        spec_div_ceil(mn, r) > 0 ==> (spec_div_ceil(mn, r) - 1) * r < mn,
{
    let c = spec_div_ceil(mn, r);
    lemma_panel_starts_inside(mn, r, c);
    if c > 0 {
        lemma_panel_starts_inside(mn, r, (c - 1) as nat);
    }
}

/// Number of `r`-row panels needed to cover `mn` rows.
pub fn panels_count(mn: usize, r: usize) -> (c: usize)
    requires
        r > 0,
    ensures
        c == spec_div_ceil(mn as nat, r as nat),
        c * r >= mn,
        c > 0 ==> (c - 1) * r < mn,
{
    proof {
        lemma_panels_cover(mn as nat, r as nat);
    }
    let q = mn / r;
    proof {
        vstd::arithmetic::div_mod::lemma_fundamental_div_mod(mn as int, r as int);
        assert((q + 1) * r == q * r + r) by (nonlinear_arith);
        assert(q * r == r * q) by (nonlinear_arith);
        if mn % r == 0 {
            vstd::arithmetic::div_mod::lemma_fundamental_div_mod_converse(
                (mn + r - 1) as int,
                r as int,
                q as int,
                r - 1,
            );
        } else {
            assert(q * r < mn);
            assert(q < mn) by (nonlinear_arith)
                requires
                    q * r < mn,
                    r >= 1,
            ;
            vstd::arithmetic::div_mod::lemma_fundamental_div_mod_converse(
                (mn + r - 1) as int,
                r as int,
                q + 1,
                mn % r - 1,
            );
        }
    }
    let c = if mn % r == 0 {
        q
    } else {
        q + 1
    };
    c
}

/// Number of live rows in panel `p`: `r`, except for a shorter last panel.
pub fn panel_width(mn: usize, r: usize, p: usize) -> (w: usize)
    requires
        r > 0,
        p < spec_div_ceil(mn as nat, r as nat),
    ensures
        p * r < mn,
        w == if mn - p * r < r {
            mn - p * r
        } else {
            r as int
        },
        0 < w <= r,
{
    proof {
        lemma_panel_starts_inside(mn as nat, r as nat, p as nat);
    }
    let start = p * r;
    let rest = mn - start;
    if rest < r {
        rest
    } else {
        r
    }
}

/// `row * width + col` splits back into `row` and `col` when `col < width`.
pub proof fn lemma_split_index(row: int, col: int, width: int)
    requires
        0 <= row,
        0 <= col < width,
    ensures
        (row * width + col) / width == row,
        (row * width + col) % width == col,
{
    vstd::arithmetic::div_mod::lemma_fundamental_div_mod_converse(
        row * width + col,
        width,
        row,
        col,
    );
}

/// `row * width + col < rows * width` when `row < rows` and `col < width`.
pub proof fn lemma_index_below(row: int, col: int, rows: int, width: int)
    requires
        0 <= row < rows,
        0 <= col < width,
    ensures
        row * width + col < rows * width,
        row * width + width <= rows * width,
{
    assert(row * width + width <= rows * width) by (nonlinear_arith)
        requires
            0 <= row < rows,
            0 <= width,
    ;
}

} // verus!
