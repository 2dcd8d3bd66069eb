//! Packing formats for the bf16 tile kernel, built once per operand so that the
//! kernel body never converts or re-packs anything.
//!
//! Both formats cut the `mn` rows of a matrix into panels of `R = 16` rows and pad
//! the depth `k` with zeros up to the next multiple of 32:
//! - A (activation operand): each panel is row-major `[16, k_padded]`;
//! - B (weight operand): each panel is row-major `[k_padded, 16]`, the layout the
//!   VNNI packer of the tile primitive takes.
//!
//! Elements are bf16 values held as their 16-bit patterns.
use vstd::prelude::*;

use crate::geometry::{
    k_padded, lemma_index_below, lemma_panel_starts_inside, lemma_split_index, panel_width,
    panels_count, spec_div_ceil, spec_k_padded, K_ALIGNMENT, R,
};
use crate::strided::{lemma_product_fits_i128, spans, spec_addr, spec_spans};

verus! {

/// A tensor of bf16 bit patterns: element `(.., i_axis, ..)` sits at
/// `offset + sum(i_axis * strides[axis])` in `data` (strides count elements).
pub struct Bf16TensorView {
    pub data: Vec<u16>,
    pub shape: Vec<usize>,
    pub strides: Vec<isize>,
    pub offset: usize,
}

impl Bf16TensorView {
    /// The element at row `m` of the `mn` axis and depth `kk` of the `k` axis.
    pub open spec fn spec_at(&self, k_axis: int, mn_axis: int, m: int, kk: int) -> u16 {
        self.data@[spec_addr(
            self.offset as int,
            self.strides@[mn_axis] as int,
            self.strides@[k_axis] as int,
            m,
            kk,
        )]
    }

    /// Both axes exist and every `(m, kk)` cell of the matrix they span lies in `data`.
    pub open spec fn spec_reads_as_matrix(&self, k_axis: int, mn_axis: int) -> bool {
        &&& 0 <= k_axis < self.shape@.len()
        &&& 0 <= mn_axis < self.shape@.len()
        &&& self.strides@.len() == self.shape@.len()
        &&& spec_spans(
            self.offset as int,
            self.strides@[mn_axis] as int,
            self.strides@[k_axis] as int,
            self.shape@[mn_axis] as nat,
            self.shape@[k_axis] as nat,
            self.data@.len(),
        )
    }

    /// Decides `spec_reads_as_matrix`: true exactly when both axes exist, every axis
    /// has a stride, and every cell `(m, kk)` of the matrix lies inside `data`.
    pub fn reads_as_matrix(&self, k_axis: usize, mn_axis: usize) -> (b: bool)
        ensures
            b == self.spec_reads_as_matrix(k_axis as int, mn_axis as int),
            b == (k_axis < self.shape@.len() && mn_axis < self.shape@.len()
                && self.strides@.len() == self.shape@.len() && forall|m: int, kk: int|
                0 <= m < self.shape@[mn_axis as int] && 0 <= kk < self.shape@[k_axis as int]
                    ==> 0 <= #[trigger] spec_addr(
                    self.offset as int,
                    self.strides@[mn_axis as int] as int,
                    self.strides@[k_axis as int] as int,
                    m,
                    kk,
                ) < self.data@.len()),
    {
        proof {
            lemma_reads_as_matrix_exactly(self, k_axis as int, mn_axis as int);
        }
        if k_axis >= self.shape.len() || mn_axis >= self.shape.len() || self.strides.len()
            != self.shape.len() {
            return false;
        }
        spans(
            self.offset,
            self.strides[mn_axis],
            self.strides[k_axis],
            self.shape[mn_axis],
            self.shape[k_axis],
            self.data.len(),
        )
    }

    fn read(&self, k_axis: usize, mn_axis: usize, m: usize, kk: usize) -> (v: u16)
        requires
            self.spec_reads_as_matrix(k_axis as int, mn_axis as int),
            m < self.shape@[mn_axis as int],
            kk < self.shape@[k_axis as int],
        ensures
            v == self.spec_at(k_axis as int, mn_axis as int, m as int, kk as int),
    {
        let ghost o = self.offset as int;
        let ghost ms = self.strides@[mn_axis as int] as int;
        let ghost ks = self.strides@[k_axis as int] as int;
        proof {
            // the cells on the two edges through (m, kk) are inside the buffer,
            // which bounds both products
            assert(0 <= spec_addr(o, ms, ks, m as int, 0) < self.data@.len());
            assert(0 <= spec_addr(o, ms, ks, 0, kk as int) < self.data@.len());
            assert(0 <= spec_addr(o, ms, ks, m as int, kk as int) < self.data@.len());
            lemma_product_fits_i128(m as int, ms);
            lemma_product_fits_i128(kk as int, ks);
        }
        let down: i128 = (m as i128) * (self.strides[mn_axis] as i128);
        let across: i128 = (kk as i128) * (self.strides[k_axis] as i128);
        // the buffer's length bounds the sum
        let len = self.data.len();
        let idx: i128 = (self.offset as i128) + down + across;
        assert(0 <= idx < len);
        self.data[idx as usize]
    }
}

/// The f32 bit pattern of each bf16 bit pattern: the 16 bits become the upper half of
/// the 32, the lower half is zero. Rounding an f32 through bf16 is converting it to
/// bf16 and then widening it back this way.
pub fn widen_bf16_bits(bits: &[u16]) -> (out: Vec<u32>)
    ensures
        out@.len() == bits@.len(),
        forall|i: int| 0 <= i < bits@.len() ==> #[trigger] out@[i] == bits@[i] as int * 65536,
{
    let mut out: Vec<u32> = Vec::with_capacity(bits.len());
    for i in 0..bits.len()
        invariant
            out@.len() == i,
            forall|j: int| 0 <= j < i ==> #[trigger] out@[j] == bits@[j] as int * 65536,
    {
        let b: u16 = bits[i];
        let w: u32 = (b as u32) << 16;
        assert(w == (b as u32) * 65536) by (bit_vector)
            requires
                w == (b as u32) << 16u32,
        ;
        out.push(w);
    }
    out
}

/// A view reads as a matrix on two axes exactly when both axes exist, every axis has a
/// stride, and every cell `(m, kk)` of the `mn` x `k` block they span, at
/// `offset + m * strides[mn_axis] + kk * strides[k_axis]`, lies inside `data`; which
/// axes they are (first, last, equal) does not matter.
pub proof fn lemma_reads_as_matrix_exactly(t: &Bf16TensorView, k_axis: int, mn_axis: int)
    ensures
        t.spec_reads_as_matrix(k_axis, mn_axis) == (0 <= k_axis < t.shape@.len() && 0 <= mn_axis
            < t.shape@.len() && t.strides@.len() == t.shape@.len() && forall|m: int, kk: int|
            0 <= m < t.shape@[mn_axis] && 0 <= kk < t.shape@[k_axis] ==> 0 <= #[trigger] spec_addr(
                t.offset as int,
                t.strides@[mn_axis] as int,
                t.strides@[k_axis] as int,
                m,
                kk,
            ) < t.data@.len()),
{
}

/// Padded depth of the packed panels of `t`.
pub open spec fn spec_kp(t: &Bf16TensorView, k_axis: int) -> nat {
    spec_k_padded(t.shape@[k_axis] as nat)
}

/// Row `lm` of panel `p` at depth `kk`: the matrix element where the panel covers a
/// matrix row and `kk` lies inside the depth, zero in the padding.
pub open spec fn spec_panel_cell(
    t: &Bf16TensorView,
    k_axis: int,
    mn_axis: int,
    p: int,
    lm: int,
    kk: int,
) -> u16 {
    if p * R + lm < t.shape@[mn_axis] && kk < t.shape@[k_axis] {
        t.spec_at(k_axis, mn_axis, p * R + lm, kk)
    } else {
        0
    }
}

/// Panel `p` of the A format: row-major `[R, kp]`.
pub open spec fn spec_a_panel(t: &Bf16TensorView, k_axis: int, mn_axis: int, p: int) -> Seq<u16> {
    let kp = spec_kp(t, k_axis) as int;
    Seq::new(
        (R * kp) as nat,
        |i: int| spec_panel_cell(t, k_axis, mn_axis, p, i / kp, i % kp),
    )
}

/// All panels of the A format.
pub open spec fn spec_a_panels(t: &Bf16TensorView, k_axis: int, mn_axis: int) -> Seq<Seq<u16>> {
    Seq::new(
        spec_div_ceil(t.shape@[mn_axis] as nat, R as nat),
        |p: int| spec_a_panel(t, k_axis, mn_axis, p),
    )
}

/// Packing format of the A operand (activation lifetime).
#[derive(Debug, Hash, PartialEq, Eq)]
pub struct NdarrayAmxBf16A {
    r: usize,
}

impl Clone for NdarrayAmxBf16A {
    fn clone(&self) -> (c: Self)
        ensures
            c == *self,
    {
        proof {
            use_type_invariant(self);
        }
        NdarrayAmxBf16A { r: self.r }
    }
}

impl NdarrayAmxBf16A {
    #[verifier::type_invariant]
    spec fn inv(self) -> bool {
        self.r == R
    }

    /// Rows per panel.
    pub closed spec fn spec_r(&self) -> usize {
        self.r
    }

    /// The tile primitive is fixed at 16 rows: `r` must be 16.
    pub fn new(r: usize) -> (s: Self)
        requires
            r == R,
        ensures
            s.spec_r() == r,
    {
        NdarrayAmxBf16A { r }
    }

    /// Rows per panel.
    pub fn r(&self) -> (r: usize)
        ensures
            r == self.spec_r(),
            r == R,
    {
        proof {
            use_type_invariant(self);
        }
        self.r
    }

    /// Depth alignment of the panels.
    pub fn k_alignment(&self) -> (a: usize)
        ensures
            a == K_ALIGNMENT,
    {
        32
    }

    /// This format merges with another A format of the same panel height, which
    /// every A format has.
    pub fn merge_with<'a>(&'a self, other: &NdarrayAmxBf16A) -> (m: Option<&'a NdarrayAmxBf16A>)
        ensures
            m == Some(self),
    {
        proof {
            use_type_invariant(self);
            use_type_invariant(other);
        }
        if other.r == self.r {
            Some(self)
        } else {
            None
        }
    }

    /// Bytes of one packed panel for depth `k`; an unknown depth counts as zero.
    pub fn panel_mem_size(&self, k: Option<usize>) -> (n: usize)
        requires
            spec_k_padded(k.unwrap_or(0) as nat) * R * 2 <= usize::MAX,
        ensures
            n == R * spec_k_padded(k.unwrap_or(0) as nat) * 2,
    {
        proof {
            use_type_invariant(self);
        }
        let kk = match k {
            Some(v) => v,
            None => 0,
        };
        self.r * k_padded(kk) * 2
    }

    /// Bytes of all packed panels of an `mn` x `k` operand; an unknown depth counts as zero.
    pub fn mem_size(&self, k: Option<usize>, mn: usize) -> (n: usize)
        requires
            spec_k_padded(k.unwrap_or(0) as nat) * R * 2 <= usize::MAX,
            spec_div_ceil(mn as nat, R as nat) * (R * spec_k_padded(k.unwrap_or(0) as nat) * 2)
                <= usize::MAX,
        ensures
            n == spec_div_ceil(mn as nat, R as nat) * (R * spec_k_padded(
                k.unwrap_or(0) as nat,
            ) * 2),
    {
        proof {
            use_type_invariant(self);
        }
        panels_count(mn, self.r) * self.panel_mem_size(k)
    }

    /// Packs the `mn` x `k` matrix that `t` spans on `mn_axis` and `k_axis` into
    /// A panels.
    pub fn prepare_one_view(&self, t: &Bf16TensorView, k_axis: usize, mn_axis: usize) -> (v:
        NdarrayAmxBf16AValue)
        requires
            t.spec_reads_as_matrix(k_axis as int, mn_axis as int),
            R * spec_kp(t, k_axis as int) <= usize::MAX,
        ensures
            v.spec_k() == t.shape@[k_axis as int],
            v.spec_mn() == t.shape@[mn_axis as int],
            v.spec_panels() == spec_a_panels(t, k_axis as int, mn_axis as int),
            v.spec_panels().len() * 16 >= t.shape@[mn_axis as int],
            forall|p: int|
                0 <= p < v.spec_panels().len() ==> p * 16 < t.shape@[mn_axis as int]
                    && #[trigger] v.spec_panels()[p].len() == 16 * ((t.shape@[k_axis as int] + 31)
                    / 32 * 32),
    {
        proof {
            use_type_invariant(self);
        }
        let k = t.shape[k_axis];
        let mn = t.shape[mn_axis];
        let kp = k_padded(k);
        let count = panels_count(mn, self.r);
        let mut panels: Vec<Vec<u16>> = Vec::with_capacity(count);
        for p in 0..count
            invariant
                t.spec_reads_as_matrix(k_axis as int, mn_axis as int),
                R * spec_kp(t, k_axis as int) <= usize::MAX,
                kp == spec_kp(t, k_axis as int),
                mn == t.shape@[mn_axis as int],
                count == spec_div_ceil(mn as nat, R as nat),
                self.r == R,
                panels@.len() == p,
                forall|q: int|
                    0 <= q < p ==> #[trigger] panels@[q]@ == spec_a_panel(
                        t,
                        k_axis as int,
                        mn_axis as int,
                        q,
                    ),
        {
            let panel = pack_a_panel(t, k_axis, mn_axis, p, kp);
            panels.push(panel);
        }
        let v = NdarrayAmxBf16AValue { format: self.clone(), k, mn, panels };
        assert(v.spec_panels() =~= spec_a_panels(t, k_axis as int, mn_axis as int));
        v
    }
}

fn pack_a_panel(t: &Bf16TensorView, k_axis: usize, mn_axis: usize, p: usize, kp: usize) -> (panel:
    Vec<u16>)
    requires
        t.spec_reads_as_matrix(k_axis as int, mn_axis as int),
        p < spec_div_ceil(t.shape@[mn_axis as int] as nat, R as nat),
        kp == spec_kp(t, k_axis as int),
        R * kp <= usize::MAX,
    ensures
        panel@ == spec_a_panel(t, k_axis as int, mn_axis as int, p as int),
{
    let k = t.shape[k_axis];
    let mn = t.shape[mn_axis];
    let pw = panel_width(mn, R, p);
    let ghost kpi = kp as int;
    let mut panel: Vec<u16> = Vec::with_capacity(R * kp);
    assert(0 * kpi == 0);
    for lm in 0..R
        invariant
            t.spec_reads_as_matrix(k_axis as int, mn_axis as int),
            k == t.shape@[k_axis as int],
            mn == t.shape@[mn_axis as int],
            kp == spec_kp(t, k_axis as int),
            k <= kp,
            kpi == kp,
            R * kp <= usize::MAX,
            p * R < mn,
            pw == if mn - p * R < R {
                mn - p * R
            } else {
                R as int
            },
            panel@.len() == lm * kpi,
            forall|i: int|
                0 <= i < panel@.len() ==> #[trigger] panel@[i] == spec_panel_cell(
                    t,
                    k_axis as int,
                    mn_axis as int,
                    p as int,
                    i / kpi,
                    i % kpi,
                ),
    {
        for kk in 0..kp
            invariant
                t.spec_reads_as_matrix(k_axis as int, mn_axis as int),
                k == t.shape@[k_axis as int],
                mn == t.shape@[mn_axis as int],
                k <= kp,
                kpi == kp,
                R * kp <= usize::MAX,
                lm < R,
                p * R < mn,
                pw == if mn - p * R < R {
                    mn - p * R
                } else {
                    R as int
                },
                panel@.len() == lm * kpi + kk,
                forall|i: int|
                    0 <= i < panel@.len() ==> #[trigger] panel@[i] == spec_panel_cell(
                        t,
                        k_axis as int,
                        mn_axis as int,
                        p as int,
                        i / kpi,
                        i % kpi,
                    ),
        {
            proof {
                lemma_index_below(lm as int, kk as int, R as int, kpi);
                lemma_split_index(lm as int, kk as int, kpi);
            }
            let v = if lm < pw && kk < k {
                t.read(k_axis, mn_axis, p * R + lm, kk)
            } else {
                0
            };
            panel.push(v);
        }
        proof {
            assert(lm * kpi + kpi == (lm + 1) * kpi) by (nonlinear_arith);
        }
    }
    assert(panel@ =~= spec_a_panel(t, k_axis as int, mn_axis as int, p as int));
    panel
}

/// A copy of a panel list.
fn copy_panels(panels: &Vec<Vec<u16>>) -> (c: Vec<Vec<u16>>)
    ensures
        c@.map_values(|v: Vec<u16>| v@) == panels@.map_values(|v: Vec<u16>| v@),
{
    let mut c: Vec<Vec<u16>> = Vec::with_capacity(panels.len());
    for p in 0..panels.len()
        invariant
            c@.len() == p,
            forall|q: int| 0 <= q < p ==> #[trigger] c@[q]@ == panels@[q]@,
    {
        let src = &panels[p];
        let mut panel: Vec<u16> = Vec::with_capacity(src.len());
        for i in 0..src.len()
            invariant
                panel@.len() == i,
                forall|j: int| 0 <= j < i ==> #[trigger] panel@[j] == src@[j],
        {
            panel.push(src[i]);
        }
        assert(panel@ =~= src@);
        c.push(panel);
    }
    assert(c@.map_values(|v: Vec<u16>| v@) =~= panels@.map_values(|v: Vec<u16>| v@));
    c
}

/// Whether two panel lists hold the same panels.
fn panels_equal(a: &Vec<Vec<u16>>, b: &Vec<Vec<u16>>) -> (r: bool)
    ensures
        r == (a@.map_values(|v: Vec<u16>| v@) == b@.map_values(|v: Vec<u16>| v@)),
{
    let ghost va = a@.map_values(|v: Vec<u16>| v@);
    let ghost vb = b@.map_values(|v: Vec<u16>| v@);
    if a.len() != b.len() {
        assert(va.len() != vb.len());
        return false;
    }
    for p in 0..a.len()
        invariant
            a@.len() == b@.len(),
            va == a@.map_values(|v: Vec<u16>| v@),
            vb == b@.map_values(|v: Vec<u16>| v@),
            forall|q: int| 0 <= q < p ==> #[trigger] va[q] == vb[q],
    {
        let (x, y) = (&a[p], &b[p]);
        if x.len() != y.len() {
            assert(va[p as int].len() != vb[p as int].len());
            return false;
        }
        for i in 0..x.len()
            invariant
                p < a@.len(),
                a@.len() == b@.len(),
                va == a@.map_values(|v: Vec<u16>| v@),
                vb == b@.map_values(|v: Vec<u16>| v@),
                x@.len() == y@.len(),
                x@ == va[p as int],
                y@ == vb[p as int],
                forall|j: int| 0 <= j < i ==> #[trigger] x@[j] == y@[j],
        {
            if x[i] != y[i] {
                assert(va[p as int][i as int] != vb[p as int][i as int]);
                assert(va[p as int] != vb[p as int]);
                assert(va != vb);
                return false;
            }
        }
        assert(va[p as int] =~= vb[p as int]);
    }
    assert(va =~= vb);
    true
}

/// One packed A operand: `panels[p]` is row-major bf16 `[16, k_padded]`.
/// Hashing feeds the format, `k`, `mn`, then the panels.
#[derive(Debug, Hash)]
pub struct NdarrayAmxBf16AValue {
    format: NdarrayAmxBf16A,
    k: usize,
    mn: usize,
    panels: Vec<Vec<u16>>,
}

/// A copy of the packed operand, panel by panel.
impl Clone for NdarrayAmxBf16AValue {
    fn clone(&self) -> (c: Self)
        ensures
            c.spec_k() == self.spec_k(),
            c.spec_mn() == self.spec_mn(),
            c.spec_panels() == self.spec_panels(),
    {
        NdarrayAmxBf16AValue {
            format: self.format.clone(),
            k: self.k,
            mn: self.mn,
            panels: copy_panels(&self.panels),
        }
    }
}

/// Two packed operands are equal when they have the same shape and panels (every
/// format value of a kind is the same).
impl PartialEq for NdarrayAmxBf16AValue {
    fn eq(&self, other: &Self) -> (r: bool) {
        proof {
            use_type_invariant(&self.format);
            use_type_invariant(&other.format);
        }
        self.format.r == other.format.r && self.k == other.k && self.mn == other.mn
            && panels_equal(&self.panels, &other.panels)
    }
}

impl vstd::std_specs::cmp::PartialEqSpecImpl for NdarrayAmxBf16AValue {
    open spec fn obeys_eq_spec() -> bool {
        true
    }

    open spec fn eq_spec(&self, other: &Self) -> bool {
        &&& self.spec_k() == other.spec_k()
        &&& self.spec_mn() == other.spec_mn()
        &&& self.spec_panels() == other.spec_panels()
    }
}

impl Eq for NdarrayAmxBf16AValue {

}

impl NdarrayAmxBf16AValue {
    /// Depth of the packed matrix (before padding).
    pub closed spec fn spec_k(&self) -> nat {
        self.k as nat
    }

    /// Rows of the packed matrix.
    pub closed spec fn spec_mn(&self) -> nat {
        self.mn as nat
    }

    /// The packed panels.
    pub closed spec fn spec_panels(&self) -> Seq<Seq<u16>> {
        self.panels@.map_values(|v: Vec<u16>| v@)
    }

    /// The format this operand was packed with.
    pub fn format(&self) -> (f: &NdarrayAmxBf16A)
        ensures
            f.spec_r() == R,
    {
        proof {
            use_type_invariant(&self.format);
        }
        &self.format
    }

    /// Rows of the packed matrix.
    pub fn mn(&self) -> (mn: usize)
        ensures
            mn == self.spec_mn(),
    {
        self.mn
    }

    /// Depth of the packed matrix (before padding).
    pub fn k(&self) -> (k: usize)
        ensures
            k == self.spec_k(),
    {
        self.k
    }

    /// Number of packed panels.
    pub fn panels_count(&self) -> (n: usize)
        ensures
            n == self.spec_panels().len(),
    {
        self.panels.len()
    }

    /// Panel `i`, ready to feed the tile primitive as its A operand.
    pub fn panel(&self, i: usize) -> (p: &[u16])
        requires
            i < self.spec_panels().len(),
        ensures
            p@ == self.spec_panels()[i as int],
    {
        self.panels[i].as_slice()
    }
}


/// Panel `p` of the B format: row-major `[kp, R]`.
pub open spec fn spec_b_panel(t: &Bf16TensorView, k_axis: int, mn_axis: int, p: int) -> Seq<u16> {
    let kp = spec_kp(t, k_axis) as int;
    Seq::new(
        (kp * R) as nat,
        |i: int| spec_panel_cell(t, k_axis, mn_axis, p, i % (R as int), i / (R as int)),
    )
}

/// All panels of the B format.
pub open spec fn spec_b_panels(t: &Bf16TensorView, k_axis: int, mn_axis: int) -> Seq<Seq<u16>> {
    Seq::new(
        spec_div_ceil(t.shape@[mn_axis] as nat, R as nat),
        |p: int| spec_b_panel(t, k_axis, mn_axis, p),
    )
}

/// Packing format of the B operand (constant-weight lifetime): panels are laid out
/// `[k_padded, 16]`, the input of the tile primitive's VNNI packer.
#[derive(Debug, Hash, PartialEq, Eq)]
pub struct NdarrayAmxBf16B {
    r: usize,
}

impl Clone for NdarrayAmxBf16B {
    fn clone(&self) -> (c: Self)
        ensures
            c == *self,
    {
        proof {
            use_type_invariant(self);
        }
        NdarrayAmxBf16B { r: self.r }
    }
}

impl NdarrayAmxBf16B {
    #[verifier::type_invariant]
    spec fn inv(self) -> bool {
        self.r == R
    }

    /// Rows per panel.
    pub closed spec fn spec_r(&self) -> usize {
        self.r
    }

    /// The tile primitive is fixed at 16 rows: `r` must be 16.
    pub fn new(r: usize) -> (s: Self)
        requires
            r == R,
        ensures
            s.spec_r() == r,
    {
        NdarrayAmxBf16B { r }
    }

    /// Rows per panel.
    pub fn r(&self) -> (r: usize)
        ensures
            r == self.spec_r(),
            r == R,
    {
        proof {
            use_type_invariant(self);
        }
        self.r
    }

    /// Depth alignment of the panels.
    pub fn k_alignment(&self) -> (a: usize)
        ensures
            a == K_ALIGNMENT,
    {
        32
    }

    /// This format merges with another B format of the same panel height, which
    /// every B format has.
    pub fn merge_with<'a>(&'a self, other: &NdarrayAmxBf16B) -> (m: Option<&'a NdarrayAmxBf16B>)
        ensures
            m == Some(self),
    {
        proof {
            use_type_invariant(self);
            use_type_invariant(other);
        }
        if other.r == self.r {
            Some(self)
        } else {
            None
        }
    }

    /// Bytes of one packed panel for depth `k`; an unknown depth counts as zero.
    pub fn panel_mem_size(&self, k: Option<usize>) -> (n: usize)
        requires
            spec_k_padded(k.unwrap_or(0) as nat) * R * 2 <= usize::MAX,
        ensures
            n == spec_k_padded(k.unwrap_or(0) as nat) * R * 2,
    {
        proof {
            use_type_invariant(self);
        }
        let kk = match k {
            Some(v) => v,
            None => 0,
        };
        k_padded(kk) * self.r * 2
    }

    /// Bytes of all packed panels of an `mn` x `k` operand; an unknown depth counts as zero.
    pub fn mem_size(&self, k: Option<usize>, mn: usize) -> (n: usize)
        requires
            spec_k_padded(k.unwrap_or(0) as nat) * R * 2 <= usize::MAX,
            spec_div_ceil(mn as nat, R as nat) * (spec_k_padded(k.unwrap_or(0) as nat) * R * 2)
                <= usize::MAX,
        ensures
            n == spec_div_ceil(mn as nat, R as nat) * (spec_k_padded(k.unwrap_or(0) as nat) * R
                * 2),
    {
        proof {
            use_type_invariant(self);
        }
        panels_count(mn, self.r) * self.panel_mem_size(k)
    }

    /// Packs the `mn` x `k` matrix that `t` spans on `mn_axis` and `k_axis` into
    /// B panels.
    pub fn prepare_one_view(&self, t: &Bf16TensorView, k_axis: usize, mn_axis: usize) -> (v:
        NdarrayAmxBf16BValue)
        requires
            t.spec_reads_as_matrix(k_axis as int, mn_axis as int),
            spec_kp(t, k_axis as int) * R <= usize::MAX,
        ensures
            v.spec_k() == t.shape@[k_axis as int],
            v.spec_mn() == t.shape@[mn_axis as int],
            v.spec_panels() == spec_b_panels(t, k_axis as int, mn_axis as int),
            v.spec_panels().len() * 16 >= t.shape@[mn_axis as int],
            forall|p: int|
                0 <= p < v.spec_panels().len() ==> p * 16 < t.shape@[mn_axis as int]
                    && #[trigger] v.spec_panels()[p].len() == 16 * ((t.shape@[k_axis as int] + 31)
                    / 32 * 32),
    {
        proof {
            use_type_invariant(self);
        }
        let k = t.shape[k_axis];
        let mn = t.shape[mn_axis];
        let kp = k_padded(k);
        let count = panels_count(mn, self.r);
        let mut panels: Vec<Vec<u16>> = Vec::with_capacity(count);
        for p in 0..count
            invariant
                t.spec_reads_as_matrix(k_axis as int, mn_axis as int),
                spec_kp(t, k_axis as int) * R <= usize::MAX,
                kp == spec_kp(t, k_axis as int),
                mn == t.shape@[mn_axis as int],
                count == spec_div_ceil(mn as nat, R as nat),
                self.r == R,
                panels@.len() == p,
                forall|q: int|
                    0 <= q < p ==> #[trigger] panels@[q]@ == spec_b_panel(
                        t,
                        k_axis as int,
                        mn_axis as int,
                        q,
                    ),
        {
            let panel = pack_b_panel(t, k_axis, mn_axis, p, kp);
            panels.push(panel);
        }
        let v = NdarrayAmxBf16BValue { format: self.clone(), k, mn, panels };
        assert(v.spec_panels() =~= spec_b_panels(t, k_axis as int, mn_axis as int));
        v
    }
}

fn pack_b_panel(t: &Bf16TensorView, k_axis: usize, mn_axis: usize, p: usize, kp: usize) -> (panel:
    Vec<u16>)
    requires
        t.spec_reads_as_matrix(k_axis as int, mn_axis as int),
        p < spec_div_ceil(t.shape@[mn_axis as int] as nat, R as nat),
        kp == spec_kp(t, k_axis as int),
        kp * R <= usize::MAX,
    ensures
        panel@ == spec_b_panel(t, k_axis as int, mn_axis as int, p as int),
{
    let k = t.shape[k_axis];
    let mn = t.shape[mn_axis];
    let pw = panel_width(mn, R, p);
    let ghost r = R as int;
    let mut panel: Vec<u16> = Vec::with_capacity(kp * R);
    for kk in 0..kp
        invariant
            t.spec_reads_as_matrix(k_axis as int, mn_axis as int),
            k == t.shape@[k_axis as int],
            mn == t.shape@[mn_axis as int],
            kp == spec_kp(t, k_axis as int),
            k <= kp,
            r == R,
            kp * R <= usize::MAX,
            p * R < mn,
            pw == if mn - p * R < R {
                mn - p * R
            } else {
                R as int
            },
            panel@.len() == kk * r,
            forall|i: int|
                0 <= i < panel@.len() ==> #[trigger] panel@[i] == spec_panel_cell(
                    t,
                    k_axis as int,
                    mn_axis as int,
                    p as int,
                    i % r,
                    i / r,
                ),
    {
        for lm in 0..R
            invariant
                t.spec_reads_as_matrix(k_axis as int, mn_axis as int),
                k == t.shape@[k_axis as int],
                mn == t.shape@[mn_axis as int],
                k <= kp,
                r == R,
                kk < kp,
                kp * R <= usize::MAX,
                p * R < mn,
                pw == if mn - p * R < R {
                    mn - p * R
                } else {
                    R as int
                },
                panel@.len() == kk * r + lm,
                forall|i: int|
                    0 <= i < panel@.len() ==> #[trigger] panel@[i] == spec_panel_cell(
                        t,
                        k_axis as int,
                        mn_axis as int,
                        p as int,
                        i % r,
                        i / r,
                    ),
        {
            proof {
                lemma_index_below(kk as int, lm as int, kp as int, r);
                assert(kk * r + lm < kp * r);
                assert(kp * r == kp * R);
                lemma_split_index(kk as int, lm as int, r);
            }
            let v = if lm < pw && kk < k {
                t.read(k_axis, mn_axis, p * R + lm, kk)
            } else {
                0
            };
            panel.push(v);
        }
    }
    assert(panel@ =~= spec_b_panel(t, k_axis as int, mn_axis as int, p as int));
    panel
}

/// One packed B operand: `panels[p]` is row-major bf16 `[k_padded, 16]`, the input of
/// the tile primitive's VNNI packer.
/// Hashing feeds the format, `k`, `mn`, then the panels.
#[derive(Hash)]
pub struct NdarrayAmxBf16BValue {
    format: NdarrayAmxBf16B,
    k: usize,
    mn: usize,
    panels: Vec<Vec<u16>>,
}

/// A copy of the packed operand, panel by panel.
impl Clone for NdarrayAmxBf16BValue {
    fn clone(&self) -> (c: Self)
        ensures
            c.spec_k() == self.spec_k(),
            c.spec_mn() == self.spec_mn(),
            c.spec_panels() == self.spec_panels(),
    {
        NdarrayAmxBf16BValue {
            format: self.format.clone(),
            k: self.k,
            mn: self.mn,
            panels: copy_panels(&self.panels),
        }
    }
}

/// Two packed operands are equal when they have the same shape and panels (every
/// format value of a kind is the same).
impl PartialEq for NdarrayAmxBf16BValue {
    fn eq(&self, other: &Self) -> (r: bool) {
        proof {
            use_type_invariant(&self.format);
            use_type_invariant(&other.format);
        }
        self.format.r == other.format.r && self.k == other.k && self.mn == other.mn
            && panels_equal(&self.panels, &other.panels)
    }
}

impl vstd::std_specs::cmp::PartialEqSpecImpl for NdarrayAmxBf16BValue {
    open spec fn obeys_eq_spec() -> bool {
        true
    }

    open spec fn eq_spec(&self, other: &Self) -> bool {
        &&& self.spec_k() == other.spec_k()
        &&& self.spec_mn() == other.spec_mn()
        &&& self.spec_panels() == other.spec_panels()
    }
}

impl Eq for NdarrayAmxBf16BValue {

}

impl NdarrayAmxBf16BValue {
    /// Depth of the packed matrix (before padding).
    pub closed spec fn spec_k(&self) -> nat {
        self.k as nat
    }

    /// Columns of the packed matrix.
    pub closed spec fn spec_mn(&self) -> nat {
        self.mn as nat
    }

    /// The packed panels.
    pub closed spec fn spec_panels(&self) -> Seq<Seq<u16>> {
        self.panels@.map_values(|v: Vec<u16>| v@)
    }

    /// The format this operand was packed with.
    pub fn format(&self) -> (f: &NdarrayAmxBf16B)
        ensures
            f.spec_r() == R,
    {
        proof {
            use_type_invariant(&self.format);
        }
        &self.format
    }

    /// Columns of the packed matrix.
    pub fn mn(&self) -> (mn: usize)
        ensures
            mn == self.spec_mn(),
    {
        self.mn
    }

    /// Depth of the packed matrix (before padding).
    pub fn k(&self) -> (k: usize)
        ensures
            k == self.spec_k(),
    {
        self.k
    }

    /// Number of packed panels.
    pub fn panels_count(&self) -> (n: usize)
        ensures
            n == self.spec_panels().len(),
    {
        self.panels.len()
    }

    /// Panel `i`, row-major `[k_padded, 16]`.
    pub fn panel(&self, i: usize) -> (p: &[u16])
        requires
            i < self.spec_panels().len(),
        ensures
            p@ == self.spec_panels()[i as int],
    {
        self.panels[i].as_slice()
    }
}

/// The B panel is the A panel transposed: row `lm` of A panel `p` at depth `kk`
/// is depth `kk` of B panel `p` at column `lm`.
pub proof fn lemma_b_panel_is_a_panel_transposed(
    t: &Bf16TensorView,
    k_axis: int,
    mn_axis: int,
    p: int,
    lm: int,
    kk: int,
)
    requires
        0 <= lm < R,
        0 <= kk < spec_kp(t, k_axis),
    ensures
        lm * spec_kp(t, k_axis) + kk < spec_a_panel(t, k_axis, mn_axis, p).len(),
        kk * R + lm < spec_b_panel(t, k_axis, mn_axis, p).len(),
        spec_b_panel(t, k_axis, mn_axis, p)[kk * R + lm] == spec_a_panel(t, k_axis, mn_axis, p)[lm
            * spec_kp(t, k_axis) + kk],
{
    let kp = spec_kp(t, k_axis) as int;
    lemma_index_below(lm, kk, R as int, kp);
    lemma_index_below(kk, lm, kp, R as int);
    assert(R * kp == kp * R) by (nonlinear_arith);
    lemma_split_index(lm, kk, kp);
    lemma_split_index(kk, lm, R as int);
}

/// Packing loses nothing: element `(m, kk)` of the matrix is row `m % R` of A panel
/// `m / R`, at depth `kk`.
pub proof fn lemma_a_panels_hold_every_element(
    t: &Bf16TensorView,
    k_axis: int,
    mn_axis: int,
    m: int,
    kk: int,
)
    requires
        0 <= m < t.shape@[mn_axis],
        0 <= kk < t.shape@[k_axis],
    ensures
        m / (R as int) < spec_a_panels(t, k_axis, mn_axis).len(),
        (m % (R as int)) * spec_kp(t, k_axis) + kk < spec_a_panels(t, k_axis, mn_axis)[m / (
        R as int)].len(),
        spec_a_panels(t, k_axis, mn_axis)[m / (R as int)][(m % (R as int)) * spec_kp(t, k_axis)
            + kk] == t.data@[t.offset + m * t.strides@[mn_axis] + kk * t.strides@[k_axis]],
{
    let r = R as int;
    let kp = spec_kp(t, k_axis) as int;
    let (p, lm) = (m / r, m % r);
    vstd::arithmetic::div_mod::lemma_fundamental_div_mod(m, r);
    assert(p * r == r * p) by (nonlinear_arith);
    assert(p * r <= m);
    lemma_panel_starts_inside(t.shape@[mn_axis] as nat, R as nat, p as nat);
    lemma_index_below(lm, kk, r, kp);
    lemma_split_index(lm, kk, kp);
}

/// Packing loses nothing: element `(m, kk)` of the matrix is depth `kk` of B panel
/// `m / R`, at column `m % R`.
pub proof fn lemma_b_panels_hold_every_element(
    t: &Bf16TensorView,
    k_axis: int,
    mn_axis: int,
    m: int,
    kk: int,
)
    requires
        0 <= m < t.shape@[mn_axis],
        0 <= kk < t.shape@[k_axis],
    ensures
        m / (R as int) < spec_b_panels(t, k_axis, mn_axis).len(),
        kk * R + m % (R as int) < spec_b_panels(t, k_axis, mn_axis)[m / (R as int)].len(),
        spec_b_panels(t, k_axis, mn_axis)[m / (R as int)][kk * R + m % (R as int)] == t.data@[t.offset
            + m * t.strides@[mn_axis] + kk * t.strides@[k_axis]],
{
    let r = R as int;
    let kp = spec_kp(t, k_axis) as int;
    let (p, lm) = (m / r, m % r);
    vstd::arithmetic::div_mod::lemma_fundamental_div_mod(m, r);
    assert(p * r == r * p) by (nonlinear_arith);
    lemma_panel_starts_inside(t.shape@[mn_axis] as nat, R as nat, p as nat);
    lemma_index_below(kk, lm, kp, r);
    lemma_split_index(kk, lm, r);
}

/// Everything outside the matrix is zero: depth beyond `k`, and rows of the last
/// panel beyond `mn`, hold the bf16 pattern `0`.
pub proof fn lemma_padding_is_zero(
    t: &Bf16TensorView,
    k_axis: int,
    mn_axis: int,
    p: int,
    lm: int,
    kk: int,
)
    requires
        0 <= p < spec_div_ceil(t.shape@[mn_axis] as nat, R as nat),
        0 <= lm < R,
        0 <= kk < spec_kp(t, k_axis),
        kk >= t.shape@[k_axis] || p * R + lm >= t.shape@[mn_axis],
    ensures
        spec_a_panels(t, k_axis, mn_axis)[p][lm * spec_kp(t, k_axis) + kk] == 0,
        spec_b_panels(t, k_axis, mn_axis)[p][kk * R + lm] == 0,
{
    let kp = spec_kp(t, k_axis) as int;
    lemma_split_index(lm, kk, kp);
    lemma_split_index(kk, lm, R as int);
    lemma_index_below(lm, kk, R as int, kp);
    lemma_index_below(kk, lm, kp, R as int);
}

/// `mem_size` counts exactly the bytes of the panels that packing builds, two per
/// bf16 element, for both formats.
pub proof fn lemma_mem_size_counts_packed_bytes(t: &Bf16TensorView, k_axis: int, mn_axis: int)
    ensures
        spec_a_panels(t, k_axis, mn_axis).len() * spec_a_panel(t, k_axis, mn_axis, 0).len() * 2
            == spec_div_ceil(t.shape@[mn_axis] as nat, R as nat) * (R * spec_k_padded(
            t.shape@[k_axis] as nat,
        ) * 2),
        spec_b_panels(t, k_axis, mn_axis).len() * spec_b_panel(t, k_axis, mn_axis, 0).len() * 2
            == spec_div_ceil(t.shape@[mn_axis] as nat, R as nat) * (spec_k_padded(
            t.shape@[k_axis] as nat,
        ) * R * 2),
{
    let c = spec_div_ceil(t.shape@[mn_axis] as nat, R as nat) as int;
    let kp = spec_kp(t, k_axis) as int;
    assert(c * (R * kp) * 2 == c * (R * kp * 2)) by (nonlinear_arith);
    assert(c * (kp * R) * 2 == c * (kp * R * 2)) by (nonlinear_arith);
}

/// Two views present the same matrix on their chosen axes: the same number of rows and
/// the same depth, and equal elements at every `(m, kk)`, whatever their strides,
/// offsets and buffers.
pub open spec fn spec_same_matrix(
    t: &Bf16TensorView,
    k_axis: int,
    mn_axis: int,
    u: &Bf16TensorView,
    u_k_axis: int,
    u_mn_axis: int,
) -> bool {
    &&& t.shape@[k_axis] == u.shape@[u_k_axis]
    &&& t.shape@[mn_axis] == u.shape@[u_mn_axis]
    &&& forall|m: int, kk: int|
        0 <= m < t.shape@[mn_axis] && 0 <= kk < t.shape@[k_axis] ==> #[trigger] t.spec_at(
            k_axis,
            mn_axis,
            m,
            kk,
        ) == u.spec_at(u_k_axis, u_mn_axis, m, kk)
}

/// Packing depends only on the matrix a view presents, not on how it lies in memory:
/// two views of the same matrix (a tensor and its transpose, contiguous or strided)
/// pack to the same A panels and to the same B panels.
pub proof fn lemma_packing_depends_only_on_elements(
    t: &Bf16TensorView,
    k_axis: int,
    mn_axis: int,
    u: &Bf16TensorView,
    u_k_axis: int,
    u_mn_axis: int,
)
    requires
        spec_same_matrix(t, k_axis, mn_axis, u, u_k_axis, u_mn_axis),
    ensures
        spec_a_panels(t, k_axis, mn_axis) == spec_a_panels(u, u_k_axis, u_mn_axis),
        spec_b_panels(t, k_axis, mn_axis) == spec_b_panels(u, u_k_axis, u_mn_axis),
{
    let kp = spec_kp(t, k_axis) as int;
    let r = R as int;
    let count = spec_div_ceil(t.shape@[mn_axis] as nat, R as nat) as int;
    assert forall|p: int, lm: int, kk: int| 0 <= p && 0 <= lm && 0 <= kk implies #[trigger] spec_panel_cell(
        t,
        k_axis,
        mn_axis,
        p,
        lm,
        kk,
    ) == spec_panel_cell(u, u_k_axis, u_mn_axis, p, lm, kk) by {
        if p * R + lm < t.shape@[mn_axis] && kk < t.shape@[k_axis] {
            assert(0 <= p * R);
            assert(t.spec_at(k_axis, mn_axis, p * R + lm, kk) == u.spec_at(
                u_k_axis,
                u_mn_axis,
                p * R + lm,
                kk,
            ));
        }
    }
    assert forall|p: int| 0 <= p < count implies #[trigger] spec_a_panels(t, k_axis, mn_axis)[p]
        == spec_a_panels(u, u_k_axis, u_mn_axis)[p] by {
        let pa = spec_a_panel(t, k_axis, mn_axis, p);
        let qa = spec_a_panel(u, u_k_axis, u_mn_axis, p);
        assert forall|x: int| 0 <= x < pa.len() implies pa[x] == qa[x] by {
            if kp > 0 {
                vstd::arithmetic::div_mod::lemma_fundamental_div_mod(x, kp);
                assert(0 <= x / kp) by (nonlinear_arith)
                    requires
                        0 <= x,
                        kp > 0,
                ;
                vstd::arithmetic::div_mod::lemma_mod_bound(x, kp);
            }
        }
        assert(pa =~= qa);
    }
    assert forall|p: int| 0 <= p < count implies #[trigger] spec_b_panels(t, k_axis, mn_axis)[p]
        == spec_b_panels(u, u_k_axis, u_mn_axis)[p] by {
        let pb = spec_b_panel(t, k_axis, mn_axis, p);
        let qb = spec_b_panel(u, u_k_axis, u_mn_axis, p);
        assert forall|x: int| 0 <= x < pb.len() implies pb[x] == qb[x] by {
            vstd::arithmetic::div_mod::lemma_fundamental_div_mod(x, r);
            vstd::arithmetic::div_mod::lemma_mod_bound(x, r);
            assert(0 <= x / r);
        }
        assert(pb =~= qb);
    }
    assert(spec_a_panels(t, k_axis, mn_axis) =~= spec_a_panels(u, u_k_axis, u_mn_axis));
    assert(spec_b_panels(t, k_axis, mn_axis) =~= spec_b_panels(u, u_k_axis, u_mn_axis));
}

/// A-format operands packed from two views of the same matrix are equal (same shape and
/// panels, which is what `==` on packed values compares): for instance `prepare_one_view(t, 1, 0)` and
/// `prepare_one_view(u, 0, 1)` where `u` is the transpose of `t`.
pub proof fn lemma_a_values_of_same_matrix_are_equal(
    v: NdarrayAmxBf16AValue,
    t: &Bf16TensorView,
    k_axis: int,
    mn_axis: int,
    w: NdarrayAmxBf16AValue,
    u: &Bf16TensorView,
    u_k_axis: int,
    u_mn_axis: int,
)
    requires
        spec_same_matrix(t, k_axis, mn_axis, u, u_k_axis, u_mn_axis),
        v.spec_k() == t.shape@[k_axis],
        v.spec_mn() == t.shape@[mn_axis],
        v.spec_panels() == spec_a_panels(t, k_axis, mn_axis),
        w.spec_k() == u.shape@[u_k_axis],
        w.spec_mn() == u.shape@[u_mn_axis],
        w.spec_panels() == spec_a_panels(u, u_k_axis, u_mn_axis),
    ensures
        v.spec_k() == w.spec_k() && v.spec_mn() == w.spec_mn() && v.spec_panels() == w.spec_panels(),
{
    lemma_packing_depends_only_on_elements(t, k_axis, mn_axis, u, u_k_axis, u_mn_axis);
}

/// B-format operands packed from two views of the same matrix are equal (same shape and
/// panels, which is what `==` on packed values compares): for instance `prepare_one_view(t, 0, 1)` and
/// `prepare_one_view(u, 1, 0)` where `u` is the transpose of `t`.
pub proof fn lemma_b_values_of_same_matrix_are_equal(
    v: NdarrayAmxBf16BValue,
    t: &Bf16TensorView,
    k_axis: int,
    mn_axis: int,
    w: NdarrayAmxBf16BValue,
    u: &Bf16TensorView,
    u_k_axis: int,
    u_mn_axis: int,
)
    requires
        spec_same_matrix(t, k_axis, mn_axis, u, u_k_axis, u_mn_axis),
        v.spec_k() == t.shape@[k_axis],
        v.spec_mn() == t.shape@[mn_axis],
        v.spec_panels() == spec_b_panels(t, k_axis, mn_axis),
        w.spec_k() == u.shape@[u_k_axis],
        w.spec_mn() == u.shape@[u_mn_axis],
        w.spec_panels() == spec_b_panels(u, u_k_axis, u_mn_axis),
    ensures
        v.spec_k() == w.spec_k() && v.spec_mn() == w.spec_mn() && v.spec_panels() == w.spec_panels(),
{
    lemma_packing_depends_only_on_elements(t, k_axis, mn_axis, u, u_k_axis, u_mn_axis);
}

/// Packing the same view twice gives equal operands, in both formats.
pub proof fn lemma_packing_is_deterministic(
    t: &Bf16TensorView,
    k_axis: int,
    mn_axis: int,
    v1: NdarrayAmxBf16AValue,
    v2: NdarrayAmxBf16AValue,
    w1: NdarrayAmxBf16BValue,
    w2: NdarrayAmxBf16BValue,
)
    requires
        v1.spec_k() == t.shape@[k_axis] && v1.spec_mn() == t.shape@[mn_axis]
            && v1.spec_panels() == spec_a_panels(t, k_axis, mn_axis),
        v2.spec_k() == t.shape@[k_axis] && v2.spec_mn() == t.shape@[mn_axis]
            && v2.spec_panels() == spec_a_panels(t, k_axis, mn_axis),
        w1.spec_k() == t.shape@[k_axis] && w1.spec_mn() == t.shape@[mn_axis]
            && w1.spec_panels() == spec_b_panels(t, k_axis, mn_axis),
        w2.spec_k() == t.shape@[k_axis] && w2.spec_mn() == t.shape@[mn_axis]
            && w2.spec_panels() == spec_b_panels(t, k_axis, mn_axis),
    ensures
        v1.spec_k() == v2.spec_k() && v1.spec_mn() == v2.spec_mn() && v1.spec_panels() == v2.spec_panels(),
        w1.spec_k() == w2.spec_k() && w1.spec_mn() == w2.spec_mn() && w1.spec_panels() == w2.spec_panels(),
{
}

/// Panel `p` exists exactly when it starts inside the `mn` rows, and every panel, the
/// last one included, holds exactly 16 rows of the depth `k` rounded up to a multiple
/// of 32 (`16 * ((k + 31) / 32 * 32)` cells), in both formats.
pub proof fn lemma_every_panel_has_full_size(t: &Bf16TensorView, k_axis: int, mn_axis: int, p: int)
    requires
        0 <= p,
    ensures
        (p < spec_a_panels(t, k_axis, mn_axis).len()) == (p * 16 < t.shape@[mn_axis]),
        (p < spec_b_panels(t, k_axis, mn_axis).len()) == (p * 16 < t.shape@[mn_axis]),
        p * 16 < t.shape@[mn_axis] ==> spec_a_panels(t, k_axis, mn_axis)[p].len() == 16 * ((
        t.shape@[k_axis] + 31) / 32 * 32),
        p * 16 < t.shape@[mn_axis] ==> spec_b_panels(t, k_axis, mn_axis)[p].len() == 16 * ((
        t.shape@[k_axis] + 31) / 32 * 32),
{
    lemma_panel_starts_inside(t.shape@[mn_axis] as nat, R as nat, p as nat);
}

} // verus!
