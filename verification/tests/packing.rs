use std::hash::{Hash, Hasher};
use tract_linalg::amx_native_pack::{
    widen_bf16_bits, Bf16TensorView, NdarrayAmxBf16A, NdarrayAmxBf16B,
};

/// A `rows` x `cols` row-major matrix whose cell `(i, j)` holds `100 * i + j`.
fn row_major(rows: usize, cols: usize) -> Bf16TensorView {
    let data = (0..rows * cols).map(|x| (100 * (x / cols) + x % cols) as u16).collect();
    Bf16TensorView { data, shape: vec![rows, cols], strides: vec![cols as isize, 1], offset: 0 }
}

#[test]
fn formats_are_fixed_at_16_rows() {
    let a = NdarrayAmxBf16A::new(16);
    let b = NdarrayAmxBf16B::new(16);
    assert_eq!(a.r(), 16);
    assert_eq!(b.r(), 16);
    assert_eq!(a.k_alignment(), 32);
    assert_eq!(b.k_alignment(), 32);
    assert!(a.merge_with(&NdarrayAmxBf16A::new(16)).is_some());
    assert!(b.merge_with(&NdarrayAmxBf16B::new(16)).is_some());
    assert_eq!(a.clone(), a);
}

#[test]
fn mem_size_counts_two_bytes_per_padded_cell() {
    let a = NdarrayAmxBf16A::new(16);
    let b = NdarrayAmxBf16B::new(16);
    assert_eq!(a.panel_mem_size(Some(64)), 16 * 64 * 2);
    assert_eq!(a.mem_size(Some(64), 32), 2 * 16 * 64 * 2);
    assert_eq!(a.mem_size(Some(33), 17), 2 * 16 * 64 * 2);
    assert_eq!(a.mem_size(None, 17), 0);
    assert_eq!(a.mem_size(Some(1), 0), 0);
    assert_eq!(b.mem_size(Some(5), 20), 2 * 32 * 16 * 2);
    assert_eq!(b.panel_mem_size(None), 0);
}

#[test]
fn a_packing_is_row_major_panels_padded_with_zeros() {
    // mn = 3 rows on axis 0, k = 5 on axis 1
    let t = row_major(3, 5);
    assert!(t.reads_as_matrix(1, 0));
    let v = NdarrayAmxBf16A::new(16).prepare_one_view(&t, 1, 0);
    assert_eq!(v.k(), 5);
    assert_eq!(v.mn(), 3);
    assert_eq!(v.panels_count(), 1);
    let p = v.panel(0);
    assert_eq!(p.len(), 16 * 32);
    for lm in 0..16 {
        for kk in 0..32 {
            let expected = if lm < 3 && kk < 5 { (100 * lm + kk) as u16 } else { 0 };
            assert_eq!(p[lm * 32 + kk], expected, "row {lm} depth {kk}");
        }
    }
}

#[test]
fn a_packing_splits_rows_into_16_row_panels() {
    // mn = 20 rows on axis 1 of a k x mn matrix (k = 2)
    let data = (0..2 * 20).map(|x| x as u16).collect();
    let t = Bf16TensorView { data, shape: vec![2, 20], strides: vec![20, 1], offset: 0 };
    let v = NdarrayAmxBf16A::new(16).prepare_one_view(&t, 0, 1);
    assert_eq!(v.panels_count(), 2);
    // row m = 17 is row 1 of panel 1; element (m, kk) sits at kk * 20 + m
    assert_eq!(v.panel(1)[1 * 32 + 0], 17);
    assert_eq!(v.panel(1)[1 * 32 + 1], 37);
    assert_eq!(v.panel(0)[15 * 32 + 1], 35);
    // rows 20.. of panel 1 are zero
    assert!(v.panel(1)[4 * 32..].iter().all(|&x| x == 0));
}

#[test]
fn b_packing_is_the_transposed_layout() {
    let t = row_major(3, 5);
    let a = NdarrayAmxBf16A::new(16).prepare_one_view(&t, 1, 0);
    let b = NdarrayAmxBf16B::new(16).prepare_one_view(&t, 1, 0);
    assert_eq!(b.k(), 5);
    assert_eq!(b.mn(), 3);
    assert_eq!(b.panels_count(), 1);
    let (pa, pb) = (a.panel(0), b.panel(0));
    assert_eq!(pb.len(), 32 * 16);
    for lm in 0..16 {
        for kk in 0..32 {
            assert_eq!(pb[kk * 16 + lm], pa[lm * 32 + kk]);
        }
    }
    assert_eq!(pb[4 * 16 + 2], 204);
}

#[test]
fn packing_follows_strides_and_offset() {
    // a 2 x 3 view into the middle of a buffer, columns walking backwards
    let data: Vec<u16> = (0..10).collect();
    let t = Bf16TensorView { data, shape: vec![2, 3], strides: vec![4, -1], offset: 5 };
    assert!(t.reads_as_matrix(1, 0));
    assert!(!t.reads_as_matrix(2, 0));
    let v = NdarrayAmxBf16A::new(16).prepare_one_view(&t, 1, 0);
    let p = v.panel(0);
    assert_eq!(&p[0..4], &[5, 4, 3, 0]);
    assert_eq!(&p[32..36], &[9, 8, 7, 0]);
    let short = Bf16TensorView { data: (0..8).collect(), shape: vec![2, 3], strides: vec![4, -1], offset: 5 };
    assert!(!short.reads_as_matrix(1, 0));
}

#[test]
fn empty_matrices_pack_to_no_panels_or_empty_panels() {
    let none = row_major(0, 5);
    assert_eq!(NdarrayAmxBf16A::new(16).prepare_one_view(&none, 1, 0).panels_count(), 0);
    let shallow = row_major(3, 0);
    let v = NdarrayAmxBf16B::new(16).prepare_one_view(&shallow, 1, 0);
    assert_eq!(v.panels_count(), 1);
    assert_eq!(v.panel(0).len(), 0);
}

#[test]
fn packed_values_compare_by_shape_and_contents() {
    let t = row_major(3, 5);
    let a1 = NdarrayAmxBf16A::new(16).prepare_one_view(&t, 1, 0);
    let a2 = NdarrayAmxBf16A::new(16).prepare_one_view(&t, 1, 0);
    assert!(a1 == a2);
    assert!(a1.clone() == a1);
    let mut other = row_major(3, 5);
    other.data[7] = 999;
    let a3 = NdarrayAmxBf16A::new(16).prepare_one_view(&other, 1, 0);
    assert!(a1 != a3);
    let b1 = NdarrayAmxBf16B::new(16).prepare_one_view(&t, 1, 0);
    let b2 = NdarrayAmxBf16B::new(16).prepare_one_view(&row_major(5, 3), 0, 1);
    assert!(b1 == b1.clone());
    assert!(b1 != b2);
    assert!(a1.format() == a3.format());
}

#[test]
fn widened_bf16_bits_are_the_upper_half_of_an_f32() {
    let out = widen_bf16_bits(&[0x3f80, 0xc000, 0x0000, 0x7f80, 0xffff]);
    assert_eq!(out, vec![0x3f80_0000, 0xc000_0000, 0, 0x7f80_0000, 0xffff_0000]);
    assert_eq!(f32::from_bits(out[0]), 1.0);
    assert_eq!(f32::from_bits(out[1]), -2.0);
    assert_eq!(f32::from_bits(out[3]), f32::INFINITY);
}

#[test]
fn mem_size_is_the_size_of_the_packed_panels() {
    for (mn, k) in [(1usize, 1usize), (16, 32), (17, 33), (40, 7)] {
        let t = row_major(mn, k);
        let a = NdarrayAmxBf16A::new(16);
        let v = a.prepare_one_view(&t, 1, 0);
        let bytes: usize = (0..v.panels_count()).map(|p| v.panel(p).len() * 2).sum();
        assert_eq!(a.mem_size(Some(k), mn), bytes);
        let b = NdarrayAmxBf16B::new(16);
        let w = b.prepare_one_view(&t, 1, 0);
        let bytes: usize = (0..w.panels_count()).map(|p| w.panel(p).len() * 2).sum();
        assert_eq!(b.mem_size(Some(k), mn), bytes);
    }
}

#[test]
fn every_matrix_element_lands_in_its_panel() {
    let (mn, k) = (35usize, 9usize);
    let t = row_major(mn, k);
    let a = NdarrayAmxBf16A::new(16).prepare_one_view(&t, 1, 0);
    let b = NdarrayAmxBf16B::new(16).prepare_one_view(&t, 1, 0);
    for m in 0..mn {
        for kk in 0..k {
            let e = (100 * m + kk) as u16;
            assert_eq!(a.panel(m / 16)[(m % 16) * 32 + kk], e);
            assert_eq!(b.panel(m / 16)[kk * 16 + m % 16], e);
        }
    }
}

#[test]
fn clones_equal_the_original() {
    let t = row_major(20, 9);
    let a = NdarrayAmxBf16A::new(16).prepare_one_view(&t, 1, 0);
    let c = a.clone();
    assert!(c == a);
    assert_eq!((c.k(), c.mn(), c.panels_count()), (a.k(), a.mn(), a.panels_count()));
    let b = NdarrayAmxBf16B::new(16).prepare_one_view(&t, 1, 0);
    let d = b.clone();
    assert!(d == b);
    for p in 0..b.panels_count() {
        assert_eq!(d.panel(p), b.panel(p));
    }
}

#[test]
fn a_tensor_and_its_transpose_pack_equally() {
    let t = row_major(19, 7);
    // the same buffer read through swapped shape and strides
    let u = Bf16TensorView { data: t.data.clone(), shape: vec![7, 19], strides: vec![1, 7], offset: 0 };
    // a contiguous transposed copy
    let mut data = vec![0u16; 19 * 7];
    for m in 0..19 {
        for q in 0..7 {
            data[q * 19 + m] = t.data[m * 7 + q];
        }
    }
    let w = Bf16TensorView { data, shape: vec![7, 19], strides: vec![19, 1], offset: 0 };
    let fa = NdarrayAmxBf16A::new(16);
    let fb = NdarrayAmxBf16B::new(16);
    let a = fa.prepare_one_view(&t, 1, 0);
    assert!(fa.prepare_one_view(&u, 0, 1) == a);
    assert!(fa.prepare_one_view(&w, 0, 1) == a);
    let b = fb.prepare_one_view(&t, 1, 0);
    assert!(fb.prepare_one_view(&u, 0, 1) == b);
    assert!(fb.prepare_one_view(&w, 0, 1) == b);
}

#[test]
fn packing_twice_gives_equal_operands() {
    let t = row_major(33, 40);
    let fa = NdarrayAmxBf16A::new(16);
    assert!(fa.prepare_one_view(&t, 1, 0) == fa.prepare_one_view(&t, 1, 0));
    let fb = NdarrayAmxBf16B::new(16);
    assert!(fb.prepare_one_view(&t, 1, 0) == fb.prepare_one_view(&t, 1, 0));
}

#[test]
fn a_value_hashes_format_then_k_then_mn_then_panels() {
    let t = row_major(20, 9);
    let v = NdarrayAmxBf16A::new(16).prepare_one_view(&t, 1, 0);
    let mut got = std::collections::hash_map::DefaultHasher::new();
    v.hash(&mut got);
    let mut expected = std::collections::hash_map::DefaultHasher::new();
    v.format().hash(&mut expected);
    v.k().hash(&mut expected);
    v.mn().hash(&mut expected);
    let panels: Vec<Vec<u16>> = (0..v.panels_count()).map(|p| v.panel(p).to_vec()).collect();
    panels.hash(&mut expected);
    assert_eq!(got.finish(), expected.finish());
    let mut again = std::collections::hash_map::DefaultHasher::new();
    v.clone().hash(&mut again);
    assert_eq!(again.finish(), got.finish());
}
