use tract_linalg::amx_native_pack::{Bf16TensorView, NdarrayAmxBf16A, NdarrayAmxBf16B};
use tract_linalg::bf16_gemm::{a_operand, b_operand};
use tract_linalg::tile::{
    gather_tile, load_tile, map_per_col, map_per_row, map_row_col, map_scalar, pad_rows,
    store_tile, transpose_panel, zip_strided, zip_tiles, OutputStoreKer, TILE,
};

fn tile_2x3() -> Vec<Vec<f32>> {
    vec![vec![1.0, 2.0, 3.0], vec![4.0, 5.0, 6.0]]
}

#[test]
fn load_tile_reads_column_major() {
    let col_major = [1, 4, 2, 5, 3, 6];
    assert_eq!(load_tile(&col_major, 2, 3), vec![vec![1, 2, 3], vec![4, 5, 6]]);
}

#[test]
fn gather_and_store_follow_strides() {
    let at = OutputStoreKer { offset: 1, row_stride: 1, col_stride: 3 };
    let mut buf = vec![0i32; 10];
    store_tile(&mut buf, &at, &vec![vec![1, 2, 3], vec![4, 5, 6]], 2, 3);
    assert_eq!(buf, vec![0, 1, 4, 0, 2, 5, 0, 3, 6, 0]);
    assert_eq!(gather_tile(&buf, &at, 2, 3), vec![vec![1, 2, 3], vec![4, 5, 6]]);
}

#[test]
fn store_keeps_the_last_write_on_shared_cells() {
    let at = OutputStoreKer { offset: 2, row_stride: 0, col_stride: -1 };
    let mut buf = vec![0u8; 4];
    store_tile(&mut buf, &at, &vec![vec![1, 2], vec![3, 4]], 2, 2);
    assert_eq!(buf, vec![0, 4, 3, 0]);
}

#[test]
fn store_then_gather_round_trips_a_16x16_tile() {
    let tile: Vec<Vec<u32>> = (0..16).map(|i| (0..16).map(|j| i * 16 + j).collect()).collect();
    let at = OutputStoreKer { offset: 300, row_stride: -17, col_stride: 1 };
    let mut buf = vec![u32::MAX; 320];
    store_tile(&mut buf, &at, &tile, TILE, TILE);
    assert_eq!(gather_tile(&buf, &at, TILE, TILE), tile);
    assert_eq!(buf.iter().filter(|&&x| x == u32::MAX).count(), 320 - 256);
}

#[test]
fn transpose_panel_turns_k_major_into_row_major() {
    // k = 3 steps of 2 rows: pa[ik * 2 + i]
    let pa = [10, 20, 11, 21, 12, 22];
    assert_eq!(transpose_panel(&pa, 2, 3), vec![10, 11, 12, 20, 21, 22]);
    assert_eq!(transpose_panel(&pa, 2, 0), Vec::<i32>::new());
}

#[test]
fn pad_rows_widens_each_row_with_zeros() {
    assert_eq!(pad_rows(&[1, 2, 3, 4, 5, 6], 2, 3, 5, 0), vec![1, 2, 3, 0, 0, 4, 5, 6, 0, 0]);
    assert_eq!(pad_rows(&[1, 2], 1, 2, 2, 9), vec![1, 2]);
}

#[test]
fn scalar_ops_apply_to_every_cell() {
    assert_eq!(map_scalar(&tile_2x3(), 1.0, |a, b| a + b), vec![vec![2.0, 3.0, 4.0], vec![5.0, 6.0, 7.0]]);
    assert_eq!(map_scalar(&tile_2x3(), 2.0, |a, b| b - a), vec![vec![-1.0, 0.0, 1.0], vec![2.0, 3.0, 4.0]]);
    assert_eq!(map_scalar(&tile_2x3(), 3.5, |a: f32, b: f32| a.min(b)), vec![vec![1.0, 2.0, 3.0], vec![3.5, 3.5, 3.5]]);
    let leaky = map_scalar(&vec![vec![-2.0, 3.0]], 0.5, |a, b| if b > 0.0 { b } else { a * b });
    assert_eq!(leaky, vec![vec![-1.0, 3.0]]);
}

#[test]
fn per_row_and_per_col_ops_pick_their_operand() {
    assert_eq!(map_per_row(&tile_2x3(), &[10.0, 20.0], |a, b| a + b), vec![vec![11.0, 12.0, 13.0], vec![24.0, 25.0, 26.0]]);
    assert_eq!(map_per_col(&tile_2x3(), &[1.0, 0.0, -1.0], |a, b| a * b), vec![vec![1.0, 0.0, -3.0], vec![4.0, 0.0, -6.0]]);
}

#[test]
fn row_col_products_and_unicast_add_cellwise() {
    let t = map_row_col(&tile_2x3(), &[1.0, 2.0], &[1.0, 10.0, 100.0], |c, r, k| c + r * k);
    assert_eq!(t, vec![vec![2.0, 12.0, 103.0], vec![6.0, 25.0, 206.0]]);
    let other = gather_tile(&[1.0f32, 1.0, 1.0, 2.0, 2.0, 2.0], &OutputStoreKer { offset: 0, row_stride: 3, col_stride: 1 }, 2, 3);
    assert_eq!(zip_tiles(&tile_2x3(), &other, |a, b| a + b), vec![vec![2.0, 3.0, 4.0], vec![6.0, 7.0, 8.0]]);
}

#[test]
fn bf16_operands_are_row_major_and_zero_padded() {
    // k = 2: pa[ik * 16 + i] = 100 * ik + i
    let pa: Vec<u16> = (0..2 * 16).map(|x| (100 * (x / 16) + x % 16) as u16).collect();
    let a = a_operand(&pa, 2);
    assert_eq!(a.len(), 16 * 32);
    assert_eq!(a[0..3], [0, 100, 0]);
    assert_eq!(a[5 * 32..5 * 32 + 3], [5, 105, 0]);
    assert!(a[15 * 32 + 2..].iter().all(|&x| x == 0));
    let pb: Vec<u16> = (1..=2 * 16).map(|x| x as u16).collect();
    let b = b_operand(&pb, 2);
    assert_eq!(b.len(), 32 * 16);
    assert_eq!(b[..32], pb[..]);
    assert!(b[32..].iter().all(|&x| x == 0));
    assert_eq!(a_operand(&[], 0).len(), 0);
}

#[test]
fn per_call_operands_match_the_packing_formats() {
    let k = 37;
    let pa: Vec<u16> = (0..k * 16).map(|x| (x * 7 % 1000) as u16).collect();
    let view_a = Bf16TensorView { data: pa.clone(), shape: vec![16, k], strides: vec![1, 16], offset: 0 };
    let packed_a = NdarrayAmxBf16A::new(16).prepare_one_view(&view_a, 1, 0);
    assert_eq!(packed_a.panel(0), &a_operand(&pa, k)[..]);
    let pb: Vec<u16> = (0..k * 16).map(|x| (x * 3 % 500) as u16).collect();
    let view_b = Bf16TensorView { data: pb.clone(), shape: vec![k, 16], strides: vec![16, 1], offset: 0 };
    let packed_b = NdarrayAmxBf16B::new(16).prepare_one_view(&view_b, 0, 1);
    assert_eq!(packed_b.panel(0), &b_operand(&pb, k)[..]);
}

#[test]
fn zip_strided_updates_the_tile_in_place() {
    let mut t = tile_2x3();
    let src = [1.0f32, 10.0, 100.0, 2.0, 20.0, 200.0];
    zip_strided(&mut t, &src, &OutputStoreKer { offset: 0, row_stride: 3, col_stride: 1 }, 2, 3, |a, b| a + b);
    assert_eq!(t, vec![vec![2.0, 12.0, 103.0], vec![6.0, 25.0, 206.0]]);
    let mut u = vec![vec![0u32; 2]; 2];
    zip_strided(&mut u, &[5, 6, 7], &OutputStoreKer { offset: 2, row_stride: -1, col_stride: 0 }, 2, 2, |a, b| a + b);
    assert_eq!(u, vec![vec![7, 7], vec![6, 6]]);
}
