use tract_linalg::geometry::{k_padded, panel_width, panels_count, K_ALIGNMENT, R};
use tract_linalg::strided::spans;

#[test]
fn k_padded_rounds_up_to_a_multiple_of_32() {
    assert_eq!(k_padded(0), 0);
    assert_eq!(k_padded(1), 32);
    assert_eq!(k_padded(31), 32);
    assert_eq!(k_padded(32), 32);
    assert_eq!(k_padded(33), 64);
    assert_eq!(k_padded(64), 64);
    assert_eq!(k_padded(100), 128);
    assert_eq!(K_ALIGNMENT, 32);
}

#[test]
fn panels_count_is_a_rounded_up_division() {
    assert_eq!(panels_count(0, R), 0);
    assert_eq!(panels_count(1, R), 1);
    assert_eq!(panels_count(16, R), 1);
    assert_eq!(panels_count(17, R), 2);
    assert_eq!(panels_count(32, R), 2);
    assert_eq!(panels_count(33, R), 3);
    assert_eq!(panels_count(usize::MAX, 1), usize::MAX);
}

#[test]
fn panel_width_is_short_only_for_the_last_panel() {
    assert_eq!(panel_width(17, R, 0), 16);
    assert_eq!(panel_width(17, R, 1), 1);
    assert_eq!(panel_width(32, R, 1), 16);
    assert_eq!(panel_width(5, R, 0), 5);
}

#[test]
fn panels_cover_every_row_exactly_once() {
    for mn in 0..100usize {
        let total: usize = (0..panels_count(mn, R)).map(|p| panel_width(mn, R, p)).sum();
        assert_eq!(total, mn);
    }
}

#[test]
fn spans_checks_every_corner() {
    // 3 x 4 row-major block in a buffer of 12
    assert!(spans(0, 4, 1, 3, 4, 12));
    assert!(!spans(0, 4, 1, 3, 4, 11));
    assert!(!spans(1, 4, 1, 3, 4, 12));
    // transposed view
    assert!(spans(0, 1, 3, 3, 4, 12));
    // negative row stride starting from the last row
    assert!(spans(8, -4, 1, 3, 4, 12));
    assert!(!spans(7, -4, 1, 3, 4, 12));
    // empty blocks fit anywhere
    assert!(spans(100, 4, 1, 0, 4, 0));
    assert!(spans(100, 4, 1, 3, 0, 0));
    // a single cell
    assert!(spans(5, isize::MAX, isize::MIN, 1, 1, 6));
    assert!(!spans(6, 0, 0, 1, 1, 6));
    // huge strides do not wrap around
    assert!(spans(0, isize::MAX, 1, 2, 1, usize::MAX));
    assert!(!spans(0, isize::MAX, 1, 2, 1, 1000));
    assert!(!spans(usize::MAX - 1, isize::MIN, isize::MIN, 2, 2, usize::MAX));
}
