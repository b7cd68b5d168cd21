use rustracer::frame::{Pixvec, Resolution};

#[test]
fn new_fills_every_cell() {
    let p = Pixvec::new(4, 3, 7u32);
    assert_eq!(p.width(), 4);
    assert_eq!(p.height(), 3);
    for y in 0..3 {
        for x in 0..4 {
            assert_eq!(p.get(y, x), 7);
        }
    }
}

#[test]
fn new_empty_grid() {
    let p = Pixvec::new(0, 5, 1u8);
    assert_eq!(p.width(), 0);
    assert_eq!(p.height(), 5);
}

#[test]
fn set_changes_one_cell_only() {
    let mut p = Pixvec::new(3, 2, 0i32);
    p.set(1, 2, 9);
    p.set(0, 1, -4);
    assert_eq!(p.get(1, 2), 9);
    assert_eq!(p.get(0, 1), -4);
    assert_eq!(p.get(0, 0), 0);
    assert_eq!(p.get(0, 2), 0);
    assert_eq!(p.get(1, 0), 0);
    assert_eq!(p.get(1, 1), 0);
}

#[test]
fn new_from_vec_pads_short_rows_and_missing_rows() {
    let rows = vec![vec![1u8, 2], vec![3u8]];
    let p = Pixvec::new_from_vec(rows, 3, 3, 0);
    assert_eq!((p.width(), p.height()), (3, 3));
    let expected = [[1u8, 2, 0], [3, 0, 0], [0, 0, 0]];
    for y in 0..3 {
        for x in 0..3 {
            assert_eq!(p.get(y, x), expected[y][x]);
        }
    }
}

#[test]
fn new_from_vec_cuts_extra_rows_and_cells() {
    let rows = vec![vec![1u8, 2, 3], vec![4u8, 5, 6], vec![7u8, 8, 9]];
    let p = Pixvec::new_from_vec(rows, 2, 2, 0);
    assert_eq!((p.width(), p.height()), (2, 2));
    assert_eq!(p.get(0, 0), 1);
    assert_eq!(p.get(0, 1), 2);
    assert_eq!(p.get(1, 0), 4);
    assert_eq!(p.get(1, 1), 5);
}

#[test]
fn copy_is_independent() {
    let mut p = Pixvec::new(2, 2, 1u16);
    p.set(0, 0, 5);
    let mut q = p.copy();
    assert_eq!(q.get(0, 0), 5);
    assert_eq!(q.get(1, 1), 1);
    q.set(1, 1, 8);
    assert_eq!(p.get(1, 1), 1);
    assert_eq!(q.get(1, 1), 8);
}

#[test]
fn sample_clamps_to_last_row_and_column() {
    let rows = vec![vec![1u8, 2], vec![3u8, 4]];
    let p = Pixvec::new_from_vec(rows, 2, 2, 0);
    assert_eq!(p.sample(0, 0), 1);
    assert_eq!(p.sample(1, 0), 3);
    assert_eq!(p.sample(5, 0), 3);
    assert_eq!(p.sample(0, 9), 2);
    assert_eq!(p.sample(usize::MAX, usize::MAX), 4);
}

#[test]
fn map_applies_to_each_cell() {
    let rows = vec![vec![1u8, 2, 3], vec![4u8, 5, 6]];
    let p = Pixvec::new_from_vec(rows, 3, 2, 0);
    let q = p.map(|v: u8| (v as u32) * 10);
    assert_eq!((q.width(), q.height()), (3, 2));
    assert_eq!(q.get(0, 0), 10);
    assert_eq!(q.get(0, 2), 30);
    assert_eq!(q.get(1, 1), 50);
    assert_eq!(q.get(1, 2), 60);
}

#[test]
fn resolution_holds_dimensions() {
    let r = Resolution { x: 640, y: 480 };
    let p = Pixvec::new(r.x, r.y, 0u8);
    assert_eq!(p.width(), 640);
    assert_eq!(p.height(), 480);
}
