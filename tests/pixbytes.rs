use rustracer::frame::Pixvec;
use rustracer::pixbytes::{pack_rgb, unpack_rgb};

#[test]
fn unpack_reads_rows_at_rowstride() {
    // Two rows of two pixels, each row padded to eight bytes.
    let bytes: Vec<u8> = vec![
        1, 2, 3, 4, 5, 6, 0xee, 0xee, //
        7, 8, 9, 10, 11, 12, 0xee, 0xee,
    ];
    let p = unpack_rgb(&bytes, 2, 2, 8).unwrap();
    assert_eq!((p.width(), p.height()), (2, 2));
    assert_eq!(p.get(0, 0), (1, 2, 3));
    assert_eq!(p.get(0, 1), (4, 5, 6));
    assert_eq!(p.get(1, 0), (7, 8, 9));
    assert_eq!(p.get(1, 1), (10, 11, 12));
}

#[test]
fn unpack_last_row_needs_no_padding() {
    let bytes: Vec<u8> = vec![1, 2, 3, 0, 4, 5, 6];
    let p = unpack_rgb(&bytes, 1, 2, 4).unwrap();
    assert_eq!(p.get(0, 0), (1, 2, 3));
    assert_eq!(p.get(1, 0), (4, 5, 6));
}

#[test]
fn unpack_rejects_short_buffer() {
    let bytes: Vec<u8> = vec![1, 2, 3, 0, 4, 5];
    assert!(unpack_rgb(&bytes, 1, 2, 4).is_none());
}

#[test]
fn unpack_rejects_overflowing_layout() {
    let bytes: Vec<u8> = vec![0; 12];
    assert!(unpack_rgb(&bytes, 2, 2, usize::MAX).is_none());
    assert!(unpack_rgb(&bytes, usize::MAX, 2, 3).is_none());
}

#[test]
fn unpack_empty_image() {
    let bytes: Vec<u8> = Vec::new();
    let p = unpack_rgb(&bytes, 0, 4, 0).unwrap();
    assert_eq!((p.width(), p.height()), (0, 4));
}

#[test]
fn pack_writes_three_bytes_per_pixel() {
    let mut p = Pixvec::new(2, 2, (0u8, 0u8, 0u8));
    p.set(0, 1, (1, 2, 3));
    p.set(1, 0, (4, 5, 6));
    p.set(1, 1, (255, 128, 7));
    assert_eq!(
        pack_rgb(&p),
        vec![0, 0, 0, 1, 2, 3, 4, 5, 6, 255, 128, 7]
    );
}

#[test]
fn pack_then_unpack_gives_back_the_grid() {
    let mut p = Pixvec::new(3, 2, (9u8, 9u8, 9u8));
    p.set(0, 2, (1, 2, 3));
    p.set(1, 1, (40, 50, 60));
    let bytes = pack_rgb(&p);
    let q = unpack_rgb(&bytes, 3, 2, 9).unwrap();
    for y in 0..2 {
        for x in 0..3 {
            assert_eq!(q.get(y, x), p.get(y, x));
        }
    }
}
