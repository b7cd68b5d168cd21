use vstd::prelude::*;

use crate::frame::Pixvec;
use crate::render::render_scene;

verus! {

/// An 8-bit sRGB pixel: red, green, blue.
pub type Rgb8 = (u8, u8, u8);

/// The pixel whose red byte is at `offset`, followed by green and blue.
pub open spec fn rgb_at(bytes: Seq<u8>, offset: int) -> Rgb8 {
    (bytes[offset], bytes[offset + 1], bytes[offset + 2])
}

/// Whether `len` bytes hold `height` rows of `width` RGB pixels, each row
/// starting `rowstride` bytes after the one before, and the grid fits in memory.
pub open spec fn rgb_layout_fits(len: nat, width: nat, height: nat, rowstride: nat) -> bool {
    &&& width * height <= usize::MAX
    &&& (width == 0 || height == 0 || (height - 1) * rowstride + 3 * width <= len)
}

proof fn lemma_rgb_in_bounds(len: nat, width: nat, height: nat, rowstride: nat, x: nat, y: nat)
    requires
        rgb_layout_fits(len, width, height, rowstride),
        x < width,
        y < height,
    ensures
        y * rowstride + 3 * x + 2 < len,
        y * rowstride + 3 * x + 2 <= (height - 1) * rowstride + 3 * width,
{
    assert(y * rowstride <= (height - 1) * rowstride) by (nonlinear_arith)
        requires
            y < height,
    ;
}

/// Reads `height` rows of `width` pixels out of `bytes`, three bytes (red,
/// green, blue) per pixel, row `y` starting at byte `y * rowstride`. `None`
/// where the bytes are too few for that layout or the grid would not fit in
/// memory.
pub fn unpack_rgb(bytes: &Vec<u8>, width: usize, height: usize, rowstride: usize) -> (r: Option<
    Pixvec<Rgb8>,
>)
    ensures
        r is Some <==> rgb_layout_fits(bytes@.len(), width as nat, height as nat, rowstride as nat),
        r matches Some(p) ==> {
            &&& p.wf()
            &&& p.spec_width() == width
            &&& p.spec_height() == height
            &&& forall|y: int, x: int|
                0 <= y < height && 0 <= x < width ==> #[trigger] p@[y][x] == rgb_at(
                    bytes@,
                    y * rowstride + 3 * x,
                )
        },
{
    let blen = bytes.len();
    if width.checked_mul(height).is_none() {
        return None;
    }
    if width > 0 && height > 0 {
        let last_start = match (height - 1).checked_mul(rowstride) {
            Some(s) => s,
            None => {
                proof {
                    assert((height - 1) * rowstride + 3 * width > usize::MAX);
                }
                return None;
            },
        };
        let row_bytes = match width.checked_mul(3) {
            Some(b) => b,
            None => {
                return None;
            },
        };
        match last_start.checked_add(row_bytes) {
            Some(end) => {
                if end > blen {
                    return None;
                }
            },
            None => {
                return None;
            },
        }
    }
    let ghost len = bytes@.len();
    let mut pvec = Pixvec::new(width, height, (0u8, 0u8, 0u8));
    let read = |x: usize, y: usize| -> (o: Option<Rgb8>)
        requires
            x < width,
            y < height,
        ensures
            o == Some(rgb_at(bytes@, y * rowstride + 3 * x)),
        {
            proof {
                lemma_rgb_in_bounds(len, width as nat, height as nat, rowstride as nat, x as nat, y as nat);
            }
            let k = y * rowstride + 3 * x;
            Some((bytes[k], bytes[k + 1], bytes[k + 2]))
        };
    render_scene(&mut pvec, read);
    Some(pvec)
}

/// Writes the grid out row by row, three bytes (red, green, blue) per pixel
/// with no padding between rows.
pub fn pack_rgb(pvec: &Pixvec<Rgb8>) -> (r: Vec<u8>)
    requires
        pvec.wf(),
        3 * pvec.spec_width() * pvec.spec_height() <= usize::MAX,
    ensures
        r@.len() == 3 * pvec.spec_width() * pvec.spec_height(),
        forall|y: int, x: int|
            0 <= y < pvec.spec_height() && 0 <= x < pvec.spec_width() ==> rgb_at(
                r@,
                3 * (y * pvec.spec_width() + x),
            ) == #[trigger] pvec@[y][x],
{
    let width = pvec.width();
    let height = pvec.height();
    let ghost w = width as nat;
    let ghost h = height as nat;
    let mut bytes: Vec<u8> = Vec::new();
    let mut y: usize = 0;
    while y < height
        invariant
            pvec.wf(),
            width == pvec.spec_width(),
            height == pvec.spec_height(),
            w == width,
            h == height,
            3 * w * h <= usize::MAX,
            y <= height,
            bytes@.len() == 3 * (y * w),
            forall|yy: int, xx: int|
                0 <= yy < y && 0 <= xx < w ==> rgb_at(bytes@, 3 * (yy * w + xx)) == #[trigger] pvec@[yy][xx],
        decreases height - y,
    {
        let mut x: usize = 0;
        while x < width
            invariant
                pvec.wf(),
                width == pvec.spec_width(),
                height == pvec.spec_height(),
                w == width,
                h == height,
                3 * w * h <= usize::MAX,
                y < height,
                x <= width,
                bytes@.len() == 3 * (y * w + x),
                forall|yy: int, xx: int|
                    (0 <= yy < y && 0 <= xx < w) || (yy == y && 0 <= xx < x) ==> rgb_at(
                        bytes@,
                        3 * (yy * w + xx),
                    ) == #[trigger] pvec@[yy][xx],
            decreases width - x,
        {
            proof {
                assert(3 * (y * w + x) + 3 <= 3 * w * h) by (nonlinear_arith)
                    requires
                        y < h,
                        x < w,
                ;
            }
            let p = pvec.get(y, x);
            bytes.push(p.0);
            bytes.push(p.1);
            bytes.push(p.2);
            proof {
                assert forall|yy: int, xx: int|
                    (0 <= yy < y && 0 <= xx < w) || (yy == y && 0 <= xx < x + 1) implies rgb_at(
                        bytes@,
                        3 * (yy * w + xx),
                    ) == #[trigger] pvec@[yy][xx] by {
                    if yy < y {
                        assert(yy * w + xx < y * w) by (nonlinear_arith)
                            requires
                                yy < y,
                                xx < w,
                        ;
                    }
                }
            }
            x = x + 1;
        }
        proof {
            assert((y + 1) * w == y * w + w) by (nonlinear_arith);
        }
        y = y + 1;
    }
    proof {
        assert(3 * (h * w) == 3 * w * h) by (nonlinear_arith);
    }
    bytes
}

} // verus!
