use vstd::prelude::*;

use crate::frame::Pixvec;

verus! {

/// The most bounces one primary ray may take. Reflection, refraction and the
/// Fresnel blend share this one budget.
pub const RECURSION_DEPTH: u32 = 35;

/// The depth that a secondary ray traced from depth `depth` starts at, or
/// `None` where the budget is spent and the branch contributes black.
pub open spec fn next_depth_spec(depth: u32) -> Option<u32> {
    if depth < RECURSION_DEPTH {
        Some((depth + 1) as u32)
    } else {
        None
    }
}

/// The depth of the next bounce from a ray at `depth`: one more while the
/// budget lasts, and `None` once `RECURSION_DEPTH` bounces have been taken.
pub fn next_depth(depth: u32) -> (r: Option<u32>)
    ensures
        r == next_depth_spec(depth),
{
    if depth < RECURSION_DEPTH {
        Some(depth + 1)
    } else {
        None
    }
}

/// Whether `depths` is a chain of bounces: each depth after the first is the
/// one that `next_depth` granted to the one before.
pub open spec fn is_bounce_chain(depths: Seq<u32>) -> bool {
    forall|i: int| 0 <= i < depths.len() - 1 ==> next_depth_spec(#[trigger] depths[i]) == Some(depths[i + 1])
}

/// Every chain of bounces started by a primary ray (depth 0) has depth `i` at
/// step `i`, and so holds at most `RECURSION_DEPTH` bounces: tracing ends
/// whatever the scene, a closed mirror box included.
pub proof fn lemma_bounce_chain_bounded(depths: Seq<u32>)
    requires
        depths.len() > 0,
        depths[0] == 0,
        is_bounce_chain(depths),
    ensures
        forall|i: int| 0 <= i < depths.len() ==> #[trigger] depths[i] == i,
        depths.len() <= RECURSION_DEPTH + 1,
{
    assert forall|i: int| 0 <= i < depths.len() implies #[trigger] depths[i] == i by {
        lemma_chain_step(depths, i);
    }
    if depths.len() > RECURSION_DEPTH + 1 {
        let last = RECURSION_DEPTH as int;
        assert(depths[last] == last);
        assert(next_depth_spec(depths[last]) == Some(depths[last + 1]));
    }
}

proof fn lemma_chain_step(depths: Seq<u32>, i: int)
    requires
        0 <= i < depths.len(),
        depths[0] == 0,
        is_bounce_chain(depths),
    ensures
        depths[i] == i,
    decreases i,
{
    if i > 0 {
        lemma_chain_step(depths, i - 1);
        assert(next_depth_spec(depths[i - 1]) == Some(depths[i]));
    }
}

/// What the render loop leaves in a cell at column `x`, row `y` that held
/// `before`: the color `shade` returned for the pixel, or `before` where the
/// primary ray hit nothing.
pub open spec fn shaded_cell<T, F: Fn(usize, usize) -> Option<T>>(
    shade: F,
    x: int,
    y: int,
    before: T,
    after: T,
) -> bool {
    ||| call_ensures(shade, (x as usize, y as usize), Some(after))
    ||| (call_ensures(shade, (x as usize, y as usize), None) && after == before)
}

/// Fills the frame pixel by pixel, top row first and left to right:
/// `shade(x, y)` gives the color of column `x`, row `y`, and a pixel whose
/// ray hits nothing keeps what it held.
pub fn render_scene<T: Copy, F: Fn(usize, usize) -> Option<T>>(pvec: &mut Pixvec<T>, shade: F)
    requires
        old(pvec).wf(),
        forall|x: usize, y: usize|
            x < old(pvec).spec_width() && y < old(pvec).spec_height() ==> call_requires(
                shade,
                (x, y),
            ),
    ensures
        final(pvec).wf(),
        final(pvec).spec_width() == old(pvec).spec_width(),
        final(pvec).spec_height() == old(pvec).spec_height(),
        forall|y: int, x: int|
            0 <= y < old(pvec).spec_height() && 0 <= x < old(pvec).spec_width() ==> shaded_cell(
                shade,
                x,
                y,
                old(pvec)@[y][x],
                #[trigger] final(pvec)@[y][x],
            ),
{
    let ghost start = pvec@;
    proof {
        pvec.lemma_shape();
    }
    let height = pvec.height();
    let width = pvec.width();
    let mut i: usize = 0;
    while i < height
        invariant
            pvec.wf(),
            height == pvec.spec_height(),
            width == pvec.spec_width(),
            i <= height,
            pvec@.len() == height,
            start.len() == height,
            forall|y: int| 0 <= y < height ==> (#[trigger] start[y]).len() == width,
            forall|x: usize, y: usize| x < width && y < height ==> call_requires(shade, (x, y)),
            forall|y: int, x: int|
                0 <= y < i && 0 <= x < width ==> shaded_cell(
                    shade,
                    x,
                    y,
                    start[y][x],
                    #[trigger] pvec@[y][x],
                ),
            forall|y: int| i <= y < height ==> #[trigger] pvec@[y] == start[y],
        decreases height - i,
    {
        let mut j: usize = 0;
        while j < width
            invariant
                pvec.wf(),
                height == pvec.spec_height(),
                width == pvec.spec_width(),
                i < height,
                j <= width,
                pvec@.len() == height,
                start.len() == height,
                forall|y: int| 0 <= y < height ==> (#[trigger] start[y]).len() == width,
                forall|x: usize, y: usize| x < width && y < height ==> call_requires(shade, (x, y)),
                forall|y: int, x: int|
                    (0 <= y < i && 0 <= x < width) || (y == i && 0 <= x < j) ==> shaded_cell(
                        shade,
                        x,
                        y,
                        start[y][x],
                        #[trigger] pvec@[y][x],
                    ),
                forall|x: int| j <= x < width ==> #[trigger] pvec@[i as int][x] == start[i as int][x],
                pvec@[i as int].len() == width,
                forall|y: int| i < y < height ==> #[trigger] pvec@[y] == start[y],
            decreases width - j,
        {
            if let Some(color) = shade(j, i) {
                pvec.set(i, j, color);
            }
            proof {
                pvec.lemma_shape();
            }
            j = j + 1;
        }
        i = i + 1;
    }
}

} // verus!
