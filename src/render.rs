use vstd::prelude::*;

use crate::image::{lemma_pixel_index, pixel_index, ImageBuffer};

verus! {

/// Fills every pixel of `ib` with the packed color that `shade` gives for it,
/// row after row from the top, each row from left to right.
pub fn render<F: Fn(u32, u32) -> u32>(ib: &mut ImageBuffer, shade: F)
    requires
        old(ib).wf(),
        forall|x: u32, y: u32|
            x < old(ib).spec_width() && y < old(ib).spec_height() ==> #[trigger] shade.requires(
                (x, y),
            ),
    ensures
        final(ib).wf(),
        final(ib).spec_width() == old(ib).spec_width(),
        final(ib).spec_height() == old(ib).spec_height(),
        forall|x: u32, y: u32|
            x < final(ib).spec_width() && y < final(ib).spec_height() ==> shade.ensures(
                (x, y),
                #[trigger] final(ib)@[pixel_index(final(ib).spec_width() as int, x as int, y as int)],
            ),
{
    let width = ib.width();
    let height = ib.height();
    let mut y: u32 = 0;
    while y < height
        invariant
            ib.wf(),
            ib.spec_width() == width,
            ib.spec_height() == height,
            y <= height,
            forall|x: u32, y: u32| x < width && y < height ==> #[trigger] shade.requires((x, y)),
            forall|x2: u32, y2: u32|
                x2 < width && y2 < y ==> shade.ensures(
                    (x2, y2),
                    #[trigger] ib@[pixel_index(width as int, x2 as int, y2 as int)],
                ),
        decreases height - y,
    {
        let mut x: u32 = 0;
        while x < width
            invariant
                ib.wf(),
                ib.spec_width() == width,
                ib.spec_height() == height,
                y < height,
                x <= width,
                forall|x: u32, y: u32| x < width && y < height ==> #[trigger] shade.requires((x, y)),
                forall|x2: u32, y2: u32|
                    x2 < width && (y2 < y || (y2 == y && x2 < x)) ==> shade.ensures(
                        (x2, y2),
                        #[trigger] ib@[pixel_index(width as int, x2 as int, y2 as int)],
                    ),
            decreases width - x,
        {
            let color = shade(x, y);
            let ghost before = ib@;
            ib.set_pixel(x, y, color);
            proof {
                assert forall|x2: u32, y2: u32|
                    x2 < width && (y2 < y || (y2 == y && x2 < x + 1)) implies shade.ensures(
                    (x2, y2),
                    #[trigger] ib@[pixel_index(width as int, x2 as int, y2 as int)],
                ) by {
                    lemma_pixel_index(width as int, height as int, x2 as int, y2 as int, x as int, y as int);
                    let i = pixel_index(width as int, x as int, y as int);
                    let j = pixel_index(width as int, x2 as int, y2 as int);
                    lemma_pixel_index(width as int, height as int, x as int, y as int, x2 as int, y2 as int);
                    if x2 != x || y2 != y {
                        assert(before.update(i, color)[j] == before[j]);
                    }
                }
            }
            x = x + 1;
        }
        y = y + 1;
    }
}

} // verus!
