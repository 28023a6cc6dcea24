//! Pixel graphics over the memory-mapped framebuffer model.

use vstd::prelude::*;

pub mod framebuffer;

verus! {

use crate::graphics::framebuffer::{FrameBuffer, Pixel};

/// Paint the top-left two-by-two corner yellow at part opacity: the splash
/// that shows the framebuffer works.
pub fn init() -> (fb: FrameBuffer)
    ensures
        fb.wf(),
        forall|y: int, x: int|
            0 <= y < 2 && 0 <= x < 2 ==> #[trigger] fb.cells()[y][x] == (Pixel {
                r: 255,
                g: 255,
                b: 0,
                alpha: 200,
                row: y as usize,
                column: x as usize,
            }),
{
    let mut fb = FrameBuffer::new();
    let mut i: usize = 0;
    while i < 2
        invariant
            fb.wf(),
            i <= 2,
            forall|y: int, x: int|
                0 <= y < i && 0 <= x < 2 ==> #[trigger] fb.cells()[y][x] == (Pixel {
                    r: 255,
                    g: 255,
                    b: 0,
                    alpha: 200,
                    row: y as usize,
                    column: x as usize,
                }),
        decreases 2 - i,
    {
        let mut j: usize = 0;
        while j < 2
            invariant
                fb.wf(),
                i < 2,
                j <= 2,
                forall|y: int, x: int|
                    0 <= y < i && 0 <= x < 2 ==> #[trigger] fb.cells()[y][x] == (Pixel {
                        r: 255,
                        g: 255,
                        b: 0,
                        alpha: 200,
                        row: y as usize,
                        column: x as usize,
                    }),
                forall|x: int|
                    0 <= x < j ==> #[trigger] fb.cells()[i as int][x] == (Pixel {
                        r: 255,
                        g: 255,
                        b: 0,
                        alpha: 200,
                        row: i,
                        column: x as usize,
                    }),
            decreases 2 - j,
        {
            fb.write_pixel(Pixel { r: 255, g: 255, b: 0, alpha: 200, row: i, column: j });
            j = j + 1;
        }
        i = i + 1;
    }
    fb
}

} // verus!
