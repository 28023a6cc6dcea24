//! The framebuffer model: a grid of pixels the size of the text screen,
//! each cell a color with opacity.  The memory-mapped buffer the hardware
//! scans out lives with the embedding program; this model is what is
//! known about its contents.

use vstd::prelude::*;

verus! {

pub const BUFFER_HEIGHT: usize = 25;

pub const BUFFER_WIDTH: usize = 80;

/// One pixel write: its color, opacity, and the cell it lands in.
#[derive(Debug, Clone, Copy, PartialEq, Eq, Structural)]
pub struct Pixel {
    pub r: u8,
    pub g: u8,
    pub b: u8,
    pub alpha: u8,
    pub row: usize,
    pub column: usize,
}

/// The framebuffer: a grid of pixels.
pub struct FrameBuffer {
    pub buffer: Vec<Vec<Pixel>>,
}

impl FrameBuffer {
    /// The grid as plain rows of pixels.
    pub open spec fn cells(self) -> Seq<Seq<Pixel>> {
        self.buffer@.map_values(|r: Vec<Pixel>| r@)
    }

    pub open spec fn wf(self) -> bool {
        &&& self.buffer@.len() == BUFFER_HEIGHT
        &&& forall|r: int|
            0 <= r < BUFFER_HEIGHT ==> (#[trigger] self.buffer@[r])@.len() == BUFFER_WIDTH
    }

    /// A framebuffer with every cell black and fully transparent.
    pub fn new() -> (r: FrameBuffer)
        ensures
            r.wf(),
    {
        let mut buffer: Vec<Vec<Pixel>> = Vec::new();
        let mut y: usize = 0;
        while y < BUFFER_HEIGHT
            invariant
                y <= BUFFER_HEIGHT,
                buffer@.len() == y,
                forall|r: int| 0 <= r < y ==> (#[trigger] buffer@[r])@.len() == BUFFER_WIDTH,
            decreases BUFFER_HEIGHT - y,
        {
            let mut row: Vec<Pixel> = Vec::new();
            let mut x: usize = 0;
            while x < BUFFER_WIDTH
                invariant
                    x <= BUFFER_WIDTH,
                    row@.len() == x,
                decreases BUFFER_WIDTH - x,
            {
                row.push(Pixel { r: 0, g: 0, b: 0, alpha: 0, row: y, column: x });
                x = x + 1;
            }
            buffer.push(row);
            y = y + 1;
        }
        FrameBuffer { buffer }
    }

    /// Put `pixel` in its cell; every other cell keeps its value.
    pub fn write_pixel(&mut self, pixel: Pixel)
        requires
            old(self).wf(),
            pixel.row < BUFFER_HEIGHT,
            pixel.column < BUFFER_WIDTH,
        ensures
            final(self).wf(),
            final(self).cells() =~= old(self).cells().update(
                pixel.row as int,
                old(self).cells()[pixel.row as int].update(pixel.column as int, pixel),
            ),
    {
        let mut row = self.buffer.remove(pixel.row);
        row.remove(pixel.column);
        row.insert(pixel.column, pixel);
        self.buffer.insert(pixel.row, row);
        proof {
            assert(self.cells()[pixel.row as int] =~= old(self).cells()[
                pixel.row as int
            ].update(pixel.column as int, pixel));
            assert(self.cells() =~= old(self).cells().update(
                pixel.row as int,
                old(self).cells()[pixel.row as int].update(pixel.column as int, pixel),
            ));
        }
    }
}

} // verus!
