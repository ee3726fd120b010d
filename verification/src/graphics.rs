//! The frame: a grid of coloured cells with one depth per column, which the
//! renderer fills and a display shows.

use vstd::prelude::*;

verus! {

/// A colour of a cell: the display's own, or one given by its parts.
#[derive(Debug, Clone, Copy, PartialEq, Eq, Structural)]
pub enum Color {
    Reset,
    Rgb { r: u8, g: u8, b: u8 },
}

/// A cell that holds nothing.
pub open spec fn blank() -> (Color, char) {
    (Color::Reset, ' ')
}

/// `height` rows of `width` cells each, `buffer[y][x]`, and for each column
/// how far off the wall is that was drawn in it.
pub struct RenderBuffer {
    pub width: u16,
    pub height: u16,
    pub buffer: Vec<Vec<(Color, char)>>,
    pub depth_buffer: Vec<i64>,
}

impl RenderBuffer {
    /// The rows, the cells of each row and the depths are as many as `width`
    /// and `height` say.
    pub open spec fn wf(&self) -> bool {
        &&& self.buffer@.len() == self.height
        &&& self.depth_buffer@.len() == self.width
        &&& forall|y: int| 0 <= y < self.height ==> (#[trigger] self.buffer@[y])@.len() == self.width
    }

    /// What the cell `(x, y)` holds.
    pub open spec fn cell(&self, x: int, y: int) -> (Color, char)
        recommends
            0 <= x < self.width,
            0 <= y < self.height,
    {
        self.buffer@[y]@[x]
    }

    /// The depth of the column `x`.
    pub open spec fn depth(&self, x: int) -> i64
        recommends
            0 <= x < self.width,
    {
        self.depth_buffer@[x]
    }

    /// Whether every cell is blank and every depth is `depth`.
    pub open spec fn is_blank(&self, depth: i64) -> bool {
        &&& forall|x: int, y: int|
            0 <= x < self.width && 0 <= y < self.height ==> #[trigger] self.cell(x, y) == blank()
        &&& forall|x: int| 0 <= x < self.width ==> #[trigger] self.depth(x) == depth
    }

    /// A row of `width` blank cells.
    fn blank_row(width: u16) -> (row: Vec<(Color, char)>)
        ensures
            row@.len() == width,
            forall|x: int| 0 <= x < width ==> #[trigger] row@[x] == blank(),
    {
        let mut row: Vec<(Color, char)> = Vec::new();
        let mut x: u16 = 0;
        while x < width
            invariant
                x <= width,
                row@.len() == x,
                forall|k: int| 0 <= k < x ==> #[trigger] row@[k] == blank(),
            decreases width - x,
        {
            row.push((Color::Reset, ' '));
            x += 1;
        }
        row
    }

    /// A buffer of `width` by `height` blank cells, every depth 0.
    pub fn new(width: u16, height: u16) -> (b: Self)
        ensures
            b.width == width,
            b.height == height,
            b.wf(),
            b.is_blank(0),
    {
        let mut buffer: Vec<Vec<(Color, char)>> = Vec::new();
        let mut y: u16 = 0;
        while y < height
            invariant
                y <= height,
                buffer@.len() == y,
                forall|k: int| 0 <= k < y ==> (#[trigger] buffer@[k])@.len() == width,
                forall|k: int, x: int| 0 <= k < y && 0 <= x < width ==> #[trigger] buffer@[k]@[x] == blank(),
            decreases height - y,
        {
            buffer.push(Self::blank_row(width));
            y += 1;
        }
        let mut depth_buffer: Vec<i64> = Vec::new();
        let mut x: u16 = 0;
        while x < width
            invariant
                x <= width,
                depth_buffer@.len() == x,
                forall|k: int| 0 <= k < x ==> #[trigger] depth_buffer@[k] == 0,
            decreases width - x,
        {
            depth_buffer.push(0);
            x += 1;
        }
        RenderBuffer { width, height, buffer, depth_buffer }
    }

    /// Gives the buffer the size `width` by `height`. A buffer of that size
    /// stays as it is; any other becomes blank, every depth 0.
    pub fn resize(&mut self, width: u16, height: u16)
        requires
            old(self).wf(),
        ensures
            final(self).width == width,
            final(self).height == height,
            final(self).wf(),
            old(self).width == width && old(self).height == height ==> *final(self) == *old(self),
            !(old(self).width == width && old(self).height == height) ==> final(self).is_blank(0),
    {
        if self.width != width || self.height != height {
            *self = Self::new(width, height);
        }
    }

    /// Makes every cell blank and every depth as large as a depth can be.
    pub fn clear(&mut self)
        requires
            old(self).wf(),
        ensures
            final(self).width == old(self).width,
            final(self).height == old(self).height,
            final(self).wf(),
            final(self).is_blank(i64::MAX),
    {
        let width: u16 = self.width;
        let height: u16 = self.height;
        let mut buffer: Vec<Vec<(Color, char)>> = Vec::new();
        let mut y: u16 = 0;
        while y < height
            invariant
                y <= height,
                buffer@.len() == y,
                forall|k: int| 0 <= k < y ==> (#[trigger] buffer@[k])@.len() == width,
                forall|k: int, x: int| 0 <= k < y && 0 <= x < width ==> #[trigger] buffer@[k]@[x] == blank(),
            decreases height - y,
        {
            buffer.push(Self::blank_row(width));
            y += 1;
        }
        let mut depth_buffer: Vec<i64> = Vec::new();
        let mut x: u16 = 0;
        while x < width
            invariant
                x <= width,
                depth_buffer@.len() == x,
                forall|k: int| 0 <= k < x ==> #[trigger] depth_buffer@[k] == i64::MAX,
            decreases width - x,
        {
            depth_buffer.push(i64::MAX);
            x += 1;
        }
        self.buffer = buffer;
        self.depth_buffer = depth_buffer;
    }

    /// Puts `(color, ch)` into the cell `(x, y)`; does nothing where the buffer
    /// has no such cell.
    pub fn set(&mut self, x: u16, y: u16, color: Color, ch: char)
        requires
            old(self).wf(),
        ensures
            final(self).width == old(self).width,
            final(self).height == old(self).height,
            final(self).depth_buffer@ == old(self).depth_buffer@,
            final(self).wf(),
            forall|i: int, j: int|
                0 <= i < old(self).width && 0 <= j < old(self).height ==> #[trigger] final(self).cell(i, j)
                    == (if i == x && j == y {
                    (color, ch)
                } else {
                    old(self).cell(i, j)
                }),
    {
        if x < self.width && y < self.height {
            self.buffer[y as usize][x as usize] = (color, ch);
        }
    }
}

} // verus!
