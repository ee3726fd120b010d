//! The tile map: a rectangular grid of wall materials, `0` for open floor.

use vstd::prelude::*;

verus! {

/// `std::io::Error`, which loading a level may fail with. Nothing is claimed of
/// its values.
#[verifier::external_type_specification]
#[verifier::external_body]
pub struct ExIoError(std::io::Error);

/// A grid of cells, `layout[y][x]`, with its `(width, height)` in cells.
/// A cell holds `0` where it is open and a wall material from `1` up where it
/// is solid.
pub struct Level {
    pub layout: Vec<Vec<u8>>,
    pub size: (u32, u32),
}

/// The cell `(x, y)` of the built-in level: an outer wall of material 1 round a
/// 24 by 24 map, a brick room (2) with its door to the south, a field of
/// pillars (3), and a stone building (4) that holds a crystal (5).
pub open spec fn debug_tile(x: int, y: int) -> u8 {
    if x == 0 || x == 23 || y == 0 || y == 23 {
        1
    } else if 6 <= x <= 10 && 4 <= y <= 8 && (x == 6 || x == 10 || y == 4 || (y == 8 && x != 8)) {
        2
    } else if (y == 4 || y == 8) && (x == 15 || x == 17 || x == 19) {
        3
    } else if y == 6 && (x == 15 || x == 19) {
        3
    } else if 1 <= x <= 8 && 16 <= y <= 22 && (x == 1 || y == 16 || y == 22) {
        4
    } else if x == 8 && 16 <= y <= 20 {
        4
    } else if x == 3 && (y == 17 || y == 19 || y == 20) {
        4
    } else if y == 20 && 3 <= x <= 8 {
        4
    } else if x == 6 && y == 18 {
        5
    } else {
        0
    }
}

/// Whether `layout` is a rectangle of at least one cell whose width and
/// height fit a size.
pub open spec fn is_grid(layout: Seq<Vec<u8>>) -> bool {
    &&& 0 < layout.len() <= u32::MAX
    &&& 0 < layout[0]@.len() <= u32::MAX
    &&& forall|y: int| 0 <= y < layout.len() ==> (#[trigger] layout[y])@.len() == layout[0]@.len()
}

impl Level {
    /// The grid is rectangular, not empty, and as large as `size` says.
    pub open spec fn wf(&self) -> bool {
        &&& self.layout@.len() == self.size.1
        &&& self.size.0 > 0
        &&& self.size.1 > 0
        &&& forall|y: int|
            0 <= y < self.layout@.len() ==> (#[trigger] self.layout@[y])@.len() == self.size.0
    }

    /// How many cells a row holds.
    pub open spec fn width(&self) -> int {
        self.size.0 as int
    }

    /// How many rows the grid holds.
    pub open spec fn height(&self) -> int {
        self.size.1 as int
    }

    /// Whether the cell `(x, y)` lies on the grid.
    pub open spec fn in_grid(&self, x: int, y: int) -> bool {
        0 <= x < self.width() && 0 <= y < self.height()
    }

    /// What the cell `(x, y)` of the grid holds.
    pub open spec fn tile(&self, x: int, y: int) -> u8
        recommends
            self.in_grid(x, y),
    {
        self.layout@[y]@[x]
    }

    /// Whether an entity may stand in the cell `(x, y)`: it lies on the grid and
    /// is open. Every cell off the grid counts as solid.
    pub open spec fn passable(&self, x: int, y: int) -> bool {
        self.in_grid(x, y) && self.tile(x, y) == 0
    }

    /// What a ray meets in the cell `(x, y)`: the cell's material on the grid,
    /// and material 1 off the grid, where the map ends.
    pub open spec fn material(&self, x: int, y: int) -> u8 {
        if self.in_grid(x, y) {
            self.tile(x, y)
        } else {
            1
        }
    }

    /// The level with the grid `layout`, or nothing where `layout` is no
    /// rectangle of at least one cell or is larger than a size can say.
    pub fn from_layout(layout: Vec<Vec<u8>>) -> (r: Option<Self>)
        ensures
            r is Some <==> is_grid(layout@),
            r is Some ==> r->Some_0.wf() && r->Some_0.layout@ == layout@ && r->Some_0.size.0
                == layout@[0]@.len() && r->Some_0.size.1 == layout@.len(),
    {
        let height: usize = layout.len();
        if height == 0 || height > 0xffff_ffff {
            return None;
        }
        let width: usize = layout[0].len();
        if width == 0 || width > 0xffff_ffff {
            return None;
        }
        let mut y: usize = 0;
        while y < height
            invariant
                y <= height,
                height == layout@.len(),
                width == layout@[0]@.len(),
                forall|k: int| 0 <= k < y ==> (#[trigger] layout@[k])@.len() == width,
            decreases height - y,
        {
            if layout[y].len() != width {
                return None;
            }
            y += 1;
        }
        Some(Level { layout, size: (width as u32, height as u32) })
    }

    /// Whether an entity may stand in the cell `(x, y)`.
    pub fn is_passable(&self, x: i64, y: i64) -> (r: bool)
        requires
            self.wf(),
        ensures
            r == self.passable(x as int, y as int),
    {
        if x < 0 || y < 0 {
            return false;
        }
        if (y as u64) >= self.layout.len() as u64 {
            return false;
        }
        let row: &Vec<u8> = &self.layout[y as usize];
        if (x as u64) >= row.len() as u64 {
            return false;
        }
        row[x as usize] == 0
    }

    /// What a ray meets in the cell `(x, y)`.
    pub fn wall_at(&self, x: i64, y: i64) -> (w: u8)
        requires
            self.wf(),
        ensures
            w == self.material(x as int, y as int),
    {
        if x < 0 || y < 0 {
            return 1;
        }
        if (y as u64) >= self.layout.len() as u64 {
            return 1;
        }
        let row: &Vec<u8> = &self.layout[y as usize];
        if (x as u64) >= row.len() as u64 {
            return 1;
        }
        row[x as usize]
    }

    /// The built-in level. It never fails.
    pub fn debug_1() -> (r: Result<Self, std::io::Error>)
        ensures
            r is Ok,
            r->Ok_0.wf(),
            r->Ok_0.size == (24u32, 24u32),
            forall|x: int, y: int|
                0 <= x < 24 && 0 <= y < 24 ==> #[trigger] r->Ok_0.tile(x, y) == debug_tile(x, y),
    {
        let layout: Vec<Vec<u8>> = vec![
            vec![1, 1, 1, 1, 1, 1, 1, 1, 1, 1, 1, 1, 1, 1, 1, 1, 1, 1, 1, 1, 1, 1, 1, 1],
            vec![1, 0, 0, 0, 0, 0, 0, 0, 0, 0, 0, 0, 0, 0, 0, 0, 0, 0, 0, 0, 0, 0, 0, 1],
            vec![1, 0, 0, 0, 0, 0, 0, 0, 0, 0, 0, 0, 0, 0, 0, 0, 0, 0, 0, 0, 0, 0, 0, 1],
            vec![1, 0, 0, 0, 0, 0, 0, 0, 0, 0, 0, 0, 0, 0, 0, 0, 0, 0, 0, 0, 0, 0, 0, 1],
            vec![1, 0, 0, 0, 0, 0, 2, 2, 2, 2, 2, 0, 0, 0, 0, 3, 0, 3, 0, 3, 0, 0, 0, 1],
            vec![1, 0, 0, 0, 0, 0, 2, 0, 0, 0, 2, 0, 0, 0, 0, 0, 0, 0, 0, 0, 0, 0, 0, 1],
            vec![1, 0, 0, 0, 0, 0, 2, 0, 0, 0, 2, 0, 0, 0, 0, 3, 0, 0, 0, 3, 0, 0, 0, 1],
            vec![1, 0, 0, 0, 0, 0, 2, 0, 0, 0, 2, 0, 0, 0, 0, 0, 0, 0, 0, 0, 0, 0, 0, 1],
            vec![1, 0, 0, 0, 0, 0, 2, 2, 0, 2, 2, 0, 0, 0, 0, 3, 0, 3, 0, 3, 0, 0, 0, 1],
            vec![1, 0, 0, 0, 0, 0, 0, 0, 0, 0, 0, 0, 0, 0, 0, 0, 0, 0, 0, 0, 0, 0, 0, 1],
            vec![1, 0, 0, 0, 0, 0, 0, 0, 0, 0, 0, 0, 0, 0, 0, 0, 0, 0, 0, 0, 0, 0, 0, 1],
            vec![1, 0, 0, 0, 0, 0, 0, 0, 0, 0, 0, 0, 0, 0, 0, 0, 0, 0, 0, 0, 0, 0, 0, 1],
            vec![1, 0, 0, 0, 0, 0, 0, 0, 0, 0, 0, 0, 0, 0, 0, 0, 0, 0, 0, 0, 0, 0, 0, 1],
            vec![1, 0, 0, 0, 0, 0, 0, 0, 0, 0, 0, 0, 0, 0, 0, 0, 0, 0, 0, 0, 0, 0, 0, 1],
            vec![1, 0, 0, 0, 0, 0, 0, 0, 0, 0, 0, 0, 0, 0, 0, 0, 0, 0, 0, 0, 0, 0, 0, 1],
            vec![1, 0, 0, 0, 0, 0, 0, 0, 0, 0, 0, 0, 0, 0, 0, 0, 0, 0, 0, 0, 0, 0, 0, 1],
            vec![1, 4, 4, 4, 4, 4, 4, 4, 4, 0, 0, 0, 0, 0, 0, 0, 0, 0, 0, 0, 0, 0, 0, 1],
            vec![1, 4, 0, 4, 0, 0, 0, 0, 4, 0, 0, 0, 0, 0, 0, 0, 0, 0, 0, 0, 0, 0, 0, 1],
            vec![1, 4, 0, 0, 0, 0, 5, 0, 4, 0, 0, 0, 0, 0, 0, 0, 0, 0, 0, 0, 0, 0, 0, 1],
            vec![1, 4, 0, 4, 0, 0, 0, 0, 4, 0, 0, 0, 0, 0, 0, 0, 0, 0, 0, 0, 0, 0, 0, 1],
            vec![1, 4, 0, 4, 4, 4, 4, 4, 4, 0, 0, 0, 0, 0, 0, 0, 0, 0, 0, 0, 0, 0, 0, 1],
            vec![1, 4, 0, 0, 0, 0, 0, 0, 0, 0, 0, 0, 0, 0, 0, 0, 0, 0, 0, 0, 0, 0, 0, 1],
            vec![1, 4, 4, 4, 4, 4, 4, 4, 4, 0, 0, 0, 0, 0, 0, 0, 0, 0, 0, 0, 0, 0, 0, 1],
            vec![1, 1, 1, 1, 1, 1, 1, 1, 1, 1, 1, 1, 1, 1, 1, 1, 1, 1, 1, 1, 1, 1, 1, 1],
        ];
        let level = Level { layout, size: (24, 24) };
        Ok(level)
    }
}

} // verus!
