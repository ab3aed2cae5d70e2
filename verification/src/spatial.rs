//! Spatial model: a rectangular grid of tiles addressed by position or id.

use vstd::prelude::*;

verus! {

/// A named tile of the world.
#[derive(Debug, Clone)]
pub struct Tile {
    pub id: u32,
    pub name: String,
}

/// Position of a tile in the grid.
#[derive(Debug, Clone, Copy, PartialEq, Eq, Structural, Hash)]
pub struct TilePos {
    pub x: u32,
    pub y: u32,
}

/// Rectangular tile grid; ids number the tiles row by row.
pub struct TileGrid {
    width: u32,
    height: u32,
}

impl TileGrid {
    pub closed spec fn spec_width(&self) -> u32 {
        self.width
    }

    pub closed spec fn spec_height(&self) -> u32 {
        self.height
    }

    /// A position lies inside the grid.
    pub open spec fn contains(&self, pos: TilePos) -> bool {
        pos.x < self.spec_width() && pos.y < self.spec_height()
    }

    pub fn new(width: u32, height: u32) -> (grid: Self)
        requires
            width * height <= u32::MAX,
        ensures
            grid.spec_width() == width,
            grid.spec_height() == height,
    {
        Self { width, height }
    }

    pub fn width(&self) -> (w: u32)
        ensures
            w == self.spec_width(),
    {
        self.width
    }

    pub fn height(&self) -> (h: u32)
        ensures
            h == self.spec_height(),
    {
        self.height
    }

    pub fn tile_count(&self) -> (count: u32)
        requires
            self.spec_width() * self.spec_height() <= u32::MAX,
        ensures
            count == self.spec_width() * self.spec_height(),
    {
        self.width * self.height
    }

    /// Convert a tile position to its id: ids run row by row.
    pub fn pos_to_id(&self, pos: TilePos) -> (id: Option<u32>)
        requires
            self.spec_width() * self.spec_height() <= u32::MAX,
        ensures
            self.contains(pos) ==> id == Some((pos.y * self.spec_width() + pos.x) as u32),
            !self.contains(pos) ==> id is None,
    {
        if pos.x < self.width && pos.y < self.height {
            proof {
                lemma_row_major_bound(
                    pos.x as nat,
                    pos.y as nat,
                    self.width as nat,
                    self.height as nat,
                );
            }
            Some(pos.y * self.width + pos.x)
        } else {
            None
        }
    }

    /// Convert a tile id back to its position.
    pub fn id_to_pos(&self, id: u32) -> (pos: Option<TilePos>)
        requires
            self.spec_width() * self.spec_height() <= u32::MAX,
        ensures
            id < self.spec_width() * self.spec_height() ==> pos == Some(
                TilePos { x: (id as u32 % self.spec_width()), y: (id as u32 / self.spec_width()) },
            ),
            id >= self.spec_width() * self.spec_height() ==> pos is None,
            pos matches Some(p) ==> self.contains(p),
    {
        if id < self.tile_count() {
            proof {
                lemma_row_major_inverse(id as nat, self.width as nat, self.height as nat);
            }
            Some(TilePos { x: id % self.width, y: id / self.width })
        } else {
            None
        }
    }

    /// The four-connected in-grid neighbours of a position, in the order
    /// north, south, west, east.
    pub fn neighbors(&self, pos: TilePos) -> (result: Vec<TilePos>)
        requires
            self.contains(pos),
        ensures
            result@ == self.spec_neighbors(pos),
            forall|i: int| 0 <= i < result@.len() ==> self.contains(#[trigger] result@[i]),
    {
        let mut neighbors: Vec<TilePos> = Vec::new();

        if pos.y > 0 {
            neighbors.push(TilePos { x: pos.x, y: pos.y - 1 });
        }
        if pos.y < self.height - 1 {
            neighbors.push(TilePos { x: pos.x, y: pos.y + 1 });
        }
        if pos.x > 0 {
            neighbors.push(TilePos { x: pos.x - 1, y: pos.y });
        }
        if pos.x < self.width - 1 {
            neighbors.push(TilePos { x: pos.x + 1, y: pos.y });
        }

        proof {
            assert(neighbors@ =~= self.spec_neighbors(pos));
        }
        neighbors
    }

    /// The neighbour list that `neighbors` returns: the in-grid tiles
    /// directly north, south, west and east of `pos`, in that order.
    pub open spec fn spec_neighbors(&self, pos: TilePos) -> Seq<TilePos> {
        let north: Seq<TilePos> = if pos.y > 0 {
            seq![TilePos { x: pos.x, y: (pos.y - 1) as u32 }]
        } else {
            Seq::empty()
        };
        let south: Seq<TilePos> = if pos.y + 1 < self.spec_height() {
            seq![TilePos { x: pos.x, y: (pos.y + 1) as u32 }]
        } else {
            Seq::empty()
        };
        let west: Seq<TilePos> = if pos.x > 0 {
            seq![TilePos { x: (pos.x - 1) as u32, y: pos.y }]
        } else {
            Seq::empty()
        };
        let east: Seq<TilePos> = if pos.x + 1 < self.spec_width() {
            seq![TilePos { x: (pos.x + 1) as u32, y: pos.y }]
        } else {
            Seq::empty()
        };
        north + south + west + east
    }

    /// Manhattan distance between two positions.
    pub fn distance(&self, a: TilePos, b: TilePos) -> (d: u32)
        requires
            spec_manhattan(a, b) <= u32::MAX,
        ensures
            d == spec_manhattan(a, b),
    {
        let dx = if a.x > b.x {
            a.x - b.x
        } else {
            b.x - a.x
        };
        let dy = if a.y > b.y {
            a.y - b.y
        } else {
            b.y - a.y
        };
        dx + dy
    }
}

/// Manhattan distance of two positions as a mathematical value.
pub open spec fn spec_manhattan(a: TilePos, b: TilePos) -> int {
    abs_diff(a.x as int, b.x as int) + abs_diff(a.y as int, b.y as int)
}

/// Absolute difference of two integers.
pub open spec fn abs_diff(a: int, b: int) -> int {
    if a >= b {
        a - b
    } else {
        b - a
    }
}

proof fn lemma_row_major_inverse(id: nat, w: nat, h: nat)
    requires
        id < w * h,
    ensures
        w > 0,
        id % w < w,
        id / w < h,
{
    assert(w > 0) by (nonlinear_arith)
        requires
            id < w * h,
    ;
    assert(id % w < w && id / w < h) by (nonlinear_arith)
        requires
            id < w * h,
            w > 0,
    ;
}

proof fn lemma_row_major_bound(x: nat, y: nat, w: nat, h: nat)
    requires
        x < w,
        y < h,
        w * h <= u32::MAX,
    ensures
        y * w + x < w * h,
{
    assert(y * w + x < (y + 1) * w) by (nonlinear_arith)
        requires
            x < w,
    ;
    assert((y + 1) * w <= h * w) by (nonlinear_arith)
        requires
            y < h,
    ;
    assert(h * w == w * h) by (nonlinear_arith);
}

} // verus!
