//! Tile categories, the grid data structure, and the primitives that stamp
//! tiles into it.

use vstd::prelude::*;

verus! {

/// Side length of one tile in pixel space.
pub const TILE_SIZE: i32 = 60;

/// Side length of one monster sub-slot in pixel space.
pub const MOB_SIZE: i32 = 20;

/// Category of a tile.
#[derive(Clone, Copy, PartialEq, Eq, Structural, Debug)]
pub enum TileType {
    Floor,
    Wall,
    Start,
    Boss,
    Event,
    Water,
    Forest,
    Angle,
}

/// A placed monster pack, anchored to one grid tile.
#[derive(Clone, Copy, Debug)]
pub struct MobPack {
    pub tile_coords: (usize, usize),
}

/// One cell of the grid.
///
/// `walkable` is set explicitly alongside the category at paint time, so
/// non-floor categories (Start, Boss) can be walkable without special cases.
/// `scanned` is transient scratch state used by the contour tracer.
#[derive(Clone, Copy, Debug)]
pub struct Tile {
    pub tile_type: TileType,
    pub walkable: bool,
    pub spawnable: bool,
    pub scanned: bool,
    pub mob_pack: Option<MobPack>,
}

/// A rectangular 2D grid of tiles, indexed `grid[x][y]`.
pub type Grid = Vec<Vec<Tile>>;

/// The grid is rectangular with strictly positive dimensions.
pub open spec fn grid_wf(g: Seq<Vec<Tile>>) -> bool {
    &&& g.len() > 0
    &&& g[0]@.len() > 0
    &&& forall|i: int| 0 <= i < g.len() ==> (#[trigger] g[i])@.len() == g[0]@.len()
}

/// Number of columns of the grid.
pub open spec fn grid_w(g: Seq<Vec<Tile>>) -> int {
    g.len() as int
}

/// Number of rows of the grid.
pub open spec fn grid_h(g: Seq<Vec<Tile>>) -> int {
    g[0]@.len() as int
}

/// The tile at column `x`, row `y`.
pub open spec fn grid_at(g: Seq<Vec<Tile>>, x: int, y: int) -> Tile {
    g[x]@[y]
}

/// `(x, y)` lies within the grid.
pub open spec fn grid_in(g: Seq<Vec<Tile>>, x: int, y: int) -> bool {
    0 <= x < grid_w(g) && 0 <= y < grid_h(g)
}

/// The tile a stamping operation leaves at a cell: category, walkability and
/// spawnability are overwritten; the tracer flag and any anchored pack stay.
pub open spec fn stamped(t: Tile, tile_type: TileType, walkable: bool, spawnable: bool) -> Tile {
    Tile {
        tile_type: tile_type,
        walkable: walkable,
        spawnable: spawnable,
        scanned: t.scanned,
        mob_pack: t.mob_pack,
    }
}

/// Both grids have the same dimensions.
pub open spec fn same_dims(a: Seq<Vec<Tile>>, b: Seq<Vec<Tile>>) -> bool {
    &&& a.len() == b.len()
    &&& forall|i: int| 0 <= i < a.len() ==> (#[trigger] a[i])@.len() == b[i]@.len()
}

/// Builds a fresh grid of `width` columns and `height` rows, every cell
/// filled with the out-of-bounds category, non-walkable and unscanned.
#[verifier::loop_isolation(false)]
pub fn init_grid(height: i32, width: i32, oob_tiletype: TileType) -> (g: Grid)
    requires
        height > 0,
        width > 0,
    ensures
        grid_wf(g@),
        grid_w(g@) == width as int,
        grid_h(g@) == height as int,
        forall|x: int, y: int|
            grid_in(g@, x, y) ==> grid_at(g@, x, y) == (Tile {
                tile_type: oob_tiletype,
                walkable: false,
                spawnable: false,
                scanned: false,
                mob_pack: None::<MobPack>,
            }),
{
    let mut grid: Grid = Vec::new();
    let oob = Tile {
        tile_type: oob_tiletype,
        walkable: false,
        spawnable: false,
        scanned: false,
        mob_pack: None,
    };
    let mut x: i32 = 0;
    while x < width
        invariant
            0 <= x <= width,
            grid@.len() == x as int,
            forall|i: int| 0 <= i < x as int ==> (#[trigger] grid@[i])@.len() == height as int,
            forall|i: int, j: int|
                0 <= i < x as int && 0 <= j < height as int ==> grid@[i]@[j] == oob,
        decreases width - x,
    {
        let mut row: Vec<Tile> = Vec::new();
        let mut y: i32 = 0;
        while y < height
            invariant
                0 <= y <= height,
                row@.len() == y as int,
                forall|j: int| 0 <= j < y as int ==> row@[j] == oob,
            decreases height - y,
        {
            row.push(oob);
            y = y + 1;
        }
        grid.push(row);
        x = x + 1;
    }
    grid
}

/// Writes one tile, silently dropping any coordinate outside the grid.
pub fn add_tile(
    grid: &mut Grid,
    x: usize,
    y: usize,
    tile_type: TileType,
    walkable: bool,
    spawnable: bool,
)
    requires
        grid_wf(old(grid)@),
    ensures
        grid_wf(final(grid)@),
        same_dims(old(grid)@, final(grid)@),
        forall|i: int, j: int|
            grid_in(old(grid)@, i, j) ==> grid_at(final(grid)@, i, j) == (if i == x as int && j
                == y as int {
                stamped(grid_at(old(grid)@, i, j), tile_type, walkable, spawnable)
            } else {
                grid_at(old(grid)@, i, j)
            }),
{
    if x < grid.len() {
        if y < grid[x].len() {
            let t = grid[x][y];
            grid[x][y] = Tile {
                tile_type: tile_type,
                walkable: walkable,
                spawnable: spawnable,
                scanned: t.scanned,
                mob_pack: t.mob_pack,
            };
        }
    }
}

/// `(i, j)` lies inside the axis-aligned rectangle of the given size centred
/// at `center` (sides rounded as in integer halving).
pub open spec fn in_rect(size: (i32, i32), center: (i32, i32), i: int, j: int) -> bool {
    &&& center.0 - size.0 / 2 <= i < center.0 - size.0 / 2 + size.0
    &&& center.1 - size.1 / 2 <= j < center.1 - size.1 / 2 + size.1
}

/// Stamps a rectangle of tiles centred at `center`, clipping every cell that
/// falls outside the grid.
#[verifier::loop_isolation(false)]
pub fn draw_rectangle(
    grid: &mut Grid,
    tiletype: TileType,
    size: (i32, i32),
    center: (i32, i32),
    walkable: bool,
    spawnable: bool,
)
    requires
        grid_wf(old(grid)@),
        0 <= size.0 <= 0x10000,
        0 <= size.1 <= 0x10000,
        -0x10000 <= center.0 <= 0x7fff0000,
        -0x10000 <= center.1 <= 0x7fff0000,
    ensures
        grid_wf(final(grid)@),
        same_dims(old(grid)@, final(grid)@),
        forall|i: int, j: int|
            grid_in(old(grid)@, i, j) ==> grid_at(final(grid)@, i, j) == (if in_rect(
                size,
                center,
                i,
                j,
            ) {
                stamped(grid_at(old(grid)@, i, j), tiletype, walkable, spawnable)
            } else {
                grid_at(old(grid)@, i, j)
            }),
{
    let x0: i32 = center.0 - size.0 / 2;
    let y0: i32 = center.1 - size.1 / 2;
    let ghost g0 = grid@;
    let mut dx: i32 = 0;
    while dx < size.0
        invariant
            grid_wf(old(grid)@),
            0 <= size.0 <= 0x10000,
            0 <= size.1 <= 0x10000,
            -0x10000 <= center.0 <= 0x7fff0000,
            -0x10000 <= center.1 <= 0x7fff0000,
            x0 == center.0 - size.0 / 2,
            y0 == center.1 - size.1 / 2,
            0 <= dx <= size.0,
            g0 == old(grid)@,
            grid_wf(grid@),
            same_dims(g0, grid@),
            forall|i: int, j: int|
                grid_in(g0, i, j) ==> grid_at(grid@, i, j) == (if x0 <= i < x0 + dx && in_rect(
                    size,
                    center,
                    i,
                    j,
                ) {
                    stamped(grid_at(g0, i, j), tiletype, walkable, spawnable)
                } else {
                    grid_at(g0, i, j)
                }),
        decreases size.0 - dx,
    {
        let mut dy: i32 = 0;
        while dy < size.1
            invariant
                grid_wf(old(grid)@),
                0 <= size.0 <= 0x10000,
                0 <= size.1 <= 0x10000,
                -0x10000 <= center.0 <= 0x7fff0000,
                -0x10000 <= center.1 <= 0x7fff0000,
                x0 == center.0 - size.0 / 2,
                y0 == center.1 - size.1 / 2,
                0 <= dx < size.0,
                0 <= dy <= size.1,
                g0 == old(grid)@,
                    grid_wf(grid@),
                same_dims(g0, grid@),
                forall|i: int, j: int|
                    grid_in(g0, i, j) ==> grid_at(grid@, i, j) == (if (x0 <= i < x0 + dx
                        && in_rect(size, center, i, j)) || (i == x0 + dx && y0 <= j < y0 + dy
                        && in_rect(size, center, i, j)) {
                        stamped(grid_at(g0, i, j), tiletype, walkable, spawnable)
                    } else {
                        grid_at(g0, i, j)
                    }),
            decreases size.1 - dy,
        {
            let cx: i32 = x0 + dx;
            let cy: i32 = y0 + dy;
            if cx >= 0 && cy >= 0 {
                add_tile(grid, cx as usize, cy as usize, tiletype, walkable, spawnable);
            }
            dy = dy + 1;
        }
        dx = dx + 1;
    }
}

} // verus!
