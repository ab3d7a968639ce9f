//! Contour tracing: walks the boundary between walkable and non-walkable
//! area with a four-direction wall-follower and emits closed pixel-space
//! polygons — one outer boundary and one polygon per interior hole.

use vstd::prelude::*;
use crate::autocrop::row_has_walkable;
use crate::errors::GenError;
use crate::tiles::Grid;
use crate::tiles::TILE_SIZE;
use crate::tiles::Tile;
use crate::tiles::grid_at;
use crate::tiles::grid_h;
use crate::tiles::grid_in;
use crate::tiles::grid_w;
use crate::tiles::grid_wf;
use crate::tiles::same_dims;

verus! {

/// An output polygon: an ordered, closed loop of pixel-space corner points,
/// flagged as the single outer boundary or as an interior hole.
pub struct Shape {
    pub points: Vec<(i32, i32)>,
    pub inner_if_true: bool,
}

/// `d` is one of the four cardinal directions.
pub open spec fn is_cardinal(d: (i32, i32)) -> bool {
    d == (0i32, 1i32) || d == (0i32, -1i32) || d == (1i32, 0i32) || d == (-1i32, 0i32)
}

/// `t` with the tracer's visited flag raised.
pub open spec fn scanned_tile(t: Tile) -> Tile {
    Tile {
        tile_type: t.tile_type,
        walkable: t.walkable,
        spawnable: t.spawnable,
        scanned: true,
        mob_pack: t.mob_pack,
    }
}

/// `b` differs from `a` at most by raised visited flags.
pub open spec fn only_scanned_set(a: Seq<Vec<Tile>>, b: Seq<Vec<Tile>>) -> bool {
    &&& same_dims(a, b)
    &&& forall|x: int, y: int|
        grid_in(a, x, y) ==> (#[trigger] grid_at(b, x, y) == grid_at(a, x, y) || grid_at(b, x, y)
            == scanned_tile(grid_at(a, x, y)))
}

/// The wall-follower decision for one step: which corner point to emit, if
/// any, and the direction to continue in. Each direction tests an
/// ahead-adjacent and an ahead-diagonal neighbor of the current cell.
pub open spec fn spec_trace_step(g: Seq<Vec<Tile>>, pos: (i32, i32), dir: (i32, i32)) -> (
    Option<(i32, i32)>,
    (i32, i32),
) {
    let bx = (pos.0 * TILE_SIZE) as i32;
    let by = (pos.1 * TILE_SIZE) as i32;
    let sx = (pos.0 * TILE_SIZE - TILE_SIZE) as i32;
    let sy = (pos.1 * TILE_SIZE - TILE_SIZE) as i32;
    if dir == (0i32, 1i32) {
        if grid_at(g, pos.0 + 1, pos.1 as int).walkable {
            if grid_at(g, pos.0 as int, pos.1 + 1).walkable {
                (Some((bx, by)), (-1i32, 0i32))
            } else {
                (None::<(i32, i32)>, (0i32, 1i32))
            }
        } else {
            (Some((bx, sy)), (1i32, 0i32))
        }
    } else if dir == (-1i32, 0i32) {
        if grid_at(g, pos.0 as int, pos.1 + 1).walkable {
            if grid_at(g, pos.0 - 1, pos.1 as int).walkable {
                (Some((sx, by)), (0i32, -1i32))
            } else {
                (None::<(i32, i32)>, (-1i32, 0i32))
            }
        } else {
            (Some((bx, by)), (0i32, 1i32))
        }
    } else if dir == (1i32, 0i32) {
        if grid_at(g, pos.0 as int, pos.1 - 1).walkable {
            if grid_at(g, pos.0 + 1, pos.1 as int).walkable {
                (Some((bx, sy)), (0i32, 1i32))
            } else {
                (None::<(i32, i32)>, (1i32, 0i32))
            }
        } else {
            (Some((sx, sy)), (0i32, -1i32))
        }
    } else {
        if grid_at(g, pos.0 - 1, pos.1 as int).walkable {
            if grid_at(g, pos.0 as int, pos.1 - 1).walkable {
                (Some((sx, sy)), (1i32, 0i32))
            } else {
                (None::<(i32, i32)>, (0i32, -1i32))
            }
        } else {
            (Some((sx, by)), (-1i32, 0i32))
        }
    }
}

/// The coordinate of an emitted corner that stays fixed while the walk
/// travels in direction `d` away from cell `pos`: the corner's column for a
/// vertical direction, its row for a horizontal one.
pub open spec fn matches_track(q: (i32, i32), pos: (i32, i32), d: (i32, i32)) -> bool {
    if d == (0i32, 1i32) {
        q.0 == pos.0 * TILE_SIZE
    } else if d == (0i32, -1i32) {
        q.0 == pos.0 * TILE_SIZE - TILE_SIZE
    } else if d == (1i32, 0i32) {
        q.1 == pos.1 * TILE_SIZE - TILE_SIZE
    } else {
        q.1 == pos.1 * TILE_SIZE
    }
}

/// `q` is one of the four pixel-space corners of the tile at `pos`.
pub open spec fn corner_of_tile(q: (i32, i32), pos: (i32, i32)) -> bool {
    &&& (q.0 == pos.0 * TILE_SIZE || q.0 == pos.0 * TILE_SIZE - TILE_SIZE)
    &&& (q.1 == pos.1 * TILE_SIZE || q.1 == pos.1 * TILE_SIZE - TILE_SIZE)
}

/// Every point lies within the pixel box of a `w` by `h` tile grid whose
/// one-cell frame is excluded from tracing.
pub open spec fn points_in_pixel_box(ps: Seq<(i32, i32)>, w: int, h: int) -> bool {
    forall|i: int|
        0 <= i < ps.len() ==> 0 <= (#[trigger] ps[i]).0 <= (w - 2) * TILE_SIZE && 0 <= ps[i].1 <= (
        h - 2) * TILE_SIZE
}

/// The budget of trace steps: more than four visits of every cell of the
/// largest grid, so only a walk that will never close can exhaust it.
pub const TRACE_FUEL: u64 = 0x400000004;

/// The boundary walk itself, at the specification level: starting at `pos`
/// in direction `dir`, with `fc` the cell of the first emitted corner (if
/// one was emitted yet), the corner points the walk emits until it returns
/// to that cell — or `None` when it leaves the one-cell safety frame or
/// fails to close within `fuel` steps.
pub open spec fn trace_points(
    g: Seq<Vec<Tile>>,
    pos: (i32, i32),
    dir: (i32, i32),
    fc: Option<(i32, i32)>,
    fuel: nat,
) -> Option<Seq<(i32, i32)>>
    decreases fuel,
{
    if fuel == 0 {
        None
    } else if fc is Some && fc->0 == pos {
        Some(Seq::empty())
    } else if !(1 <= pos.0 && pos.0 + 1 < grid_w(g) && 1 <= pos.1 && pos.1 + 1 < grid_h(g)) {
        None
    } else {
        let step = spec_trace_step(g, pos, dir);
        let nd = step.1;
        let npos = ((pos.0 + nd.0) as i32, (pos.1 + nd.1) as i32);
        let nfc = if step.0 is Some && fc is None {
            Some(pos)
        } else {
            fc
        };
        match trace_points(g, npos, nd, nfc, (fuel - 1) as nat) {
            Some(rest) => Some(
                if step.0 is Some {
                    seq![step.0->Some_0] + rest
                } else {
                    rest
                },
            ),
            None => None,
        }
    }
}

/// Raising visited flags never changes a step decision: the table reads
/// only walkability.
proof fn lemma_step_unaffected_by_scan(
    a: Seq<Vec<Tile>>,
    b: Seq<Vec<Tile>>,
    pos: (i32, i32),
    dir: (i32, i32),
)
    requires
        only_scanned_set(a, b),
        1 <= pos.0,
        pos.0 + 1 < grid_w(a),
        1 <= pos.1,
        pos.1 + 1 < grid_h(a),
    ensures
        spec_trace_step(b, pos, dir) == spec_trace_step(a, pos, dir),
{
    assert(grid_at(b, pos.0 + 1, pos.1 as int).walkable == grid_at(
        a,
        pos.0 + 1,
        pos.1 as int,
    ).walkable);
    assert(grid_at(b, pos.0 - 1, pos.1 as int).walkable == grid_at(
        a,
        pos.0 - 1,
        pos.1 as int,
    ).walkable);
    assert(grid_at(b, pos.0 as int, pos.1 + 1).walkable == grid_at(
        a,
        pos.0 as int,
        pos.1 + 1,
    ).walkable);
    assert(grid_at(b, pos.0 as int, pos.1 - 1).walkable == grid_at(
        a,
        pos.0 as int,
        pos.1 - 1,
    ).walkable);
}

/// Every point sits on the pixel lattice: both coordinates are multiples
/// of the tile size.
pub open spec fn on_lattice(ps: Seq<(i32, i32)>) -> bool {
    forall|i: int|
        0 <= i < ps.len() ==> (#[trigger] ps[i]).0 % TILE_SIZE == 0 && ps[i].1 % TILE_SIZE == 0
}

/// Consecutive points of the polygon share a column or a row: the polygon's
/// edges are axis-aligned.
pub open spec fn rectilinear(ps: Seq<(i32, i32)>) -> bool {
    forall|i: int|
        0 < i < ps.len() ==> (#[trigger] ps[i]).0 == ps[i - 1].0 || ps[i].1 == ps[i - 1].1
}

/// What one trace step guarantees: the next direction is cardinal; an
/// emitted corner is a corner of the current tile and lies on the track of
/// both the old and the new direction; without an emission the direction is
/// kept.
proof fn lemma_step_props(g: Seq<Vec<Tile>>, pos: (i32, i32), dir: (i32, i32))
    requires
        is_cardinal(dir),
        -0x8000 <= pos.0 <= 0x8000,
        -0x8000 <= pos.1 <= 0x8000,
    ensures
        is_cardinal(spec_trace_step(g, pos, dir).1),
        spec_trace_step(g, pos, dir).0 is Some ==> matches_track(
            spec_trace_step(g, pos, dir).0->Some_0,
            pos,
            dir,
        ) && matches_track(spec_trace_step(g, pos, dir).0->Some_0, pos, spec_trace_step(g, pos, dir).1)
            && corner_of_tile(spec_trace_step(g, pos, dir).0->Some_0, pos),
        spec_trace_step(g, pos, dir).0 is None ==> spec_trace_step(g, pos, dir).1 == dir,
{
}

/// One step of the boundary walk at `pos`, travelling in `dir`.
fn trace_step(grid: &Grid, pos: (i32, i32), dir: (i32, i32)) -> (r: (Option<(i32, i32)>, (
    i32,
    i32,
)))
    requires
        grid_wf(grid@),
        is_cardinal(dir),
        grid_w(grid@) <= 0x8000,
        grid_h(grid@) <= 0x8000,
        1 <= pos.0,
        pos.0 + 1 < grid_w(grid@),
        1 <= pos.1,
        pos.1 + 1 < grid_h(grid@),
    ensures
        r == spec_trace_step(grid@, pos, dir),
{
    let bx = pos.0 * TILE_SIZE;
    let by = pos.1 * TILE_SIZE;
    let sx = pos.0 * TILE_SIZE - TILE_SIZE;
    let sy = pos.1 * TILE_SIZE - TILE_SIZE;
    let x = pos.0 as usize;
    let y = pos.1 as usize;
    if dir.0 == 0 && dir.1 == 1 {
        if grid[x + 1][y].walkable {
            if grid[x][y + 1].walkable {
                (Some((bx, by)), (-1, 0))
            } else {
                (None, (0, 1))
            }
        } else {
            (Some((bx, sy)), (1, 0))
        }
    } else if dir.0 == -1 && dir.1 == 0 {
        if grid[x][y + 1].walkable {
            if grid[x - 1][y].walkable {
                (Some((sx, by)), (0, -1))
            } else {
                (None, (-1, 0))
            }
        } else {
            (Some((bx, by)), (0, 1))
        }
    } else if dir.0 == 1 && dir.1 == 0 {
        if grid[x][y - 1].walkable {
            if grid[x + 1][y].walkable {
                (Some((bx, sy)), (0, 1))
            } else {
                (None, (1, 0))
            }
        } else {
            (Some((sx, sy)), (0, -1))
        }
    } else {
        if grid[x - 1][y].walkable {
            if grid[x][y - 1].walkable {
                (Some((sx, sy)), (1, 0))
            } else {
                (None, (0, -1))
            }
        } else {
            (Some((sx, by)), (-1, 0))
        }
    }
}

/// Raises the tracer's visited flag on one cell.
fn set_scanned(grid: &mut Grid, x: usize, y: usize)
    requires
        grid_wf(old(grid)@),
        grid_in(old(grid)@, x as int, y as int),
    ensures
        grid_wf(final(grid)@),
        same_dims(old(grid)@, final(grid)@),
        forall|i: int, j: int|
            grid_in(old(grid)@, i, j) ==> grid_at(final(grid)@, i, j) == (if i == x as int && j
                == y as int {
                scanned_tile(grid_at(old(grid)@, i, j))
            } else {
                grid_at(old(grid)@, i, j)
            }),
{
    let t = grid[x][y];
    grid[x][y] = Tile {
        tile_type: t.tile_type,
        walkable: t.walkable,
        spawnable: t.spawnable,
        scanned: true,
        mob_pack: t.mob_pack,
    };
}

/// Traces one closed boundary polygon starting at `start_point` with
/// initial direction `start_dir`, marking every visited cell, and returns
/// the polygon's pixel-space corner points.
///
/// The trace ends when it returns to the cell where its first corner was
/// emitted. A walk that would leave the one-cell safety frame of the grid,
/// or that fails to close, aborts the run instead of looping forever.
#[verifier::loop_isolation(false)]
pub fn find_oob_polygone(start_point: (i32, i32), grid: &mut Grid, start_dir: (i32, i32)) -> (r:
    Result<Vec<(i32, i32)>, GenError>)
    requires
        grid_wf(old(grid)@),
        is_cardinal(start_dir),
        grid_w(old(grid)@) <= 0x8000,
        grid_h(old(grid)@) <= 0x8000,
        -0x8000 <= start_point.0 <= 0x8000,
        -0x8000 <= start_point.1 <= 0x8000,
    ensures
        grid_wf(final(grid)@),
        only_scanned_set(old(grid)@, final(grid)@),
        r is Ok ==> rectilinear(r->Ok_0@),
        r is Ok ==> on_lattice(r->Ok_0@),
        r is Ok ==> points_in_pixel_box(r->Ok_0@, grid_w(old(grid)@), grid_h(old(grid)@)),
        // the result is exactly what the specification-level walk emits
        trace_points(old(grid)@, start_point, start_dir, None::<(i32, i32)>, TRACE_FUEL as nat)
            is Some ==> r is Ok && r->Ok_0@ == trace_points(
            old(grid)@,
            start_point,
            start_dir,
            None::<(i32, i32)>,
            TRACE_FUEL as nat,
        )->Some_0,
        trace_points(old(grid)@, start_point, start_dir, None::<(i32, i32)>, TRACE_FUEL as nat)
            is None ==> r is Err,
        // a successful trace has flagged its starting cell as visited
        r is Ok ==> grid_in(old(grid)@, start_point.0 as int, start_point.1 as int) && grid_at(
            final(grid)@,
            start_point.0 as int,
            start_point.1 as int,
        ).scanned,
        r is Err ==> (r->Err_0 == GenError::ContourTouchesFrame || r->Err_0
            == GenError::TraceRunaway),
{
    let w = grid.len() as i32;
    let h = grid[0].len() as i32;
    let ghost g0 = old(grid)@;
    let mut points: Vec<(i32, i32)> = Vec::new();
    let mut pos = start_point;
    let mut dir = start_dir;
    let mut first_corner: Option<(i32, i32)> = None;
    let mut fuel: u64 = TRACE_FUEL;
    while fuel > 0
        invariant
            grid_wf(grid@),
            only_scanned_set(old(grid)@, grid@),
            is_cardinal(dir),
            -0x8000 <= pos.0 <= 0x8000,
            -0x8000 <= pos.1 <= 0x8000,
            rectilinear(points@),
            on_lattice(points@),
            points_in_pixel_box(points@, w as int, h as int),
            points@.len() > 0 ==> matches_track(points@[points@.len() - 1], pos, dir),
            first_corner is Some <==> points@.len() > 0,
            fuel <= TRACE_FUEL,
            fuel == TRACE_FUEL ==> pos == start_point,
            first_corner is Some ==> fuel < TRACE_FUEL,
            fuel < TRACE_FUEL ==> 1 <= start_point.0 && start_point.0 + 1 < w
                && 1 <= start_point.1 && start_point.1 + 1 < h && grid_at(
                grid@,
                start_point.0 as int,
                start_point.1 as int,
            ).scanned,
            trace_points(g0, start_point, start_dir, None::<(i32, i32)>, TRACE_FUEL as nat) == (
            match trace_points(g0, pos, dir, first_corner, fuel as nat) {
                Some(rest) => Some(points@ + rest),
                None => None::<Seq<(i32, i32)>>,
            }),
        decreases fuel,
    {
        if let Some(fp) = first_corner {
            if fp.0 == pos.0 && fp.1 == pos.1 {
                proof {
                    assert(trace_points(g0, pos, dir, first_corner, fuel as nat) == Some(
                        Seq::<(i32, i32)>::empty(),
                    ));
                    assert(points@ + Seq::<(i32, i32)>::empty() =~= points@);
                }
                return Ok(points);
            }
        }
        if !(1 <= pos.0 && pos.0 + 1 < w && 1 <= pos.1 && pos.1 + 1 < h) {
            proof {
                assert(trace_points(g0, pos, dir, first_corner, fuel as nat)
                    is None);
            }
            return Err(GenError::ContourTouchesFrame);
        }
        proof {
            lemma_step_props(grid@, pos, dir);
            lemma_step_unaffected_by_scan(g0, grid@, pos, dir);
        }
        let ghost prev_points = points@;
        let ghost prev_pos = pos;
        let ghost prev_dir = dir;
        let ghost prev_fc = first_corner;
        let ghost prev_fuel = fuel;
        let (emit, next_dir) = trace_step(grid, pos, dir);
        if let Some(q) = emit {
            if points.len() == 0 {
                first_corner = Some(pos);
            }
            points.push(q);
            proof {
                assert((pos.0 as int * (TILE_SIZE as int)) % (TILE_SIZE as int) == 0
                    && (pos.0 as int * (TILE_SIZE as int) - (TILE_SIZE as int)) % (
                TILE_SIZE as int) == 0 && (pos.1 as int * (TILE_SIZE as int)) % (TILE_SIZE as int)
                    == 0 && (pos.1 as int * (TILE_SIZE as int) - (TILE_SIZE as int)) % (
                TILE_SIZE as int) == 0) by (nonlinear_arith);
            }
        }
        dir = next_dir;
        set_scanned(grid, pos.0 as usize, pos.1 as usize);
        proof {
            if prev_fuel == TRACE_FUEL {
                assert(grid_at(grid@, start_point.0 as int, start_point.1 as int).scanned);
            } else {
                assert(grid_at(grid@, start_point.0 as int, start_point.1 as int).scanned);
            }
        }
        pos = (pos.0 + dir.0, pos.1 + dir.1);
        fuel = fuel - 1;
        proof {
            let step = spec_trace_step(g0, prev_pos, prev_dir);
            assert(trace_points(g0, prev_pos, prev_dir, prev_fc, prev_fuel as nat) == (
            match trace_points(g0, pos, dir, first_corner, fuel as nat) {
                Some(rest) => Some(
                    if step.0 is Some {
                        seq![step.0->Some_0] + rest
                    } else {
                        rest
                    },
                ),
                None => None::<Seq<(i32, i32)>>,
            }));
            if trace_points(g0, pos, dir, first_corner, fuel as nat) is Some {
                let rest = trace_points(g0, pos, dir, first_corner, fuel as nat)->Some_0;
                if step.0 is Some {
                    assert((prev_points + seq![step.0->Some_0]) + rest =~= prev_points + (seq![
                        step.0->Some_0,
                    ] + rest));
                }
            }
        }
    }
    Err(GenError::TraceRunaway)
}

/// `(x, y)` can seed an interior trace: a non-walkable, unvisited cell
/// outside the one-cell frame with a walkable 4-neighbor.
pub open spec fn inner_seed_at(g: Seq<Vec<Tile>>, x: int, y: int) -> bool {
    &&& 1 <= x && x + 1 < grid_w(g)
    &&& 1 <= y && y + 1 < grid_h(g)
    &&& !grid_at(g, x, y).scanned
    &&& !grid_at(g, x, y).walkable
    &&& (grid_at(g, x + 1, y).walkable || grid_at(g, x - 1, y).walkable || grid_at(
        g,
        x,
        y + 1,
    ).walkable || grid_at(g, x, y - 1).walkable)
}

/// Looks for the seed of a not-yet-traced interior boundary, scanning the
/// cells in row-major order: the result is the first qualifying cell, and
/// `None` means there is none left.
#[verifier::loop_isolation(false)]
pub fn find_inner_seed(grid: &Grid) -> (r: Option<(usize, usize)>)
    requires
        grid_wf(grid@),
        grid_w(grid@) <= 0x8000,
        grid_h(grid@) <= 0x8000,
    ensures
        r is Some ==> {
            let p = r->Some_0;
            &&& inner_seed_at(grid@, p.0 as int, p.1 as int)
            &&& forall|i: int, j: int|
                (i < p.0 as int || (i == p.0 as int && j < p.1 as int)) ==> !(
                #[trigger] inner_seed_at(grid@, i, j))
        },
        r is None ==> forall|i: int, j: int| !(#[trigger] inner_seed_at(grid@, i, j)),
{
    let w = grid.len();
    let h = grid[0].len();
    if w < 3 || h < 3 {
        return None;
    }
    let mut x: usize = 1;
    while x < w - 1
        invariant
            1 <= x <= w - 1,
            3 <= w,
            3 <= h,
            forall|i: int, j: int| i < x as int ==> !(#[trigger] inner_seed_at(grid@, i, j)),
        decreases w - x,
    {
        let mut y: usize = 1;
        while y < h - 1
            invariant
                1 <= x < w - 1,
                1 <= y <= h - 1,
                forall|i: int, j: int|
                    i < x as int || (i == x as int && j < y as int) ==> !(#[trigger] inner_seed_at(
                        grid@,
                        i,
                        j,
                    )),
            decreases h - y,
        {
            if !grid[x][y].scanned && !grid[x][y].walkable && (grid[x + 1][y].walkable || grid[x
                - 1][y].walkable || grid[x][y + 1].walkable || grid[x][y - 1].walkable) {
                proof {
                    assert(inner_seed_at(grid@, x as int, y as int));
                }
                return Some((x, y));
            }
            y = y + 1;
        }
        x = x + 1;
    }
    None
}

/// Finds the outer boundary polygon and every interior-hole polygon of the
/// grid's walkable region.
///
/// The outer trace is seeded by scanning inward along the grid's vertical
/// midline; interior traces are seeded from unvisited non-walkable cells
/// adjacent to walkable ones. Exactly the first polygon is flagged outer.
#[verifier::loop_isolation(false)]
pub fn find_oob_polygons(grid: &mut Grid) -> (r: Result<Vec<Shape>, GenError>)
    requires
        grid_wf(old(grid)@),
        grid_w(old(grid)@) <= 0x8000,
        grid_h(old(grid)@) <= 0x8000,
    ensures
        grid_wf(final(grid)@),
        only_scanned_set(old(grid)@, final(grid)@),
        r is Err ==> (r->Err_0 == GenError::ContourSeedNotFound || r->Err_0
            == GenError::ContourTouchesFrame || r->Err_0 == GenError::TraceRunaway),
        // the seed scan fails exactly when the midline holds no walkable tile
        (r is Err && r->Err_0 == GenError::ContourSeedNotFound) <==> !row_has_walkable(
            old(grid)@,
            grid_h(old(grid)@) / 2,
        ),
        // on success no untraced interior boundary remains: every hole has
        // been given a polygon
        r is Ok ==> forall|i: int, j: int| !(#[trigger] inner_seed_at(final(grid)@, i, j)),
        r is Ok ==> {
            let shapes = r->Ok_0;
            &&& shapes@.len() >= 1
            &&& shapes@[0].inner_if_true == false
            &&& forall|i: int| 1 <= i < shapes@.len() ==> (#[trigger] shapes@[i]).inner_if_true == true
            &&& forall|i: int| 0 <= i < shapes@.len() ==> rectilinear((#[trigger] shapes@[i]).points@)
            &&& forall|i: int|
                0 <= i < shapes@.len() ==> points_in_pixel_box(
                    (#[trigger] shapes@[i]).points@,
                    grid_w(old(grid)@),
                    grid_h(old(grid)@),
                )
            &&& forall|i: int| 0 <= i < shapes@.len() ==> on_lattice((#[trigger] shapes@[i]).points@)
            // the outer polygon is exactly the walk seeded one cell before
            // the first walkable tile of the midline, headed down
            &&& exists|x0: int|
                {
                    &&& 1 <= x0 < grid_w(old(grid)@)
                    &&& (#[trigger] grid_at(old(grid)@, x0, grid_h(old(grid)@) / 2)).walkable
                    &&& forall|x2: int|
                        0 <= x2 < x0 ==> !(#[trigger] grid_at(
                            old(grid)@,
                            x2,
                            grid_h(old(grid)@) / 2,
                        )).walkable
                    &&& trace_points(
                        old(grid)@,
                        ((x0 - 1) as i32, (grid_h(old(grid)@) / 2) as i32),
                        (0i32, 1i32),
                        None::<(i32, i32)>,
                        TRACE_FUEL as nat,
                    ) == Some(shapes@[0].points@)
                }
        },
{
    let w = grid.len();
    let h = grid[0].len();
    let y_mid = h / 2;
    let mut x: usize = 0;
    while x < w && !grid[x][y_mid].walkable
        invariant
            x <= w,
            y_mid < h,
            forall|x2: int|
                0 <= x2 < x as int ==> !(#[trigger] grid_at(grid@, x2, y_mid as int)).walkable,
        decreases w - x,
    {
        x = x + 1;
    }
    if x >= w {
        proof {
            assert(!row_has_walkable(grid@, grid_h(grid@) / 2));
        }
        return Err(GenError::ContourSeedNotFound);
    }
    proof {
        assert(grid_at(grid@, x as int, y_mid as int).walkable);
        assert(row_has_walkable(grid@, grid_h(grid@) / 2));
    }
    if x == 0 {
        return Err(GenError::ContourTouchesFrame);
    }

    let ghost g0 = old(grid)@;
    let ghost x0 = x as int;
    let mut shapes: Vec<Shape> = Vec::new();
    let outer = match find_oob_polygone(((x - 1) as i32, y_mid as i32), grid, (0, 1)) {
        Ok(points) => points,
        Err(e) => {
            return Err(e);
        },
    };
    shapes.push(Shape { points: outer, inner_if_true: false });

    // each interior trace marks its seed visited, so there can be no more
    // traces than cells of the largest grid
    let mut restarts: u64 = 0x40000001;
    while restarts > 0
        invariant
            grid_wf(grid@),
            only_scanned_set(g0, grid@),
            grid_w(grid@) == w as int,
            grid_h(grid@) == h as int,
            w as int <= 0x8000,
            h as int <= 0x8000,
            shapes@.len() >= 1,
            shapes@[0].inner_if_true == false,
            forall|i: int| 1 <= i < shapes@.len() ==> (#[trigger] shapes@[i]).inner_if_true == true,
            forall|i: int| 0 <= i < shapes@.len() ==> rectilinear((#[trigger] shapes@[i]).points@),
            forall|i: int|
                0 <= i < shapes@.len() ==> points_in_pixel_box(
                    (#[trigger] shapes@[i]).points@,
                    w as int,
                    h as int,
                ),
            forall|i: int| 0 <= i < shapes@.len() ==> on_lattice((#[trigger] shapes@[i]).points@),
            1 <= x0 < grid_w(g0),
            grid_at(g0, x0, grid_h(g0) / 2).walkable,
            forall|x2: int|
                0 <= x2 < x0 ==> !(#[trigger] grid_at(g0, x2, grid_h(g0) / 2)).walkable,
            trace_points(
                g0,
                ((x0 - 1) as i32, (grid_h(g0) / 2) as i32),
                (0i32, 1i32),
                None::<(i32, i32)>,
                TRACE_FUEL as nat,
            ) == Some(shapes@[0].points@),
        decreases restarts,
    {
        let seed = find_inner_seed(grid);
        if let Some(p) = seed {
            let inner = match find_oob_polygone((p.0 as i32, p.1 as i32), grid, (0, -1)) {
                Ok(points) => points,
                Err(e) => {
                    return Err(e);
                },
            };
            shapes.push(Shape { points: inner, inner_if_true: true });
        } else {
            return Ok(shapes);
        }
        restarts = restarts - 1;
    }
    Err(GenError::TraceRunaway)
}

} // verus!
