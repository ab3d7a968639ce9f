//! The seeded random-walk layout generator: stamps floor rectangles into the
//! grid, walking from the current center towards the edge of the carved area
//! before each stamp.

use vstd::prelude::*;
use rand_chacha::ChaCha8Rng;
use crate::floor_pattern::FloorPattern;
use crate::floor_pattern::dir_unit;
use crate::floor_pattern::pattern_wf;
use crate::rng::gen_range_i32;
use crate::tiles::Grid;
use crate::tiles::Tile;
use crate::tiles::TileType;
use crate::tiles::draw_rectangle;
use crate::tiles::grid_at;
use crate::tiles::grid_h;
use crate::tiles::grid_in;
use crate::tiles::grid_w;
use crate::tiles::grid_wf;
use crate::tiles::same_dims;
use crate::tiles::stamped;
use crate::tiles::in_rect;

verus! {

/// The walk may take one more step from `pos` along `dir`: it stays strictly
/// inside a one-tile safety margin on every side, and the next tile is
/// walkable.
pub open spec fn edge_step_ok(g: Seq<Vec<Tile>>, pos: (i32, i32), dir: (i32, i32)) -> bool {
    &&& pos.0 + 1 < grid_w(g)
    &&& pos.1 + 1 < grid_h(g)
    &&& pos.0 - 1 > 0
    &&& pos.1 - 1 > 0
    &&& grid_at(g, pos.0 + dir.0, pos.1 + dir.1).walkable
}

/// Bound on the remaining walk length from `pos` along `dir`.
pub open spec fn edge_walk_fuel(g: Seq<Vec<Tile>>, pos: (i32, i32), dir: (i32, i32)) -> int {
    if dir.0 == 1 {
        grid_w(g) - pos.0
    } else if dir.0 == -1 {
        pos.0 as int
    } else if dir.1 == 1 {
        grid_h(g) - pos.1
    } else {
        pos.1 as int
    }
}

/// The point where the walk from `pos` along `dir` stops: the last position
/// reached by repeatedly stepping while the next tile is walkable and the
/// safety margin is not hit.
pub open spec fn edge_walk(g: Seq<Vec<Tile>>, pos: (i32, i32), dir: (i32, i32)) -> (i32, i32)
    decreases edge_walk_fuel(g, pos, dir),
{
    if dir_unit(dir) && grid_w(g) <= 0x8000 && grid_h(g) <= 0x8000 && edge_step_ok(g, pos, dir) {
        edge_walk(g, ((pos.0 + dir.0) as i32, (pos.1 + dir.1) as i32), dir)
    } else {
        pos
    }
}

/// Walks tile by tile from `previous_center` along `direction` while the
/// next tile is walkable, stopping at a one-tile safety margin from the grid
/// boundary.
#[verifier::loop_isolation(false)]
pub fn find_point_on_edge(grid: &Grid, previous_center: (i32, i32), direction: (i32, i32)) -> (r: (
    i32,
    i32,
))
    requires
        grid_wf(grid@),
        dir_unit(direction),
        grid_w(grid@) <= 0x8000,
        grid_h(grid@) <= 0x8000,
        -0x8000 <= previous_center.0 <= 0x8000,
        -0x8000 <= previous_center.1 <= 0x8000,
    ensures
        r == edge_walk(grid@, previous_center, direction),
        -0x8000 <= r.0 <= 0x8000,
        -0x8000 <= r.1 <= 0x8000,
{
    let w = grid.len();
    let h = grid[0].len();
    let mut current_position = previous_center;
    while current_position.0 + 1 < w as i32 && current_position.1 + 1 < h as i32
        && current_position.0 - 1 > 0 && current_position.1 - 1 > 0 && grid[(current_position.0
        + direction.0) as usize][(current_position.1 + direction.1) as usize].walkable
        invariant
            -0x8000 <= current_position.0 <= 0x8000,
            -0x8000 <= current_position.1 <= 0x8000,
            edge_walk(grid@, current_position, direction) == edge_walk(
                grid@,
                previous_center,
                direction,
            ),
        decreases edge_walk_fuel(grid@, current_position, direction),
    {
        current_position = (current_position.0 + direction.0, current_position.1 + direction.1);
    }
    current_position
}

/// The smallest rectangle edge the pattern can sample: the rounded product
/// of the area edge with the lower ratio bound.
pub open spec fn min_rect_edge(p: FloorPattern) -> int {
    (p.generation_area_size.0 * p.rng_range_multiplicator_rectangle_size.0 + 500) / 1000
}

/// Samples one rectangle edge length: `round(area * v / 1000)` for a ratio
/// `v` drawn uniformly from the pattern's rectangle-size range.
fn sample_rect_edge(rng: &mut ChaCha8Rng, biome: &FloorPattern) -> (e: i32)
    requires
        pattern_wf(*biome),
    ensures
        0 <= e <= biome.generation_area_size.0,
        min_rect_edge(*biome) <= e,
{
    let v = gen_range_i32(
        rng,
        biome.rng_range_multiplicator_rectangle_size.0,
        biome.rng_range_multiplicator_rectangle_size.1,
    );
    let area = biome.generation_area_size.0;
    proof {
        assert(area * v <= area * 1000) by (nonlinear_arith)
            requires
                v <= 1000,
                0 < area,
        ;
        assert(area * v >= 0) by (nonlinear_arith)
            requires
                v >= 0,
                0 < area,
        ;
        assert((area * v + 500) / 1000 <= area) by (nonlinear_arith)
            requires
                area * v <= area * 1000,
                0 < area,
        ;
        assert(area * biome.rng_range_multiplicator_rectangle_size.0 <= area * v)
            by (nonlinear_arith)
            requires
                biome.rng_range_multiplicator_rectangle_size.0 <= v,
                0 < area,
        ;
        assert((area * biome.rng_range_multiplicator_rectangle_size.0 + 500) / 1000 <= (area * v
            + 500) / 1000) by (nonlinear_arith)
            requires
                area * biome.rng_range_multiplicator_rectangle_size.0 <= area * v,
        ;
    }
    (area * v + 500) / 1000
}

/// Every cell is either untouched or has been stamped to walkable,
/// spawnable floor.
pub open spec fn only_floor_added(a: Seq<Vec<Tile>>, b: Seq<Vec<Tile>>) -> bool {
    forall|i: int, j: int|
        grid_in(a, i, j) ==> (grid_at(b, i, j) == grid_at(a, i, j) || grid_at(b, i, j) == stamped(
            grid_at(a, i, j),
            TileType::Floor,
            true,
            true,
        ))
}

/// Carves one biome phase: stamps a floor rectangle at the current center,
/// then repeatedly walks towards the edge of the carved area and stamps
/// further rectangles, and returns the final center.
#[verifier::loop_isolation(false)]
pub fn generate_walkable_layout(
    grid: &mut Grid,
    biome: &FloorPattern,
    rng: &mut ChaCha8Rng,
    start_center: (i32, i32),
) -> (center: (i32, i32))
    requires
        grid_wf(old(grid)@),
        pattern_wf(*biome),
        grid_w(old(grid)@) <= 0x8000,
        grid_h(old(grid)@) <= 0x8000,
        -0x8000 <= start_center.0 <= 0x8000,
        -0x8000 <= start_center.1 <= 0x8000,
    ensures
        grid_wf(final(grid)@),
        same_dims(old(grid)@, final(grid)@),
        only_floor_added(old(grid)@, final(grid)@),
        -0x8000 <= center.0 <= 0x8000,
        -0x8000 <= center.1 <= 0x8000,
        // the whole first rectangle, at its smallest possible size, is
        // stamped walkable around the start center
        min_rect_edge(*biome) >= 1 ==> forall|i: int, j: int|
            grid_in(old(grid)@, i, j) && in_rect(
                ((min_rect_edge(*biome)) as i32, (min_rect_edge(*biome)) as i32),
                start_center,
                i,
                j,
            ) ==> (#[trigger] grid_at(final(grid)@, i, j)).walkable,
        grid_in(old(grid)@, start_center.0 as int, start_center.1 as int) && min_rect_edge(*biome)
            >= 1 ==> grid_at(final(grid)@, start_center.0 as int, start_center.1 as int).walkable,
        // the cell at the returned center received the last stamp
        grid_in(old(grid)@, center.0 as int, center.1 as int) && min_rect_edge(*biome) >= 1
            ==> grid_at(final(grid)@, center.0 as int, center.1 as int).walkable,
{
    let w0 = sample_rect_edge(rng, biome);
    let h0 = sample_rect_edge(rng, biome);
    draw_rectangle(grid, TileType::Floor, (w0, h0), start_center, true, true);
    proof {
        if min_rect_edge(*biome) >= 1 {
            let e = min_rect_edge(*biome);
            assert forall|i: int, j: int|
                grid_in(old(grid)@, i, j) && in_rect(
                    (e as i32, e as i32),
                    start_center,
                    i,
                    j,
                ) implies (#[trigger] grid_at(grid@, i, j)).walkable by {
                // the sampled rectangle contains the minimum-size one
                assert(e / 2 <= w0 / 2 && e / 2 <= h0 / 2);
                assert(e - e / 2 <= w0 - w0 / 2 && e - e / 2 <= h0 - h0 / 2);
                assert(in_rect((w0, h0), start_center, i, j));
            }
            if grid_in(old(grid)@, start_center.0 as int, start_center.1 as int) {
                assert(in_rect(
                    (w0, h0),
                    start_center,
                    start_center.0 as int,
                    start_center.1 as int,
                ));
                assert(grid_at(grid@, start_center.0 as int, start_center.1 as int).walkable);
            }
        }
    }

    let mut center: (i32, i32) = start_center;
    let changes = gen_range_i32(
        rng,
        biome.rng_range_number_of_direction_changes.0,
        biome.rng_range_number_of_direction_changes.1,
    );
    let mut c: i32 = 0;
    while c < changes
        invariant
            grid_wf(grid@),
            same_dims(old(grid)@, grid@),
            only_floor_added(old(grid)@, grid@),
            -0x8000 <= center.0 <= 0x8000,
            -0x8000 <= center.1 <= 0x8000,
            min_rect_edge(*biome) >= 1 ==> forall|i: int, j: int|
                grid_in(old(grid)@, i, j) && in_rect(
                    ((min_rect_edge(*biome)) as i32, (min_rect_edge(*biome)) as i32),
                    start_center,
                    i,
                    j,
                ) ==> (#[trigger] grid_at(grid@, i, j)).walkable,
            grid_in(old(grid)@, center.0 as int, center.1 as int) && min_rect_edge(*biome) >= 1
                ==> grid_at(grid@, center.0 as int, center.1 as int).walkable,
        decreases changes - c,
    {
        let iterations = gen_range_i32(
            rng,
            biome.rng_range_direction_repeat.0,
            biome.rng_range_direction_repeat.1,
        );
        let mut it: i32 = 0;
        while it < iterations
            invariant
                grid_wf(grid@),
                same_dims(old(grid)@, grid@),
                only_floor_added(old(grid)@, grid@),
                -0x8000 <= center.0 <= 0x8000,
                -0x8000 <= center.1 <= 0x8000,
                min_rect_edge(*biome) >= 1 ==> forall|i: int, j: int|
                    grid_in(old(grid)@, i, j) && in_rect(
                        ((min_rect_edge(*biome)) as i32, (min_rect_edge(*biome)) as i32),
                        start_center,
                        i,
                        j,
                    ) ==> (#[trigger] grid_at(grid@, i, j)).walkable,
                grid_in(old(grid)@, center.0 as int, center.1 as int) && min_rect_edge(*biome) >= 1
                    ==> grid_at(grid@, center.0 as int, center.1 as int).walkable,
            decreases iterations - it,
        {
            let idx = gen_range_i32(rng, 0, biome.allowed_directions.len() as i32);
            let direction = biome.allowed_directions[idx as usize];
            center = find_point_on_edge(grid, center, direction);
            let rw = sample_rect_edge(rng, biome);
            let rh = sample_rect_edge(rng, biome);
            draw_rectangle(grid, TileType::Floor, (rw, rh), center, true, true);
            it = it + 1;
        }
        c = c + 1;
    }
    center
}

} // verus!
