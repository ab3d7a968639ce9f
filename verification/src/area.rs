//! The generation pipeline: carve, clean, mark, crop, trace, place — and
//! the assembled output handed to collaborators.

use vstd::prelude::*;
use rand_chacha::ChaCha8Rng;
use crate::autocrop::col_has_walkable;
use crate::autocrop::crop_precondition;
use crate::autocrop::cropped_to;
use crate::autocrop::is_max_walk_col;
use crate::autocrop::is_max_walk_row;
use crate::autocrop::is_min_walk_col;
use crate::autocrop::is_min_walk_row;
use crate::autocrop::lemma_autocrop_minimal;
use crate::autocrop::lemma_crop_shrinks;
use crate::autocrop::lemma_walkable_lines_agree;
use crate::autocrop::resize_grid;
use crate::autocrop::row_has_walkable;
use crate::cleanup::remove_small_cluster;
use crate::contour::Shape;
use crate::contour::find_oob_polygons;
use crate::contour::on_lattice;
use crate::contour::points_in_pixel_box;
use crate::contour::rectilinear;
use crate::errors::GenError;
use crate::floor_pattern::MapPreset;
use crate::floor_pattern::define_floor_patterns;
use crate::floor_pattern::map_wf;
use crate::layout::generate_walkable_layout;
use crate::mobs::Enemy;
use crate::mobs::add_mob_packs;
use crate::mobs::enemy_within_pack;
use crate::mobs::generate_mobs;
use crate::rng::rng_from_seed;
use crate::tiles::Grid;
use crate::tiles::MobPack;
use crate::tiles::TILE_SIZE;
use crate::tiles::Tile;
use crate::tiles::TileType;
use crate::tiles::draw_rectangle;
use crate::tiles::grid_at;
use crate::tiles::grid_h;
use crate::tiles::grid_in;
use crate::tiles::grid_w;
use crate::tiles::grid_wf;
use crate::tiles::init_grid;
use crate::tiles::same_dims;

verus! {

/// The terminal aggregate of one generation run.
pub struct AreaGenerationOutput {
    pub width: u32,
    pub height: u32,
    pub walkable_x: Vec<u32>,
    pub walkable_y: Vec<u32>,
    pub oob_polygons: Vec<Shape>,
    pub player_spawn_position: (i32, i32),
    pub enemies: Vec<Enemy>,
}

/// `(x, y)` occurs as a pair in the parallel coordinate lists.
pub open spec fn listed(xs: Seq<u32>, ys: Seq<u32>, x: int, y: int) -> bool {
    exists|t: int| 0 <= t < xs.len() && (#[trigger] xs[t]) == x && ys[t] == y
}

/// Pair membership survives appending entries.
proof fn lemma_listed_extend(xs1: Seq<u32>, ys1: Seq<u32>, xs2: Seq<u32>, ys2: Seq<u32>)
    requires
        xs1.len() <= xs2.len(),
        ys1.len() == xs1.len(),
        ys2.len() == xs2.len(),
        forall|t: int| 0 <= t < xs1.len() ==> (#[trigger] xs2[t]) == xs1[t],
        forall|t: int| 0 <= t < ys1.len() ==> (#[trigger] ys2[t]) == ys1[t],
    ensures
        forall|x: int, y: int| listed(xs1, ys1, x, y) ==> listed(xs2, ys2, x, y),
{
    assert forall|x: int, y: int| listed(xs1, ys1, x, y) implies listed(xs2, ys2, x, y) by {
        let t = choose|t: int| 0 <= t < xs1.len() && (#[trigger] xs1[t]) == x && ys1[t] == y;
        assert(xs2[t] == xs1[t] && ys2[t] == ys1[t]);
    }
}

/// Walks the grid in row-major order and collects the coordinates of every
/// walkable tile into two parallel lists: the pairs are exactly the
/// walkable tiles, in strictly increasing row-major order.
#[verifier::loop_isolation(false)]
pub fn collect_walkable(grid: &Grid) -> (r: (Vec<u32>, Vec<u32>))
    requires
        grid_wf(grid@),
        grid_w(grid@) <= 0x8000,
        grid_h(grid@) <= 0x8000,
    ensures
        r.0@.len() == r.1@.len(),
        forall|t: int|
            0 <= t < r.0@.len() ==> grid_in(grid@, (#[trigger] r.0@[t]) as int, r.1@[t] as int)
                && grid_at(grid@, r.0@[t] as int, r.1@[t] as int).walkable,
        forall|x: int, y: int|
            grid_in(grid@, x, y) && (#[trigger] grid_at(grid@, x, y)).walkable ==> listed(
                r.0@,
                r.1@,
                x,
                y,
            ),
        forall|t: int|
            1 <= t < r.0@.len() ==> ((#[trigger] r.0@[t - 1]) < r.0@[t] || (r.0@[t - 1] == r.0@[t]
                && r.1@[t - 1] < r.1@[t])),
{
    let w = grid.len();
    let h = grid[0].len();
    let mut xs: Vec<u32> = Vec::new();
    let mut ys: Vec<u32> = Vec::new();
    let mut x: usize = 0;
    while x < w
        invariant
            x <= w,
            xs@.len() == ys@.len(),
            forall|t: int|
                0 <= t < xs@.len() ==> grid_in(grid@, (#[trigger] xs@[t]) as int, ys@[t] as int)
                    && grid_at(grid@, xs@[t] as int, ys@[t] as int).walkable && xs@[t] < x as u32,
            forall|i: int, j: int|
                0 <= i < x as int && 0 <= j < grid_h(grid@) && (#[trigger] grid_at(
                    grid@,
                    i,
                    j,
                )).walkable ==> listed(xs@, ys@, i, j),
            forall|t: int|
                1 <= t < xs@.len() ==> ((#[trigger] xs@[t - 1]) < xs@[t] || (xs@[t - 1] == xs@[t]
                    && ys@[t - 1] < ys@[t])),
        decreases w - x,
    {
        let mut y: usize = 0;
        while y < h
            invariant
                x < w,
                y <= h,
                xs@.len() == ys@.len(),
                forall|t: int|
                    0 <= t < xs@.len() ==> grid_in(grid@, (#[trigger] xs@[t]) as int, ys@[t] as int)
                        && grid_at(grid@, xs@[t] as int, ys@[t] as int).walkable && (xs@[t]
                        < x as u32 || (xs@[t] == x as u32 && ys@[t] < y as u32)),
                forall|i: int, j: int|
                    ((0 <= i < x as int && 0 <= j < grid_h(grid@)) || (i == x as int && 0 <= j
                        < y as int)) && (#[trigger] grid_at(grid@, i, j)).walkable ==> listed(
                        xs@,
                        ys@,
                        i,
                        j,
                    ),
                forall|t: int|
                    1 <= t < xs@.len() ==> ((#[trigger] xs@[t - 1]) < xs@[t] || (xs@[t - 1]
                        == xs@[t] && ys@[t - 1] < ys@[t])),
            decreases h - y,
        {
            if grid[x][y].walkable {
                let ghost xs0 = xs@;
                let ghost ys0 = ys@;
                xs.push(x as u32);
                ys.push(y as u32);
                proof {
                    lemma_listed_extend(xs0, ys0, xs@, ys@);
                    assert(xs@[xs@.len() - 1] == x as u32 && ys@[ys@.len() - 1] == y as u32);
                    assert(listed(xs@, ys@, x as int, y as int));
                    assert(grid_at(grid@, x as int, y as int).walkable);
                }
            }
            y = y + 1;
        }
        x = x + 1;
    }
    (xs, ys)
}

/// `(sx, sy)` is the first tile, in row-major order, carrying the Start
/// category.
pub open spec fn is_first_start(g: Seq<Vec<Tile>>, sx: int, sy: int) -> bool {
    &&& grid_in(g, sx, sy)
    &&& grid_at(g, sx, sy).tile_type == TileType::Start
    &&& forall|i: int, j: int|
        grid_in(g, i, j) && (i < sx || (i == sx && j < sy)) ==> (#[trigger] grid_at(
            g,
            i,
            j,
        )).tile_type != TileType::Start
}

/// There is a Start-category tile somewhere in the grid.
pub open spec fn has_start(g: Seq<Vec<Tile>>) -> bool {
    exists|x: int, y: int| grid_in(g, x, y) && (#[trigger] grid_at(g, x, y)).tile_type == TileType::Start
}

/// Finds the first Start-category tile in row-major order.
#[verifier::loop_isolation(false)]
fn find_start_tile(grid: &Grid) -> (r: Option<(usize, usize)>)
    requires
        grid_wf(grid@),
    ensures
        r is Some ==> is_first_start(grid@, r->Some_0.0 as int, r->Some_0.1 as int),
        r is None ==> !has_start(grid@),
{
    let w = grid.len();
    let h = grid[0].len();
    let mut x: usize = 0;
    while x < w
        invariant
            x <= w,
            forall|i: int, j: int|
                0 <= i < x as int && 0 <= j < grid_h(grid@) ==> (#[trigger] grid_at(
                    grid@,
                    i,
                    j,
                )).tile_type != TileType::Start,
        decreases w - x,
    {
        let mut y: usize = 0;
        while y < h
            invariant
                x < w,
                y <= h,
                forall|i: int, j: int|
                    (0 <= i < x as int && 0 <= j < grid_h(grid@)) || (i == x as int && 0 <= j
                        < y as int) ==> (#[trigger] grid_at(grid@, i, j)).tile_type
                        != TileType::Start,
            decreases h - y,
        {
            if grid[x][y].tile_type == TileType::Start {
                proof {
                    assert(grid_at(grid@, x as int, y as int).tile_type == TileType::Start);
                }
                return Some((x, y));
            }
            y = y + 1;
        }
        x = x + 1;
    }
    None
}

/// Pack placement and flag clearing keep every tile's category and
/// walkability, so the walkable lines, the clear margin and the first
/// Start tile of the grid are unchanged.
proof fn lemma_category_walk_transfer(a: Seq<Vec<Tile>>, b: Seq<Vec<Tile>>)
    requires
        grid_wf(a),
        same_dims(a, b),
        forall|x: int, y: int|
            grid_in(a, x, y) ==> (#[trigger] grid_at(b, x, y)).tile_type == grid_at(
                a,
                x,
                y,
            ).tile_type && grid_at(b, x, y).walkable == grid_at(a, x, y).walkable,
    ensures
        forall|c: int| #[trigger] is_min_walk_col(b, c) <==> is_min_walk_col(a, c),
        forall|c: int| #[trigger] is_max_walk_col(b, c) <==> is_max_walk_col(a, c),
        forall|c: int| #[trigger] is_min_walk_row(b, c) <==> is_min_walk_row(a, c),
        forall|c: int| #[trigger] is_max_walk_row(b, c) <==> is_max_walk_row(a, c),
        forall|sx: int, sy: int| #[trigger] is_first_start(b, sx, sy) <==> is_first_start(a, sx, sy),
        has_start(b) <==> has_start(a),
{
    lemma_walkable_lines_agree(a, b);
    assert forall|c: int| #[trigger] is_min_walk_col(b, c) <==> is_min_walk_col(a, c) by {
        if 0 <= c < grid_w(a) {
            assert forall|c2: int| 0 <= c2 < grid_w(a) implies ((#[trigger] col_has_walkable(
                b,
                c2,
            )) <==> col_has_walkable(a, c2)) by {}
        }
    }
    assert forall|c: int| #[trigger] is_max_walk_col(b, c) <==> is_max_walk_col(a, c) by {
        if 0 <= c < grid_w(a) {
            assert forall|c2: int| 0 <= c2 < grid_w(a) implies ((#[trigger] col_has_walkable(
                b,
                c2,
            )) <==> col_has_walkable(a, c2)) by {}
        }
    }
    assert forall|c: int| #[trigger] is_min_walk_row(b, c) <==> is_min_walk_row(a, c) by {
        if 0 <= c < grid_h(a) {
            assert forall|c2: int| 0 <= c2 < grid_h(a) implies ((#[trigger] row_has_walkable(
                b,
                c2,
            )) <==> row_has_walkable(a, c2)) by {}
        }
    }
    assert forall|c: int| #[trigger] is_max_walk_row(b, c) <==> is_max_walk_row(a, c) by {
        if 0 <= c < grid_h(a) {
            assert forall|c2: int| 0 <= c2 < grid_h(a) implies ((#[trigger] row_has_walkable(
                b,
                c2,
            )) <==> row_has_walkable(a, c2)) by {}
        }
    }
    assert forall|sx: int, sy: int| #[trigger] is_first_start(b, sx, sy) <==> is_first_start(
        a,
        sx,
        sy,
    ) by {
        if is_first_start(a, sx, sy) {
            assert forall|i: int, j: int|
                grid_in(b, i, j) && (i < sx || (i == sx && j < sy)) implies (#[trigger] grid_at(
                b,
                i,
                j,
            )).tile_type != TileType::Start by {
                assert(grid_at(a, i, j).tile_type != TileType::Start);
            }
        }
        if is_first_start(b, sx, sy) {
            assert forall|i: int, j: int|
                grid_in(a, i, j) && (i < sx || (i == sx && j < sy)) implies (#[trigger] grid_at(
                a,
                i,
                j,
            )).tile_type != TileType::Start by {
                assert(grid_at(b, i, j).tile_type != TileType::Start);
            }
        }
    }
    assert(has_start(b) <==> has_start(a)) by {
        if has_start(a) {
            let (hx, hy) = choose|hx: int, hy: int|
                grid_in(a, hx, hy) && (#[trigger] grid_at(a, hx, hy)).tile_type == TileType::Start;
            assert(grid_at(b, hx, hy).tile_type == TileType::Start);
        }
        if has_start(b) {
            let (hx, hy) = choose|hx: int, hy: int|
                grid_in(b, hx, hy) && (#[trigger] grid_at(b, hx, hy)).tile_type == TileType::Start;
            assert(grid_at(a, hx, hy).tile_type == TileType::Start);
        }
    }
}

/// Generates one map grid: carves the walkable layout biome by biome,
/// cleans small pockets, stamps the Start and Boss areas, crops the grid to
/// its minimal bounding box and places the monster packs. Returns the grid,
/// the player spawn pixel position, and the packs.
///
/// A layout whose walkable region cannot satisfy the crop margins is a
/// fatal precondition violation and aborts the run.
/// Every tile carrying the Start or Boss category is walkable: the marker
/// stamps always paint walkable floor.
pub open spec fn marks_walkable(g: Seq<Vec<Tile>>) -> bool {
    forall|x: int, y: int|
        grid_in(g, x, y) && ((#[trigger] grid_at(g, x, y)).tile_type == TileType::Start || grid_at(
            g,
            x,
            y,
        ).tile_type == TileType::Boss) ==> grid_at(g, x, y).walkable
}

/// Carves the walkable layout biome by biome, cleans small pockets, stamps
/// the Start and Boss areas, and crops the grid to its minimal bounding
/// box. Fails only when the crop margins cannot be satisfied.
#[verifier::loop_isolation(false)]
#[verifier::rlimit(60)]
fn carve_and_crop(rng: &mut ChaCha8Rng, map: &MapPreset, grid_size: i32) -> (r: Result<
    Grid,
    GenError,
>)
    requires
        map_wf(*map),
        32 <= grid_size <= 0x4000,
    ensures
        r is Ok ==> {
            &&& grid_wf(r->Ok_0@)
            &&& grid_w(r->Ok_0@) <= grid_size as int
            &&& grid_h(r->Ok_0@) <= grid_size as int
            &&& is_min_walk_col(r->Ok_0@, 4)
            &&& is_max_walk_col(r->Ok_0@, grid_w(r->Ok_0@) - 5)
            &&& is_min_walk_row(r->Ok_0@, 4)
            &&& is_max_walk_row(r->Ok_0@, grid_h(r->Ok_0@) - 5)
            &&& marks_walkable(r->Ok_0@)
        },
        r is Err ==> r->Err_0 == GenError::CropPreconditionViolated,
{
    let oob_tiletype = map.oob_type;
    let mut grid: Grid = init_grid(grid_size, grid_size, oob_tiletype);
    let mut center: (i32, i32) = (grid_size / 2, grid_size / 2);
    let map_start = center;

    let n_biomes = map.biomes.len();
    let mut i: usize = 0;
    while i < n_biomes
        invariant
            i <= n_biomes,
            n_biomes == map.biomes@.len(),
            grid_wf(grid@),
            grid_w(grid@) == grid_size as int,
            grid_h(grid@) == grid_size as int,
            -0x8000 <= center.0 <= 0x8000,
            -0x8000 <= center.1 <= 0x8000,
            forall|px: int, py: int|
                grid_in(grid@, px, py) ==> (#[trigger] grid_at(grid@, px, py)).tile_type
                    != TileType::Start && grid_at(grid@, px, py).tile_type != TileType::Boss,
        decreases n_biomes - i,
    {
        let ghost g_pre = grid@;
        center = generate_walkable_layout(&mut grid, &map.biomes[i], rng, center);
        proof {
            assert forall|px: int, py: int| grid_in(grid@, px, py) implies (#[trigger] grid_at(
                grid@,
                px,
                py,
            )).tile_type != TileType::Start && grid_at(grid@, px, py).tile_type
                != TileType::Boss by {
                assert(grid_at(grid@, px, py) == grid_at(g_pre, px, py) || grid_at(grid@, px, py)
                    == crate::tiles::stamped(grid_at(g_pre, px, py), TileType::Floor, true, true));
            }
        }
        i = i + 1;
    }

    let ghost g_c0 = grid@;
    remove_small_cluster(&mut grid, oob_tiletype, 4, false, true);
    let ghost g_c1 = grid@;
    remove_small_cluster(&mut grid, oob_tiletype, 4, true, false);
    let ghost g_c2 = grid@;
    remove_small_cluster(&mut grid, oob_tiletype, 4, false, true);
    proof {
        // the cleanup passes only stamp Floor, so the marker categories
        // still occur nowhere
        assert forall|px: int, py: int| grid_in(grid@, px, py) implies (#[trigger] grid_at(
            grid@,
            px,
            py,
        )).tile_type != TileType::Start && grid_at(grid@, px, py).tile_type != TileType::Boss by {
            assert(grid_at(g_c1, px, py).tile_type == grid_at(g_c0, px, py).tile_type || grid_at(
                g_c1,
                px,
                py,
            ).tile_type == TileType::Floor);
            assert(grid_at(g_c2, px, py).tile_type == grid_at(g_c1, px, py).tile_type || grid_at(
                g_c2,
                px,
                py,
            ).tile_type == TileType::Floor);
            assert(grid_at(grid@, px, py).tile_type == grid_at(g_c2, px, py).tile_type || grid_at(
                grid@,
                px,
                py,
            ).tile_type == TileType::Floor);
        }
    }

    let ghost g_s0 = grid@;
    draw_rectangle(&mut grid, TileType::Start, (5, 5), map_start, true, false);
    let ghost g_s1 = grid@;
    draw_rectangle(&mut grid, TileType::Boss, (1, 1), center, true, true);
    proof {
        assert forall|px: int, py: int|
            grid_in(grid@, px, py) && ((#[trigger] grid_at(grid@, px, py)).tile_type
                == TileType::Start || grid_at(grid@, px, py).tile_type == TileType::Boss) implies
            grid_at(grid@, px, py).walkable by {
            assert(grid_in(g_s0, px, py));
        }
        assert(marks_walkable(grid@));
    }

    if !crop_precondition(&grid, 4) {
        return Err(GenError::CropPreconditionViolated);
    }
    let ghost g_before_crop = grid@;
    resize_grid(&mut grid, 4);
    proof {
        lemma_crop_shrinks(g_before_crop, grid@, 4);
        lemma_autocrop_minimal(g_before_crop, grid@, 4);
        // the crop copies tiles, so the marker stamps stay walkable
        let (lox, hix, loy, hiy) = choose|lox: int, hix: int, loy: int, hiy: int|
            #[trigger] cropped_to(g_before_crop, grid@, 4, lox, hix, loy, hiy);
        assert forall|px: int, py: int|
            grid_in(grid@, px, py) && ((#[trigger] grid_at(grid@, px, py)).tile_type
                == TileType::Start || grid_at(grid@, px, py).tile_type == TileType::Boss) implies
            grid_at(grid@, px, py).walkable by {
            assert(grid_at(grid@, px, py) == grid_at(g_before_crop, px + lox - 4, py + loy - 4));
        }
        assert(marks_walkable(grid@));
    }
    Ok(grid)
}

#[verifier::loop_isolation(false)]
#[verifier::rlimit(60)]
pub fn generate_map_sized(rng: &mut ChaCha8Rng, map: &MapPreset, grid_size: i32) -> (r: Result<
    (Grid, (i32, i32), Vec<MobPack>),
    GenError,
>)
    requires
        map_wf(*map),
        32 <= grid_size <= 0x4000,
    ensures
        r is Ok ==> {
            &&& grid_wf(r->Ok_0.0@)
            &&& grid_w(r->Ok_0.0@) <= 0x8000
            &&& grid_h(r->Ok_0.0@) <= 0x8000
            &&& forall|t: int|
                0 <= t < r->Ok_0.2@.len() ==> (#[trigger] r->Ok_0.2@[t]).tile_coords.0 < 0x8000
                    && r->Ok_0.2@[t].tile_coords.1 < 0x8000 && r->Ok_0.2@[t].tile_coords.0 + 1
                    < grid_w(r->Ok_0.0@) && r->Ok_0.2@[t].tile_coords.1 + 1 < grid_h(r->Ok_0.0@)
            &&& is_min_walk_col(r->Ok_0.0@, 4)
            &&& is_max_walk_col(r->Ok_0.0@, grid_w(r->Ok_0.0@) - 5)
            &&& is_min_walk_row(r->Ok_0.0@, 4)
            &&& is_max_walk_row(r->Ok_0.0@, grid_h(r->Ok_0.0@) - 5)
            &&& forall|x: int, y: int|
                grid_in(r->Ok_0.0@, x, y) ==> !(#[trigger] grid_at(r->Ok_0.0@, x, y)).scanned
            &&& marks_walkable(r->Ok_0.0@)
            &&& (exists|sx: int, sy: int|
                #[trigger] is_first_start(r->Ok_0.0@, sx, sy) && r->Ok_0.1 == ((sx * (
                TILE_SIZE as int) - (TILE_SIZE as int) / 2) as i32, (sy * (TILE_SIZE as int) - (
                TILE_SIZE as int) / 2) as i32)) || (!has_start(r->Ok_0.0@) && r->Ok_0.1 == ((0 - (
            TILE_SIZE as int) / 2) as i32, (0 - (TILE_SIZE as int) / 2) as i32))
        },
        r is Err ==> r->Err_0 == GenError::CropPreconditionViolated,
{
    let mut grid: Grid = match carve_and_crop(rng, map, grid_size) {
        Ok(g) => g,
        Err(e) => {
            return Err(e);
        },
    };

    let start_tile = find_start_tile(&grid);
    let player_spawn_position: (i32, i32) = match start_tile {
        Some(s) => {
            let sx = s.0 as i32;
            let sy = s.1 as i32;
            ((sx * TILE_SIZE) - (TILE_SIZE / 2), (sy * TILE_SIZE) - (TILE_SIZE / 2))
        },
        None => (-(TILE_SIZE / 2), -(TILE_SIZE / 2)),
    };

    let ghost g_mid = grid@;
    let mob_packs = add_mob_packs(&mut grid, rng, map.density);
    proof {
        lemma_category_walk_transfer(g_mid, grid@);
        assert forall|x: int, y: int|
            grid_in(grid@, x, y) && ((#[trigger] grid_at(grid@, x, y)).tile_type
                == TileType::Start || grid_at(grid@, x, y).tile_type == TileType::Boss) implies
            grid_at(grid@, x, y).walkable by {
            assert(grid_at(g_mid, x, y).walkable);
        }
        assert(marks_walkable(grid@));
        assert(is_min_walk_col(grid@, 4));
        assert(is_max_walk_col(grid@, grid_w(grid@) - 5));
        assert(is_min_walk_row(grid@, 4));
        assert(is_max_walk_row(grid@, grid_h(grid@) - 5));
        if let Some(s) = start_tile {
            assert(is_first_start(grid@, s.0 as int, s.1 as int));
        }
    }

    Ok((grid, player_spawn_position, mob_packs))
}

/// The standard pipeline: a 1500 x 1500 generation grid.
pub fn generate_map(rng: &mut ChaCha8Rng, map: &MapPreset) -> (r: Result<
    (Grid, (i32, i32), Vec<MobPack>),
    GenError,
>)
    requires
        map_wf(*map),
    ensures
        r is Ok ==> {
            &&& grid_wf(r->Ok_0.0@)
            &&& grid_w(r->Ok_0.0@) <= 0x8000
            &&& grid_h(r->Ok_0.0@) <= 0x8000
            &&& forall|t: int|
                0 <= t < r->Ok_0.2@.len() ==> (#[trigger] r->Ok_0.2@[t]).tile_coords.0 < 0x8000
                    && r->Ok_0.2@[t].tile_coords.1 < 0x8000 && r->Ok_0.2@[t].tile_coords.0 + 1
                    < grid_w(r->Ok_0.0@) && r->Ok_0.2@[t].tile_coords.1 + 1 < grid_h(r->Ok_0.0@)
            &&& is_min_walk_col(r->Ok_0.0@, 4)
            &&& is_max_walk_col(r->Ok_0.0@, grid_w(r->Ok_0.0@) - 5)
            &&& is_min_walk_row(r->Ok_0.0@, 4)
            &&& is_max_walk_row(r->Ok_0.0@, grid_h(r->Ok_0.0@) - 5)
            &&& forall|x: int, y: int|
                grid_in(r->Ok_0.0@, x, y) ==> !(#[trigger] grid_at(r->Ok_0.0@, x, y)).scanned
            &&& marks_walkable(r->Ok_0.0@)
            &&& (exists|sx: int, sy: int|
                #[trigger] is_first_start(r->Ok_0.0@, sx, sy) && r->Ok_0.1 == ((sx * (
                TILE_SIZE as int) - (TILE_SIZE as int) / 2) as i32, (sy * (TILE_SIZE as int) - (
                TILE_SIZE as int) / 2) as i32)) || (!has_start(r->Ok_0.0@) && r->Ok_0.1 == ((0 - (
            TILE_SIZE as int) / 2) as i32, (0 - (TILE_SIZE as int) / 2) as i32))
        },
        r is Err ==> r->Err_0 == GenError::CropPreconditionViolated,
{
    generate_map_sized(rng, map, 1500)
}

/// Runs one full generation: selects the map preset at `map_index`, seeds
/// the pseudo-random stream with `seed`, generates and crops the grid,
/// traces the boundary polygons, places enemies, and assembles the output.
///
/// An out-of-range map index fails fast, before any grid is allocated;
/// every other failure reflects a layout the pipeline's later stages
/// cannot process.
pub fn generate_area(map_index: usize, seed: u64) -> (r: Result<AreaGenerationOutput, GenError>)
    ensures
        (r is Err && r->Err_0 == GenError::MapIndexOutOfRange) <==> map_index >= 5,
        r is Ok ==> {
            let out = r->Ok_0;
            &&& out.walkable_x@.len() == out.walkable_y@.len()
            &&& out.width >= 1 && out.height >= 1
            &&& forall|t: int|
                0 <= t < out.walkable_x@.len() ==> (#[trigger] out.walkable_x@[t]) < out.width
                    && out.walkable_y@[t] < out.height
            &&& forall|t: int|
                0 <= t < out.walkable_x@.len() ==> 4 <= (#[trigger] out.walkable_x@[t])
                    && out.walkable_x@[t] + 4 < out.width && 4 <= out.walkable_y@[t]
                    && out.walkable_y@[t] + 4 < out.height
            &&& forall|t: int|
                1 <= t < out.walkable_x@.len() ==> ((#[trigger] out.walkable_x@[t - 1])
                    < out.walkable_x@[t] || (out.walkable_x@[t - 1] == out.walkable_x@[t]
                    && out.walkable_y@[t - 1] < out.walkable_y@[t]))
            &&& out.oob_polygons@.len() >= 1
            &&& out.oob_polygons@[0].inner_if_true == false
            &&& forall|i: int|
                1 <= i < out.oob_polygons@.len() ==> (#[trigger] out.oob_polygons@[i]).inner_if_true
                    == true
            &&& forall|i: int|
                0 <= i < out.oob_polygons@.len() ==> rectilinear(
                    (#[trigger] out.oob_polygons@[i]).points@,
                )
            &&& forall|i: int|
                0 <= i < out.oob_polygons@.len() ==> points_in_pixel_box(
                    (#[trigger] out.oob_polygons@[i]).points@,
                    out.width as int,
                    out.height as int,
                )
            &&& forall|i: int|
                0 <= i < out.oob_polygons@.len() ==> on_lattice(
                    (#[trigger] out.oob_polygons@[i]).points@,
                )
            &&& forall|e: int|
                0 <= e < out.enemies@.len() ==> (#[trigger] out.enemies@[e]).point.0
                    < out.width * 60 && out.enemies@[e].point.1 < out.height * 60
        },
{
    let maps = define_floor_patterns();
    if map_index >= maps.len() {
        return Err(GenError::MapIndexOutOfRange);
    }
    let map = &maps[map_index];
    let mut rng: ChaCha8Rng = rng_from_seed(seed);

    let (mut grid, player_spawn_position, packs) = match generate_map(&mut rng, map) {
        Ok(t) => t,
        Err(e) => {
            return Err(e);
        },
    };

    let ghost g_map = grid@;
    let oob_polygons = match find_oob_polygons(&mut grid) {
        Ok(s) => s,
        Err(e) => {
            return Err(e);
        },
    };
    proof {
        // tracing only raises visited flags, so the cropped margin of the
        // walkable region survives it
        lemma_walkable_lines_agree(g_map, grid@);
    }

    let enemies = generate_mobs(&packs, &mut rng);
    proof {
        assert forall|e: int| 0 <= e < enemies@.len() implies (#[trigger] enemies@[e]).point.0
            < grid_w(grid@) * 60 && enemies@[e].point.1 < grid_h(grid@) * 60 by {
            let t = choose|t: int|
                0 <= t < packs@.len() && enemy_within_pack(enemies@[e], #[trigger] packs@[t]);
        }
    }

    let (walkable_x, walkable_y) = collect_walkable(&grid);

    let width = grid.len() as u32;
    let height = grid[0].len() as u32;
    proof {
        assert forall|t: int| 0 <= t < walkable_x@.len() implies 4 <= (
        #[trigger] walkable_x@[t]) && walkable_x@[t] + 4 < width && 4 <= walkable_y@[t]
            && walkable_y@[t] + 4 < height by {
            assert(grid_at(grid@, walkable_x@[t] as int, walkable_y@[t] as int).walkable);
            assert(col_has_walkable(grid@, walkable_x@[t] as int));
            assert(row_has_walkable(grid@, walkable_y@[t] as int));
            assert(col_has_walkable(g_map, walkable_x@[t] as int));
            assert(row_has_walkable(g_map, walkable_y@[t] as int));
        }
    }

    Ok(
        AreaGenerationOutput {
            width,
            height,
            walkable_x,
            walkable_y,
            oob_polygons,
            player_spawn_position,
            enemies,
        },
    )
}

} // verus!
