//! Mob-pack placement: deterministically samples spawn anchors on the
//! cleaned grid at a target density, then fills each pack with enemies laid
//! out in a sub-grid of the anchor tile.

use vstd::prelude::*;
use rand_chacha::ChaCha8Rng;
use crate::rng::gen_range_i32;
use crate::tiles::Grid;
use crate::tiles::MOB_SIZE;
use crate::tiles::MobPack;
use crate::tiles::TILE_SIZE;
use crate::tiles::Tile;
use crate::tiles::grid_at;
use crate::tiles::grid_h;
use crate::tiles::grid_in;
use crate::tiles::grid_w;
use crate::tiles::grid_wf;
use crate::tiles::same_dims;

verus! {

/// An enemy archetype.
#[derive(Clone, Copy, PartialEq, Eq, Structural, Debug)]
pub enum EnemyType {
    Ranged,
    Melee,
}

/// A placed enemy: a pixel-space position and an archetype.
#[derive(Clone, Copy, Debug)]
pub struct Enemy {
    pub point: (u32, u32),
    pub mob_type: EnemyType,
}

/// The anchor tile of a pack is walkable and spawnable and none of its four
/// neighbors touches a wall: packs never sit next to non-walkable area.
pub open spec fn pack_anchor_ok(g: Seq<Vec<Tile>>, x: int, y: int) -> bool {
    &&& grid_in(g, x, y)
    &&& 1 <= x && x + 1 < grid_w(g)
    &&& 1 <= y && y + 1 < grid_h(g)
    &&& grid_at(g, x, y).walkable
    &&& grid_at(g, x, y).spawnable
    &&& grid_at(g, x + 1, y).walkable
    &&& grid_at(g, x - 1, y).walkable
    &&& grid_at(g, x, y + 1).walkable
    &&& grid_at(g, x, y - 1).walkable
}

/// `(x, y)` is the anchor coordinate of one of the returned packs.
pub open spec fn is_pack_coord(packs: Seq<MobPack>, x: int, y: int) -> bool {
    exists|t: int|
        0 <= t < packs.len() && (#[trigger] packs[t]).tile_coords.0 == x && packs[t].tile_coords.1
            == y
}

/// What a placement pass does to the grid: category, walkability and
/// spawnability are untouched, every visited flag is cleared, tiles that
/// are not pack anchors keep their pack field, and every returned pack's
/// tile carries its anchor.
pub open spec fn packs_marked(a: Seq<Vec<Tile>>, b: Seq<Vec<Tile>>, packs: Seq<MobPack>) -> bool {
    &&& same_dims(a, b)
    &&& forall|x: int, y: int|
        grid_in(a, x, y) ==> {
            &&& (#[trigger] grid_at(b, x, y)).tile_type == grid_at(a, x, y).tile_type
            &&& grid_at(b, x, y).walkable == grid_at(a, x, y).walkable
            &&& grid_at(b, x, y).spawnable == grid_at(a, x, y).spawnable
            &&& grid_at(b, x, y).scanned == false
        }
    &&& forall|x: int, y: int|
        grid_in(a, x, y) && !is_pack_coord(packs, x, y) ==> (#[trigger] grid_at(
            b,
            x,
            y,
        )).mob_pack == grid_at(a, x, y).mob_pack
    &&& forall|t: int|
        0 <= t < packs.len() ==> grid_in(
            a,
            (#[trigger] packs[t]).tile_coords.0 as int,
            packs[t].tile_coords.1 as int,
        ) && grid_at(b, packs[t].tile_coords.0 as int, packs[t].tile_coords.1 as int).mob_pack
            == Some(MobPack { tile_coords: packs[t].tile_coords })
}

/// Number of walkable tiles among the first `n` cells of the grid's
/// row-major enumeration (column by column, `n = x * height + y`).
pub open spec fn walk_count(g: Seq<Vec<Tile>>, n: int) -> int
    decreases n,
{
    if n <= 0 {
        0int
    } else {
        walk_count(g, n - 1) + if grid_at(g, (n - 1) / grid_h(g), (n - 1) % grid_h(g)).walkable {
            1int
        } else {
            0int
        }
    }
}

/// `walk_count` is bounded by the number of cells counted.
pub proof fn lemma_walk_count_bounds(g: Seq<Vec<Tile>>, n: int)
    ensures
        0 <= walk_count(g, n),
        n >= 0 ==> walk_count(g, n) <= n,
    decreases n,
{
    if n > 0 {
        lemma_walk_count_bounds(g, n - 1);
    }
}

/// Total number of walkable tiles of the grid.
pub open spec fn spec_nb_walkable(g: Seq<Vec<Tile>>) -> int {
    walk_count(g, grid_w(g) * grid_h(g))
}

/// Number of packs the pass aims to place.
pub open spec fn spec_nb_packs(g: Seq<Vec<Tile>>, density: int) -> int {
    density * spec_nb_walkable(g) / 1000
}

/// The nominal spacing between placements, in walkable tiles.
pub open spec fn spec_pack_gap(g: Seq<Vec<Tile>>, density: int) -> int {
    spec_nb_walkable(g) / spec_nb_packs(g, density)
}

/// The row-major flat index `x * h + y` decodes back to `(x, y)`.
proof fn lemma_flat_index(x: int, y: int, h: int)
    requires
        0 <= x,
        0 <= y < h,
    ensures
        (x * h + y) / h == x,
        (x * h + y) % h == y,
{
    assert((x * h + y) / h == x && (x * h + y) % h == y) by (nonlinear_arith)
        requires
            0 <= x,
            0 <= y < h,
    ;
}

/// Selects pack anchors along a row-major scan of the walkable tiles,
/// spacing them roughly `1000 / density` walkable tiles apart and
/// re-randomizing the spacing (down to 70% of the nominal gap) after each
/// placement. `density` is in packs per thousand walkable tiles; a density
/// of zero places nothing. Clears every visited flag afterwards.
#[verifier::loop_isolation(false)]
#[verifier::rlimit(100)]
pub fn add_mob_packs(grid: &mut Grid, rng: &mut ChaCha8Rng, density: i32) -> (packs: Vec<MobPack>)
    requires
        grid_wf(old(grid)@),
        grid_w(old(grid)@) <= 0x8000,
        grid_h(old(grid)@) <= 0x8000,
        0 <= density <= 1000,
    ensures
        grid_wf(final(grid)@),
        packs_marked(old(grid)@, final(grid)@, packs@),
        density == 0 ==> packs@.len() == 0,
        forall|t: int|
            0 <= t < packs@.len() ==> pack_anchor_ok(
                old(grid)@,
                (#[trigger] packs@[t]).tile_coords.0 as int,
                packs@[t].tile_coords.1 as int,
            ),
        // at positive density a qualifying anchor past the nominal gap is
        // always taken: the first placement happens before any draw
        spec_nb_packs(old(grid)@, density as int) >= 1 && (exists|qx: int, qy: int|
            #[trigger] pack_anchor_ok(old(grid)@, qx, qy) && walk_count(
                old(grid)@,
                qx * grid_h(old(grid)@) + qy,
            ) >= spec_pack_gap(old(grid)@, density as int)) ==> packs@.len() >= 1,
        // consecutive anchors are at least 70% of the nominal gap apart,
        // counted in walkable tiles of the row-major scan
        forall|t: int|
            1 <= t < packs@.len() ==> walk_count(
                old(grid)@,
                (#[trigger] packs@[t]).tile_coords.0 * grid_h(old(grid)@)
                    + packs@[t].tile_coords.1,
            ) - walk_count(
                old(grid)@,
                packs@[t - 1].tile_coords.0 * grid_h(old(grid)@) + packs@[t - 1].tile_coords.1,
            ) >= spec_pack_gap(old(grid)@, density as int) * 7 / 10,
{
    let w = grid.len();
    let h = grid[0].len();
    let ghost g0 = grid@;

    let mut nb_walkable: i64 = 0;
    let mut cx: usize = 0;
    while cx < w
        invariant
            cx <= w,
            nb_walkable == walk_count(g0, cx as int * grid_h(g0)),
            0 <= nb_walkable <= cx as int * grid_h(g0),
        decreases w - cx,
    {
        let mut cy: usize = 0;
        while cy < h
            invariant
                cx < w,
                cy <= h,
                nb_walkable == walk_count(g0, cx as int * grid_h(g0) + cy as int),
                0 <= nb_walkable <= cx as int * grid_h(g0) + cy as int,
            decreases h - cy,
        {
            proof {
                lemma_flat_index(cx as int, cy as int, grid_h(g0));
                assert((cx as int) * grid_h(g0) + (cy as int) < 0x40000000) by (nonlinear_arith)
                    requires
                        0 <= cx as int,
                        (cx as int) < w as int,
                        w as int <= 0x8000,
                        0 <= cy as int,
                        (cy as int) < grid_h(g0),
                        grid_h(g0) <= 0x8000,
                ;
            }
            if grid[cx][cy].walkable {
                nb_walkable = nb_walkable + 1;
            }
            cy = cy + 1;
        }
        proof {
            assert(cx as int * grid_h(g0) + grid_h(g0) == (cx as int + 1) * grid_h(g0))
                by (nonlinear_arith);
        }
        cx = cx + 1;
    }
    proof {
        assert(w as int * grid_h(g0) == grid_w(g0) * grid_h(g0));
        assert(nb_walkable == spec_nb_walkable(g0));
        assert(w as int * grid_h(g0) <= 0x8000 * 0x8000) by (nonlinear_arith)
            requires
                0 <= w as int <= 0x8000,
                0 <= grid_h(g0) <= 0x8000,
        ;
        assert(0 <= nb_walkable <= 0x40000000);
    }

    proof {
        assert(density as i64 * nb_walkable <= 1000 * 0x40000000) by (nonlinear_arith)
            requires
                0 <= density <= 1000,
                0 <= nb_walkable <= 0x40000000,
        ;
        assert(density as i64 * nb_walkable >= 0) by (nonlinear_arith)
            requires
                0 <= density,
                0 <= nb_walkable,
        ;
    }
    let nb_packs: i64 = density as i64 * nb_walkable / 1000;
    if nb_packs <= 0 {
        // still clear the visited flags, as a placement pass does
        clear_scanned(grid);
        proof {
            assert(spec_nb_packs(g0, density as int) <= 0);
        }
        return Vec::new();
    }
    proof {
        assert(nb_walkable >= 1) by (nonlinear_arith)
            requires
                density as i64 * nb_walkable / 1000 >= 1,
                0 <= density <= 1000,
                nb_walkable >= 0,
        ;
        assert(nb_packs <= nb_walkable) by (nonlinear_arith)
            requires
                nb_packs == density as i64 * nb_walkable / 1000,
                0 <= density <= 1000,
                nb_walkable >= 1,
        ;
    }
    proof {
        assert(density == 0 ==> density as i64 * nb_walkable / 1000 == 0) by (nonlinear_arith)
            requires
                nb_walkable >= 0,
        ;
    }
    let tiles_iter: i64 = nb_walkable / nb_packs;
    let lo: i64 = tiles_iter * 7 / 10;
    proof {
        assert(1 <= tiles_iter <= nb_walkable) by (nonlinear_arith)
            requires
                tiles_iter == nb_walkable / nb_packs,
                1 <= nb_packs <= nb_walkable,
        ;
        assert(0 <= lo < tiles_iter) by (nonlinear_arith)
            requires
                lo == tiles_iter * 7 / 10,
                1 <= tiles_iter,
        ;
    }

    let packs = place_packs(grid, rng, tiles_iter, lo);
    let ghost g_marked = grid@;
    let ghost packs_final = packs@;
    clear_scanned(grid);
    proof {
        assert forall|i: int, j: int|
            grid_in(g0, i, j) && !is_pack_coord(packs_final, i, j) implies (#[trigger] grid_at(
            grid@,
            i,
            j,
        )).mob_pack == grid_at(g0, i, j).mob_pack by {
            assert(grid_at(grid@, i, j).mob_pack == grid_at(g_marked, i, j).mob_pack);
        }
        assert forall|t: int| 0 <= t < packs_final.len() implies grid_in(
            g0,
            (#[trigger] packs_final[t]).tile_coords.0 as int,
            packs_final[t].tile_coords.1 as int,
        ) && grid_at(
            grid@,
            packs_final[t].tile_coords.0 as int,
            packs_final[t].tile_coords.1 as int,
        ).mob_pack == Some(MobPack { tile_coords: packs_final[t].tile_coords }) by {
            let ci = packs_final[t].tile_coords.0 as int;
            let cj = packs_final[t].tile_coords.1 as int;
            assert(grid_at(grid@, ci, cj).mob_pack == grid_at(g_marked, ci, cj).mob_pack);
        }
    }
    packs
}

/// The placement scan itself: walks the grid in row-major order, placing a
/// pack whenever the walkable-tile counter reaches the current spacing
/// target, resetting the counter and re-drawing the target (at least `lo`)
/// after each placement.
#[verifier::loop_isolation(false)]
#[verifier::rlimit(100)]
fn place_packs(grid: &mut Grid, rng: &mut ChaCha8Rng, tiles_iter: i64, lo: i64) -> (packs: Vec<
    MobPack,
>)
    requires
        grid_wf(old(grid)@),
        grid_w(old(grid)@) <= 0x8000,
        grid_h(old(grid)@) <= 0x8000,
        1 <= tiles_iter <= 0x40000000,
        lo == tiles_iter * 7 / 10,
        0 <= lo < tiles_iter,
    ensures
        grid_wf(final(grid)@),
        same_dims(old(grid)@, final(grid)@),
        forall|i: int, j: int|
            grid_in(old(grid)@, i, j) ==> {
                &&& (#[trigger] grid_at(final(grid)@, i, j)).tile_type == grid_at(
                    old(grid)@,
                    i,
                    j,
                ).tile_type
                &&& grid_at(final(grid)@, i, j).walkable == grid_at(old(grid)@, i, j).walkable
                &&& grid_at(final(grid)@, i, j).spawnable == grid_at(old(grid)@, i, j).spawnable
                &&& grid_at(final(grid)@, i, j).scanned == grid_at(old(grid)@, i, j).scanned
            },
        forall|i: int, j: int|
            grid_in(old(grid)@, i, j) && !is_pack_coord(packs@, i, j) ==> (#[trigger] grid_at(
                final(grid)@,
                i,
                j,
            )).mob_pack == grid_at(old(grid)@, i, j).mob_pack,
        forall|t: int|
            0 <= t < packs@.len() ==> grid_in(
                old(grid)@,
                (#[trigger] packs@[t]).tile_coords.0 as int,
                packs@[t].tile_coords.1 as int,
            ) && grid_at(
                final(grid)@,
                packs@[t].tile_coords.0 as int,
                packs@[t].tile_coords.1 as int,
            ).mob_pack == Some(MobPack { tile_coords: packs@[t].tile_coords }),
        forall|t: int|
            0 <= t < packs@.len() ==> pack_anchor_ok(
                old(grid)@,
                (#[trigger] packs@[t]).tile_coords.0 as int,
                packs@[t].tile_coords.1 as int,
            ),
        (exists|qx: int, qy: int|
            #[trigger] pack_anchor_ok(old(grid)@, qx, qy) && walk_count(
                old(grid)@,
                qx * grid_h(old(grid)@) + qy,
            ) >= tiles_iter) ==> packs@.len() >= 1,
        forall|t: int|
            1 <= t < packs@.len() ==> walk_count(
                old(grid)@,
                (#[trigger] packs@[t]).tile_coords.0 * grid_h(old(grid)@)
                    + packs@[t].tile_coords.1,
            ) - walk_count(
                old(grid)@,
                packs@[t - 1].tile_coords.0 * grid_h(old(grid)@) + packs@[t - 1].tile_coords.1,
            ) >= lo,
{
    let w = grid.len();
    let h = grid[0].len();
    let ghost g0 = grid@;
    let mut packs: Vec<MobPack> = Vec::new();
    let mut iter: i64 = 0;
    let mut next_iter: i64 = tiles_iter;
    let mut x: usize = 0;
    while x < w
        invariant
            x <= w,
            grid_wf(grid@),
            same_dims(g0, grid@),
            1 <= tiles_iter <= 0x8000 * 0x8000,
            0 <= iter,
            iter <= x as int * 0x8000,
            0 <= next_iter <= tiles_iter,
            forall|i: int, j: int|
                grid_in(g0, i, j) ==> {
                    &&& (#[trigger] grid_at(grid@, i, j)).tile_type == grid_at(g0, i, j).tile_type
                    &&& grid_at(grid@, i, j).walkable == grid_at(g0, i, j).walkable
                    &&& grid_at(grid@, i, j).spawnable == grid_at(g0, i, j).spawnable
                    &&& grid_at(grid@, i, j).scanned == grid_at(g0, i, j).scanned
                },
            forall|t: int|
                0 <= t < packs@.len() ==> pack_anchor_ok(
                    g0,
                    (#[trigger] packs@[t]).tile_coords.0 as int,
                    packs@[t].tile_coords.1 as int,
                ),
            forall|i: int, j: int|
                grid_in(g0, i, j) && !is_pack_coord(packs@, i, j) ==> (#[trigger] grid_at(
                    grid@,
                    i,
                    j,
                )).mob_pack == grid_at(g0, i, j).mob_pack,
            forall|t: int|
                0 <= t < packs@.len() ==> grid_in(
                    g0,
                    (#[trigger] packs@[t]).tile_coords.0 as int,
                    packs@[t].tile_coords.1 as int,
                ) && grid_at(
                    grid@,
                    packs@[t].tile_coords.0 as int,
                    packs@[t].tile_coords.1 as int,
                ).mob_pack == Some(MobPack { tile_coords: packs@[t].tile_coords }),
            lo == tiles_iter * 7 / 10,
            next_iter >= lo,
            packs@.len() > 0 ==> iter == walk_count(g0, x as int * grid_h(g0)) - walk_count(
                g0,
                packs@[packs@.len() - 1].tile_coords.0 * grid_h(g0) + packs@[packs@.len()
                    - 1].tile_coords.1,
            ),
            forall|t: int|
                1 <= t < packs@.len() ==> walk_count(
                    g0,
                    (#[trigger] packs@[t]).tile_coords.0 * grid_h(g0) + packs@[t].tile_coords.1,
                ) - walk_count(
                    g0,
                    packs@[t - 1].tile_coords.0 * grid_h(g0) + packs@[t - 1].tile_coords.1,
                ) >= lo,
            packs@.len() == 0 ==> iter == walk_count(g0, x as int * grid_h(g0)) && next_iter
                == tiles_iter,
            packs@.len() == 0 ==> forall|qx: int, qy: int|
                (qx < x as int) && #[trigger] pack_anchor_ok(g0, qx, qy) ==> walk_count(
                    g0,
                    qx * grid_h(g0) + qy,
                ) < tiles_iter,
        decreases w - x,
    {
        let mut y: usize = 0;
        while y < h
            invariant
                x < w,
                y <= h,
                grid_wf(grid@),
                same_dims(g0, grid@),
                1 <= tiles_iter <= 0x8000 * 0x8000,
                0 <= iter,
                iter <= x as int * 0x8000 + y as int,
                0 <= next_iter <= tiles_iter,
                forall|i: int, j: int|
                    grid_in(g0, i, j) ==> {
                        &&& (#[trigger] grid_at(grid@, i, j)).tile_type == grid_at(
                            g0,
                            i,
                            j,
                        ).tile_type
                        &&& grid_at(grid@, i, j).walkable == grid_at(g0, i, j).walkable
                        &&& grid_at(grid@, i, j).spawnable == grid_at(g0, i, j).spawnable
                        &&& grid_at(grid@, i, j).scanned == grid_at(g0, i, j).scanned
                    },
                forall|t: int|
                    0 <= t < packs@.len() ==> pack_anchor_ok(
                        g0,
                        (#[trigger] packs@[t]).tile_coords.0 as int,
                        packs@[t].tile_coords.1 as int,
                    ),
                forall|i: int, j: int|
                    grid_in(g0, i, j) && !is_pack_coord(packs@, i, j) ==> (#[trigger] grid_at(
                        grid@,
                        i,
                        j,
                    )).mob_pack == grid_at(g0, i, j).mob_pack,
                forall|t: int|
                    0 <= t < packs@.len() ==> grid_in(
                        g0,
                        (#[trigger] packs@[t]).tile_coords.0 as int,
                        packs@[t].tile_coords.1 as int,
                    ) && grid_at(
                        grid@,
                        packs@[t].tile_coords.0 as int,
                        packs@[t].tile_coords.1 as int,
                    ).mob_pack == Some(MobPack { tile_coords: packs@[t].tile_coords }),
                lo == tiles_iter * 7 / 10,
                next_iter >= lo,
                packs@.len() > 0 ==> iter == walk_count(g0, x as int * grid_h(g0) + y as int)
                    - walk_count(
                    g0,
                    packs@[packs@.len() - 1].tile_coords.0 * grid_h(g0) + packs@[packs@.len()
                        - 1].tile_coords.1,
                ),
                forall|t: int|
                    1 <= t < packs@.len() ==> walk_count(
                        g0,
                        (#[trigger] packs@[t]).tile_coords.0 * grid_h(g0)
                            + packs@[t].tile_coords.1,
                    ) - walk_count(
                        g0,
                        packs@[t - 1].tile_coords.0 * grid_h(g0) + packs@[t - 1].tile_coords.1,
                    ) >= lo,
                packs@.len() == 0 ==> iter == walk_count(g0, x as int * grid_h(g0) + y as int)
                    && next_iter == tiles_iter,
                packs@.len() == 0 ==> forall|qx: int, qy: int|
                    (qx < x as int || (qx == x as int && qy < y as int)) && #[trigger] pack_anchor_ok(
                        g0,
                        qx,
                        qy,
                    ) ==> walk_count(g0, qx * grid_h(g0) + qy) < tiles_iter,
            decreases h - y,
        {
            proof {
                lemma_flat_index(x as int, y as int, grid_h(g0));
            }
            let walk = grid[x][y].walkable;
            if walk && iter >= next_iter && grid[x][y].spawnable && x >= 1 && x + 1 < w && y >= 1
                && y + 1 < h && grid[x + 1][y].walkable && grid[x - 1][y].walkable && grid[x][y
                + 1].walkable && grid[x][y - 1].walkable {
                proof {
                    assert(grid_at(grid@, x as int, y as int).walkable);
                    assert(grid_at(grid@, x as int, y as int).spawnable);
                    assert(grid_at(grid@, x as int + 1, y as int).walkable);
                    assert(grid_at(grid@, x as int - 1, y as int).walkable);
                    assert(grid_at(grid@, x as int, y as int + 1).walkable);
                    assert(grid_at(grid@, x as int, y as int - 1).walkable);
                    assert(pack_anchor_ok(g0, x as int, y as int));
                }
                let ghost gprev = grid@;
                mark_pack(grid, x, y);
                proof {
                    assert forall|i: int, j: int| grid_in(g0, i, j) implies {
                        &&& (#[trigger] grid_at(grid@, i, j)).tile_type == grid_at(g0, i, j).tile_type
                        &&& grid_at(grid@, i, j).walkable == grid_at(g0, i, j).walkable
                        &&& grid_at(grid@, i, j).spawnable == grid_at(g0, i, j).spawnable
                        &&& grid_at(grid@, i, j).scanned == grid_at(g0, i, j).scanned
                    } by {
                        if i == x as int && j == y as int {
                            assert(grid_at(gprev, i, j).tile_type == grid_at(g0, i, j).tile_type);
                        } else {
                            assert(grid_at(grid@, i, j) == grid_at(gprev, i, j));
                        }
                    }
                }
                let ghost packs_prev = packs@;
                packs.push(MobPack { tile_coords: (x, y) });
                proof {
                    assert(packs@[packs@.len() - 1].tile_coords == (x, y));
                    assert(is_pack_coord(packs@, x as int, y as int));
                    assert forall|i: int, j: int|
                        grid_in(g0, i, j) && !is_pack_coord(packs@, i, j) implies (
                    #[trigger] grid_at(grid@, i, j)).mob_pack == grid_at(g0, i, j).mob_pack by {
                        assert(!(i == x as int && j == y as int));
                        assert(!is_pack_coord(packs_prev, i, j)) by {
                            if is_pack_coord(packs_prev, i, j) {
                                let t = choose|t: int|
                                    0 <= t < packs_prev.len() && (#[trigger] packs_prev[t]).tile_coords.0
                                        == i && packs_prev[t].tile_coords.1 == j;
                                assert(packs@[t] == packs_prev[t]);
                            }
                        }
                        assert(grid_at(grid@, i, j) == grid_at(gprev, i, j));
                    }
                }
                iter = 0;
                let drawn = gen_range_i32(
                    rng,
                    if lo > 0x7ffffff0 {
                        0x7ffffff0
                    } else {
                        lo as i32
                    },
                    if tiles_iter > 0x7ffffff1 {
                        0x7ffffff1
                    } else {
                        tiles_iter as i32
                    },
                );
                next_iter = drawn as i64;
            }
            if walk {
                iter = iter + 1;
            }
            y = y + 1;
        }
        proof {
            assert(x as int * grid_h(g0) + grid_h(g0) == (x as int + 1) * grid_h(g0))
                by (nonlinear_arith);
            if packs@.len() == 0 {
                assert forall|qx: int, qy: int|
                    (qx < x as int + 1) && #[trigger] pack_anchor_ok(g0, qx, qy) implies walk_count(
                    g0,
                    qx * grid_h(g0) + qy,
                ) < tiles_iter by {
                    if qx == x as int {
                        assert(qy < grid_h(g0));
                    }
                }
            }
        }
        x = x + 1;
    }
    proof {
        if packs@.len() == 0 {
            assert forall|qx: int, qy: int| #[trigger] pack_anchor_ok(g0, qx, qy) implies
                walk_count(g0, qx * grid_h(g0) + qy) < tiles_iter by {
                assert(qx < w as int);
            }
        }
    }
    packs
}


/// Anchors a pack at one tile, leaving every other field and tile alone.
fn mark_pack(grid: &mut Grid, x: usize, y: usize)
    requires
        grid_wf(old(grid)@),
        grid_in(old(grid)@, x as int, y as int),
    ensures
        grid_wf(final(grid)@),
        same_dims(old(grid)@, final(grid)@),
        forall|i: int, j: int|
            grid_in(old(grid)@, i, j) ==> grid_at(final(grid)@, i, j) == (if i == x as int && j
                == y as int {
                Tile {
                    mob_pack: Some(MobPack { tile_coords: (x, y) }),
                    ..grid_at(old(grid)@, i, j)
                }
            } else {
                grid_at(old(grid)@, i, j)
            }),
{
    let t = grid[x][y];
    grid[x][y] = Tile {
        tile_type: t.tile_type,
        walkable: t.walkable,
        spawnable: t.spawnable,
        scanned: t.scanned,
        mob_pack: Some(MobPack { tile_coords: (x, y) }),
    };
}

/// Clears the tracer's visited flag on every tile.
#[verifier::loop_isolation(false)]
fn clear_scanned(grid: &mut Grid)
    requires
        grid_wf(old(grid)@),
    ensures
        grid_wf(final(grid)@),
        same_dims(old(grid)@, final(grid)@),
        forall|i: int, j: int|
            grid_in(old(grid)@, i, j) ==> (#[trigger] grid_at(final(grid)@, i, j)) == (Tile {
                scanned: false,
                ..grid_at(old(grid)@, i, j)
            }),
{
    let w = grid.len();
    let ghost g0 = grid@;
    let mut x: usize = 0;
    while x < w
        invariant
            x <= w,
            w == grid_w(g0),
            g0 == old(grid)@,
            grid_wf(grid@),
            same_dims(g0, grid@),
            forall|i: int, j: int|
                grid_in(g0, i, j) ==> (#[trigger] grid_at(grid@, i, j)) == (if i < x as int {
                    Tile { scanned: false, ..grid_at(g0, i, j) }
                } else {
                    grid_at(g0, i, j)
                }),
        decreases w - x,
    {
        let h = grid[x].len();
        let mut y: usize = 0;
        while y < h
            invariant
                x < w,
                y <= h,
                w == grid_w(g0),
                h == grid_h(g0),
                g0 == old(grid)@,
                grid_wf(grid@),
                same_dims(g0, grid@),
                forall|i: int, j: int|
                    grid_in(g0, i, j) ==> (#[trigger] grid_at(grid@, i, j)) == (if i < x as int || (
                    i == x as int && j < y as int) {
                        Tile { scanned: false, ..grid_at(g0, i, j) }
                    } else {
                        grid_at(g0, i, j)
                    }),
            decreases h - y,
        {
            let ghost gprev = grid@;
            let t = grid[x][y];
            grid[x][y] = Tile {
                tile_type: t.tile_type,
                walkable: t.walkable,
                spawnable: t.spawnable,
                scanned: false,
                mob_pack: t.mob_pack,
            };
            proof {
                assert forall|i: int, j: int| grid_in(g0, i, j) implies (#[trigger] grid_at(
                    grid@,
                    i,
                    j,
                )) == (if i < x as int || (i == x as int && j < y as int + 1) {
                    Tile { scanned: false, ..grid_at(g0, i, j) }
                } else {
                    grid_at(g0, i, j)
                }) by {
                    if i == x as int && j == y as int {
                    } else {
                        assert(grid_at(grid@, i, j) == grid_at(gprev, i, j));
                    }
                }
            }
            y = y + 1;
        }
        x = x + 1;
    }
}

/// `e` sits at the centre of one sub-grid slot of the pack's tile: both
/// coordinates stay within the tile's 60-pixel span.
pub open spec fn enemy_within_pack(e: Enemy, p: MobPack) -> bool {
    &&& p.tile_coords.0 * (TILE_SIZE as int) + (MOB_SIZE as int) / 2 <= e.point.0
        <= p.tile_coords.0 * (TILE_SIZE as int) + (TILE_SIZE as int) - (MOB_SIZE as int) / 2
    &&& p.tile_coords.1 * (TILE_SIZE as int) + (MOB_SIZE as int) / 2 <= e.point.1
        <= p.tile_coords.1 * (TILE_SIZE as int) + (TILE_SIZE as int) - (MOB_SIZE as int) / 2
}

/// Fills each pack with a uniformly drawn number of enemies (at least one,
/// at most the number of `MOB_SIZE`-wide sub-slots that fit in one tile),
/// each with a uniformly drawn archetype, laid out row-major in the
/// sub-grid of slots the anchor tile holds, wrapping to the next slot row
/// when the tile's width is exhausted.
#[verifier::loop_isolation(false)]
#[verifier::rlimit(30)]
pub fn generate_mobs(packs: &Vec<MobPack>, rng: &mut ChaCha8Rng) -> (mobs: Vec<Enemy>)
    requires
        forall|t: int|
            0 <= t < packs@.len() ==> (#[trigger] packs@[t]).tile_coords.0 < 0x8000
                && packs@[t].tile_coords.1 < 0x8000,
    ensures
        packs@.len() == 0 ==> mobs@.len() == 0,
        mobs@.len() >= packs@.len(),
        mobs@.len() <= 9 * packs@.len(),
        forall|e: int|
            0 <= e < mobs@.len() ==> exists|t: int|
                0 <= t < packs@.len() && enemy_within_pack(#[trigger] mobs@[e], packs@[t]),
{
    let mut mobs: Vec<Enemy> = Vec::new();
    let max_mobs_per_pack: i32 = (TILE_SIZE / MOB_SIZE) * (TILE_SIZE / MOB_SIZE);
    let tile_size: usize = TILE_SIZE as usize;
    let mob_size: usize = MOB_SIZE as usize;
    let n = packs.len();
    let mut p: usize = 0;
    while p < n
        invariant
            p <= n,
            n == packs@.len(),
            max_mobs_per_pack == 9,
            tile_size == 60,
            mob_size == 20,
            p as int <= mobs@.len() <= 9 * p as int,
            p < n ==> mobs@.len() + 9 <= 9 * n,
            forall|e: int|
                0 <= e < mobs@.len() ==> exists|t: int|
                    0 <= t < packs@.len() && enemy_within_pack(#[trigger] mobs@[e], packs@[t]),
        decreases n - p,
    {
        let pack = packs[p];
        let mut x_offset: usize = 0;
        let mut y_offset: usize = 0;
        let nb_monsters = gen_range_i32(rng, 0, max_mobs_per_pack);
        let mut m: i32 = 0;
        let ghost mobs_before = mobs@.len();
        while m <= nb_monsters
            invariant
                0 <= m <= nb_monsters + 1,
                0 <= nb_monsters < 9,
                tile_size == 60,
                mob_size == 20,
                p < n,
                n == packs@.len(),
                pack == packs@[p as int],
                pack.tile_coords.0 < 0x8000,
                pack.tile_coords.1 < 0x8000,
                x_offset == mob_size * ((m as int) % 3),
                y_offset == mob_size * ((m as int) / 3),
                mobs@.len() == mobs_before + m as int,
                forall|e: int|
                    0 <= e < mobs_before ==> exists|t: int|
                        0 <= t < packs@.len() && enemy_within_pack(#[trigger] mobs@[e], packs@[t]),
                forall|e: int|
                    mobs_before <= e < mobs@.len() ==> enemy_within_pack(
                        #[trigger] mobs@[e],
                        pack,
                    ),
            decreases nb_monsters + 1 - m,
        {
            let mob_coord_x = (pack.tile_coords.0 * tile_size) + x_offset + (mob_size / 2);
            let mob_coord_y = (pack.tile_coords.1 * tile_size) + y_offset + (mob_size / 2);
            let mob_type = match gen_range_i32(rng, 0, 2) {
                0 => EnemyType::Melee,
                1 => EnemyType::Ranged,
                _ => EnemyType::Melee,
            };
            mobs.push(Enemy { mob_type: mob_type, point: (mob_coord_x as u32, mob_coord_y as u32) });
            proof {
                assert(enemy_within_pack(mobs@[mobs@.len() - 1], pack));
            }
            if x_offset + mob_size + mob_size <= tile_size {
                x_offset = x_offset + mob_size;
            } else {
                x_offset = 0;
                y_offset = y_offset + mob_size;
            }
            m = m + 1;
        }
        proof {
            assert forall|e: int| 0 <= e < mobs@.len() implies exists|t: int|
                0 <= t < packs@.len() && enemy_within_pack(#[trigger] mobs@[e], packs@[t]) by {
                if mobs_before <= e {
                    assert(enemy_within_pack(mobs@[e], packs@[p as int]));
                }
            }
        }
        p = p + 1;
    }
    mobs
}

} // verus!
