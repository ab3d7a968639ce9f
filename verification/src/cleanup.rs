//! Cluster cleanup: fills small pockets of out-of-bounds tiles that are
//! pinched between walkable floor on both sides along the enabled axes.
//!
//! All fills are computed from a single pre-scan of the grid and applied
//! afterwards, so the outcome of one call does not depend on the order in
//! which pockets are discovered.

use vstd::prelude::*;
use crate::tiles::Grid;
use crate::tiles::Tile;
use crate::tiles::TileType;
use crate::tiles::add_tile;
use crate::tiles::grid_at;
use crate::tiles::grid_h;
use crate::tiles::grid_in;
use crate::tiles::grid_w;
use crate::tiles::grid_wf;
use crate::tiles::same_dims;
use crate::tiles::stamped;

verus! {

/// The smallest `i` in `[1, m)` with a walkable tile at `(x + i*dx, y + i*dy)`,
/// or `0` when there is none: the distance of the nearest floor tile that a
/// scan of `m - 1` steps in direction `(dx, dy)` records.
pub open spec fn first_hit(g: Seq<Vec<Tile>>, x: int, y: int, dx: int, dy: int, m: int) -> int
    decreases m,
{
    if m <= 1 {
        0
    } else {
        let nearer = first_hit(g, x, y, dx, dy, m - 1);
        if nearer > 0 {
            nearer
        } else if grid_at(g, x + (m - 1) * dx, y + (m - 1) * dy).walkable {
            m - 1
        } else {
            0
        }
    }
}

/// `first_hit` stays within `[0, m)` and marks a walkable tile when non-zero.
pub proof fn lemma_first_hit_bounds(g: Seq<Vec<Tile>>, x: int, y: int, dx: int, dy: int, m: int)
    ensures
        0 <= first_hit(g, x, y, dx, dy, m),
        m <= 1 ==> first_hit(g, x, y, dx, dy, m) == 0,
        m > 1 ==> first_hit(g, x, y, dx, dy, m) < m,
        first_hit(g, x, y, dx, dy, m) > 0 ==> grid_at(
            g,
            x + first_hit(g, x, y, dx, dy, m) * dx,
            y + first_hit(g, x, y, dx, dy, m) * dy,
        ).walkable,
    decreases m,
{
    if m > 1 {
        lemma_first_hit_bounds(g, x, y, dx, dy, m - 1);
    }
}

/// Below its value, `first_hit` records no walkable tile — the hit really
/// is the nearest one — and a zero result means the whole scan found none.
pub proof fn lemma_first_hit_least(g: Seq<Vec<Tile>>, x: int, y: int, dx: int, dy: int, m: int)
    ensures
        forall|i: int|
            1 <= i < first_hit(g, x, y, dx, dy, m) ==> !grid_at(
                g,
                x + #[trigger] (i * dx),
                y + i * dy,
            ).walkable,
        first_hit(g, x, y, dx, dy, m) == 0 ==> forall|i: int|
            1 <= i < m ==> !grid_at(g, x + #[trigger] (i * dx), y + i * dy).walkable,
    decreases m,
{
    if m > 1 {
        lemma_first_hit_least(g, x, y, dx, dy, m - 1);
        lemma_first_hit_bounds(g, x, y, dx, dy, m - 1);
    }
}

/// The center `(cx, cy)` is a pinched out-of-bounds tile: it carries the
/// out-of-bounds category, sits strictly more than `k` cells from every grid
/// edge, and a scan of `k - 1` cells finds floor on both sides along every
/// enabled axis. The recorded distances are to the nearest floor per
/// direction, so a fill segment crosses no walkable tile.
pub open spec fn center_pinched(
    g: Seq<Vec<Tile>>,
    oob: TileType,
    k: int,
    cx: int,
    cy: int,
    check_x: bool,
    check_y: bool,
) -> bool {
    &&& grid_in(g, cx, cy)
    &&& grid_at(g, cx, cy).tile_type == oob
    &&& cx + k < grid_w(g)
    &&& cx > k
    &&& cy + k < grid_h(g)
    &&& cy > k
    &&& (check_x ==> first_hit(g, cx, cy, 1, 0, k) > 0 && first_hit(g, cx, cy, -1, 0, k) > 0)
    &&& (check_y ==> first_hit(g, cx, cy, 0, 1, k) > 0 && first_hit(g, cx, cy, 0, -1, k) > 0)
    &&& (check_x || check_y)
}

/// `(px, py)` lies on the fill segment of the pinched center `(cx, cy)`: the
/// center itself, or a cell strictly between the center and the nearest
/// recorded floor tile along an enabled axis.
pub open spec fn in_fill_of(
    g: Seq<Vec<Tile>>,
    oob: TileType,
    k: int,
    cx: int,
    cy: int,
    check_x: bool,
    check_y: bool,
    px: int,
    py: int,
) -> bool {
    &&& center_pinched(g, oob, k, cx, cy, check_x, check_y)
    &&& {
        ||| (px == cx && py == cy)
        ||| (check_y && px == cx && cy < py < cy + first_hit(g, cx, cy, 0, 1, k))
        ||| (check_y && px == cx && cy - first_hit(g, cx, cy, 0, -1, k) < py < cy)
        ||| (check_x && py == cy && cx < px < cx + first_hit(g, cx, cy, 1, 0, k))
        ||| (check_x && py == cy && cx - first_hit(g, cx, cy, -1, 0, k) < px < cx)
    }
}

/// `(px, py)` is converted to floor by the cleanup pass.
pub open spec fn filled(
    g: Seq<Vec<Tile>>,
    oob: TileType,
    k: int,
    check_x: bool,
    check_y: bool,
    px: int,
    py: int,
) -> bool {
    exists|cx: int, cy: int| #[trigger] in_fill_of(g, oob, k, cx, cy, check_x, check_y, px, py)
}

/// The tile the cleanup pass leaves at `(px, py)`.
pub open spec fn cleaned_at(
    g: Seq<Vec<Tile>>,
    oob: TileType,
    k: int,
    check_x: bool,
    check_y: bool,
    px: int,
    py: int,
) -> Tile {
    if filled(g, oob, k, check_x, check_y, px, py) {
        stamped(grid_at(g, px, py), TileType::Floor, true, false)
    } else {
        grid_at(g, px, py)
    }
}

/// `(px, py)` occurs in the recorded fill list.
pub open spec fn in_list(s: Seq<(usize, usize)>, px: int, py: int) -> bool {
    exists|t: int| 0 <= t < s.len() && (#[trigger] s[t]).0 == px && s[t].1 == py
}

/// Membership in the fill list survives appending entries.
proof fn lemma_in_list_extend(s1: Seq<(usize, usize)>, s2: Seq<(usize, usize)>)
    requires
        s1.len() <= s2.len(),
        forall|t: int| 0 <= t < s1.len() ==> s2[t] == s1[t],
    ensures
        forall|px: int, py: int| in_list(s1, px, py) ==> in_list(s2, px, py),
{
    assert forall|px: int, py: int| in_list(s1, px, py) implies in_list(s2, px, py) by {
        let t = choose|t: int|
            0 <= t < s1.len() && (#[trigger] s1[t]).0 == px && s1[t].1 == py;
        assert(s2[t] == s1[t]);
    }
}

/// There is a pinched center lexicographically before scan position
/// `(sx, sy)` whose fill segment covers `(px, py)`.
pub open spec fn filled_before(
    g: Seq<Vec<Tile>>,
    oob: TileType,
    k: int,
    check_x: bool,
    check_y: bool,
    px: int,
    py: int,
    sx: int,
    sy: int,
) -> bool {
    exists|cx: int, cy: int|
        (cx < sx || (cx == sx && cy < sy)) && #[trigger] in_fill_of(
            g,
            oob,
            k,
            cx,
            cy,
            check_x,
            check_y,
            px,
            py,
        )
}

/// Scans `k - 1` cells in each cardinal direction from `(x, y)` and returns
/// the distance of the nearest walkable tile per direction (right, left,
/// down, up), `0` when a direction finds none.
#[verifier::loop_isolation(false)]
fn scan_floor_distances(grid: &Grid, x: usize, y: usize, k: usize) -> (r: (usize, usize, usize, usize))
    requires
        grid_wf(grid@),
        grid_w(grid@) <= 0x8000,
        grid_h(grid@) <= 0x8000,
        (k as int) + 1 < 0x8000,
        (x as int) > k as int,
        (x as int) + (k as int) < grid_w(grid@),
        (y as int) > k as int,
        (y as int) + (k as int) < grid_h(grid@),
    ensures
        r.0 as int == first_hit(grid@, x as int, y as int, 1, 0, k as int),
        r.1 as int == first_hit(grid@, x as int, y as int, -1, 0, k as int),
        r.2 as int == first_hit(grid@, x as int, y as int, 0, 1, k as int),
        r.3 as int == first_hit(grid@, x as int, y as int, 0, -1, k as int),
{
    let mut lr: usize = 0;
    let mut ll: usize = 0;
    let mut lb: usize = 0;
    let mut lu: usize = 0;
    let mut i: usize = 1;
    while i < k
        invariant
            1 <= i,
            k >= 1 ==> i <= k,
            k < 1 ==> i == 1,
            lr as int == first_hit(grid@, x as int, y as int, 1, 0, i as int),
            ll as int == first_hit(grid@, x as int, y as int, -1, 0, i as int),
            lb as int == first_hit(grid@, x as int, y as int, 0, 1, i as int),
            lu as int == first_hit(grid@, x as int, y as int, 0, -1, i as int),
        decreases k - i,
    {
        if lr == 0 && grid[x + i][y].walkable {
            lr = i;
        }
        if ll == 0 && grid[x - i][y].walkable {
            ll = i;
        }
        if lb == 0 && grid[x][y + i].walkable {
            lb = i;
        }
        if lu == 0 && grid[x][y - i].walkable {
            lu = i;
        }
        proof {
            assert(x as int + (i as int + 1 - 1) * 1 == x as int + i as int);
            assert(x as int + (i as int + 1 - 1) * -1 == x as int - i as int);
            assert(y as int + (i as int + 1 - 1) * 1 == y as int + i as int);
            assert(y as int + (i as int + 1 - 1) * -1 == y as int - i as int);
        }
        i = i + 1;
    }
    (lr, ll, lb, lu)
}

/// Records the fill segment of the center `(x, y)` — if it is pinched — in
/// the fill list.
#[verifier::loop_isolation(false)]
fn record_center(
    grid: &Grid,
    oob_tiletype: TileType,
    cluster_size: usize,
    check_x: bool,
    check_y: bool,
    x: usize,
    y: usize,
    fills: &mut Vec<(usize, usize)>,
)
    requires
        grid_wf(grid@),
        grid_w(grid@) <= 0x8000,
        grid_h(grid@) <= 0x8000,
        (cluster_size as int) + 1 < 0x8000,
        grid_in(grid@, x as int, y as int),
        forall|t: int|
            0 <= t < old(fills)@.len() ==> filled(
                grid@,
                oob_tiletype,
                cluster_size as int,
                check_x,
                check_y,
                (#[trigger] old(fills)@[t]).0 as int,
                old(fills)@[t].1 as int,
            ),
    ensures
        old(fills)@.len() <= final(fills)@.len(),
        forall|t: int| 0 <= t < old(fills)@.len() ==> final(fills)@[t] == old(fills)@[t],
        forall|t: int|
            0 <= t < final(fills)@.len() ==> filled(
                grid@,
                oob_tiletype,
                cluster_size as int,
                check_x,
                check_y,
                (#[trigger] final(fills)@[t]).0 as int,
                final(fills)@[t].1 as int,
            ),
        forall|px: int, py: int|
            in_fill_of(
                grid@,
                oob_tiletype,
                cluster_size as int,
                x as int,
                y as int,
                check_x,
                check_y,
                px,
                py,
            ) ==> in_list(final(fills)@, px, py),
{
    let ghost g = grid@;
    let ghost k = cluster_size as int;
    let w = grid.len();
    let h = grid[0].len();
    let is_center = grid[x][y].tile_type == oob_tiletype && x + cluster_size < w && x
        > cluster_size && y + cluster_size < h && y > cluster_size;
    if !is_center {
        proof {
            assert(!center_pinched(g, oob_tiletype, k, x as int, y as int, check_x, check_y));
        }
        return ;
    }
    let (lr, ll, lb, lu) = scan_floor_distances(grid, x, y, cluster_size);
    proof {
        lemma_first_hit_bounds(g, x as int, y as int, 1, 0, k);
        lemma_first_hit_bounds(g, x as int, y as int, -1, 0, k);
        lemma_first_hit_bounds(g, x as int, y as int, 0, 1, k);
        lemma_first_hit_bounds(g, x as int, y as int, 0, -1, k);
    }
    let do_fill: bool = if check_x && check_y {
        lr != 0 && ll != 0 && lb != 0 && lu != 0
    } else if check_x {
        lr != 0 && ll != 0
    } else if check_y {
        lb != 0 && lu != 0
    } else {
        false
    };
    if !do_fill {
        proof {
            assert(!center_pinched(g, oob_tiletype, k, x as int, y as int, check_x, check_y));
        }
        return ;
    }
    proof {
        assert(center_pinched(g, oob_tiletype, k, x as int, y as int, check_x, check_y));
    }
    let ghost fills0 = fills@;
    fills.push((x, y));
    proof {
        assert(in_fill_of(g, oob_tiletype, k, x as int, y as int, check_x, check_y, x as int, y as int));
        lemma_in_list_extend(fills0, fills@);
        assert(fills@[fills@.len() - 1] == (x, y));
        assert(in_list(fills@, x as int, y as int));
    }
    if check_y {
        let mut i: usize = 1;
        while i < lb
            invariant
                1 <= i,
                lb >= 1 ==> i <= lb,
                lb < 1 ==> i == 1,
                lb as int == first_hit(g, x as int, y as int, 0, 1, k),
                (lb as int) < 0x8000,
                (y as int) + (lb as int) < grid_h(g),
                center_pinched(g, oob_tiletype, k, x as int, y as int, check_x, check_y),
                check_y,
                fills0.len() <= fills@.len(),
                forall|t: int| 0 <= t < fills0.len() ==> fills@[t] == fills0[t],
                forall|t: int|
                    0 <= t < fills@.len() ==> filled(
                        g,
                        oob_tiletype,
                        k,
                        check_x,
                        check_y,
                        (#[trigger] fills@[t]).0 as int,
                        fills@[t].1 as int,
                    ),
                in_list(fills@, x as int, y as int),
                forall|j: int| 0 < j < i as int ==> #[trigger] in_list(fills@, x as int, y as int + j),
            decreases lb - i,
        {
            let ghost fprev = fills@;
            fills.push((x, y + i));
            proof {
                assert(in_fill_of(g, oob_tiletype, k, x as int, y as int, check_x, check_y, x as int, y as int + i as int));
                lemma_in_list_extend(fprev, fills@);
                assert(fills@[fills@.len() - 1] == (x, (y + i) as usize));
                assert(in_list(fills@, x as int, y as int + i as int));
            }
            i = i + 1;
        }
        let mut i2: usize = 1;
        while i2 < lu
            invariant
                1 <= i2,
                lu >= 1 ==> i2 <= lu,
                lu < 1 ==> i2 == 1,
                lu as int == first_hit(g, x as int, y as int, 0, -1, k),
                (lu as int) <= k,
                (y as int) > k,
                lb as int == first_hit(g, x as int, y as int, 0, 1, k),
                center_pinched(g, oob_tiletype, k, x as int, y as int, check_x, check_y),
                check_y,
                fills0.len() <= fills@.len(),
                forall|t: int| 0 <= t < fills0.len() ==> fills@[t] == fills0[t],
                forall|t: int|
                    0 <= t < fills@.len() ==> filled(
                        g,
                        oob_tiletype,
                        k,
                        check_x,
                        check_y,
                        (#[trigger] fills@[t]).0 as int,
                        fills@[t].1 as int,
                    ),
                in_list(fills@, x as int, y as int),
                forall|j: int| 0 < j < lb as int ==> #[trigger] in_list(fills@, x as int, y as int + j),
                forall|j: int| 0 < j < i2 as int ==> #[trigger] in_list(fills@, x as int, y as int - j),
            decreases lu - i2,
        {
            let ghost fprev = fills@;
            fills.push((x, y - i2));
            proof {
                assert(in_fill_of(g, oob_tiletype, k, x as int, y as int, check_x, check_y, x as int, y as int - i2 as int));
                lemma_in_list_extend(fprev, fills@);
                assert(fills@[fills@.len() - 1] == (x, (y - i2) as usize));
                assert(in_list(fills@, x as int, y as int - i2 as int));
            }
            i2 = i2 + 1;
        }
    }
    if check_x {
        let mut i3: usize = 1;
        while i3 < lr
            invariant
                1 <= i3,
                lr >= 1 ==> i3 <= lr,
                lr < 1 ==> i3 == 1,
                lr as int == first_hit(g, x as int, y as int, 1, 0, k),
                (lr as int) < 0x8000,
                (x as int) + (lr as int) < grid_w(g),
                lb as int == first_hit(g, x as int, y as int, 0, 1, k),
                lu as int == first_hit(g, x as int, y as int, 0, -1, k),
                center_pinched(g, oob_tiletype, k, x as int, y as int, check_x, check_y),
                check_x,
                fills0.len() <= fills@.len(),
                forall|t: int| 0 <= t < fills0.len() ==> fills@[t] == fills0[t],
                forall|t: int|
                    0 <= t < fills@.len() ==> filled(
                        g,
                        oob_tiletype,
                        k,
                        check_x,
                        check_y,
                        (#[trigger] fills@[t]).0 as int,
                        fills@[t].1 as int,
                    ),
                in_list(fills@, x as int, y as int),
                check_y ==> forall|j: int| 0 < j < lb as int ==> #[trigger] in_list(fills@, x as int, y as int + j),
                check_y ==> forall|j: int| 0 < j < lu as int ==> #[trigger] in_list(fills@, x as int, y as int - j),
                forall|j: int| 0 < j < i3 as int ==> #[trigger] in_list(fills@, x as int + j, y as int),
            decreases lr - i3,
        {
            let ghost fprev = fills@;
            fills.push((x + i3, y));
            proof {
                assert(in_fill_of(g, oob_tiletype, k, x as int, y as int, check_x, check_y, x as int + i3 as int, y as int));
                lemma_in_list_extend(fprev, fills@);
                assert(fills@[fills@.len() - 1] == ((x + i3) as usize, y));
                assert(in_list(fills@, x as int + i3 as int, y as int));
            }
            i3 = i3 + 1;
        }
        let mut i4: usize = 1;
        while i4 < ll
            invariant
                1 <= i4,
                ll >= 1 ==> i4 <= ll,
                ll < 1 ==> i4 == 1,
                ll as int == first_hit(g, x as int, y as int, -1, 0, k),
                (ll as int) <= k,
                (x as int) > k,
                lr as int == first_hit(g, x as int, y as int, 1, 0, k),
                lb as int == first_hit(g, x as int, y as int, 0, 1, k),
                lu as int == first_hit(g, x as int, y as int, 0, -1, k),
                center_pinched(g, oob_tiletype, k, x as int, y as int, check_x, check_y),
                check_x,
                fills0.len() <= fills@.len(),
                forall|t: int| 0 <= t < fills0.len() ==> fills@[t] == fills0[t],
                forall|t: int|
                    0 <= t < fills@.len() ==> filled(
                        g,
                        oob_tiletype,
                        k,
                        check_x,
                        check_y,
                        (#[trigger] fills@[t]).0 as int,
                        fills@[t].1 as int,
                    ),
                in_list(fills@, x as int, y as int),
                check_y ==> forall|j: int| 0 < j < lb as int ==> #[trigger] in_list(fills@, x as int, y as int + j),
                check_y ==> forall|j: int| 0 < j < lu as int ==> #[trigger] in_list(fills@, x as int, y as int - j),
                forall|j: int| 0 < j < lr as int ==> #[trigger] in_list(fills@, x as int + j, y as int),
                forall|j: int| 0 < j < i4 as int ==> #[trigger] in_list(fills@, x as int - j, y as int),
            decreases ll - i4,
        {
            let ghost fprev = fills@;
            fills.push((x - i4, y));
            proof {
                assert(in_fill_of(g, oob_tiletype, k, x as int, y as int, check_x, check_y, x as int - i4 as int, y as int));
                lemma_in_list_extend(fprev, fills@);
                assert(fills@[fills@.len() - 1] == ((x - i4) as usize, y));
                assert(in_list(fills@, x as int - i4 as int, y as int));
            }
            i4 = i4 + 1;
        }
    }
    proof {
        assert forall|px: int, py: int|
            in_fill_of(g, oob_tiletype, k, x as int, y as int, check_x, check_y, px, py)
                implies in_list(fills@, px, py) by {
            lemma_first_hit_bounds(g, x as int, y as int, 1, 0, k);
            lemma_first_hit_bounds(g, x as int, y as int, -1, 0, k);
            lemma_first_hit_bounds(g, x as int, y as int, 0, 1, k);
            lemma_first_hit_bounds(g, x as int, y as int, 0, -1, k);
            if px == x as int && py == y as int {
            } else if check_y && px == x as int && py > y as int {
                let j = py - y as int;
                assert(in_list(fills@, x as int, y as int + j));
            } else if check_y && px == x as int && py < y as int {
                let j = y as int - py;
                assert(in_list(fills@, x as int, y as int - j));
            } else if check_x && py == y as int && px > x as int {
                let j = px - x as int;
                assert(in_list(fills@, x as int + j, y as int));
            } else {
                let j = x as int - px;
                assert(in_list(fills@, x as int - j, y as int));
            }
        }
    }
}

/// Fills every small out-of-bounds pocket that is pinched between floor
/// along the enabled axes: the pinch test and the extent of each fill come
/// from one pre-scan, and all fills are applied afterwards.
#[verifier::loop_isolation(false)]
pub fn remove_small_cluster(
    grid: &mut Grid,
    oob_tiletype: TileType,
    cluster_size: usize,
    check_x: bool,
    check_y: bool,
)
    requires
        grid_wf(old(grid)@),
        grid_w(old(grid)@) <= 0x8000,
        grid_h(old(grid)@) <= 0x8000,
        (cluster_size as int) + 1 < 0x8000,
    ensures
        grid_wf(final(grid)@),
        same_dims(old(grid)@, final(grid)@),
        forall|px: int, py: int|
            grid_in(old(grid)@, px, py) ==> grid_at(final(grid)@, px, py) == cleaned_at(
                old(grid)@,
                oob_tiletype,
                cluster_size as int,
                check_x,
                check_y,
                px,
                py,
            ),
        // the walkable set only grows
        forall|px: int, py: int|
            grid_in(old(grid)@, px, py) && (#[trigger] grid_at(old(grid)@, px, py)).walkable
                ==> grid_at(final(grid)@, px, py).walkable,
        // walkable tiles outside the out-of-bounds category are untouched:
        // fills reach only to the nearest floor, never across it
        forall|px: int, py: int|
            grid_in(old(grid)@, px, py) && (#[trigger] grid_at(old(grid)@, px, py)).walkable
                && grid_at(old(grid)@, px, py).tile_type != oob_tiletype ==> grid_at(
                final(grid)@,
                px,
                py,
            ) == grid_at(old(grid)@, px, py),
{
    let ghost g = grid@;
    let ghost k = cluster_size as int;
    let w = grid.len();
    let h = grid[0].len();
    let mut fills: Vec<(usize, usize)> = Vec::new();

    let mut x: usize = 0;
    while x < w
        invariant
            x <= w,
            forall|t: int|
                0 <= t < fills@.len() ==> filled(
                    g,
                    oob_tiletype,
                    k,
                    check_x,
                    check_y,
                    (#[trigger] fills@[t]).0 as int,
                    fills@[t].1 as int,
                ),
            forall|px: int, py: int|
                filled_before(g, oob_tiletype, k, check_x, check_y, px, py, x as int, 0)
                    ==> in_list(fills@, px, py),
        decreases w - x,
    {
        let mut y: usize = 0;
        while y < h
            invariant
                x < w,
                y <= h,
                forall|t: int|
                    0 <= t < fills@.len() ==> filled(
                        g,
                        oob_tiletype,
                        k,
                        check_x,
                        check_y,
                        (#[trigger] fills@[t]).0 as int,
                        fills@[t].1 as int,
                    ),
                forall|px: int, py: int|
                    filled_before(g, oob_tiletype, k, check_x, check_y, px, py, x as int, y as int)
                        ==> in_list(fills@, px, py),
            decreases h - y,
        {
            let ghost fprev = fills@;
            record_center(grid, oob_tiletype, cluster_size, check_x, check_y, x, y, &mut fills);
            proof {
                lemma_in_list_extend(fprev, fills@);
                assert forall|px: int, py: int|
                    filled_before(
                        g,
                        oob_tiletype,
                        k,
                        check_x,
                        check_y,
                        px,
                        py,
                        x as int,
                        y as int + 1,
                    ) implies in_list(fills@, px, py) by {
                    let (cx, cy) = choose|cx: int, cy: int|
                        (cx < x as int || (cx == x as int && cy < y as int + 1))
                            && #[trigger] in_fill_of(
                            g,
                            oob_tiletype,
                            k,
                            cx,
                            cy,
                            check_x,
                            check_y,
                            px,
                            py,
                        );
                    if cx == x as int && cy == y as int {
                    } else {
                        assert(filled_before(
                            g,
                            oob_tiletype,
                            k,
                            check_x,
                            check_y,
                            px,
                            py,
                            x as int,
                            y as int,
                        ));
                    }
                }
            }
            y = y + 1;
        }
        proof {
            assert forall|px: int, py: int|
                filled_before(g, oob_tiletype, k, check_x, check_y, px, py, x as int + 1, 0)
                    implies in_list(fills@, px, py) by {
                let (cx, cy) = choose|cx: int, cy: int|
                    (cx < x as int + 1 || (cx == x as int + 1 && cy < 0)) && #[trigger] in_fill_of(
                        g,
                        oob_tiletype,
                        k,
                        cx,
                        cy,
                        check_x,
                        check_y,
                        px,
                        py,
                    );
                assert(0 <= cy < grid_h(g));
                assert(filled_before(
                    g,
                    oob_tiletype,
                    k,
                    check_x,
                    check_y,
                    px,
                    py,
                    x as int,
                    h as int,
                ));
            }
        }
        x = x + 1;
    }

    proof {
        assert forall|px: int, py: int|
            filled(g, oob_tiletype, k, check_x, check_y, px, py) implies in_list(fills@, px, py) by {
            let (cx, cy) = choose|cx: int, cy: int|
                #[trigger] in_fill_of(g, oob_tiletype, k, cx, cy, check_x, check_y, px, py);
            assert(0 <= cx < grid_w(g));
            assert(filled_before(g, oob_tiletype, k, check_x, check_y, px, py, w as int, 0));
        }
    }

    // apply all recorded fills
    let n = fills.len();
    let mut t: usize = 0;
    while t < n
        invariant
            t <= n,
            n == fills@.len(),
            grid_wf(grid@),
            same_dims(g, grid@),
            forall|t2: int|
                0 <= t2 < fills@.len() ==> filled(
                    g,
                    oob_tiletype,
                    k,
                    check_x,
                    check_y,
                    (#[trigger] fills@[t2]).0 as int,
                    fills@[t2].1 as int,
                ),
            forall|px: int, py: int|
                filled(g, oob_tiletype, k, check_x, check_y, px, py) ==> in_list(fills@, px, py),
            forall|px: int, py: int|
                grid_in(g, px, py) ==> grid_at(grid@, px, py) == (if exists|t2: int|
                    0 <= t2 < t as int && (#[trigger] fills@[t2]).0 == px && fills@[t2].1 == py {
                    stamped(grid_at(g, px, py), TileType::Floor, true, false)
                } else {
                    grid_at(g, px, py)
                }),
        decreases n - t,
    {
        let (fx, fy) = fills[t];
        let ghost gprev = grid@;
        add_tile(grid, fx, fy, TileType::Floor, true, false);
        proof {
            assert(filled(g, oob_tiletype, k, check_x, check_y, fx as int, fy as int));
            let (cx, cy) = choose|cx: int, cy: int|
                #[trigger] in_fill_of(g, oob_tiletype, k, cx, cy, check_x, check_y, fx as int, fy as int);
            lemma_first_hit_bounds(g, cx, cy, 1, 0, k);
            lemma_first_hit_bounds(g, cx, cy, -1, 0, k);
            lemma_first_hit_bounds(g, cx, cy, 0, 1, k);
            lemma_first_hit_bounds(g, cx, cy, 0, -1, k);
            assert(grid_in(g, fx as int, fy as int));
            assert forall|px: int, py: int| grid_in(g, px, py) implies grid_at(grid@, px, py)
                == (if exists|t2: int|
                0 <= t2 < t as int + 1 && (#[trigger] fills@[t2]).0 == px && fills@[t2].1 == py {
                stamped(grid_at(g, px, py), TileType::Floor, true, false)
            } else {
                grid_at(g, px, py)
            }) by {
                if px == fx as int && py == fy as int {
                    assert(fills@[t as int].0 == px && fills@[t as int].1 == py);
                } else {
                    assert(grid_at(grid@, px, py) == grid_at(gprev, px, py));
                    if exists|t2: int|
                        0 <= t2 < t as int + 1 && (#[trigger] fills@[t2]).0 == px && fills@[t2].1
                            == py {
                        let t2 = choose|t2: int|
                            0 <= t2 < t as int + 1 && (#[trigger] fills@[t2]).0 == px
                                && fills@[t2].1 == py;
                        assert(t2 < t as int);
                    }
                }
            }
        }
        t = t + 1;
    }
    proof {
        assert forall|px: int, py: int| grid_in(g, px, py) implies grid_at(grid@, px, py)
            == cleaned_at(g, oob_tiletype, k, check_x, check_y, px, py) by {
            if filled(g, oob_tiletype, k, check_x, check_y, px, py) {
                assert(in_list(fills@, px, py));
                let t2 = choose|t2: int|
                    0 <= t2 < fills@.len() && (#[trigger] fills@[t2]).0 == px && fills@[t2].1 == py;
            } else {
                if exists|t2: int|
                    0 <= t2 < n as int && (#[trigger] fills@[t2]).0 == px && fills@[t2].1 == py {
                    let t2 = choose|t2: int|
                        0 <= t2 < n as int && (#[trigger] fills@[t2]).0 == px && fills@[t2].1
                            == py;
                    assert(filled(g, oob_tiletype, k, check_x, check_y, px, py));
                }
            }
        }
        assert forall|px: int, py: int|
            grid_in(g, px, py) && (#[trigger] grid_at(g, px, py)).walkable && grid_at(
                g,
                px,
                py,
            ).tile_type != oob_tiletype implies grid_at(grid@, px, py) == grid_at(g, px, py) by {
            if filled(g, oob_tiletype, k, check_x, check_y, px, py) {
                let (cx, cy) = choose|cx: int, cy: int|
                    #[trigger] in_fill_of(g, oob_tiletype, k, cx, cy, check_x, check_y, px, py);
                if px == cx && py == cy {
                    // the center carries the out-of-bounds category
                } else {
                    // a segment cell lies strictly before the nearest floor
                    lemma_first_hit_least(g, cx, cy, 0, 1, k);
                    lemma_first_hit_least(g, cx, cy, 0, -1, k);
                    lemma_first_hit_least(g, cx, cy, 1, 0, k);
                    lemma_first_hit_least(g, cx, cy, -1, 0, k);
                    if check_y && px == cx && py > cy {
                        let i = py - cy;
                        assert(!grid_at(g, cx + i * 0, cy + i * 1).walkable);
                    } else if check_y && px == cx && py < cy {
                        let i = cy - py;
                        assert(!grid_at(g, cx + i * 0, cy + i * -1).walkable);
                    } else if check_x && py == cy && px > cx {
                        let i = px - cx;
                        assert(!grid_at(g, cx + i * 1, cy + i * 0).walkable);
                    } else {
                        let i = cx - px;
                        assert(!grid_at(g, cx + i * -1, cy + i * 0).walkable);
                    }
                }
            }
        }
    }
}


/// If some step of a scan hits a walkable tile, a nearest hit is recorded:
/// it is positive and no farther than that step.
pub proof fn lemma_first_hit_exists(
    g: Seq<Vec<Tile>>,
    x: int,
    y: int,
    dx: int,
    dy: int,
    m: int,
    i: int,
)
    requires
        1 <= i < m,
        grid_at(g, x + i * dx, y + i * dy).walkable,
    ensures
        0 < first_hit(g, x, y, dx, dy, m) <= i,
    decreases m,
{
    if m - 1 > i {
        lemma_first_hit_exists(g, x, y, dx, dy, m - 1, i);
        lemma_first_hit_bounds(g, x, y, dx, dy, m - 1);
    } else {
        lemma_first_hit_bounds(g, x, y, dx, dy, m - 1);
    }
}

/// In vertical-only cleanup mode, a floor tile that the cleaned grid shows
/// within `k - 1` cells of `(cx, cy)` in vertical direction `s` implies the
/// grid before the pass already had one, provided `(cx, cy)` itself was neither
/// walkable nor filled.
proof fn lemma_vertical_hit_transfer(
    g: Seq<Vec<Tile>>,
    g1: Seq<Vec<Tile>>,
    oob: TileType,
    k: int,
    cx: int,
    cy: int,
    s: int,
)
    requires
        grid_wf(g),
        same_dims(g, g1),
        g1.len() == g.len(),
        forall|px: int, py: int|
            grid_in(g, px, py) ==> grid_at(g1, px, py) == cleaned_at(g, oob, k, false, true, px, py),
        s == 1 || s == -1,
        cx > k,
        cx + k < grid_w(g),
        cy > k,
        cy + k < grid_h(g),
        !grid_at(g, cx, cy).walkable,
        !filled(g, oob, k, false, true, cx, cy),
        first_hit(g1, cx, cy, 0, s, k) > 0,
    ensures
        first_hit(g, cx, cy, 0, s, k) > 0,
{
    let lb1 = first_hit(g1, cx, cy, 0, s, k);
    lemma_first_hit_bounds(g1, cx, cy, 0, s, k);
    let qy: int = if s == 1 { cy + lb1 } else { cy - lb1 };
    assert(lb1 * s == qy - cy) by {
        if s == 1 {
            assert(lb1 * 1 == lb1);
        } else {
            assert(lb1 * -1 == -lb1);
        }
    }
    assert(lb1 * 0 == 0);
    assert(grid_at(g1, cx, qy).walkable);
    assert(grid_in(g, cx, qy));
    if grid_at(g, cx, qy).walkable {
        lemma_first_hit_exists(g, cx, cy, 0, s, k, lb1);
    } else {
        // the cleaned grid differs at (cx, qy): the cell was filled
        assert(grid_at(g1, cx, qy) == cleaned_at(g, oob, k, false, true, cx, qy));
        assert(filled(g, oob, k, false, true, cx, qy));
        let (ax, ay) = choose|ax: int, ay: int|
            #[trigger] in_fill_of(g, oob, k, ax, ay, false, true, cx, qy);
        assert(ax == cx);
        let lu2 = first_hit(g, ax, ay, 0, -1, k);
        let lb2 = first_hit(g, ax, ay, 0, 1, k);
        lemma_first_hit_bounds(g, ax, ay, 0, -1, k);
        lemma_first_hit_bounds(g, ax, ay, 0, 1, k);
        let e_lo = ay - lu2;
        let e_hi = ay + lb2;
        assert(lu2 > 0 && lb2 > 0);
        assert(grid_at(g, cx, e_lo).walkable);
        assert(grid_at(g, cx, e_hi).walkable);
        assert(e_lo < qy < e_hi);
        // (cx, cy) is not on the fill segment of (ax, ay)
        assert(!(e_lo < cy < e_hi)) by {
            if e_lo < cy < e_hi {
                assert(in_fill_of(g, oob, k, ax, ay, false, true, cx, cy));
            }
        }
        if s == 1 {
            // cy < qy < e_hi, so cy lies at or below e_lo
            assert(cy <= e_lo);
            assert(cy < e_lo);  // equality would make (cx, cy) walkable
            assert(1 <= e_lo - cy < lb1);
            assert((e_lo - cy) * 1 == e_lo - cy);
            assert(grid_at(g, cx, cy + (e_lo - cy) * 1).walkable);
            lemma_first_hit_exists(g, cx, cy, 0, 1, k, e_lo - cy);
        } else {
            assert(cy >= e_hi);
            assert(cy > e_hi);
            assert(1 <= cy - e_hi < lb1);
            assert((cy - e_hi) * -1 == e_hi - cy);
            assert(grid_at(g, cx, cy + (cy - e_hi) * -1).walkable);
            lemma_first_hit_exists(g, cx, cy, 0, -1, k, cy - e_hi);
        }
    }
}

/// The horizontal counterpart of the vertical transfer argument.
proof fn lemma_horizontal_hit_transfer(
    g: Seq<Vec<Tile>>,
    g1: Seq<Vec<Tile>>,
    oob: TileType,
    k: int,
    cx: int,
    cy: int,
    s: int,
)
    requires
        grid_wf(g),
        same_dims(g, g1),
        g1.len() == g.len(),
        forall|px: int, py: int|
            grid_in(g, px, py) ==> grid_at(g1, px, py) == cleaned_at(g, oob, k, true, false, px, py),
        s == 1 || s == -1,
        cx > k,
        cx + k < grid_w(g),
        cy > k,
        cy + k < grid_h(g),
        !grid_at(g, cx, cy).walkable,
        !filled(g, oob, k, true, false, cx, cy),
        first_hit(g1, cx, cy, s, 0, k) > 0,
    ensures
        first_hit(g, cx, cy, s, 0, k) > 0,
{
    let lb1 = first_hit(g1, cx, cy, s, 0, k);
    lemma_first_hit_bounds(g1, cx, cy, s, 0, k);
    let qx: int = if s == 1 { cx + lb1 } else { cx - lb1 };
    assert(lb1 * s == qx - cx) by {
        if s == 1 {
            assert(lb1 * 1 == lb1);
        } else {
            assert(lb1 * -1 == -lb1);
        }
    }
    assert(lb1 * 0 == 0);
    assert(grid_at(g1, qx, cy).walkable);
    assert(grid_in(g, qx, cy));
    if grid_at(g, qx, cy).walkable {
        lemma_first_hit_exists(g, cx, cy, s, 0, k, lb1);
    } else {
        assert(grid_at(g1, qx, cy) == cleaned_at(g, oob, k, true, false, qx, cy));
        assert(filled(g, oob, k, true, false, qx, cy));
        let (ax, ay) = choose|ax: int, ay: int|
            #[trigger] in_fill_of(g, oob, k, ax, ay, true, false, qx, cy);
        assert(ay == cy);
        let ll2 = first_hit(g, ax, ay, -1, 0, k);
        let lr2 = first_hit(g, ax, ay, 1, 0, k);
        lemma_first_hit_bounds(g, ax, ay, -1, 0, k);
        lemma_first_hit_bounds(g, ax, ay, 1, 0, k);
        let e_lo = ax - ll2;
        let e_hi = ax + lr2;
        assert(ll2 > 0 && lr2 > 0);
        assert(grid_at(g, e_lo, cy).walkable);
        assert(grid_at(g, e_hi, cy).walkable);
        assert(e_lo < qx < e_hi);
        assert(!(e_lo < cx < e_hi)) by {
            if e_lo < cx < e_hi {
                assert(in_fill_of(g, oob, k, ax, ay, true, false, cx, cy));
            }
        }
        if s == 1 {
            assert(cx <= e_lo);
            assert(cx < e_lo);
            assert(1 <= e_lo - cx < lb1);
            assert((e_lo - cx) * 1 == e_lo - cx);
            assert(grid_at(g, cx + (e_lo - cx) * 1, cy).walkable);
            lemma_first_hit_exists(g, cx, cy, 1, 0, k, e_lo - cx);
        } else {
            assert(cx >= e_hi);
            assert(cx > e_hi);
            assert(1 <= cx - e_hi < lb1);
            assert((cx - e_hi) * -1 == e_hi - cx);
            assert(grid_at(g, cx + (cx - e_hi) * -1, cy).walkable);
            lemma_first_hit_exists(g, cx, cy, -1, 0, k, cx - e_hi);
        }
    }
}

/// Cleanup idempotence for a single enabled axis: running the cleanup pass
/// on its own output fills nothing further, so a second pass with the same
/// parameters changes no tile.
///
/// `g1` is the outcome of one pass over `g`. The out-of-bounds category
/// must not itself be the floor category, and out-of-bounds tiles of `g`
/// must be non-walkable, as every grid of the generation pipeline is.
pub proof fn lemma_cleanup_idempotent(
    g: Seq<Vec<Tile>>,
    g1: Seq<Vec<Tile>>,
    oob: TileType,
    k: int,
    check_x: bool,
    check_y: bool,
)
    requires
        grid_wf(g),
        same_dims(g, g1),
        g1.len() == g.len(),
        check_x != check_y,
        oob != TileType::Floor,
        forall|x: int, y: int|
            grid_in(g, x, y) && (#[trigger] grid_at(g, x, y)).tile_type == oob ==> !grid_at(
                g,
                x,
                y,
            ).walkable,
        forall|px: int, py: int|
            grid_in(g, px, py) ==> grid_at(g1, px, py) == cleaned_at(
                g,
                oob,
                k,
                check_x,
                check_y,
                px,
                py,
            ),
    ensures
        forall|px: int, py: int| !filled(g1, oob, k, check_x, check_y, px, py),
        forall|px: int, py: int|
            grid_in(g1, px, py) ==> cleaned_at(g1, oob, k, check_x, check_y, px, py) == grid_at(
                g1,
                px,
                py,
            ),
{
    assert forall|cx: int, cy: int| !center_pinched(g1, oob, k, cx, cy, check_x, check_y) by {
        if center_pinched(g1, oob, k, cx, cy, check_x, check_y) {
            // the center kept the out-of-bounds category, so it was not filled
            assert(grid_at(g1, cx, cy) == cleaned_at(g, oob, k, check_x, check_y, cx, cy));
            assert(!filled(g, oob, k, check_x, check_y, cx, cy)) by {
                if filled(g, oob, k, check_x, check_y, cx, cy) {
                    assert(grid_at(g1, cx, cy).tile_type == TileType::Floor);
                }
            }
            assert(grid_at(g, cx, cy).tile_type == oob);
            assert(!grid_at(g, cx, cy).walkable);
            if check_y {
                lemma_vertical_hit_transfer(g, g1, oob, k, cx, cy, 1);
                lemma_vertical_hit_transfer(g, g1, oob, k, cx, cy, -1);
            } else {
                lemma_horizontal_hit_transfer(g, g1, oob, k, cx, cy, 1);
                lemma_horizontal_hit_transfer(g, g1, oob, k, cx, cy, -1);
            }
            assert(center_pinched(g, oob, k, cx, cy, check_x, check_y));
            assert(in_fill_of(g, oob, k, cx, cy, check_x, check_y, cx, cy));
            assert(filled(g, oob, k, check_x, check_y, cx, cy));
        }
    }
    assert forall|px: int, py: int| !filled(g1, oob, k, check_x, check_y, px, py) by {
        if filled(g1, oob, k, check_x, check_y, px, py) {
            let (ax, ay) = choose|ax: int, ay: int|
                #[trigger] in_fill_of(g1, oob, k, ax, ay, check_x, check_y, px, py);
            assert(!center_pinched(g1, oob, k, ax, ay, check_x, check_y));
        }
    }
}

} // verus!
