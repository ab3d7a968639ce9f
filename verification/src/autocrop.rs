//! Autocrop: trims the grid to the smallest rectangle that keeps a clear
//! margin of `border_size` non-walkable cells around the walkable region.

use vstd::prelude::*;
use crate::tiles::Grid;
use crate::tiles::Tile;
use crate::tiles::grid_at;
use crate::tiles::grid_h;
use crate::tiles::grid_in;
use crate::tiles::grid_w;
use crate::tiles::grid_wf;
use crate::tiles::same_dims;

verus! {

/// Column `c` contains at least one walkable tile.
pub open spec fn col_has_walkable(g: Seq<Vec<Tile>>, c: int) -> bool {
    exists|y: int| 0 <= y < grid_h(g) && (#[trigger] grid_at(g, c, y)).walkable
}

/// Row `r` contains at least one walkable tile.
pub open spec fn row_has_walkable(g: Seq<Vec<Tile>>, r: int) -> bool {
    exists|x: int| 0 <= x < grid_w(g) && (#[trigger] grid_at(g, x, r)).walkable
}

/// The grid contains at least one walkable tile.
pub open spec fn has_walkable(g: Seq<Vec<Tile>>) -> bool {
    exists|x: int, y: int| grid_in(g, x, y) && (#[trigger] grid_at(g, x, y)).walkable
}

/// Every walkable tile lies at least `bs` cells away from every grid edge.
pub open spec fn walkable_margins(g: Seq<Vec<Tile>>, bs: int) -> bool {
    forall|x: int, y: int|
        grid_in(g, x, y) && (#[trigger] grid_at(g, x, y)).walkable ==> bs <= x < grid_w(g)
            - bs && bs <= y < grid_h(g) - bs
}

/// `c` is the leftmost column containing a walkable tile.
pub open spec fn is_min_walk_col(g: Seq<Vec<Tile>>, c: int) -> bool {
    &&& 0 <= c < grid_w(g)
    &&& col_has_walkable(g, c)
    &&& forall|c2: int| 0 <= c2 < c ==> !(#[trigger] col_has_walkable(g, c2))
}

/// `c` is the rightmost column containing a walkable tile.
pub open spec fn is_max_walk_col(g: Seq<Vec<Tile>>, c: int) -> bool {
    &&& 0 <= c < grid_w(g)
    &&& col_has_walkable(g, c)
    &&& forall|c2: int| c < c2 < grid_w(g) ==> !(#[trigger] col_has_walkable(g, c2))
}

/// `r` is the topmost row containing a walkable tile.
pub open spec fn is_min_walk_row(g: Seq<Vec<Tile>>, r: int) -> bool {
    &&& 0 <= r < grid_h(g)
    &&& row_has_walkable(g, r)
    &&& forall|r2: int| 0 <= r2 < r ==> !(#[trigger] row_has_walkable(g, r2))
}

/// `r` is the bottommost row containing a walkable tile.
pub open spec fn is_max_walk_row(g: Seq<Vec<Tile>>, r: int) -> bool {
    &&& 0 <= r < grid_h(g)
    &&& row_has_walkable(g, r)
    &&& forall|r2: int| r < r2 < grid_h(g) ==> !(#[trigger] row_has_walkable(g, r2))
}

/// `g2` is `g` cropped to the walkable bounding box `[lox, hix] x [loy, hiy]`
/// plus a `bs`-cell margin on every side.
pub open spec fn cropped_to(
    g: Seq<Vec<Tile>>,
    g2: Seq<Vec<Tile>>,
    bs: int,
    lox: int,
    hix: int,
    loy: int,
    hiy: int,
) -> bool {
    &&& is_min_walk_col(g, lox)
    &&& is_max_walk_col(g, hix)
    &&& is_min_walk_row(g, loy)
    &&& is_max_walk_row(g, hiy)
    &&& grid_w(g2) == hix - lox + 1 + 2 * bs
    &&& grid_h(g2) == hiy - loy + 1 + 2 * bs
    &&& forall|i: int, j: int|
        grid_in(g2, i, j) ==> #[trigger] grid_at(g2, i, j) == grid_at(
            g,
            i + lox - bs,
            j + loy - bs,
        )
}

/// `g2` is the autocrop of `g` with margin `bs`.
pub open spec fn is_crop_of(g: Seq<Vec<Tile>>, g2: Seq<Vec<Tile>>, bs: int) -> bool {
    exists|lox: int, hix: int, loy: int, hiy: int|
        #[trigger] cropped_to(g, g2, bs, lox, hix, loy, hiy)
}

/// Reports whether column `c` contains a walkable tile.
#[verifier::loop_isolation(false)]
fn col_walkable(grid: &Grid, c: usize) -> (r: bool)
    requires
        grid_wf(grid@),
        (c as int) < grid_w(grid@),
    ensures
        r == col_has_walkable(grid@, c as int),
{
    let h = grid[c].len();
    let mut y: usize = 0;
    while y < h
        invariant
            y <= h,
            h == grid_h(grid@),
            forall|j: int| 0 <= j < y as int ==> !(#[trigger] grid_at(grid@, c as int, j)).walkable,
        decreases h - y,
    {
        if grid[c][y].walkable {
            proof {
                assert(grid_at(grid@, c as int, y as int).walkable);
            }
            return true;
        }
        y = y + 1;
    }
    false
}

/// Reports whether row `r` contains a walkable tile.
#[verifier::loop_isolation(false)]
fn row_walkable(grid: &Grid, r: usize) -> (res: bool)
    requires
        grid_wf(grid@),
        (r as int) < grid_h(grid@),
    ensures
        res == row_has_walkable(grid@, r as int),
{
    let w = grid.len();
    let mut x: usize = 0;
    while x < w
        invariant
            x <= w,
            w == grid_w(grid@),
            forall|i: int| 0 <= i < x as int ==> !(#[trigger] grid_at(grid@, i, r as int)).walkable,
        decreases w - x,
    {
        if grid[x][r].walkable {
            proof {
                assert(grid_at(grid@, x as int, r as int).walkable);
            }
            return true;
        }
        x = x + 1;
    }
    false
}

/// Reports whether the grid both contains a walkable tile and keeps every
/// walkable tile at least `bs` cells from every edge — the precondition of
/// the crop.
#[verifier::loop_isolation(false)]
pub fn crop_precondition(grid: &Grid, bs: usize) -> (r: bool)
    requires
        grid_wf(grid@),
    ensures
        r == (has_walkable(grid@) && walkable_margins(grid@, bs as int)),
{
    let w = grid.len();
    let h = grid[0].len();
    let mut found = false;
    let mut x: usize = 0;
    while x < w
        invariant
            x <= w,
            w == grid_w(grid@),
            h == grid_h(grid@),
            found ==> has_walkable(grid@),
            !found ==> forall|i: int, j: int|
                0 <= i < x as int && 0 <= j < grid_h(grid@) ==> !(#[trigger] grid_at(grid@, i, j)).walkable,
            forall|i: int, j: int|
                0 <= i < x as int && 0 <= j < grid_h(grid@) && (#[trigger] grid_at(grid@, i, j)).walkable ==> bs <= i < grid_w(grid@) - bs && bs <= j < grid_h(grid@) - bs,
        decreases w - x,
    {
        let mut y: usize = 0;
        while y < h
            invariant
                x < w,
                y <= h,
                w == grid_w(grid@),
                h == grid_h(grid@),
                found ==> has_walkable(grid@),
                !found ==> forall|i: int, j: int|
                    (0 <= i < x as int && 0 <= j < grid_h(grid@)) || (i == x as int && 0 <= j
                        < y as int) ==> !(#[trigger] grid_at(grid@, i, j)).walkable,
                forall|i: int, j: int|
                    ((0 <= i < x as int && 0 <= j < grid_h(grid@)) || (i == x as int && 0 <= j
                        < y as int)) && (#[trigger] grid_at(grid@, i, j)).walkable ==> bs
                        <= i < grid_w(grid@) - bs && bs <= j < grid_h(grid@) - bs,
            decreases h - y,
        {
            if grid[x][y].walkable {
                proof {
                    assert(grid_at(grid@, x as int, y as int).walkable);
                }
                found = true;
                if !(bs <= x && x < w - bs && bs <= y && y < h - bs) {
                    proof {
                        assert(!walkable_margins(grid@, bs as int));
                    }
                    return false;
                }
            }
            y = y + 1;
        }
        x = x + 1;
    }
    found
}

/// Crops the grid to the minimal bounding rectangle of its walkable region
/// plus a `border_size` margin on every side, shifting all coordinates.
///
/// The caller must have checked [`crop_precondition`]; a grid without a
/// walkable tile, or with walkable tiles inside the margin, is a fatal
/// precondition violation of the generation pipeline.
#[verifier::loop_isolation(false)]
pub fn resize_grid(grid: &mut Grid, border_size: usize)
    requires
        grid_wf(old(grid)@),
        has_walkable(old(grid)@),
        walkable_margins(old(grid)@, border_size as int),
    ensures
        grid_wf(final(grid)@),
        is_crop_of(old(grid)@, final(grid)@, border_size as int),
{
    let w = grid.len();
    let h = grid[0].len();
    let ghost gw = choose|x: int, y: int|
        grid_in(grid@, x, y) && (#[trigger] grid_at(grid@, x, y)).walkable;
    proof {
        assert(col_has_walkable(grid@, gw.0));
        assert(row_has_walkable(grid@, gw.1));
    }

    let mut lox: usize = 0;
    while !col_walkable(grid, lox)
        invariant
            lox as int <= gw.0, gw.0 < w as int,
            forall|c: int| 0 <= c < lox as int ==> !(#[trigger] col_has_walkable(grid@, c)),
        decreases gw.0 - lox as int,
    {
        lox = lox + 1;
    }

    let mut hix: usize = w - 1;
    while !col_walkable(grid, hix)
        invariant
            gw.0 <= hix as int, (hix as int) < w as int,
            forall|c: int| (hix as int) < c && c < w as int ==> !(#[trigger] col_has_walkable(grid@, c)),
        decreases hix,
    {
        hix = hix - 1;
    }

    let mut loy: usize = 0;
    while !row_walkable(grid, loy)
        invariant
            loy as int <= gw.1, gw.1 < h as int,
            forall|r: int| 0 <= r < loy as int ==> !(#[trigger] row_has_walkable(grid@, r)),
        decreases gw.1 - loy as int,
    {
        loy = loy + 1;
    }

    let mut hiy: usize = h - 1;
    while !row_walkable(grid, hiy)
        invariant
            gw.1 <= hiy as int, (hiy as int) < h as int,
            forall|r: int| (hiy as int) < r && r < h as int ==> !(#[trigger] row_has_walkable(grid@, r)),
        decreases hiy,
    {
        hiy = hiy - 1;
    }

    proof {
        assert(is_min_walk_col(grid@, lox as int));
        assert(is_max_walk_col(grid@, hix as int));
        assert(is_min_walk_row(grid@, loy as int));
        assert(is_max_walk_row(grid@, hiy as int));
        // the walkable bounding box respects the margins
        let wy = choose|y: int| 0 <= y < grid_h(grid@) && (#[trigger] grid_at(grid@, lox as int, y)).walkable;
        assert(border_size as int <= lox as int);
        let wy2 = choose|y: int| 0 <= y < grid_h(grid@) && (#[trigger] grid_at(grid@, hix as int, y)).walkable;
        assert((hix as int) < w as int - border_size as int);
        let wx = choose|x: int| 0 <= x < grid_w(grid@) && (#[trigger] grid_at(grid@, x, loy as int)).walkable;
        assert(border_size as int <= loy as int);
        let wx2 = choose|x: int| 0 <= x < grid_w(grid@) && (#[trigger] grid_at(grid@, x, hiy as int)).walkable;
        assert((hiy as int) < h as int - border_size as int);
    }

    let x0 = lox - border_size;
    let y0 = loy - border_size;
    let new_w = hix - lox + 1 + 2 * border_size;
    let new_h = hiy - loy + 1 + 2 * border_size;

    let mut out: Grid = Vec::new();
    let mut i: usize = 0;
    while i < new_w
        invariant
            i <= new_w,
            out@.len() == i as int,
            x0 + new_w <= w,
            y0 + new_h <= h,
            forall|a: int| 0 <= a < i as int ==> (#[trigger] out@[a])@.len() == new_h as int,
            forall|a: int, b: int|
                0 <= a < i as int && 0 <= b < new_h as int ==> grid_at(out@, a, b) == grid_at(
                    grid@,
                    a + x0 as int,
                    b + y0 as int,
                ),
        decreases new_w - i,
    {
        let ghost prev_out = out@;
        let mut row: Vec<Tile> = Vec::new();
        let mut j: usize = 0;
        while j < new_h
            invariant
                i < new_w,
                j <= new_h,
                x0 + new_w <= w,
                y0 + new_h <= h,
                row@.len() == j as int,
                forall|b: int|
                    0 <= b < j as int ==> row@[b] == grid_at(grid@, i + x0 as int, b + y0 as int),
            decreases new_h - j,
        {
            row.push(grid[x0 + i][y0 + j]);
            j = j + 1;
        }
        let ghost row_v = row@;
        out.push(row);
        proof {
            assert forall|a: int, b: int| 0 <= a < i as int + 1 && 0 <= b < new_h as int implies
                grid_at(out@, a, b) == grid_at(grid@, a + x0 as int, b + y0 as int) by {
                if a < i as int {
                    assert(grid_at(prev_out, a, b) == grid_at(grid@, a + x0 as int, b + y0 as int));
                    assert(out@[a] == prev_out[a]);
                } else {
                    assert(out@[a]@ == row_v);
                }
            }
        }
        i = i + 1;
    }
    *grid = out;
    proof {
        assert(cropped_to(
            old(grid)@,
            grid@,
            border_size as int,
            lox as int,
            hix as int,
            loy as int,
            hiy as int,
        ));
    }
}

/// Autocrop minimality: in the cropped grid the walkable region spans
/// exactly the box that leaves a `bs`-cell clear margin on every side, so
/// every boundary-probe line (offset `bs` from its side) contains a
/// walkable tile, while trimming any side further would cut into that
/// margin.
pub proof fn lemma_autocrop_minimal(g: Seq<Vec<Tile>>, g2: Seq<Vec<Tile>>, bs: int)
    requires
        grid_wf(g),
        grid_wf(g2),
        0 <= bs,
        walkable_margins(g, bs),
        is_crop_of(g, g2, bs),
    ensures
        is_min_walk_col(g2, bs),
        is_max_walk_col(g2, grid_w(g2) - 1 - bs),
        is_min_walk_row(g2, bs),
        is_max_walk_row(g2, grid_h(g2) - 1 - bs),
{
    let (lox, hix, loy, hiy) = choose|lox: int, hix: int, loy: int, hiy: int|
        #[trigger] cropped_to(g, g2, bs, lox, hix, loy, hiy);
    let w2 = grid_w(g2);
    let h2 = grid_h(g2);

    // margins of the uncropped grid around the bounding box
    assert(bs <= lox) by {
        let y = choose|y: int| 0 <= y < grid_h(g) && (#[trigger] grid_at(g, lox, y)).walkable;
    }
    assert(hix < grid_w(g) - bs) by {
        let y = choose|y: int| 0 <= y < grid_h(g) && (#[trigger] grid_at(g, hix, y)).walkable;
    }
    assert(bs <= loy) by {
        let x = choose|x: int| 0 <= x < grid_w(g) && (#[trigger] grid_at(g, x, loy)).walkable;
    }
    assert(hiy < grid_h(g) - bs) by {
        let x = choose|x: int| 0 <= x < grid_w(g) && (#[trigger] grid_at(g, x, hiy)).walkable;
    }

    // a cell of g2 is walkable iff the corresponding cell of g is
    assert forall|c: int| 0 <= c < w2 implies (col_has_walkable(g2, c) <==> col_has_walkable(
        g,
        c + lox - bs,
    )) by {
        if col_has_walkable(g2, c) {
            let y = choose|y: int| 0 <= y < h2 && (#[trigger] grid_at(g2, c, y)).walkable;
            assert(grid_at(g, c + lox - bs, y + loy - bs).walkable);
            assert(col_has_walkable(g, c + lox - bs));
        }
        if col_has_walkable(g, c + lox - bs) {
            let y = choose|y: int|
                0 <= y < grid_h(g) && (#[trigger] grid_at(g, c + lox - bs, y)).walkable;
            // the walkable tile lies within the bounding rows
            assert(loy <= y <= hiy) by {
                assert(row_has_walkable(g, y));
            }
            assert(grid_at(g2, c, y - loy + bs) == grid_at(g, c + lox - bs, y));
            assert(col_has_walkable(g2, c));
        }
    }
    assert forall|r: int| 0 <= r < h2 implies (row_has_walkable(g2, r) <==> row_has_walkable(
        g,
        r + loy - bs,
    )) by {
        if row_has_walkable(g2, r) {
            let x = choose|x: int| 0 <= x < w2 && (#[trigger] grid_at(g2, x, r)).walkable;
            assert(grid_at(g, x + lox - bs, r + loy - bs).walkable);
            assert(row_has_walkable(g, r + loy - bs));
        }
        if row_has_walkable(g, r + loy - bs) {
            let x = choose|x: int|
                0 <= x < grid_w(g) && (#[trigger] grid_at(g, x, r + loy - bs)).walkable;
            assert(lox <= x <= hix) by {
                assert(col_has_walkable(g, x));
            }
            assert(grid_at(g2, x - lox + bs, r) == grid_at(g, x, r + loy - bs));
            assert(row_has_walkable(g2, r));
        }
    }

    assert(col_has_walkable(g2, bs));
    assert(col_has_walkable(g2, w2 - 1 - bs));
    assert(row_has_walkable(g2, bs));
    assert(row_has_walkable(g2, h2 - 1 - bs));
}


/// A crop with margins in force never grows the grid.
pub proof fn lemma_crop_shrinks(g: Seq<Vec<Tile>>, g2: Seq<Vec<Tile>>, bs: int)
    requires
        grid_wf(g),
        0 <= bs,
        walkable_margins(g, bs),
        is_crop_of(g, g2, bs),
    ensures
        grid_w(g2) <= grid_w(g),
        grid_h(g2) <= grid_h(g),
{
    let (lox, hix, loy, hiy) = choose|lox: int, hix: int, loy: int, hiy: int|
        #[trigger] cropped_to(g, g2, bs, lox, hix, loy, hiy);
    assert(bs <= lox) by {
        let y = choose|y: int| 0 <= y < grid_h(g) && (#[trigger] grid_at(g, lox, y)).walkable;
    }
    assert(hix < grid_w(g) - bs) by {
        let y = choose|y: int| 0 <= y < grid_h(g) && (#[trigger] grid_at(g, hix, y)).walkable;
    }
    assert(bs <= loy) by {
        let x = choose|x: int| 0 <= x < grid_w(g) && (#[trigger] grid_at(g, x, loy)).walkable;
    }
    assert(hiy < grid_h(g) - bs) by {
        let x = choose|x: int| 0 <= x < grid_w(g) && (#[trigger] grid_at(g, x, hiy)).walkable;
    }
}

/// Two grids that agree pointwise on walkability have walkable tiles in
/// exactly the same columns and rows.
pub proof fn lemma_walkable_lines_agree(a: Seq<Vec<Tile>>, b: Seq<Vec<Tile>>)
    requires
        same_dims(a, b),
        forall|x: int, y: int|
            grid_in(a, x, y) ==> (#[trigger] grid_at(b, x, y)).walkable == grid_at(
                a,
                x,
                y,
            ).walkable,
    ensures
        forall|c: int|
            0 <= c < grid_w(a) ==> ((#[trigger] col_has_walkable(b, c)) <==> col_has_walkable(
                a,
                c,
            )),
        forall|r: int|
            0 <= r < grid_h(a) ==> ((#[trigger] row_has_walkable(b, r)) <==> row_has_walkable(
                a,
                r,
            )),
        forall|c: int|
            0 <= c < grid_w(a) ==> ((#[trigger] col_has_walkable(a, c)) <==> col_has_walkable(
                b,
                c,
            )),
        forall|r: int|
            0 <= r < grid_h(a) ==> ((#[trigger] row_has_walkable(a, r)) <==> row_has_walkable(
                b,
                r,
            )),
{
    assert forall|c: int| 0 <= c < grid_w(a) implies ((#[trigger] col_has_walkable(b, c))
        <==> col_has_walkable(a, c)) by {
        if col_has_walkable(b, c) {
            let y = choose|y: int| 0 <= y < grid_h(b) && (#[trigger] grid_at(b, c, y)).walkable;
            assert(grid_at(a, c, y).walkable);
        }
        if col_has_walkable(a, c) {
            let y = choose|y: int| 0 <= y < grid_h(a) && (#[trigger] grid_at(a, c, y)).walkable;
            assert(grid_at(b, c, y).walkable);
        }
    }
    assert forall|r: int| 0 <= r < grid_h(a) implies ((#[trigger] row_has_walkable(b, r))
        <==> row_has_walkable(a, r)) by {
        if row_has_walkable(b, r) {
            let x = choose|x: int| 0 <= x < grid_w(b) && (#[trigger] grid_at(b, x, r)).walkable;
            assert(grid_at(a, x, r).walkable);
        }
        if row_has_walkable(a, r) {
            let x = choose|x: int| 0 <= x < grid_w(a) && (#[trigger] grid_at(a, x, r)).walkable;
            assert(grid_at(b, x, r).walkable);
        }
    }
    assert forall|c: int| 0 <= c < grid_w(a) implies ((#[trigger] col_has_walkable(a, c))
        <==> col_has_walkable(b, c)) by {}
    assert forall|r: int| 0 <= r < grid_h(a) implies ((#[trigger] row_has_walkable(a, r))
        <==> row_has_walkable(b, r)) by {}
}

} // verus!
