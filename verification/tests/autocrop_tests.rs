use area_gen::autocrop::{crop_precondition, resize_grid};
use area_gen::tiles::{draw_rectangle, init_grid, TileType};

#[test]
fn crop_precondition_requires_a_walkable_tile() {
    let g = init_grid(10, 10, TileType::Wall);
    assert!(!crop_precondition(&g, 2));
}

#[test]
fn crop_precondition_rejects_walkable_inside_margin() {
    let mut g = init_grid(10, 10, TileType::Wall);
    draw_rectangle(&mut g, TileType::Floor, (1, 1), (1, 5), true, false);
    assert!(!crop_precondition(&g, 2));
}

#[test]
fn crop_precondition_accepts_margined_layout() {
    let mut g = init_grid(20, 20, TileType::Wall);
    draw_rectangle(&mut g, TileType::Floor, (4, 4), (10, 10), true, false);
    assert!(crop_precondition(&g, 2));
}

#[test]
fn resize_crops_to_bounding_box_plus_margin() {
    let mut g = init_grid(20, 20, TileType::Wall);
    // walkable square x, y in [8, 12)
    draw_rectangle(&mut g, TileType::Floor, (4, 4), (10, 10), true, false);
    assert!(crop_precondition(&g, 2));
    resize_grid(&mut g, 2);
    assert_eq!(g.len(), 8);
    assert_eq!(g[0].len(), 8);
    for x in 0..8usize {
        for y in 0..8usize {
            let inside = (2..6).contains(&x) && (2..6).contains(&y);
            assert_eq!(g[x][y].walkable, inside, "cell ({}, {})", x, y);
        }
    }
}

#[test]
fn resize_probe_lines_are_minimal() {
    let mut g = init_grid(30, 30, TileType::Wall);
    // an asymmetric layout
    draw_rectangle(&mut g, TileType::Floor, (3, 5), (10, 14), true, false);
    draw_rectangle(&mut g, TileType::Floor, (2, 2), (16, 17), true, false);
    assert!(crop_precondition(&g, 3));
    resize_grid(&mut g, 3);
    let w = g.len();
    let h = g[0].len();
    let bs = 3usize;
    // each boundary-probe line contains a walkable tile
    assert!((0..h).any(|y| g[bs][y].walkable));
    assert!((0..h).any(|y| g[w - 1 - bs][y].walkable));
    assert!((0..w).any(|x| g[x][bs].walkable));
    assert!((0..w).any(|x| g[x][h - 1 - bs].walkable));
    // and the margin inside each side is completely clear
    for m in 0..bs {
        assert!((0..h).all(|y| !g[m][y].walkable));
        assert!((0..h).all(|y| !g[w - 1 - m][y].walkable));
        assert!((0..w).all(|x| !g[x][m].walkable));
        assert!((0..w).all(|x| !g[x][h - 1 - m].walkable));
    }
}

#[test]
fn resize_keeps_every_walkable_tile() {
    let mut g = init_grid(25, 25, TileType::Wall);
    draw_rectangle(&mut g, TileType::Floor, (5, 3), (12, 12), true, false);
    let walkable_before: usize =
        g.iter().map(|c| c.iter().filter(|t| t.walkable).count()).sum();
    assert!(crop_precondition(&g, 4));
    resize_grid(&mut g, 4);
    let walkable_after: usize =
        g.iter().map(|c| c.iter().filter(|t| t.walkable).count()).sum();
    assert_eq!(walkable_before, walkable_after);
}
