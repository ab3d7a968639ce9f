use area_gen::tiles::{add_tile, draw_rectangle, init_grid, TileType};

#[test]
fn init_grid_dimensions_and_fill() {
    let g = init_grid(7, 5, TileType::Water);
    assert_eq!(g.len(), 5);
    for col in &g {
        assert_eq!(col.len(), 7);
        for t in col {
            assert!(matches!(t.tile_type, TileType::Water));
            assert!(!t.walkable);
            assert!(!t.spawnable);
            assert!(!t.scanned);
            assert!(t.mob_pack.is_none());
        }
    }
}

#[test]
fn add_tile_sets_category_and_flags() {
    let mut g = init_grid(10, 10, TileType::Wall);
    add_tile(&mut g, 3, 4, TileType::Floor, true, true);
    assert!(matches!(g[3][4].tile_type, TileType::Floor));
    assert!(g[3][4].walkable);
    assert!(g[3][4].spawnable);
    assert!(!g[2][4].walkable);
    assert!(!g[3][5].walkable);
}

#[test]
fn add_tile_out_of_bounds_is_dropped() {
    let mut g = init_grid(4, 4, TileType::Wall);
    add_tile(&mut g, 9, 1, TileType::Floor, true, false);
    add_tile(&mut g, 1, 9, TileType::Floor, true, false);
    for col in &g {
        for t in col {
            assert!(!t.walkable);
            assert!(matches!(t.tile_type, TileType::Wall));
        }
    }
}

#[test]
fn draw_rectangle_covers_centered_box() {
    let mut g = init_grid(20, 20, TileType::Wall);
    draw_rectangle(&mut g, TileType::Floor, (4, 6), (10, 10), true, false);
    // x in [10-2, 10+2), y in [10-3, 10+3)
    for x in 0..20usize {
        for y in 0..20usize {
            let inside = (8..12).contains(&x) && (7..13).contains(&y);
            assert_eq!(g[x][y].walkable, inside, "cell ({}, {})", x, y);
        }
    }
}

#[test]
fn draw_rectangle_clips_at_grid_edge() {
    let mut g = init_grid(10, 10, TileType::Wall);
    draw_rectangle(&mut g, TileType::Floor, (6, 6), (1, 1), true, false);
    // x in [-2, 4), y in [-2, 4): negative part silently dropped
    for x in 0..10usize {
        for y in 0..10usize {
            let inside = x < 4 && y < 4;
            assert_eq!(g[x][y].walkable, inside, "cell ({}, {})", x, y);
        }
    }
}

#[test]
fn draw_rectangle_preserves_scanned_and_pack() {
    let mut g = init_grid(6, 6, TileType::Wall);
    g[2][2].scanned = true;
    draw_rectangle(&mut g, TileType::Floor, (6, 6), (3, 3), true, true);
    assert!(g[2][2].scanned);
    assert!(g[2][2].walkable);
}
