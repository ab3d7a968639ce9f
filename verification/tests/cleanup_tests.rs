use area_gen::cleanup::remove_small_cluster;
use area_gen::tiles::{add_tile, init_grid, Grid, TileType};

fn walkable_map(g: &Grid) -> Vec<Vec<bool>> {
    g.iter().map(|col| col.iter().map(|t| t.walkable).collect()).collect()
}

fn type_map(g: &Grid) -> Vec<Vec<u8>> {
    g.iter()
        .map(|col| {
            col.iter()
                .map(|t| match t.tile_type {
                    TileType::Floor => 0u8,
                    TileType::Wall => 1,
                    TileType::Start => 2,
                    TileType::Boss => 3,
                    TileType::Event => 4,
                    TileType::Water => 5,
                    TileType::Forest => 6,
                    TileType::Angle => 7,
                })
                .collect()
        })
        .collect()
}

#[test]
fn vertical_pinch_is_filled() {
    let mut g = init_grid(20, 20, TileType::Wall);
    // floor above and below a three-cell pocket in column 10
    add_tile(&mut g, 10, 5, TileType::Floor, true, false);
    add_tile(&mut g, 10, 9, TileType::Floor, true, false);
    remove_small_cluster(&mut g, TileType::Wall, 4, false, true);
    for y in 5..=9 {
        assert!(g[10][y].walkable, "row {} should be walkable", y);
        assert!(matches!(g[10][y].tile_type, TileType::Floor));
    }
    // untouched neighbors stay wall
    assert!(!g[9][7].walkable);
    assert!(!g[11][7].walkable);
}

#[test]
fn horizontal_pinch_is_filled() {
    let mut g = init_grid(20, 20, TileType::Wall);
    add_tile(&mut g, 6, 10, TileType::Floor, true, false);
    add_tile(&mut g, 9, 10, TileType::Floor, true, false);
    remove_small_cluster(&mut g, TileType::Wall, 4, true, false);
    for x in 6..=9 {
        assert!(g[x][10].walkable, "column {} should be walkable", x);
    }
}

#[test]
fn gap_wider_than_cluster_size_stays() {
    let mut g = init_grid(20, 20, TileType::Wall);
    // the pocket is 6 cells wide: no cell of it sees floor within the
    // k - 1 = 3 step scan on both sides
    add_tile(&mut g, 10, 5, TileType::Floor, true, false);
    add_tile(&mut g, 10, 12, TileType::Floor, true, false);
    remove_small_cluster(&mut g, TileType::Wall, 4, false, true);
    for y in 6..=11 {
        assert!(!g[10][y].walkable, "row {} should stay wall", y);
    }
}

#[test]
fn wrong_axis_does_not_fill() {
    let mut g = init_grid(20, 20, TileType::Wall);
    add_tile(&mut g, 10, 5, TileType::Floor, true, false);
    add_tile(&mut g, 10, 9, TileType::Floor, true, false);
    // the pocket is vertical, but only the horizontal axis is enabled
    remove_small_cluster(&mut g, TileType::Wall, 4, true, false);
    for y in 6..=8 {
        assert!(!g[10][y].walkable);
    }
}

#[test]
fn cleanup_is_idempotent_on_its_output() {
    let mut g = init_grid(24, 24, TileType::Wall);
    // an irregular arrangement of floor with several pockets
    for &(x, y) in &[
        (10, 5),
        (10, 9),
        (11, 9),
        (12, 7),
        (12, 11),
        (6, 10),
        (9, 10),
        (15, 15),
        (15, 18),
    ] {
        add_tile(&mut g, x, y, TileType::Floor, true, false);
    }
    remove_small_cluster(&mut g, TileType::Wall, 4, false, true);
    let walk_once = walkable_map(&g);
    let type_once = type_map(&g);
    remove_small_cluster(&mut g, TileType::Wall, 4, false, true);
    assert_eq!(walk_once, walkable_map(&g));
    assert_eq!(type_once, type_map(&g));

    remove_small_cluster(&mut g, TileType::Wall, 4, true, false);
    let walk_h = walkable_map(&g);
    let type_h = type_map(&g);
    remove_small_cluster(&mut g, TileType::Wall, 4, true, false);
    assert_eq!(walk_h, walkable_map(&g));
    assert_eq!(type_h, type_map(&g));
}

#[test]
fn pocket_near_edge_is_left_alone() {
    let mut g = init_grid(12, 12, TileType::Wall);
    // centers within k cells of the edge are never considered
    add_tile(&mut g, 2, 1, TileType::Floor, true, false);
    add_tile(&mut g, 2, 4, TileType::Floor, true, false);
    remove_small_cluster(&mut g, TileType::Wall, 4, false, true);
    assert!(!g[2][2].walkable);
    assert!(!g[2][3].walkable);
}
