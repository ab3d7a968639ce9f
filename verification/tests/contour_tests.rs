use area_gen::contour::find_oob_polygons;
use area_gen::errors::GenError;
use area_gen::tiles::{add_tile, draw_rectangle, init_grid, TileType};

#[test]
fn centered_square_gives_one_outer_polygon_with_four_corners() {
    let mut g = init_grid(20, 20, TileType::Wall);
    // floor square x, y in [5, 15)
    draw_rectangle(&mut g, TileType::Floor, (10, 10), (10, 10), true, false);
    let shapes = find_oob_polygons(&mut g).expect("trace should succeed");
    assert_eq!(shapes.len(), 1);
    assert!(!shapes[0].inner_if_true);
    assert_eq!(shapes[0].points.len(), 4);
    assert_eq!(
        shapes[0].points,
        vec![(240, 840), (840, 840), (840, 240), (240, 240)]
    );
}

#[test]
fn single_hole_gives_one_inner_polygon_with_four_corners() {
    let mut g = init_grid(20, 20, TileType::Wall);
    draw_rectangle(&mut g, TileType::Floor, (10, 10), (10, 10), true, false);
    // one out-of-bounds cell wholly inside the floor square
    add_tile(&mut g, 10, 10, TileType::Wall, false, false);
    let shapes = find_oob_polygons(&mut g).expect("trace should succeed");
    assert_eq!(shapes.len(), 2);
    assert!(!shapes[0].inner_if_true);
    assert!(shapes[1].inner_if_true);
    assert_eq!(shapes[1].points.len(), 4);
    assert_eq!(
        shapes[1].points,
        vec![(540, 540), (660, 540), (660, 660), (540, 660)]
    );
}

#[test]
fn two_holes_give_two_inner_polygons() {
    let mut g = init_grid(24, 24, TileType::Wall);
    draw_rectangle(&mut g, TileType::Floor, (14, 14), (12, 12), true, false);
    add_tile(&mut g, 9, 9, TileType::Wall, false, false);
    add_tile(&mut g, 14, 14, TileType::Wall, false, false);
    let shapes = find_oob_polygons(&mut g).expect("trace should succeed");
    assert_eq!(shapes.len(), 3);
    let inner_count = shapes.iter().filter(|s| s.inner_if_true).count();
    assert_eq!(inner_count, 2);
    assert!(!shapes[0].inner_if_true);
}

#[test]
fn every_polygon_is_closed_and_rectilinear() {
    let mut g = init_grid(30, 30, TileType::Wall);
    draw_rectangle(&mut g, TileType::Floor, (16, 10), (15, 15), true, false);
    draw_rectangle(&mut g, TileType::Floor, (8, 14), (10, 15), true, false);
    add_tile(&mut g, 12, 12, TileType::Wall, false, false);
    let shapes = find_oob_polygons(&mut g).expect("trace should succeed");
    for s in &shapes {
        let n = s.points.len();
        assert!(n >= 4, "a closed rectilinear loop needs at least 4 corners");
        // walking edge to edge returns exactly to the start: every
        // consecutive pair (wrapping around) shares a coordinate
        for i in 0..n {
            let a = s.points[i];
            let b = s.points[(i + 1) % n];
            assert!(a.0 == b.0 || a.1 == b.1, "edge {} of {:?} not axis-aligned", i, s.points);
        }
        // no two points repeat non-adjacently (corners are distinct)
        for i in 0..n {
            for j in (i + 1)..n {
                assert_ne!(s.points[i], s.points[j], "repeated corner in polygon");
            }
        }
    }
}

#[test]
fn midline_without_walkable_fails_fast() {
    let mut g = init_grid(20, 20, TileType::Wall);
    // walkable area sits well above the vertical midline
    draw_rectangle(&mut g, TileType::Floor, (4, 4), (10, 4), true, false);
    let r = find_oob_polygons(&mut g);
    assert_eq!(r.err(), Some(GenError::ContourSeedNotFound));
}

#[test]
fn walkable_on_frame_fails_loudly() {
    let mut g = init_grid(20, 20, TileType::Wall);
    // walkable region touches the left edge on the midline row
    draw_rectangle(&mut g, TileType::Floor, (8, 8), (2, 10), true, false);
    let r = find_oob_polygons(&mut g);
    assert_eq!(r.err(), Some(GenError::ContourTouchesFrame));
}
