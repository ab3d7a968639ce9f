use area_gen::area::{collect_walkable, generate_area, generate_map_sized};
use area_gen::errors::GenError;
use area_gen::floor_pattern::define_floor_patterns;
use area_gen::layout::find_point_on_edge;
use area_gen::tiles::{draw_rectangle, init_grid, Grid, TileType};
use rand::SeedableRng;
use rand_chacha::ChaCha8Rng;

#[test]
fn catalog_has_five_maps() {
    let maps = define_floor_patterns();
    assert_eq!(maps.len(), 5);
    let names: Vec<&str> = maps.iter().map(|m| m.name.as_str()).collect();
    assert_eq!(names, vec!["Island", "Ledge", "Desert", "Forest", "Quarry"]);
    for m in &maps {
        assert!(!m.biomes.is_empty());
        assert!(m.density >= 0 && m.density <= 1000);
        for b in &m.biomes {
            assert!(!b.allowed_directions.is_empty());
            assert!(
                b.rng_range_multiplicator_rectangle_size.0
                    < b.rng_range_multiplicator_rectangle_size.1
            );
        }
    }
}

#[test]
fn out_of_range_map_index_fails_fast() {
    assert_eq!(generate_area(5, 42).err(), Some(GenError::MapIndexOutOfRange));
    assert_eq!(generate_area(100, 42).err(), Some(GenError::MapIndexOutOfRange));
}

#[test]
fn walk_stops_before_leaving_walkable_area() {
    let mut g: Grid = init_grid(20, 20, TileType::Wall);
    // walkable corridor along row 10, x in [5, 15)
    draw_rectangle(&mut g, TileType::Floor, (10, 1), (10, 10), true, false);
    // walking right from (7, 10): tiles stay walkable up to x = 14
    assert_eq!(find_point_on_edge(&g, (7, 10), (1, 0)), (14, 10));
    // walking left stops at x = 5
    assert_eq!(find_point_on_edge(&g, (7, 10), (-1, 0)), (5, 10));
    // walking up immediately leaves the corridor: no step taken
    assert_eq!(find_point_on_edge(&g, (7, 10), (0, -1)), (7, 10));
}

fn grids_equal(a: &Grid, b: &Grid) -> bool {
    if a.len() != b.len() {
        return false;
    }
    for (ca, cb) in a.iter().zip(b.iter()) {
        if ca.len() != cb.len() {
            return false;
        }
        for (ta, tb) in ca.iter().zip(cb.iter()) {
            let type_eq = match (ta.tile_type, tb.tile_type) {
                (TileType::Floor, TileType::Floor) => true,
                (TileType::Wall, TileType::Wall) => true,
                (TileType::Start, TileType::Start) => true,
                (TileType::Boss, TileType::Boss) => true,
                (TileType::Event, TileType::Event) => true,
                (TileType::Water, TileType::Water) => true,
                (TileType::Forest, TileType::Forest) => true,
                (TileType::Angle, TileType::Angle) => true,
                _ => false,
            };
            if !type_eq
                || ta.walkable != tb.walkable
                || ta.spawnable != tb.spawnable
                || ta.scanned != tb.scanned
            {
                return false;
            }
        }
    }
    true
}

#[test]
fn generation_is_deterministic_for_a_fixed_seed() {
    let maps = define_floor_patterns();
    let map = &maps[3];
    let mut rng1 = ChaCha8Rng::seed_from_u64(0xC0FFEE);
    let mut rng2 = ChaCha8Rng::seed_from_u64(0xC0FFEE);
    let r1 = generate_map_sized(&mut rng1, map, 700);
    let r2 = generate_map_sized(&mut rng2, map, 700);
    match (r1, r2) {
        (Ok((g1, spawn1, packs1)), Ok((g2, spawn2, packs2))) => {
            assert!(grids_equal(&g1, &g2));
            assert_eq!(spawn1, spawn2);
            assert_eq!(packs1.len(), packs2.len());
            for (a, b) in packs1.iter().zip(packs2.iter()) {
                assert_eq!(a.tile_coords, b.tile_coords);
            }
        }
        (Err(e1), Err(e2)) => assert_eq!(e1, e2),
        _ => panic!("the two runs disagreed on success"),
    }
}

#[test]
fn full_area_generation_is_deterministic_and_well_formed() {
    let a = generate_area(1, 0xDEADBEEF).expect("generation should succeed");
    let b = generate_area(1, 0xDEADBEEF).expect("generation should succeed");

    // bit-identical outputs for a fixed seed and map index
    assert_eq!(a.width, b.width);
    assert_eq!(a.height, b.height);
    assert_eq!(a.walkable_x, b.walkable_x);
    assert_eq!(a.walkable_y, b.walkable_y);
    assert_eq!(a.player_spawn_position, b.player_spawn_position);
    assert_eq!(a.oob_polygons.len(), b.oob_polygons.len());
    for (sa, sb) in a.oob_polygons.iter().zip(b.oob_polygons.iter()) {
        assert_eq!(sa.points, sb.points);
        assert_eq!(sa.inner_if_true, sb.inner_if_true);
    }
    assert_eq!(a.enemies.len(), b.enemies.len());
    for (ea, eb) in a.enemies.iter().zip(b.enemies.iter()) {
        assert_eq!(ea.point, eb.point);
        assert_eq!(ea.mob_type, eb.mob_type);
    }

    // shape of the output aggregate
    assert_eq!(a.walkable_x.len(), a.walkable_y.len());
    assert!(!a.walkable_x.is_empty());
    assert!(a.width >= 1 && a.height >= 1);
    for (&x, &y) in a.walkable_x.iter().zip(a.walkable_y.iter()) {
        assert!(x < a.width && y < a.height);
    }
    assert!(!a.oob_polygons.is_empty());
    assert!(!a.oob_polygons[0].inner_if_true);
    for s in a.oob_polygons.iter().skip(1) {
        assert!(s.inner_if_true);
    }
}

#[test]
fn oversized_biome_violates_crop_precondition() {
    let maps = define_floor_patterns();
    // the Desert preset's second biome stamps rectangles far wider than a
    // 32-tile grid, so the walkable area always reaches the border margin
    let mut rng = ChaCha8Rng::seed_from_u64(11);
    let r = generate_map_sized(&mut rng, &maps[2], 32);
    assert_eq!(r.err(), Some(GenError::CropPreconditionViolated));
}

#[test]
fn walkable_lists_cover_exactly_the_walkable_tiles() {
    let mut g = init_grid(16, 16, TileType::Wall);
    draw_rectangle(&mut g, TileType::Floor, (5, 3), (6, 9), true, false);
    draw_rectangle(&mut g, TileType::Floor, (2, 2), (11, 4), true, false);
    let (xs, ys) = collect_walkable(&g);
    assert_eq!(xs.len(), ys.len());
    let mut from_lists: Vec<(u32, u32)> = xs.iter().zip(ys.iter()).map(|(&x, &y)| (x, y)).collect();
    let mut from_grid: Vec<(u32, u32)> = Vec::new();
    for x in 0..16usize {
        for y in 0..16usize {
            if g[x][y].walkable {
                from_grid.push((x as u32, y as u32));
            }
        }
    }
    from_lists.sort();
    from_grid.sort();
    assert_eq!(from_lists, from_grid);
}

#[test]
fn player_spawn_sits_on_the_first_start_tile() {
    let maps = define_floor_patterns();
    let mut rng = ChaCha8Rng::seed_from_u64(2024);
    let r = generate_map_sized(&mut rng, &maps[0], 500);
    let (g, spawn, _packs) = r.expect("generation should succeed");
    let mut first_start: Option<(i32, i32)> = None;
    'outer: for x in 0..g.len() {
        for y in 0..g[0].len() {
            if matches!(g[x][y].tile_type, TileType::Start) {
                first_start = Some((x as i32, y as i32));
                break 'outer;
            }
        }
    }
    match first_start {
        Some((sx, sy)) => assert_eq!(spawn, (sx * 60 - 30, sy * 60 - 30)),
        None => assert_eq!(spawn, (-30, -30)),
    }
}
