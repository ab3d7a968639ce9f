use area_gen::mobs::{add_mob_packs, generate_mobs};
use area_gen::tiles::{draw_rectangle, init_grid, MobPack, TileType};
use rand::SeedableRng;
use rand_chacha::ChaCha8Rng;

#[test]
fn zero_density_places_no_packs_and_no_enemies() {
    let mut g = init_grid(40, 40, TileType::Wall);
    draw_rectangle(&mut g, TileType::Floor, (30, 30), (20, 20), true, true);
    let mut rng = ChaCha8Rng::seed_from_u64(7);
    let packs = add_mob_packs(&mut g, &mut rng, 0);
    assert_eq!(packs.len(), 0);
    let enemies = generate_mobs(&packs, &mut rng);
    assert_eq!(enemies.len(), 0);
}

#[test]
fn packs_sit_on_spawnable_interior_floor() {
    let mut g = init_grid(40, 40, TileType::Wall);
    draw_rectangle(&mut g, TileType::Floor, (30, 30), (20, 20), true, true);
    let mut rng = ChaCha8Rng::seed_from_u64(3);
    let packs = add_mob_packs(&mut g, &mut rng, 100);
    assert!(!packs.is_empty());
    for p in &packs {
        let (x, y) = p.tile_coords;
        assert!(g[x][y].walkable && g[x][y].spawnable);
        assert!(g[x + 1][y].walkable);
        assert!(g[x - 1][y].walkable);
        assert!(g[x][y + 1].walkable);
        assert!(g[x][y - 1].walkable);
        assert!(g[x][y].mob_pack.is_some());
    }
}

#[test]
fn add_mob_packs_clears_visited_flags() {
    let mut g = init_grid(20, 20, TileType::Wall);
    draw_rectangle(&mut g, TileType::Floor, (10, 10), (10, 10), true, true);
    g[3][3].scanned = true;
    g[8][8].scanned = true;
    let mut rng = ChaCha8Rng::seed_from_u64(1);
    let _ = add_mob_packs(&mut g, &mut rng, 50);
    for col in &g {
        for t in col {
            assert!(!t.scanned);
        }
    }
}

#[test]
fn every_pack_spawns_between_one_and_nine_enemies() {
    let packs: Vec<MobPack> = (0..12)
        .map(|i| MobPack { tile_coords: (10 + i, 20) })
        .collect();
    let mut rng = ChaCha8Rng::seed_from_u64(99);
    let enemies = generate_mobs(&packs, &mut rng);
    assert!(enemies.len() >= packs.len());
    assert!(enemies.len() <= 9 * packs.len());
}

#[test]
fn enemies_lie_inside_their_pack_tile() {
    let packs = vec![MobPack { tile_coords: (5, 7) }];
    let mut rng = ChaCha8Rng::seed_from_u64(4);
    let enemies = generate_mobs(&packs, &mut rng);
    assert!(!enemies.is_empty());
    for e in &enemies {
        // the sub-grid layout keeps every enemy within the 60-pixel tile
        assert!(e.point.0 >= 5 * 60 + 10 && e.point.0 <= 6 * 60 - 10);
        assert!(e.point.1 >= 7 * 60 + 10 && e.point.1 <= 8 * 60 - 10);
    }
}

#[test]
fn generate_mobs_is_deterministic_for_a_seed() {
    let packs: Vec<MobPack> = (0..6)
        .map(|i| MobPack { tile_coords: (10, 10 + 2 * i) })
        .collect();
    let mut rng1 = ChaCha8Rng::seed_from_u64(1234);
    let mut rng2 = ChaCha8Rng::seed_from_u64(1234);
    let a = generate_mobs(&packs, &mut rng1);
    let b = generate_mobs(&packs, &mut rng2);
    assert_eq!(a.len(), b.len());
    for (x, y) in a.iter().zip(b.iter()) {
        assert_eq!(x.point, y.point);
        assert_eq!(x.mob_type, y.mob_type);
    }
}
