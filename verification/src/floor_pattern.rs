//! The biome catalog: immutable configuration that drives the random-walk
//! layout generator.

use vstd::prelude::*;
use crate::tiles::TileType;

verus! {

/// `d` is a unit or diagonal step vector.
pub open spec fn dir_unit(d: (i32, i32)) -> bool {
    &&& -1 <= d.0 <= 1
    &&& -1 <= d.1 <= 1
    &&& !(d.0 == 0 && d.1 == 0)
}

/// Parameters of one random-walk carving phase.
///
/// Rectangle-size ratios are given in thousandths of the nominal generation
/// area edge: a sampled ratio `v` yields an edge of `round(area * v / 1000)`
/// tiles. Both bounds of each sampling range are half-open `[lo, hi)`.
pub struct FloorPattern {
    pub rng_range_multiplicator_rectangle_size: (i32, i32),
    pub rng_range_number_of_direction_changes: (i32, i32),
    pub rng_range_direction_repeat: (i32, i32),
    pub allowed_directions: Vec<(i32, i32)>,
    pub generation_area_size: (i32, i32),
}

/// Sampling ranges are non-empty and small, ratios stay within one whole
/// area edge, and every allowed direction is a non-zero unit/diagonal step.
pub open spec fn pattern_wf(p: FloorPattern) -> bool {
    &&& 0 <= p.rng_range_multiplicator_rectangle_size.0
        < p.rng_range_multiplicator_rectangle_size.1 <= 1000
    &&& 0 <= p.rng_range_number_of_direction_changes.0
        < p.rng_range_number_of_direction_changes.1 <= 1000
    &&& 0 <= p.rng_range_direction_repeat.0 < p.rng_range_direction_repeat.1 <= 1000
    &&& 0 < p.generation_area_size.0 <= 0x1000
    &&& 0 < p.generation_area_size.1 <= 0x1000
    &&& 0 < p.allowed_directions@.len() <= 16
    &&& forall|i: int|
        0 <= i < p.allowed_directions@.len() ==> dir_unit(#[trigger] p.allowed_directions@[i])
}

/// A map preset: an out-of-bounds category, the ordered biome sequence the
/// walk applies, the initial walk center, and the monster-pack density in
/// packs per thousand walkable tiles.
pub struct MapPreset {
    pub name: String,
    pub oob_type: TileType,
    pub biomes: Vec<FloorPattern>,
    pub generation_init_center: (i32, i32),
    pub density: i32,
}

/// A map holds at least one well-formed biome, a sane density, and an
/// out-of-bounds category that is none of the categories the pipeline
/// stamps.
pub open spec fn map_wf(m: MapPreset) -> bool {
    &&& m.biomes@.len() > 0
    &&& forall|i: int| 0 <= i < m.biomes@.len() ==> pattern_wf(#[trigger] m.biomes@[i])
    &&& 0 <= m.density <= 1000
    &&& m.oob_type != TileType::Floor
    &&& m.oob_type != TileType::Start
    &&& m.oob_type != TileType::Boss
}

/// The exact parameter set of the large-rectangle, all-direction preset.
pub open spec fn is_large_all_dir(p: FloorPattern) -> bool {
    &&& p.rng_range_multiplicator_rectangle_size == (100i32, 200i32)
    &&& p.rng_range_number_of_direction_changes == (4i32, 5i32)
    &&& p.rng_range_direction_repeat == (1i32, 3i32)
    &&& p.generation_area_size == (345i32, 345i32)
    &&& p.allowed_directions@ == seq![
        (0i32, -1i32),
        (0i32, 1i32),
        (-1i32, 0i32),
        (1i32, 0i32),
        (1i32, -1i32),
        (1i32, 1i32),
        (-1i32, 1i32),
        (1i32, 1i32),
    ]
}

/// The exact parameter set of the small-rectangle, cardinal-only preset.
pub open spec fn is_small_cross_dir(p: FloorPattern) -> bool {
    &&& p.rng_range_multiplicator_rectangle_size == (20i32, 60i32)
    &&& p.rng_range_number_of_direction_changes == (20i32, 30i32)
    &&& p.rng_range_direction_repeat == (5i32, 10i32)
    &&& p.generation_area_size == (345i32, 345i32)
    &&& p.allowed_directions@ == seq![(0i32, -1i32), (0i32, 1i32), (-1i32, 0i32), (1i32, 0i32)]
}

/// The exact parameter set of the small-rectangle, all-direction preset.
pub open spec fn is_small_all_dir(p: FloorPattern) -> bool {
    &&& p.rng_range_multiplicator_rectangle_size == (20i32, 40i32)
    &&& p.rng_range_number_of_direction_changes == (15i32, 25i32)
    &&& p.rng_range_direction_repeat == (10i32, 15i32)
    &&& p.generation_area_size == (345i32, 345i32)
    &&& p.allowed_directions@ == seq![
        (0i32, -1i32),
        (0i32, 1i32),
        (-1i32, 0i32),
        (1i32, 0i32),
        (1i32, -1i32),
        (1i32, 1i32),
        (-1i32, 1i32),
        (-1i32, -1i32),
    ]
}

/// The exact parameter set of the tiny-rectangle, diagonal-only preset.
pub open spec fn is_many_tiny_all_dir(p: FloorPattern) -> bool {
    &&& p.rng_range_multiplicator_rectangle_size == (10i32, 20i32)
    &&& p.rng_range_number_of_direction_changes == (30i32, 40i32)
    &&& p.rng_range_direction_repeat == (10i32, 15i32)
    &&& p.generation_area_size == (345i32, 345i32)
    &&& p.allowed_directions@ == seq![(1i32, -1i32), (1i32, 1i32), (-1i32, 1i32), (-1i32, -1i32)]
}

/// The exact parameter set of the long bottom-right path preset.
pub open spec fn is_long_path_bottom_right_dir(p: FloorPattern) -> bool {
    &&& p.rng_range_multiplicator_rectangle_size == (10i32, 20i32)
    &&& p.rng_range_number_of_direction_changes == (20i32, 30i32)
    &&& p.rng_range_direction_repeat == (10i32, 15i32)
    &&& p.generation_area_size == (345i32, 345i32)
    &&& p.allowed_directions@ == seq![(1i32, -1i32), (1i32, 1i32), (-1i32, 1i32)]
}

/// The exact parameter set of the short bottom-right path preset.
pub open spec fn is_short_path_bottom_right_dir(p: FloorPattern) -> bool {
    &&& p.rng_range_multiplicator_rectangle_size == (10i32, 20i32)
    &&& p.rng_range_number_of_direction_changes == (10i32, 15i32)
    &&& p.rng_range_direction_repeat == (5i32, 8i32)
    &&& p.generation_area_size == (345i32, 345i32)
    &&& p.allowed_directions@ == seq![(1i32, -1i32), (1i32, 1i32), (-1i32, 1i32)]
}

/// Large rectangles, few direction changes, all eight directions.
fn large_all_dir() -> (p: FloorPattern)
    ensures
        pattern_wf(p),
        is_large_all_dir(p),
{
    let mut dirs: Vec<(i32, i32)> = Vec::new();
    dirs.push((0, -1));
    dirs.push((0, 1));
    dirs.push((-1, 0));
    dirs.push((1, 0));
    dirs.push((1, -1));
    dirs.push((1, 1));
    dirs.push((-1, 1));
    dirs.push((1, 1));
    proof {
        assert(dirs@ =~= seq![
            (0i32, -1i32),
            (0i32, 1i32),
            (-1i32, 0i32),
            (1i32, 0i32),
            (1i32, -1i32),
            (1i32, 1i32),
            (-1i32, 1i32),
            (1i32, 1i32),
        ]);
    }
    FloorPattern {
        rng_range_multiplicator_rectangle_size: (100, 200),
        rng_range_number_of_direction_changes: (4, 5),
        rng_range_direction_repeat: (1, 3),
        allowed_directions: dirs,
        generation_area_size: (345, 345),
    }
}

/// Small rectangles, many changes, cardinal directions only.
fn small_cross_dir() -> (p: FloorPattern)
    ensures
        pattern_wf(p),
        is_small_cross_dir(p),
{
    let mut dirs: Vec<(i32, i32)> = Vec::new();
    dirs.push((0, -1));
    dirs.push((0, 1));
    dirs.push((-1, 0));
    dirs.push((1, 0));
    proof {
        assert(dirs@ =~= seq![(0i32, -1i32), (0i32, 1i32), (-1i32, 0i32), (1i32, 0i32)]);
    }
    FloorPattern {
        rng_range_multiplicator_rectangle_size: (20, 60),
        rng_range_number_of_direction_changes: (20, 30),
        rng_range_direction_repeat: (5, 10),
        allowed_directions: dirs,
        generation_area_size: (345, 345),
    }
}

/// Small rectangles, all eight directions.
fn small_all_dir() -> (p: FloorPattern)
    ensures
        pattern_wf(p),
        is_small_all_dir(p),
{
    let mut dirs: Vec<(i32, i32)> = Vec::new();
    dirs.push((0, -1));
    dirs.push((0, 1));
    dirs.push((-1, 0));
    dirs.push((1, 0));
    dirs.push((1, -1));
    dirs.push((1, 1));
    dirs.push((-1, 1));
    dirs.push((-1, -1));
    proof {
        assert(dirs@ =~= seq![
            (0i32, -1i32),
            (0i32, 1i32),
            (-1i32, 0i32),
            (1i32, 0i32),
            (1i32, -1i32),
            (1i32, 1i32),
            (-1i32, 1i32),
            (-1i32, -1i32),
        ]);
    }
    FloorPattern {
        rng_range_multiplicator_rectangle_size: (20, 40),
        rng_range_number_of_direction_changes: (15, 25),
        rng_range_direction_repeat: (10, 15),
        allowed_directions: dirs,
        generation_area_size: (345, 345),
    }
}

/// Very small rectangles, diagonal directions only.
fn many_tiny_all_dir() -> (p: FloorPattern)
    ensures
        pattern_wf(p),
        is_many_tiny_all_dir(p),
{
    let mut dirs: Vec<(i32, i32)> = Vec::new();
    dirs.push((1, -1));
    dirs.push((1, 1));
    dirs.push((-1, 1));
    dirs.push((-1, -1));
    proof {
        assert(dirs@ =~= seq![(1i32, -1i32), (1i32, 1i32), (-1i32, 1i32), (-1i32, -1i32)]);
    }
    FloorPattern {
        rng_range_multiplicator_rectangle_size: (10, 20),
        rng_range_number_of_direction_changes: (30, 40),
        rng_range_direction_repeat: (10, 15),
        allowed_directions: dirs,
        generation_area_size: (345, 345),
    }
}

/// A long winding path drifting towards the bottom right.
fn long_path_bottom_right_dir() -> (p: FloorPattern)
    ensures
        pattern_wf(p),
        is_long_path_bottom_right_dir(p),
{
    let mut dirs: Vec<(i32, i32)> = Vec::new();
    dirs.push((1, -1));
    dirs.push((1, 1));
    dirs.push((-1, 1));
    proof {
        assert(dirs@ =~= seq![(1i32, -1i32), (1i32, 1i32), (-1i32, 1i32)]);
    }
    FloorPattern {
        rng_range_multiplicator_rectangle_size: (10, 20),
        rng_range_number_of_direction_changes: (20, 30),
        rng_range_direction_repeat: (10, 15),
        allowed_directions: dirs,
        generation_area_size: (345, 345),
    }
}

/// A short winding path drifting towards the bottom right.
fn short_path_bottom_right_dir() -> (p: FloorPattern)
    ensures
        pattern_wf(p),
        is_short_path_bottom_right_dir(p),
{
    let mut dirs: Vec<(i32, i32)> = Vec::new();
    dirs.push((1, -1));
    dirs.push((1, 1));
    dirs.push((-1, 1));
    proof {
        assert(dirs@ =~= seq![(1i32, -1i32), (1i32, 1i32), (-1i32, 1i32)]);
    }
    FloorPattern {
        rng_range_multiplicator_rectangle_size: (10, 20),
        rng_range_number_of_direction_changes: (10, 15),
        rng_range_direction_repeat: (5, 8),
        allowed_directions: dirs,
        generation_area_size: (345, 345),
    }
}

/// Builds the static catalog of map presets, in index order.
pub fn define_floor_patterns() -> (maps: Vec<MapPreset>)
    ensures
        maps@.len() == 5,
        forall|i: int| 0 <= i < maps@.len() ==> map_wf(#[trigger] maps@[i]),
        forall|i: int| 0 <= i < maps@.len() ==> (#[trigger] maps@[i]).density == 10,
        maps@[0].name@ == "Island"@,
        maps@[1].name@ == "Ledge"@,
        maps@[2].name@ == "Desert"@,
        maps@[3].name@ == "Forest"@,
        maps@[4].name@ == "Quarry"@,
        maps@[0].oob_type == TileType::Water,
        maps@[1].oob_type == TileType::Wall,
        maps@[2].oob_type == TileType::Wall,
        maps@[3].oob_type == TileType::Forest,
        maps@[4].oob_type == TileType::Wall,
        maps@[0].biomes@.len() == 2,
        maps@[1].biomes@.len() == 2,
        maps@[2].biomes@.len() == 2,
        maps@[3].biomes@.len() == 3,
        maps@[4].biomes@.len() == 4,
        is_many_tiny_all_dir(maps@[0].biomes@[0]) && is_small_all_dir(maps@[0].biomes@[1]),
        is_long_path_bottom_right_dir(maps@[1].biomes@[0]) && is_long_path_bottom_right_dir(
            maps@[1].biomes@[1],
        ),
        is_long_path_bottom_right_dir(maps@[2].biomes@[0]) && is_large_all_dir(
            maps@[2].biomes@[1],
        ),
        is_short_path_bottom_right_dir(maps@[3].biomes@[0]) && is_small_cross_dir(
            maps@[3].biomes@[1],
        ) && is_small_cross_dir(maps@[3].biomes@[2]),
        is_short_path_bottom_right_dir(maps@[4].biomes@[0]) && is_many_tiny_all_dir(
            maps@[4].biomes@[1],
        ) && is_many_tiny_all_dir(maps@[4].biomes@[2]) && is_short_path_bottom_right_dir(
            maps@[4].biomes@[3],
        ),
{
    let mut maps: Vec<MapPreset> = Vec::new();

    let mut island_biomes: Vec<FloorPattern> = Vec::new();
    island_biomes.push(many_tiny_all_dir());
    island_biomes.push(small_all_dir());
    maps.push(MapPreset {
        name: "Island".to_owned(),
        oob_type: TileType::Water,
        biomes: island_biomes,
        generation_init_center: (375, 375),
        density: 10,
    });

    let mut ledge_biomes: Vec<FloorPattern> = Vec::new();
    ledge_biomes.push(long_path_bottom_right_dir());
    ledge_biomes.push(long_path_bottom_right_dir());
    maps.push(MapPreset {
        name: "Ledge".to_owned(),
        oob_type: TileType::Wall,
        biomes: ledge_biomes,
        generation_init_center: (30, 30),
        density: 10,
    });

    let mut desert_biomes: Vec<FloorPattern> = Vec::new();
    desert_biomes.push(long_path_bottom_right_dir());
    desert_biomes.push(large_all_dir());
    maps.push(MapPreset {
        name: "Desert".to_owned(),
        oob_type: TileType::Wall,
        biomes: desert_biomes,
        generation_init_center: (225, 225),
        density: 10,
    });

    let mut forest_biomes: Vec<FloorPattern> = Vec::new();
    forest_biomes.push(short_path_bottom_right_dir());
    forest_biomes.push(small_cross_dir());
    forest_biomes.push(small_cross_dir());
    maps.push(MapPreset {
        name: "Forest".to_owned(),
        oob_type: TileType::Forest,
        biomes: forest_biomes,
        generation_init_center: (375, 375),
        density: 10,
    });

    let mut quarry_biomes: Vec<FloorPattern> = Vec::new();
    quarry_biomes.push(short_path_bottom_right_dir());
    quarry_biomes.push(many_tiny_all_dir());
    quarry_biomes.push(many_tiny_all_dir());
    quarry_biomes.push(short_path_bottom_right_dir());
    maps.push(MapPreset {
        name: "Quarry".to_owned(),
        oob_type: TileType::Wall,
        biomes: quarry_biomes,
        generation_init_center: (375, 375),
        density: 10,
    });

    maps
}

} // verus!
