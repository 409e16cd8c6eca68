use root_world::dice::{away_left, away_right, roll, share_of};
use root_world::fixed::Fixed;
use root_world::grid::Grid;
use root_world::id::Id;
use root_world::noise::{add_mod, mix, mul_mod, MultiNoise, MultiNoiseProperties};
use root_world::rules::Rules;
use root_world::table::IdTable;
use root_world::tile::{get_neighbours, get_tile_pos, Area, Position, Tile};
use root_world::vector::Vec2;
use root_world::world::{cell_point, mineral_properties, terrain_properties};

fn fx(raw: i64) -> Fixed {
    Fixed::from_raw(raw)
}

fn at(x: i32, y: i32) -> Position {
    Position { x, y }
}

#[test]
fn default_rules() {
    let rules = Rules::default();
    assert_eq!(rules.root_growth_speed, fx(2_000_000));
    assert_eq!(rules.chamber_width, 51);
    assert_eq!(rules.stone_frequency, fx(200_000));
    assert_eq!(rules.root_inertia, fx(1_000_000));
    assert_eq!(rules.mineral_frequency, fx(100_000));
    assert_eq!(rules.mineral_richness, fx(5_000_000));
    assert_eq!(rules.mineral_consume_speed, fx(1_000_000));
    assert_eq!(rules.split_cost, fx(1_000_000));
    assert_eq!(rules.attractor_cost, fx(5_000_000));
    assert!(rules.is_valid());
    assert_eq!(rules.half_width(), 51);
}

#[test]
fn rules_with_a_low_ceiling_are_not_valid() {
    let mut rules = Rules::default();
    rules.mineral_richness = fx(999_999);
    assert!(!rules.is_valid());
}

#[test]
fn half_width_stops_at_the_grid() {
    let mut rules = Rules::default();
    rules.chamber_width = usize::MAX;
    assert_eq!(rules.half_width(), i32::MAX);
}

#[test]
fn deposit_is_richer_further_below_the_threshold() {
    let rules = Rules::default();
    assert_eq!(
        rules.tile_from_noise_value(fx(50_000), fx(900_000)),
        Tile::Mineral { minerals: fx(2_500_000) }
    );
    assert_eq!(
        rules.tile_from_noise_value(fx(0), fx(900_000)),
        Tile::Mineral { minerals: fx(5_000_000) }
    );
}

#[test]
fn deposit_holds_at_least_one() {
    let rules = Rules::default();
    assert_eq!(
        rules.tile_from_noise_value(fx(100_000), fx(0)),
        Tile::Mineral { minerals: fx(1_000_000) }
    );
    assert_eq!(
        rules.tile_from_noise_value(fx(90_000), fx(0)),
        Tile::Mineral { minerals: fx(1_000_000) }
    );
}

#[test]
fn deposit_holds_at_most_the_ceiling() {
    let rules = Rules::default();
    assert_eq!(
        rules.tile_from_noise_value(fx(-400_000), fx(0)),
        Tile::Mineral { minerals: fx(5_000_000) }
    );
}

#[test]
fn stone_and_dirt_follow_the_terrain_sample() {
    let rules = Rules::default();
    assert_eq!(rules.tile_from_noise_value(fx(100_001), fx(200_000)), Tile::Stone);
    assert_eq!(rules.tile_from_noise_value(fx(100_001), fx(200_001)), Tile::Dirt);
    assert_eq!(rules.tile_from_noise_value(fx(900_000), fx(0)), Tile::Stone);
}

#[test]
fn mineral_sample_is_looked_at_first() {
    let rules = Rules::default();
    let tile = rules.tile_from_noise_value(fx(10_000), fx(10_000));
    assert!(matches!(tile, Tile::Mineral { .. }));
}

#[test]
fn area_from_corners_in_any_order() {
    let a = Area::from_corners(at(-5, 7), at(5, -7));
    let b = Area::from_corners(at(5, -7), at(-5, 7));
    assert_eq!(a, b);
    assert_eq!(a, Area { x_min: -5, x_max: 5, y_min: -7, y_max: 7 });
}

#[test]
fn point_lies_in_the_cell_above_and_left() {
    assert_eq!(get_tile_pos(Vec2::new(fx(2_700_000), fx(-300_000))), at(2, -1));
    assert_eq!(get_tile_pos(Vec2::new(fx(0), fx(999_999))), at(0, 0));
    assert_eq!(cell_point(at(3, -2)), Vec2::new(fx(3_000_000), fx(-2_000_000)));
}

#[test]
fn eight_neighbours_column_by_column() {
    assert_eq!(
        get_neighbours(at(0, 0)),
        vec![at(-1, -1), at(-1, 0), at(-1, 1), at(0, -1), at(0, 1), at(1, -1), at(1, 0), at(1, 1)]
    );
    assert_eq!(
        get_neighbours(at(10, -3)),
        vec![at(9, -4), at(9, -3), at(9, -2), at(10, -4), at(10, -2), at(11, -4), at(11, -3), at(11, -2)]
    );
}

#[test]
fn neighbours_never_hold_the_cell_itself() {
    assert!(!get_neighbours(at(4, 4)).contains(&at(4, 4)));
    assert!(get_neighbours(at(1, 1)).contains(&at(0, 0)));
}

#[test]
fn fewer_neighbours_at_the_rim() {
    assert_eq!(
        get_neighbours(at(i32::MIN, i32::MIN)),
        vec![at(i32::MIN, i32::MIN + 1), at(i32::MIN + 1, i32::MIN), at(i32::MIN + 1, i32::MIN + 1)]
    );
    assert_eq!(get_neighbours(at(i32::MAX, 0)).len(), 5);
}

#[test]
fn word_arithmetic_wraps() {
    assert_eq!(add_mod(u64::MAX, 2), 1);
    assert_eq!(add_mod(3, 4), 7);
    assert_eq!(mul_mod(1u64 << 63, 2), 0);
    assert_eq!(mul_mod(6, 7), 42);
    assert_eq!(mix(0), 0);
    assert_ne!(mix(1), mix(2));
}

#[test]
fn noise_is_reproducible() {
    let a = MultiNoise::new(77, &terrain_properties());
    let b = MultiNoise::new(77, &terrain_properties());
    for x in -20..20 {
        for y in 0..20 {
            let p = cell_point(at(x, y));
            assert_eq!(a.get(p), b.get(p));
        }
    }
}

#[test]
fn noise_depends_on_the_seed() {
    let a = MultiNoise::new(1, &mineral_properties());
    let mut b = MultiNoise::new(1, &mineral_properties());
    b.set_seed(2);
    assert_eq!(b.seed, 2);
    let mut differs = false;
    for x in 0..30 {
        if a.get(cell_point(at(x, 3))) != b.get(cell_point(at(x, 3))) {
            differs = true;
        }
    }
    assert!(differs);
}

#[test]
fn noise_stays_in_its_range() {
    let properties = MultiNoiseProperties {
        min_value: fx(-2_000_000),
        max_value: fx(3_000_000),
        scale: fx(7_000_000),
        octaves: 4,
        lacunarity: fx(2_000_000),
        persistance: fx(500_000),
    };
    let noise = MultiNoise::new(123_456, &properties);
    let mut low = fx(i64::MAX);
    let mut high = fx(i64::MIN);
    for x in -40..40 {
        for y in -40..40 {
            let v = noise.get(cell_point(at(x, y)));
            assert!(v.raw >= -2_000_000 && v.raw <= 3_000_000);
            low = low.min(v);
            high = high.max(v);
        }
    }
    assert!(low.raw < high.raw);
}

#[test]
fn noise_without_layers_is_the_low_end() {
    let properties = MultiNoiseProperties {
        min_value: fx(250_000),
        max_value: fx(750_000),
        scale: fx(1_000_000),
        octaves: 0,
        lacunarity: fx(1_000_000),
        persistance: fx(1_000_000),
    };
    let noise = MultiNoise::new(5, &properties);
    assert_eq!(noise.get(cell_point(at(3, 4))), fx(250_000));
}

#[test]
fn noise_is_coherent() {
    let noise = MultiNoise::new(9, &terrain_properties());
    for x in 0..60 {
        let a = noise.get(cell_point(at(x, 0)));
        let b = noise.get(cell_point(at(x + 1, 0)));
        assert!(a.minus(b).abs().raw <= 150_000);
    }
}

#[test]
fn dice_roll_on() {
    let a = roll(0);
    assert_eq!(a, 0x9e37_79b9_7f4a_7c15);
    assert_ne!(roll(a), a);
    let share = share_of(a);
    assert!(share.raw >= 0 && share.raw <= 1_000_000);
}

#[test]
fn branch_directions_lie_in_their_sectors() {
    for raw in [0i64, 250_000, 500_000, 1_000_000] {
        let left = away_left(fx(raw));
        assert!(left.x.raw <= -499_000 && left.x.raw >= -867_000);
        assert!(left.y.raw >= 499_000 && left.y.raw <= 867_000);
        let right = away_right(fx(raw));
        assert!(right.x.raw >= 499_000 && right.x.raw <= 867_000);
        assert!(right.y.raw >= 499_000 && right.y.raw <= 867_000);
        let len_sq = left.len_sq();
        assert!(len_sq <= 1_000_010_000_000 && len_sq >= 999_990_000_000);
    }
    assert_eq!(away_left(fx(0)), Vec2::new(fx(-500_001), fx(866_025)));
}

#[test]
fn grid_holds_one_value_per_cell() {
    let mut grid: Grid<u8> = Grid::new();
    assert!(grid.get(at(1, 2)).is_none());
    grid.insert(at(1, 2), 7);
    grid.insert(at(-1, i32::MIN), 8);
    grid.insert(at(1, 2), 9);
    assert_eq!(grid.get(at(1, 2)), Some(&9));
    assert_eq!(grid.get(at(-1, i32::MIN)), Some(&8));
    assert!(grid.contains(at(1, 2)));
    assert!(!grid.contains(at(2, 1)));
    let mut cells = grid.positions();
    cells.sort_by_key(|p| (p.x, p.y));
    assert_eq!(cells, vec![at(-1, i32::MIN), at(1, 2)]);
    grid.remove(at(1, 2));
    assert!(!grid.contains(at(1, 2)));
    let held = grid.take();
    assert!(grid.positions().is_empty());
    assert_eq!(held.positions(), vec![at(-1, i32::MIN)]);
}

#[test]
fn table_holds_one_value_per_identifier() {
    let mut table: IdTable<u8> = IdTable::new();
    table.insert(Id(3), 1);
    table.insert(Id(3), 2);
    table.insert(Id(0), 5);
    assert_eq!(table.get(Id(3)), Some(&2));
    assert_eq!(table.get(Id(1)), None);
    let mut ids = table.ids();
    ids.sort_by_key(|id| id.raw());
    assert_eq!(ids, vec![Id(0), Id(3)]);
    let held = table.take();
    assert!(table.ids().is_empty());
    assert_eq!(held.get(Id(0)), Some(&5));
}
