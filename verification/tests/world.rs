use root_world::client_view::{ClientView, ViewEvent};
use root_world::fixed::Fixed;
use root_world::id::Id;
use root_world::message::Message;
use root_world::model::Model;
use root_world::root::{reaches, retain_attractors, Attractor, Root, RootMap, RootType, TreeRoots};
use root_world::rules::Rules;
use root_world::tile::{Area, Position, Tile};
use root_world::vector::Vec2;

fn fx(raw: i64) -> Fixed {
    Fixed::from_raw(raw)
}

fn at(x: i32, y: i32) -> Position {
    Position { x, y }
}

fn point(x: i64, y: i64) -> Vec2 {
    Vec2::new(fx(x), fx(y))
}

fn tick() -> Fixed {
    fx(50_000)
}

fn fresh() -> Model {
    Model::with_seeds(Rules::default(), 11, 22)
}

fn sorted_tiles(model: &Model) -> Vec<(i32, i32, Tile)> {
    let mut out: Vec<(i32, i32, Tile)> = model
        .tiles
        .positions()
        .into_iter()
        .map(|p| (p.y, p.x, model.tile(p).unwrap()))
        .collect();
    out.sort_by_key(|e| (e.0, e.1));
    out
}

fn roots_of(model: &Model) -> Vec<(Id, Root)> {
    let mut out = Vec::new();
    for i in 0..model.tree_roots.roots.len() {
        out.push((model.tree_roots.roots.id_at(i), model.tree_roots.roots.root_at(i)));
    }
    out
}

fn heads(model: &Model) -> Vec<(Id, Root)> {
    roots_of(model)
        .into_iter()
        .filter(|(_, r)| matches!(r.root_type, RootType::Head { .. }))
        .collect()
}

#[test]
fn root_map_finds_by_identifier() {
    let mut roots = RootMap::new();
    let root = Root { position: point(0, 0), parent_root: None, root_type: RootType::Node };
    roots.push(Id(2), root);
    roots.push(Id(5), Root { position: point(1, 1), ..root });
    roots.push(Id(9), Root { position: point(2, 2), ..root });
    assert_eq!(roots.len(), 3);
    assert_eq!(roots.find(Id(5)), Some(1));
    assert_eq!(roots.find(Id(4)), None);
    assert_eq!(roots.get(Id(9)).unwrap().position, point(2, 2));
    assert_eq!(roots.get(Id(0)), None);
    roots.set_at(1, Root { position: point(7, 7), ..root });
    assert_eq!(roots.id_at(1), Id(5));
    assert_eq!(roots.root_at(1).position, point(7, 7));
}

#[test]
fn root_map_drops_what_lies_above() {
    let root = Root { position: point(0, 0), parent_root: None, root_type: RootType::Node };
    let mut roots = RootMap::new();
    roots.push(Id(0), Root { position: point(0, 999_999), ..root });
    roots.push(Id(1), Root { position: point(0, 1_000_000), ..root });
    roots.push(Id(2), Root { position: point(0, 500_000), ..root });
    roots.push(Id(3), Root { position: point(0, 3_000_000), ..root });
    roots.retain_from(1);
    assert_eq!(roots.len(), 2);
    assert_eq!(roots.id_at(0), Id(1));
    assert_eq!(roots.id_at(1), Id(3));
    assert!(reaches(fx(1_000_000), 1));
    assert!(!reaches(fx(999_999), 1));
    assert!(reaches(fx(-2_000_000), -2));
}

#[test]
fn attractors_above_are_dropped() {
    let mut attractors = vec![
        Attractor { position: point(0, 5_000_000), root: None },
        Attractor { position: point(0, 1_000_000), root: Some(Id(1)) },
        Attractor { position: point(0, 9_000_000), root: None },
    ];
    retain_attractors(&mut attractors, 5);
    assert_eq!(
        attractors,
        vec![
            Attractor { position: point(0, 5_000_000), root: None },
            Attractor { position: point(0, 9_000_000), root: None },
        ]
    );
    let empty = TreeRoots::new();
    assert_eq!(empty.roots.len(), 0);
    assert!(empty.attractors.is_empty());
}

#[test]
fn new_world_has_one_tip_and_twenty_rows_of_dirt() {
    let model = fresh();
    let roots = roots_of(&model);
    assert_eq!(roots.len(), 1);
    assert_eq!(roots[0].0, Id(0));
    assert_eq!(
        roots[0].1,
        Root {
            position: point(0, 0),
            parent_root: None,
            root_type: RootType::Head { velocity: point(0, 2_000_000) },
        }
    );
    assert_eq!(model.minerals(), fx(10_000_000));
    assert_eq!(model.current_depth(), fx(0));
    assert_eq!(model.generation_depth(), 10);
    assert_eq!(model.fixed_delta_time(), fx(50_000));
    assert_eq!(model.rules(), Rules::default());
    let tiles = sorted_tiles(&model);
    assert_eq!(tiles.len(), 103 * 21);
    assert!(tiles.iter().all(|t| t.2 == Tile::Dirt));
    assert_eq!(model.tile(at(-51, 0)), Some(Tile::Dirt));
    assert_eq!(model.tile(at(51, 20)), Some(Tile::Dirt));
    assert_eq!(model.tile(at(52, 0)), None);
    assert_eq!(model.tile(at(0, 21)), None);
    assert_eq!(model.root(Id(0)).unwrap().position, point(0, 0));
    assert_eq!(model.root(Id(1)), None);
}

#[test]
fn area_spans_the_chamber() {
    let model = fresh();
    assert_eq!(model.get_area(3, 9), Area { x_min: -51, x_max: 51, y_min: 3, y_max: 9 });
    assert_eq!(model.get_area(9, 3), Area { x_min: -51, x_max: 51, y_min: 3, y_max: 9 });
}

#[test]
fn set_tile_overwrites_and_try_set_tile_does_not() {
    let mut model = fresh();
    model.get_client_view_update();
    model.set_tile(at(0, 0), Tile::Stone);
    assert_eq!(model.tile(at(0, 0)), Some(Tile::Stone));
    model.try_set_tile(at(0, 0), Tile::Mineral { minerals: fx(2_000_000) });
    assert_eq!(model.tile(at(0, 0)), Some(Tile::Stone));
    model.try_set_tile(at(0, 100), Tile::Mineral { minerals: fx(2_000_000) });
    assert_eq!(model.tile(at(0, 100)), Some(Tile::Mineral { minerals: fx(2_000_000) }));
    let changes = model.get_client_view_update();
    let mut cells = changes.tiles.positions();
    cells.sort_by_key(|p| p.y);
    assert_eq!(cells, vec![at(0, 0), at(0, 100)]);
    assert_eq!(changes.tiles.get(at(0, 0)), Some(&ViewEvent::Changed(Tile::Stone)));
}

#[test]
fn fill_area_writes_every_cell() {
    let mut model = fresh();
    let area = Area { x_min: -1, x_max: 1, y_min: 30, y_max: 31 };
    model.fill_area(area, Tile::Stone);
    for y in 30..=31 {
        for x in -1..=1 {
            assert_eq!(model.tile(at(x, y)), Some(Tile::Stone));
        }
    }
    assert_eq!(model.tile(at(2, 30)), None);
    assert_eq!(model.tile(at(0, 32)), None);
    model.fill_area(Area { x_min: 5, x_max: 4, y_min: 0, y_max: 0 }, Tile::Stone);
    assert_eq!(model.tile(at(4, 0)), Some(Tile::Dirt));
}

#[test]
fn generation_without_deposits_is_reproducible() {
    let mut rules = Rules::default();
    rules.mineral_frequency = fx(0);
    rules.stone_frequency = fx(200_000);
    let mut first = Model::with_seeds(rules, 4242, 1717);
    let mut second = Model::with_seeds(rules, 4242, 1717);
    first.remove_above(i32::MAX);
    second.remove_above(i32::MAX);
    assert!(first.tiles.positions().is_empty());
    let area = first.get_area(0, 20);
    first.generate_area(area);
    second.generate_area(area);
    let a = sorted_tiles(&first);
    let b = sorted_tiles(&second);
    assert_eq!(a.len(), 103 * 21);
    assert!(a.iter().all(|t| t.2 == Tile::Dirt || t.2 == Tile::Stone));
    assert!(a.iter().any(|t| t.2 == Tile::Dirt));
    assert_eq!(a, b);
    for p in first.tiles.positions() {
        assert_eq!(first.tile(p), Some(first.generated_tile(p)));
    }
}

#[test]
fn generation_depends_on_the_seeds() {
    let mut first = Model::with_seeds(Rules::default(), 1, 2);
    let mut second = Model::with_seeds(Rules::default(), 3, 4);
    let area = first.get_area(40, 60);
    first.generate_area(area);
    second.generate_area(area);
    assert_ne!(sorted_tiles(&first), sorted_tiles(&second));
}

#[test]
fn generated_deposits_are_within_bounds() {
    let mut rules = Rules::default();
    rules.mineral_frequency = fx(400_000);
    let mut model = Model::with_seeds(rules, 8, 9);
    let area = model.get_area(21, 60);
    model.generate_area(area);
    let mut deposits = 0;
    for (_, _, tile) in sorted_tiles(&model) {
        if let Tile::Mineral { minerals } = tile {
            deposits += 1;
            assert!(minerals.raw >= 1_000_000 && minerals.raw <= 5_000_000);
        }
    }
    assert!(deposits > 0);
}

#[test]
fn remove_above_is_a_hard_delete() {
    let mut model = fresh();
    model.spawn_attractor(point(0, 2_000_000));
    model.spawn_attractor(point(0, 12_000_000));
    model.remove_above(10);
    assert_eq!(model.tile(at(0, 9)), None);
    assert_eq!(model.tile(at(0, 10)), Some(Tile::Dirt));
    assert_eq!(sorted_tiles(&model).len(), 103 * 11);
    assert_eq!(roots_of(&model).len(), 0);
    assert_eq!(model.root(Id(0)), None);
    assert_eq!(model.tree_roots.attractors.len(), 1);
    assert_eq!(model.tree_roots.attractors[0].position, point(0, 12_000_000));
}

#[test]
fn tip_grows_and_leaves_a_node() {
    let mut model = fresh();
    model.update(tick());
    let roots = roots_of(&model);
    assert_eq!(roots.len(), 2);
    assert_eq!(
        roots[0],
        (
            Id(0),
            Root {
                position: point(0, 100_000),
                parent_root: Some((Id(1), point(0, 0))),
                root_type: RootType::Head { velocity: point(0, 2_000_000) },
            }
        )
    );
    assert_eq!(
        roots[1],
        (Id(1), Root { position: point(0, 0), parent_root: None, root_type: RootType::Node })
    );
    assert_eq!(model.current_depth(), fx(100_000));
    assert_eq!(model.generation_depth(), 20);
}

#[test]
fn time_gathers_until_a_tick_is_due() {
    let mut model = fresh();
    model.update(fx(20_000));
    assert_eq!(roots_of(&model).len(), 1);
    model.update(fx(20_000));
    assert_eq!(roots_of(&model).len(), 1);
    model.update(fx(20_000));
    assert_eq!(roots_of(&model).len(), 2);
    assert_eq!(model.delta_time, fx(10_000));
    model.update(fx(0));
    assert_eq!(roots_of(&model).len(), 2);
}

#[test]
fn no_step_is_left_out_when_much_time_has_passed() {
    let mut model = fresh();
    model.update(fx(10_000));
    model.update(fx(120_000));
    assert_eq!(roots_of(&model).len(), 3);
    assert_eq!(model.delta_time, fx(30_000));
    assert_eq!(model.current_depth(), fx(200_000));
    let mut other = fresh();
    other.update(fx(50_000));
    other.update(fx(50_000));
    other.update(fx(30_000));
    assert_eq!(roots_of(&other), roots_of(&model));
    assert_eq!(other.delta_time, fx(30_000));
    let mut far = fresh();
    far.update(fx(1_000_000));
    assert_eq!(roots_of(&far).len(), 21);
    assert_eq!(far.current_depth(), fx(2_000_000));
    assert_eq!(far.delta_time, fx(0));
}

#[test]
fn split_makes_one_node_and_two_tips() {
    let mut model = fresh();
    model.handle_message(Message::SplitRoot { pos: point(5_000_000, 1_000_000) });
    assert_eq!(model.minerals(), fx(9_000_000));
    assert_eq!(model.split_root, Some((Id(0), point(5_000_000, 1_000_000))));
    model.update(tick());
    let roots = roots_of(&model);
    assert_eq!(roots.len(), 3);
    let nodes: Vec<&(Id, Root)> =
        roots.iter().filter(|(_, r)| r.root_type == RootType::Node).collect();
    assert_eq!(nodes.len(), 1);
    assert_eq!(nodes[0].0, Id(1));
    assert_eq!(nodes[0].1.position, point(0, 0));
    assert_eq!(nodes[0].1.parent_root, None);
    let tips = heads(&model);
    assert_eq!(tips.len(), 2);
    assert_eq!(tips[0].0, Id(0));
    assert_eq!(tips[1].0, Id(2));
    let toward = point(5_000_000, 1_000_000).normalize();
    assert_eq!(tips[0].1.position, toward.scale(tick()));
    assert_eq!(tips[0].1.root_type, RootType::Head { velocity: toward.scale(fx(2_000_000)) });
    assert_eq!(tips[0].1.parent_root, Some((Id(1), point(0, 0))));
    assert_eq!(tips[1].1.parent_root, Some((Id(1), point(0, 0))));
    assert!(tips[1].1.position.x.raw < 0);
    assert!(tips[1].1.position.y.raw > 0);
    assert_eq!(model.split_root, None);
    model.update(tick());
    assert_eq!(heads(&model).len(), 2);
    assert_eq!(roots_of(&model).len(), 5);
}

#[test]
fn split_towards_the_left_sends_the_old_tip_right() {
    let mut model = fresh();
    model.handle_message(Message::SplitRoot { pos: point(-5_000_000, 1_000_000) });
    model.update(tick());
    let tips = heads(&model);
    assert_eq!(tips.len(), 2);
    assert!(tips[0].1.position.x.raw > 0);
    let toward = point(-5_000_000, 1_000_000).normalize();
    assert_eq!(tips[1].1.position, toward.scale(tick()));
}

#[test]
fn split_without_a_tip_above_costs_nothing() {
    let mut model = fresh();
    model.handle_message(Message::SplitRoot { pos: point(0, -1_000_000) });
    assert_eq!(model.minerals(), fx(10_000_000));
    assert_eq!(model.split_root, None);
    assert!(!model.split_towards(point(0, 0)));
    assert!(model.split_towards(point(0, 1)));
}

#[test]
fn split_for_a_tip_that_is_gone_is_dropped() {
    let mut model = fresh();
    model.handle_message(Message::SplitRoot { pos: point(0, 9_000_000) });
    assert_eq!(model.split_root, Some((Id(0), point(0, 9_000_000))));
    model.remove_above(5);
    assert_eq!(model.root(Id(0)), None);
    model.update(tick());
    assert_eq!(model.split_root, None);
    assert_eq!(roots_of(&model).len(), 0);
    assert_eq!(model.minerals(), fx(9_000_000));
}

#[test]
fn split_for_a_tip_that_has_stopped_is_dropped() {
    let mut model = fresh();
    model.set_tile(at(0, 0), Tile::Stone);
    model.update(tick());
    assert_eq!(model.root(Id(0)).unwrap().root_type, RootType::Final);
    model.split_root = Some((Id(0), point(3_000_000, 3_000_000)));
    model.update(tick());
    assert_eq!(model.split_root, None);
    assert_eq!(roots_of(&model).len(), 2);
}

#[test]
fn a_later_split_request_replaces_the_waiting_one() {
    let mut model = fresh();
    model.handle_message(Message::SplitRoot { pos: point(5_000_000, 1_000_000) });
    model.handle_message(Message::SplitRoot { pos: point(-5_000_000, 1_000_000) });
    assert_eq!(model.minerals(), fx(8_000_000));
    assert_eq!(model.split_root, Some((Id(0), point(-5_000_000, 1_000_000))));
}

#[test]
fn message_without_funds_changes_nothing() {
    let mut model = fresh();
    model.handle_message(Message::SpawnAttractor { pos: point(0, 3_000_000) });
    assert_eq!(model.minerals(), fx(5_000_000));
    model.handle_message(Message::SpawnAttractor { pos: point(0, 4_000_000) });
    assert_eq!(model.minerals(), fx(0));
    assert_eq!(model.tree_roots.attractors.len(), 2);
    let before = roots_of(&model);
    model.handle_message(Message::SpawnAttractor { pos: point(0, 5_000_000) });
    model.handle_message(Message::SplitRoot { pos: point(0, 5_000_000) });
    assert_eq!(model.minerals(), fx(0));
    assert_eq!(model.tree_roots.attractors.len(), 2);
    assert_eq!(model.split_root, None);
    assert_eq!(roots_of(&model), before);
}

#[test]
fn spending() {
    let mut model = fresh();
    assert!(model.can_spend(fx(10_000_000)));
    assert!(!model.can_spend(fx(10_000_001)));
    assert!(!model.try_spend(fx(10_000_001)));
    assert_eq!(model.minerals(), fx(10_000_000));
    assert!(model.try_spend(fx(4_000_000)));
    assert_eq!(model.minerals(), fx(6_000_000));
}

#[test]
fn attractor_is_assigned_to_the_nearest_tip_above() {
    let mut model = fresh();
    model.spawn_attractor(point(1_000_000, 3_000_000));
    assert_eq!(
        model.tree_roots.attractors,
        vec![Attractor { position: point(1_000_000, 3_000_000), root: Some(Id(0)) }]
    );
    model.spawn_attractor(point(1_000_000, 0));
    assert_eq!(model.tree_roots.attractors[1].root, None);
    let changes = model.get_client_view_update();
    assert_eq!(changes.attractors.len(), 2);
}

#[test]
fn closest_tip_is_the_nearest_above() {
    let mut roots = RootMap::new();
    let tip = |x: i64, y: i64| Root {
        position: point(x, y),
        parent_root: None,
        root_type: RootType::Head { velocity: point(0, 0) },
    };
    roots.push(Id(0), tip(0, 0));
    roots.push(Id(1), tip(4_000_000, 0));
    roots.push(Id(2), tip(-4_000_000, 0));
    roots.push(Id(3), Root { root_type: RootType::Final, ..tip(3_000_000, 2_000_000) });
    roots.push(Id(4), tip(3_000_000, 9_000_000));
    assert_eq!(Model::closest_root_id(&roots, point(3_000_000, 3_000_000)), Some(Id(1)));
    assert_eq!(Model::closest_root_id(&roots, point(0, 3_000_000)), Some(Id(0)));
    assert_eq!(Model::closest_root_id(&roots, point(2_000_000, 1_000_000)), Some(Id(0)));
    assert_eq!(Model::closest_root_id(&roots, point(0, 0)), None);
    assert_eq!(Model::closest_root_id(&roots, point(3_000_000, 20_000_000)), Some(Id(4)));
}

#[test]
fn attractor_pulls_the_tip() {
    let mut model = fresh();
    model.spawn_attractor(point(10_000_000, 10_000_000));
    model.update(tick());
    let tip = heads(&model)[0].1;
    let pull = point(10_000_000, 10_000_000).normalize().scale(tick());
    let wanted = point(0, 2_000_000).plus(pull).clamp_len(fx(2_000_000));
    assert_eq!(tip.root_type, RootType::Head { velocity: wanted });
    assert!(wanted.x.raw > 0);
    assert_eq!(tip.position, wanted.scale(tick()));
    assert_eq!(model.tree_roots.attractors.len(), 1);
}

#[test]
fn attractor_that_was_passed_is_removed() {
    let mut model = fresh();
    model.spawn_attractor(point(0, 150_000));
    model.update(tick());
    assert_eq!(model.tree_roots.attractors.len(), 1);
    model.update(tick());
    assert_eq!(model.tree_roots.attractors.len(), 1);
    assert_eq!(model.tree_roots.attractors[0].root, None);
    assert!(heads(&model)[0].1.position.y.raw > 150_000);
    let mut other = fresh();
    other.spawn_attractor(point(0, 100_000));
    other.update(tick());
    assert_eq!(other.tree_roots.attractors[0].root, None);
    other.tree_roots.attractors[0].root = Some(Id(0));
    other.update(tick());
    assert!(other.tree_roots.attractors.is_empty());
}

#[test]
fn stone_stops_the_tip() {
    let mut model = fresh();
    model.set_tile(at(0, 1), Tile::Stone);
    for _ in 0..9 {
        model.update(tick());
    }
    assert_eq!(heads(&model).len(), 1);
    model.update(tick());
    assert_eq!(heads(&model).len(), 0);
    assert_eq!(model.root(Id(0)).unwrap().root_type, RootType::Final);
    assert_eq!(model.root(Id(0)).unwrap().position, point(0, 1_000_000));
    let count = roots_of(&model).len();
    model.update(tick());
    assert_eq!(roots_of(&model).len(), count);
    assert_eq!(model.current_depth(), fx(900_000));
}

#[test]
fn wall_stops_the_tip() {
    let mut rules = Rules::default();
    rules.chamber_width = 0;
    let mut model = Model::with_seeds(rules, 1, 1);
    model.handle_message(Message::SplitRoot { pos: point(5_000_000, 1_000_000) });
    model.update(tick());
    assert_eq!(model.root(Id(0)).unwrap().root_type, RootType::Final);
}

#[test]
fn another_root_stops_the_tip() {
    let mut model = fresh();
    model.new_root(Root {
        position: point(20_000, 120_000),
        parent_root: None,
        root_type: RootType::Final,
    });
    model.update(tick());
    assert_eq!(model.root(Id(0)).unwrap().root_type, RootType::Final);
    assert_eq!(model.root(Id(0)).unwrap().position, point(0, 100_000));
}

#[test]
fn deposit_turns_the_tip_into_a_consumer() {
    let mut model = fresh();
    model.set_tile(at(0, 1), Tile::Mineral { minerals: fx(120_000) });
    for _ in 0..10 {
        model.update(tick());
    }
    assert_eq!(
        model.root(Id(0)).unwrap().root_type,
        RootType::Consumer { position: at(0, 1) }
    );
    assert_eq!(model.minerals(), fx(10_000_000));
    model.update(tick());
    assert_eq!(model.minerals(), fx(10_050_000));
    assert_eq!(model.tile(at(0, 1)), Some(Tile::Mineral { minerals: fx(70_000) }));
    model.update(tick());
    model.update(tick());
    assert_eq!(model.minerals(), fx(10_120_000));
    assert_eq!(model.tile(at(0, 1)), Some(Tile::Mineral { minerals: fx(0) }));
    assert_eq!(
        model.root(Id(0)).unwrap().root_type,
        RootType::Consumer { position: at(0, 1) }
    );
    model.update(tick());
    assert_eq!(model.root(Id(0)).unwrap().root_type, RootType::Final);
    assert_eq!(model.minerals(), fx(10_120_000));
}

#[test]
fn consumer_exhaustion() {
    let mut model = fresh();
    model.set_tile(at(5, 5), Tile::Mineral { minerals: fx(500_000) });
    let id = model.new_root(Root {
        position: point(5_500_000, 5_500_000),
        parent_root: None,
        root_type: RootType::Consumer { position: at(5, 5) },
    });
    let consumed = model.consume(at(5, 5), fx(2_000_000));
    assert_eq!(consumed, fx(500_000));
    assert_eq!(model.tile(at(5, 5)), Some(Tile::Mineral { minerals: fx(0) }));
    assert_eq!(model.minerals(), fx(10_500_000));
    model.update(tick());
    assert_eq!(model.root(id).unwrap().root_type, RootType::Final);
    assert_eq!(model.minerals(), fx(10_500_000));
}

#[test]
fn consume_on_dirt_or_nothing_gives_nothing() {
    let mut model = fresh();
    assert_eq!(model.consume(at(0, 0), fx(1_000_000)), fx(0));
    assert_eq!(model.consume(at(0, 500), fx(1_000_000)), fx(0));
    model.set_tile(at(3, 3), Tile::Mineral { minerals: fx(1_000_000) });
    assert_eq!(model.consume(at(3, 3), fx(0)), fx(0));
    assert_eq!(model.consume(at(3, 3), fx(-5)), fx(0));
    assert_eq!(model.tile(at(3, 3)), Some(Tile::Mineral { minerals: fx(1_000_000) }));
    assert_eq!(model.minerals(), fx(10_000_000));
}

#[test]
fn consume_floods_to_the_neighbours() {
    let mut model = fresh();
    model.set_tile(at(3, 3), Tile::Mineral { minerals: fx(1_000_000) });
    model.set_tile(at(4, 4), Tile::Mineral { minerals: fx(2_000_000) });
    model.set_tile(at(5, 5), Tile::Mineral { minerals: fx(3_000_000) });
    model.set_tile(at(8, 8), Tile::Mineral { minerals: fx(3_000_000) });
    model.get_client_view_update();
    let consumed = model.consume(at(3, 3), fx(4_500_000));
    assert_eq!(consumed, fx(4_500_000));
    assert_eq!(model.tile(at(3, 3)), Some(Tile::Mineral { minerals: fx(0) }));
    assert_eq!(model.tile(at(4, 4)), Some(Tile::Mineral { minerals: fx(0) }));
    assert_eq!(model.tile(at(5, 5)), Some(Tile::Mineral { minerals: fx(1_500_000) }));
    assert_eq!(model.tile(at(8, 8)), Some(Tile::Mineral { minerals: fx(3_000_000) }));
    assert_eq!(model.minerals(), fx(14_500_000));
    let changes = model.get_client_view_update();
    assert_eq!(changes.tiles.positions().len(), 3);
    let rest = model.consume(at(3, 3), fx(9_000_000));
    assert_eq!(rest, fx(1_500_000));
    assert_eq!(model.tile(at(5, 5)), Some(Tile::Mineral { minerals: fx(0) }));
    assert_eq!(model.consume(at(3, 3), fx(9_000_000)), fx(0));
}

#[test]
fn consume_returns_what_the_deposits_lost() {
    let mut rules = Rules::default();
    rules.mineral_frequency = fx(450_000);
    let mut model = Model::with_seeds(rules, 19, 23);
    let area = model.get_area(21, 50);
    model.generate_area(area);
    let total = |m: &Model| -> i64 {
        sorted_tiles(m)
            .iter()
            .map(|t| match t.2 {
                Tile::Mineral { minerals } => minerals.raw,
                _ => 0,
            })
            .sum()
    };
    let deposits: Vec<Position> = model
        .tiles
        .positions()
        .into_iter()
        .filter(|p| matches!(model.tile(*p), Some(Tile::Mineral { .. })))
        .collect();
    assert!(!deposits.is_empty());
    let mut drained_any = false;
    for (i, cell) in deposits.iter().enumerate().take(40) {
        let budget = fx(700_000 * (i as i64 % 9));
        let before = total(&model);
        let pool = model.minerals();
        let consumed = model.consume(*cell, budget);
        assert!(consumed.raw >= 0 && consumed.raw <= budget.raw);
        assert_eq!(before - total(&model), consumed.raw);
        assert_eq!(model.minerals(), pool.plus(consumed));
        drained_any = drained_any || consumed.raw > 0;
    }
    assert!(drained_any);
}

#[test]
fn window_events_change_nothing() {
    let mut model = fresh();
    let before = roots_of(&model);
    model.handle_event(&geng::Event::MouseDown {
        position: geng::prelude::vec2(1.0, 2.0),
        button: geng::MouseButton::Left,
    });
    assert_eq!(roots_of(&model), before);
    assert_eq!(model.minerals(), fx(10_000_000));
}

#[test]
fn consume_takes_the_first_neighbour_first() {
    let mut model = fresh();
    model.set_tile(at(3, 3), Tile::Mineral { minerals: fx(1_000_000) });
    model.set_tile(at(2, 2), Tile::Mineral { minerals: fx(1_000_000) });
    model.set_tile(at(4, 4), Tile::Mineral { minerals: fx(1_000_000) });
    let consumed = model.consume(at(3, 3), fx(1_500_000));
    assert_eq!(consumed, fx(1_500_000));
    assert_eq!(model.tile(at(2, 2)), Some(Tile::Mineral { minerals: fx(500_000) }));
    assert_eq!(model.tile(at(4, 4)), Some(Tile::Mineral { minerals: fx(1_000_000) }));
}

#[test]
fn window_follows_the_deepest_tip() {
    let mut model = fresh();
    for _ in 0..300 {
        assert!(model.room_left());
        model.update(tick());
        let row = model.current_depth().floor();
        assert!(model.generation_depth() - row >= 20);
        for p in model.tiles.positions() {
            assert!(p.y >= row - 20);
            if let Some(Tile::Mineral { minerals }) = model.tile(p) {
                assert!(minerals.raw >= 0 && minerals.raw <= 5_000_000);
            }
        }
        for (_, root) in roots_of(&model) {
            assert!(root.position.y.raw >= (row as i64 - 20) * 1_000_000);
        }
        assert!(model.minerals().raw >= 0);
    }
    assert!(model.generation_depth() >= 30);
}

#[test]
fn eviction_drops_old_roots_and_tiles() {
    let mut rules = Rules::default();
    rules.deletion_depth = 2;
    rules.stone_frequency = fx(-1);
    rules.mineral_frequency = fx(-1);
    let mut model = Model::with_seeds(rules, 5, 6);
    for _ in 0..100 {
        model.update(tick());
    }
    let row = model.current_depth().floor();
    assert_eq!(row, 10);
    assert_eq!(model.tile(at(0, 7)), None);
    assert_eq!(model.tile(at(0, 8)), Some(Tile::Dirt));
    assert_eq!(model.root(Id(1)), None);
    let tip = heads(&model)[0];
    assert_eq!(tip.0, Id(0));
    assert_eq!(roots_of(&model).len(), 21);
}

#[test]
fn parents_lead_to_the_genesis_root_or_to_a_root_that_is_gone() {
    let mut rules = Rules::default();
    rules.deletion_depth = 3;
    rules.stone_frequency = fx(-1);
    rules.mineral_frequency = fx(-1);
    let mut model = Model::with_seeds(rules, 5, 6);
    model.handle_message(Message::SplitRoot { pos: point(5_000_000, 1_000_000) });
    for _ in 0..80 {
        model.update(tick());
    }
    for (id, _) in roots_of(&model) {
        let mut at_id = id;
        let mut steps = 0;
        while let Some(root) = model.root(at_id) {
            match root.parent_root {
                Some((parent, _)) => at_id = parent,
                None => break,
            }
            steps += 1;
            assert!(steps <= 1000);
        }
    }
}

#[test]
fn two_runs_with_the_same_seeds_agree() {
    let mut first = Model::with_seeds(Rules::default(), 31, 41);
    let mut second = Model::with_seeds(Rules::default(), 31, 41);
    for i in 0..120 {
        if i == 3 {
            first.handle_message(Message::SplitRoot { pos: point(6_000_000, 2_000_000) });
            second.handle_message(Message::SplitRoot { pos: point(6_000_000, 2_000_000) });
        }
        if i == 40 {
            first.handle_message(Message::SpawnAttractor { pos: point(-3_000_000, 30_000_000) });
            second.handle_message(Message::SpawnAttractor { pos: point(-3_000_000, 30_000_000) });
        }
        first.update(tick());
        second.update(tick());
    }
    assert_eq!(roots_of(&first), roots_of(&second));
    assert_eq!(sorted_tiles(&first), sorted_tiles(&second));
    assert_eq!(first.tree_roots.attractors, second.tree_roots.attractors);
    assert_eq!(first.minerals(), second.minerals());
    assert_eq!(first.dice, second.dice);
    assert!(heads(&first).len() >= 1);
}

#[test]
fn reset_starts_anew() {
    let mut model = fresh();
    model.handle_message(Message::SpawnAttractor { pos: point(0, 3_000_000) });
    for _ in 0..30 {
        model.update(tick());
    }
    model.reset_with_seeds(11, 22);
    let again = fresh();
    assert_eq!(roots_of(&model), roots_of(&again));
    assert_eq!(sorted_tiles(&model), sorted_tiles(&again));
    assert!(model.tree_roots.attractors.is_empty());
    assert_eq!(model.minerals(), fx(10_000_000));
    assert_eq!(model.generation_depth(), 10);
    assert_eq!(model.current_depth(), fx(0));
}

#[test]
fn full_view_holds_the_whole_world() {
    let mut model = fresh();
    model.spawn_attractor(point(0, 3_000_000));
    model.update(tick());
    let view = model.get_client_view();
    assert_eq!(view.rules, Rules::default());
    assert_eq!(view.current_depth, fx(100_000));
    assert_eq!(view.minerals, fx(10_000_000));
    assert_eq!(view.tiles.positions().len(), 103 * 21);
    assert_eq!(view.tiles.get(at(0, 0)), Some(&ViewEvent::Changed(Tile::Dirt)));
    assert_eq!(view.roots.ids().len(), 2);
    assert_eq!(
        view.roots.get(Id(1)),
        Some(&ViewEvent::Changed(Root {
            position: point(0, 0),
            parent_root: None,
            root_type: RootType::Node,
        }))
    );
    assert_eq!(view.attractors.len(), 1);
    let again = model.get_client_view();
    assert_eq!(again.tiles.positions().len(), 103 * 21);
}

#[test]
fn update_view_holds_the_changes_and_is_drained() {
    let mut model = fresh();
    let first = model.get_client_view_update();
    assert_eq!(first.tiles.positions().len(), 103 * 21);
    assert_eq!(first.roots.ids(), vec![Id(0)]);
    let second = model.get_client_view_update();
    assert!(second.tiles.positions().is_empty());
    assert!(second.roots.ids().is_empty());
    assert!(second.attractors.is_empty());
    model.update(tick());
    let third = model.get_client_view_update();
    let mut ids = third.roots.ids();
    ids.sort_by_key(|id| id.raw());
    assert_eq!(ids, vec![Id(0), Id(1)]);
    assert_eq!(third.current_depth, fx(100_000));
    match third.roots.get(Id(0)) {
        Some(ViewEvent::Changed(root)) => assert_eq!(root.position, point(0, 100_000)),
        None => panic!("the tip is missing from the changes"),
    }
}

#[test]
fn seeds_are_drawn_where_none_are_given() {
    let mut model = Model::new(Rules::default());
    assert_eq!(roots_of(&model).len(), 1);
    assert_eq!(sorted_tiles(&model).len(), 103 * 21);
    let same = Model::with_seeds(Rules::default(), model.terrain_noise.seed, model.mineral_noise.seed);
    assert_eq!(model.dice, same.dice);
    model.update(tick());
    model.reset();
    assert_eq!(roots_of(&model).len(), 1);
    assert_eq!(model.minerals(), fx(10_000_000));
    let mut seeds = vec![model.terrain_noise.seed, model.mineral_noise.seed];
    for _ in 0..8 {
        model.reset();
        seeds.push(model.terrain_noise.seed);
    }
    seeds.sort();
    seeds.dedup();
    assert!(seeds.len() > 1);
}

#[test]
fn empty_views() {
    let view = ClientView::new(Rules::default());
    assert!(view.tiles.positions().is_empty());
    assert!(view.roots.ids().is_empty());
    assert!(view.attractors.is_empty());
    let other = ClientView::default();
    assert_eq!(other.rules, Rules::default());
    assert_eq!(other.minerals, fx(0));
}

#[test]
fn deepest_tip() {
    let mut model = fresh();
    assert_eq!(model.deepest_head(), Some(fx(0)));
    model.update(tick());
    assert_eq!(model.deepest_head(), Some(fx(100_000)));
    model.remove_above(5);
    assert_eq!(model.deepest_head(), None);
}
