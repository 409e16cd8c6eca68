use vstd::prelude::*;
use vstd::set_lib::{lemma_int_range, lemma_len_subset, set_int_range};
use crate::consume::lemma_consume_inv;
use crate::dice::spec_roll;
use crate::fixed::Fixed;
use crate::generation::lemma_remove_above_inv;
use crate::grid::{cell_of, key_of, lemma_key_round_trip};
use crate::growth::{lemma_new_root_inv, lemma_put_root_inv};
use crate::message::Message;
use crate::noise::MultiNoise;
use crate::root::{Root, RootType};
use crate::rules::Rules;
use crate::tile::{Area, Position, Tile};
use crate::vector::Vec2;
use crate::world::{generated_tile, lemma_tick_keeps_time, link_ok, World};

verus! {

/// The grid has finitely many cells, so every set of cells is finite.
pub proof fn lemma_cells_are_finite(cells: Set<Position>)
    ensures
        cells.finite(),
{
    lemma_key_round_trip();
    let keys = set_int_range(0, 0x1_0000_0000_0000_0000);
    lemma_int_range(0, 0x1_0000_0000_0000_0000);
    let f = |k: int| cell_of(k as u64);
    keys.lemma_map_finite(f);
    assert forall|p: Position| cells.contains(p) implies keys.map(f).contains(p) by {
        let k = key_of(p) as int;
        assert(keys.contains(k) && f(k) == p);
    }
    lemma_len_subset(cells, keys.map(f));
}

/// Whatever the samples, the tile that the noise fields make respects the
/// ceiling of the rules.
pub proof fn lemma_generated_tile_is_within(
    rules: Rules,
    terrain_noise: MultiNoise,
    mineral_noise: MultiNoise,
    p: Position,
)
    requires
        rules.wf(),
    ensures
        generated_tile(rules, terrain_noise, mineral_noise, p).within(rules),
{
    reveal(generated_tile);
}

/// Filling an area with a tile that respects the ceiling leaves the world sound.
pub proof fn lemma_fill_area_inv(w: World, area: Area, tile: Tile)
    requires
        w.inv(),
        tile.within(w.rules),
    ensures
        w.fill_area(area, tile).inv(),
{
    lemma_cells_are_finite(w.fill_area(area, tile).tiles.dom());
}

/// Generating terrain leaves the world sound.
pub proof fn lemma_generate_area_inv(w: World, area: Area)
    requires
        w.inv(),
    ensures
        w.generate_area(area).inv(),
{
    let after = w.generate_area(area);
    lemma_cells_are_finite(after.tiles.dom());
    assert forall|p: Position| after.tiles.contains_key(p) implies (#[trigger] after.tiles[p]).within(
        after.rules,
    ) by {
        lemma_generated_tile_is_within(w.rules, w.terrain_noise, w.mineral_noise, p);
        if w.tiles.contains_key(p) {
            assert(w.tiles[p].within(w.rules));
        }
    }
}

/// Moving the window leaves the world sound.
pub proof fn lemma_generate_inv(w: World)
    requires
        w.inv(),
    ensures
        w.generate().inv(),
        w.generate().next_id == w.next_id,
{
    let ahead = if w.generation_due() {
        let frontier = (w.generation_depth + w.rules.generation_depth_max) as i32;
        World { generation_depth: frontier, ..w.generate_area(w.get_area(w.generation_depth, frontier)) }
    } else {
        w
    };
    if w.generation_due() {
        let frontier = (w.generation_depth + w.rules.generation_depth_max) as i32;
        lemma_generate_area_inv(w, w.get_area(w.generation_depth, frontier));
    }
    assert(ahead.inv());
    lemma_remove_above_inv(ahead, ahead.kept_from());
}

/// A tick of the growing tip at place `i` leaves the world sound.
proof fn lemma_update_head_inv(w: World, i: int, velocity: Vec2)
    requires
        w.inv(),
        0 <= i < w.roots.len(),
        w.roots[i].1.root_type == (RootType::Head { velocity }),
        w.next_id + 2 <= usize::MAX,
    ensures
        w.update_head(i, velocity).inv(),
        w.roots.len() <= w.update_head(i, velocity).roots.len(),
        w.update_head(i, velocity).next_id <= w.next_id + 2,
{
    let (id, root) = w.roots[i];
    assert(link_ok(w.roots, w.next_id, w.roots[i]));
    assert(w.admits(root));
    let (steered, v) = w.steer(id, root, velocity);
    assert(steered.roots == w.roots && steered.next_id == w.next_id);
    assert(steered.inv());
    let turned = Root { root_type: RootType::Head { velocity: v }, ..root };
    assert(steered.admits(turned));
    let node = Root {
        position: turned.position,
        parent_root: turned.parent_root,
        root_type: RootType::Node,
    };
    if steered.split_due(id) {
        let target = steered.split_target();
        let rolled = World { dice: spec_roll(steered.dice), ..steered };
        assert(rolled.inv());
        assert(rolled.admits(node));
        lemma_new_root_inv(rolled, node);
        let with_node = rolled.new_root(node);
        let (grown, moved) = steered.split_root(turned, target);
        let added = grown.roots[grown.roots.len() - 1].1;
        assert(grown == with_node.new_root(added));
        assert(with_node.admits(added));
        lemma_new_root_inv(with_node, added);
        assert(with_node.admits(moved));
        assert(grown.admits(moved));
        assert(grown.roots[i] == w.roots[i]);
        let settled = Root { root_type: grown.settle(id, moved), ..moved };
        assert(grown.admits(settled));
        lemma_put_root_inv(grown, i, settled);
    } else {
        lemma_new_root_inv(steered, node);
        let (grown, moved) = steered.grow_root(turned, v);
        assert(grown == steered.new_root(node));
        assert(grown.admits(moved));
        assert(grown.roots[i] == w.roots[i]);
        let settled = Root { root_type: grown.settle(id, moved), ..moved };
        assert(grown.admits(settled));
        lemma_put_root_inv(grown, i, settled);
    }
}

/// A tick of the root at place `i` leaves the world sound, and takes at most
/// two identifiers.
pub proof fn lemma_update_root_inv(w: World, i: int)
    requires
        w.inv(),
        0 <= i < w.roots.len(),
        w.next_id + 2 <= usize::MAX,
    ensures
        w.update_root(i).inv(),
        w.roots.len() <= w.update_root(i).roots.len(),
        w.update_root(i).next_id <= w.next_id + 2,
{
    let root = w.roots[i].1;
    assert(link_ok(w.roots, w.next_id, w.roots[i]));
    assert(w.admits(root));
    match root.root_type {
        RootType::Head { velocity } => {
            lemma_update_head_inv(w, i, velocity);
        },
        RootType::Consumer { position } => {
            let budget = w.rules.mineral_consume_speed.times(w.fixed_delta_time);
            lemma_consume_inv(w, position, budget);
            let (drained, consumed) = w.consume(position, budget);
            let next = if consumed.raw == 0 {
                Root { root_type: RootType::Final, ..root }
            } else {
                root
            };
            assert(drained.admits(next));
            lemma_put_root_inv(drained, i, next);
        },
        _ => {},
    }
}

/// A tick of the first `n` roots leaves the world sound.
pub proof fn lemma_update_prefix_inv(w: World, n: int)
    requires
        w.inv(),
        0 <= n <= w.roots.len(),
        w.next_id + 2 * n <= usize::MAX,
    ensures
        w.update_prefix(n).inv(),
        w.roots.len() <= w.update_prefix(n).roots.len(),
        w.update_prefix(n).next_id <= w.next_id + 2 * n,
    decreases n,
{
    if n > 0 {
        lemma_update_prefix_inv(w, n - 1);
        lemma_update_root_inv(w.update_prefix(n - 1), n - 1);
    }
}

/// A step of the simulation leaves the world sound, as long as every root
/// can get the two identifiers that it may need.
pub proof fn lemma_tick_inv(w: World)
    requires
        w.inv(),
        w.has_room(),
    ensures
        w.tick().inv(),
{
    lemma_update_prefix_inv(w, w.roots.len() as int);
    assert(w.update_roots().inv());
    assert(w.grown().inv());
    lemma_generate_inv(w.grown());
}

/// Making the steps that are due leaves the world sound.
pub proof fn lemma_catch_up_inv(w: World)
    requires
        w.inv(),
    ensures
        w.catch_up().inv(),
    decreases w.delta_time.raw,
{
    if w.step_due() {
        lemma_tick_keeps_time(w.paid());
        lemma_tick_inv(w.paid());
        lemma_catch_up_inv(w.paid().tick());
    }
}

/// Time that passes leaves the world sound.
pub proof fn lemma_update_inv(w: World, delta_time: Fixed)
    requires
        w.inv(),
    ensures
        w.update(delta_time).inv(),
{
    lemma_catch_up_inv(World { delta_time: w.delta_time.plus(delta_time), ..w });
}

/// A message leaves the world sound.
pub proof fn lemma_message_inv(w: World, message: Message)
    requires
        w.inv(),
    ensures
        w.handle_message(message).inv(),
{
}

/// The world at the start of a session is sound.
pub proof fn lemma_initial_inv(rules: Rules, terrain_seed: u64, mineral_seed: u64)
    requires
        rules.wf(),
    ensures
        World::initial(rules, terrain_seed, mineral_seed).inv(),
{
    let blank = World::blank(rules, terrain_seed, mineral_seed);
    lemma_cells_are_finite(blank.tiles.dom());
    assert(blank.inv());
    lemma_new_root_inv(blank, World::genesis(rules));
    let seeded = blank.new_root(World::genesis(rules));
    lemma_fill_area_inv(seeded, seeded.get_area(0, 20), Tile::Dirt);
    lemma_generate_inv(seeded.fill_area(seeded.get_area(0, 20), Tile::Dirt));
}

} // verus!
