use vstd::prelude::*;
use crate::drain::{lemma_drain_ledger, no_debt, taken, Drain};
use crate::fixed::Fixed;
use crate::id::Id;
use crate::message::Message;
use crate::root::{has_id, index_of, lemma_kept_attractors, lemma_kept_roots, lookup, ordered, reaches, Root};
use crate::rules::Rules;
use crate::soundness::{lemma_initial_inv, lemma_message_inv, lemma_update_inv};
use crate::tile::{Area, Position, Tile};
use crate::vector::Vec2;
use crate::world::{
    assigned_in, closest_in, deepest_in, distance_sq, eligible, lemma_tick_keeps_time, link_ok,
    linked, World,
};
use crate::root::Attractor;

verus! {

/// A cell that holds a tile keeps it: neither writing to it on the
/// condition that it is empty nor generating terrain over it changes what it
/// holds, and the former changes nothing at all.
pub proof fn lemma_occupied_cells_stay(w: World, position: Position, tile: Tile, area: Area)
    requires
        w.tiles.contains_key(position),
    ensures
        w.try_set_tile(position, tile) == w,
        w.generate_area(area).tiles.contains_key(position),
        w.generate_area(area).tiles[position] == w.tiles[position],
{
}

/// In a sound world every deposit holds between nothing and the ceiling of the rules.
pub proof fn lemma_mineral_bounds(w: World, position: Position)
    requires
        w.inv(),
        w.tiles.contains_key(position),
        w.tiles[position] is Mineral,
    ensures
        0 <= w.tiles[position].amount() <= w.rules.mineral_richness.raw,
{
    assert(w.tiles[position].within(w.rules));
}

/// After the window has moved, nothing is left above the kept rows: no
/// tile, no root and no attractor.
pub proof fn lemma_window_is_clear(w: World)
    ensures
        w.generate().kept_from() == w.kept_from(),
        forall|p: Position| w.generate().tiles.contains_key(p) ==> p.y >= w.kept_from(),
        forall|i: int|
            0 <= i < w.generate().roots.len() ==> reaches(
                (#[trigger] w.generate().roots[i]).1.position.y,
                w.kept_from(),
            ),
        forall|i: int|
            0 <= i < w.generate().attractors.len() ==> reaches(
                (#[trigger] w.generate().attractors[i]).position.y,
                w.kept_from(),
            ),
{
    let ahead = if w.generation_due() {
        let frontier = (w.generation_depth + w.rules.generation_depth_max) as i32;
        World { generation_depth: frontier, ..w.generate_area(w.get_area(w.generation_depth, frontier)) }
    } else {
        w
    };
    let depth = w.kept_from();
    assert(ahead.kept_from() == depth);
    lemma_kept_roots(ahead.roots, depth);
    lemma_kept_attractors(ahead.attractors, depth);
    let after = w.generate();
    assert forall|i: int| 0 <= i < after.roots.len() implies reaches(
        (#[trigger] after.roots[i]).1.position.y,
        depth,
    ) by {
        assert(after.roots.contains(after.roots[i]));
    }
    assert forall|i: int| 0 <= i < after.attractors.len() implies reaches(
        (#[trigger] after.attractors[i]).position.y,
        depth,
    ) by {
        assert(after.attractors.contains(after.attractors[i]));
    }
}

/// After every step of the simulation nothing is left above the kept rows.
pub proof fn lemma_window_after_tick(w: World)
    ensures
        forall|p: Position| w.tick().tiles.contains_key(p) ==> p.y >= w.tick().kept_from(),
        forall|i: int|
            0 <= i < w.tick().roots.len() ==> reaches(
                (#[trigger] w.tick().roots[i]).1.position.y,
                w.tick().kept_from(),
            ),
{
    lemma_window_is_clear(w.grown());
}

/// Where the rows of one round of generation exist and one round is enough
/// to bring the frontier the least distance ahead of the deepest tip, the
/// frontier is that far ahead once the window has moved.
pub proof fn lemma_frontier_is_ahead(w: World)
    requires
        i32::MIN <= w.generation_depth + w.rules.generation_depth_max <= i32::MAX,
        w.generation_depth + w.rules.generation_depth_max - w.depth_row()
            >= w.rules.generation_depth_min,
    ensures
        w.generate().generation_depth - w.generate().depth_row() >= w.rules.generation_depth_min,
{
}

/// The root that is reached from `id` by following parent links `n` times,
/// stopping early at a root that is gone or has no parent.
pub open spec fn climb(roots: Seq<(Id, Root)>, id: Id, n: nat) -> Id
    decreases n,
{
    if n == 0 || ends(roots, id) {
        id
    } else {
        climb(roots, parent_of(roots, id), (n - 1) as nat)
    }
}

/// Whether the chain of parents ends at `id`: the root is gone from the
/// world, or it is the genesis root, which has no parent.
pub open spec fn ends(roots: Seq<(Id, Root)>, id: Id) -> bool {
    match lookup(roots, id) {
        Some(root) => root.parent_root is None,
        None => true,
    }
}

/// The parent's identifier of a root that is in the world and has a parent.
pub open spec fn parent_of(roots: Seq<(Id, Root)>, id: Id) -> Id {
    match lookup(roots, id) {
        Some(root) => match root.parent_root {
            Some(parent) => parent.0,
            None => id,
        },
        None => id,
    }
}

/// Whether the chain of parents that starts at `id` ends after finitely many steps.
pub open spec fn chain_ends(roots: Seq<(Id, Root)>, id: Id) -> bool {
    exists|n: nat| ends(roots, #[trigger] climb(roots, id, n))
}

/// From a node, at most as many steps as the node's identifier counts lead
/// to the end of its chain of parents.
proof fn lemma_node_chain_ends(roots: Seq<(Id, Root)>, next_id: nat, id: Id)
    requires
        ordered(roots),
        linked(roots, next_id),
        lookup(roots, id) is Some ==> lookup(roots, id)->0.root_type is Node,
    ensures
        ends(roots, climb(roots, id, id.0 as nat + 1)),
    decreases id.0,
{
    if !ends(roots, id) {
        let i = index_of(roots, id);
        assert(link_ok(roots, next_id, roots[i]));
        let parent = parent_of(roots, id);
        assert(parent.0 < id.0);
        if has_id(roots, parent) {
            let j = index_of(roots, parent);
            assert(roots[j].0 == parent);
        }
        lemma_node_chain_ends(roots, next_id, parent);
        lemma_climb_further(roots, parent, parent.0 as nat + 1, id.0 as nat);
    }
}

/// Once a chain has ended, following it further leads nowhere else.
proof fn lemma_climb_further(roots: Seq<(Id, Root)>, id: Id, n: nat, m: nat)
    requires
        ends(roots, climb(roots, id, n)),
        n <= m,
    ensures
        climb(roots, id, m) == climb(roots, id, n),
    decreases n,
{
    if n == 0 || ends(roots, id) {
    } else {
        lemma_climb_further(roots, parent_of(roots, id), (n - 1) as nat, (m - 1) as nat);
    }
}

/// In a sound world the chain of parents of every root ends after finitely
/// many steps, at the genesis root or at a root that is gone: no chain runs
/// in a circle.
pub proof fn lemma_parent_chain_ends(w: World, id: Id)
    requires
        w.inv(),
    ensures
        chain_ends(w.roots, id),
{
    if ends(w.roots, id) {
        assert(ends(w.roots, climb(w.roots, id, 0)));
    } else {
        let i = index_of(w.roots, id);
        assert(link_ok(w.roots, w.next_id, w.roots[i]));
        let parent = parent_of(w.roots, id);
        if has_id(w.roots, parent) {
            let j = index_of(w.roots, parent);
            assert(w.roots[j].0 == parent);
        }
        lemma_node_chain_ends(w.roots, w.next_id, parent);
        assert(climb(w.roots, id, parent.0 as nat + 2) == climb(
            w.roots,
            parent,
            parent.0 as nat + 1,
        ));
    }
}

/// The world after a sequence of messages, taken in order.
pub open spec fn after_messages(w: World, messages: Seq<Message>) -> World
    decreases messages.len(),
{
    if messages.len() == 0 {
        w
    } else {
        after_messages(w, messages.drop_last()).handle_message(messages.last())
    }
}

/// A message that the world does not take changes nothing, and one that it
/// takes leaves at least nothing in the pool.
pub proof fn lemma_message_keeps_pool(w: World, message: Message)
    requires
        w.minerals.raw >= 0,
    ensures
        w.handle_message(message).minerals.raw >= 0,
        !w.accepts(message) ==> w.handle_message(message) == w,
{
}

/// Whatever messages come, the pool never falls below nothing.
pub proof fn lemma_pool_never_negative(w: World, messages: Seq<Message>)
    requires
        w.minerals.raw >= 0,
    ensures
        after_messages(w, messages).minerals.raw >= 0,
    decreases messages.len(),
{
    if messages.len() > 0 {
        lemma_pool_never_negative(w, messages.drop_last());
        lemma_message_keeps_pool(after_messages(w, messages.drop_last()), messages.last());
    }
}

/// Draining conserves minerals. What is returned is never more than the
/// budget, and it is the sum of what the visited deposits lost: the flood
/// fill's log names each visited cell once with what was taken from it,
/// every other tile is as it was, and the pool gains what is returned.
pub proof fn lemma_consume_conserves(w: World, position: Position, limit: Fixed)
    requires
        w.inv(),
    ensures
        ({
            let end = Drain::start(w.tiles, w.changes.tiles, position, limit).run();
            let budget = limit.max(Fixed { raw: 0 });
            let (after, consumed) = w.consume(position, limit);
            &&& 0 <= consumed.raw <= budget.raw
            &&& consumed.raw == taken(end.log)
            &&& end.ledger(w.tiles, budget.raw as int)
            &&& after.tiles == end.tiles
            &&& after.minerals == w.minerals.plus(consumed)
        }),
{
    assert(no_debt(w.tiles)) by {
        assert forall|p: Position| w.tiles.contains_key(p) implies (#[trigger] w.tiles[p]).amount()
            >= 0 by {
            assert(w.tiles[p].within(w.rules));
        }
    }
    lemma_drain_ledger(w.tiles, w.changes.tiles, position, limit);
}

/// The tip that the search for the closest finds is the nearest of the
/// growing tips above the position, and the oldest of those that are as
/// near; it finds none only where no growing tip lies above the position.
pub proof fn lemma_closest_is_nearest(roots: Seq<(Id, Root)>, position: Vec2, n: int)
    requires
        0 <= n <= roots.len(),
    ensures
        match closest_in(roots, position, n) {
            Some(best) => {
                &&& 0 <= best < n
                &&& eligible(roots[best].1, position)
                &&& forall|j: int|
                    0 <= j < n && eligible((#[trigger] roots[j]).1, position) ==> {
                        &&& distance_sq(roots[best].1, position) <= distance_sq(roots[j].1, position)
                        &&& distance_sq(roots[best].1, position) == distance_sq(
                            roots[j].1,
                            position,
                        ) ==> best <= j
                    }
            },
            None => forall|j: int| 0 <= j < n ==> !eligible((#[trigger] roots[j]).1, position),
        },
    decreases n,
{
    if n > 0 {
        lemma_closest_is_nearest(roots, position, n - 1);
    }
}

/// The depth that the search for the deepest finds is that of a growing
/// tip, and no growing tip lies deeper; it finds none only where no tip grows.
pub proof fn lemma_deepest_is_max(roots: Seq<(Id, Root)>, n: int)
    requires
        0 <= n <= roots.len(),
    ensures
        match deepest_in(roots, n) {
            Some(depth) => {
                &&& exists|i: int|
                    0 <= i < n && (#[trigger] roots[i]).1.root_type is Head && roots[i].1.position.y
                        == depth
                &&& forall|j: int|
                    0 <= j < n && (#[trigger] roots[j]).1.root_type is Head
                        ==> roots[j].1.position.y.raw <= depth.raw
            },
            None => forall|j: int| 0 <= j < n ==> !((#[trigger] roots[j]).1.root_type is Head),
        },
    decreases n,
{
    if n > 0 {
        lemma_deepest_is_max(roots, n - 1);
        let before = deepest_in(roots, n - 1);
        let root = roots[n - 1].1;
        if root.root_type is Head && (before is None || root.position.y.raw > before->0.raw) {
            assert(roots[n - 1].1.position.y == deepest_in(roots, n)->0);
        } else if before is Some {
            let i = choose|i: int|
                0 <= i < n - 1 && (#[trigger] roots[i]).1.root_type is Head && roots[i].1.position.y
                    == before->0;
            assert(roots[i].1.root_type is Head);
        }
    }
}

/// The attractor that a tip looks at is the first one that is assigned to it.
pub proof fn lemma_assigned_is_first(attractors: Seq<Attractor>, id: Id, n: int)
    requires
        0 <= n <= attractors.len(),
    ensures
        match assigned_in(attractors, id, n) {
            Some(first) => {
                &&& 0 <= first < n
                &&& attractors[first].root == Some(id)
                &&& forall|j: int| 0 <= j < first ==> (#[trigger] attractors[j]).root != Some(id)
            },
            None => forall|j: int| 0 <= j < n ==> (#[trigger] attractors[j]).root != Some(id),
        },
    decreases n,
{
    if n > 0 {
        lemma_assigned_is_first(attractors, id, n - 1);
    }
}

/// Making the steps that are due leaves the rules as they are.
proof fn lemma_catch_up_keeps_rules(w: World)
    requires
        w.fixed_delta_time.raw > 0,
    ensures
        w.catch_up().rules == w.rules,
    decreases w.delta_time.raw,
{
    if w.step_due() {
        lemma_tick_keeps_time(w.paid());
        lemma_catch_up_keeps_rules(w.paid().tick());
    }
}

/// The rules of a session never change: not when time passes, and not when
/// a message comes.
pub proof fn lemma_rules_stay(w: World, delta_time: Fixed, message: Message)
    requires
        w.fixed_delta_time.raw > 0,
    ensures
        w.tick().rules == w.rules,
        w.update(delta_time).rules == w.rules,
        w.handle_message(message).rules == w.rules,
{
    lemma_tick_keeps_time(w);
    lemma_catch_up_keeps_rules(World { delta_time: w.delta_time.plus(delta_time), ..w });
}

/// After a step of the simulation the frontier is the least distance ahead
/// of the deepest tip, provided that the rows of one round of generation
/// exist and that one round is enough for where the tips have got to.
pub proof fn lemma_frontier_after_tick(w: World)
    requires
        i32::MIN <= w.grown().generation_depth + w.rules.generation_depth_max <= i32::MAX,
        w.grown().generation_depth + w.rules.generation_depth_max - w.grown().depth_row()
            >= w.rules.generation_depth_min,
    ensures
        w.tick().generation_depth - w.tick().depth_row() >= w.rules.generation_depth_min,
{
    lemma_tick_keeps_time(w);
    lemma_frontier_is_ahead(w.grown());
}

/// What can happen to a world from outside.
pub enum Input {
    /// Time passes.
    Time { delta_time: Fixed },
    /// The player asks for something.
    Message { message: Message },
}

/// The world after a sequence of inputs, taken in order.
pub open spec fn after_inputs(w: World, inputs: Seq<Input>) -> World
    decreases inputs.len(),
{
    if inputs.len() == 0 {
        w
    } else {
        let before = after_inputs(w, inputs.drop_last());
        match inputs.last() {
            Input::Time { delta_time } => before.update(delta_time),
            Input::Message { message } => before.handle_message(message),
        }
    }
}

/// A session is decided by its rules, its two seeds and its inputs: two
/// runs that share them end in the same world, and show the same view of
/// it, in full and in changes.
pub proof fn lemma_runs_agree(
    rules: Rules,
    terrain_seed: u64,
    mineral_seed: u64,
    inputs: Seq<Input>,
    first: World,
    second: World,
)
    requires
        first == after_inputs(World::initial(rules, terrain_seed, mineral_seed), inputs),
        second == after_inputs(World::initial(rules, terrain_seed, mineral_seed), inputs),
    ensures
        first == second,
        first.get_client_view() == second.get_client_view(),
        first.pending_view() == second.pending_view(),
{
}

/// Whatever the inputs, a sound world stays sound.
pub proof fn lemma_world_stays_sound(w: World, inputs: Seq<Input>)
    requires
        w.inv(),
    ensures
        after_inputs(w, inputs).inv(),
    decreases inputs.len(),
{
    if inputs.len() > 0 {
        lemma_world_stays_sound(w, inputs.drop_last());
        let before = after_inputs(w, inputs.drop_last());
        match inputs.last() {
            Input::Time { delta_time } => {
                lemma_update_inv(before, delta_time);
            },
            Input::Message { message } => {
                lemma_message_inv(before, message);
            },
        }
    }
}

/// At every moment of a session the world is sound: every deposit holds
/// between nothing and the ceiling, the pool holds at least nothing, no
/// identifier occurs twice, and every chain of parents ends.
pub proof fn lemma_session_is_sound(
    rules: Rules,
    terrain_seed: u64,
    mineral_seed: u64,
    inputs: Seq<Input>,
)
    requires
        rules.wf(),
    ensures
        ({
            let w = after_inputs(World::initial(rules, terrain_seed, mineral_seed), inputs);
            &&& w.inv()
            &&& w.minerals.raw >= 0
            &&& forall|p: Position|
                w.tiles.contains_key(p) && (#[trigger] w.tiles[p]) is Mineral ==> 0
                    <= w.tiles[p].amount() <= w.rules.mineral_richness.raw
            &&& forall|id: Id| #[trigger] chain_ends(w.roots, id)
        }),
{
    let first = World::initial(rules, terrain_seed, mineral_seed);
    lemma_initial_inv(rules, terrain_seed, mineral_seed);
    lemma_world_stays_sound(first, inputs);
    let w = after_inputs(first, inputs);
    assert forall|p: Position| w.tiles.contains_key(p) && (#[trigger] w.tiles[p]) is Mineral implies 0
        <= w.tiles[p].amount() <= w.rules.mineral_richness.raw by {
        lemma_mineral_bounds(w, p);
    }
    assert forall|id: Id| #[trigger] chain_ends(w.roots, id) by {
        lemma_parent_chain_ends(w, id);
    }
}

} // verus!
