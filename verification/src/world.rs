use vstd::prelude::*;
use crate::client_view::{Snapshot, ViewEvent};
use crate::drain::Drain;
use crate::fixed::{saturate32, Fixed};
use crate::id::Id;
use crate::message::Message;
use crate::dice::{spec_away_left, spec_away_right, spec_roll, spec_share_of};
use crate::noise::{spec_add_mod, spec_mix, MultiNoise, MultiNoiseProperties};
use crate::root::{kept_attractors, kept_roots, ordered, Attractor, Root, RootType};
use crate::rules::Rules;
use crate::tile::{spec_get_tile_pos, Area, Position, Tile};
use crate::vector::Vec2;

verus! {

/// The point at the corner of a cell.
pub open spec fn spec_cell_point(p: Position) -> Vec2 {
    Vec2 { x: Fixed::from_int(p.x), y: Fixed::from_int(p.y) }
}

/// The point at the corner of a cell.
#[verifier::when_used_as_spec(spec_cell_point)]
pub fn cell_point(p: Position) -> (r: Vec2)
    ensures
        r == spec_cell_point(p),
{
    Vec2 { x: Fixed::from_int(p.x), y: Fixed::from_int(p.y) }
}

/// The tile that two noise fields give to a cell under the rules.
#[verifier::opaque]
pub open spec fn generated_tile(
    rules: Rules,
    terrain_noise: MultiNoise,
    mineral_noise: MultiNoise,
    p: Position,
) -> Tile {
    rules.tile_from_noise_value(mineral_noise.get(cell_point(p)), terrain_noise.get(cell_point(p)))
}

/// Whether the cell lies in the area before the cell at column `x` of row
/// `y`, going row by row and along each row.
pub open spec fn swept(area: Area, y: int, x: int, p: Position) -> bool {
    area.contains(p) && (p.y < y || (p.y == y && p.x < x))
}

/// Whether a tip at `root` may steer towards, or split towards, `position`:
/// it grows and lies above the position.
pub open spec fn eligible(root: Root, position: Vec2) -> bool {
    root.root_type is Head && root.position.y.raw < position.y.raw
}

/// The squared distance between a root and a position.
pub open spec fn distance_sq(root: Root, position: Vec2) -> nat {
    root.position.minus(position).spec_len_sq()
}

/// The place of the eligible tip nearest to `position` among the first `n`
/// roots. Of two that are equally near, the earlier one is taken.
pub open spec fn closest_in(roots: Seq<(Id, Root)>, position: Vec2, n: int) -> Option<int>
    decreases n,
{
    if n <= 0 {
        None
    } else {
        let before = closest_in(roots, position, n - 1);
        let root = roots[n - 1].1;
        if eligible(root, position) && (before is None || distance_sq(root, position)
            < distance_sq(roots[before->0].1, position)) {
            Some(n - 1)
        } else {
            before
        }
    }
}

/// The identifier of the eligible tip nearest to `position`, where there is one.
pub open spec fn spec_closest_root_id(roots: Seq<(Id, Root)>, position: Vec2) -> Option<Id> {
    match closest_in(roots, position, roots.len() as int) {
        Some(i) => Some(roots[i].0),
        None => None,
    }
}

/// The place of the first attractor among the first `n` that is assigned to `id`.
pub open spec fn assigned_in(attractors: Seq<Attractor>, id: Id, n: int) -> Option<int>
    decreases n,
{
    if n <= 0 {
        None
    } else {
        match assigned_in(attractors, id, n - 1) {
            Some(i) => Some(i),
            None => if attractors[n - 1].root == Some(id) {
                Some(n - 1)
            } else {
                None
            },
        }
    }
}

/// The depth of the deepest growing tip among the first `n` roots.
pub open spec fn deepest_in(roots: Seq<(Id, Root)>, n: int) -> Option<Fixed>
    decreases n,
{
    if n <= 0 {
        None
    } else {
        let before = deepest_in(roots, n - 1);
        let root = roots[n - 1].1;
        if root.root_type is Head && (before is None || root.position.y.raw > before->0.raw) {
            Some(root.position.y)
        } else {
            before
        }
    }
}

/// Each attractor assigned anew: to the eligible tip nearest to it, or to none.
pub open spec fn reassigned(attractors: Seq<Attractor>, roots: Seq<(Id, Root)>) -> Seq<Attractor> {
    Seq::new(
        attractors.len(),
        |j: int|
            Attractor {
                position: attractors[j].position,
                root: spec_closest_root_id(roots, attractors[j].position),
            },
    )
}

/// Whether two points are at most `reach` apart.
pub open spec fn near(a: Vec2, b: Vec2, reach: Fixed) -> bool {
    reach.raw >= 0 && a.minus(b).spec_len_sq() <= reach.raw * reach.raw
}

/// Whether the entry `e` stops the tip `id`, which has moved to where `root`
/// stands: it is another root, not the tip's parent, and too near.
pub open spec fn blocks(e: (Id, Root), id: Id, root: Root, reach: Fixed) -> bool {
    &&& e.0 != id
    &&& !(root.parent_root matches Some(p) && p.0 == e.0)
    &&& near(e.1.position, root.position, reach)
}

/// Whether any root stops the tip.
pub open spec fn collides(roots: Seq<(Id, Root)>, id: Id, root: Root, reach: Fixed) -> bool {
    exists|i: int| 0 <= i < roots.len() && blocks(#[trigger] roots[i], id, root, reach)
}

/// Whether every root with the identifier `pid` is a node.
pub open spec fn parent_is_node(roots: Seq<(Id, Root)>, pid: Id) -> bool {
    forall|j: int| 0 <= j < roots.len() && (#[trigger] roots[j]).0 == pid ==> roots[j].1.root_type is Node
}

/// Whether the entry's identifier was handed out, and its parent link is
/// sound: the parent's identifier was handed out, the parent is a node as
/// long as it is in the world, and a node's parent is older than the node.
pub open spec fn link_ok(roots: Seq<(Id, Root)>, next_id: nat, e: (Id, Root)) -> bool {
    &&& e.0.0 < next_id
    &&& e.1.parent_root matches Some(p) ==> {
        &&& p.0.0 < next_id
        &&& parent_is_node(roots, p.0)
        &&& (e.1.root_type is Node ==> p.0.0 < e.0.0)
    }
}

/// Whether every entry's link is sound.
pub open spec fn linked(roots: Seq<(Id, Root)>, next_id: nat) -> bool {
    forall|i: int| 0 <= i < roots.len() ==> link_ok(roots, next_id, #[trigger] roots[i])
}

/// The layers of the terrain field.
pub open spec fn spec_terrain_properties() -> MultiNoiseProperties {
    MultiNoiseProperties {
        min_value: Fixed { raw: 0 },
        max_value: Fixed { raw: 1_000_000 },
        scale: Fixed { raw: 20_000_000 },
        octaves: 1,
        lacunarity: Fixed { raw: 1_000_000 },
        persistance: Fixed { raw: 1_000_000 },
    }
}

/// The layers of the mineral field, which is finer than the terrain.
pub open spec fn spec_mineral_properties() -> MultiNoiseProperties {
    MultiNoiseProperties {
        min_value: Fixed { raw: 0 },
        max_value: Fixed { raw: 1_000_000 },
        scale: Fixed { raw: 5_000_000 },
        octaves: 1,
        lacunarity: Fixed { raw: 1_000_000 },
        persistance: Fixed { raw: 1_000_000 },
    }
}

/// The layers of the terrain field.
#[verifier::when_used_as_spec(spec_terrain_properties)]
pub fn terrain_properties() -> (r: MultiNoiseProperties)
    ensures
        r == spec_terrain_properties(),
{
    MultiNoiseProperties {
        min_value: Fixed { raw: 0 },
        max_value: Fixed { raw: 1_000_000 },
        scale: Fixed { raw: 20_000_000 },
        octaves: 1,
        lacunarity: Fixed { raw: 1_000_000 },
        persistance: Fixed { raw: 1_000_000 },
    }
}

/// The layers of the mineral field, which is finer than the terrain.
#[verifier::when_used_as_spec(spec_mineral_properties)]
pub fn mineral_properties() -> (r: MultiNoiseProperties)
    ensures
        r == spec_mineral_properties(),
{
    MultiNoiseProperties {
        min_value: Fixed { raw: 0 },
        max_value: Fixed { raw: 1_000_000 },
        scale: Fixed { raw: 5_000_000 },
        octaves: 1,
        lacunarity: Fixed { raw: 1_000_000 },
        persistance: Fixed { raw: 1_000_000 },
    }
}

/// The whole state of the simulation, as plain mathematics.
pub struct World {
    pub tiles: Map<Position, Tile>,
    /// The roots in the order of their identifiers.
    pub roots: Seq<(Id, Root)>,
    pub attractors: Seq<Attractor>,
    /// The time that has passed and was not yet simulated.
    pub delta_time: Fixed,
    /// The length of a tick.
    pub fixed_delta_time: Fixed,
    pub rules: Rules,
    pub terrain_noise: MultiNoise,
    pub mineral_noise: MultiNoise,
    /// The number of identifiers that were handed out.
    pub next_id: nat,
    /// The balance of the mineral pool.
    pub minerals: Fixed,
    /// The split that waits for the next tick: the tip and the target.
    pub split_root: Option<(Id, Vec2)>,
    /// The changes since the record was last handed out.
    pub changes: Snapshot,
    pub current_depth: Fixed,
    /// The first row that was not generated yet.
    pub generation_depth: i32,
    /// The state of the dice that pick the direction of a branch.
    pub dice: u64,
}

impl World {
    /// What holds of the world at all times.
    pub open spec fn inv(self) -> bool {
        &&& self.rules.wf()
        &&& self.fixed_delta_time.raw > 0
        &&& self.minerals.raw >= 0
        &&& self.next_id <= usize::MAX
        &&& ordered(self.roots)
        &&& linked(self.roots, self.next_id)
        &&& self.tiles.dom().finite()
        &&& forall|p: Position|
            self.tiles.contains_key(p) ==> (#[trigger] self.tiles[p]).within(self.rules)
    }

    /// Whether a tick may run: each root that is there can still get the two
    /// identifiers that it may need.
    pub open spec fn has_room(self) -> bool {
        self.next_id + 2 * self.roots.len() <= usize::MAX
    }

    /// Whether a root with this parent link may join the world.
    pub open spec fn admits(self, root: Root) -> bool {
        root.parent_root matches Some(p) ==> p.0.0 < self.next_id && parent_is_node(self.roots, p.0)
    }

    // ----- tiles -----

    /// The cell holds the tile, whatever it held, and the change is recorded.
    pub open spec fn set_tile(self, position: Position, tile: Tile) -> World {
        World {
            tiles: self.tiles.insert(position, tile),
            changes: Snapshot {
                tiles: self.changes.tiles.insert(position, ViewEvent::Changed(tile)),
                ..self.changes
            },
            ..self
        }
    }

    /// An empty cell gets the tile; a cell that holds one keeps it, and
    /// nothing is recorded.
    pub open spec fn try_set_tile(self, position: Position, tile: Tile) -> World {
        if self.tiles.contains_key(position) {
            self
        } else {
            self.set_tile(position, tile)
        }
    }

    /// The rectangle between two rows, across the whole chamber.
    pub open spec fn get_area(self, depth_start: i32, depth_end: i32) -> Area {
        Area::from_corners(
            Position { x: (-self.rules.half_width()) as i32, y: depth_start },
            Position { x: self.rules.half_width(), y: depth_end },
        )
    }

    /// Every cell of the area holds the tile, and each of these changes is
    /// recorded; all other cells are as before.
    pub open spec fn fill_area(self, area: Area, tile: Tile) -> World {
        World {
            tiles: Map::new(
                |p: Position| area.contains(p) || self.tiles.contains_key(p),
                |p: Position|
                    if area.contains(p) {
                        tile
                    } else {
                        self.tiles[p]
                    },
            ),
            changes: Snapshot {
                tiles: Map::new(
                    |p: Position| area.contains(p) || self.changes.tiles.contains_key(p),
                    |p: Position|
                        if area.contains(p) {
                            ViewEvent::Changed(tile)
                        } else {
                            self.changes.tiles[p]
                        },
                ),
                ..self.changes
            },
            ..self
        }
    }

    /// The tile that the world's noise fields give to a cell.
    pub open spec fn tile_at(self, p: Position) -> Tile {
        generated_tile(self.rules, self.terrain_noise, self.mineral_noise, p)
    }

    /// Whether generating `area` writes the cell: it lies in the area and is empty.
    pub open spec fn generates(self, area: Area, p: Position) -> bool {
        area.contains(p) && !self.tiles.contains_key(p)
    }

    /// Every empty cell of the area gets the tile that the noise fields make
    /// for it, and each of these changes is recorded; cells that hold a tile
    /// keep it.
    pub open spec fn generate_area(self, area: Area) -> World {
        World {
            tiles: Map::new(
                |p: Position| area.contains(p) || self.tiles.contains_key(p),
                |p: Position|
                    if self.tiles.contains_key(p) {
                        self.tiles[p]
                    } else {
                        self.tile_at(p)
                    },
            ),
            changes: Snapshot {
                tiles: Map::new(
                    |p: Position| self.generates(area, p) || self.changes.tiles.contains_key(p),
                    |p: Position|
                        if self.generates(area, p) {
                            ViewEvent::Changed(self.tile_at(p))
                        } else {
                            self.changes.tiles[p]
                        },
                ),
                ..self.changes
            },
            ..self
        }
    }

    /// The world while `fill_area` is at work: the cells of the area before
    /// the cell at column `x` of row `y` are written.
    pub open spec fn fill_swept(self, area: Area, tile: Tile, y: int, x: int) -> World {
        World {
            tiles: Map::new(
                |p: Position| swept(area, y, x, p) || self.tiles.contains_key(p),
                |p: Position|
                    if swept(area, y, x, p) {
                        tile
                    } else {
                        self.tiles[p]
                    },
            ),
            changes: Snapshot {
                tiles: Map::new(
                    |p: Position| swept(area, y, x, p) || self.changes.tiles.contains_key(p),
                    |p: Position|
                        if swept(area, y, x, p) {
                            ViewEvent::Changed(tile)
                        } else {
                            self.changes.tiles[p]
                        },
                ),
                ..self.changes
            },
            ..self
        }
    }

    /// The world while `generate_area` is at work: the cells of the area
    /// before the cell at column `x` of row `y` are done.
    pub open spec fn generate_swept(self, area: Area, y: int, x: int) -> World {
        World {
            tiles: Map::new(
                |p: Position| swept(area, y, x, p) || self.tiles.contains_key(p),
                |p: Position|
                    if self.tiles.contains_key(p) {
                        self.tiles[p]
                    } else {
                        self.tile_at(p)
                    },
            ),
            changes: Snapshot {
                tiles: Map::new(
                    |p: Position|
                        (swept(area, y, x, p) && !self.tiles.contains_key(p))
                            || self.changes.tiles.contains_key(p),
                    |p: Position|
                        if swept(area, y, x, p) && !self.tiles.contains_key(p) {
                            ViewEvent::Changed(self.tile_at(p))
                        } else {
                            self.changes.tiles[p]
                        },
                ),
                ..self.changes
            },
            ..self
        }
    }

    /// Only what lies at or below the row `depth` is left: tiles, roots and
    /// attractors. Nothing of this is recorded as a change.
    pub open spec fn remove_above(self, depth: i32) -> World {
        World {
            tiles: Map::new(
                |p: Position| self.tiles.contains_key(p) && p.y >= depth,
                |p: Position| self.tiles[p],
            ),
            roots: kept_roots(self.roots, depth),
            attractors: kept_attractors(self.attractors, depth),
            ..self
        }
    }

    // ----- roots -----

    /// The identifier that the next new root gets.
    pub open spec fn fresh_id(self) -> Id {
        Id(self.next_id as usize)
    }

    /// The root joins the world under the next identifier, and the change is
    /// recorded.
    pub open spec fn new_root(self, root: Root) -> World {
        World {
            roots: self.roots.push((self.fresh_id(), root)),
            next_id: self.next_id + 1,
            changes: Snapshot {
                roots: self.changes.roots.insert(self.fresh_id(), ViewEvent::Changed(root)),
                ..self.changes
            },
            ..self
        }
    }

    /// Replaces the root at place `i` and records the change.
    pub open spec fn put_root(self, i: int, root: Root) -> World {
        World {
            roots: self.roots.update(i, (self.roots[i].0, root)),
            changes: Snapshot {
                roots: self.changes.roots.insert(self.roots[i].0, ViewEvent::Changed(root)),
                ..self.changes
            },
            ..self
        }
    }

    /// The tip moves on by `velocity` for one tick and leaves a node where it was.
    pub open spec fn grow_root(self, root: Root, velocity: Vec2) -> (World, Root) {
        (
            self.new_root(
                Root {
                    position: root.position,
                    parent_root: root.parent_root,
                    root_type: RootType::Node,
                },
            ),
            Root {
                position: root.position.plus(velocity.scale(self.fixed_delta_time)),
                parent_root: Some((self.fresh_id(), root.position)),
                root_type: root.root_type,
            },
        )
    }

    /// The direction of the branch on the left and of the branch on the right:
    /// the one on the target's side points at the target, the other is drawn
    /// from the sector on the other side.
    pub open spec fn branch_dirs(self, root: Root, target: Vec2) -> (Vec2, Vec2) {
        let share = spec_share_of(spec_roll(self.dice));
        let toward = target.minus(root.position).normalize();
        if target.x.raw > root.position.x.raw {
            (spec_away_left(share), toward)
        } else {
            (toward, spec_away_right(share))
        }
    }

    /// The tip splits: a node stays where it was, a new tip starts on the left
    /// branch, and the tip itself goes on as the right branch.
    pub open spec fn split_root(self, root: Root, target: Vec2) -> (World, Root) {
        let (left, right) = self.branch_dirs(root, target);
        let node = self.fresh_id();
        let with_node = World { dice: spec_roll(self.dice), ..self }.new_root(
            Root {
                position: root.position,
                parent_root: root.parent_root,
                root_type: RootType::Node,
            },
        );
        (
            with_node.new_root(
                Root {
                    position: root.position.plus(left.scale(self.fixed_delta_time)),
                    parent_root: Some((node, root.position)),
                    root_type: RootType::Head { velocity: left.scale(self.rules.root_growth_speed) },
                },
            ),
            Root {
                position: root.position.plus(right.scale(self.fixed_delta_time)),
                parent_root: Some((node, root.position)),
                root_type: RootType::Head { velocity: right.scale(self.rules.root_growth_speed) },
            },
        )
    }

    /// The velocity after the pull of the attractor at `target` for one tick.
    pub open spec fn pulled(self, root: Root, velocity: Vec2, target: Vec2) -> Vec2 {
        velocity.plus(
            target.minus(root.position).normalize().shrink(self.rules.root_inertia).scale(
                self.fixed_delta_time,
            ),
        ).clamp_len(self.rules.root_growth_speed)
    }

    /// The tip `id` looks at its attractor: one that lies deeper pulls the
    /// tip, one that the tip has reached or passed is removed.
    pub open spec fn steer(self, id: Id, root: Root, velocity: Vec2) -> (World, Vec2) {
        match assigned_in(self.attractors, id, self.attractors.len() as int) {
            Some(i) => if self.attractors[i].position.y.raw > root.position.y.raw {
                (self, self.pulled(root, velocity, self.attractors[i].position))
            } else {
                (World { attractors: self.attractors.remove(i), ..self }, velocity)
            },
            None => (self, velocity),
        }
    }

    /// How near another root stops a tip: half of what a tip can grow in a tick.
    pub open spec fn reach(self) -> Fixed {
        self.fixed_delta_time.times(self.rules.root_growth_speed).half()
    }

    /// Whether the root has left the chamber sideways.
    pub open spec fn outside(self, root: Root) -> bool {
        root.position.x.abs().raw > self.rules.chamber_width * 1_000_000
    }

    /// What the tip `id` is after it has moved to where `root` stands: stopped
    /// by another root, by the chamber's wall or by stone, draining a deposit,
    /// or growing on.
    pub open spec fn settle(self, id: Id, root: Root) -> RootType {
        let cell = spec_get_tile_pos(root.position);
        if collides(self.roots, id, root, self.reach()) {
            RootType::Final
        } else if self.outside(root) {
            RootType::Final
        } else if self.tiles.contains_key(cell) && self.tiles[cell] is Stone {
            RootType::Final
        } else if self.tiles.contains_key(cell) && self.tiles[cell] is Mineral {
            RootType::Consumer { position: cell }
        } else {
            root.root_type
        }
    }

    /// The world after the flood fill from `position` under the budget
    /// `limit`, and what was drained.
    pub open spec fn consume(self, position: Position, limit: Fixed) -> (World, Fixed) {
        let end = Drain::start(self.tiles, self.changes.tiles, position, limit).run();
        (
            World {
                tiles: end.tiles,
                minerals: self.minerals.plus(end.consumed),
                changes: Snapshot { tiles: end.changes, ..self.changes },
                ..self
            },
            end.consumed,
        )
    }

    /// Whether a split waits for the tip `id`.
    pub open spec fn split_due(self, id: Id) -> bool {
        self.split_root matches Some(request) && request.0 == id
    }

    /// The target of the waiting split.
    pub open spec fn split_target(self) -> Vec2 {
        match self.split_root {
            Some(request) => request.1,
            None => Vec2::zero(),
        }
    }

    /// One tick of the growing tip at place `i`: it steers, then splits where
    /// a split waits for it and else grows on, and then settles.
    pub open spec fn update_head(self, i: int, velocity: Vec2) -> World {
        let (id, root) = self.roots[i];
        let (steered, v) = self.steer(id, root, velocity);
        let turned = Root { root_type: RootType::Head { velocity: v }, ..root };
        let (grown, moved) = if steered.split_due(id) {
            steered.split_root(turned, steered.split_target())
        } else {
            steered.grow_root(turned, v)
        };
        grown.put_root(i, Root { root_type: grown.settle(id, moved), ..moved })
    }

    /// One tick of the draining tip at place `i`.
    pub open spec fn update_consumer(self, i: int, position: Position) -> World {
        let root = self.roots[i].1;
        let (drained, consumed) = self.consume(
            position,
            self.rules.mineral_consume_speed.times(self.fixed_delta_time),
        );
        drained.put_root(
            i,
            if consumed.raw == 0 {
                Root { root_type: RootType::Final, ..root }
            } else {
                root
            },
        )
    }

    /// One tick of the root at place `i`. Nodes and stopped tips stay as they are.
    pub open spec fn update_root(self, i: int) -> World {
        match self.roots[i].1.root_type {
            RootType::Head { velocity } => self.update_head(i, velocity),
            RootType::Consumer { position } => self.update_consumer(i, position),
            _ => self,
        }
    }

    /// One tick of the roots at the first `n` places, in their order.
    pub open spec fn update_prefix(self, n: int) -> World
        decreases n,
    {
        if n <= 0 {
            self
        } else {
            self.update_prefix(n - 1).update_root(n - 1)
        }
    }

    /// One tick of every root that is there when the tick starts; then every
    /// attractor is assigned anew and the waiting split is cleared.
    pub open spec fn update_roots(self) -> World {
        let moved = self.update_prefix(self.roots.len() as int);
        World {
            attractors: reassigned(moved.attractors, moved.roots),
            split_root: None,
            ..moved
        }
    }

    /// An attractor stands at `position`, assigned to the eligible tip nearest
    /// to it or to none, and the change is recorded.
    pub open spec fn spawn_attractor(self, position: Vec2) -> World {
        let attractor = Attractor { position, root: spec_closest_root_id(self.roots, position) };
        World {
            attractors: self.attractors.push(attractor),
            changes: Snapshot {
                attractors: self.changes.attractors.push(ViewEvent::Changed(attractor)),
                ..self.changes
            },
            ..self
        }
    }

    /// Asks the eligible tip nearest to `position` to split at the next tick.
    /// Without such a tip nothing changes.
    pub open spec fn split_towards(self, position: Vec2) -> World {
        match spec_closest_root_id(self.roots, position) {
            Some(id) => World { split_root: Some((id, position)), ..self },
            None => self,
        }
    }

    // ----- the window -----

    /// The row of the deepest growing tip.
    pub open spec fn depth_row(self) -> i32 {
        self.current_depth.floor()
    }

    /// Whether a round of generation is due and its rows exist.
    pub open spec fn generation_due(self) -> bool {
        &&& self.generation_depth - self.depth_row() < self.rules.generation_depth_min
        &&& i32::MIN <= self.generation_depth + self.rules.generation_depth_max <= i32::MAX
    }

    /// The first row that is kept.
    pub open spec fn kept_from(self) -> i32 {
        saturate32(self.depth_row() - self.rules.deletion_depth) as i32
    }

    /// Moves the window: where the frontier is too near, the next rows are
    /// generated; then all above the kept rows is dropped.
    pub open spec fn generate(self) -> World {
        let ahead = if self.generation_due() {
            let frontier = (self.generation_depth + self.rules.generation_depth_max) as i32;
            World {
                generation_depth: frontier,
                ..self.generate_area(self.get_area(self.generation_depth, frontier))
            }
        } else {
            self
        };
        ahead.remove_above(ahead.kept_from())
    }

    /// The roots make their tick, and the depth is taken from the deepest
    /// growing tip. Where no tip grows, the depth stays.
    pub open spec fn grown(self) -> World {
        let moved = self.update_roots();
        let depth = match deepest_in(moved.roots, moved.roots.len() as int) {
            Some(d) => d,
            None => moved.current_depth,
        };
        World {
            current_depth: depth,
            changes: Snapshot { current_depth: depth, minerals: moved.minerals, ..moved.changes },
            ..moved
        }
    }

    /// One step of the simulation: the roots grow, then the window moves.
    pub open spec fn tick(self) -> World {
        self.grown().generate()
    }

    /// Whether a step is due: a tick's worth of time has gathered, and every
    /// root can still get the identifiers that it may need.
    pub open spec fn step_due(self) -> bool {
        self.delta_time.raw >= self.fixed_delta_time.raw && self.has_room()
    }

    /// The world with a tick's length taken off the time that has gathered.
    pub open spec fn paid(self) -> World {
        World { delta_time: self.delta_time.minus(self.fixed_delta_time), ..self }
    }

    /// The steps that are due are made, one after the other: for each, a
    /// tick's length is taken off the time that has gathered. What is left
    /// is less than a tick, unless the identifiers have run out.
    pub open spec fn catch_up(self) -> World
        decreases self.delta_time.raw,
        when self.fixed_delta_time.raw > 0
    {
        if self.step_due() {
            proof {
                lemma_tick_keeps_time(self.paid());
            }
            self.paid().tick().catch_up()
        } else {
            self
        }
    }

    /// Time passes: it is added to the time that has gathered, and the steps
    /// that are due are made.
    pub open spec fn update(self, delta_time: Fixed) -> World {
        World { delta_time: self.delta_time.plus(delta_time), ..self }.catch_up()
    }

    // ----- the pool and the messages -----

    /// Whether the pool holds at least `cost`.
    pub open spec fn can_spend(self, cost: Fixed) -> bool {
        self.minerals.raw >= cost.raw
    }

    /// The pool gives `cost` if it holds that much, and else stays as it is.
    pub open spec fn try_spend(self, cost: Fixed) -> World {
        if self.can_spend(cost) {
            World { minerals: self.minerals.minus(cost), ..self }
        } else {
            self
        }
    }

    /// Whether the world takes the message: the price can be paid, and for a
    /// split there is a tip to split.
    pub open spec fn accepts(self, message: Message) -> bool {
        match message {
            Message::SpawnAttractor { pos } => self.can_spend(self.rules.attractor_cost),
            Message::SplitRoot { pos } => self.can_spend(self.rules.split_cost)
                && spec_closest_root_id(self.roots, pos) is Some,
        }
    }

    /// A message that is not taken changes nothing.
    pub open spec fn handle_message(self, message: Message) -> World {
        if self.accepts(message) {
            match message {
                Message::SpawnAttractor { pos } => self.try_spend(
                    self.rules.attractor_cost,
                ).spawn_attractor(pos),
                Message::SplitRoot { pos } => self.split_towards(pos).try_spend(
                    self.rules.split_cost,
                ),
            }
        } else {
            self
        }
    }

    // ----- the views -----

    /// The whole world as a view.
    pub open spec fn get_client_view(self) -> Snapshot {
        Snapshot {
            rules: self.rules,
            current_depth: self.current_depth,
            minerals: self.minerals,
            tiles: Map::new(
                |p: Position| self.tiles.contains_key(p),
                |p: Position| ViewEvent::Changed(self.tiles[p]),
            ),
            roots: Map::new(
                |id: Id| crate::root::has_id(self.roots, id),
                |id: Id| ViewEvent::Changed(self.roots[crate::root::index_of(self.roots, id)].1),
            ),
            attractors: Seq::new(
                self.attractors.len(),
                |j: int| ViewEvent::Changed(self.attractors[j]),
            ),
        }
    }

    /// The changes since the last time as a view.
    pub open spec fn pending_view(self) -> Snapshot {
        Snapshot {
            rules: self.rules,
            current_depth: self.current_depth,
            minerals: self.minerals,
            tiles: self.changes.tiles,
            roots: self.changes.roots,
            attractors: self.changes.attractors,
        }
    }

    /// The world once the changes were handed out: the record is empty.
    pub open spec fn get_client_view_update(self) -> World {
        World {
            changes: Snapshot {
                tiles: Map::empty(),
                roots: Map::empty(),
                attractors: Seq::empty(),
                ..self.changes
            },
            ..self
        }
    }

    // ----- the start -----

    /// The world with nothing in it.
    pub open spec fn blank(rules: Rules, terrain_seed: u64, mineral_seed: u64) -> World {
        World {
            tiles: Map::empty(),
            roots: Seq::empty(),
            attractors: Seq::empty(),
            delta_time: Fixed { raw: 0 },
            fixed_delta_time: Fixed { raw: 50_000 },
            rules,
            terrain_noise: MultiNoise { seed: terrain_seed, properties: spec_terrain_properties() },
            mineral_noise: MultiNoise { seed: mineral_seed, properties: spec_mineral_properties() },
            next_id: 0,
            minerals: Fixed { raw: 10_000_000 },
            split_root: None,
            changes: Snapshot::empty(rules),
            current_depth: Fixed { raw: 0 },
            generation_depth: 0,
            dice: spec_mix(spec_add_mod(spec_mix(terrain_seed), mineral_seed)),
        }
    }

    /// The first root: a tip at the origin that grows straight down.
    pub open spec fn genesis(rules: Rules) -> Root {
        Root {
            position: Vec2::zero(),
            parent_root: None,
            root_type: RootType::Head {
                velocity: Vec2 { x: Fixed { raw: 0 }, y: rules.root_growth_speed },
            },
        }
    }

    /// The empty world `self` is filled for a session: the first root,
    /// twenty rows of dirt, and what the first round of generation adds.
    pub open spec fn started(self) -> World {
        let seeded = self.new_root(World::genesis(self.rules));
        seeded.fill_area(seeded.get_area(0, 20), Tile::Dirt).generate()
    }

    /// The world at the start of a session.
    pub open spec fn initial(rules: Rules, terrain_seed: u64, mineral_seed: u64) -> World {
        World::blank(rules, terrain_seed, mineral_seed).started()
    }

    /// The world started anew with other seeds. The rules stay, and so does
    /// the time that has passed and was not yet simulated.
    pub open spec fn reset(self, terrain_seed: u64, mineral_seed: u64) -> World {
        World {
            delta_time: self.delta_time,
            ..World::blank(self.rules, terrain_seed, mineral_seed)
        }.started()
    }
}

/// A tick of one root leaves the rules, the clock and the noise fields as they are.
pub proof fn lemma_update_root_keeps_time(w: World, i: int)
    ensures
        w.update_root(i).rules == w.rules,
        w.update_root(i).delta_time == w.delta_time,
        w.update_root(i).fixed_delta_time == w.fixed_delta_time,
        w.update_root(i).terrain_noise == w.terrain_noise,
        w.update_root(i).mineral_noise == w.mineral_noise,
{
}

/// A tick of the first roots leaves the rules, the clock and the noise fields as they are.
pub proof fn lemma_update_prefix_keeps_time(w: World, n: int)
    ensures
        w.update_prefix(n).rules == w.rules,
        w.update_prefix(n).delta_time == w.delta_time,
        w.update_prefix(n).fixed_delta_time == w.fixed_delta_time,
        w.update_prefix(n).terrain_noise == w.terrain_noise,
        w.update_prefix(n).mineral_noise == w.mineral_noise,
    decreases n,
{
    if n > 0 {
        lemma_update_prefix_keeps_time(w, n - 1);
        lemma_update_root_keeps_time(w.update_prefix(n - 1), n - 1);
    }
}

/// A step of the simulation leaves the rules, the clock and the noise fields
/// as they are.
pub proof fn lemma_tick_keeps_time(w: World)
    ensures
        w.grown().rules == w.rules,
        w.tick().rules == w.rules,
        w.tick().delta_time == w.delta_time,
        w.tick().fixed_delta_time == w.fixed_delta_time,
        w.tick().terrain_noise == w.terrain_noise,
        w.tick().mineral_noise == w.mineral_noise,
{
    lemma_update_prefix_keeps_time(w, w.roots.len() as int);
}

} // verus!
