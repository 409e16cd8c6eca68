use geng::prelude::{global_rng, Rng};
use vstd::prelude::*;
use crate::client_view::ClientView;
use crate::fixed::Fixed;
use crate::grid::Grid;
use crate::id::{Id, IdGenerator};
use crate::message::Message;
use crate::noise::{add_mod, mix, MultiNoise};
use crate::root::{Root, RootType, TreeRoots};
use crate::rules::Rules;
use crate::tile::{Position, Tile};
use crate::vector::Vec2;
use crate::world::{
    deepest_in, lemma_tick_keeps_time, mineral_properties, terrain_properties, World,
};

verus! {

/// A seed that differs from run to run. It is drawn by `Rng::gen` from the
/// generator that `global_rng` of geng's prelude hands out; nothing is
/// promised of it.
#[verifier::external_body]
fn random_seed() -> (seed: u64) {
    global_rng().gen()
}

/// An event of geng's window: a key, a mouse button, a touch. The model
/// takes such events and looks at nothing in them.
#[verifier::external_type_specification]
#[verifier::external_body]
pub struct ExEvent(geng::Event);

/// The simulation: an endlessly deepening underground world and the root
/// tree that grows through it.
pub struct Model {
    /// The tiles of the window, by cell.
    pub tiles: Grid<Tile>,
    /// The roots and the attractors.
    pub tree_roots: TreeRoots,
    /// The time that has passed and was not yet simulated.
    pub delta_time: Fixed,
    /// The length of a tick.
    pub fixed_delta_time: Fixed,
    /// The constants of the session.
    pub rules: Rules,
    /// The noise field that decides between stone and dirt.
    pub terrain_noise: MultiNoise,
    /// The noise field that places the deposits.
    pub mineral_noise: MultiNoise,
    /// The source of the roots' identifiers.
    pub id_generator: IdGenerator,
    /// The balance of the mineral pool.
    pub minerals: Fixed,
    /// The split that waits for the next tick: the tip and the target.
    pub split_root: Option<(Id, Vec2)>,
    /// The changes since they were last handed out.
    pub client_view_update: ClientView,
    /// The depth of the deepest growing tip.
    pub current_depth: Fixed,
    /// The first row that was not generated yet.
    pub generation_depth: i32,
    /// The state of the dice that pick the direction of a branch.
    pub dice: u64,
}

impl View for Model {
    type V = World;

    open spec fn view(&self) -> World {
        World {
            tiles: self.tiles@,
            roots: self.tree_roots.roots@,
            attractors: self.tree_roots.attractors@,
            delta_time: self.delta_time,
            fixed_delta_time: self.fixed_delta_time,
            rules: self.rules,
            terrain_noise: self.terrain_noise,
            mineral_noise: self.mineral_noise,
            next_id: self.id_generator.issued(),
            minerals: self.minerals,
            split_root: self.split_root,
            changes: self.client_view_update@,
            current_depth: self.current_depth,
            generation_depth: self.generation_depth,
            dice: self.dice,
        }
    }
}

impl Model {
    /// What holds of the model between any two calls.
    pub open spec fn inv(&self) -> bool {
        self@.inv()
    }

    /// The tile of a cell, where the cell has one.
    pub fn tile(&self, position: Position) -> (r: Option<Tile>)
        ensures
            r == (if self@.tiles.contains_key(position) {
                Some(self@.tiles[position])
            } else {
                None
            }),
    {
        match self.tiles.get(position) {
            Some(tile) => Some(*tile),
            None => None,
        }
    }

    /// The root with this identifier, where it is in the world. An
    /// identifier of a root that is gone gives none.
    pub fn root(&self, id: Id) -> (r: Option<Root>)
        requires
            self.inv(),
        ensures
            r == crate::root::lookup(self@.roots, id),
    {
        self.tree_roots.roots.get(id)
    }

    /// The balance of the mineral pool.
    pub fn minerals(&self) -> (r: Fixed)
        ensures
            r == self@.minerals,
    {
        self.minerals
    }

    /// The depth of the deepest growing tip.
    pub fn current_depth(&self) -> (r: Fixed)
        ensures
            r == self@.current_depth,
    {
        self.current_depth
    }

    /// The first row that was not generated yet.
    pub fn generation_depth(&self) -> (r: i32)
        ensures
            r == self@.generation_depth,
    {
        self.generation_depth
    }

    /// The length of a tick.
    pub fn fixed_delta_time(&self) -> (r: Fixed)
        ensures
            r == self@.fixed_delta_time,
    {
        self.fixed_delta_time
    }

    /// The rules of the session.
    pub fn rules(&self) -> (r: Rules)
        ensures
            r == self@.rules,
    {
        self.rules
    }

    /// A world at the start of a session, with seeds that differ from run
    /// to run. It is a world that `with_seeds` makes, for some pair of seeds.
    pub fn new(rules: Rules) -> (model: Model)
        requires
            rules.wf(),
        ensures
            exists|terrain_seed: u64, mineral_seed: u64|
                model@ == World::initial(rules, terrain_seed, mineral_seed),
            model.inv(),
    {
        let terrain_seed = random_seed();
        let mineral_seed = random_seed();
        Model::with_seeds(rules, terrain_seed, mineral_seed)
    }

    /// A world at the start of a session: a single growing tip at the
    /// origin, twenty rows of dirt, and below them what the two noise fields
    /// make. The same rules and seeds give the same world.
    pub fn with_seeds(rules: Rules, terrain_seed: u64, mineral_seed: u64) -> (model: Model)
        requires
            rules.wf(),
        ensures
            model@ == World::initial(rules, terrain_seed, mineral_seed),
            model.inv(),
    {
        let mut model = Model {
            tiles: Grid::new(),
            tree_roots: TreeRoots::new(),
            delta_time: Fixed { raw: 0 },
            fixed_delta_time: Fixed { raw: 50_000 },
            rules,
            terrain_noise: MultiNoise::new(terrain_seed, &terrain_properties()),
            mineral_noise: MultiNoise::new(mineral_seed, &mineral_properties()),
            id_generator: IdGenerator::new(),
            minerals: Fixed { raw: 10_000_000 },
            split_root: None,
            client_view_update: ClientView::new(rules),
            current_depth: Fixed { raw: 0 },
            generation_depth: 0,
            dice: mix(add_mod(mix(terrain_seed), mineral_seed)),
        };
        proof {
            model.tiles.lemma_finite();
            assert(model@ == World::blank(rules, terrain_seed, mineral_seed));
        }
        model.start();
        model
    }

    /// Starts the world anew under the same rules, with seeds that differ
    /// from run to run. The world is one that `reset_with_seeds` makes, for
    /// some pair of seeds.
    pub fn reset(&mut self)
        requires
            old(self)@.rules.wf(),
        ensures
            exists|terrain_seed: u64, mineral_seed: u64|
                final(self)@ == old(self)@.reset(terrain_seed, mineral_seed),
            final(self).inv(),
    {
        let terrain_seed = random_seed();
        let mineral_seed = random_seed();
        self.reset_with_seeds(terrain_seed, mineral_seed);
    }

    /// Starts the world anew with the given seeds, under the same rules.
    pub fn reset_with_seeds(&mut self, terrain_seed: u64, mineral_seed: u64)
        requires
            old(self)@.rules.wf(),
        ensures
            final(self)@ == old(self)@.reset(terrain_seed, mineral_seed),
            final(self).inv(),
    {
        self.tiles = Grid::new();
        self.tree_roots = TreeRoots::new();
        self.fixed_delta_time = Fixed { raw: 50_000 };
        self.terrain_noise = MultiNoise::new(terrain_seed, &terrain_properties());
        self.mineral_noise = MultiNoise::new(mineral_seed, &mineral_properties());
        self.id_generator = IdGenerator::new();
        self.minerals = Fixed { raw: 10_000_000 };
        self.split_root = None;
        self.generation_depth = 0;
        self.current_depth = Fixed { raw: 0 };
        self.client_view_update = ClientView::new(self.rules);
        self.dice = mix(add_mod(mix(terrain_seed), mineral_seed));
        proof {
            self.tiles.lemma_finite();
            assert(self@ == (World {
                delta_time: old(self)@.delta_time,
                ..World::blank(old(self)@.rules, terrain_seed, mineral_seed)
            }));
        }
        self.start();
    }

    /// Fills the empty world for a session.
    fn start(&mut self)
        requires
            old(self).inv(),
            old(self)@.next_id == 0,
        ensures
            final(self)@ == old(self)@.started(),
            final(self).inv(),
    {
        self.new_root(
            Root {
                position: Vec2::zero(),
                parent_root: None,
                root_type: RootType::Head {
                    velocity: Vec2 { x: Fixed { raw: 0 }, y: self.rules.root_growth_speed },
                },
            },
        );
        let area = self.get_area(0, 20);
        self.fill_area(area, Tile::Dirt);
        self.generate();
    }

    /// The depth of the deepest growing tip, where a tip grows.
    pub fn deepest_head(&self) -> (r: Option<Fixed>)
        ensures
            r == deepest_in(self@.roots, self@.roots.len() as int),
    {
        let mut best: Option<Fixed> = None;
        let mut k: usize = 0;
        while k < self.tree_roots.roots.len()
            invariant
                k <= self.tree_roots.roots@.len(),
                best == deepest_in(self.tree_roots.roots@, k as int),
            decreases self.tree_roots.roots@.len() - k,
        {
            let root = self.tree_roots.roots.root_at(k);
            let grows = match root.root_type {
                RootType::Head { .. } => true,
                _ => false,
            };
            let deeper = match best {
                Some(b) => root.position.y.raw > b.raw,
                None => true,
            };
            if grows && deeper {
                best = Some(root.position.y);
            }
            k += 1;
        }
        best
    }

    /// Moves the window. Where the frontier is less than the least distance
    /// ahead of the deepest tip, the next rows are generated and the
    /// frontier moves on. Then all that lies above the kept rows is removed.
    pub fn generate(&mut self)
        requires
            old(self).inv(),
        ensures
            final(self)@ == old(self)@.generate(),
            final(self).inv(),
    {
        let row: i64 = self.current_depth.floor() as i64;
        let frontier: i64 = self.generation_depth as i64 + self.rules.generation_depth_max as i64;
        if self.generation_depth as i64 - row < self.rules.generation_depth_min as i64
            && i32::MIN as i64 <= frontier && frontier <= i32::MAX as i64 {
            let area = self.get_area(self.generation_depth, frontier as i32);
            self.generate_area(area);
            self.generation_depth = frontier as i32;
        }
        let keep: i64 = row - self.rules.deletion_depth as i64;
        let keep_from: i32 = if keep < i32::MIN as i64 {
            i32::MIN
        } else if keep > i32::MAX as i64 {
            i32::MAX
        } else {
            keep as i32
        };
        self.remove_above(keep_from);
    }

    /// One step of the simulation: the roots move, the depth is taken from
    /// the deepest growing tip, and the window moves.
    pub fn tick(&mut self)
        requires
            old(self).inv(),
            old(self).has_room(),
        ensures
            final(self)@ == old(self)@.tick(),
            final(self).inv(),
    {
        self.update_roots();
        match self.deepest_head() {
            Some(depth) => {
                self.current_depth = depth;
            },
            None => {},
        }
        self.client_view_update.current_depth = self.current_depth;
        self.client_view_update.minerals = self.minerals;
        self.generate();
    }

    /// Time passes. It is added to the time that has gathered; then, for
    /// every tick's worth of it, one step of the simulation is made, so that
    /// no step is left out however long the time was. What has gathered
    /// beyond the last step is kept for the next call. No step is made once
    /// the identifiers would run out.
    pub fn update(&mut self, delta_time: Fixed)
        requires
            old(self).inv(),
        ensures
            final(self)@ == old(self)@.update(delta_time),
            final(self).inv(),
    {
        self.delta_time = self.delta_time.plus(delta_time);
        let ghost gathered = self@;
        while self.delta_time.raw >= self.fixed_delta_time.raw && self.room_left()
            invariant
                self.inv(),
                self@.catch_up() == gathered.catch_up(),
            decreases self.delta_time.raw,
        {
            proof {
                lemma_tick_keeps_time(self@.paid());
            }
            self.delta_time = self.delta_time.minus(self.fixed_delta_time);
            self.tick();
        }
    }

    /// Takes an event of the window. The world does not react to any: what
    /// the player asks for comes as a message.
    pub fn handle_event(&mut self, event: &geng::Event)
        ensures
            final(self)@ == old(self)@,
    {
    }

    /// Whether the pool holds at least `cost`.
    pub fn can_spend(&self, cost: Fixed) -> (r: bool)
        ensures
            r == self@.can_spend(cost),
    {
        self.minerals.raw >= cost.raw
    }

    /// Takes `cost` from the pool if the pool holds it, and says whether it did.
    pub fn try_spend(&mut self, cost: Fixed) -> (r: bool)
        requires
            old(self).inv(),
        ensures
            r == old(self)@.can_spend(cost),
            final(self)@ == old(self)@.try_spend(cost),
            final(self).inv(),
    {
        if self.can_spend(cost) {
            self.minerals = self.minerals.minus(cost);
            return true;
        }
        false
    }

    /// Takes a message from the player. An attractor is placed if its price
    /// can be paid. A split is asked for if its price can be paid and a
    /// growing tip lies above the target. A message that is not taken
    /// changes nothing, and the pool never falls below nothing.
    pub fn handle_message(&mut self, message: Message)
        requires
            old(self).inv(),
        ensures
            final(self)@ == old(self)@.handle_message(message),
            !old(self)@.accepts(message) ==> final(self)@ == old(self)@,
            final(self)@.minerals.raw >= 0,
            final(self).inv(),
    {
        match message {
            Message::SpawnAttractor { pos } => {
                if self.try_spend(self.rules.attractor_cost) {
                    self.spawn_attractor(pos);
                }
            },
            Message::SplitRoot { pos } => {
                if self.can_spend(self.rules.split_cost) && self.split_towards(pos) {
                    self.try_spend(self.rules.split_cost);
                }
            },
        }
    }
}

} // verus!
