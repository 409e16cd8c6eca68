use vstd::prelude::*;
use crate::client_view::ViewEvent;
use crate::dice::{away_left, away_right, roll, share_of};
use crate::fixed::Fixed;
use crate::id::Id;
use crate::model::Model;
use crate::root::{Attractor, Root, RootMap, RootType};
use crate::tile::{get_tile_pos, Tile};
use crate::vector::{square, Vec2};
use crate::world::{
    assigned_in, blocks, closest_in, collides, distance_sq, link_ok, near,
    parent_is_node, reassigned, spec_closest_root_id, World,
};

verus! {

/// A new root whose parent link is sound leaves the world sound, and what
/// could join the world before can join it after.
pub proof fn lemma_new_root_inv(w: World, root: Root)
    requires
        w.inv(),
        w.admits(root),
        w.next_id < usize::MAX,
    ensures
        w.new_root(root).inv(),
        forall|r: Root| w.admits(r) ==> #[trigger] w.new_root(root).admits(r),
        parent_is_node(w.new_root(root).roots, w.fresh_id()) <==> root.root_type is Node,
{
    let after = w.new_root(root);
    let fresh = w.fresh_id();
    assert forall|i: int| 0 <= i < w.roots.len() implies (#[trigger] w.roots[i]).0.0 < w.next_id by {
        assert(link_ok(w.roots, w.next_id, w.roots[i]));
    }
    assert forall|pid: Id| pid.0 < w.next_id && parent_is_node(w.roots, pid) implies parent_is_node(
        after.roots,
        pid,
    ) by {
        assert forall|j: int| 0 <= j < after.roots.len() && (#[trigger] after.roots[j]).0
            == pid implies after.roots[j].1.root_type is Node by {
            if j < w.roots.len() {
                assert(after.roots[j] == w.roots[j]);
            }
        }
    }
    assert forall|i: int| 0 <= i < after.roots.len() implies link_ok(
        after.roots,
        after.next_id,
        #[trigger] after.roots[i],
    ) by {
        if i < w.roots.len() {
            assert(after.roots[i] == w.roots[i]);
            assert(link_ok(w.roots, w.next_id, w.roots[i]));
        }
    }
    assert(after.roots[w.roots.len() as int] == (fresh, root));
    if root.root_type is Node {
        assert forall|j: int| 0 <= j < after.roots.len() && (#[trigger] after.roots[j]).0
            == fresh implies after.roots[j].1.root_type is Node by {
            if j < w.roots.len() {
                assert(after.roots[j] == w.roots[j]);
            }
        }
    }
}

/// Replacing a tip by a tip whose parent link is sound leaves the world sound.
pub proof fn lemma_put_root_inv(w: World, i: int, root: Root)
    requires
        w.inv(),
        0 <= i < w.roots.len(),
        !(w.roots[i].1.root_type is Node),
        !(root.root_type is Node),
        w.admits(root),
    ensures
        w.put_root(i, root).inv(),
{
    let after = w.put_root(i, root);
    let id = w.roots[i].0;
    assert forall|pid: Id| parent_is_node(w.roots, pid) implies parent_is_node(after.roots, pid) by {
        assert(pid != id) by {
            if pid == id {
                assert(w.roots[i].1.root_type is Node);
            }
        }
        assert forall|j: int| 0 <= j < after.roots.len() && (#[trigger] after.roots[j]).0
            == pid implies after.roots[j].1.root_type is Node by {
            assert(after.roots[j] == w.roots[j]);
        }
    }
    assert forall|k: int| 0 <= k < after.roots.len() implies link_ok(
        after.roots,
        after.next_id,
        #[trigger] after.roots[k],
    ) by {
        assert(link_ok(w.roots, w.next_id, w.roots[k]));
        if k != i {
            assert(after.roots[k] == w.roots[k]);
        }
    }
    assert forall|a: int, b: int| 0 <= a < b < after.roots.len() implies after.roots[a].0.0
        < after.roots[b].0.0 by {
        assert(w.roots[a].0.0 < w.roots[b].0.0);
    }
}

fn is_head(root: &Root) -> (r: bool)
    ensures
        r == (root.root_type is Head),
{
    match root.root_type {
        RootType::Head { .. } => true,
        _ => false,
    }
}

fn is_assigned(attractor: &Attractor, id: Id) -> (r: bool)
    ensures
        r == (attractor.root == Some(id)),
{
    match attractor.root {
        Some(root) => root == id,
        None => false,
    }
}

fn is_near(a: Vec2, b: Vec2, reach: Fixed) -> (r: bool)
    ensures
        r == near(a, b, reach),
{
    reach.raw >= 0 && a.minus(b).len_sq() <= square(reach.raw)
}

fn is_blocking(entry_id: Id, entry: &Root, id: Id, root: &Root, reach: Fixed) -> (r: bool)
    ensures
        r == blocks((entry_id, *entry), id, *root, reach),
{
    let is_parent = match root.parent_root {
        Some(p) => p.0 == entry_id,
        None => false,
    };
    entry_id != id && !is_parent && is_near(entry.position, root.position, reach)
}

impl Model {
    /// Whether a tick may run: each root that is there can still get the two
    /// identifiers that it may need.
    pub open spec fn has_room(&self) -> bool {
        self@.has_room()
    }

    /// Whether a tick may run.
    pub fn room_left(&self) -> (r: bool)
        ensures
            r == self.has_room(),
    {
        let left: usize = self.id_generator.remaining();
        let n: usize = self.tree_roots.roots.len();
        n <= left / 2
    }

    /// The identifier of the growing tip that lies above `position` and is
    /// nearest to it, where there is such a tip. Of two that are equally
    /// near, the older one is taken.
    pub fn closest_root_id(roots: &RootMap, position: Vec2) -> (r: Option<Id>)
        ensures
            r == spec_closest_root_id(roots@, position),
    {
        let mut best: Option<usize> = None;
        let mut best_distance: u128 = 0;
        let mut k: usize = 0;
        while k < roots.len()
            invariant
                k <= roots@.len(),
                match best {
                    Some(b) => b < k && closest_in(roots@, position, k as int) == Some(b as int)
                        && best_distance == distance_sq(roots@[b as int].1, position),
                    None => closest_in(roots@, position, k as int) is None,
                },
            decreases roots@.len() - k,
        {
            let root = roots.root_at(k);
            if is_head(&root) && root.position.y.raw < position.y.raw {
                let distance: u128 = root.position.minus(position).len_sq();
                if best.is_none() || distance < best_distance {
                    best = Some(k);
                    best_distance = distance;
                }
            }
            k += 1;
        }
        match best {
            Some(b) => Some(roots.id_at(b)),
            None => None,
        }
    }

    /// Adds a root to the world under a new identifier, and records the change.
    pub fn new_root(&mut self, root: Root) -> (id: Id)
        requires
            old(self).inv(),
            old(self)@.admits(root),
            old(self)@.next_id < usize::MAX,
        ensures
            final(self)@ == old(self)@.new_root(root),
            id == old(self)@.fresh_id(),
            final(self).inv(),
    {
        proof {
            lemma_new_root_inv(self@, root);
            assert forall|i: int| 0 <= i < self@.roots.len() implies (#[trigger] self@.roots[i]).0.0
                < self@.next_id by {
                assert(link_ok(self@.roots, self@.next_id, self@.roots[i]));
            }
        }
        let id = self.id_generator.gen();
        self.client_view_update.roots.insert(id, ViewEvent::Changed(root));
        self.tree_roots.roots.push(id, root);
        id
    }

    /// Replaces the root at place `i` and records the change.
    pub fn put_root(&mut self, i: usize, root: Root)
        requires
            old(self).inv(),
            i < old(self)@.roots.len(),
            !(old(self)@.roots[i as int].1.root_type is Node),
            !(root.root_type is Node),
            old(self)@.admits(root),
        ensures
            final(self)@ == old(self)@.put_root(i as int, root),
            final(self).inv(),
    {
        proof {
            lemma_put_root_inv(self@, i as int, root);
        }
        let id = self.tree_roots.roots.id_at(i);
        self.client_view_update.roots.insert(id, ViewEvent::Changed(root));
        self.tree_roots.roots.set_at(i, root);
    }

    /// The tip moves on by `velocity` for one tick. A node stays where the
    /// tip was and becomes the tip's parent.
    pub fn grow_root(&mut self, root: &mut Root, velocity: Vec2)
        requires
            old(self).inv(),
            old(self)@.admits(*old(root)),
            old(self)@.next_id < usize::MAX,
        ensures
            final(self)@ == old(self)@.grow_root(*old(root), velocity).0,
            *final(root) == old(self)@.grow_root(*old(root), velocity).1,
            final(self).inv(),
            final(self)@.admits(*final(root)),
    {
        let next_pos = root.position.plus(velocity.scale(self.fixed_delta_time));
        let node = Root {
            position: root.position,
            parent_root: root.parent_root,
            root_type: RootType::Node,
        };
        proof {
            lemma_new_root_inv(self@, node);
        }
        let id = self.new_root(node);
        root.parent_root = Some((id, root.position));
        root.position = next_pos;
    }

    /// The tip splits in two. A node stays where the tip was; a new tip
    /// starts on the left branch, and the tip itself goes on as the right
    /// branch. The branch on the target's side points at the target, the
    /// other one away from it.
    pub fn split_root(&mut self, root: &mut Root, target: Vec2)
        requires
            old(self).inv(),
            old(self)@.admits(*old(root)),
            old(self)@.next_id + 2 <= usize::MAX,
        ensures
            final(self)@ == old(self)@.split_root(*old(root), target).0,
            *final(root) == old(self)@.split_root(*old(root), target).1,
            final(self).inv(),
            final(self)@.admits(*final(root)),
            final(root).root_type is Head,
    {
        let ghost start = self@;
        self.dice = roll(self.dice);
        let share = share_of(self.dice);
        let toward = target.minus(root.position).normalize();
        let (left_dir, right_dir) = if target.x.raw > root.position.x.raw {
            (away_left(share), toward)
        } else {
            (toward, away_right(share))
        };
        let left_pos = root.position.plus(left_dir.scale(self.fixed_delta_time));
        let right_pos = root.position.plus(right_dir.scale(self.fixed_delta_time));
        let node = Root {
            position: root.position,
            parent_root: root.parent_root,
            root_type: RootType::Node,
        };
        proof {
            lemma_new_root_inv(self@, node);
        }
        let id = self.new_root(node);
        let ghost with_node = self@;
        let left = Root {
            position: left_pos,
            parent_root: Some((id, root.position)),
            root_type: RootType::Head { velocity: left_dir.scale(self.rules.root_growth_speed) },
        };
        proof {
            lemma_new_root_inv(with_node, left);
        }
        self.new_root(left);
        root.parent_root = Some((id, root.position));
        root.position = right_pos;
        root.root_type = RootType::Head { velocity: right_dir.scale(self.rules.root_growth_speed) };
        proof {
            assert(with_node.admits(*root));
        }
    }

    /// The velocity of a tip after the pull of an attractor at `target` for one tick.
    pub fn pulled(&self, root: &Root, velocity: Vec2, target: Vec2) -> (v: Vec2)
        ensures
            v == self@.pulled(*root, velocity, target),
    {
        let direction = target.minus(root.position).normalize();
        velocity.plus(direction.shrink(self.rules.root_inertia).scale(self.fixed_delta_time)).clamp_len(
            self.rules.root_growth_speed,
        )
    }

    /// The tip `id` looks at the attractor that is assigned to it. One that
    /// lies deeper than the tip pulls the tip; one that the tip has reached
    /// or passed is removed. The velocity after that is returned.
    pub fn steer(&mut self, id: Id, root: &Root, velocity: Vec2) -> (v: Vec2)
        requires
            old(self).inv(),
        ensures
            final(self)@ == old(self)@.steer(id, *root, velocity).0,
            v == old(self)@.steer(id, *root, velocity).1,
            final(self).inv(),
            final(self)@.roots == old(self)@.roots,
            final(self)@.next_id == old(self)@.next_id,
    {
        let mut found: Option<usize> = None;
        let mut k: usize = 0;
        while k < self.tree_roots.attractors.len()
            invariant
                k <= self.tree_roots.attractors@.len(),
                match found {
                    Some(f) => f < k && assigned_in(self.tree_roots.attractors@, id, k as int)
                        == Some(f as int),
                    None => assigned_in(self.tree_roots.attractors@, id, k as int) is None,
                },
            decreases self.tree_roots.attractors@.len() - k,
        {
            if found.is_none() && is_assigned(&self.tree_roots.attractors[k], id) {
                found = Some(k);
            }
            k += 1;
        }
        match found {
            Some(f) => {
                let target = self.tree_roots.attractors[f].position;
                if target.y.raw > root.position.y.raw {
                    self.pulled(root, velocity, target)
                } else {
                    self.tree_roots.attractors.remove(f);
                    velocity
                }
            },
            None => velocity,
        }
    }

    /// What the tip `id` is after it has moved to where `root` stands.
    /// Another root that is too near stops it, unless that root is its
    /// parent; so does the chamber's wall, and stone. On a deposit the tip
    /// starts to drain. Else it stays what it was.
    pub fn settle(&self, id: Id, root: &Root) -> (kind: RootType)
        ensures
            kind == self@.settle(id, *root),
            !(root.root_type is Node) ==> !(kind is Node),
    {
        let reach = self.fixed_delta_time.times(self.rules.root_growth_speed).half();
        let mut hit = false;
        let mut k: usize = 0;
        while k < self.tree_roots.roots.len()
            invariant
                k <= self.tree_roots.roots@.len(),
                reach == self@.reach(),
                hit <==> exists|j: int|
                    0 <= j < k && blocks(#[trigger] self.tree_roots.roots@[j], id, *root, reach),
            decreases self.tree_roots.roots@.len() - k,
        {
            let entry_id = self.tree_roots.roots.id_at(k);
            let entry = self.tree_roots.roots.root_at(k);
            if is_blocking(entry_id, &entry, id, root, reach) {
                hit = true;
                assert(blocks(self.tree_roots.roots@[k as int], id, *root, reach));
            }
            k += 1;
        }
        assert(hit == collides(self@.roots, id, *root, self@.reach()));
        if hit {
            return RootType::Final;
        }
        if root.position.x.abs().raw as i128 > (self.rules.chamber_width as i128) * 1_000_000 {
            return RootType::Final;
        }
        let cell = get_tile_pos(root.position);
        match self.tile(cell) {
            Some(Tile::Stone) => RootType::Final,
            Some(Tile::Mineral { .. }) => RootType::Consumer { position: cell },
            _ => root.root_type,
        }
    }

    /// One tick of the root at place `i`. A growing tip steers, splits where
    /// a split waits for it and else grows on, and settles. A draining tip
    /// drains, and stops for good once nothing comes. Nodes and stopped tips
    /// stay as they are.
    pub fn update_root(&mut self, i: usize)
        requires
            old(self).inv(),
            i < old(self)@.roots.len(),
            old(self)@.next_id + 2 <= usize::MAX,
        ensures
            final(self)@ == old(self)@.update_root(i as int),
            final(self).inv(),
            old(self)@.roots.len() <= final(self)@.roots.len(),
            final(self)@.next_id <= old(self)@.next_id + 2,
    {
        let id = self.tree_roots.roots.id_at(i);
        let mut root = self.tree_roots.roots.root_at(i);
        proof {
            assert(link_ok(self@.roots, self@.next_id, self@.roots[i as int]));
            assert(self@.admits(root));
        }
        match root.root_type {
            RootType::Head { velocity } => {
                let v = self.steer(id, &root, velocity);
                root.root_type = RootType::Head { velocity: v };
                let due = match self.split_root {
                    Some(request) => if request.0 == id {
                        Some(request.1)
                    } else {
                        None
                    },
                    None => None,
                };
                match due {
                    Some(target) => {
                        self.split_root(&mut root, target);
                    },
                    None => {
                        self.grow_root(&mut root, v);
                    },
                }
                let kind = self.settle(id, &root);
                root.root_type = kind;
                self.put_root(i, root);
            },
            RootType::Consumer { position } => {
                let budget = self.rules.mineral_consume_speed.times(self.fixed_delta_time);
                let consumed = self.consume(position, budget);
                if consumed.raw == 0 {
                    root.root_type = RootType::Final;
                }
                self.put_root(i, root);
            },
            _ => {},
        }
    }

    /// One tick of every root that is there when the tick starts, in the
    /// order of their identifiers. Then every attractor is assigned anew, to
    /// the growing tip above it that is nearest or to none, and the waiting
    /// split is cleared, whether it was made or not.
    pub fn update_roots(&mut self)
        requires
            old(self).inv(),
            old(self).has_room(),
        ensures
            final(self)@ == old(self)@.update_roots(),
            final(self).inv(),
    {
        let ghost start = self@;
        let n: usize = self.tree_roots.roots.len();
        let mut i: usize = 0;
        while i < n
            invariant
                i <= n,
                n == start.roots.len(),
                n <= self@.roots.len(),
                self@ == start.update_prefix(i as int),
                self.inv(),
                self@.next_id <= start.next_id + 2 * i,
                start.next_id + 2 * n <= usize::MAX,
            decreases n - i,
        {
            self.update_root(i);
            i += 1;
        }
        let ghost moved = self@;
        let count: usize = self.tree_roots.attractors.len();
        let mut k: usize = 0;
        while k < count
            invariant
                k <= count,
                count == moved.attractors.len(),
                self.tree_roots.attractors@.len() == count,
                self@ == (World { attractors: self.tree_roots.attractors@, ..moved }),
                forall|j: int|
                    0 <= j < k ==> #[trigger] self.tree_roots.attractors@[j] == reassigned(
                        moved.attractors,
                        moved.roots,
                    )[j],
                forall|j: int|
                    k <= j < count ==> #[trigger] self.tree_roots.attractors@[j]
                        == moved.attractors[j],
            decreases count - k,
        {
            let position = self.tree_roots.attractors[k].position;
            let closest = Self::closest_root_id(&self.tree_roots.roots, position);
            self.tree_roots.attractors.set(k, Attractor { position, root: closest });
            k += 1;
        }
        self.split_root = None;
        proof {
            assert(self@.attractors =~= reassigned(moved.attractors, moved.roots));
        }
    }

    /// Places an attractor at `position`, assigned to the growing tip above
    /// it that is nearest, or to none, and records the change.
    pub fn spawn_attractor(&mut self, position: Vec2)
        requires
            old(self).inv(),
        ensures
            final(self)@ == old(self)@.spawn_attractor(position),
            final(self).inv(),
    {
        let closest = Self::closest_root_id(&self.tree_roots.roots, position);
        let attractor = Attractor { position, root: closest };
        self.client_view_update.attractors.push(ViewEvent::Changed(attractor));
        self.tree_roots.attractors.push(attractor);
    }

    /// Asks the growing tip above `position` that is nearest to split at the
    /// next tick, one branch growing towards `position`. Says whether there
    /// was such a tip; without one nothing changes.
    pub fn split_towards(&mut self, position: Vec2) -> (r: bool)
        requires
            old(self).inv(),
        ensures
            final(self)@ == old(self)@.split_towards(position),
            r == (spec_closest_root_id(old(self)@.roots, position) is Some),
            final(self).inv(),
    {
        match Self::closest_root_id(&self.tree_roots.roots, position) {
            Some(closest) => {
                self.split_root = Some((closest, position));
                true
            },
            None => false,
        }
    }
}

} // verus!
