use vstd::prelude::*;
use crate::client_view::ViewEvent;
use crate::model::Model;
use crate::root::{lemma_kept_roots, retain_attractors};
use crate::tile::{Area, Position, Tile};
use crate::world::{cell_point, generated_tile, World};

verus! {

/// Dropping the roots above a row leaves every link sound.
pub proof fn lemma_remove_above_inv(w: World, depth: i32)
    requires
        w.inv(),
    ensures
        w.remove_above(depth).inv(),
{
    let after = w.remove_above(depth);
    lemma_kept_roots(w.roots, depth);
    assert(after.tiles.dom().subset_of(w.tiles.dom()));
    vstd::set_lib::lemma_len_subset(after.tiles.dom(), w.tiles.dom());
    assert forall|i: int| 0 <= i < after.roots.len() implies crate::world::link_ok(
        after.roots,
        after.next_id,
        #[trigger] after.roots[i],
    ) by {
        let e = after.roots[i];
        assert(after.roots.contains(e));
        assert(w.roots.contains(e));
        let k = choose|k: int| 0 <= k < w.roots.len() && w.roots[k] == e;
        assert(crate::world::link_ok(w.roots, w.next_id, w.roots[k]));
        if e.1.parent_root is Some {
            let parent = e.1.parent_root->0;
            let pid = parent.0;
            assert forall|j: int| 0 <= j < after.roots.len() && (#[trigger] after.roots[j]).0
                == pid implies after.roots[j].1.root_type is Node by {
                assert(after.roots.contains(after.roots[j]));
                assert(w.roots.contains(after.roots[j]));
                let m = choose|m: int| 0 <= m < w.roots.len() && w.roots[m] == after.roots[j];
                assert(w.roots[m].0 == pid);
            }
        }
    }
}

impl Model {
    /// The rectangle between two rows, across the whole chamber.
    pub fn get_area(&self, depth_start: i32, depth_end: i32) -> (area: Area)
        ensures
            area == self@.get_area(depth_start, depth_end),
    {
        let w: i32 = self.rules.half_width();
        Area::from_corners(Position { x: -w, y: depth_start }, Position { x: w, y: depth_end })
    }

    /// Writes the tile to the cell, whatever the cell held, and records the change.
    pub fn set_tile(&mut self, position: Position, tile: Tile)
        requires
            old(self).inv(),
            tile.within(old(self)@.rules),
        ensures
            final(self)@ == old(self)@.set_tile(position, tile),
            final(self).inv(),
    {
        self.client_view_update.tiles.insert(position, ViewEvent::Changed(tile));
        self.tiles.insert(position, tile);
    }

    /// Writes the tile to the cell if the cell is empty, and records the
    /// change if it was. A cell that holds a tile keeps it.
    pub fn try_set_tile(&mut self, position: Position, tile: Tile)
        requires
            old(self).inv(),
            tile.within(old(self)@.rules),
        ensures
            final(self)@ == old(self)@.try_set_tile(position, tile),
            old(self)@.tiles.contains_key(position) ==> final(self)@ == old(self)@,
            final(self).inv(),
    {
        if !self.tiles.contains(position) {
            self.client_view_update.tiles.insert(position, ViewEvent::Changed(tile));
            self.tiles.insert(position, tile);
        }
    }

    /// Writes the tile to every cell of the area and records the changes.
    pub fn fill_area(&mut self, area: Area, tile: Tile)
        requires
            old(self).inv(),
            tile.within(old(self)@.rules),
        ensures
            final(self)@ == old(self)@.fill_area(area, tile),
            final(self).inv(),
    {
        let ghost start = self@;
        let mut y: i64 = area.y_min as i64;
        assert(self@.tiles =~= start.fill_swept(area, tile, y as int, area.x_min as int).tiles);
        assert(self@.changes.tiles =~= start.fill_swept(
            area,
            tile,
            y as int,
            area.x_min as int,
        ).changes.tiles);
        while y <= area.y_max as i64
            invariant
                area.y_min <= y,
                y <= area.y_max + 1 || y == area.y_min,
                self@ == start.fill_swept(area, tile, y as int, area.x_min as int),
                self.inv(),
                tile.within(start.rules),
            decreases area.y_max + 1 - y,
        {
            let mut x: i64 = area.x_min as i64;
            while x <= area.x_max as i64
                invariant
                    area.y_min <= y <= area.y_max,
                    area.x_min <= x,
                    x <= area.x_max + 1 || x == area.x_min,
                    self@ == start.fill_swept(area, tile, y as int, x as int),
                    self.inv(),
                    tile.within(start.rules),
                decreases area.x_max + 1 - x,
            {
                let position = Position { x: x as i32, y: y as i32 };
                self.set_tile(position, tile);
                proof {
                    let next = start.fill_swept(area, tile, y as int, x + 1);
                    assert(self@.tiles =~= next.tiles);
                    assert(self@.changes.tiles =~= next.changes.tiles);
                }
                x += 1;
            }
            proof {
                let next = start.fill_swept(area, tile, y + 1, area.x_min as int);
                assert(self@.tiles =~= next.tiles);
                assert(self@.changes.tiles =~= next.changes.tiles);
            }
            y += 1;
        }
        proof {
            let done = start.fill_area(area, tile);
            assert(self@.tiles =~= done.tiles);
            assert(self@.changes.tiles =~= done.changes.tiles);
        }
    }

    /// The tile that the noise fields make for a cell.
    pub fn generated_tile(&self, position: Position) -> (tile: Tile)
        requires
            self.inv(),
        ensures
            tile == self@.tile_at(position),
            tile.within(self@.rules),
    {
        reveal(generated_tile);
        let terrain_noise = self.terrain_noise.get(cell_point(position));
        let mineral_noise = self.mineral_noise.get(cell_point(position));
        self.rules.tile_from_noise_value(mineral_noise, terrain_noise)
    }

    /// Gives every empty cell of the area the tile that the noise fields
    /// make for it, and records these changes. Cells that hold a tile keep it.
    pub fn generate_area(&mut self, area: Area)
        requires
            old(self).inv(),
        ensures
            final(self)@ == old(self)@.generate_area(area),
            final(self).inv(),
    {
        let ghost start = self@;
        let mut y: i64 = area.y_min as i64;
        assert(self@.tiles =~= start.generate_swept(area, y as int, area.x_min as int).tiles);
        assert(self@.changes.tiles =~= start.generate_swept(
            area,
            y as int,
            area.x_min as int,
        ).changes.tiles);
        while y <= area.y_max as i64
            invariant
                area.y_min <= y,
                y <= area.y_max + 1 || y == area.y_min,
                self@ == start.generate_swept(area, y as int, area.x_min as int),
                self.inv(),
            decreases area.y_max + 1 - y,
        {
            let mut x: i64 = area.x_min as i64;
            while x <= area.x_max as i64
                invariant
                    area.y_min <= y <= area.y_max,
                    area.x_min <= x,
                    x <= area.x_max + 1 || x == area.x_min,
                    self@ == start.generate_swept(area, y as int, x as int),
                    self.inv(),
                decreases area.x_max + 1 - x,
            {
                let position = Position { x: x as i32, y: y as i32 };
                let tile = self.generated_tile(position);
                self.try_set_tile(position, tile);
                proof {
                    let next = start.generate_swept(area, y as int, x + 1);
                    assert(self@.tiles =~= next.tiles);
                    assert(self@.changes.tiles =~= next.changes.tiles);
                }
                x += 1;
            }
            proof {
                let next = start.generate_swept(area, y + 1, area.x_min as int);
                assert(self@.tiles =~= next.tiles);
                assert(self@.changes.tiles =~= next.changes.tiles);
            }
            y += 1;
        }
        proof {
            let done = start.generate_area(area);
            assert(self@.tiles =~= done.tiles);
            assert(self@.changes.tiles =~= done.changes.tiles);
        }
    }

    /// Removes every tile, root and attractor that lies above the row `depth`.
    pub fn remove_above(&mut self, depth: i32)
        requires
            old(self).inv(),
        ensures
            final(self)@ == old(self)@.remove_above(depth),
            final(self).inv(),
    {
        let ghost start = self@;
        let cells = self.tiles.positions();
        let mut i: usize = 0;
        while i < cells.len()
            invariant
                i <= cells@.len(),
                forall|p: Position| cells@.contains(p) <==> start.tiles.contains_key(p),
                forall|p: Position| #[trigger]
                    self.tiles@.contains_key(p) ==> start.tiles.contains_key(p) && self.tiles@[p]
                        == start.tiles[p],
                forall|p: Position|
                    start.tiles.contains_key(p) && p.y >= depth ==> #[trigger] self.tiles@.contains_key(
                        p,
                    ),
                forall|j: int|
                    0 <= j < i && cells@[j].y < depth ==> !self.tiles@.contains_key(
                        #[trigger] cells@[j],
                    ),
                self@ == (World { tiles: self.tiles@, ..start }),
            decreases cells@.len() - i,
        {
            let p = cells[i];
            if p.y < depth {
                self.tiles.remove(p);
            }
            i += 1;
        }
        self.tree_roots.roots.retain_from(depth);
        retain_attractors(&mut self.tree_roots.attractors, depth);
        proof {
            let done = start.remove_above(depth);
            assert forall|p: Position| self.tiles@.contains_key(p) implies p.y >= depth by {
                assert(cells@.contains(p));
                let j = choose|j: int| 0 <= j < cells@.len() && cells@[j] == p;
                assert(cells@[j] == p);
            }
            assert(self@.tiles =~= done.tiles);
            lemma_remove_above_inv(start, depth);
        }
    }
}

} // verus!
