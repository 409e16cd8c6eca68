use vstd::prelude::*;
use crate::fixed::Fixed;
use crate::grid::Grid;
use crate::id::Id;
use crate::model::Model;
use crate::root::{has_id, index_of, Attractor, Root};
use crate::rules::Rules;
use crate::table::IdTable;
use crate::tile::{Position, Tile};

verus! {

/// A record of a change: the value as it is now.
#[derive(Debug, Copy, PartialEq, Eq)]
pub enum ViewEvent<T: core::fmt::Debug + Clone> {
    Changed(T),
}

impl<T: core::fmt::Debug + Clone> Clone for ViewEvent<T> {
    fn clone(&self) -> (r: Self) {
        match self {
            ViewEvent::Changed(value) => ViewEvent::Changed(value.clone()),
        }
    }
}

/// What a view holds, as plain mathematics.
pub struct Snapshot {
    pub rules: Rules,
    pub current_depth: Fixed,
    pub minerals: Fixed,
    pub tiles: Map<Position, ViewEvent<Tile>>,
    pub roots: Map<Id, ViewEvent<Root>>,
    pub attractors: Seq<ViewEvent<Attractor>>,
}

impl Snapshot {
    /// The view that holds no change.
    pub open spec fn empty(rules: Rules) -> Snapshot {
        Snapshot {
            rules,
            current_depth: Fixed { raw: 0 },
            minerals: Fixed { raw: 0 },
            tiles: Map::empty(),
            roots: Map::empty(),
            attractors: Seq::empty(),
        }
    }
}

/// The world as it is handed to whoever draws it: all of it, or what changed
/// since the last time.
pub struct ClientView {
    pub rules: Rules,
    pub current_depth: Fixed,
    pub minerals: Fixed,
    pub tiles: Grid<ViewEvent<Tile>>,
    pub roots: IdTable<ViewEvent<Root>>,
    pub attractors: Vec<ViewEvent<Attractor>>,
}

impl View for ClientView {
    type V = Snapshot;

    open spec fn view(&self) -> Snapshot {
        Snapshot {
            rules: self.rules,
            current_depth: self.current_depth,
            minerals: self.minerals,
            tiles: self.tiles@,
            roots: self.roots@,
            attractors: self.attractors@,
        }
    }
}

impl ClientView {
    /// A view that holds no change.
    pub fn new(rules: Rules) -> (r: Self)
        ensures
            r@ == Snapshot::empty(rules),
    {
        ClientView {
            rules,
            current_depth: Fixed { raw: 0 },
            minerals: Fixed { raw: 0 },
            tiles: Grid::new(),
            roots: IdTable::new(),
            attractors: Vec::new(),
        }
    }
}

impl Default for ClientView {
    fn default() -> (r: Self)
        ensures
            r@ == Snapshot::empty(Rules::spec_default()),
    {
        ClientView::new(Rules::default())
    }
}

impl Model {
    /// The whole world as a view. The world stays as it is.
    pub fn get_client_view(&self) -> (view: ClientView)
        requires
            self.inv(),
        ensures
            view@ == self@.get_client_view(),
    {
        let mut tiles: Grid<ViewEvent<Tile>> = Grid::new();
        let cells = self.tiles.positions();
        let mut i: usize = 0;
        while i < cells.len()
            invariant
                i <= cells@.len(),
                forall|p: Position| cells@.contains(p) <==> self.tiles@.contains_key(p),
                forall|p: Position| #[trigger]
                    tiles@.contains_key(p) ==> self.tiles@.contains_key(p) && tiles@[p]
                        == ViewEvent::Changed(self.tiles@[p]),
                forall|j: int| 0 <= j < i ==> tiles@.contains_key(#[trigger] cells@[j]),
            decreases cells@.len() - i,
        {
            let p = cells[i];
            assert(cells@.contains(p));
            match self.tile(p) {
                Some(tile) => {
                    tiles.insert(p, ViewEvent::Changed(tile));
                },
                None => {},
            }
            i += 1;
        }
        let mut roots: IdTable<ViewEvent<Root>> = IdTable::new();
        let mut k: usize = 0;
        while k < self.tree_roots.roots.len()
            invariant
                k <= self.tree_roots.roots@.len(),
                self.inv(),
                forall|id: Id| #[trigger]
                    roots@.contains_key(id) ==> exists|j: int|
                        0 <= j < k && (#[trigger] self.tree_roots.roots@[j]).0 == id,
                forall|j: int|
                    0 <= j < k ==> roots@.contains_key((#[trigger] self.tree_roots.roots@[j]).0)
                        && roots@[self.tree_roots.roots@[j].0] == ViewEvent::Changed(
                        self.tree_roots.roots@[j].1,
                    ),
            decreases self.tree_roots.roots@.len() - k,
        {
            let id = self.tree_roots.roots.id_at(k);
            let root = self.tree_roots.roots.root_at(k);
            roots.insert(id, ViewEvent::Changed(root));
            proof {
                assert forall|j: int| 0 <= j < k + 1 implies roots@.contains_key(
                    (#[trigger] self.tree_roots.roots@[j]).0,
                ) && roots@[self.tree_roots.roots@[j].0] == ViewEvent::Changed(
                    self.tree_roots.roots@[j].1,
                ) by {
                    if j < k {
                        assert(self.tree_roots.roots@[j].0.0 < self.tree_roots.roots@[k as int].0.0);
                    }
                }
            }
            k += 1;
        }
        let mut attractors: Vec<ViewEvent<Attractor>> = Vec::new();
        let mut n: usize = 0;
        while n < self.tree_roots.attractors.len()
            invariant
                n <= self.tree_roots.attractors@.len(),
                attractors@.len() == n,
                forall|j: int|
                    0 <= j < n ==> #[trigger] attractors@[j] == ViewEvent::Changed(
                        self.tree_roots.attractors@[j],
                    ),
            decreases self.tree_roots.attractors@.len() - n,
        {
            attractors.push(ViewEvent::Changed(self.tree_roots.attractors[n]));
            n += 1;
        }
        proof {
            let want = self@.get_client_view();
            let seq = self@.roots;
            assert forall|p: Position| self.tiles@.contains_key(p) implies tiles@.contains_key(p) by {
                assert(cells@.contains(p));
                let j = choose|j: int| 0 <= j < cells@.len() && cells@[j] == p;
                assert(tiles@.contains_key(cells@[j]));
            }
            assert(tiles@ =~= want.tiles);
            assert forall|id: Id| has_id(seq, id) implies roots@.contains_key(id) && roots@[id]
                == ViewEvent::Changed(seq[index_of(seq, id)].1) by {
                let j = index_of(seq, id);
                assert(roots@.contains_key(seq[j].0));
            }
            assert(roots@ =~= want.roots);
            assert(attractors@ =~= want.attractors);
        }
        ClientView {
            rules: self.rules,
            current_depth: self.current_depth,
            minerals: self.minerals,
            tiles,
            roots,
            attractors,
        }
    }

    /// The changes since the last call as a view. The record of changes is
    /// empty afterwards; the world itself stays as it is.
    pub fn get_client_view_update(&mut self) -> (view: ClientView)
        ensures
            view@ == old(self)@.pending_view(),
            final(self)@ == old(self)@.get_client_view_update(),
            final(self).inv() == old(self).inv(),
    {
        let tiles = self.client_view_update.tiles.take();
        let roots = self.client_view_update.roots.take();
        let mut attractors: Vec<ViewEvent<Attractor>> = Vec::new();
        core::mem::swap(&mut attractors, &mut self.client_view_update.attractors);
        ClientView {
            rules: self.rules,
            current_depth: self.current_depth,
            minerals: self.minerals,
            tiles,
            roots,
            attractors,
        }
    }
}

} // verus!
