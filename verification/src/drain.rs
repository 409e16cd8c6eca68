use vstd::prelude::*;
use crate::client_view::ViewEvent;
use crate::fixed::Fixed;
use crate::tile::{adjacent, lemma_neighbours_are_adjacent, spec_get_neighbours, Position, Tile};

verus! {

/// `stack` with the cells of `cells` from place `from` on laid on top, the
/// last cell first, so that the cell at place `from` lies uppermost.
pub open spec fn stacked(stack: Seq<Position>, cells: Seq<Position>, from: int) -> Seq<Position>
    decreases cells.len() - from,
{
    if from >= cells.len() || from < 0 {
        stack
    } else {
        stacked(stack, cells, from + 1).push(cells[from])
    }
}

/// The state of a flood fill that drains deposits under a budget.
pub struct Drain {
    /// The tiles as they are now.
    pub tiles: Map<Position, Tile>,
    /// The record of changed tiles.
    pub changes: Map<Position, ViewEvent<Tile>>,
    /// The cells that were drained, which are not looked at again.
    pub visited: Set<Position>,
    /// The cells still to look at, the next one last.
    pub stack: Seq<Position>,
    /// What is left of the budget.
    pub limit: Fixed,
    /// What was drained so far.
    pub consumed: Fixed,
    /// Each drained cell with what was taken from it, in the order of the visits.
    pub log: Seq<(Position, Fixed)>,
}

impl Drain {
    /// The state before the first cell is looked at. A budget below nothing counts as nothing.
    pub open spec fn start(
        tiles: Map<Position, Tile>,
        changes: Map<Position, ViewEvent<Tile>>,
        origin: Position,
        limit: Fixed,
    ) -> Drain {
        Drain {
            tiles,
            changes,
            visited: Set::empty(),
            stack: seq![origin],
            limit: limit.max(Fixed { raw: 0 }),
            consumed: Fixed { raw: 0 },
            log: Seq::empty(),
        }
    }

    /// Whether the next cell on the stack is a deposit that was not drained yet.
    pub open spec fn drains_next(self) -> bool {
        let p = self.stack.last();
        !self.visited.contains(p) && self.tiles.contains_key(p) && self.tiles[p] is Mineral
    }

    /// Looks at the next cell on the stack. A deposit that was not visited
    /// gives up what it holds, as far as the budget goes; then, if budget is
    /// left, its neighbours are put on the stack, else the search ends.
    /// Any other cell is passed over.
    pub open spec fn step(self) -> Drain {
        let p = self.stack.last();
        let rest = self.stack.drop_last();
        if self.drains_next() {
            let held = self.tiles[p]->minerals;
            let take = held.min(self.limit);
            let tile = Tile::Mineral { minerals: held.minus(take) };
            let limit = self.limit.minus(take);
            Drain {
                tiles: self.tiles.insert(p, tile),
                changes: self.changes.insert(p, ViewEvent::Changed(tile)),
                visited: self.visited.insert(p),
                stack: if limit.raw > 0 {
                    stacked(rest, spec_get_neighbours(p), 0)
                } else {
                    Seq::empty()
                },
                limit,
                consumed: self.consumed.plus(take),
                log: self.log.push((p, take)),
            }
        } else {
            Drain { stack: rest, ..self }
        }
    }

    /// The occupied cells that were not drained.
    pub open spec fn pending(self) -> Set<Position> {
        self.tiles.dom().difference(self.visited)
    }

    /// The state when no cell is left to look at.
    pub open spec fn run(self) -> Drain
        decreases self.pending().len(), self.stack.len(),
        when self.tiles.dom().finite()
    {
        if self.stack.len() == 0 {
            self
        } else {
            proof {
                lemma_step_progress(self);
            }
            self.step().run()
        }
    }
}

/// A step either drains a cell that was pending, or shortens the stack.
pub proof fn lemma_step_progress(d: Drain)
    requires
        d.tiles.dom().finite(),
        d.stack.len() > 0,
    ensures
        d.step().tiles.dom() == d.tiles.dom(),
        d.step().tiles.dom().finite(),
        d.drains_next() ==> d.step().pending().len() < d.pending().len(),
        !d.drains_next() ==> d.step().pending() == d.pending() && d.step().stack.len()
            < d.stack.len(),
{
    let p = d.stack.last();
    if d.drains_next() {
        assert(d.step().tiles.dom() =~= d.tiles.dom());
        assert(d.pending().contains(p));
        assert(d.step().pending() =~= d.pending().remove(p));
    }
}

/// The sum of what the log says was taken.
pub open spec fn taken(log: Seq<(Position, Fixed)>) -> int
    decreases log.len(),
{
    if log.len() == 0 {
        0
    } else {
        taken(log.drop_last()) + log.last().1.raw
    }
}

/// Whether no tile holds less than nothing.
pub open spec fn no_debt(tiles: Map<Position, Tile>) -> bool {
    forall|p: Position| tiles.contains_key(p) ==> (#[trigger] tiles[p]).amount() >= 0
}

impl Drain {
    /// Whether the log has an entry for the cell.
    pub open spec fn in_log(self, p: Position) -> bool {
        exists|i: int| 0 <= i < self.log.len() && (#[trigger] self.log[i]).0 == p
    }

    /// Whether the entry tells the truth: its cell was visited, was and is a
    /// deposit, and holds what it held at first less what the entry says.
    pub open spec fn logged(self, first: Map<Position, Tile>, entry: (Position, Fixed)) -> bool {
        let p = entry.0;
        &&& self.visited.contains(p)
        &&& first.contains_key(p)
        &&& first[p] is Mineral
        &&& self.tiles[p] is Mineral
        &&& 0 <= entry.1.raw
        &&& 0 <= self.tiles[p].amount()
        &&& entry.1.raw == first[p].amount() - self.tiles[p].amount()
    }

    /// The books of the flood fill balance against the tiles `first` that it
    /// started from and its budget: what was drained and what is left of the
    /// budget add up to the budget; what was drained is the sum of the log;
    /// the log names each visited cell once, with what the cell lost; and
    /// every other cell is as it was.
    pub open spec fn ledger(self, first: Map<Position, Tile>, budget: int) -> bool {
        &&& self.tiles.dom() == first.dom()
        &&& first.dom().finite()
        &&& 0 <= self.limit.raw
        &&& 0 <= self.consumed.raw
        &&& self.consumed.raw + self.limit.raw == budget
        &&& self.consumed.raw == taken(self.log)
        &&& forall|i: int, j: int|
            0 <= i < j < self.log.len() ==> (#[trigger] self.log[i]).0 != (#[trigger] self.log[j]).0
        &&& forall|i: int| 0 <= i < self.log.len() ==> self.logged(first, #[trigger] self.log[i])
        &&& forall|p: Position| #[trigger] self.visited.contains(p) ==> self.in_log(p)
        &&& forall|p: Position|
            first.contains_key(p) && !self.visited.contains(p) ==> #[trigger] self.tiles[p]
                == first[p]
    }
}

/// A step keeps the books balanced.
pub proof fn lemma_step_ledger(d: Drain, first: Map<Position, Tile>, budget: int)
    requires
        d.ledger(first, budget),
        no_debt(first),
        d.stack.len() > 0,
        budget <= i64::MAX,
    ensures
        d.step().ledger(first, budget),
{
    let n = d.step();
    let p = d.stack.last();
    if d.drains_next() {
        let held = d.tiles[p]->minerals;
        let take = held.min(d.limit);
        assert(d.tiles[p] == first[p]);
        assert(first[p].amount() >= 0);
        assert(0 <= take.raw <= held.raw && take.raw <= d.limit.raw);
        assert(n.tiles.dom() =~= first.dom());
        assert(n.log.drop_last() =~= d.log);
        assert(n.consumed.raw == taken(n.log));
        assert forall|i: int| 0 <= i < n.log.len() implies n.logged(first, #[trigger] n.log[i]) by {
            if i < d.log.len() {
                assert(d.logged(first, d.log[i]));
                assert(d.log[i].0 != p);
            }
        }
        assert forall|i: int, j: int| 0 <= i < j < n.log.len() implies (#[trigger] n.log[i]).0 != (
        #[trigger] n.log[j]).0 by {
            if j == d.log.len() {
                assert(d.logged(first, d.log[i]));
            }
        }
        assert forall|q: Position| #[trigger] n.visited.contains(q) implies n.in_log(q) by {
            if q == p {
                assert(n.log[d.log.len() as int].0 == p);
            } else {
                assert(d.visited.contains(q));
                let i = choose|i: int| 0 <= i < d.log.len() && (#[trigger] d.log[i]).0 == q;
                assert(n.log[i].0 == q);
            }
        }
    } else {
        assert forall|i: int| 0 <= i < n.log.len() implies n.logged(first, #[trigger] n.log[i]) by {
            assert(d.logged(first, d.log[i]));
        }
        assert forall|q: Position| #[trigger] n.visited.contains(q) implies n.in_log(q) by {
            assert(d.visited.contains(q));
            let i = choose|i: int| 0 <= i < d.log.len() && (#[trigger] d.log[i]).0 == q;
            assert(n.log[i].0 == q);
        }
    }
}

/// The whole flood fill keeps the books balanced, and ends with nothing left to look at.
pub proof fn lemma_run_ledger(d: Drain, first: Map<Position, Tile>, budget: int)
    requires
        d.ledger(first, budget),
        no_debt(first),
        budget <= i64::MAX,
    ensures
        d.run().ledger(first, budget),
        d.run().stack.len() == 0,
    decreases d.pending().len(), d.stack.len(),
{
    if d.stack.len() > 0 {
        lemma_step_progress(d);
        lemma_step_ledger(d, first, budget);
        lemma_run_ledger(d.step(), first, budget);
    }
}

/// The flood fill from its start: the books balance at the end.
pub proof fn lemma_drain_ledger(
    tiles: Map<Position, Tile>,
    changes: Map<Position, ViewEvent<Tile>>,
    origin: Position,
    limit: Fixed,
)
    requires
        tiles.dom().finite(),
        no_debt(tiles),
    ensures
        Drain::start(tiles, changes, origin, limit).run().ledger(
            tiles,
            limit.max(Fixed { raw: 0 }).raw as int,
        ),
        Drain::start(tiles, changes, origin, limit).run().stack.len() == 0,
{
    let d = Drain::start(tiles, changes, origin, limit);
    assert(d.ledger(tiles, limit.max(Fixed { raw: 0 }).raw as int));
    lemma_run_ledger(d, tiles, limit.max(Fixed { raw: 0 }).raw as int);
}

/// Whether the cell holds a deposit.
pub open spec fn deposit(tiles: Map<Position, Tile>, p: Position) -> bool {
    tiles.contains_key(p) && tiles[p] is Mineral
}

/// Whether the cells of `path` are deposits, each touching the next.
pub open spec fn vein(tiles: Map<Position, Tile>, path: Seq<Position>) -> bool {
    &&& forall|i: int| 0 <= i < path.len() ==> deposit(tiles, #[trigger] path[i])
    &&& forall|i: int| 0 <= i < path.len() - 1 ==> adjacent(#[trigger] path[i], path[i + 1])
}

/// Whether the cell was drained or waits on the stack.
pub open spec fn seen(d: Drain, p: Position) -> bool {
    d.visited.contains(p) || d.stack.contains(p)
}

impl Drain {
    /// While budget is left, the flood fill has missed nothing: the origin
    /// and every deposit next to a drained cell was drained or waits on the
    /// stack, and every drained cell is empty.
    pub open spec fn flooding(self, first: Map<Position, Tile>, origin: Position) -> bool {
        self.limit.raw > 0 ==> {
            &&& deposit(first, origin) ==> seen(self, origin)
            &&& forall|v: Position, q: Position|
                #![trigger self.visited.contains(v), adjacent(v, q)]
                self.visited.contains(v) && adjacent(v, q) && deposit(first, q) ==> seen(self, q)
            &&& forall|v: Position| #[trigger]
                self.visited.contains(v) ==> self.tiles[v].amount() == 0
        }
    }
}

/// What lies on the stack after cells were laid on it.
pub proof fn lemma_stacked_contains(stack: Seq<Position>, cells: Seq<Position>, from: int)
    requires
        0 <= from <= cells.len(),
    ensures
        forall|q: Position| #[trigger] stack.contains(q) ==> stacked(stack, cells, from).contains(q),
        forall|k: int|
            from <= k < cells.len() ==> stacked(stack, cells, from).contains(#[trigger] cells[k]),
    decreases cells.len() - from,
{
    if from < cells.len() {
        lemma_stacked_contains(stack, cells, from + 1);
        let below = stacked(stack, cells, from + 1);
        let all = stacked(stack, cells, from);
        assert(all == below.push(cells[from]));
        assert forall|q: Position| #[trigger] stack.contains(q) implies all.contains(q) by {
            assert(below.contains(q));
            let i = choose|i: int| 0 <= i < below.len() && below[i] == q;
            assert(all[i] == q);
        }
        assert forall|k: int| from <= k < cells.len() implies all.contains(#[trigger] cells[k]) by {
            if k == from {
                assert(all[below.len() as int] == cells[k]);
            } else {
                assert(below.contains(cells[k]));
                let i = choose|i: int| 0 <= i < below.len() && below[i] == cells[k];
                assert(all[i] == cells[k]);
            }
        }
    }
}

/// A step of the flood fill misses nothing.
pub proof fn lemma_step_flooding(
    d: Drain,
    first: Map<Position, Tile>,
    budget: int,
    origin: Position,
)
    requires
        d.ledger(first, budget),
        d.flooding(first, origin),
        no_debt(first),
        d.stack.len() > 0,
        budget <= i64::MAX,
    ensures
        d.step().flooding(first, origin),
        d.step().limit.raw <= d.limit.raw,
{
    let n = d.step();
    let p = d.stack.last();
    let rest = d.stack.drop_last();
    lemma_step_ledger(d, first, budget);
    assert(d.stack[d.stack.len() - 1] == p);
    assert forall|q: Position| d.stack.contains(q) && q != p implies rest.contains(q) by {
        let i = choose|i: int| 0 <= i < d.stack.len() && d.stack[i] == q;
        assert(rest[i] == q);
    }
    if n.limit.raw > 0 {
        if d.drains_next() {
            let around = spec_get_neighbours(p);
            lemma_neighbours_are_adjacent(p);
            lemma_stacked_contains(rest, around, 0);
            assert(d.tiles[p] == first[p]);
            assert(n.tiles[p].amount() == 0);
            assert forall|q: Position| seen(d, q) implies seen(n, q) by {
                if d.stack.contains(q) && q != p {
                    assert(rest.contains(q));
                }
            }
            assert forall|v: Position, q: Position|
                #![trigger n.visited.contains(v), adjacent(v, q)]
                n.visited.contains(v) && adjacent(v, q) && deposit(first, q) implies seen(n, q) by {
                if v == p {
                    assert(around.contains(q));
                    let k = choose|k: int| 0 <= k < around.len() && around[k] == q;
                    assert(n.stack.contains(around[k]));
                } else {
                    assert(d.visited.contains(v));
                    assert(seen(d, q));
                }
            }
            assert forall|v: Position| #[trigger] n.visited.contains(v) implies n.tiles[v].amount()
                == 0 by {
                if v != p {
                    assert(d.visited.contains(v));
                }
            }
        } else {
            assert forall|q: Position| seen(d, q) && deposit(first, q) implies seen(n, q) by {
                if d.stack.contains(q) && q != p {
                    assert(rest.contains(q));
                }
                if q == p && !d.visited.contains(p) {
                    assert(d.tiles[p] == first[p]);
                }
            }
            assert forall|v: Position, q: Position|
                #![trigger n.visited.contains(v), adjacent(v, q)]
                n.visited.contains(v) && adjacent(v, q) && deposit(first, q) implies seen(n, q) by {
                assert(seen(d, q));
            }
        }
    }
}

/// The whole flood fill misses nothing, and never gains budget.
pub proof fn lemma_run_flooding(
    d: Drain,
    first: Map<Position, Tile>,
    budget: int,
    origin: Position,
)
    requires
        d.ledger(first, budget),
        d.flooding(first, origin),
        no_debt(first),
        budget <= i64::MAX,
    ensures
        d.run().flooding(first, origin),
        d.run().ledger(first, budget),
        d.run().stack.len() == 0,
        d.run().limit.raw <= d.limit.raw,
    decreases d.pending().len(), d.stack.len(),
{
    if d.stack.len() > 0 {
        lemma_step_progress(d);
        lemma_step_ledger(d, first, budget);
        lemma_step_flooding(d, first, budget, origin);
        lemma_run_flooding(d.step(), first, budget, origin);
    }
}

/// Where budget is left when the flood fill ends, every deposit that a vein
/// joins to the origin is empty.
pub proof fn lemma_flood_empties_the_vein(
    tiles: Map<Position, Tile>,
    changes: Map<Position, ViewEvent<Tile>>,
    origin: Position,
    limit: Fixed,
    path: Seq<Position>,
)
    requires
        tiles.dom().finite(),
        no_debt(tiles),
        vein(tiles, path),
        path.len() > 0,
        path[0] == origin,
        Drain::start(tiles, changes, origin, limit).run().limit.raw > 0,
    ensures
        forall|i: int|
            0 <= i < path.len() ==> Drain::start(tiles, changes, origin, limit).run().tiles[#[trigger] path[i]].amount()
                == 0,
{
    let d = Drain::start(tiles, changes, origin, limit);
    let budget = limit.max(Fixed { raw: 0 }).raw as int;
    assert(d.ledger(tiles, budget));
    assert(d.stack[0] == origin);
    assert(d.flooding(tiles, origin));
    lemma_run_flooding(d, tiles, budget, origin);
    let end = d.run();
    assert forall|q: Position| seen(end, q) implies end.visited.contains(q) by {}
    lemma_vein_is_visited(end, tiles, origin, path, path.len() - 1);
}

/// Along a vein from the origin every cell was drained, once the stack is
/// empty and budget is left.
proof fn lemma_vein_is_visited(
    end: Drain,
    first: Map<Position, Tile>,
    origin: Position,
    path: Seq<Position>,
    upto: int,
)
    requires
        end.flooding(first, origin),
        end.limit.raw > 0,
        end.stack.len() == 0,
        vein(first, path),
        path.len() > 0,
        path[0] == origin,
        0 <= upto < path.len(),
    ensures
        forall|i: int|
            0 <= i <= upto ==> end.visited.contains(#[trigger] path[i]) && end.tiles[path[i]].amount()
                == 0,
    decreases upto,
{
    assert(deposit(first, path[0]));
    assert(seen(end, origin));
    if upto > 0 {
        lemma_vein_is_visited(end, first, origin, path, upto - 1);
        assert(end.visited.contains(path[upto - 1]));
        assert(adjacent(path[upto - 1], path[upto - 1 + 1]));
        assert(deposit(first, path[upto]));
        assert(seen(end, path[upto]));
    }
}

} // verus!
