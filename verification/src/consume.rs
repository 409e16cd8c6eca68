use vstd::prelude::*;
use crate::client_view::{Snapshot, ViewEvent};
use crate::drain::{lemma_drain_ledger, lemma_step_progress, no_debt, stacked, Drain};
use crate::fixed::Fixed;
use crate::grid::Grid;
use crate::model::Model;
use crate::tile::{get_neighbours, Position, Tile};
use crate::world::World;

verus! {

/// Draining leaves the world sound, and never takes more than the budget.
pub proof fn lemma_consume_inv(w: World, position: Position, limit: Fixed)
    requires
        w.inv(),
    ensures
        w.consume(position, limit).0.inv(),
        0 <= w.consume(position, limit).1.raw <= limit.max(Fixed { raw: 0 }).raw,
{
    let end = Drain::start(w.tiles, w.changes.tiles, position, limit).run();
    let after = w.consume(position, limit).0;
    assert(no_debt(w.tiles)) by {
        assert forall|p: Position| w.tiles.contains_key(p) implies (#[trigger] w.tiles[p]).amount()
            >= 0 by {
            assert(w.tiles[p].within(w.rules));
        }
    }
    lemma_drain_ledger(w.tiles, w.changes.tiles, position, limit);
    assert forall|p: Position| after.tiles.contains_key(p) implies (#[trigger] after.tiles[p]).within(
        after.rules,
    ) by {
        assert(w.tiles.contains_key(p));
        assert(w.tiles[p].within(w.rules));
        if end.visited.contains(p) {
            assert(end.in_log(p));
            let i = choose|i: int| 0 <= i < end.log.len() && (#[trigger] end.log[i]).0 == p;
            assert(end.logged(w.tiles, end.log[i]));
        } else {
            assert(end.tiles[p] == w.tiles[p]);
        }
    }
}

impl Model {
    /// Drains deposits by a flood fill that starts at `position` and spends
    /// at most `limit`. A deposit gives up what it holds as far as the budget
    /// goes; while budget is left the fill goes on to the cells around it,
    /// and no cell is drained twice. What was drained goes to the pool, and
    /// is returned.
    pub fn consume(&mut self, position: Position, limit: Fixed) -> (consumed: Fixed)
        requires
            old(self).inv(),
        ensures
            final(self)@ == old(self)@.consume(position, limit).0,
            consumed == old(self)@.consume(position, limit).1,
            0 <= consumed.raw <= limit.max(Fixed { raw: 0 }).raw,
            final(self).inv(),
    {
        let ghost start = self@;
        let ghost first = Drain::start(start.tiles, start.changes.tiles, position, limit);
        let mut visited: Grid<bool> = Grid::new();
        let mut stack: Vec<Position> = Vec::new();
        stack.push(position);
        let mut left = limit.max(Fixed { raw: 0 });
        let mut consumed = Fixed { raw: 0 };
        let ghost mut log: Seq<(Position, Fixed)> = Seq::empty();
        proof {
            assert(visited@.dom() =~= Set::<Position>::empty());
            assert(stack@ =~= seq![position]);
        }
        while stack.len() > 0
            invariant
                self@ == (World {
                    tiles: self.tiles@,
                    changes: Snapshot { tiles: self.client_view_update.tiles@, ..start.changes },
                    ..start
                }),
                self.tiles@.dom().finite(),
                (Drain {
                    tiles: self.tiles@,
                    changes: self.client_view_update.tiles@,
                    visited: visited@.dom(),
                    stack: stack@,
                    limit: left,
                    consumed,
                    log,
                }).run() == first.run(),
            decreases self.tiles@.dom().difference(visited@.dom()).len(), stack@.len(),
        {
            let ghost before = Drain {
                tiles: self.tiles@,
                changes: self.client_view_update.tiles@,
                visited: visited@.dom(),
                stack: stack@,
                limit: left,
                consumed,
                log,
            };
            proof {
                lemma_step_progress(before);
                assert(before.run() == before.step().run());
            }
            let p = stack.pop().unwrap();
            let ghost rest = stack@;
            assert(rest == before.stack.drop_last());
            let found = self.tile(p);
            if !visited.contains(p) {
                if let Some(Tile::Mineral { minerals }) = found {
                    let take = minerals.min(left);
                    let tile = Tile::Mineral { minerals: minerals.minus(take) };
                    left = left.minus(take);
                    consumed = consumed.plus(take);
                    visited.insert(p, true);
                    self.tiles.insert(p, tile);
                    self.client_view_update.tiles.insert(p, ViewEvent::Changed(tile));
                    proof {
                        log = log.push((p, take));
                        assert(visited@.dom() =~= before.visited.insert(p));
                    }
                    if left.raw > 0 {
                        let around = get_neighbours(p);
                        let mut j: usize = around.len();
                        while j > 0
                            invariant
                                j <= around@.len(),
                                stack@ == stacked(rest, around@, j as int),
                            decreases j,
                        {
                            j -= 1;
                            stack.push(around[j]);
                        }
                    } else {
                        stack.clear();
                        assert(stack@ =~= Seq::<Position>::empty());
                    }
                }
            }
            proof {
                let now = Drain {
                    tiles: self.tiles@,
                    changes: self.client_view_update.tiles@,
                    visited: visited@.dom(),
                    stack: stack@,
                    limit: left,
                    consumed,
                    log,
                };
                assert(now == before.step());
            }
        }
        self.minerals = self.minerals.plus(consumed);
        proof {
            lemma_consume_inv(start, position, limit);
        }
        consumed
    }
}

} // verus!
