use std::collections::HashMap;
use vstd::prelude::*;
use vstd::std_specs::iter::IteratorSpec;
use crate::tile::Position;

verus! {

broadcast use vstd::std_specs::hash::group_hash_axioms;

/// The number that stands for a cell in the table: the two coordinates,
/// shifted to start at zero, side by side.
pub open spec fn key_of(p: Position) -> u64 {
    ((p.x - i32::MIN) * 0x1_0000_0000 + (p.y - i32::MIN)) as u64
}

/// The cell that a number stands for.
pub open spec fn cell_of(k: u64) -> Position {
    Position { x: (k / 0x1_0000_0000 + i32::MIN) as i32, y: (k % 0x1_0000_0000 + i32::MIN) as i32 }
}

/// Cells and numbers correspond one to one.
pub proof fn lemma_key_round_trip()
    ensures
        forall|p: Position| #[trigger] cell_of(key_of(p)) == p,
        forall|k: u64| #[trigger] key_of(cell_of(k)) == k,
{
    assert forall|p: Position| #[trigger] cell_of(key_of(p)) == p by {
        let a = p.x - i32::MIN;
        let b = p.y - i32::MIN;
        let k = a * 0x1_0000_0000 + b;
        assert(k / 0x1_0000_0000 == a && k % 0x1_0000_0000 == b) by (nonlinear_arith)
            requires
                0 <= b < 0x1_0000_0000,
                0 <= a,
                k == a * 0x1_0000_0000 + b,
        ;
    }
    assert forall|k: u64| #[trigger] key_of(cell_of(k)) == k by {
        let a = k / 0x1_0000_0000;
        let b = k % 0x1_0000_0000;
        assert(a * 0x1_0000_0000 + b == k && 0 <= a < 0x1_0000_0000 && 0 <= b < 0x1_0000_0000)
            by (nonlinear_arith)
            requires
                a == k / 0x1_0000_0000,
                b == k % 0x1_0000_0000,
                0 <= k < 0x1_0000_0000_0000_0000,
        ;
    }
}

fn encode(p: Position) -> (k: u64)
    ensures
        k == key_of(p),
{
    let a: u64 = (p.x as i64 - i32::MIN as i64) as u64;
    let b: u64 = (p.y as i64 - i32::MIN as i64) as u64;
    a * 0x1_0000_0000 + b
}

fn decode(k: u64) -> (p: Position)
    ensures
        p == cell_of(k),
{
    let a: u64 = k / 0x1_0000_0000;
    let b: u64 = k % 0x1_0000_0000;
    assert(a < 0x1_0000_0000) by (nonlinear_arith)
        requires
            a == k / 0x1_0000_0000,
            0 <= k < 0x1_0000_0000_0000_0000,
    ;
    Position { x: (a as i64 + i32::MIN as i64) as i32, y: (b as i64 + i32::MIN as i64) as i32 }
}

/// A sparse table from cells to values: every cell holds one value or none.
pub struct Grid<V> {
    cells: HashMap<u64, V>,
}

impl<V> View for Grid<V> {
    type V = Map<Position, V>;

    closed spec fn view(&self) -> Map<Position, V> {
        Map::new(
            |p: Position| self.cells@.contains_key(key_of(p)),
            |p: Position| self.cells@[key_of(p)],
        )
    }
}

impl<V> Grid<V> {
    /// Only finitely many cells are occupied.
    pub proof fn lemma_finite(&self)
        ensures
            self@.dom().finite(),
    {
        lemma_key_round_trip();
        let keys = self.cells@.dom();
        let f = |k: u64| cell_of(k);
        keys.lemma_map_finite(f);
        assert(self@.dom() =~= keys.map(f)) by {
            assert forall|p: Position| self@.dom().contains(p) implies keys.map(f).contains(p) by {
                assert(keys.contains(key_of(p)) && f(key_of(p)) == p);
            }
        }
    }

    /// A table in which no cell holds a value.
    pub fn new() -> (r: Self)
        ensures
            r@ == Map::<Position, V>::empty(),
    {
        let r = Grid { cells: HashMap::new() };
        assert(r@ =~= Map::<Position, V>::empty());
        r
    }

    /// The value of the cell, where it holds one.
    pub fn get(&self, p: Position) -> (r: Option<&V>)
        ensures
            match r {
                Some(v) => self@.contains_key(p) && *v == self@[p],
                None => !self@.contains_key(p),
            },
    {
        let k: u64 = encode(p);
        self.cells.get(&k)
    }

    /// Whether the cell holds a value.
    pub fn contains(&self, p: Position) -> (r: bool)
        ensures
            r == self@.contains_key(p),
    {
        let k: u64 = encode(p);
        self.cells.contains_key(&k)
    }

    /// The cell holds `v` from now on, whatever it held.
    pub fn insert(&mut self, p: Position, v: V)
        ensures
            final(self)@ == old(self)@.insert(p, v),
    {
        let k: u64 = encode(p);
        self.cells.insert(k, v);
        proof {
            lemma_key_round_trip();
            assert(self@ =~= old(self)@.insert(p, v));
        }
    }

    /// The cell holds nothing from now on.
    pub fn remove(&mut self, p: Position)
        ensures
            final(self)@ == old(self)@.remove(p),
    {
        let k: u64 = encode(p);
        self.cells.remove(&k);
        proof {
            lemma_key_round_trip();
            assert(self@ =~= old(self)@.remove(p));
        }
    }

    /// Empties the table and returns what it held.
    pub fn take(&mut self) -> (r: Self)
        ensures
            r@ == old(self)@,
            final(self)@ == Map::<Position, V>::empty(),
    {
        let mut held = Grid::new();
        core::mem::swap(self, &mut held);
        held
    }

    /// The occupied cells, each once, in no particular order.
    pub fn positions(&self) -> (r: Vec<Position>)
        ensures
            r@.no_duplicates(),
            forall|p: Position| r@.contains(p) <==> self@.contains_key(p),
    {
        let mut out: Vec<Position> = Vec::new();
        let ghost keys: Seq<&u64> = self.cells.keys().remaining();
        proof {
            lemma_key_round_trip();
        }
        for k in it: self.cells.keys()
            invariant
                it.seq() == keys,
                out@.len() == it.index(),
                forall|i: int| 0 <= i < out@.len() ==> out@[i] == cell_of(*keys[i]),
        {
            out.push(decode(*k));
        }
        proof {
            assert(keys.unref().to_set() == self.cells@.dom());
            assert forall|p: Position| out@.contains(p) <==> self@.contains_key(p) by {
                if out@.contains(p) {
                    let i = choose|i: int| 0 <= i < out@.len() && out@[i] == p;
                    assert(keys.unref()[i] == *keys[i]);
                    assert(keys.unref().to_set().contains(*keys[i]));
                }
                if self@.contains_key(p) {
                    assert(keys.unref().to_set().contains(key_of(p)));
                    let i = choose|i: int| 0 <= i < keys.unref().len() && keys.unref()[i] == key_of(p);
                    assert(keys.unref()[i] == *keys[i]);
                    assert(out@[i] == p);
                }
            }
            assert forall|i: int, j: int| 0 <= i < out@.len() && 0 <= j < out@.len() && i != j implies out@[i] != out@[j] by {
                assert(keys.unref()[i] == *keys[i]);
                assert(keys.unref()[j] == *keys[j]);
                assert(keys[i] != keys[j]);
            }
        }
        out
    }
}

} // verus!
