use vstd::prelude::*;
use crate::fixed::Fixed;
use crate::rules::Rules;
use crate::vector::Vec2;

verus! {

/// A cell of the grid. `y` is the depth.
#[derive(Debug, Clone, Copy, PartialEq, Eq, Hash, Structural)]
pub struct Position {
    pub x: i32,
    pub y: i32,
}

/// A rectangle of cells, both ends of each side included.
#[derive(Debug, Clone, Copy, PartialEq, Eq, Structural)]
pub struct Area {
    pub x_min: i32,
    pub x_max: i32,
    pub y_min: i32,
    pub y_max: i32,
}

impl Area {
    /// The rectangle between two opposite corners, given in any order.
    pub open spec fn spec_from_corners(a: Position, b: Position) -> Area {
        Area {
            x_min: if a.x <= b.x { a.x } else { b.x },
            x_max: if a.x <= b.x { b.x } else { a.x },
            y_min: if a.y <= b.y { a.y } else { b.y },
            y_max: if a.y <= b.y { b.y } else { a.y },
        }
    }

    /// Whether the cell lies in the rectangle.
    pub open spec fn contains(&self, p: Position) -> bool {
        self.x_min <= p.x <= self.x_max && self.y_min <= p.y <= self.y_max
    }

    /// The rectangle between two opposite corners, given in any order.
    #[verifier::when_used_as_spec(spec_from_corners)]
    pub fn from_corners(a: Position, b: Position) -> (r: Area)
        ensures
            r == Area::spec_from_corners(a, b),
    {
        Area {
            x_min: if a.x <= b.x { a.x } else { b.x },
            x_max: if a.x <= b.x { b.x } else { a.x },
            y_min: if a.y <= b.y { a.y } else { b.y },
            y_max: if a.y <= b.y { b.y } else { a.y },
        }
    }
}

/// What a cell holds.
#[derive(Debug, Clone, Copy, PartialEq, Eq, Structural)]
pub enum Tile {
    Dirt,
    Stone,
    Mineral { minerals: Fixed },
}

impl Tile {
    /// A deposit holds between nothing and the ceiling that the rules set.
    pub open spec fn within(&self, rules: Rules) -> bool {
        match *self {
            Tile::Mineral { minerals } => 0 <= minerals.raw <= rules.mineral_richness.raw,
            _ => true,
        }
    }

    /// How much can be drained from the cell.
    pub open spec fn amount(&self) -> int {
        match *self {
            Tile::Mineral { minerals } => minerals.raw as int,
            _ => 0,
        }
    }
}

impl Rules {
    /// The tile for a pair of noise samples. The mineral sample is looked at
    /// first: a sample at or below the mineral threshold makes a deposit, the
    /// richer the further below the threshold, but never under one whole
    /// mineral nor over the ceiling. Else a terrain sample at or below the
    /// stone threshold makes stone, and the rest is dirt.
    pub open spec fn spec_tile_from_noise_value(
        &self,
        mineral_noise: Fixed,
        terrain_noise: Fixed,
    ) -> Tile {
        if mineral_noise.raw <= self.mineral_frequency.raw {
            Tile::Mineral {
                minerals: Fixed { raw: 1_000_000 }.minus(
                    mineral_noise.over(self.mineral_frequency),
                ).times(self.mineral_richness).max(Fixed { raw: 1_000_000 }).min(
                    self.mineral_richness,
                ),
            }
        } else if terrain_noise.raw <= self.stone_frequency.raw {
            Tile::Stone
        } else {
            Tile::Dirt
        }
    }

    /// The tile for a pair of noise samples: a deposit where the mineral sample
    /// is at or below its threshold, else stone where the terrain sample is at
    /// or below its threshold, else dirt.
    #[verifier::when_used_as_spec(spec_tile_from_noise_value)]
    pub fn tile_from_noise_value(&self, mineral_noise: Fixed, terrain_noise: Fixed) -> (tile: Tile)
        requires
            self.wf(),
        ensures
            tile == self.spec_tile_from_noise_value(mineral_noise, terrain_noise),
            tile.within(*self),
            tile is Mineral ==> tile.amount() >= 1_000_000,
    {
        if mineral_noise.raw <= self.mineral_frequency.raw {
            let one = Fixed { raw: 1_000_000 };
            let share = one.minus(mineral_noise.over(self.mineral_frequency));
            Tile::Mineral {
                minerals: share.times(self.mineral_richness).max(one).min(self.mineral_richness),
            }
        } else if terrain_noise.raw <= self.stone_frequency.raw {
            Tile::Stone
        } else {
            Tile::Dirt
        }
    }
}

/// The cell that a point lies in.
pub open spec fn spec_get_tile_pos(pos: Vec2) -> Position {
    Position { x: pos.x.floor(), y: pos.y.floor() }
}

/// The cell that a point lies in.
#[verifier::when_used_as_spec(spec_get_tile_pos)]
pub fn get_tile_pos(pos: Vec2) -> (r: Position)
    ensures
        r == spec_get_tile_pos(pos),
{
    Position { x: pos.x.floor(), y: pos.y.floor() }
}

/// Whether two cells touch at a side or a corner.
pub open spec fn adjacent(a: Position, b: Position) -> bool {
    &&& a != b
    &&& -1 <= a.x - b.x <= 1
    &&& -1 <= a.y - b.y <= 1
}

/// `cells` with the cell at `(x, y)` added behind, where the grid has such a cell.
pub open spec fn with_cell(cells: Seq<Position>, x: int, y: int) -> Seq<Position> {
    if i32::MIN <= x <= i32::MAX && i32::MIN <= y <= i32::MAX {
        cells.push(Position { x: x as i32, y: y as i32 })
    } else {
        cells
    }
}

/// The cells around `pos`, column by column from the left, each column from
/// the shallow end. At the rim of the grid there are fewer than eight.
pub open spec fn spec_get_neighbours(pos: Position) -> Seq<Position> {
    let s0 = Seq::<Position>::empty();
    let s1 = with_cell(s0, pos.x - 1, pos.y - 1);
    let s2 = with_cell(s1, pos.x - 1, pos.y as int);
    let s3 = with_cell(s2, pos.x - 1, pos.y + 1);
    let s4 = with_cell(s3, pos.x as int, pos.y - 1);
    let s5 = with_cell(s4, pos.x as int, pos.y + 1);
    let s6 = with_cell(s5, pos.x + 1, pos.y - 1);
    let s7 = with_cell(s6, pos.x + 1, pos.y as int);
    with_cell(s7, pos.x + 1, pos.y + 1)
}

fn push_cell(cells: &mut Vec<Position>, x: i64, y: i64)
    ensures
        final(cells)@ == with_cell(old(cells)@, x as int, y as int),
{
    if i32::MIN as i64 <= x && x <= i32::MAX as i64 && i32::MIN as i64 <= y && y <= i32::MAX as i64 {
        cells.push(Position { x: x as i32, y: y as i32 });
    }
}

/// The cells around `pos`, column by column from the left. The cell itself is
/// not among them.
pub fn get_neighbours(pos: Position) -> (r: Vec<Position>)
    ensures
        r@ == spec_get_neighbours(pos),
{
    let x: i64 = pos.x as i64;
    let y: i64 = pos.y as i64;
    let mut cells: Vec<Position> = Vec::new();
    push_cell(&mut cells, x - 1, y - 1);
    push_cell(&mut cells, x - 1, y);
    push_cell(&mut cells, x - 1, y + 1);
    push_cell(&mut cells, x, y - 1);
    push_cell(&mut cells, x, y + 1);
    push_cell(&mut cells, x + 1, y - 1);
    push_cell(&mut cells, x + 1, y);
    push_cell(&mut cells, x + 1, y + 1);
    cells
}

/// The list of neighbours holds exactly the cells that touch `pos`, each once.
pub proof fn lemma_neighbours_are_adjacent(pos: Position)
    ensures
        forall|q: Position| spec_get_neighbours(pos).contains(q) <==> adjacent(pos, q),
        spec_get_neighbours(pos).no_duplicates(),
        spec_get_neighbours(pos).len() <= 8,
{
    let s0 = Seq::<Position>::empty();
    let s1 = with_cell(s0, pos.x - 1, pos.y - 1);
    let s2 = with_cell(s1, pos.x - 1, pos.y as int);
    let s3 = with_cell(s2, pos.x - 1, pos.y + 1);
    let s4 = with_cell(s3, pos.x as int, pos.y - 1);
    let s5 = with_cell(s4, pos.x as int, pos.y + 1);
    let s6 = with_cell(s5, pos.x + 1, pos.y - 1);
    let s7 = with_cell(s6, pos.x + 1, pos.y as int);
    let s8 = with_cell(s7, pos.x + 1, pos.y + 1);
    lemma_with_cell(s0, pos.x - 1, pos.y - 1);
    lemma_with_cell(s1, pos.x - 1, pos.y as int);
    lemma_with_cell(s2, pos.x - 1, pos.y + 1);
    lemma_with_cell(s3, pos.x as int, pos.y - 1);
    lemma_with_cell(s4, pos.x as int, pos.y + 1);
    lemma_with_cell(s5, pos.x + 1, pos.y - 1);
    lemma_with_cell(s6, pos.x + 1, pos.y as int);
    lemma_with_cell(s7, pos.x + 1, pos.y + 1);
    assert forall|q: Position| s8.contains(q) <==> adjacent(pos, q) by {
        if adjacent(pos, q) {
            assert(at(q, q.x as int, q.y as int));
        }
    }
    assert(s8.no_duplicates());
}

/// Whether the cell has these coordinates.
pub open spec fn at(q: Position, x: int, y: int) -> bool {
    q.x == x && q.y == y
}

/// What `with_cell` does to membership, to the length and to repetition.
proof fn lemma_with_cell(cells: Seq<Position>, x: int, y: int)
    ensures
        forall|q: Position|
            #![trigger with_cell(cells, x, y).contains(q)]
            with_cell(cells, x, y).contains(q) <==> cells.contains(q) || at(q, x, y),
        with_cell(cells, x, y).len() <= cells.len() + 1,
        cells.no_duplicates() && (forall|q: Position| cells.contains(q) ==> !at(q, x, y))
            ==> with_cell(cells, x, y).no_duplicates(),
{
    let r = with_cell(cells, x, y);
    if i32::MIN <= x <= i32::MAX && i32::MIN <= y <= i32::MAX {
        let p = Position { x: x as i32, y: y as i32 };
        assert forall|q: Position| r.contains(q) <==> cells.contains(q) || at(q, x, y) by {
            if r.contains(q) {
                let i = choose|i: int| 0 <= i < r.len() && r[i] == q;
                if i < cells.len() {
                    assert(cells[i] == q);
                }
            }
            if cells.contains(q) {
                let i = choose|i: int| 0 <= i < cells.len() && cells[i] == q;
                assert(r[i] == q);
            }
            if at(q, x, y) {
                assert(r[cells.len() as int] == q);
            }
        }
        if cells.no_duplicates() && (forall|q: Position| cells.contains(q) ==> !at(q, x, y)) {
            assert forall|i: int, j: int| 0 <= i < r.len() && 0 <= j < r.len() && i != j implies r[i]
                != r[j] by {
                if i < cells.len() {
                    assert(cells.contains(r[i]));
                }
                if j < cells.len() {
                    assert(cells.contains(r[j]));
                }
            }
        }
    } else {
        assert forall|q: Position| r.contains(q) <==> cells.contains(q) || at(q, x, y) by {}
    }
}

} // verus!
