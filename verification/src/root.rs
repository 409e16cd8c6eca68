use vstd::prelude::*;
use crate::fixed::Fixed;
use crate::id::Id;
use crate::tile::Position;
use crate::vector::Vec2;

verus! {

/// What a root is doing.
#[derive(Debug, Clone, Copy, PartialEq, Eq)]
pub enum RootType {
    /// A segment left behind by a growing tip. It never changes again.
    Node,
    /// A tip that has stopped for good.
    Final,
    /// A tip that drains the deposit at `position`.
    Consumer { position: Position },
    /// A growing tip.
    Head { velocity: Vec2 },
}

/// A node of the root tree.
#[derive(Debug, Clone, Copy, PartialEq, Eq)]
pub struct Root {
    pub position: Vec2,
    /// The parent's identifier and where the parent was. The parent may be
    /// gone from the world; the genesis root has none.
    pub parent_root: Option<(Id, Vec2)>,
    pub root_type: RootType,
}

/// A target that pulls a growing tip towards it.
#[derive(Debug, Clone, Copy, PartialEq, Eq)]
pub struct Attractor {
    pub position: Vec2,
    /// The tip that steers towards the attractor, where one is assigned.
    pub root: Option<Id>,
}

/// Whether the depth `y` lies at or below the row `depth`.
pub open spec fn spec_reaches(y: Fixed, depth: i32) -> bool {
    y.raw >= depth * 1_000_000
}

/// Whether the depth `y` lies at or below the row `depth`.
#[verifier::when_used_as_spec(spec_reaches)]
pub fn reaches(y: Fixed, depth: i32) -> (r: bool)
    ensures
        r == spec_reaches(y, depth),
{
    y.raw >= (depth as i64) * 1_000_000
}

/// Whether the identifiers grow strictly along the sequence.
pub open spec fn ordered(s: Seq<(Id, Root)>) -> bool {
    forall|i: int, j: int| 0 <= i < j < s.len() ==> s[i].0.0 < s[j].0.0
}

/// Whether a root with this identifier is in the sequence.
pub open spec fn has_id(s: Seq<(Id, Root)>, id: Id) -> bool {
    exists|i: int| 0 <= i < s.len() && s[i].0 == id
}

/// Where the root with this identifier stands in the sequence.
pub open spec fn index_of(s: Seq<(Id, Root)>, id: Id) -> int {
    choose|i: int| 0 <= i < s.len() && s[i].0 == id
}

/// The root with this identifier, where there is one.
pub open spec fn lookup(s: Seq<(Id, Root)>, id: Id) -> Option<Root> {
    if has_id(s, id) {
        Some(s[index_of(s, id)].1)
    } else {
        None
    }
}

/// The roots at or below the row `depth`, in their order.
pub open spec fn kept_roots(s: Seq<(Id, Root)>, depth: i32) -> Seq<(Id, Root)>
    decreases s.len(),
{
    if s.len() == 0 {
        s
    } else if reaches(s.last().1.position.y, depth) {
        kept_roots(s.drop_last(), depth).push(s.last())
    } else {
        kept_roots(s.drop_last(), depth)
    }
}

/// The attractors at or below the row `depth`, in their order.
pub open spec fn kept_attractors(s: Seq<Attractor>, depth: i32) -> Seq<Attractor>
    decreases s.len(),
{
    if s.len() == 0 {
        s
    } else if reaches(s.last().position.y, depth) {
        kept_attractors(s.drop_last(), depth).push(s.last())
    } else {
        kept_attractors(s.drop_last(), depth)
    }
}

/// What is kept was there before, reaches the row, and keeps its order; and
/// all that reaches the row is kept.
pub proof fn lemma_kept_roots(s: Seq<(Id, Root)>, depth: i32)
    ensures
        forall|e: (Id, Root)| #[trigger]
            kept_roots(s, depth).contains(e) ==> s.contains(e) && reaches(e.1.position.y, depth),
        forall|e: (Id, Root)| #[trigger]
            s.contains(e) && reaches(e.1.position.y, depth) ==> kept_roots(s, depth).contains(e),
        ordered(s) ==> ordered(kept_roots(s, depth)),
        kept_roots(s, depth).len() <= s.len(),
    decreases s.len(),
{
    let k = kept_roots(s, depth);
    if s.len() == 0 {
    } else {
        let front = s.drop_last();
        let kf = kept_roots(front, depth);
        lemma_kept_roots(front, depth);
        assert forall|e: (Id, Root)|
            (k.contains(e) ==> s.contains(e) && reaches(e.1.position.y, depth)) && (s.contains(e)
                && reaches(e.1.position.y, depth) ==> k.contains(e)) by {
            if k.contains(e) {
                let i = choose|i: int| 0 <= i < k.len() && k[i] == e;
                if i < kf.len() {
                    assert(kf[i] == e);
                    assert(kf.contains(e));
                    let j = choose|j: int| 0 <= j < front.len() && front[j] == e;
                    assert(s[j] == e);
                } else {
                    assert(e == s.last());
                    assert(s[s.len() - 1] == e);
                }
            }
            if s.contains(e) && reaches(e.1.position.y, depth) {
                let j = choose|j: int| 0 <= j < s.len() && s[j] == e;
                if j < front.len() {
                    assert(front[j] == e);
                    assert(front.contains(e));
                    assert(kf.contains(e));
                    let i = choose|i: int| 0 <= i < kf.len() && kf[i] == e;
                    assert(k[i] == e);
                } else {
                    assert(k[k.len() - 1] == e);
                }
            }
        }
        if ordered(s) {
            assert(ordered(front));
            if reaches(s.last().1.position.y, depth) {
                assert forall|i: int, j: int| 0 <= i < j < k.len() implies k[i].0.0 < k[j].0.0 by {
                    if j == k.len() - 1 {
                        assert(kf.contains(kf[i]));
                        let m = choose|m: int| 0 <= m < front.len() && front[m] == kf[i];
                        assert(s[m] == kf[i]);
                    }
                }
            }
        }
    }
}

/// What is kept was there before and reaches the row.
pub proof fn lemma_kept_attractors(s: Seq<Attractor>, depth: i32)
    ensures
        forall|a: Attractor| #[trigger]
            kept_attractors(s, depth).contains(a) ==> s.contains(a) && reaches(a.position.y, depth),
        forall|a: Attractor| #[trigger]
            s.contains(a) && reaches(a.position.y, depth) ==> kept_attractors(s, depth).contains(a),
        kept_attractors(s, depth).len() <= s.len(),
    decreases s.len(),
{
    let k = kept_attractors(s, depth);
    if s.len() == 0 {
    } else {
        let front = s.drop_last();
        let kf = kept_attractors(front, depth);
        lemma_kept_attractors(front, depth);
        assert forall|e: Attractor|
            (k.contains(e) ==> s.contains(e) && reaches(e.position.y, depth)) && (s.contains(e)
                && reaches(e.position.y, depth) ==> k.contains(e)) by {
            if k.contains(e) {
                let i = choose|i: int| 0 <= i < k.len() && k[i] == e;
                if i < kf.len() {
                    assert(kf[i] == e);
                    assert(kf.contains(e));
                    let j = choose|j: int| 0 <= j < front.len() && front[j] == e;
                    assert(s[j] == e);
                } else {
                    assert(e == s.last());
                    assert(s[s.len() - 1] == e);
                }
            }
            if s.contains(e) && reaches(e.position.y, depth) {
                let j = choose|j: int| 0 <= j < s.len() && s[j] == e;
                if j < front.len() {
                    assert(front[j] == e);
                    assert(front.contains(e));
                    assert(kf.contains(e));
                    let i = choose|i: int| 0 <= i < kf.len() && kf[i] == e;
                    assert(k[i] == e);
                } else {
                    assert(k[k.len() - 1] == e);
                }
            }
        }
    }
}

/// The roots of the world, by identifier, in the order in which they were made.
pub struct RootMap {
    entries: Vec<(Id, Root)>,
}

impl View for RootMap {
    type V = Seq<(Id, Root)>;

    closed spec fn view(&self) -> Seq<(Id, Root)> {
        self.entries@
    }
}

impl RootMap {
    /// The identifiers grow along the sequence, so that none occurs twice.
    pub open spec fn wf(&self) -> bool {
        ordered(self@)
    }

    /// No roots.
    pub fn new() -> (r: Self)
        ensures
            r@ == Seq::<(Id, Root)>::empty(),
            r.wf(),
    {
        RootMap { entries: Vec::new() }
    }

    /// The number of roots.
    pub fn len(&self) -> (r: usize)
        ensures
            r == self@.len(),
    {
        self.entries.len()
    }

    /// The identifier of the root at place `i`.
    pub fn id_at(&self, i: usize) -> (r: Id)
        requires
            i < self@.len(),
        ensures
            r == self@[i as int].0,
    {
        self.entries[i].0
    }

    /// The root at place `i`.
    pub fn root_at(&self, i: usize) -> (r: Root)
        requires
            i < self@.len(),
        ensures
            r == self@[i as int].1,
    {
        self.entries[i].1
    }

    /// The place of the root with this identifier, where there is one.
    pub fn find(&self, id: Id) -> (r: Option<usize>)
        requires
            self.wf(),
        ensures
            match r {
                Some(i) => i < self@.len() && self@[i as int].0 == id && i == index_of(self@, id),
                None => !has_id(self@, id),
            },
    {
        let mut lo: usize = 0;
        let mut hi: usize = self.entries.len();
        while lo < hi
            invariant
                lo <= hi <= self.entries@.len(),
                ordered(self.entries@),
                forall|i: int| 0 <= i < lo ==> self.entries@[i].0.0 < id.0,
                forall|i: int| hi <= i < self.entries@.len() ==> self.entries@[i].0.0 > id.0,
            decreases hi - lo,
        {
            let mid: usize = lo + (hi - lo) / 2;
            let here: usize = self.entries[mid].0.0;
            if here == id.0 {
                proof {
                    let j = index_of(self@, id);
                    assert(self@[mid as int].0 == id);
                    if j < mid {
                        assert(self@[j].0.0 < self@[mid as int].0.0);
                    } else if j > mid {
                        assert(self@[mid as int].0.0 < self@[j].0.0);
                    }
                }
                return Some(mid);
            } else if here < id.0 {
                lo = mid + 1;
            } else {
                hi = mid;
            }
        }
        None
    }

    /// The root with this identifier, where there is one.
    pub fn get(&self, id: Id) -> (r: Option<Root>)
        requires
            self.wf(),
        ensures
            r == lookup(self@, id),
    {
        match self.find(id) {
            Some(i) => Some(self.entries[i].1),
            None => None,
        }
    }

    /// Adds a root under an identifier above all that are there.
    pub fn push(&mut self, id: Id, root: Root)
        requires
            old(self).wf(),
            forall|i: int| 0 <= i < old(self)@.len() ==> old(self)@[i].0.0 < id.0,
        ensures
            final(self)@ == old(self)@.push((id, root)),
            final(self).wf(),
    {
        self.entries.push((id, root));
    }

    /// Replaces the root at place `i`; its identifier stays.
    pub fn set_at(&mut self, i: usize, root: Root)
        requires
            old(self).wf(),
            i < old(self)@.len(),
        ensures
            final(self)@ == old(self)@.update(i as int, (old(self)@[i as int].0, root)),
            final(self).wf(),
    {
        let id = self.entries[i].0;
        self.entries[i] = (id, root);
    }

    /// Drops the roots above the row `depth`.
    pub fn retain_from(&mut self, depth: i32)
        requires
            old(self).wf(),
        ensures
            final(self)@ == kept_roots(old(self)@, depth),
            final(self).wf(),
    {
        let mut out: Vec<(Id, Root)> = Vec::new();
        let mut i: usize = 0;
        while i < self.entries.len()
            invariant
                i <= self.entries@.len(),
                out@ == kept_roots(self.entries@.take(i as int), depth),
            decreases self.entries@.len() - i,
        {
            let e = self.entries[i];
            proof {
                assert(self.entries@.take(i + 1).drop_last() =~= self.entries@.take(i as int));
                assert(self.entries@.take(i + 1).last() == e);
            }
            if reaches(e.1.position.y, depth) {
                out.push(e);
            }
            i += 1;
        }
        proof {
            assert(self.entries@.take(i as int) =~= self.entries@);
            lemma_kept_roots(self.entries@, depth);
        }
        self.entries = out;
    }
}

/// The root tree and the attractors that steer it.
pub struct TreeRoots {
    pub roots: RootMap,
    pub attractors: Vec<Attractor>,
}

impl TreeRoots {
    pub fn new() -> (r: Self)
        ensures
            r.roots@ == Seq::<(Id, Root)>::empty(),
            r.roots.wf(),
            r.attractors@ == Seq::<Attractor>::empty(),
    {
        Self { roots: RootMap::new(), attractors: Vec::new() }
    }
}

/// Drops the attractors above the row `depth`.
pub fn retain_attractors(attractors: &mut Vec<Attractor>, depth: i32)
    ensures
        final(attractors)@ == kept_attractors(old(attractors)@, depth),
{
    let mut out: Vec<Attractor> = Vec::new();
    let mut i: usize = 0;
    while i < attractors.len()
        invariant
            i <= attractors@.len(),
            attractors@ == old(attractors)@,
            out@ == kept_attractors(attractors@.take(i as int), depth),
        decreases attractors@.len() - i,
    {
        let a = attractors[i];
        proof {
            assert(attractors@.take(i + 1).drop_last() =~= attractors@.take(i as int));
            assert(attractors@.take(i + 1).last() == a);
        }
        if reaches(a.position.y, depth) {
            out.push(a);
        }
        i += 1;
    }
    proof {
        assert(attractors@.take(i as int) =~= attractors@);
    }
    *attractors = out;
}

} // verus!
