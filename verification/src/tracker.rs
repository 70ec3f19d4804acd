//! Sets of positions and maps from positions, over a fixed box.

use vstd::prelude::*;
use crate::bounds::Bounds;
use crate::error::Error;
use crate::region::Region;
use crate::vec3::Vec3;

verus! {

/// How many entries of `marks` are `false`.
pub open spec fn count_false(marks: Seq<bool>) -> nat
    decreases marks.len(),
{
    if marks.len() == 0 {
        0
    } else {
        count_false(marks.drop_last()) + if marks.last() {
            0nat
        } else {
            1nat
        }
    }
}

proof fn lemma_count_bound(marks: Seq<bool>)
    ensures
        count_false(marks) <= marks.len(),
    decreases marks.len(),
{
    if marks.len() > 0 {
        lemma_count_bound(marks.drop_last());
    }
}

proof fn lemma_count_none(marks: Seq<bool>)
    requires
        forall|i: int| 0 <= i < marks.len() ==> !marks[i],
    ensures
        count_false(marks) == marks.len(),
    decreases marks.len(),
{
    if marks.len() > 0 {
        lemma_count_none(marks.drop_last());
    }
}

proof fn lemma_count_mark(marks: Seq<bool>, i: int)
    requires
        0 <= i < marks.len(),
        !marks[i],
    ensures
        count_false(marks.update(i, true)) + 1 == count_false(marks),
    decreases marks.len(),
{
    let after = marks.update(i, true);
    if i == marks.len() - 1 {
        assert(after.drop_last() =~= marks.drop_last());
    } else {
        lemma_count_mark(marks.drop_last(), i);
        assert(after.drop_last() =~= marks.drop_last().update(i, true));
    }
}

/// Whether a position lies just outside the region: not in it, but in its
/// bounds grown by one position on every face.
pub fn is_just_outside(pos: &Vec3, region: &Region) -> (r: bool)
    requires
        region.wf(),
    ensures
        r == region@.bounds.just_outside(*pos),
{
    if region.contains(pos) {
        return false;
    }
    let b = region.bounds();
    if !(b.min.x - 1 <= pos.x && pos.x <= b.max.x + 1) {
        return false;
    }
    if !(b.min.y - 1 <= pos.y && pos.y <= b.max.y + 1) {
        return false;
    }
    if !(b.min.z - 1 <= pos.z && pos.z <= b.max.z + 1) {
        return false;
    }
    true
}

/// A set of positions within a fixed box, kept as one flag for each
/// position of the box.
#[derive(Debug)]
pub struct PositionTracker {
    positions: Vec<bool>,
    region: Bounds,
}

impl View for PositionTracker {
    type V = Set<Vec3>;

    /// The positions in the set.
    closed spec fn view(&self) -> Set<Vec3> {
        Set::new(|p: Vec3| self.region.contains(p) && self.positions@[self.region.index_of(p)])
    }
}

impl PositionTracker {
    /// The box whose positions the set can hold.
    pub closed spec fn bounds(&self) -> Bounds {
        self.region
    }

    /// The number of positions of the box that are not in the set.
    pub closed spec fn unmarked(&self) -> nat {
        count_false(self.positions@)
    }

    pub closed spec fn wf(&self) -> bool {
        self.region.wf() && self.positions@.len() == self.region.volume()
    }

    /// The set holds positions of its box only.
    pub proof fn lemma_within_bounds(&self)
        requires
            self.wf(),
        ensures
            self.bounds().wf(),
            self.unmarked() <= self.bounds().volume(),
            forall|p: Vec3| self@.contains(p) ==> self.bounds().contains(p),
    {
        lemma_count_bound(self.positions@);
    }

    /// The empty set of positions in and just outside `region`.
    pub fn new(region: &Region) -> (t: PositionTracker)
        requires
            region.wf(),
        ensures
            t.wf(),
            t.bounds() == region@.bounds.padded(),
            t@ == Set::<Vec3>::empty(),
            t.unmarked() == region@.bounds.padded().volume(),
    {
        let b = region.bounds();
        let r = Bounds::new(
            Vec3::new(b.min.x - 1, b.min.y - 1, b.min.z - 1),
            Vec3::new(b.max.x + 1, b.max.y + 1, b.max.z + 1),
        );
        assert(r == b.padded());
        let volume = r.len();
        let positions: Vec<bool> = vec![false; volume];
        let t = PositionTracker { positions, region: r };
        assert forall|p: Vec3| !t@.contains(p) by {
            if r.contains(p) {
                r.lemma_index_range(p);
            }
        }
        assert(t@ =~= Set::<Vec3>::empty());
        proof {
            lemma_count_none(t.positions@);
        }
        t
    }

    /// The number of the flag that stands for `pos`, if the box holds `pos`.
    pub fn pos_to_index(&self, pos: &Vec3) -> (r: Option<usize>)
        requires
            self.wf(),
        ensures
            match r {
                Some(i) => self.bounds().contains(*pos) && i == self.bounds().index_of(*pos),
                None => !self.bounds().contains(*pos),
            },
    {
        self.region.index(pos)
    }

    /// Puts `pos` into the set. A position outside the box is refused, and
    /// the set stays as it is.
    pub fn insert(&mut self, pos: &Vec3) -> (r: Result<(), Error>)
        requires
            old(self).wf(),
        ensures
            final(self).wf(),
            final(self).bounds() == old(self).bounds(),
            match r {
                Ok(_) => {
                    &&& old(self).bounds().contains(*pos)
                    &&& final(self)@ == old(self)@.insert(*pos)
                    &&& final(self).unmarked() + (if old(self)@.contains(*pos) {
                        0nat
                    } else {
                        1nat
                    }) == old(self).unmarked()
                },
                Err(e) => {
                    &&& e == Error::OutOfBoundsAccess
                    &&& !old(self).bounds().contains(*pos)
                    &&& final(self)@ == old(self)@
                    &&& final(self).unmarked() == old(self).unmarked()
                },
            },
    {
        match self.pos_to_index(pos) {
            None => Err(Error::OutOfBoundsAccess),
            Some(idx) => {
                proof {
                    self.region.lemma_index_range(*pos);
                    if !self.positions@[idx as int] {
                        lemma_count_mark(self.positions@, idx as int);
                    } else {
                        assert(self.positions@.update(idx as int, true) =~= self.positions@);
                    }
                }
                self.positions[idx] = true;
                proof {
                    let b = self.region;
                    assert forall|p: Vec3| self@.contains(p) <==> old(self)@.insert(*pos).contains(
                        p,
                    ) by {
                        if b.contains(p) {
                            b.lemma_index_range(p);
                            if b.index_of(p) == idx {
                                b.lemma_index_injective(p, *pos);
                            }
                        }
                    }
                    assert(self@ =~= old(self)@.insert(*pos));
                }
                Ok(())
            },
        }
    }

    /// Tells whether `pos` is in the set. A position outside the box is not.
    pub fn contains(&self, pos: &Vec3) -> (r: bool)
        requires
            self.wf(),
        ensures
            r == self@.contains(*pos),
    {
        match self.pos_to_index(pos) {
            None => false,
            Some(idx) => {
                proof {
                    self.region.lemma_index_range(*pos);
                }
                self.positions[idx]
            },
        }
    }
}

/// A value for every position of a fixed box.
#[derive(Debug)]
pub struct PositionMap<T> {
    values: Vec<T>,
    region: Bounds,
}

impl<T: Copy> PositionMap<T> {
    /// The box whose positions have a value.
    pub closed spec fn bounds(&self) -> Bounds {
        self.region
    }

    /// The value at `p`, a position of the box.
    pub closed spec fn at(&self, p: Vec3) -> T {
        self.values@[self.region.index_of(p)]
    }

    pub closed spec fn wf(&self) -> bool {
        self.region.wf() && self.values@.len() == self.region.volume()
    }

    /// The map that gives `fill` to every position of `bounds`.
    pub fn new(bounds: Bounds, fill: T) -> (m: PositionMap<T>)
        requires
            bounds.wf(),
        ensures
            m.wf(),
            m.bounds() == bounds,
            forall|p: Vec3| bounds.contains(p) ==> m.at(p) == fill,
    {
        let n = bounds.len();
        let mut values: Vec<T> = Vec::new();
        let mut i: usize = 0;
        while i < n
            invariant
                i <= n,
                values.len() == i,
                forall|j: int| 0 <= j < i ==> values@[j] == fill,
            decreases n - i,
        {
            values.push(fill);
            i += 1;
        }
        let m = PositionMap { values, region: bounds };
        assert forall|p: Vec3| bounds.contains(p) implies m.at(p) == fill by {
            bounds.lemma_index_range(p);
        }
        m
    }

    /// The value at `pos`, if the box holds `pos`.
    pub fn get(&self, pos: &Vec3) -> (r: Option<T>)
        requires
            self.wf(),
        ensures
            r == if self.bounds().contains(*pos) {
                Some(self.at(*pos))
            } else {
                None
            },
    {
        match self.region.index(pos) {
            None => None,
            Some(i) => {
                proof {
                    self.region.lemma_index_range(*pos);
                }
                Some(self.values[i])
            },
        }
    }

    /// Gives `pos` the value `value`. A position outside the box is
    /// refused, and the map stays as it is.
    pub fn set(&mut self, pos: &Vec3, value: T) -> (r: Result<(), Error>)
        requires
            old(self).wf(),
        ensures
            final(self).wf(),
            final(self).bounds() == old(self).bounds(),
            r is Ok <==> old(self).bounds().contains(*pos),
            r is Err ==> r == Err::<(), Error>(Error::OutOfBoundsAccess),
            forall|p: Vec3| #[trigger]
                old(self).bounds().contains(p) ==> final(self).at(p) == if p == *pos {
                    value
                } else {
                    old(self).at(p)
                },
    {
        match self.region.index(pos) {
            None => Err(Error::OutOfBoundsAccess),
            Some(i) => {
                proof {
                    self.region.lemma_index_range(*pos);
                }
                self.values[i] = value;
                proof {
                    let b = self.region;
                    assert forall|p: Vec3| #[trigger] b.contains(p) implies self.at(p) == if p
                        == *pos {
                        value
                    } else {
                        old(self).at(p)
                    } by {
                        b.lemma_index_range(p);
                        if b.index_of(p) == i {
                            b.lemma_index_injective(p, *pos);
                        }
                    }
                }
                Ok(())
            },
        }
    }
}

} // verus!
