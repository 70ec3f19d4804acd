//! What the signal does in a region, stated without reference to any
//! traversal: where it gets to, in how many steps, and what it falls on.

use vstd::prelude::*;
use crate::block::{BlockStateView, AIR};
use crate::palette::{marker_view, rainbow_view};
use crate::bounds::Bounds;
use crate::direction::Direction;
use crate::predicates::{block_octants, passes, sees};
use crate::region::RegionView;
use crate::shape::Corner;
use crate::vec3::Vec3;

verus! {

/// What a traversal works on: a region, the block types that count as
/// solid, and the position where the signal starts.
pub struct Scene {
    pub region: RegionView,
    pub solid: Set<Seq<char>>,
    pub origin: Vec3,
}

impl Scene {
    /// The region is well formed, air is not solid, and the origin lies in
    /// the region.
    pub open spec fn wf(self) -> bool {
        &&& self.region.wf()
        &&& !self.solid.contains(AIR@)
        &&& self.region.bounds.contains(self.origin)
    }

    /// The positions a traversal may enter: the region and one layer of
    /// padding around it.
    pub open spec fn padded(self) -> Bounds {
        self.region.bounds.padded()
    }

    /// The region lies within its padding.
    pub proof fn lemma_region_padded(self, p: Vec3)
        requires
            self.wf(),
            self.region.bounds.contains(p),
        ensures
            self.padded().contains(p),
            !self.region.bounds.just_outside(p),
    {
    }

    /// The octants that the block at `p` fills.
    pub open spec fn shape_at(self, p: Vec3) -> Set<Corner> {
        block_octants(self.region.block_at(p), self.solid)
    }

    /// The region has a block other than air at `p`.
    pub open spec fn holds_block(self, p: Vec3) -> bool {
        self.region.bounds.contains(p) && !self.region.block_at(p).is_air()
    }

    /// The signal steps from `p` to its neighbour in direction `dir`. It
    /// does so wherever the neighbour lies in the padding; within the region
    /// it needs a gap between the two blocks, except at the origin, from
    /// where it spreads to every side.
    pub open spec fn enters(self, p: Vec3, dir: Direction) -> bool {
        let q = p.step(dir);
        &&& self.padded().contains(p)
        &&& self.padded().contains(q)
        &&& (!self.region.bounds.contains(q) || p == self.origin || passes(
            self.shape_at(p),
            self.shape_at(q),
            dir,
        ))
    }

    /// The signal steps from `p` to `q`.
    pub open spec fn steps_to(self, p: Vec3, q: Vec3) -> bool {
        exists|dir: Direction| #[trigger] self.enters(p, dir) && p.step(dir) == q
    }

    /// The signal gets from the origin to `p` in exactly `n` steps.
    pub open spec fn reaches(self, p: Vec3, n: nat) -> bool
        decreases n,
    {
        if n == 0 {
            p == self.origin
        } else {
            exists|q: Vec3, dir: Direction| #[trigger]
                self.enters(q, dir) && q.step(dir) == p && self.reaches(q, (n - 1) as nat)
        }
    }

    /// The signal gets from the origin to `p`.
    pub open spec fn reachable(self, p: Vec3) -> bool {
        exists|n: nat| self.reaches(p, n)
    }

    /// The least number of steps in which the signal gets to `p`.
    pub open spec fn distance(self, p: Vec3) -> nat {
        choose|n: nat| self.reaches(p, n) && forall|m: nat| m < n ==> !self.reaches(p, m)
    }

    /// The position is a neighbour of the origin.
    pub open spec fn beside_origin(self, q: Vec3) -> bool {
        exists|dir: Direction| self.origin.step(dir) == q
    }

    /// The signal, having got to `p`, falls on the block next to it in
    /// direction `dir`: the face of `p` towards it is not closed. The origin
    /// is never lit, and its neighbours are lit by the origin alone; the
    /// signal has entered them before it gets to any other position.
    pub open spec fn lights(self, p: Vec3, dir: Direction) -> bool {
        let q = p.step(dir);
        &&& self.reachable(p)
        &&& self.holds_block(q)
        &&& q != self.origin
        &&& sees(self.shape_at(p), dir)
        &&& (self.beside_origin(q) ==> p == self.origin)
    }

    /// The signal falls on the block at `q`.
    pub open spec fn is_lit(self, q: Vec3) -> bool {
        exists|p: Vec3, dir: Direction| #[trigger] self.lights(p, dir) && p.step(dir) == q
    }

    /// The signal gets to `p`, and `q` is the neighbour of `p` in direction
    /// `dir`.
    pub open spec fn looks_at(self, p: Vec3, dir: Direction, q: Vec3) -> bool {
        self.reachable(p) && p.step(dir) == q
    }

    /// `t` is the greatest distance of a position that the signal gets to
    /// and that has `q` as a neighbour.
    pub open spec fn brightest(self, q: Vec3, t: nat) -> bool {
        &&& exists|p: Vec3, dir: Direction| #[trigger]
            self.looks_at(p, dir, q) && self.distance(p) == t
        &&& forall|p: Vec3, dir: Direction| #[trigger]
            self.looks_at(p, dir, q) ==> self.distance(p) <= t
    }

    /// There is one greatest distance at most.
    pub proof fn lemma_brightest_unique(self, q: Vec3, a: nat, b: nat)
        requires
            self.brightest(q, a),
            self.brightest(q, b),
        ensures
            a == b,
    {
        let (p, d) = choose|p: Vec3, d: Direction| #[trigger]
            self.looks_at(p, d, q) && self.distance(p) == a;
        let (other, way) = choose|p: Vec3, d: Direction| #[trigger]
            self.looks_at(p, d, q) && self.distance(p) == b;
        assert(self.looks_at(p, d, q) && self.looks_at(other, way, q));
    }

    /// The generation in which the signal last looks at the position `q` of
    /// the region before entering it, if it ever does. Where the signal
    /// gets to `q`, that is the generation before its own. Where it does not,
    /// it is the latest generation among the neighbours that the signal
    /// gets to. There is none for the origin, for a position outside the
    /// region, or where the signal gets to no neighbour.
    #[verifier::opaque]
    pub open spec fn glow(self, q: Vec3) -> Option<nat> {
        if !self.region.bounds.contains(q) || q == self.origin {
            None
        } else if self.reachable(q) {
            Some((self.distance(q) - 1) as nat)
        } else if exists|t: nat| self.brightest(q, t) {
            Some(choose|t: nat| self.brightest(q, t))
        } else {
            None
        }
    }

    /// The positions that the signal gets to.
    pub open spec fn reached(self) -> Set<Vec3> {
        Set::new(|p: Vec3| self.reachable(p))
    }

    /// The positions of the blocks that the signal falls on.
    pub open spec fn lit(self) -> Set<Vec3> {
        Set::new(|q: Vec3| self.is_lit(q))
    }

    /// What becomes of the block with the number `i` when the region is
    /// sealed. A block other than air stays if the signal falls on it, and
    /// gives way to air if not. Air stays; with `rainbow`, air that the
    /// signal looks at takes the colour of the generation in which it last
    /// did.
    #[verifier::opaque]
    pub open spec fn sealed_block(self, i: int, rainbow: bool) -> BlockStateView {
        let block = self.region.blocks[i];
        let p = self.region.bounds.position_at(i);
        if block.is_air() {
            match self.glow(p) {
                Some(t) if rainbow => rainbow_view(t),
                _ => block,
            }
        } else if self.is_lit(p) {
            block
        } else {
            BlockStateView::air()
        }
    }

    /// The region made light-tight: every block that the signal does not
    /// fall on is removed.
    pub open spec fn sealed(self, rainbow: bool) -> RegionView {
        RegionView {
            blocks: Seq::new(self.region.blocks.len(), |i: int| self.sealed_block(i, rainbow)),
            ..self.region
        }
    }

    /// The region without the blocks that the signal does not fall on: air
    /// takes their place.
    pub open spec fn pruned(self) -> RegionView {
        self.sealed(false)
    }

    /// `block` may stand for the block with the number `i` after a
    /// traversal that stopped early: it is the block of the region, except
    /// that with `rainbow` air may have taken a colour.
    pub open spec fn tinted_block(self, i: int, rainbow: bool, block: BlockStateView) -> bool {
        ||| block == self.region.blocks[i]
        ||| rainbow && self.region.blocks[i].is_air() && exists|t: nat|
            block == #[trigger] rainbow_view(t)
    }

    /// `block` may stand for the block with the number `i` where the way
    /// of a leak is marked: on the positions of `path` but the origin it is
    /// the marker block; elsewhere it is as after a traversal that stopped
    /// early.
    pub open spec fn leak_block(
        self,
        i: int,
        path: Seq<Vec3>,
        rainbow: bool,
        block: BlockStateView,
    ) -> bool {
        if path.drop_last().contains(self.region.bounds.position_at(i)) {
            block == marker_view()
        } else {
            self.tinted_block(i, rainbow, block)
        }
    }

    /// `out` is the region with the way of a leak marked on it.
    #[verifier::opaque]
    pub open spec fn shows_leak(self, out: RegionView, path: Seq<Vec3>, rainbow: bool) -> bool {
        &&& out.name == self.region.name
        &&& out.bounds == self.region.bounds
        &&& out.blocks.len() == self.region.blocks.len()
        &&& forall|i: int|
            0 <= i < out.blocks.len() ==> self.leak_block(i, path, rainbow, #[trigger] out.blocks[i])
    }

    /// The signal gets from the origin to `target`, a position of the
    /// region other than the origin.
    #[verifier::opaque]
    pub open spec fn leaks_to(self, target: Vec3) -> bool {
        &&& self.region.bounds.contains(target)
        &&& target != self.origin
        &&& self.reachable(target)
    }

    /// `path` leads back from `target` to the origin: each position is
    /// entered from the one after it.
    #[verifier::opaque]
    pub open spec fn is_backtrace(self, path: Seq<Vec3>, target: Vec3) -> bool {
        &&& path.len() > 0
        &&& path[0] == target
        &&& path.last() == self.origin
        &&& forall|i: int| 0 <= i < path.len() - 1 ==> self.steps_to(path[i + 1], #[trigger] path[i])
        &&& path.no_duplicates()
    }
}

} // verus!
