//! The breadth-first traversal that follows the signal through a region.

use vstd::prelude::*;
use std::collections::VecDeque;
use crate::cache::ShapeCache;
use crate::catalog::Catalog;
use crate::direction::Direction;
use crate::error::Error;
use crate::predicates::{block_octants, lemma_air_block, lemma_passes_sees, sees};
use crate::region::Region;
use crate::scene::Scene;
use crate::shape::BlockShape;
use crate::tracker::{is_just_outside, PositionMap, PositionTracker};
use crate::vec3::Vec3;

verus! {

/// A position that waits to be expanded, with the number of steps in which
/// the signal got there.
#[derive(Clone, Copy, Debug, PartialEq, Eq, Structural)]
pub struct Node {
    pub pos: Vec3,
    pub gen: usize,
}

/// The remembered generation `tint` is the glow `glow`.
pub open spec fn tint_is(tint: Option<usize>, glow: Option<nat>) -> bool {
    match glow {
        Some(t) => tint is Some && tint->0 == t,
        None => tint is None,
    }
}

/// What a traversal found.
#[derive(Debug)]
pub struct Traversal {
    /// The positions that the signal got to, in the region or just outside.
    pub visited: PositionTracker,
    /// The positions of the blocks that the signal fell on.
    pub reachable_blocks: PositionTracker,
    /// For each visited position, the number of steps in which the signal
    /// got there.
    pub generations: PositionMap<usize>,
    /// For each position of the region that the signal looked at before
    /// entering it, the generation from which it last did so.
    pub tints: PositionMap<Option<usize>>,
    /// Where the signal got to the target: the way back from the target to
    /// the origin.
    pub leak: Option<Vec<Vec3>>,
}

impl Traversal {
    /// The sets and the map cover the region and its padding.
    pub open spec fn wf(&self, scene: Scene) -> bool {
        &&& self.visited.wf()
        &&& self.visited.bounds() == scene.padded()
        &&& self.reachable_blocks.wf()
        &&& self.reachable_blocks.bounds() == scene.padded()
        &&& self.generations.wf()
        &&& self.generations.bounds() == scene.padded()
        &&& self.tints.wf()
        &&& self.tints.bounds() == scene.padded()
    }

    /// Nothing is recorded that the signal does not do.
    #[verifier::opaque]
    pub open spec fn sound(&self, scene: Scene) -> bool {
        &&& self.visited@.subset_of(scene.reached())
        &&& self.reachable_blocks@.subset_of(scene.lit())
        &&& forall|p: Vec3| #[trigger]
            self.visited@.contains(p) ==> self.generations.at(p) == scene.distance(p)
        &&& forall|q: Vec3| #[trigger]
            scene.padded().contains(q) && self.tints.at(q) is Some ==> scene.region.bounds.contains(
                q,
            ) && q != scene.origin
    }

    /// Everything that the signal does is recorded, and each generation is
    /// the least number of steps.
    #[verifier::opaque]
    pub open spec fn complete(&self, scene: Scene) -> bool {
        &&& self.visited@ == scene.reached()
        &&& self.reachable_blocks@ == scene.lit()
        &&& forall|p: Vec3| #[trigger]
            scene.reachable(p) ==> self.generations.at(p) == scene.distance(p)
        &&& forall|q: Vec3| #[trigger]
            scene.padded().contains(q) ==> tint_is(self.tints.at(q), scene.glow(q))
    }
}

impl Traversal {
    /// What any traversal recorded for one position is true of the scene.
    pub proof fn lemma_sound_at(&self, scene: Scene, p: Vec3)
        requires
            self.sound(scene),
        ensures
            self.visited@.contains(p) ==> scene.reachable(p) && self.generations.at(p)
                == scene.distance(p),
            self.reachable_blocks@.contains(p) ==> scene.is_lit(p),
    {
        reveal(Traversal::sound);
        assert(self.visited@.contains(p) ==> scene.reached().contains(p));
        assert(self.reachable_blocks@.contains(p) ==> scene.lit().contains(p));
    }

    /// What a complete traversal recorded for one position.
    pub proof fn lemma_complete_at(&self, scene: Scene, p: Vec3)
        requires
            self.complete(scene),
            scene.padded().contains(p),
        ensures
            self.visited@.contains(p) == scene.reachable(p),
            self.reachable_blocks@.contains(p) == scene.is_lit(p),
            scene.reachable(p) ==> self.generations.at(p) == scene.distance(p),
            tint_is(self.tints.at(p), scene.glow(p)),
    {
        reveal(Traversal::complete);
        assert(scene.reached().contains(p) == scene.reachable(p));
        assert(scene.lit().contains(p) == scene.is_lit(p));
    }
}

/// Lets the signal spread from `origin` through `region` and the layer of
/// padding around it, breadth first. Without a target, or with one that the
/// signal does not get to, the traversal runs to its end and the result is
/// complete. With a target that the signal gets to, the traversal stops
/// there and reports the way back from the target to the origin, which is
/// as short as any. An origin outside the region is refused.
pub fn traverse(region: &Region, catalog: &Catalog, origin: Vec3, target: Option<Vec3>) -> (r:
    Result<Traversal, Error>)
    requires
        region.wf(),
        catalog.wf(),
    ensures
        match r {
            Err(e) => e == Error::OutOfBoundsAccess && !region@.bounds.contains(origin),
            Ok(t) => {
                let scene = Scene { region: region@, solid: catalog@, origin };
                &&& region@.bounds.contains(origin)
                &&& t.wf(scene)
                &&& t.sound(scene)
                &&& match t.leak {
                    Some(path) => {
                        &&& target matches Some(goal)
                        &&& scene.leaks_to(goal)
                        &&& scene.is_backtrace(path@, goal)
                        &&& path@.len() == scene.distance(goal) + 1
                    },
                    None => {
                        &&& target matches Some(goal) ==> !scene.leaks_to(goal)
                        &&& t.complete(scene)
                    },
                }
            },
        },
{
    if !region.contains(&origin) {
        return Err(Error::OutOfBoundsAccess);
    }
    let ghost scene = Scene { region: region@, solid: catalog@, origin };
    let mut search = Search::start(region, catalog, origin, target, Ghost(scene));
    let ghost mut level: nat = 0;
    let mut found = false;
    while !found && search.queue.len() > 0
        invariant
            search.target == target,
            search.trail(scene),
            !found ==> search.inv(scene, level, None, 0) && search.dark(scene),
            found ==> {
                &&& target matches Some(t)
                &&& scene.leaks_to(t)
                &&& search.visited@.contains(t)
            },
        decreases
                if found {
                    0
                } else {
                    search.work() + 1
                },
    {
        let step = search.advance(Ghost(scene), Ghost(level));
        found = step.0;
        proof {
            level = step.1@;
        }
    }
    match target {
        Some(goal) if found => Ok(search.into_leak(goal, Ghost(scene))),
        _ => Ok(search.into_whole(Ghost(scene), Ghost(level))),
    }
}

/// The shape of every block of a region and whether it is air, worked out
/// once and looked up by the number of the block's position.
struct Grid<'a> {
    region: &'a Region,
    shapes: Vec<BlockShape>,
    air: Vec<bool>,
}

impl<'a> Grid<'a> {
    spec fn matches(&self, scene: Scene) -> bool {
        &&& self.region@ == scene.region
        &&& self.shapes@.len() == scene.region.blocks.len()
        &&& self.air@.len() == scene.region.blocks.len()
        &&& forall|i: int|
            0 <= i < scene.region.blocks.len() ==> (#[trigger] self.shapes@[i])@ == block_octants(
                scene.region.blocks[i],
                scene.solid,
            )
        &&& forall|i: int|
            0 <= i < scene.region.blocks.len() ==> #[trigger] self.air@[i]
                == scene.region.blocks[i].is_air()
    }

    fn new(region: &'a Region, catalog: &Catalog, Ghost(scene): Ghost<Scene>) -> (g: Grid<'a>)
        requires
            region.wf(),
            scene.region == region@,
            scene.solid == catalog@,
        ensures
            g.matches(scene),
    {
        let n = region.volume();
        let mut cache = ShapeCache::new();
        let mut shapes: Vec<BlockShape> = Vec::new();
        let mut air: Vec<bool> = Vec::new();
        let mut i: usize = 0;
        while i < n
            invariant
                i <= n,
                n == region@.blocks.len(),
                region.wf(),
                scene.region == region@,
                scene.solid == catalog@,
                cache.wf(catalog@),
                shapes.len() == i,
                air.len() == i,
                forall|j: int|
                    0 <= j < i ==> (#[trigger] shapes@[j])@ == block_octants(
                        scene.region.blocks[j],
                        scene.solid,
                    ),
                forall|j: int| 0 <= j < i ==> #[trigger] air@[j] == scene.region.blocks[j].is_air(),
            decreases n - i,
        {
            let block = region.block(i);
            shapes.push(cache.shape_of(block, catalog));
            air.push(block.is_air());
            i += 1;
        }
        Grid { region, shapes, air }
    }

    /// The shape of the block at `p`; outside the region, that of air.
    fn shape(&self, p: &Vec3, Ghost(scene): Ghost<Scene>) -> (s: BlockShape)
        requires
            self.matches(scene),
            scene.wf(),
        ensures
            s@ == scene.shape_at(*p),
    {
        let b = self.region.bounds();
        match b.index(p) {
            Some(i) => {
                proof {
                    b.lemma_index_range(*p);
                }
                self.shapes[i]
            },
            None => {
                proof {
                    lemma_air_block(scene.solid, Set::empty(), Direction::Up);
                }
                BlockShape::empty()
            },
        }
    }

    /// Whether the region has a block other than air at `p`.
    fn holds_block(&self, p: &Vec3, Ghost(scene): Ghost<Scene>) -> (r: bool)
        requires
            self.matches(scene),
            scene.wf(),
        ensures
            r == scene.holds_block(*p),
    {
        let b = self.region.bounds();
        match b.index(p) {
            Some(i) => {
                proof {
                    b.lemma_index_range(*p);
                }
                !self.air[i]
            },
            None => false,
        }
    }
}

/// The state of a traversal under way.
struct Search<'a> {
    grid: Grid<'a>,
    origin: Vec3,
    target: Option<Vec3>,
    visited: PositionTracker,
    seen: PositionTracker,
    gens: PositionMap<usize>,
    parents: PositionMap<Vec3>,
    tints: PositionMap<Option<usize>>,
    queue: VecDeque<Node>,
}

impl<'a> Search<'a> {
    /// The position waits in the queue.
    spec fn pending(&self, p: Vec3) -> bool {
        exists|i: int| 0 <= i < self.queue@.len() && (#[trigger] self.queue@[i]).pos == p
    }

    /// The traversal has looked from `p` in direction `d`: `p` has left the
    /// queue, and where it is the position `cur` under expansion, `d` is
    /// among the first `done` directions.
    spec fn probed(&self, p: Vec3, d: Direction, cur: Option<Vec3>, done: int) -> bool {
        &&& self.visited@.contains(p)
        &&& !self.pending(p)
        &&& (cur == Some(p) ==> d.rank() < done)
    }

    #[verifier::opaque]
    spec fn frame(&self, scene: Scene) -> bool {
        &&& scene.wf()
        &&& self.grid.matches(scene)
        &&& self.origin == scene.origin
        &&& self.visited.wf()
        &&& self.visited.bounds() == scene.padded()
        &&& self.seen.wf()
        &&& self.seen.bounds() == scene.padded()
        &&& self.gens.wf()
        &&& self.gens.bounds() == scene.padded()
        &&& self.parents.wf()
        &&& self.parents.bounds() == scene.padded()
        &&& self.tints.wf()
        &&& self.tints.bounds() == scene.padded()
    }

    /// Every visited position is reached in as many steps as its generation
    /// says, and generations stay below the number of visited positions.
    #[verifier::opaque]
    spec fn sound(&self, scene: Scene) -> bool {
        &&& self.visited@.contains(scene.origin)
        &&& self.gens.at(scene.origin) == 0
        &&& forall|p: Vec3| #[trigger]
            self.visited@.contains(p) ==> {
                &&& scene.padded().contains(p)
                &&& scene.reaches(p, self.gens.at(p) as nat)
                &&& self.gens.at(p) + self.visited.unmarked() < scene.padded().volume()
            }
    }

    /// The queue holds visited positions, none twice, in the order of their
    /// generations, which are `level` or one more.
    #[verifier::opaque]
    spec fn queued(&self, level: nat) -> bool {
        &&& forall|i: int|
            0 <= i < self.queue@.len() ==> {
                let node = #[trigger] self.queue@[i];
                &&& self.visited@.contains(node.pos)
                &&& node.gen == self.gens.at(node.pos)
                &&& level <= node.gen <= level + 1
            }
        &&& forall|i: int, j: int|
            0 <= i < j < self.queue@.len() ==> {
                &&& (#[trigger] self.queue@[i]).gen <= (#[trigger] self.queue@[j]).gen
                &&& self.queue@[i].pos != self.queue@[j].pos
            }
        &&& forall|p: Vec3| #[trigger] self.visited@.contains(p) ==> self.gens.at(p) <= level + 1
        &&& forall|p: Vec3| #[trigger]
            self.visited@.contains(p) && !self.pending(p) ==> self.gens.at(p) <= level
    }

    /// Where the traversal has looked, every step of the signal leads to a
    /// visited position.
    #[verifier::opaque]
    spec fn closed(&self, scene: Scene, cur: Option<Vec3>, done: int) -> bool {
        forall|p: Vec3, d: Direction|
            self.probed(p, d, cur, done) && #[trigger] scene.enters(p, d) ==> {
                &&& self.visited@.contains(p.step(d))
                &&& self.gens.at(p.step(d)) <= self.gens.at(p) + 1
            }
    }

    /// The position under expansion has left the queue and belongs to the
    /// current level. The origin is expanded before anything else.
    #[verifier::opaque]
    spec fn current(&self, scene: Scene, level: nat, cur: Option<Vec3>) -> bool {
        &&& cur matches Some(c) ==> {
            &&& self.visited@.contains(c)
            &&& !self.pending(c)
            &&& self.gens.at(c) == level
        }
        &&& self.pending(scene.origin) ==> cur is None && self.queue@[0].pos == scene.origin
    }

    /// Every visited position but the origin knows the position from which
    /// it was entered, one generation earlier.
    #[verifier::opaque]
    spec fn traced(&self, scene: Scene) -> bool {
        forall|p: Vec3| #[trigger]
            self.visited@.contains(p) && p != scene.origin ==> {
                let parent = self.parents.at(p);
                &&& self.visited@.contains(parent)
                &&& scene.steps_to(parent, p)
                &&& self.gens.at(parent) + 1 == self.gens.at(p)
            }
    }

    /// The origin's face towards `q` is not closed, where `q` is its
    /// neighbour.
    spec fn origin_sees(scene: Scene, q: Vec3) -> bool {
        forall|d: Direction| #[trigger] scene.origin.step(d) == q ==> sees(scene.shape_at(scene.origin), d)
    }

    /// The marked blocks are lit, and where the traversal has looked, the
    /// lit blocks are marked.
    #[verifier::opaque]
    spec fn lit(&self, scene: Scene, cur: Option<Vec3>, done: int) -> bool {
        &&& forall|q: Vec3| #[trigger] self.seen@.contains(q) ==> scene.is_lit(q)
        &&& forall|p: Vec3, d: Direction|
            self.probed(p, d, cur, done) && #[trigger] scene.lights(p, d) ==> self.seen@.contains(
                p.step(d),
            )
        &&& forall|q: Vec3| #[trigger]
            self.visited@.contains(q) && q != scene.origin && scene.holds_block(q)
                && Self::origin_sees(scene, q) ==> self.seen@.contains(q)
    }

    /// Each position of the region that the traversal has looked at, other
    /// than the origin, remembers the generation from which it was last
    /// looked at before it was visited.
    #[verifier::opaque]
    spec fn tinted(&self, scene: Scene, cur: Option<Vec3>, done: int) -> bool {
        &&& forall|q: Vec3| #[trigger]
            scene.padded().contains(q) && self.tints.at(q) is Some ==> scene.region.bounds.contains(
                q,
            ) && q != scene.origin
        &&& forall|q: Vec3| #[trigger]
            scene.padded().contains(q) && self.tints.at(q) is Some && !self.visited@.contains(q)
                ==> exists|p: Vec3, d: Direction| #[trigger]
                self.probed(p, d, cur, done) && p.step(d) == q && self.tints.at(q) == Some(
                    self.gens.at(p),
                )
        &&& forall|p: Vec3, d: Direction| #[trigger]
            self.probed(p, d, cur, done) && scene.region.bounds.contains(p.step(d))
                && !self.visited@.contains(p.step(d)) ==> self.tints.at(p.step(d)) is Some
                && self.tints.at(p.step(d))->0 >= self.gens.at(p)
        &&& forall|q: Vec3| #[trigger]
            self.visited@.contains(q) && scene.region.bounds.contains(q) && q != scene.origin
                ==> self.tints.at(q) is Some && self.tints.at(q)->0 + 1 == self.gens.at(q)
    }

    /// The target, if it counts as a leak, has not been visited.
    #[verifier::opaque]
    spec fn dark(&self, scene: Scene) -> bool {
        self.target matches Some(t) ==> !(scene.region.bounds.contains(t) && t != scene.origin
            && self.visited@.contains(t))
    }

    spec fn inv(&self, scene: Scene, level: nat, cur: Option<Vec3>, done: int) -> bool {
        &&& self.frame(scene)
        &&& self.sound(scene)
        &&& self.queued(level)
        &&& self.closed(scene, cur, done)
        &&& self.current(scene, level, cur)
        &&& self.traced(scene)
        &&& self.lit(scene, cur, done)
        &&& self.tinted(scene, cur, done)
    }

    /// What the traversal still has to do: positions to visit and positions
    /// to expand.
    spec fn work(&self) -> nat {
        self.visited.unmarked() + self.queue@.len()
    }

    /// Whether the target is still dark depends on what is visited only.
    proof fn lemma_dark(before: Self, after: Self, scene: Scene)
        requires
            before.dark(scene),
            after.target == before.target,
            after.visited == before.visited,
        ensures
            after.dark(scene),
    {
        reveal(Search::dark);
    }

    /// Nothing but the queue and the trackers named differs between the two
    /// states.
    spec fn same_setting(&self, other: &Self) -> bool {
        &&& self.grid == other.grid
        &&& self.origin == other.origin
        &&& self.target == other.target
    }

    /// Taking the head of the queue makes it the position under expansion.
    proof fn lemma_pop(before: Self, after: Self, scene: Scene, level: nat)
        requires
            before.inv(scene, level, None, 0),
            before.queue@.len() > 0,
            after.same_setting(&before),
            after.visited == before.visited,
            after.seen == before.seen,
            after.gens == before.gens,
            after.parents == before.parents,
            after.tints == before.tints,
            after.queue@ == before.queue@.subrange(1, before.queue@.len() as int),
        ensures
            after.inv(scene, before.queue@[0].gen as nat, Some(before.queue@[0].pos), 0),
            after.work() + 1 == before.work(),
    {
        let node = before.queue@[0];
        let cur = Some(node.pos);
        let next = node.gen as nat;
        assert forall|i: int| 0 <= i < after.queue@.len() implies #[trigger] after.queue@[i]
            == before.queue@[i + 1] by {}
        assert forall|p: Vec3| after.pending(p) implies before.pending(p) by {
            let i = choose|i: int|
                0 <= i < after.queue@.len() && (#[trigger] after.queue@[i]).pos == p;
            assert(before.queue@[i + 1].pos == p);
        }
        assert forall|p: Vec3| before.pending(p) && p != node.pos implies after.pending(p) by {
            let i = choose|i: int|
                0 <= i < before.queue@.len() && (#[trigger] before.queue@[i]).pos == p;
            assert(after.queue@[i - 1].pos == p);
        }
        assert(!after.pending(node.pos)) by {
            reveal(Search::queued);
            if after.pending(node.pos) {
                let i = choose|i: int|
                    0 <= i < after.queue@.len() && (#[trigger] after.queue@[i]).pos == node.pos;
                assert(before.queue@[i + 1].pos == before.queue@[0].pos);
            }
        }
        assert(after.frame(scene)) by {
            reveal(Search::frame);
        }
        assert(after.sound(scene)) by {
            reveal(Search::sound);
        }
        assert(after.traced(scene)) by {
            reveal(Search::traced);
        }
        assert(after.queued(next)) by {
            reveal(Search::queued);
            assert forall|i: int| 0 <= i < after.queue@.len() implies {
                let n = #[trigger] after.queue@[i];
                &&& after.visited@.contains(n.pos)
                &&& n.gen == after.gens.at(n.pos)
                &&& next <= n.gen <= next + 1
            } by {
                assert(before.queue@[0].gen <= before.queue@[i + 1].gen);
            }
            assert forall|i: int, j: int| 0 <= i < j < after.queue@.len() implies {
                &&& (#[trigger] after.queue@[i]).gen <= (#[trigger] after.queue@[j]).gen
                &&& after.queue@[i].pos != after.queue@[j].pos
            } by {
                assert(before.queue@[i + 1].gen <= before.queue@[j + 1].gen);
            }
        }
        assert forall|p: Vec3, d: Direction| after.probed(p, d, cur, 0) implies before.probed(
            p,
            d,
            None,
            0,
        ) by {}
        assert(after.closed(scene, cur, 0)) by {
            reveal(Search::closed);
        }
        assert(after.lit(scene, cur, 0)) by {
            reveal(Search::lit);
        }
        assert(after.current(scene, next, cur)) by {
            reveal(Search::current);
            reveal(Search::queued);
            assert(before.queue@[0] == node);
        }
        assert forall|p: Vec3, d: Direction| before.probed(p, d, None, 0) implies after.probed(
            p,
            d,
            cur,
            0,
        ) by {
            assert(before.pending(node.pos));
        }
        assert(after.tinted(scene, cur, 0)) by {
            reveal(Search::tinted);
            assert forall|q: Vec3| #[trigger]
                scene.padded().contains(q) && after.tints.at(q) is Some && !after.visited@.contains(
                    q,
                ) implies exists|p: Vec3, d: Direction| #[trigger]
                after.probed(p, d, cur, 0) && p.step(d) == q && after.tints.at(q) == Some(
                    after.gens.at(p),
                ) by {
                let (p, d) = choose|p: Vec3, d: Direction| #[trigger]
                    before.probed(p, d, None, 0) && p.step(d) == q && before.tints.at(q) == Some(
                        before.gens.at(p),
                    );
                assert(after.probed(p, d, cur, 0));
            }
        }
    }

    /// Once all six directions are done, the position under expansion is
    /// like any other that has left the queue.
    proof fn lemma_expanded(&self, scene: Scene, level: nat, pos: Vec3)
        requires
            self.inv(scene, level, Some(pos), 6),
        ensures
            self.inv(scene, level, None, 0),
    {
        assert forall|p: Vec3, d: Direction| self.probed(p, d, None, 0) implies self.probed(
            p,
            d,
            Some(pos),
            6,
        ) by {}
        assert(self.closed(scene, None, 0)) by {
            reveal(Search::closed);
        }
        assert(self.lit(scene, None, 0)) by {
            reveal(Search::lit);
        }
        assert(self.current(scene, level, None)) by {
            reveal(Search::current);
        }
        assert(self.tinted(scene, None, 0)) by {
            reveal(Search::tinted);
            assert forall|q: Vec3| #[trigger]
                scene.padded().contains(q) && self.tints.at(q) is Some && !self.visited@.contains(q)
                implies exists|p: Vec3, d: Direction| #[trigger]
                self.probed(p, d, None, 0) && p.step(d) == q && self.tints.at(q) == Some(
                    self.gens.at(p),
                ) by {
                let (p, d) = choose|p: Vec3, d: Direction| #[trigger]
                    self.probed(p, d, Some(pos), 6) && p.step(d) == q && self.tints.at(q) == Some(
                        self.gens.at(p),
                    );
                assert(self.probed(p, d, None, 0));
            }
        }
    }

    /// While the traversal expands a position other than the origin, the
    /// neighbours of the origin are all visited.
    proof fn lemma_origin_done(&self, scene: Scene, level: nat, pos: Vec3, done: int, q: Vec3)
        requires
            self.inv(scene, level, Some(pos), done),
            pos != scene.origin,
            scene.beside_origin(q),
            scene.region.bounds.contains(q),
        ensures
            self.visited@.contains(q),
    {
        reveal(Search::frame);
        reveal(Search::sound);
        reveal(Search::current);
        reveal(Search::closed);
        let d0 = choose|d: Direction| scene.origin.step(d) == q;
        assert(self.probed(scene.origin, d0, Some(pos), done));
        assert(scene.enters(scene.origin, d0));
    }

    /// From the position under expansion the signal falls on a block that
    /// is not visited yet.
    proof fn lemma_lights(&self, scene: Scene, level: nat, pos: Vec3, dir: Direction, done: int)
        requires
            self.inv(scene, level, Some(pos), done),
            !self.visited@.contains(pos.step(dir)),
            scene.holds_block(pos.step(dir)),
            sees(scene.shape_at(pos), dir),
        ensures
            scene.lights(pos, dir),
            scene.is_lit(pos.step(dir)),
    {
        let q = pos.step(dir);
        assert(scene.reachable(pos) && q != scene.origin) by {
            reveal(Search::sound);
            reveal(Search::current);
            assert(scene.reaches(pos, self.gens.at(pos) as nat));
        }
        if scene.beside_origin(q) && pos != scene.origin {
            self.lemma_origin_done(scene, level, pos, done, q);
        }
        assert(scene.lights(pos, dir) && pos.step(dir) == q);
    }

    /// Marking a block that the signal falls on.
    proof fn lemma_mark(
        before: Self,
        after: Self,
        scene: Scene,
        level: nat,
        pos: Vec3,
        dir: Direction,
        done: int,
    )
        requires
            before.inv(scene, level, Some(pos), done),
            !before.visited@.contains(pos.step(dir)),
            scene.holds_block(pos.step(dir)),
            sees(scene.shape_at(pos), dir),
            after.same_setting(&before),
            after.visited == before.visited,
            after.gens == before.gens,
            after.parents == before.parents,
            after.tints == before.tints,
            after.queue == before.queue,
            after.seen.wf(),
            after.seen.bounds() == before.seen.bounds(),
            after.seen@ == before.seen@.insert(pos.step(dir)),
        ensures
            after.inv(scene, level, Some(pos), done),
            after.work() == before.work(),
    {
        let cur = Some(pos);
        before.lemma_lights(scene, level, pos, dir, done);
        assert(after.frame(scene)) by {
            reveal(Search::frame);
        }
        assert(after.sound(scene)) by {
            reveal(Search::sound);
        }
        assert(after.traced(scene)) by {
            reveal(Search::traced);
        }
        assert(after.queued(level)) by {
            reveal(Search::queued);
        }
        assert forall|p: Vec3, d: Direction| after.probed(p, d, cur, done) == before.probed(
            p,
            d,
            cur,
            done,
        ) by {}
        assert(after.closed(scene, cur, done)) by {
            reveal(Search::closed);
        }
        assert(after.current(scene, level, cur)) by {
            reveal(Search::current);
        }
        assert(after.lit(scene, cur, done)) by {
            reveal(Search::lit);
        }
        assert(after.tinted(scene, cur, done)) by {
            reveal(Search::tinted);
            assert forall|q: Vec3| #[trigger]
                scene.padded().contains(q) && after.tints.at(q) is Some && !after.visited@.contains(
                    q,
                ) implies exists|p: Vec3, d: Direction| #[trigger]
                after.probed(p, d, cur, done) && p.step(d) == q && after.tints.at(q) == Some(
                    after.gens.at(p),
                ) by {
                let (p, d) = choose|p: Vec3, d: Direction| #[trigger]
                    before.probed(p, d, cur, done) && p.step(d) == q && before.tints.at(q) == Some(
                        before.gens.at(p),
                    );
                assert(after.probed(p, d, cur, done));
            }
        }
    }

    /// Visiting the neighbour that the signal steps into.
    proof fn lemma_enter(
        before: Self,
        after: Self,
        scene: Scene,
        level: nat,
        pos: Vec3,
        dir: Direction,
        done: int,
    )
        requires
            before.inv(scene, level, Some(pos), done),
            dir.rank() == done,
            !before.visited@.contains(pos.step(dir)),
            scene.enters(pos, dir),
            scene.lights(pos, dir) ==> before.seen@.contains(pos.step(dir)),
            level + 1 <= usize::MAX,
            after.same_setting(&before),
            after.seen == before.seen,
            after.visited.wf(),
            after.visited.bounds() == before.visited.bounds(),
            after.visited@ == before.visited@.insert(pos.step(dir)),
            after.visited.unmarked() + 1 == before.visited.unmarked(),
            after.gens.wf(),
            after.gens.bounds() == before.gens.bounds(),
            forall|p: Vec3| #[trigger]
                scene.padded().contains(p) ==> after.gens.at(p) == if p == pos.step(dir) {
                    (level + 1) as usize
                } else {
                    before.gens.at(p)
                },
            after.parents.wf(),
            after.parents.bounds() == before.parents.bounds(),
            forall|p: Vec3| #[trigger]
                scene.padded().contains(p) ==> after.parents.at(p) == if p == pos.step(dir) {
                    pos
                } else {
                    before.parents.at(p)
                },
            after.tints.wf(),
            after.tints.bounds() == before.tints.bounds(),
            forall|p: Vec3| #[trigger]
                scene.padded().contains(p) ==> after.tints.at(p) == if p == pos.step(dir)
                    && scene.region.bounds.contains(p) {
                    Some(level as usize)
                } else {
                    before.tints.at(p)
                },
            after.queue@ == before.queue@.push(Node { pos: pos.step(dir), gen: (level + 1) as usize }),
        ensures
            after.inv(scene, level, Some(pos), done + 1),
            after.work() == before.work(),
    {
        let cur = Some(pos);
        let q = pos.step(dir);
        let n = before.queue@.len() as int;
        assert(scene.wf()) by {
            reveal(Search::frame);
        }
        assert(after.queue@[n] == (Node { pos: q, gen: (level + 1) as usize }));
        assert forall|i: int| 0 <= i < n implies #[trigger] after.queue@[i] == before.queue@[i] by {}
        assert forall|p: Vec3| before.pending(p) implies after.pending(p) by {
            let i = choose|i: int| 0 <= i < n && (#[trigger] before.queue@[i]).pos == p;
            assert(after.queue@[i].pos == p);
        }
        assert forall|p: Vec3| after.pending(p) && p != q implies before.pending(p) by {
            let i = choose|i: int|
                0 <= i < after.queue@.len() && (#[trigger] after.queue@[i]).pos == p;
            assert(before.queue@[i].pos == p);
        }
        assert(after.pending(q));
        assert(before.visited@.contains(pos) && !before.pending(pos) && before.gens.at(pos)
            == level && !before.pending(scene.origin)) by {
            reveal(Search::current);
        }
        assert(scene.padded().contains(q));
        assert(before.visited@.contains(scene.origin) && forall|p: Vec3| #[trigger]
            before.visited@.contains(p) ==> scene.padded().contains(p)) by {
            reveal(Search::sound);
        }
        assert(scene.padded().contains(pos) && scene.padded().contains(scene.origin));
        assert(after.frame(scene)) by {
            reveal(Search::frame);
        }
        assert(after.sound(scene)) by {
            reveal(Search::sound);
            assert(scene.reaches(pos, level));
            assert(scene.reaches(q, level + 1));
        }
        assert(after.queued(level)) by {
            reveal(Search::queued);
        }
        assert(after.traced(scene)) by {
            reveal(Search::traced);
            assert(scene.steps_to(pos, q));
        }
        assert(after.current(scene, level, cur)) by {
            reveal(Search::current);
        }
        assert forall|p: Vec3, d: Direction|
            after.probed(p, d, cur, done + 1) && !(p == pos && d == dir) implies before.probed(
            p,
            d,
            cur,
            done,
        ) by {}
        assert(after.closed(scene, cur, done + 1)) by {
            reveal(Search::closed);
            assert forall|p: Vec3, d: Direction|
                after.probed(p, d, cur, done + 1) && #[trigger] scene.enters(p, d) implies {
                &&& after.visited@.contains(p.step(d))
                &&& after.gens.at(p.step(d)) <= after.gens.at(p) + 1
            } by {
                if !(p == pos && d == dir) {
                    assert(before.probed(p, d, cur, done));
                    assert(before.visited@.contains(p.step(d)));
                }
            }
        }
        assert(after.lit(scene, cur, done + 1)) by {
            reveal(Search::lit);
            if scene.holds_block(q) && Self::origin_sees(scene, q) {
                if pos != scene.origin {
                    lemma_passes_sees(scene.shape_at(pos), scene.shape_at(q), dir);
                    if scene.beside_origin(q) {
                        before.lemma_origin_done(scene, level, pos, done, q);
                    }
                }
                before.lemma_lights(scene, level, pos, dir, done);
            }
        }
        assert forall|p: Vec3, d: Direction| before.probed(p, d, cur, done) implies after.probed(
            p,
            d,
            cur,
            done + 1,
        ) by {}
        assert(after.tinted(scene, cur, done + 1)) by {
            reveal(Search::tinted);
            assert forall|x: Vec3| #[trigger]
                scene.padded().contains(x) && after.tints.at(x) is Some && !after.visited@.contains(
                    x,
                ) implies exists|p: Vec3, d: Direction| #[trigger]
                after.probed(p, d, cur, done + 1) && p.step(d) == x && after.tints.at(x) == Some(
                    after.gens.at(p),
                ) by {
                let (p, d) = choose|p: Vec3, d: Direction| #[trigger]
                    before.probed(p, d, cur, done) && p.step(d) == x && before.tints.at(x) == Some(
                        before.gens.at(p),
                    );
                assert(after.probed(p, d, cur, done + 1));
                assert(scene.padded().contains(p));
            }
            assert forall|p: Vec3, d: Direction| #[trigger]
                after.probed(p, d, cur, done + 1) && scene.region.bounds.contains(p.step(d))
                    && !after.visited@.contains(p.step(d)) implies after.tints.at(p.step(d)) is Some
                && after.tints.at(p.step(d))->0 >= after.gens.at(p) by {
                assert(before.probed(p, d, cur, done));
                scene.lemma_region_padded(p.step(d));
                assert(scene.padded().contains(p));
            }
        }
    }

    /// Looking at a block of the region that the signal does not step into.
    proof fn lemma_pass(
        before: Self,
        after: Self,
        scene: Scene,
        level: nat,
        pos: Vec3,
        dir: Direction,
        done: int,
    )
        requires
            before.inv(scene, level, Some(pos), done),
            dir.rank() == done,
            scene.region.bounds.contains(pos.step(dir)),
            !before.visited@.contains(pos.step(dir)),
            !scene.enters(pos, dir),
            scene.lights(pos, dir) ==> before.seen@.contains(pos.step(dir)),
            after.same_setting(&before),
            after.visited == before.visited,
            after.seen == before.seen,
            after.gens == before.gens,
            after.parents == before.parents,
            after.queue == before.queue,
            after.tints.wf(),
            after.tints.bounds() == before.tints.bounds(),
            forall|p: Vec3| #[trigger]
                scene.padded().contains(p) ==> after.tints.at(p) == if p == pos.step(dir) {
                    Some(level as usize)
                } else {
                    before.tints.at(p)
                },
        ensures
            after.inv(scene, level, Some(pos), done + 1),
            after.work() == before.work(),
    {
        let cur = Some(pos);
        let q = pos.step(dir);
        assert(before.visited@.contains(pos) && !before.pending(pos) && before.gens.at(pos)
            == level) by {
            reveal(Search::current);
        }
        assert(before.visited@.contains(scene.origin) && forall|p: Vec3| #[trigger]
            before.visited@.contains(p) ==> scene.padded().contains(p)) by {
            reveal(Search::sound);
        }
        assert(scene.wf()) by {
            reveal(Search::frame);
        }
        scene.lemma_region_padded(q);
        assert(after.frame(scene)) by {
            reveal(Search::frame);
        }
        assert(after.sound(scene)) by {
            reveal(Search::sound);
        }
        assert(after.queued(level)) by {
            reveal(Search::queued);
        }
        assert(after.traced(scene)) by {
            reveal(Search::traced);
        }
        assert(after.current(scene, level, cur)) by {
            reveal(Search::current);
        }
        assert forall|p: Vec3, d: Direction|
            after.probed(p, d, cur, done + 1) && !(p == pos && d == dir) implies before.probed(
            p,
            d,
            cur,
            done,
        ) by {}
        assert forall|p: Vec3, d: Direction| before.probed(p, d, cur, done) implies after.probed(
            p,
            d,
            cur,
            done + 1,
        ) by {}
        assert(after.probed(pos, dir, cur, done + 1));
        assert(after.closed(scene, cur, done + 1)) by {
            reveal(Search::closed);
        }
        assert(after.lit(scene, cur, done + 1)) by {
            reveal(Search::lit);
        }
        assert(after.tinted(scene, cur, done + 1)) by {
            reveal(Search::tinted);
            reveal(Search::queued);
            assert forall|x: Vec3| #[trigger]
                scene.padded().contains(x) && after.tints.at(x) is Some && !after.visited@.contains(
                    x,
                ) implies exists|p: Vec3, d: Direction| #[trigger]
                after.probed(p, d, cur, done + 1) && p.step(d) == x && after.tints.at(x) == Some(
                    after.gens.at(p),
                ) by {
                if x != q {
                    let (p, d) = choose|p: Vec3, d: Direction| #[trigger]
                        before.probed(p, d, cur, done) && p.step(d) == x && before.tints.at(x)
                            == Some(before.gens.at(p));
                    assert(after.probed(p, d, cur, done + 1));
                }
            }
            assert forall|p: Vec3, d: Direction| #[trigger]
                after.probed(p, d, cur, done + 1) && scene.region.bounds.contains(p.step(d))
                    && !after.visited@.contains(p.step(d)) implies after.tints.at(p.step(d)) is Some
                && after.tints.at(p.step(d))->0 >= after.gens.at(p) by {
                scene.lemma_region_padded(p.step(d));
                if !(p == pos && d == dir) {
                    assert(before.probed(p, d, cur, done));
                }
            }
        }
    }

    /// Looking in a direction in which there is nothing to do.
    proof fn lemma_skip(&self, scene: Scene, level: nat, pos: Vec3, dir: Direction, done: int)
        requires
            self.inv(scene, level, Some(pos), done),
            dir.rank() == done,
            self.visited@.contains(pos.step(dir)) || !scene.region.bounds.contains(pos.step(dir)),
            scene.enters(pos, dir) ==> self.visited@.contains(pos.step(dir)),
            scene.lights(pos, dir) ==> self.seen@.contains(pos.step(dir)),
        ensures
            self.inv(scene, level, Some(pos), done + 1),
    {
        let cur = Some(pos);
        assert forall|p: Vec3, d: Direction|
            self.probed(p, d, cur, done + 1) && !self.probed(p, d, cur, done) implies p == pos && d
            == dir by {}
        assert(self.closed(scene, cur, done + 1)) by {
            reveal(Search::closed);
            reveal(Search::queued);
            reveal(Search::current);
        }
        assert(self.lit(scene, cur, done + 1)) by {
            reveal(Search::lit);
        }
        assert forall|p: Vec3, d: Direction| self.probed(p, d, cur, done) implies self.probed(
            p,
            d,
            cur,
            done + 1,
        ) by {}
        assert(self.tinted(scene, cur, done + 1)) by {
            reveal(Search::tinted);
            assert forall|x: Vec3| #[trigger]
                scene.padded().contains(x) && self.tints.at(x) is Some && !self.visited@.contains(x)
                implies exists|p: Vec3, d: Direction| #[trigger]
                self.probed(p, d, cur, done + 1) && p.step(d) == x && self.tints.at(x) == Some(
                    self.gens.at(p),
                ) by {
                let (p, d) = choose|p: Vec3, d: Direction| #[trigger]
                    self.probed(p, d, cur, done) && p.step(d) == x && self.tints.at(x) == Some(
                        self.gens.at(p),
                    );
                assert(self.probed(p, d, cur, done + 1));
            }
            assert forall|p: Vec3, d: Direction| #[trigger]
                self.probed(p, d, cur, done + 1) && scene.region.bounds.contains(p.step(d))
                    && !self.visited@.contains(p.step(d)) implies self.tints.at(p.step(d)) is Some
                && self.tints.at(p.step(d))->0 >= self.gens.at(p) by {
                if !(p == pos && d == dir) {
                    assert(self.probed(p, d, cur, done));
                }
            }
        }
    }
}

impl<'a> Search<'a> {
    /// The state before the first step: the origin is visited and waits in
    /// the queue.
    fn start(
        region: &'a Region,
        catalog: &Catalog,
        origin: Vec3,
        target: Option<Vec3>,
        Ghost(scene): Ghost<Scene>,
    ) -> (search: Search<'a>)
        requires
            region.wf(),
            catalog.wf(),
            scene == (Scene { region: region@, solid: catalog@, origin }),
            scene.wf(),
        ensures
            search.inv(scene, 0, None, 0),
            search.trail(scene),
            search.dark(scene),
            search.target == target,
            search.queue@.len() == 1,
    {
        let grid = Grid::new(region, catalog, Ghost(scene));
        let mut visited = PositionTracker::new(region);
        let seen = PositionTracker::new(region);
        let padded = region.bounds().grow();
        let mut gens: PositionMap<usize> = PositionMap::new(padded, 0);
        let parents: PositionMap<Vec3> = PositionMap::new(padded, origin);
        let tints: PositionMap<Option<usize>> = PositionMap::new(padded, None);
        let mut queue: VecDeque<Node> = VecDeque::new();
        queue.push_back(Node { pos: origin, gen: 0 });
        let ghost fresh = visited;
        let _ = visited.insert(&origin);
        let search = Search { grid, origin, target, visited, seen, gens, parents, tints, queue };
        proof {
            fresh.lemma_within_bounds();
            assert(search.queue@[0] == (Node { pos: origin, gen: 0 }));
            assert(search.visited@ =~= set![origin]);
            assert(!search.pending(origin) || search.queue@[0].pos == origin);
            assert forall|p: Vec3| search.pending(p) implies p == origin by {}
            assert(search.pending(origin));
            assert(search.frame(scene)) by {
                reveal(Search::frame);
            }
            assert(search.sound(scene)) by {
                reveal(Search::sound);
            }
            assert(search.queued(0)) by {
                reveal(Search::queued);
            }
            assert(search.closed(scene, None, 0)) by {
                reveal(Search::closed);
            }
            assert(search.current(scene, 0, None)) by {
                reveal(Search::current);
            }
            assert(search.traced(scene)) by {
                reveal(Search::traced);
            }
            assert(search.lit(scene, None, 0)) by {
                reveal(Search::lit);
            }
            assert(search.tinted(scene, None, 0)) by {
                reveal(Search::tinted);
            }
            assert(search.dark(scene)) by {
                reveal(Search::dark);
            }
            search.lemma_trail(scene, 0, None, 0);
        }
        search
    }

    /// Looks from `pos` in direction `dir`: marks the neighbour if the
    /// signal falls on it, and visits it if the signal steps into it. The
    /// result tells whether the neighbour is the target.
    fn probe(
        &mut self,
        pos: Vec3,
        gen: usize,
        dir: Direction,
        current: &BlockShape,
        Ghost(scene): Ghost<Scene>,
        Ghost(done): Ghost<int>,
    ) -> (found: bool)
        requires
            old(self).inv(scene, gen as nat, Some(pos), done),
            old(self).dark(scene),
            dir.rank() == done,
            current@ == scene.shape_at(pos),
        ensures
            final(self).inv(scene, gen as nat, Some(pos), done + 1),
            final(self).work() == old(self).work(),
            final(self).same_setting(old(self)),
            !found ==> final(self).dark(scene),
            found ==> {
                &&& old(self).target matches Some(t)
                &&& scene.leaks_to(t)
                &&& final(self).visited@.contains(t)
            },
    {
        proof {
            reveal(Search::frame);
            reveal(Search::sound);
            reveal(Search::current);
            assert(scene.padded().contains(pos));
        }
        let ghost before = *self;
        let q = pos + dir;
        if self.visited.contains(&q) {
            proof {
                if scene.lights(pos, dir) {
                    reveal(Search::lit);
                    assert(Self::origin_sees(scene, q)) by {
                        assert forall|d: Direction| #[trigger] scene.origin.step(d) == q implies sees(
                            scene.shape_at(scene.origin),
                            d,
                        ) by {
                            assert(scene.beside_origin(q));
                            assert(d == dir);
                        }
                    }
                }
                self.lemma_skip(scene, gen as nat, pos, dir, done);
            }
            return false;
        }
        if is_just_outside(&q, self.grid.region) {
            proof {
                reveal(Search::queued);
            }
            self.queue.push_back(Node { pos: q, gen: gen + 1 });
            let _ = self.visited.insert(&q);
            let _ = self.gens.set(&q, gen + 1);
            let _ = self.parents.set(&q, pos);
            proof {
                Self::lemma_enter(before, *self, scene, gen as nat, pos, dir, done);
                reveal(Search::dark);
            }
            return false;
        }
        if !self.grid.region.contains(&q) {
            proof {
                self.lemma_skip(scene, gen as nat, pos, dir, done);
            }
            return false;
        }
        let next = self.grid.shape(&q, Ghost(scene));
        if current.open_towards(dir) && self.grid.holds_block(&q, Ghost(scene)) {
            let _ = self.seen.insert(&q);
            proof {
                Self::lemma_mark(before, *self, scene, gen as nat, pos, dir, done);
                reveal(Search::dark);
            }
        }
        let ghost marked = *self;
        let _ = self.tints.set(&q, Some(gen));
        if pos == self.origin || current.gap_towards(&next, dir) {
            proof {
                reveal(Search::queued);
            }
            self.queue.push_back(Node { pos: q, gen: gen + 1 });
            let _ = self.gens.set(&q, gen + 1);
            let _ = self.parents.set(&q, pos);
            let _ = self.visited.insert(&q);
            proof {
                Self::lemma_enter(marked, *self, scene, gen as nat, pos, dir, done);
                reveal(Search::dark);
                reveal(Search::sound);
                reveal(Scene::leaks_to);
                assert(self.visited@.contains(q));
                assert(scene.reaches(q, self.gens.at(q) as nat));
                assert(marked.visited@.contains(scene.origin));
            }
            match self.target {
                Some(t) => {
                    if t == q {
                        return true;
                    }
                },
                None => {},
            }
            return false;
        }
        proof {
            Self::lemma_pass(marked, *self, scene, gen as nat, pos, dir, done);
            reveal(Search::dark);
        }
        false
    }
}

impl<'a> Search<'a> {
    /// Whatever the signal reaches in no more steps than the current level
    /// is visited, with a generation of that number at most.
    proof fn lemma_settled(
        &self,
        scene: Scene,
        level: nat,
        cur: Option<Vec3>,
        done: int,
        p: Vec3,
        n: nat,
    )
        requires
            self.inv(scene, level, cur, done),
            scene.reaches(p, n),
            n <= level,
        ensures
            self.visited@.contains(p),
            self.gens.at(p) <= n,
        decreases n,
    {
        if n == 0 {
            reveal(Search::sound);
        } else {
            let (q, d) = choose|q: Vec3, d: Direction| #[trigger]
                scene.enters(q, d) && q.step(d) == p && scene.reaches(q, (n - 1) as nat);
            self.lemma_settled(scene, level, cur, done, q, (n - 1) as nat);
            assert(self.probed(q, d, cur, done)) by {
                reveal(Search::queued);
                reveal(Search::current);
            }
            reveal(Search::closed);
        }
    }

    /// The generation of a visited position is its distance from the
    /// origin.
    proof fn lemma_generation(
        &self,
        scene: Scene,
        level: nat,
        cur: Option<Vec3>,
        done: int,
        p: Vec3,
    )
        requires
            self.inv(scene, level, cur, done),
            self.visited@.contains(p),
        ensures
            self.gens.at(p) == scene.distance(p),
    {
        let g = self.gens.at(p) as nat;
        assert(scene.reaches(p, g) && g <= level + 1) by {
            reveal(Search::sound);
            reveal(Search::queued);
        }
        assert forall|m: nat| m < g implies !scene.reaches(p, m) by {
            if scene.reaches(p, m) {
                self.lemma_settled(scene, level, cur, done, p, m);
            }
        }
        let least = scene.distance(p);
        assert(scene.reaches(p, least) && forall|m: nat| m < least ==> !scene.reaches(p, m));
        if least < g {
            self.lemma_settled(scene, level, cur, done, p, least);
        }
    }

    /// What is left of the invariant when the traversal stops early.
    #[verifier::opaque]
    spec fn trail(&self, scene: Scene) -> bool {
        &&& self.frame(scene)
        &&& self.sound(scene)
        &&& self.traced(scene)
        &&& forall|p: Vec3| #[trigger]
            self.visited@.contains(p) ==> self.gens.at(p) == scene.distance(p)
        &&& forall|q: Vec3| #[trigger] self.seen@.contains(q) ==> scene.is_lit(q)
        &&& forall|q: Vec3| #[trigger]
            scene.padded().contains(q) && self.tints.at(q) is Some ==> scene.region.bounds.contains(
                q,
            ) && q != scene.origin
    }

    proof fn lemma_trail(&self, scene: Scene, level: nat, cur: Option<Vec3>, done: int)
        requires
            self.inv(scene, level, cur, done),
        ensures
            self.trail(scene),
    {
        reveal(Search::trail);
        assert forall|p: Vec3| #[trigger] self.visited@.contains(p) implies self.gens.at(p)
            == scene.distance(p) by {
            self.lemma_generation(scene, level, cur, done, p);
        }
        assert(forall|q: Vec3| #[trigger] self.seen@.contains(q) ==> scene.is_lit(q)) by {
            reveal(Search::lit);
        }
        assert(forall|q: Vec3| #[trigger]
            scene.padded().contains(q) && self.tints.at(q) is Some ==> scene.region.bounds.contains(
                q,
            ) && q != scene.origin) by {
            reveal(Search::tinted);
        }
    }

    /// What is recorded so far is true of the scene.
    proof fn lemma_sound(&self, scene: Scene)
        requires
            self.trail(scene),
        ensures
            self.visited.wf(),
            self.visited.bounds() == scene.padded(),
            self.seen.wf(),
            self.seen.bounds() == scene.padded(),
            self.gens.wf(),
            self.gens.bounds() == scene.padded(),
            self.tints.wf(),
            self.tints.bounds() == scene.padded(),
            self.visited@.subset_of(scene.reached()),
            self.seen@.subset_of(scene.lit()),
            forall|p: Vec3| #[trigger]
                self.visited@.contains(p) ==> scene.reaches(p, self.gens.at(p) as nat)
                    && self.gens.at(p) == scene.distance(p),
            forall|q: Vec3| #[trigger]
                scene.padded().contains(q) && self.tints.at(q) is Some
                    ==> scene.region.bounds.contains(q) && q != scene.origin,
    {
        reveal(Search::trail);
        reveal(Search::frame);
        reveal(Search::sound);
        assert forall|p: Vec3| #[trigger] self.visited@.contains(p) implies scene.reachable(p) by {
            assert(scene.reaches(p, self.gens.at(p) as nat));
        }
    }

    /// Once the queue is empty, whatever the signal reaches in `n` steps is
    /// visited, with a generation of `n` at most.
    proof fn lemma_covered(&self, scene: Scene, level: nat, p: Vec3, n: nat)
        requires
            self.inv(scene, level, None, 0),
            self.queue@.len() == 0,
            scene.reaches(p, n),
        ensures
            self.visited@.contains(p),
            self.gens.at(p) <= n,
        decreases n,
    {
        if n == 0 {
            reveal(Search::sound);
        } else {
            let (q, d) = choose|q: Vec3, d: Direction| #[trigger]
                scene.enters(q, d) && q.step(d) == p && scene.reaches(q, (n - 1) as nat);
            self.lemma_covered(scene, level, q, (n - 1) as nat);
            reveal(Search::closed);
            assert(self.probed(q, d, None, 0));
        }
    }

    /// Once the queue is empty, a position that the signal gets to is
    /// visited, and its generation is its distance.
    proof fn lemma_exact(&self, scene: Scene, level: nat, p: Vec3)
        requires
            self.inv(scene, level, None, 0),
            self.queue@.len() == 0,
            scene.reachable(p),
        ensures
            self.visited@.contains(p),
            self.gens.at(p) == scene.distance(p),
    {
        let n = choose|n: nat| scene.reaches(p, n);
        self.lemma_covered(scene, level, p, n);
        self.lemma_generation(scene, level, None, 0, p);
    }

    /// The signal gets to every visited position.
    proof fn lemma_visited(&self, scene: Scene, level: nat, p: Vec3)
        requires
            self.inv(scene, level, None, 0),
            self.visited@.contains(p),
        ensures
            scene.reachable(p),
            scene.padded().contains(p),
    {
        reveal(Search::sound);
        assert(scene.reaches(p, self.gens.at(p) as nat));
    }

    /// Once the queue is empty, the marked blocks are the lit ones.
    proof fn lemma_lit_exact(&self, scene: Scene, level: nat, q: Vec3)
        requires
            self.inv(scene, level, None, 0),
            self.queue@.len() == 0,
        ensures
            self.seen@.contains(q) == scene.is_lit(q),
    {
        if scene.is_lit(q) {
            let (p, d) = choose|p: Vec3, d: Direction| #[trigger]
                scene.lights(p, d) && p.step(d) == q;
            self.lemma_exact(scene, level, p);
            assert(self.probed(p, d, None, 0));
        }
        reveal(Search::lit);
    }

    /// Once the queue is empty, whoever looks at `q` has been expanded.
    proof fn lemma_looked(&self, scene: Scene, level: nat, p: Vec3, d: Direction, q: Vec3)
        requires
            self.inv(scene, level, None, 0),
            self.queue@.len() == 0,
            scene.looks_at(p, d, q),
        ensures
            self.probed(p, d, None, 0),
            self.gens.at(p) == scene.distance(p),
    {
        self.lemma_exact(scene, level, p);
    }

    /// What the invariant says of the remembered generation of one
    /// position.
    proof fn lemma_tint_at(&self, scene: Scene, cur: Option<Vec3>, done: int, q: Vec3)
        requires
            self.tinted(scene, cur, done),
            scene.padded().contains(q),
        ensures
            self.tints.at(q) is Some ==> scene.region.bounds.contains(q) && q != scene.origin,
            self.tints.at(q) is Some && !self.visited@.contains(q) ==> exists|
                p: Vec3,
                d: Direction,
            | #[trigger]
                self.probed(p, d, cur, done) && p.step(d) == q && self.tints.at(q) == Some(
                    self.gens.at(p),
                ),
            self.visited@.contains(q) && scene.region.bounds.contains(q) && q != scene.origin
                ==> self.tints.at(q) is Some && self.tints.at(q)->0 + 1 == self.gens.at(q),
    {
        reveal(Search::tinted);
    }

    /// What the invariant says of the remembered generation of a position
    /// that has been looked at and not visited.
    proof fn lemma_tint_from(
        &self,
        scene: Scene,
        cur: Option<Vec3>,
        done: int,
        p: Vec3,
        d: Direction,
    )
        requires
            self.tinted(scene, cur, done),
            self.probed(p, d, cur, done),
            scene.region.bounds.contains(p.step(d)),
            !self.visited@.contains(p.step(d)),
        ensures
            self.tints.at(p.step(d)) is Some,
            self.tints.at(p.step(d))->0 >= self.gens.at(p),
    {
        reveal(Search::tinted);
    }

    /// Once the queue is empty, a position of the region that the signal
    /// does not get to remembers the latest generation among the neighbours
    /// that the signal gets to, and nothing where there is no such neighbour.
    proof fn lemma_glow_unreached(&self, scene: Scene, level: nat, q: Vec3)
        requires
            self.inv(scene, level, None, 0),
            self.queue@.len() == 0,
            scene.region.bounds.contains(q),
            scene.padded().contains(q),
            !scene.reachable(q),
        ensures
            self.tints.at(q) is Some ==> scene.brightest(q, self.tints.at(q)->0 as nat),
            self.tints.at(q) is None ==> forall|t: nat| !scene.brightest(q, t),
    {
        if self.visited@.contains(q) {
            self.lemma_visited(scene, level, q);
        }
        self.lemma_tint_at(scene, None, 0, q);
        if self.tints.at(q) is Some {
            let t = self.tints.at(q)->0 as nat;
            let (p, d) = choose|p: Vec3, d: Direction| #[trigger]
                self.probed(p, d, None, 0) && p.step(d) == q && self.tints.at(q) == Some(
                    self.gens.at(p),
                );
            self.lemma_visited(scene, level, p);
            self.lemma_looked(scene, level, p, d, q);
            assert(scene.looks_at(p, d, q) && scene.distance(p) == t);
            assert forall|other: Vec3, way: Direction| #[trigger]
                scene.looks_at(other, way, q) implies scene.distance(other) <= t by {
                self.lemma_looked(scene, level, other, way, q);
                self.lemma_tint_from(scene, None, 0, other, way);
            }
        } else {
            assert forall|t: nat| !scene.brightest(q, t) by {
                if scene.brightest(q, t) {
                    let (p, d) = choose|p: Vec3, d: Direction| #[trigger]
                        scene.looks_at(p, d, q) && scene.distance(p) == t;
                    self.lemma_looked(scene, level, p, d, q);
                    self.lemma_tint_from(scene, None, 0, p, d);
                }
            }
        }
    }

    /// Once the queue is empty, the remembered generation of a position is
    /// its glow.
    proof fn lemma_glow_exact(&self, scene: Scene, level: nat, q: Vec3)
        requires
            self.inv(scene, level, None, 0),
            self.queue@.len() == 0,
            scene.padded().contains(q),
        ensures
            tint_is(self.tints.at(q), scene.glow(q)),
    {
        self.lemma_tint_at(scene, None, 0, q);
        if !scene.region.bounds.contains(q) || q == scene.origin {
            reveal(Scene::glow);
        } else if scene.reachable(q) {
            self.lemma_exact(scene, level, q);
            reveal(Scene::glow);
        } else {
            self.lemma_glow_unreached(scene, level, q);
            if self.tints.at(q) is Some {
                let t = self.tints.at(q)->0 as nat;
                let other = choose|t: nat| scene.brightest(q, t);
                scene.lemma_brightest_unique(q, t, other);
            }
            reveal(Scene::glow);
        }
    }

    /// Once the queue is empty, the traversal has found what there is to
    /// find.
    proof fn lemma_finish(&self, scene: Scene, level: nat)
        requires
            self.inv(scene, level, None, 0),
            self.queue@.len() == 0,
        ensures
            self.visited@ == scene.reached(),
            self.seen@ == scene.lit(),
            forall|p: Vec3| #[trigger] scene.reachable(p) ==> self.gens.at(p) == scene.distance(p),
            forall|q: Vec3| #[trigger]
                scene.padded().contains(q) ==> tint_is(self.tints.at(q), scene.glow(q)),
    {
        assert forall|p: Vec3| #[trigger] scene.reachable(p) implies self.visited@.contains(p)
            && self.gens.at(p) == scene.distance(p) by {
            self.lemma_exact(scene, level, p);
        }
        assert forall|p: Vec3| self.visited@.contains(p) implies scene.reachable(p) by {
            self.lemma_visited(scene, level, p);
        }
        assert(self.visited@ =~= scene.reached());
        assert forall|q: Vec3| self.seen@.contains(q) == scene.is_lit(q) by {
            self.lemma_lit_exact(scene, level, q);
        }
        assert(self.seen@ =~= scene.lit());
        assert forall|q: Vec3| #[trigger] scene.padded().contains(q) implies tint_is(
            self.tints.at(q),
            scene.glow(q),
        ) by {
            self.lemma_glow_exact(scene, level, q);
        }
    }

    /// Looks from the position of `node` in all six directions. Stops
    /// early, with `true`, where it comes upon the target.
    fn expand(&mut self, node: Node, Ghost(scene): Ghost<Scene>) -> (found: bool)
        requires
            old(self).inv(scene, node.gen as nat, Some(node.pos), 0),
            old(self).dark(scene),
        ensures
            final(self).same_setting(old(self)),
            final(self).work() == old(self).work(),
            final(self).trail(scene),
            !found ==> final(self).inv(scene, node.gen as nat, None, 0) && final(self).dark(scene),
            found ==> {
                &&& old(self).target matches Some(t)
                &&& scene.leaks_to(t)
                &&& final(self).visited@.contains(t)
            },
    {
        proof {
            reveal(Search::frame);
        }
        let current = self.grid.shape(&node.pos, Ghost(scene));
        let dirs = Direction::all();
        let mut k: usize = 0;
        while k < 6
            invariant
                k <= 6,
                dirs@ == Direction::order(),
                current@ == scene.shape_at(node.pos),
                self.inv(scene, node.gen as nat, Some(node.pos), k as int),
                self.dark(scene),
                self.same_setting(old(self)),
                self.work() == old(self).work(),
            decreases 6 - k,
        {
            let dir = dirs[k];
            assert(dir.rank() == k);
            if self.probe(node.pos, node.gen, dir, &current, Ghost(scene), Ghost(k as int)) {
                proof {
                    self.lemma_trail(scene, node.gen as nat, Some(node.pos), k + 1);
                }
                return true;
            }
            k += 1;
        }
        proof {
            self.lemma_expanded(scene, node.gen as nat, node.pos);
            self.lemma_trail(scene, node.gen as nat, None, 0);
        }
        false
    }

    /// A visited position other than the origin was entered from its
    /// parent, which is visited and one generation older.
    proof fn lemma_parent(&self, scene: Scene, p: Vec3)
        requires
            self.trail(scene),
            self.visited@.contains(p),
        ensures
            self.parents.wf(),
            self.parents.bounds().contains(p),
            self.origin == scene.origin,
            p == scene.origin ==> self.gens.at(p) == 0,
            p != scene.origin ==> {
                &&& self.visited@.contains(self.parents.at(p))
                &&& scene.steps_to(self.parents.at(p), p)
                &&& self.gens.at(self.parents.at(p)) + 1 == self.gens.at(p)
            },
    {
        assert(self.frame(scene) && self.sound(scene) && self.traced(scene)) by {
            reveal(Search::trail);
        }
        assert(self.parents.wf() && self.parents.bounds() == scene.padded() && self.origin
            == scene.origin) by {
            reveal(Search::frame);
        }
        assert(scene.padded().contains(p) && self.gens.at(scene.origin) == 0) by {
            reveal(Search::sound);
        }
        if p != scene.origin {
            reveal(Search::traced);
        }
    }

    /// The way back from `target` to the origin, along the positions from
    /// which each was entered.
    fn backtrace(&self, target: Vec3, Ghost(scene): Ghost<Scene>) -> (path: Vec<Vec3>)
        requires
            self.trail(scene),
            self.visited@.contains(target),
        ensures
            scene.is_backtrace(path@, target),
            path@.len() == self.gens.at(target) + 1,
    {
        let mut path: Vec<Vec3> = Vec::new();
        path.push(target);
        let mut cur = target;
        while cur != self.origin
            invariant
                self.trail(scene),
                path@.len() > 0,
                path@[0] == target,
                path@.last() == cur,
                forall|i: int|
                    0 <= i < path@.len() ==> self.visited@.contains(#[trigger] path@[i])
                        && self.gens.at(path@[i]) + i == self.gens.at(target),
                forall|i: int|
                    0 <= i < path@.len() - 1 ==> scene.steps_to(path@[i + 1], #[trigger] path@[i]),
            decreases self.gens.at(cur),
        {
            proof {
                assert(self.visited@.contains(path@[path@.len() - 1]));
                self.lemma_parent(scene, cur);
            }
            match self.parents.get(&cur) {
                Some(parent) => {
                    path.push(parent);
                    cur = parent;
                },
                None => {
                    proof {
                        reveal(Scene::is_backtrace);
                    }
                    return path;
                },
            }
        }
        proof {
            assert(self.visited@.contains(path@[path@.len() - 1]));
            self.lemma_parent(scene, cur);
            assert forall|i: int, j: int| 0 <= i < j < path@.len() implies path@[i] != path@[j] by {
                assert(self.gens.at(path@[i]) + i == self.gens.at(target));
                assert(self.gens.at(path@[j]) + j == self.gens.at(target));
            }
            reveal(Scene::is_backtrace);
        }
        path
    }
}

impl<'a> Search<'a> {
    /// What the search hands out, with `leak` as the way of the leak.
    spec fn outcome(self, leak: Option<Vec<Vec3>>) -> Traversal {
        Traversal {
            visited: self.visited,
            reachable_blocks: self.seen,
            generations: self.gens,
            tints: self.tints,
            leak,
        }
    }

    /// What a search records is sound at any time.
    proof fn lemma_outcome_sound(self, scene: Scene, leak: Option<Vec<Vec3>>)
        requires
            self.trail(scene),
        ensures
            self.outcome(leak).wf(scene),
            self.outcome(leak).sound(scene),
    {
        self.lemma_sound(scene);
        reveal(Traversal::sound);
    }

    /// What a search records is complete once the queue is empty.
    proof fn lemma_outcome_complete(self, scene: Scene, level: nat, leak: Option<Vec<Vec3>>)
        requires
            self.inv(scene, level, None, 0),
            self.queue@.len() == 0,
        ensures
            self.outcome(leak).complete(scene),
    {
        self.lemma_finish(scene, level);
        reveal(Traversal::complete);
    }

    /// Ends a search that came upon the target.
    fn into_leak(self, goal: Vec3, Ghost(scene): Ghost<Scene>) -> (t: Traversal)
        requires
            self.trail(scene),
            self.visited@.contains(goal),
        ensures
            t.wf(scene),
            t.sound(scene),
            t.leak matches Some(path) && scene.is_backtrace(path@, goal) && path@.len()
                == scene.distance(goal) + 1,
    {
        let path = self.backtrace(goal, Ghost(scene));
        proof {
            self.lemma_sound(scene);
            self.lemma_outcome_sound(scene, Some(path));
        }
        Traversal {
            visited: self.visited,
            reachable_blocks: self.seen,
            generations: self.gens,
            tints: self.tints,
            leak: Some(path),
        }
    }

    /// Ends a search that ran until the queue was empty.
    fn into_whole(self, Ghost(scene): Ghost<Scene>, Ghost(level): Ghost<nat>) -> (t: Traversal)
        requires
            self.inv(scene, level, None, 0),
            self.dark(scene),
            self.queue@.len() == 0,
        ensures
            t.wf(scene),
            t.sound(scene),
            t.complete(scene),
            t.leak is None,
            self.target matches Some(goal) ==> !scene.leaks_to(goal),
    {
        proof {
            self.lemma_trail(scene, level, None, 0);
            self.lemma_outcome_sound(scene, None);
            self.lemma_outcome_complete(scene, level, None);
            if self.target is Some {
                let goal = self.target->0;
                if scene.leaks_to(goal) {
                    reveal(Scene::leaks_to);
                    self.lemma_exact(scene, level, goal);
                    reveal(Search::dark);
                }
            }
        }
        Traversal {
            visited: self.visited,
            reachable_blocks: self.seen,
            generations: self.gens,
            tints: self.tints,
            leak: None,
        }
    }
}

impl<'a> Search<'a> {
    /// Takes the next position from the queue and expands it. The result
    /// tells whether the traversal came upon the target, and which level it
    /// is at.
    fn advance(&mut self, Ghost(scene): Ghost<Scene>, Ghost(level): Ghost<nat>) -> (r: (
        bool,
        Ghost<nat>,
    ))
        requires
            old(self).inv(scene, level, None, 0),
            old(self).dark(scene),
            old(self).queue@.len() > 0,
        ensures
            final(self).same_setting(old(self)),
            final(self).trail(scene),
            !r.0 ==> {
                &&& final(self).inv(scene, r.1@, None, 0)
                &&& final(self).dark(scene)
                &&& final(self).work() < old(self).work()
            },
            r.0 ==> {
                &&& old(self).target matches Some(t)
                &&& scene.leaks_to(t)
                &&& final(self).visited@.contains(t)
            },
    {
        let ghost before = *self;
        match self.queue.pop_front() {
            Some(node) => {
                proof {
                    Self::lemma_pop(before, *self, scene, level);
                    Self::lemma_dark(before, *self, scene);
                }
                let found = self.expand(node, Ghost(scene));
                (found, Ghost(node.gen as nat))
            },
            None => {
                proof {
                    self.lemma_trail(scene, level, None, 0);
                }
                (false, Ghost(level))
            },
        }
    }
}

} // verus!
