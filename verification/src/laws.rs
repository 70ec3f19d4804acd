//! What holds of pruning, of the padding and of the way back from a leak.

use vstd::prelude::*;
use crate::block::BlockStateView;
use crate::direction::Direction;
use crate::predicates::{lemma_air_block, lemma_fewer_octants};
use crate::scene::Scene;
use crate::vec3::Vec3;

verus! {

/// The scene after its region has been pruned once.
pub open spec fn pruned_scene(scene: Scene) -> Scene {
    Scene { region: scene.pruned(), ..scene }
}

/// Whatever the signal gets to lies in the region or in its padding.
pub proof fn lemma_reached_in_padding(scene: Scene, p: Vec3, n: nat)
    requires
        scene.wf(),
        scene.reaches(p, n),
    ensures
        scene.padded().contains(p),
    decreases n,
{
    if n == 0 {
        scene.lemma_region_padded(p);
    }
}

/// A position just outside the region is open to the signal: from any
/// neighbour that the signal gets to, it gets there as well. The position is
/// never lit nor coloured, and sealing leaves the bounds of the region as
/// they are, so that nothing is ever written there.
pub proof fn lemma_padding(scene: Scene, p: Vec3, dir: Direction, rainbow: bool)
    requires
        scene.wf(),
        scene.reachable(p),
        scene.region.bounds.just_outside(p.step(dir)),
    ensures
        scene.reachable(p.step(dir)),
        !scene.is_lit(p.step(dir)),
        scene.glow(p.step(dir)) is None,
        scene.sealed(rainbow).bounds == scene.region.bounds,
        scene.sealed(rainbow).blocks.len() == scene.region.blocks.len(),
{
    let n = choose|n: nat| scene.reaches(p, n);
    lemma_reached_in_padding(scene, p, n);
    assert(scene.enters(p, dir));
    assert(scene.reaches(p.step(dir), n + 1));
    reveal(Scene::glow);
}

/// Pruning keeps the block or puts air in its place.
proof fn lemma_pruned_block(scene: Scene, p: Vec3)
    requires
        scene.wf(),
    ensures
        pruned_scene(scene).region.block_at(p) == scene.region.block_at(p) || pruned_scene(
            scene,
        ).region.block_at(p) == BlockStateView::air(),
        !pruned_scene(scene).region.block_at(p).is_air() ==> pruned_scene(scene).region.block_at(p)
            == scene.region.block_at(p) && scene.is_lit(p),
        scene.is_lit(p) ==> pruned_scene(scene).region.block_at(p) == scene.region.block_at(p),
        pruned_scene(scene).shape_at(p).subset_of(scene.shape_at(p)),
{
    reveal(Scene::sealed_block);
    lemma_air_block(scene.solid, Set::empty(), Direction::Up);
    if scene.region.bounds.contains(p) {
        scene.region.bounds.lemma_index_range(p);
    } else {
        assert(!scene.is_lit(p));
    }
}

/// Pruning closes no way: wherever the signal steps before, it steps after.
proof fn lemma_pruned_enters(scene: Scene, p: Vec3, dir: Direction)
    requires
        scene.wf(),
        scene.enters(p, dir),
    ensures
        pruned_scene(scene).enters(p, dir),
{
    let after = pruned_scene(scene);
    let q = p.step(dir);
    lemma_pruned_block(scene, p);
    lemma_pruned_block(scene, q);
    lemma_fewer_octants(
        scene.shape_at(p),
        scene.shape_at(q),
        after.shape_at(p),
        after.shape_at(q),
        dir,
    );
}

proof fn lemma_pruned_reaches(scene: Scene, p: Vec3, n: nat)
    requires
        scene.wf(),
        scene.reaches(p, n),
    ensures
        pruned_scene(scene).reaches(p, n),
    decreases n,
{
    if n > 0 {
        let (q, dir) = choose|q: Vec3, dir: Direction| #[trigger]
            scene.enters(q, dir) && q.step(dir) == p && scene.reaches(q, (n - 1) as nat);
        lemma_pruned_reaches(scene, q, (n - 1) as nat);
        lemma_pruned_enters(scene, q, dir);
    }
}

/// The signal falls on the same blocks before and after pruning.
proof fn lemma_pruned_lit(scene: Scene, q: Vec3)
    requires
        scene.wf(),
    ensures
        pruned_scene(scene).is_lit(q) == scene.is_lit(q),
{
    let after = pruned_scene(scene);
    lemma_pruned_block(scene, q);
    if scene.is_lit(q) {
        let (p, dir) = choose|p: Vec3, dir: Direction| #[trigger]
            scene.lights(p, dir) && p.step(dir) == q;
        let n = choose|n: nat| scene.reaches(p, n);
        lemma_pruned_reaches(scene, p, n);
        lemma_pruned_block(scene, p);
        lemma_fewer_octants(
            scene.shape_at(p),
            scene.shape_at(q),
            after.shape_at(p),
            after.shape_at(q),
            dir,
        );
        assert(after.lights(p, dir));
    }
}

/// Pruning is idempotent: a region that has been pruned is left unchanged
/// by pruning it again from the same origin.
pub proof fn lemma_pruning_idempotent(scene: Scene)
    requires
        scene.wf(),
    ensures
        pruned_scene(scene).wf(),
        pruned_scene(scene).pruned() == scene.pruned(),
{
    let after = pruned_scene(scene);
    let once = scene.pruned();
    let twice = after.pruned();
    assert forall|i: int| 0 <= i < once.blocks.len() implies twice.blocks[i] == once.blocks[i] by {
        reveal(Scene::sealed_block);
        let p = scene.region.bounds.position_at(i);
        scene.region.bounds.lemma_position_at(i);
        lemma_pruned_block(scene, p);
        lemma_pruned_lit(scene, p);
    }
    assert(twice.blocks =~= once.blocks);
}

/// The two positions are neighbours: they differ by one in one coordinate
/// and agree in the other two.
pub open spec fn adjacent(a: Vec3, b: Vec3) -> bool {
    exists|dir: Direction|
        {
            &&& b.x == a.x + #[trigger] dir.dx()
            &&& b.y == a.y + dir.dy()
            &&& b.z == a.z + dir.dz()
        }
}

/// The way back from a leak is a chain without gaps and without repeats:
/// it starts at the target and ends at the origin, each position lies in the
/// region or just outside it and is a neighbour of the next, and no position
/// comes twice.
pub proof fn lemma_backtrace_chain(scene: Scene, path: Seq<Vec3>, target: Vec3)
    requires
        scene.wf(),
        scene.is_backtrace(path, target),
    ensures
        path.len() > 0,
        path.first() == target,
        path.last() == scene.origin,
        forall|i: int| 0 <= i < path.len() ==> scene.padded().contains(#[trigger] path[i]),
        forall|i: int| 0 <= i < path.len() - 1 ==> adjacent(path[i + 1], #[trigger] path[i]),
        forall|i: int, j: int| 0 <= i < j < path.len() ==> path[i] != path[j],
{
    reveal(Scene::is_backtrace);
    assert forall|i: int| 0 <= i < path.len() - 1 implies adjacent(path[i + 1], #[trigger] path[i])
        && scene.padded().contains(path[i]) && scene.padded().contains(path[i + 1]) by {
        assert(scene.steps_to(path[i + 1], path[i]));
        let dir = choose|dir: Direction| #[trigger]
            scene.enters(path[i + 1], dir) && path[i + 1].step(dir) == path[i];
        assert(path[i].x == path[i + 1].x + dir.dx());
    }
    assert forall|i: int| 0 <= i < path.len() implies scene.padded().contains(
        #[trigger] path[i],
    ) by {
        if i < path.len() - 1 {
            assert(scene.steps_to(path[i + 1], path[i]));
        } else {
            scene.lemma_region_padded(path[i]);
        }
    }
}

} // verus!
