//! Building the result of a traversal: the sealed region, or the region
//! with the way of a leak marked on it.

use vstd::prelude::*;
use crate::block::BlockState;
use crate::catalog::Catalog;
use crate::error::Error;
use crate::palette::{marker_block, marker_view, rainbow_block, rainbow_view};
use crate::region::Region;
use crate::scene::Scene;
use crate::traversal::{traverse, Traversal};
use crate::vec3::Vec3;

verus! {

/// What becomes of the block with the number `i` when the region is sealed
/// with what a complete traversal found.
fn sealed_block(region: &Region, found: &Traversal, rainbow: bool, i: usize, Ghost(scene): Ghost<
    Scene,
>) -> (block: BlockState)
    requires
        region.wf(),
        scene.wf(),
        scene.region == region@,
        found.wf(scene),
        found.complete(scene),
        i < region@.blocks.len(),
    ensures
        block@ == scene.sealed_block(i as int, rainbow),
{
    let pos = region.bounds().position(i);
    let block = region.block(i);
    proof {
        scene.lemma_region_padded(pos);
        found.lemma_complete_at(scene, pos);
        reveal(Scene::sealed_block);
    }
    if block.is_air() {
        if rainbow {
            match found.tints.get(&pos) {
                Some(Some(gen)) => {
                    return rainbow_block(gen);
                },
                _ => {},
            }
        }
        block.clone()
    } else if found.reachable_blocks.contains(&pos) {
        block.clone()
    } else {
        BlockState::air()
    }
}

/// Builds the light-tight region from what a complete traversal found: the
/// blocks that the signal did not fall on give way to air, and with
/// `rainbow` the air that the signal looked at is coloured by generation.
fn seal(region: &Region, found: &Traversal, rainbow: bool, Ghost(scene): Ghost<Scene>) -> (out:
    Region)
    requires
        region.wf(),
        scene.wf(),
        scene.region == region@,
        found.wf(scene),
        found.complete(scene),
    ensures
        out.wf(),
        out@ == scene.sealed(rainbow),
{
    let mut out = region.clone();
    let bounds = region.bounds();
    let n = region.volume();
    let mut i: usize = 0;
    while i < n
        invariant
            i <= n,
            n == region@.blocks.len(),
            bounds == region@.bounds,
            region.wf(),
            scene.wf(),
            scene.region == region@,
            found.wf(scene),
            found.complete(scene),
            out.wf(),
            out@.name == region@.name,
            out@.bounds == region@.bounds,
            out@.blocks.len() == n,
            forall|j: int| 0 <= j < i ==> #[trigger] out@.blocks[j] == scene.sealed_block(j, rainbow),
        decreases n - i,
    {
        let pos = bounds.position(i);
        let block = sealed_block(region, found, rainbow, i, Ghost(scene));
        out.set_block(pos, block);
        i += 1;
    }
    assert(out@.blocks =~= scene.sealed(rainbow).blocks);
    out
}

/// Builds the region that shows a leak: the positions on the way back from
/// the target, but for the origin, hold the marker block. With `rainbow`
/// the air that the traversal looked at before it stopped is coloured.
fn show_leak(
    region: &Region,
    found: &Traversal,
    path: &Vec<Vec3>,
    rainbow: bool,
    Ghost(scene): Ghost<Scene>,
) -> (out: Region)
    requires
        region.wf(),
        scene.wf(),
        scene.region == region@,
        found.wf(scene),
        path@.len() > 0,
    ensures
        out.wf(),
        scene.shows_leak(out@, path@, rainbow),
{
    let mut out = region.clone();
    let bounds = region.bounds();
    let n = region.volume();
    if rainbow {
        let mut i: usize = 0;
        while i < n
            invariant
                rainbow,
                i <= n,
                n == region@.blocks.len(),
                bounds == region@.bounds,
                region.wf(),
                scene.wf(),
                scene.region == region@,
                found.wf(scene),
                out.wf(),
                out@.name == region@.name,
                out@.bounds == region@.bounds,
                out@.blocks.len() == n,
                forall|j: int|
                    0 <= j < n ==> scene.tinted_block(j, rainbow, #[trigger] out@.blocks[j]),
                forall|j: int| i <= j < n ==> #[trigger] out@.blocks[j] == region@.blocks[j],
            decreases n - i,
        {
            let pos = bounds.position(i);
            if region.block(i).is_air() {
                proof {
                    scene.lemma_region_padded(pos);
                }
                match found.tints.get(&pos) {
                    Some(Some(gen)) => {
                        out.set_block(pos, rainbow_block(gen));
                        assert(out@.blocks[i as int] == rainbow_view(gen as nat));
                    },
                    _ => {},
                }
            }
            i += 1;
        }
    }
    let mut k: usize = 0;
    assert(path@.take(0) =~= Seq::<Vec3>::empty());
    while k + 1 < path.len()
        invariant
            k < path.len(),
            n == region@.blocks.len(),
            bounds == region@.bounds,
            region.wf(),
            out.wf(),
            out@.name == region@.name,
            out@.bounds == region@.bounds,
            out@.blocks.len() == n,
            forall|j: int|
                0 <= j < n ==> if path@.take(k as int).contains(bounds.position_at(j)) {
                    #[trigger] out@.blocks[j] == marker_view()
                } else {
                    scene.tinted_block(j, rainbow, out@.blocks[j])
                },
        decreases path.len() - k,
    {
        let pos = path[k];
        let ghost before = out@;
        let ghost done = path@.take(k as int);
        let ghost next = path@.take(k + 1);
        proof {
            assert(next =~= done.push(pos));
            assert forall|p: Vec3| next.contains(p) <==> done.contains(p) || p == pos by {
                if done.contains(p) {
                    let j = choose|j: int| 0 <= j < done.len() && done[j] == p;
                    assert(next[j] == p);
                }
                if next.contains(p) {
                    let j = choose|j: int| 0 <= j < next.len() && next[j] == p;
                    if j < k {
                        assert(done[j] == p);
                    }
                }
                assert(next[k as int] == pos);
            }
        }
        if region.contains(&pos) {
            out.set_block(pos, marker_block());
            proof {
                bounds.lemma_index_range(pos);
                assert forall|j: int| 0 <= j < n implies if next.contains(bounds.position_at(j)) {
                    #[trigger] out@.blocks[j] == marker_view()
                } else {
                    scene.tinted_block(j, rainbow, out@.blocks[j])
                } by {
                    bounds.lemma_position_at(j);
                }
            }
        } else {
            proof {
                assert forall|j: int| 0 <= j < n implies bounds.position_at(j) != pos by {
                    bounds.lemma_position_at(j);
                }
            }
        }
        k += 1;
    }
    assert(path@.take(k as int) =~= path@.drop_last());
    proof {
        reveal(Scene::shows_leak);
    }
    out
}

/// Makes `region` light-tight as seen from `starting_pos`. The signal
/// spreads from there, and every block that it does not fall on gives way to
/// air. With `rainbow`, the air that the signal looks at is coloured by
/// generation. Where `inside` names a position that must stay dark and the
/// signal gets to it, nothing is removed: the result shows the way of the
/// leak instead. A starting position outside the region is refused.
pub fn optimize_region(
    region: &Region,
    starting_pos: Vec3,
    rainbow: bool,
    inside: Option<Vec3>,
    catalog: &Catalog,
) -> (r: Result<Region, Error>)
    requires
        region.wf(),
        catalog.wf(),
    ensures
        match r {
            Err(e) => e == Error::OutOfBoundsAccess && !region@.bounds.contains(starting_pos),
            Ok(out) => {
                let scene = Scene { region: region@, solid: catalog@, origin: starting_pos };
                &&& region@.bounds.contains(starting_pos)
                &&& out.wf()
                &&& match inside {
                    Some(goal) if scene.leaks_to(goal) => exists|path: Seq<Vec3>|
                        {
                            &&& scene.is_backtrace(path, goal)
                            &&& path.len() == scene.distance(goal) + 1
                            &&& #[trigger] scene.shows_leak(out@, path, rainbow)
                        },
                    _ => out@ == scene.sealed(rainbow),
                }
            },
        },
{
    let ghost scene = Scene { region: region@, solid: catalog@, origin: starting_pos };
    match traverse(region, catalog, starting_pos, inside) {
        Err(e) => Err(e),
        Ok(found) => {
            match &found.leak {
                Some(path) => {
                    let out = show_leak(region, &found, path, rainbow, Ghost(scene));
                    assert(scene.is_backtrace(path@, inside->0) && path@.len() == scene.distance(
                        inside->0,
                    ) + 1 && scene.shows_leak(out@, path@, rainbow));
                    Ok(out)
                },
                None => Ok(seal(region, &found, rainbow, Ghost(scene))),
            }
        },
    }
}

} // verus!
