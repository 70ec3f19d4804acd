//! What the commands of the tool do to the regions of a structure.

use vstd::prelude::*;
use crate::block::{BlockState, BlockStateView};
use crate::catalog::Catalog;
use crate::error::Error;
use crate::output::optimize_region;
use crate::region::{Region, RegionView};
use crate::scene::Scene;
use crate::text::str_eq;
use crate::vec3::Vec3;

verus! {

/// The name of the block type that `replace` removes.
pub const REPLACED: &'static str = "minecraft:lime_wool";

/// The number of the last block of `blocks` whose type is `name`.
pub open spec fn last_named(blocks: Seq<BlockStateView>, name: Seq<char>) -> Option<int>
    decreases blocks.len(),
{
    if blocks.len() == 0 {
        None
    } else if blocks.last().name == name {
        Some(blocks.len() - 1)
    } else {
        last_named(blocks.drop_last(), name)
    }
}

/// The position of the last block of the region whose type is `name`, in
/// the order of the region's blocks.
pub open spec fn origin_of(region: RegionView, name: Seq<char>) -> Option<Vec3> {
    match last_named(region.blocks, name) {
        Some(i) => Some(region.bounds.position_at(i)),
        None => None,
    }
}

/// `out` is `region` made light-tight as seen from its last block of the
/// type `name`.
pub open spec fn sealed_from(
    region: RegionView,
    out: RegionView,
    name: Seq<char>,
    solid: Set<Seq<char>>,
) -> bool {
    match origin_of(region, name) {
        Some(origin) => out == (Scene { region, solid, origin }).pruned(),
        None => false,
    }
}

/// The region with every block of the type `name` replaced by air.
pub open spec fn without(region: RegionView, name: Seq<char>) -> RegionView {
    RegionView {
        blocks: Seq::new(
            region.blocks.len(),
            |i: int|
                if region.blocks[i].name == name {
                    BlockStateView::air()
                } else {
                    region.blocks[i]
                },
        ),
        ..region
    }
}

/// The block that `last_named` finds has the name, and no block after it
/// has. It finds none only where no block has the name.
pub proof fn lemma_last_named(blocks: Seq<BlockStateView>, name: Seq<char>)
    ensures
        match last_named(blocks, name) {
            Some(i) => {
                &&& 0 <= i < blocks.len()
                &&& blocks[i].name == name
                &&& forall|j: int| i < j < blocks.len() ==> (#[trigger] blocks[j]).name != name
            },
            None => forall|j: int| 0 <= j < blocks.len() ==> (#[trigger] blocks[j]).name != name,
        },
    decreases blocks.len(),
{
    if blocks.len() > 0 && blocks.last().name != name {
        lemma_last_named(blocks.drop_last(), name);
        assert forall|j: int| 0 <= j < blocks.len() - 1 implies #[trigger] blocks[j]
            == blocks.drop_last()[j] by {}
    }
}

/// Finds the block of the type `block_id` from which the signal starts: the
/// last one in the order of the region's blocks.
pub fn find_origin(region: &Region, block_id: &str) -> (r: Option<Vec3>)
    requires
        region.wf(),
    ensures
        r == origin_of(region@, block_id@),
        r matches Some(p) ==> region@.bounds.contains(p),
{
    let n = region.volume();
    let bounds = region.bounds();
    let mut found: Option<Vec3> = None;
    let mut i: usize = 0;
    assert(region@.blocks.take(0) =~= Seq::<BlockStateView>::empty());
    while i < n
        invariant
            i <= n,
            n == region@.blocks.len(),
            bounds == region@.bounds,
            region.wf(),
            found == match last_named(region@.blocks.take(i as int), block_id@) {
                Some(k) => Some(bounds.position_at(k)),
                None => None,
            },
            found matches Some(p) ==> bounds.contains(p),
        decreases n - i,
    {
        proof {
            let next = region@.blocks.take(i + 1);
            assert(next.drop_last() =~= region@.blocks.take(i as int));
            assert(next.last() == region@.blocks[i as int]);
        }
        if str_eq(region.block(i).name.as_str(), block_id) {
            found = Some(bounds.position(i));
        }
        i += 1;
    }
    assert(region@.blocks.take(n as int) =~= region@.blocks);
    found
}

/// Makes every region light-tight as seen from its block of the type
/// `starting_block_id`. A region without such a block fails the whole
/// request.
pub fn optimize(regions: &Vec<Region>, starting_block_id: &str, catalog: &Catalog) -> (r: Result<
    Vec<Region>,
    Error,
>)
    requires
        catalog.wf(),
        forall|i: int| 0 <= i < regions@.len() ==> (#[trigger] regions@[i]).wf(),
    ensures
        match r {
            Ok(out) => {
                &&& out@.len() == regions@.len()
                &&& forall|i: int|
                    0 <= i < regions@.len() ==> (#[trigger] out@[i]).wf() && sealed_from(
                        regions@[i]@,
                        out@[i]@,
                        starting_block_id@,
                        catalog@,
                    )
            },
            Err(e) => {
                &&& e == Error::OriginNotFound
                &&& exists|i: int|
                    0 <= i < regions@.len() && origin_of(
                        (#[trigger] regions@[i])@,
                        starting_block_id@,
                    ) is None
            },
        },
{
    let mut out: Vec<Region> = Vec::new();
    let mut i: usize = 0;
    while i < regions.len()
        invariant
            i <= regions.len(),
            catalog.wf(),
            forall|i: int| 0 <= i < regions@.len() ==> (#[trigger] regions@[i]).wf(),
            out@.len() == i,
            forall|j: int|
                0 <= j < i ==> (#[trigger] out@[j]).wf() && sealed_from(
                    regions@[j]@,
                    out@[j]@,
                    starting_block_id@,
                    catalog@,
                ),
        decreases regions.len() - i,
    {
        let region = &regions[i];
        match find_origin(region, starting_block_id) {
            None => {
                return Err(Error::OriginNotFound);
            },
            Some(starting_pos) => {
                match optimize_region(region, starting_pos, false, None, catalog) {
                    Ok(optimized) => {
                        out.push(optimized);
                    },
                    Err(e) => {
                        return Err(e);
                    },
                }
            },
        }
        i += 1;
    }
    Ok(out)
}

/// Removes the blocks of the type `REPLACED` from every region: air takes
/// their place.
pub fn replace(regions: &Vec<Region>) -> (out: Vec<Region>)
    requires
        forall|i: int| 0 <= i < regions@.len() ==> (#[trigger] regions@[i]).wf(),
    ensures
        out@.len() == regions@.len(),
        forall|i: int|
            0 <= i < regions@.len() ==> (#[trigger] out@[i]).wf() && out@[i]@ == without(
                regions@[i]@,
                REPLACED@,
            ),
{
    let mut out: Vec<Region> = Vec::new();
    let mut i: usize = 0;
    while i < regions.len()
        invariant
            i <= regions.len(),
            forall|i: int| 0 <= i < regions@.len() ==> (#[trigger] regions@[i]).wf(),
            out@.len() == i,
            forall|j: int|
                0 <= j < i ==> (#[trigger] out@[j]).wf() && out@[j]@ == without(
                    regions@[j]@,
                    REPLACED@,
                ),
        decreases regions.len() - i,
    {
        let region = &regions[i];
        let mut output_region = region.clone();
        let n = region.volume();
        let bounds = region.bounds();
        let mut k: usize = 0;
        while k < n
            invariant
                k <= n,
                n == region@.blocks.len(),
                bounds == region@.bounds,
                region.wf(),
                output_region.wf(),
                output_region@.name == region@.name,
                output_region@.bounds == region@.bounds,
                output_region@.blocks.len() == n,
                forall|j: int|
                    0 <= j < k ==> #[trigger] output_region@.blocks[j] == without(
                        region@,
                        REPLACED@,
                    ).blocks[j],
                forall|j: int| k <= j < n ==> #[trigger] output_region@.blocks[j] == region@.blocks[j],
            decreases n - k,
        {
            if str_eq(region.block(k).name.as_str(), REPLACED) {
                output_region.set_block(bounds.position(k), BlockState::air());
            }
            k += 1;
        }
        assert(output_region@.blocks =~= without(region@, REPLACED@).blocks);
        out.push(output_region);
        i += 1;
    }
    out
}

} // verus!
