//! A store of shapes already worked out, looked up by block.

use vstd::prelude::*;
use crate::block::{BlockState, BlockStateView};
use crate::catalog::Catalog;
use crate::predicates::block_octants;
use crate::shape::BlockShape;

verus! {

/// The shapes worked out so far, each kept with the block it belongs to.
/// A shape depends on the type and the attributes of a block only, so that
/// it is worked out once for all the blocks that share them.
pub struct ShapeCache {
    blocks: Vec<BlockState>,
    shapes: Vec<BlockShape>,
}

impl ShapeCache {
    /// Every shape kept is the shape of its block, given the block types
    /// `solid` that count as solid.
    pub closed spec fn wf(&self, solid: Set<Seq<char>>) -> bool {
        &&& self.blocks@.len() == self.shapes@.len()
        &&& forall|i: int|
            0 <= i < self.blocks@.len() ==> (#[trigger] self.shapes@[i])@ == block_octants(
                self.blocks@[i]@,
                solid,
            )
    }

    /// The cache keeps the shape of the block `b`.
    pub closed spec fn holds(&self, b: BlockStateView) -> bool {
        exists|i: int| 0 <= i < self.blocks@.len() && (#[trigger] self.blocks@[i])@ == b
    }

    /// The number of shapes kept.
    pub closed spec fn size(&self) -> nat {
        self.blocks@.len()
    }

    /// A cache that keeps nothing yet.
    pub fn new() -> (cache: ShapeCache)
        ensures
            cache.size() == 0,
            forall|solid: Set<Seq<char>>| cache.wf(solid),
            forall|b: BlockStateView| !cache.holds(b),
    {
        ShapeCache { blocks: Vec::new(), shapes: Vec::new() }
    }

    /// The number of shapes kept.
    pub fn len(&self) -> (n: usize)
        ensures
            n == self.size(),
    {
        self.blocks.len()
    }

    /// The shape of `block`: looked up if the cache keeps it, worked out and
    /// kept from now on if not.
    pub fn shape_of(&mut self, block: &BlockState, catalog: &Catalog) -> (shape: BlockShape)
        requires
            old(self).wf(catalog@),
        ensures
            final(self).wf(catalog@),
            shape@ == block_octants(block@, catalog@),
            final(self).holds(block@),
            forall|b: BlockStateView| old(self).holds(b) ==> final(self).holds(b),
            final(self).size() == if old(self).holds(block@) {
                old(self).size()
            } else {
                old(self).size() + 1
            },
    {
        let mut i: usize = 0;
        while i < self.blocks.len()
            invariant
                i <= self.blocks.len(),
                self.wf(catalog@),
                *self == *old(self),
                forall|j: int| 0 <= j < i ==> (#[trigger] self.blocks@[j])@ != block@,
            decreases self.blocks.len() - i,
        {
            if self.blocks[i].same_as(block) {
                return self.shapes[i];
            }
            i += 1;
        }
        let shape = BlockShape::from(block, catalog);
        let ghost before = self.blocks@;
        self.blocks.push(block.clone());
        self.shapes.push(shape);
        proof {
            assert(self.blocks@[before.len() as int]@ == block@);
            assert forall|b: BlockStateView| old(self).holds(b) implies self.holds(b) by {
                let j = choose|j: int| 0 <= j < before.len() && (#[trigger] before[j])@ == b;
                assert(self.blocks@[j]@ == b);
            }
        }
        shape
    }
}

} // verus!
