//! Regions: boxes filled with blocks.

use vstd::prelude::*;
use crate::block::{BlockState, BlockStateView};
use crate::bounds::Bounds;
use crate::vec3::Vec3;

verus! {

/// A box of blocks: one block at every position within its bounds.
#[derive(Debug, PartialEq, Eq)]
pub struct Region {
    name: String,
    bounds: Bounds,
    blocks: Vec<BlockState>,
}

/// A region as plain values. `blocks` lists the blocks by the number of
/// their position in `bounds`.
pub struct RegionView {
    pub name: Seq<char>,
    pub bounds: Bounds,
    pub blocks: Seq<BlockStateView>,
}

impl RegionView {
    /// The bounds are well formed and can be grown by one position on every
    /// face, and every position has its block.
    pub open spec fn wf(self) -> bool {
        &&& self.bounds.wf()
        &&& self.bounds.padded().wf()
        &&& self.blocks.len() == self.bounds.volume()
    }

    /// The block at `p`. Outside the bounds there is only air.
    pub open spec fn block_at(self, p: Vec3) -> BlockStateView {
        if self.bounds.contains(p) {
            self.blocks[self.bounds.index_of(p)]
        } else {
            BlockStateView::air()
        }
    }

    /// The region with the block at `p` replaced.
    pub open spec fn with_block(self, p: Vec3, b: BlockStateView) -> RegionView {
        RegionView { blocks: self.blocks.update(self.bounds.index_of(p), b), ..self }
    }
}

/// The views of a list of blocks.
pub open spec fn blocks_view(blocks: Seq<BlockState>) -> Seq<BlockStateView> {
    blocks.map_values(|b: BlockState| b@)
}

impl View for Region {
    type V = RegionView;

    closed spec fn view(&self) -> RegionView {
        RegionView { name: self.name@, bounds: self.bounds, blocks: blocks_view(self.blocks@) }
    }
}

impl Clone for Region {
    fn clone(&self) -> (r: Region)
        ensures
            r@ == self@,
    {
        let mut blocks: Vec<BlockState> = Vec::new();
        let mut i: usize = 0;
        while i < self.blocks.len()
            invariant
                i <= self.blocks.len(),
                blocks.len() == i,
                forall|j: int| 0 <= j < i ==> (#[trigger] blocks@[j])@ == self.blocks@[j]@,
            decreases self.blocks.len() - i,
        {
            let b = self.blocks[i].clone();
            assert(b@ == self.blocks@[i as int]@);
            blocks.push(b);
            i += 1;
        }
        assert(blocks_view(blocks@) =~= blocks_view(self.blocks@));
        Region { name: self.name.clone(), bounds: self.bounds, blocks }
    }
}

impl Region {
    pub open spec fn wf(&self) -> bool {
        self@.wf()
    }

    /// A region of air between the corners `min` and `max`. There is none
    /// where the corners are out of order, where growing the box by one
    /// position would leave the range of `i32`, or where the grown box has
    /// more positions than a `usize` can number.
    pub fn new(name: &str, min: Vec3, max: Vec3) -> (r: Option<Region>)
        ensures
            match r {
                Some(region) => {
                    &&& region.wf()
                    &&& region@.name == name@
                    &&& region@.bounds == (Bounds { min, max })
                    &&& forall|p: Vec3| region@.block_at(p) == BlockStateView::air()
                },
                None => !((Bounds { min, max }).wf() && (Bounds { min, max }).padded().wf()),
            },
    {
        let bounds = Bounds::new(min, max);
        if !bounds.is_wf() {
            return None;
        }
        if min.x <= i32::MIN + 1 || min.y <= i32::MIN + 1 || min.z <= i32::MIN + 1 || max.x
            >= i32::MAX - 1 || max.y >= i32::MAX - 1 || max.z >= i32::MAX - 1 {
            return None;
        }
        let padded = Bounds::new(
            Vec3::new(min.x - 1, min.y - 1, min.z - 1),
            Vec3::new(max.x + 1, max.y + 1, max.z + 1),
        );
        assert(padded == bounds.padded());
        if !padded.is_wf() {
            return None;
        }
        let n = bounds.len();
        let mut blocks: Vec<BlockState> = Vec::new();
        let mut i: usize = 0;
        while i < n
            invariant
                i <= n,
                blocks.len() == i,
                forall|j: int| 0 <= j < i ==> (#[trigger] blocks@[j])@ == BlockStateView::air(),
            decreases n - i,
        {
            blocks.push(BlockState::air());
            i += 1;
        }
        let region = Region { name: name.to_owned(), bounds, blocks };
        assert forall|p: Vec3| region@.block_at(p) == BlockStateView::air() by {
            if bounds.contains(p) {
                bounds.lemma_index_range(p);
            }
        }
        Some(region)
    }

    pub fn name(&self) -> (s: &str)
        ensures
            s@ == self@.name,
    {
        self.name.as_str()
    }

    pub fn bounds(&self) -> (b: Bounds)
        ensures
            b == self@.bounds,
    {
        self.bounds
    }

    /// The number of blocks in the region.
    pub fn volume(&self) -> (n: usize)
        requires
            self.wf(),
        ensures
            n == self@.bounds.volume(),
            n == self@.blocks.len(),
    {
        self.blocks.len()
    }

    pub fn contains(&self, pos: &Vec3) -> (r: bool)
        ensures
            r == self@.bounds.contains(*pos),
    {
        self.bounds.contains_pos(pos)
    }

    pub fn get_block(&self, pos: Vec3) -> (b: &BlockState)
        requires
            self.wf(),
            self@.bounds.contains(pos),
        ensures
            b@ == self@.block_at(pos),
    {
        proof {
            self.bounds.lemma_index_range(pos);
        }
        match self.bounds.index(&pos) {
            Some(i) => &self.blocks[i],
            None => &self.blocks[0],
        }
    }

    /// The block with the number `i` in the order of the bounds.
    pub fn block(&self, i: usize) -> (b: &BlockState)
        requires
            self.wf(),
            i < self@.blocks.len(),
        ensures
            b@ == self@.blocks[i as int],
    {
        &self.blocks[i]
    }

    pub fn set_block(&mut self, pos: Vec3, block: BlockState)
        requires
            old(self).wf(),
            old(self)@.bounds.contains(pos),
        ensures
            final(self).wf(),
            final(self)@ == old(self)@.with_block(pos, block@),
    {
        proof {
            self.bounds.lemma_index_range(pos);
        }
        match self.bounds.index(&pos) {
            Some(i) => {
                self.blocks[i] = block;
                assert(blocks_view(self.blocks@) =~= blocks_view(old(self).blocks@).update(
                    i as int,
                    block@,
                ));
            },
            None => {},
        }
    }
}

} // verus!
