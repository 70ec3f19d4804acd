//! The shape of a block, and whether the signal leaves a block or passes
//! between two blocks.

use vstd::prelude::*;
use crate::block::{BlockState, BlockStateView, AIR};
use crate::catalog::Catalog;
use crate::direction::Direction;
use crate::shape::{
    all_octants, face, from_stairs_props, lemma_side_seq, side, side_corner, side_seq, slab_octants,
    stairs_octants, BlockShape, Corner,
};
use crate::text::{ends_with, has_suffix};

verus! {

/// The octants that a block fills, given the block types that count as
/// solid. The first rule that applies decides: a solid type fills all eight;
/// a type whose name ends in `_stairs` is a stair and a type whose name ends
/// in `_slab` is a slab, each shaped by its attributes, and empty if it has
/// none; every other type fills nothing.
pub open spec fn block_octants(b: BlockStateView, solid: Set<Seq<char>>) -> Set<Corner> {
    if solid.contains(b.name) {
        all_octants()
    } else if has_suffix(b.name, "_stairs"@) {
        if b.properties is Some {
            stairs_octants(b.attribute("shape"@), b.attribute("half"@), b.attribute("facing"@))
        } else {
            Set::empty()
        }
    } else if has_suffix(b.name, "_slab"@) {
        if b.properties is Some {
            slab_octants(b.attribute("type"@))
        } else {
            Set::empty()
        }
    } else {
        Set::empty()
    }
}

/// The signal can leave a block of the given shape through its face looking
/// in `dir`: some octant on that face is not filled.
pub open spec fn sees(shape: Set<Corner>, dir: Direction) -> bool {
    exists|c: Corner| #[trigger] face(dir).contains(c) && !shape.contains(c)
}

/// The signal can pass from a block of shape `from` to its neighbour in
/// direction `dir`, of shape `to`: some octant on the shared face is empty
/// on both sides.
pub open spec fn passes(from: Set<Corner>, to: Set<Corner>, dir: Direction) -> bool {
    exists|c: Corner| #[trigger]
        face(dir).contains(c) && !from.contains(c) && !to.contains(c.across(dir))
}

impl BlockShape {
    pub fn from(block: &BlockState, catalog: &Catalog) -> (shape: BlockShape)
        ensures
            shape@ == block_octants(block@, catalog@),
    {
        if catalog.contains(block.name.as_str()) {
            return BlockShape::solid();
        }
        if ends_with(block.name.as_str(), "_stairs") {
            if block.properties.is_none() {
                return BlockShape::empty();
            }
            let shape = block.attribute("shape");
            let half = block.attribute("half");
            let facing = block.attribute("facing");
            return from_stairs_props(shape.as_str(), half.as_str(), facing.as_str());
        }
        if ends_with(block.name.as_str(), "_slab") {
            if block.properties.is_none() {
                return BlockShape::empty();
            }
            let slabtype = block.attribute("type");
            return BlockShape::from_slab_props(slabtype.as_str());
        }
        BlockShape::empty()
    }

    /// Tells whether some octant on the face looking in `dir` is empty.
    pub fn open_towards(&self, dir: Direction) -> (r: bool)
        ensures
            r == sees(self@, dir),
    {
        let corners = side(dir);
        proof {
            lemma_side_seq(dir);
        }
        let mut i: usize = 0;
        while i < corners.len()
            invariant
                i <= corners.len(),
                corners@ == side_seq(dir),
                corners@ == Seq::new(4, |i: int| side_corner(dir, i)),
                forall|j: int| 0 <= j < i ==> self@.contains(#[trigger] corners@[j]),
            decreases corners.len() - i,
        {
            let c = corners[i];
            assert(corners@.contains(c));
            assert(face(dir).contains(c));
            if !self.get(c) {
                return true;
            }
            i += 1;
        }
        assert forall|c: Corner| face(dir).contains(c) implies self@.contains(c) by {
            assert(side_seq(dir).contains(c));
            let j = choose|j: int| 0 <= j < corners@.len() && corners@[j] == c;
            assert(self@.contains(corners@[j]));
        }
        false
    }

    /// Tells whether some octant on the face looking in `dir` is empty in
    /// this shape and has an empty octant of `to` across the face.
    pub fn gap_towards(&self, to: &BlockShape, dir: Direction) -> (r: bool)
        ensures
            r == passes(self@, to@, dir),
    {
        let near = side(dir);
        let far = side(dir.opposite());
        proof {
            lemma_side_seq(dir);
            lemma_side_seq(dir.inverse());
        }
        let mut i: usize = 0;
        while i < near.len()
            invariant
                i <= near.len(),
                near@ == side_seq(dir),
                far@ == side_seq(dir.inverse()),
                near@ == Seq::new(4, |i: int| side_corner(dir, i)),
                far@ == Seq::new(4, |i: int| side_corner(dir.inverse(), i)),
                forall|j: int|
                    0 <= j < i ==> self@.contains(#[trigger] near@[j]) || to@.contains(
                        near@[j].across(dir),
                    ),
            decreases near.len() - i,
        {
            let c = near[i];
            let d = far[i];
            assert(near@.contains(c));
            assert(face(dir).contains(c));
            assert(d == c.across(dir));
            assert(d.wf());
            if !self.get(c) && !to.get(d) {
                return true;
            }
            i += 1;
        }
        assert forall|c: Corner| face(dir).contains(c) implies self@.contains(c) || to@.contains(
            c.across(dir),
        ) by {
            assert(side_seq(dir).contains(c));
            let j = choose|j: int| 0 <= j < near@.len() && near@[j] == c;
            assert(self@.contains(near@[j]) || to@.contains(near@[j].across(dir)));
        }
        false
    }
}

pub fn can_move(from: &BlockState, to: &BlockState, dir: &Direction, catalog: &Catalog) -> (r:
    bool)
    ensures
        r == passes(block_octants(from@, catalog@), block_octants(to@, catalog@), *dir),
{
    let from_shape = BlockShape::from(from, catalog);
    let to_shape = BlockShape::from(to, catalog);
    from_shape.gap_towards(&to_shape, *dir)
}

pub fn can_see(from: &BlockState, dir: &Direction, catalog: &Catalog) -> (r: bool)
    ensures
        r == sees(block_octants(from@, catalog@), *dir),
{
    let from_shape = BlockShape::from(from, catalog);
    from_shape.open_towards(*dir)
}

/// A block of a solid type shows no gap: the signal neither leaves it
/// through any face nor passes between it and any neighbour, whatever the
/// neighbour is and in whichever direction.
pub proof fn lemma_solid_blocks(
    b: BlockStateView,
    other: BlockStateView,
    solid: Set<Seq<char>>,
    dir: Direction,
)
    requires
        solid.contains(b.name),
    ensures
        block_octants(b, solid) == all_octants(),
        !sees(block_octants(b, solid), dir),
        !passes(block_octants(b, solid), block_octants(other, solid), dir),
        !passes(block_octants(other, solid), block_octants(b, solid), dir),
{
    let full = block_octants(b, solid);
    let any = block_octants(other, solid);
    assert forall|c: Corner| face(dir).contains(c) implies full.contains(c) && full.contains(
        c.across(dir),
    ) by {}
}

/// Air fills nothing as long as it is not counted as solid. The signal
/// leaves an air block through every face, and passes from it into a
/// neighbour exactly if the neighbour's face towards it has an empty octant.
pub proof fn lemma_air_block(solid: Set<Seq<char>>, to: Set<Corner>, dir: Direction)
    requires
        !solid.contains(AIR@),
    ensures
        block_octants(BlockStateView::air(), solid) == Set::<Corner>::empty(),
        sees(block_octants(BlockStateView::air(), solid), dir),
        passes(block_octants(BlockStateView::air(), solid), to, dir) == sees(to, dir.inverse()),
{
    reveal_strlit("minecraft:air");
    reveal_strlit("_stairs");
    reveal_strlit("_slab");
    let air = BlockStateView::air();
    assert(air.name.len() == 13 && "_stairs"@.len() == 7 && "_slab"@.len() == 5);
    assert(!has_suffix(air.name, "_stairs"@)) by {
        let tail = air.name.subrange(6, 13);
        assert(tail[0] == air.name[6] && air.name[6] == 'a' && "_stairs"@[0] == '_');
    }
    assert(!has_suffix(air.name, "_slab"@)) by {
        let tail = air.name.subrange(8, 13);
        assert(tail[0] == air.name[8] && air.name[8] == 't' && "_slab"@[0] == '_');
    }
    lemma_passes_from_empty(to, dir);
    assert(face(dir).contains(side_corner(dir, 0)));
}

/// Out of a shape that fills nothing the signal passes exactly where the
/// neighbour's facing side has an empty octant.
pub proof fn lemma_passes_from_empty(to: Set<Corner>, dir: Direction)
    ensures
        passes(Set::empty(), to, dir) == sees(to, dir.inverse()),
{
    let none = Set::<Corner>::empty();
    if passes(none, to, dir) {
        let c = choose|c: Corner| #[trigger]
            face(dir).contains(c) && !none.contains(c) && !to.contains(c.across(dir));
        assert(face(dir.inverse()).contains(c.across(dir)));
    }
    if sees(to, dir.inverse()) {
        let c = choose|c: Corner| #[trigger] face(dir.inverse()).contains(c) && !to.contains(c);
        let back = c.across(dir);
        assert(back.across(dir) == c);
        assert(face(dir).contains(back));
    }
}

/// Passage has no preferred side: the signal passes from one block to its
/// neighbour exactly if it passes from the neighbour back.
pub proof fn lemma_passes_symmetric(a: Set<Corner>, b: Set<Corner>, dir: Direction)
    ensures
        passes(a, b, dir) == passes(b, a, dir.inverse()),
{
    if passes(a, b, dir) {
        let c = choose|c: Corner| #[trigger]
            face(dir).contains(c) && !a.contains(c) && !b.contains(c.across(dir));
        let back = c.across(dir);
        assert(back.across(dir.inverse()) == c);
        assert(face(dir.inverse()).contains(back));
    }
    if passes(b, a, dir.inverse()) {
        let c = choose|c: Corner| #[trigger]
            face(dir.inverse()).contains(c) && !b.contains(c) && !a.contains(
                c.across(dir.inverse()),
            );
        let back = c.across(dir.inverse());
        assert(back.across(dir) == c);
        assert(face(dir).contains(back));
    }
}

/// Where the signal passes out of a block it also leaves that block.
pub proof fn lemma_passes_sees(a: Set<Corner>, b: Set<Corner>, dir: Direction)
    requires
        passes(a, b, dir),
    ensures
        sees(a, dir),
{
    let c = choose|c: Corner| #[trigger]
        face(dir).contains(c) && !a.contains(c) && !b.contains(c.across(dir));
    assert(face(dir).contains(c) && !a.contains(c));
}

/// Emptying octants never closes a gap.
pub proof fn lemma_fewer_octants(
    a: Set<Corner>,
    b: Set<Corner>,
    thin_a: Set<Corner>,
    thin_b: Set<Corner>,
    dir: Direction,
)
    requires
        thin_a.subset_of(a),
        thin_b.subset_of(b),
    ensures
        sees(a, dir) ==> sees(thin_a, dir),
        passes(a, b, dir) ==> passes(thin_a, thin_b, dir),
{
    if sees(a, dir) {
        let c = choose|c: Corner| #[trigger] face(dir).contains(c) && !a.contains(c);
        assert(face(dir).contains(c) && !thin_a.contains(c));
    }
    if passes(a, b, dir) {
        let c = choose|c: Corner| #[trigger]
            face(dir).contains(c) && !a.contains(c) && !b.contains(c.across(dir));
        assert(face(dir).contains(c) && !thin_a.contains(c) && !thin_b.contains(c.across(dir)));
    }
}

/// A bottom slab beside a top slab: the signal leaves each of them towards
/// the other, since half of the face between them is empty on either side,
/// but it does not pass, since no empty octant meets an empty one. Stacked
/// the other way round, a top slab below a bottom slab, the two filled faces
/// touch: the signal neither leaves nor passes.
pub proof fn lemma_slabs_side_by_side(dir: Direction)
    ensures
        dir.dy() == 0 ==> {
            &&& sees(slab_octants("bottom"@), dir)
            &&& sees(slab_octants("top"@), dir.inverse())
            &&& !passes(slab_octants("bottom"@), slab_octants("top"@), dir)
            &&& !passes(slab_octants("top"@), slab_octants("bottom"@), dir.inverse())
        },
        !sees(slab_octants("top"@), Direction::Up),
        !passes(slab_octants("top"@), slab_octants("bottom"@), Direction::Up),
        passes(slab_octants("bottom"@), slab_octants("top"@), Direction::Up),
{
    reveal_strlit("bottom");
    reveal_strlit("top");
    reveal_strlit("double");
    assert("bottom"@.len() == 6 && "top"@.len() == 3 && "double"@.len() == 6);
    assert("bottom"@[0] == 'b' && "double"@[0] == 'd');
    let low = slab_octants("bottom"@);
    let high = slab_octants("top"@);
    assert(low == face(Direction::Down));
    assert(high == face(Direction::Up));
    if dir.dy() == 0 {
        let c = Corner { y: 1, ..side_corner(dir, 0) };
        assert(face(dir).contains(c) && !low.contains(c));
        let d = Corner { y: 0, ..side_corner(dir.inverse(), 0) };
        assert(face(dir.inverse()).contains(d) && !high.contains(d));
        assert forall|c: Corner| face(dir).contains(c) implies low.contains(c) || high.contains(
            c.across(dir),
        ) by {}
        lemma_passes_symmetric(low, high, dir);
    }
    let up = Direction::Up;
    assert forall|c: Corner| face(up).contains(c) implies high.contains(c) by {}
    let g = Corner { x: 0, y: 1, z: 0 };
    assert(face(up).contains(g) && !low.contains(g) && !high.contains(g.across(up)));
}

} // verus!
