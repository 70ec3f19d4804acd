//! Octants, faces and edges of a block, and the shapes of slabs and stairs.

use vstd::prelude::*;
use crate::direction::Direction;
use crate::text::str_eq;

verus! {

/// One of the eight octants of a block: its low (0) or high (1) half along
/// each axis. West, bottom and north are low; east, top and south are high.
#[derive(Clone, Copy, Debug, PartialEq, Eq, Structural)]
pub struct Corner {
    pub x: usize,
    pub y: usize,
    pub z: usize,
}

impl Corner {
    pub fn new(x: usize, y: usize, z: usize) -> (c: Corner)
        ensures
            c == (Corner { x, y, z }),
    {
        Corner { x, y, z }
    }

    /// Every coordinate is 0 or 1.
    pub open spec fn wf(self) -> bool {
        self.x < 2 && self.y < 2 && self.z < 2
    }

    /// The octant borders the face of its block that looks in `dir`.
    pub open spec fn on_side(self, dir: Direction) -> bool {
        match dir {
            Direction::Up => self.y == 1,
            Direction::Down => self.y == 0,
            Direction::North => self.z == 0,
            Direction::South => self.z == 1,
            Direction::East => self.x == 1,
            Direction::West => self.x == 0,
        }
    }

    /// The octant of the neighbouring block that touches this octant through
    /// the face looking in `dir`: the coordinate along the axis of `dir` is
    /// swapped, the other two stay.
    pub open spec fn across(self, dir: Direction) -> Corner {
        match dir {
            Direction::Up | Direction::Down => Corner { y: (1 - self.y) as usize, ..self },
            Direction::North | Direction::South => Corner { z: (1 - self.z) as usize, ..self },
            Direction::East | Direction::West => Corner { x: (1 - self.x) as usize, ..self },
        }
    }

    /// Tests whether the octant borders the face looking in `dir`.
    pub fn is_on_side(&self, dir: Direction) -> (r: bool)
        ensures
            r == self.on_side(dir),
    {
        match dir {
            Direction::Up => self.y == 1,
            Direction::Down => self.y == 0,
            Direction::North => self.z == 0,
            Direction::South => self.z == 1,
            Direction::East => self.x == 1,
            Direction::West => self.x == 0,
        }
    }
}

/// The eight octants, x slowest and z fastest.
pub open spec fn corner_seq() -> Seq<Corner> {
    Seq::new(8, |i: int| Corner { x: (i / 4) as usize, y: (i / 2 % 2) as usize, z: (i % 2) as usize })
}

/// The octants on the face looking in `dir`, in the order of `corner_seq`.
pub open spec fn side_seq(dir: Direction) -> Seq<Corner> {
    corner_seq().filter(|c: Corner| c.on_side(dir))
}

/// The octants on the face looking in `a` that also lie on the face looking
/// in `b`, in the order of `corner_seq`.
pub open spec fn edge_seq(a: Direction, b: Direction) -> Seq<Corner> {
    side_seq(a).filter(|c: Corner| c.on_side(b))
}

/// The octants on the face looking in `dir`, as a set.
pub open spec fn face(dir: Direction) -> Set<Corner> {
    Set::new(|c: Corner| c.wf() && c.on_side(dir))
}

/// All eight octants.
pub open spec fn all_octants() -> Set<Corner> {
    Set::new(|c: Corner| c.wf())
}

/// The `i`-th octant of the face looking in `dir`: the coordinate along the
/// axis of `dir` is fixed, the other two count up with `i`.
pub open spec fn side_corner(dir: Direction, i: int) -> Corner {
    let a = (i / 2) as usize;
    let b = (i % 2) as usize;
    match dir {
        Direction::Up => Corner { x: a, y: 1, z: b },
        Direction::Down => Corner { x: a, y: 0, z: b },
        Direction::North => Corner { x: a, y: b, z: 0 },
        Direction::South => Corner { x: a, y: b, z: 1 },
        Direction::East => Corner { x: 1, y: a, z: b },
        Direction::West => Corner { x: 0, y: a, z: b },
    }
}

proof fn lemma_filter_push<A>(s: Seq<A>, a: A, pred: spec_fn(A) -> bool)
    ensures
        s.push(a).filter(pred) == if pred(a) {
            s.filter(pred).push(a)
        } else {
            s.filter(pred)
        },
{
    reveal(Seq::filter);
    assert(s.push(a).drop_last() =~= s);
}

/// A face has four octants, and `side_corner` lists them in order.
pub proof fn lemma_side_seq(dir: Direction)
    ensures
        side_seq(dir) == Seq::new(4, |i: int| side_corner(dir, i)),
        side_seq(dir).len() == 4,
        forall|c: Corner| face(dir).contains(c) <==> #[trigger] side_seq(dir).contains(c),
{
    let pred = |c: Corner| c.on_side(dir);
    let all = corner_seq();
    let e = Seq::<Corner>::empty();
    assert(e.filter(pred) == e) by {
        reveal(Seq::filter);
    }
    let s1 = e.push(all[0]);
    let s2 = s1.push(all[1]);
    let s3 = s2.push(all[2]);
    let s4 = s3.push(all[3]);
    let s5 = s4.push(all[4]);
    let s6 = s5.push(all[5]);
    let s7 = s6.push(all[6]);
    let s8 = s7.push(all[7]);
    lemma_filter_push(e, all[0], pred);
    lemma_filter_push(s1, all[1], pred);
    lemma_filter_push(s2, all[2], pred);
    lemma_filter_push(s3, all[3], pred);
    lemma_filter_push(s4, all[4], pred);
    lemma_filter_push(s5, all[5], pred);
    lemma_filter_push(s6, all[6], pred);
    lemma_filter_push(s7, all[7], pred);
    assert(s8 =~= all);
    let t = Seq::new(4, |i: int| side_corner(dir, i));
    assert(side_seq(dir) =~= t);
    assert forall|c: Corner| face(dir).contains(c) <==> #[trigger] side_seq(dir).contains(c) by {
        if face(dir).contains(c) {
            let i: int = match dir {
                Direction::Up | Direction::Down => 2 * c.x + c.z,
                Direction::North | Direction::South => 2 * c.x + c.y,
                Direction::East | Direction::West => 2 * c.y + c.z,
            };
            assert(t[i] == c);
        }
        if side_seq(dir).contains(c) {
            let i = choose|i: int| 0 <= i < 4 && t[i] == c;
            assert(t[i] == c);
        }
    }
}

pub fn all_corners() -> (v: Vec<Corner>)
    ensures
        v@ == corner_seq(),
{
    let mut v: Vec<Corner> = Vec::new();
    let mut i: usize = 0;
    while i < 8
        invariant
            i <= 8,
            v@ == corner_seq().take(i as int),
        decreases 8 - i,
    {
        v.push(Corner::new(i / 4, i / 2 % 2, i % 2));
        assert(v@ =~= corner_seq().take(i + 1));
        i += 1;
    }
    assert(corner_seq().take(8) =~= corner_seq());
    v
}

pub fn side(dir: Direction) -> (v: Vec<Corner>)
    ensures
        v@ == side_seq(dir),
{
    let all = all_corners();
    let ghost pred = |c: Corner| c.on_side(dir);
    let mut v: Vec<Corner> = Vec::new();
    let mut i: usize = 0;
    assert(all@.take(0).filter(pred) =~= Seq::<Corner>::empty()) by {
        reveal(Seq::filter);
    }
    while i < all.len()
        invariant
            i <= all.len(),
            all@ == corner_seq(),
            pred == (|c: Corner| c.on_side(dir)),
            v@ == all@.take(i as int).filter(pred),
        decreases all.len() - i,
    {
        let c = all[i];
        proof {
            lemma_filter_push(all@.take(i as int), c, pred);
            assert(all@.take(i as int).push(c) =~= all@.take(i + 1));
        }
        if c.is_on_side(dir) {
            v.push(c);
        }
        i += 1;
    }
    assert(all@.take(all.len() as int) =~= all@);
    v
}

pub fn edge(a: Direction, b: Direction) -> (v: Vec<Corner>)
    ensures
        v@ == edge_seq(a, b),
{
    let first = side(a);
    let ghost pred = |c: Corner| c.on_side(b);
    let mut v: Vec<Corner> = Vec::new();
    let mut i: usize = 0;
    assert(first@.take(0).filter(pred) =~= Seq::<Corner>::empty()) by {
        reveal(Seq::filter);
    }
    while i < first.len()
        invariant
            i <= first.len(),
            first@ == side_seq(a),
            pred == (|c: Corner| c.on_side(b)),
            v@ == first@.take(i as int).filter(pred),
        decreases first.len() - i,
    {
        let c = first[i];
        proof {
            lemma_filter_push(first@.take(i as int), c, pred);
            assert(first@.take(i as int).push(c) =~= first@.take(i + 1));
        }
        if c.is_on_side(b) {
            v.push(c);
        }
        i += 1;
    }
    assert(first@.take(first.len() as int) =~= first@);
    v
}

/// Which octants of a block are filled. `corners[x][y][z]` tells it for the
/// octant with these coordinates.
#[derive(Clone, Copy, Debug, PartialEq, Eq)]
pub struct BlockShape {
    pub corners: [[[bool; 2]; 2]; 2],
}

impl View for BlockShape {
    type V = Set<Corner>;

    /// The filled octants.
    open spec fn view(&self) -> Set<Corner> {
        Set::new(|c: Corner| c.wf() && self.corners[c.x as int][c.y as int][c.z as int])
    }
}

impl BlockShape {
    /// The shape of a block that fills nothing.
    pub fn empty() -> (s: BlockShape)
        ensures
            s@ == Set::<Corner>::empty(),
    {
        let s = BlockShape { corners: [[[false, false], [false, false]], [[false, false], [false, false]]] };
        assert(s@ =~= Set::<Corner>::empty());
        s
    }

    pub fn solid() -> (s: BlockShape)
        ensures
            s@ == all_octants(),
    {
        let s = BlockShape { corners: [[[true, true], [true, true]], [[true, true], [true, true]]] };
        assert(s@ =~= all_octants());
        s
    }

    /// Tells whether the octant `c` is filled.
    pub fn get(&self, c: Corner) -> (b: bool)
        requires
            c.wf(),
        ensures
            b == self@.contains(c),
    {
        self.corners[c.x][c.y][c.z]
    }

    /// Fills the octant `c`.
    pub fn fill(&mut self, c: Corner)
        requires
            c.wf(),
        ensures
            final(self)@ == old(self)@.insert(c),
    {
        self.corners[c.x][c.y][c.z] = true;
        assert(self@ =~= old(self)@.insert(c));
    }

    /// Fills every octant that `cs` lists.
    pub fn fill_all(&mut self, cs: &Vec<Corner>)
        requires
            forall|i: int| 0 <= i < cs@.len() ==> (#[trigger] cs@[i]).wf(),
        ensures
            final(self)@ == old(self)@.union(cs@.to_set()),
    {
        let mut i: usize = 0;
        assert(cs@.take(0).to_set() =~= Set::<Corner>::empty());
        assert(self@ =~= old(self)@.union(cs@.take(0).to_set()));
        while i < cs.len()
            invariant
                i <= cs.len(),
                forall|i: int| 0 <= i < cs@.len() ==> (#[trigger] cs@[i]).wf(),
                self@ == old(self)@.union(cs@.take(i as int).to_set()),
            decreases cs.len() - i,
        {
            self.fill(cs[i]);
            proof {
                let before = cs@.take(i as int);
                let after = cs@.take(i + 1);
                assert(after =~= before.push(cs@[i as int]));
                assert forall|c: Corner| after.to_set().contains(c) <==> before.to_set().insert(
                    cs@[i as int],
                ).contains(c) by {
                    if after.contains(c) {
                        let j = choose|j: int| 0 <= j < after.len() && after[j] == c;
                        if j < i {
                            assert(before[j] == c);
                        }
                    }
                    if before.contains(c) {
                        let j = choose|j: int| 0 <= j < before.len() && before[j] == c;
                        assert(after[j] == c);
                    }
                    assert(after[i as int] == cs@[i as int]);
                }
                assert(after.to_set() =~= before.to_set().insert(cs@[i as int]));
                assert(self@ =~= old(self)@.union(after.to_set()));
            }
            i += 1;
        }
        assert(cs@.take(cs.len() as int) =~= cs@);
    }
}

/// The octants that a slab of the given type fills.
pub open spec fn slab_octants(slabtype: Seq<char>) -> Set<Corner> {
    if slabtype == "double"@ {
        all_octants()
    } else if slabtype == "top"@ {
        face(Direction::Up)
    } else if slabtype == "bottom"@ {
        face(Direction::Down)
    } else {
        Set::empty()
    }
}

/// The octants that the vertical half of a stair fills.
pub open spec fn half_octants(half: Seq<char>) -> Set<Corner> {
    if half == "top"@ {
        face(Direction::Up)
    } else if half == "bottom"@ {
        face(Direction::Down)
    } else {
        Set::empty()
    }
}

/// How a stair turns: `Some((outer, right))` for the four turning shapes,
/// `None` for every other text.
pub open spec fn turn_named(shape: Seq<char>) -> Option<(bool, bool)> {
    if shape == "outer_right"@ {
        Some((true, true))
    } else if shape == "outer_left"@ {
        Some((true, false))
    } else if shape == "inner_right"@ {
        Some((false, true))
    } else if shape == "inner_left"@ {
        Some((false, false))
    } else {
        None
    }
}

/// The octants that the plan-view shape of a stair fills. A straight stair
/// fills the face it looks at. A turning stair has a second direction, a
/// quarter turn from the first: an outer turn fills the edge that the two
/// faces share, an inner turn fills both faces. A facing that names no
/// direction, a shape that is none of these, or a turn from up or down fills
/// nothing.
pub open spec fn plan_octants(shape: Seq<char>, facing: Seq<char>) -> Set<Corner> {
    match Direction::named(facing) {
        None => Set::empty(),
        Some(a) => if shape == "straight"@ {
            face(a)
        } else {
            match turn_named(shape) {
                None => Set::empty(),
                Some((outer, right)) => match a.turned(right) {
                    None => Set::empty(),
                    Some(b) => if outer {
                        face(a).intersect(face(b))
                    } else {
                        face(a).union(face(b))
                    },
                },
            }
        },
    }
}

/// The octants that a stair with the given attributes fills.
pub open spec fn stairs_octants(shape: Seq<char>, half: Seq<char>, facing: Seq<char>) -> Set<
    Corner,
> {
    half_octants(half).union(plan_octants(shape, facing))
}

/// The octants listed for a face are the face, and those listed for an edge
/// are what two faces share.
pub proof fn lemma_side_edge_sets(a: Direction, b: Direction)
    ensures
        side_seq(a).to_set() == face(a),
        edge_seq(a, b).to_set() == face(a).intersect(face(b)),
        forall|i: int| 0 <= i < side_seq(a).len() ==> (#[trigger] side_seq(a)[i]).wf(),
        forall|i: int| 0 <= i < edge_seq(a, b).len() ==> (#[trigger] edge_seq(a, b)[i]).wf(),
{
    lemma_side_seq(a);
    let pred = |c: Corner| c.on_side(b);
    assert(side_seq(a).to_set() =~= face(a));
    assert forall|i: int| 0 <= i < side_seq(a).len() implies (#[trigger] side_seq(a)[i]).wf() by {
        assert(side_seq(a).contains(side_seq(a)[i]));
    }
    assert forall|c: Corner| #[trigger]
        edge_seq(a, b).contains(c) <==> face(a).contains(c) && face(b).contains(c) by {
        if edge_seq(a, b).contains(c) {
            let i = choose|i: int| 0 <= i < edge_seq(a, b).len() && edge_seq(a, b)[i] == c;
            side_seq(a).lemma_filter_pred(pred, i);
            side_seq(a).lemma_filter_contains_rev(pred, c);
        }
        if face(a).contains(c) && face(b).contains(c) {
            let i = choose|i: int| 0 <= i < side_seq(a).len() && side_seq(a)[i] == c;
            side_seq(a).lemma_filter_contains(pred, i);
        }
    }
    assert(edge_seq(a, b).to_set() =~= face(a).intersect(face(b)));
    assert forall|i: int| 0 <= i < edge_seq(a, b).len() implies (#[trigger] edge_seq(
        a,
        b,
    )[i]).wf() by {
        assert(edge_seq(a, b).contains(edge_seq(a, b)[i]));
    }
}

/// Reads the turn of a stair from its shape attribute.
fn turn_of(shape: &str) -> (r: Option<(bool, bool)>)
    ensures
        r == turn_named(shape@),
{
    if str_eq(shape, "outer_right") {
        Some((true, true))
    } else if str_eq(shape, "outer_left") {
        Some((true, false))
    } else if str_eq(shape, "inner_right") {
        Some((false, true))
    } else if str_eq(shape, "inner_left") {
        Some((false, false))
    } else {
        None
    }
}

pub fn from_stairs_props(shape: &str, half: &str, facing: &str) -> (blockshape: BlockShape)
    ensures
        blockshape@ == stairs_octants(shape@, half@, facing@),
{
    let mut blockshape = BlockShape::empty();
    proof {
        reveal_strlit("top");
        reveal_strlit("bottom");
        assert("top"@.len() == 3 && "bottom"@.len() == 6);
        lemma_side_edge_sets(Direction::Up, Direction::Up);
        lemma_side_edge_sets(Direction::Down, Direction::Down);
    }
    if str_eq(half, "top") {
        blockshape.fill_all(&side(Direction::Up));
    }
    if str_eq(half, "bottom") {
        blockshape.fill_all(&side(Direction::Down));
    }
    assert(blockshape@ =~= half_octants(half@));
    match Direction::from_name(facing) {
        Ok(side_a) => {
            if str_eq(shape, "straight") {
                proof {
                    lemma_side_edge_sets(side_a, side_a);
                }
                blockshape.fill_all(&side(side_a));
            } else {
                match turn_of(shape) {
                    Some((outer, right)) => {
                        match side_a.turn(right) {
                            Some(side_b) => {
                                proof {
                                    lemma_side_edge_sets(side_a, side_b);
                                    lemma_side_edge_sets(side_b, side_a);
                                }
                                if outer {
                                    blockshape.fill_all(&edge(side_a, side_b));
                                } else {
                                    blockshape.fill_all(&side(side_a));
                                    blockshape.fill_all(&side(side_b));
                                }
                            },
                            None => {},
                        }
                    },
                    None => {},
                }
            }
        },
        Err(_) => {},
    }
    assert(blockshape@ =~= stairs_octants(shape@, half@, facing@));
    blockshape
}

impl BlockShape {
    pub fn from_slab_props(slabtype: &str) -> (blockshape: BlockShape)
        ensures
            blockshape@ == slab_octants(slabtype@),
    {
        let mut blockshape = BlockShape::empty();
        if str_eq(slabtype, "double") {
            return BlockShape::solid();
        }
        proof {
            reveal_strlit("top");
            reveal_strlit("bottom");
            assert("top"@.len() == 3 && "bottom"@.len() == 6);
            lemma_side_edge_sets(Direction::Up, Direction::Up);
            lemma_side_edge_sets(Direction::Down, Direction::Down);
        }
        if str_eq(slabtype, "top") {
            blockshape.fill_all(&side(Direction::Up));
        }
        if str_eq(slabtype, "bottom") {
            blockshape.fill_all(&side(Direction::Down));
        }
        assert(blockshape@ =~= slab_octants(slabtype@));
        blockshape
    }
}

} // verus!
