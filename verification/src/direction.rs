//! The six directions from a block to its neighbours.

use vstd::prelude::*;
use crate::error::Error;
use crate::text::str_eq;
use crate::vec3::Vec3;

verus! {

/// One of the six faces through which a block touches a neighbour.
#[derive(Clone, Copy, Debug, PartialEq, Eq, Hash, Structural)]
pub enum Direction {
    Up,
    Down,
    North,
    South,
    East,
    West,
}

impl Direction {
    /// Change of the x coordinate on a step in this direction.
    pub open spec fn dx(self) -> int {
        match self {
            Direction::East => 1,
            Direction::West => -1,
            _ => 0,
        }
    }

    /// Change of the y coordinate on a step in this direction.
    pub open spec fn dy(self) -> int {
        match self {
            Direction::Up => 1,
            Direction::Down => -1,
            _ => 0,
        }
    }

    /// Change of the z coordinate on a step in this direction.
    pub open spec fn dz(self) -> int {
        match self {
            Direction::South => 1,
            Direction::North => -1,
            _ => 0,
        }
    }

    /// The direction that undoes a step in this one.
    pub open spec fn inverse(self) -> Direction {
        match self {
            Direction::Up => Direction::Down,
            Direction::Down => Direction::Up,
            Direction::North => Direction::South,
            Direction::South => Direction::North,
            Direction::East => Direction::West,
            Direction::West => Direction::East,
        }
    }

    /// The lower-case name of the direction.
    pub open spec fn name(self) -> Seq<char> {
        match self {
            Direction::Up => "up"@,
            Direction::Down => "down"@,
            Direction::North => "north"@,
            Direction::South => "south"@,
            Direction::East => "east"@,
            Direction::West => "west"@,
        }
    }

    /// The direction that a name stands for, if any.
    pub open spec fn named(name: Seq<char>) -> Option<Direction> {
        if name == "north"@ {
            Some(Direction::North)
        } else if name == "south"@ {
            Some(Direction::South)
        } else if name == "east"@ {
            Some(Direction::East)
        } else if name == "west"@ {
            Some(Direction::West)
        } else if name == "up"@ {
            Some(Direction::Up)
        } else if name == "down"@ {
            Some(Direction::Down)
        } else {
            None
        }
    }

    /// The horizontal direction a quarter turn to the right or to the left
    /// of this one, seen from above. Up and down have none.
    pub open spec fn turned(self, right: bool) -> Option<Direction> {
        match self {
            Direction::North => Some(if right { Direction::East } else { Direction::West }),
            Direction::East => Some(if right { Direction::South } else { Direction::North }),
            Direction::South => Some(if right { Direction::West } else { Direction::East }),
            Direction::West => Some(if right { Direction::North } else { Direction::South }),
            Direction::Up | Direction::Down => None,
        }
    }

    /// The place of the direction in `order`.
    pub open spec fn rank(self) -> int {
        match self {
            Direction::Up => 0,
            Direction::Down => 1,
            Direction::North => 2,
            Direction::South => 3,
            Direction::East => 4,
            Direction::West => 5,
        }
    }

    /// The six directions in the order in which a traversal tries them.
    pub open spec fn order() -> Seq<Direction> {
        seq![
            Direction::Up,
            Direction::Down,
            Direction::North,
            Direction::South,
            Direction::East,
            Direction::West,
        ]
    }

    pub fn to_vec3(self) -> (v: Vec3)
        ensures
            v.x == self.dx(),
            v.y == self.dy(),
            v.z == self.dz(),
    {
        match self {
            Direction::Up => Vec3::new(0, 1, 0),
            Direction::Down => Vec3::new(0, -1, 0),
            Direction::North => Vec3::new(0, 0, -1),
            Direction::South => Vec3::new(0, 0, 1),
            Direction::East => Vec3::new(1, 0, 0),
            Direction::West => Vec3::new(-1, 0, 0),
        }
    }

    pub fn opposite(&self) -> (d: Direction)
        ensures
            d == self.inverse(),
    {
        match self {
            Direction::Up => Direction::Down,
            Direction::Down => Direction::Up,
            Direction::North => Direction::South,
            Direction::South => Direction::North,
            Direction::East => Direction::West,
            Direction::West => Direction::East,
        }
    }

    pub fn from_name(name: &str) -> (r: Result<Direction, Error>)
        ensures
            match r {
                Ok(d) => Direction::named(name@) == Some(d),
                Err(e) => e == Error::UnknownDirection && Direction::named(name@) is None,
            },
    {
        if str_eq(name, "north") {
            Ok(Direction::North)
        } else if str_eq(name, "south") {
            Ok(Direction::South)
        } else if str_eq(name, "east") {
            Ok(Direction::East)
        } else if str_eq(name, "west") {
            Ok(Direction::West)
        } else if str_eq(name, "up") {
            Ok(Direction::Up)
        } else if str_eq(name, "down") {
            Ok(Direction::Down)
        } else {
            Err(Error::UnknownDirection)
        }
    }

    /// Computes the quarter turn of `turned`.
    pub fn turn(self, right: bool) -> (r: Option<Direction>)
        ensures
            r == self.turned(right),
    {
        match self {
            Direction::North => Some(if right { Direction::East } else { Direction::West }),
            Direction::East => Some(if right { Direction::South } else { Direction::North }),
            Direction::South => Some(if right { Direction::West } else { Direction::East }),
            Direction::West => Some(if right { Direction::North } else { Direction::South }),
            Direction::Up => None,
            Direction::Down => None,
        }
    }

    pub fn all() -> (ds: [Direction; 6])
        ensures
            ds@ == Direction::order(),
    {
        [
            Direction::Up,
            Direction::Down,
            Direction::North,
            Direction::South,
            Direction::East,
            Direction::West,
        ]
    }
}

/// No two directions share a name, and each name stands for its direction.
pub proof fn lemma_names_distinct(a: Direction, b: Direction)
    ensures
        a.name() == b.name() <==> a == b,
        Direction::named(a.name()) == Some(a),
{
    reveal_strlit("up");
    reveal_strlit("down");
    reveal_strlit("north");
    reveal_strlit("south");
    reveal_strlit("east");
    reveal_strlit("west");
    assert("up"@.len() == 2 && "up"@[0] == 'u');
    assert("down"@.len() == 4 && "down"@[0] == 'd');
    assert("north"@.len() == 5 && "north"@[0] == 'n');
    assert("south"@.len() == 5 && "south"@[0] == 's');
    assert("east"@.len() == 4 && "east"@[0] == 'e');
    assert("west"@.len() == 4 && "west"@[0] == 'w');
}

/// Taking the opposite twice gives the direction back, and a step followed
/// by the opposite step changes nothing.
pub proof fn lemma_opposite_involution(d: Direction)
    ensures
        d.inverse().inverse() == d,
        d.inverse() != d,
        d.inverse().dx() == -d.dx(),
        d.inverse().dy() == -d.dy(),
        d.inverse().dz() == -d.dz(),
{
}

} // verus!
