//! Boxes of grid positions and the numbering of the positions in them.

use vstd::prelude::*;
use crate::vec3::Vec3;

verus! {

/// An axis-aligned box of grid positions, both corners included.
#[derive(Clone, Copy, Debug, PartialEq, Eq, Structural)]
pub struct Bounds {
    pub min: Vec3,
    pub max: Vec3,
}

impl Bounds {
    pub open spec fn size_x(self) -> int {
        self.max.x - self.min.x + 1
    }

    pub open spec fn size_y(self) -> int {
        self.max.y - self.min.y + 1
    }

    pub open spec fn size_z(self) -> int {
        self.max.z - self.min.z + 1
    }

    /// The number of positions in the box.
    pub open spec fn volume(self) -> int {
        self.size_x() * self.size_z() * self.size_y()
    }

    /// The box is not empty, its positions can be numbered by a `usize`, and
    /// each of them has all six neighbours within the range of `i32`.
    pub open spec fn wf(self) -> bool {
        &&& i32::MIN < self.min.x <= self.max.x < i32::MAX
        &&& i32::MIN < self.min.y <= self.max.y < i32::MAX
        &&& i32::MIN < self.min.z <= self.max.z < i32::MAX
        &&& self.volume() <= usize::MAX
    }

    pub open spec fn contains(self, p: Vec3) -> bool {
        &&& self.min.x <= p.x <= self.max.x
        &&& self.min.y <= p.y <= self.max.y
        &&& self.min.z <= p.z <= self.max.z
    }

    /// The number of the position `p` in the box: x runs fastest, then z,
    /// then y.
    pub open spec fn index_of(self, p: Vec3) -> int {
        (p.x - self.min.x) + (p.z - self.min.z) * self.size_x() + (p.y - self.min.y) * (
        self.size_x() * self.size_z())
    }

    /// The position with the number `i`.
    pub open spec fn position_at(self, i: int) -> Vec3 {
        Vec3 {
            x: (self.min.x + i % self.size_x()) as i32,
            y: (self.min.y + i / (self.size_x() * self.size_z())) as i32,
            z: (self.min.z + i / self.size_x() % self.size_z()) as i32,
        }
    }

    /// The box grown by one position on every face.
    pub open spec fn padded(self) -> Bounds {
        Bounds {
            min: Vec3 {
                x: (self.min.x - 1) as i32,
                y: (self.min.y - 1) as i32,
                z: (self.min.z - 1) as i32,
            },
            max: Vec3 {
                x: (self.max.x + 1) as i32,
                y: (self.max.y + 1) as i32,
                z: (self.max.z + 1) as i32,
            },
        }
    }

    /// The position lies in the layer of padding: in the grown box and not
    /// in the box.
    pub open spec fn just_outside(self, p: Vec3) -> bool {
        self.padded().contains(p) && !self.contains(p)
    }

    /// The numbers of the positions of the box are those below its volume.
    pub proof fn lemma_index_range(self, p: Vec3)
        requires
            self.min.x <= self.max.x,
            self.min.y <= self.max.y,
            self.min.z <= self.max.z,
            self.contains(p),
        ensures
            0 <= self.index_of(p) < self.volume(),
            self.position_at(self.index_of(p)) == p,
            0 < self.size_x() <= self.size_x() * self.size_z() <= self.volume(),
            0 <= (p.z - self.min.z) * self.size_x() <= (p.x - self.min.x) + (p.z - self.min.z)
                * self.size_x() < self.size_x() * self.size_z(),
            0 <= (p.y - self.min.y) * (self.size_x() * self.size_z()),
    {
        let sx = self.size_x();
        let sy = self.size_y();
        let sz = self.size_z();
        let ax = p.x - self.min.x;
        let ay = p.y - self.min.y;
        let az = p.z - self.min.z;
        let layer = sx * sz;
        let low = ax + az * sx;
        assert(0 <= az * sx && low < layer && 0 < sx <= layer) by (nonlinear_arith)
            requires
                0 <= ax < sx,
                0 <= az < sz,
                layer == sx * sz,
                low == ax + az * sx,
        ;
        assert(0 <= ay * layer && low + ay * layer < layer * sy && layer <= layer * sy)
            by (nonlinear_arith)
            requires
                0 <= low < layer,
                0 <= ay < sy,
        ;
        let i = self.index_of(p);
        assert(i == low + ay * layer);
        assert(i / layer == ay && i % layer == low) by (nonlinear_arith)
            requires
                i == low + ay * layer,
                0 <= low < layer,
        ;
        assert(i == ax + (az + ay * sz) * sx) by (nonlinear_arith)
            requires
                i == ax + az * sx + ay * layer,
                layer == sx * sz,
        ;
        assert(i / sx == az + ay * sz && i % sx == ax) by (nonlinear_arith)
            requires
                i == ax + (az + ay * sz) * sx,
                0 <= ax < sx,
        ;
        assert((az + ay * sz) % sz == az) by (nonlinear_arith)
            requires
                0 <= az < sz,
                0 <= ay,
        ;
    }

    /// Different positions of the box have different numbers.
    pub proof fn lemma_index_injective(self, p: Vec3, q: Vec3)
        requires
            self.min.x <= self.max.x,
            self.min.y <= self.max.y,
            self.min.z <= self.max.z,
            self.contains(p),
            self.contains(q),
            self.index_of(p) == self.index_of(q),
        ensures
            p == q,
    {
        self.lemma_index_range(p);
        self.lemma_index_range(q);
    }

    pub fn new(min: Vec3, max: Vec3) -> (b: Bounds)
        ensures
            b.min == min,
            b.max == max,
    {
        Bounds { min, max }
    }

    /// The box grown by one position on every face.
    pub fn grow(&self) -> (b: Bounds)
        requires
            self.wf(),
            self.padded().wf(),
        ensures
            b == self.padded(),
    {
        Bounds {
            min: Vec3 { x: self.min.x - 1, y: self.min.y - 1, z: self.min.z - 1 },
            max: Vec3 { x: self.max.x + 1, y: self.max.y + 1, z: self.max.z + 1 },
        }
    }

    /// Tests whether the box is well formed.
    pub fn is_wf(&self) -> (r: bool)
        ensures
            r == self.wf(),
    {
        if !(i32::MIN < self.min.x && self.min.x <= self.max.x && self.max.x < i32::MAX) {
            return false;
        }
        if !(i32::MIN < self.min.y && self.min.y <= self.max.y && self.max.y < i32::MAX) {
            return false;
        }
        if !(i32::MIN < self.min.z && self.min.z <= self.max.z && self.max.z < i32::MAX) {
            return false;
        }
        let sx: u128 = (self.max.x as i64 - self.min.x as i64 + 1) as u128;
        let sy: u128 = (self.max.y as i64 - self.min.y as i64 + 1) as u128;
        let sz: u128 = (self.max.z as i64 - self.min.z as i64 + 1) as u128;
        assert(0 < sx * sz <= 0x1_0000_0000 * 0x1_0000_0000) by (nonlinear_arith)
            requires
                0 < sx <= 0x1_0000_0000,
                0 < sz <= 0x1_0000_0000,
        ;
        let layer: u128 = sx * sz;
        assert(layer * sy <= 0x1_0000_0000_0000_0000 * 0x1_0000_0000) by (nonlinear_arith)
            requires
                0 < layer <= 0x1_0000_0000_0000_0000,
                0 < sy <= 0x1_0000_0000,
        ;
        layer * sy <= usize::MAX as u128
    }

    pub fn contains_pos(&self, p: &Vec3) -> (r: bool)
        ensures
            r == self.contains(*p),
    {
        self.min.x <= p.x && p.x <= self.max.x && self.min.y <= p.y && p.y <= self.max.y
            && self.min.z <= p.z && p.z <= self.max.z
    }

    /// The number of positions in the box.
    pub fn len(&self) -> (n: usize)
        requires
            self.wf(),
        ensures
            n == self.volume(),
    {
        let sx: usize = (self.max.x as i64 - self.min.x as i64 + 1) as usize;
        let sy: usize = (self.max.y as i64 - self.min.y as i64 + 1) as usize;
        let sz: usize = (self.max.z as i64 - self.min.z as i64 + 1) as usize;
        proof {
            self.lemma_index_range(self.min);
        }
        sx * sz * sy
    }

    /// The number of the position `p`, if the box holds it.
    pub fn index(&self, p: &Vec3) -> (r: Option<usize>)
        requires
            self.wf(),
        ensures
            match r {
                Some(i) => self.contains(*p) && i == self.index_of(*p),
                None => !self.contains(*p),
            },
    {
        if !self.contains_pos(p) {
            return None;
        }
        proof {
            self.lemma_index_range(*p);
        }
        let sx: usize = (self.max.x as i64 - self.min.x as i64 + 1) as usize;
        let sz: usize = (self.max.z as i64 - self.min.z as i64 + 1) as usize;
        let ax: usize = (p.x as i64 - self.min.x as i64) as usize;
        let ay: usize = (p.y as i64 - self.min.y as i64) as usize;
        let az: usize = (p.z as i64 - self.min.z as i64) as usize;
        Some(ax + az * sx + ay * (sx * sz))
    }

    /// The position with the number `i`.
    pub fn position(&self, i: usize) -> (p: Vec3)
        requires
            self.wf(),
            i < self.volume(),
        ensures
            self.contains(p),
            self.index_of(p) == i,
            p == self.position_at(i as int),
    {
        let sx: usize = (self.max.x as i64 - self.min.x as i64 + 1) as usize;
        let sz: usize = (self.max.z as i64 - self.min.z as i64 + 1) as usize;
        proof {
            self.lemma_index_range(self.min);
            self.lemma_position_at(i as int);
        }
        let ax = i % sx;
        let az = i / sx % sz;
        let ay = i / (sx * sz);
        Vec3 {
            x: (self.min.x as i64 + ax as i64) as i32,
            y: (self.min.y as i64 + ay as i64) as i32,
            z: (self.min.z as i64 + az as i64) as i32,
        }
    }

    /// Every number below the volume is the number of one position of the
    /// box.
    pub proof fn lemma_position_at(self, i: int)
        requires
            self.min.x <= self.max.x,
            self.min.y <= self.max.y,
            self.min.z <= self.max.z,
            0 <= i < self.volume(),
        ensures
            self.contains(self.position_at(i)),
            self.index_of(self.position_at(i)) == i,
            0 <= i % self.size_x() < self.size_x(),
            0 <= i / self.size_x() % self.size_z() < self.size_z(),
            0 <= i / (self.size_x() * self.size_z()) < self.size_y(),
    {
        let sx = self.size_x();
        let sy = self.size_y();
        let sz = self.size_z();
        let layer = sx * sz;
        assert(0 < layer) by (nonlinear_arith)
            requires
                0 < sx,
                0 < sz,
                layer == sx * sz,
        ;
        let ax = i % sx;
        let row = i / sx;
        let az = row % sz;
        let ay = i / layer;
        assert(0 <= ax < sx && i == row * sx + ax && 0 <= row) by (nonlinear_arith)
            requires
                0 <= i,
                0 < sx,
                ax == i % sx,
                row == i / sx,
        ;
        assert(0 <= az < sz && row == (row / sz) * sz + az && 0 <= row / sz) by (nonlinear_arith)
            requires
                0 <= row,
                0 < sz,
                az == row % sz,
        ;
        let up = row / sz;
        assert(i == up * layer + (az * sx + ax)) by (nonlinear_arith)
            requires
                i == row * sx + ax,
                row == up * sz + az,
                layer == sx * sz,
        ;
        assert(0 <= az * sx + ax < layer) by (nonlinear_arith)
            requires
                0 <= ax < sx,
                0 <= az < sz,
                layer == sx * sz,
        ;
        assert(ay == up) by (nonlinear_arith)
            requires
                i == up * layer + (az * sx + ax),
                0 <= az * sx + ax < layer,
                ay == i / layer,
        ;
        assert(ay < sy) by (nonlinear_arith)
            requires
                i == ay * layer + (az * sx + ax),
                0 <= az * sx + ax,
                i < layer * sy,
                0 < layer,
        ;
    }
}

} // verus!
