use vstd::prelude::*;

use crate::types::{GridPoint, Ray};

verus! {

/// An axis-aligned box, given by its least and its greatest corner.
#[derive(Clone, Copy, Debug, PartialEq, Eq, Structural)]
pub struct BoundingBox {
    pub min_corner: GridPoint,
    pub max_corner: GridPoint,
}

pub open spec fn min_i32(a: i32, b: i32) -> i32 {
    if a <= b { a } else { b }
}

pub open spec fn max_i32(a: i32, b: i32) -> i32 {
    if a >= b { a } else { b }
}

fn min_of(a: i32, b: i32) -> (r: i32)
    ensures
        r == min_i32(a, b),
{
    if a <= b { a } else { b }
}

fn max_of(a: i32, b: i32) -> (r: i32)
    ensures
        r == max_i32(a, b),
{
    if a >= b { a } else { b }
}

/// The midpoint of `lo` and `hi`, rounded down.
pub open spec fn mid_i32(lo: i32, hi: i32) -> int {
    lo + (hi - lo) / 2
}

impl BoundingBox {
    /// Every coordinate of the least corner is at most that of the greatest.
    pub open spec fn wf(self) -> bool {
        self.min_corner.x <= self.max_corner.x
        && self.min_corner.y <= self.max_corner.y
        && self.min_corner.z <= self.max_corner.z
    }

    /// The smallest box that contains both `self` and `other`.
    pub open spec fn union(self, other: BoundingBox) -> BoundingBox {
        BoundingBox {
            min_corner: GridPoint {
                x: min_i32(self.min_corner.x, other.min_corner.x),
                y: min_i32(self.min_corner.y, other.min_corner.y),
                z: min_i32(self.min_corner.z, other.min_corner.z),
            },
            max_corner: GridPoint {
                x: max_i32(self.max_corner.x, other.max_corner.x),
                y: max_i32(self.max_corner.y, other.max_corner.y),
                z: max_i32(self.max_corner.z, other.max_corner.z),
            },
        }
    }

    /// `self` holds every point of `other`.
    pub open spec fn contains(self, other: BoundingBox) -> bool {
        self.min_corner.x <= other.min_corner.x && other.max_corner.x <= self.max_corner.x
        && self.min_corner.y <= other.min_corner.y && other.max_corner.y <= self.max_corner.y
        && self.min_corner.z <= other.min_corner.z && other.max_corner.z <= self.max_corner.z
    }

    /// The point halfway between the corners, rounded down on each axis.
    pub open spec fn centre(self) -> GridPoint {
        GridPoint {
            x: mid_i32(self.min_corner.x, self.max_corner.x) as i32,
            y: mid_i32(self.min_corner.y, self.max_corner.y) as i32,
            z: mid_i32(self.min_corner.z, self.max_corner.z) as i32,
        }
    }

    /// Grows `self` to the smallest box that contains both `self` and `other`.
    pub fn expand(&mut self, other: &BoundingBox)
        ensures
            *final(self) == old(self).union(*other),
    {
        self.min_corner.x = min_of(self.min_corner.x, other.min_corner.x);
        self.min_corner.y = min_of(self.min_corner.y, other.min_corner.y);
        self.min_corner.z = min_of(self.min_corner.z, other.min_corner.z);

        self.max_corner.x = max_of(self.max_corner.x, other.max_corner.x);
        self.max_corner.y = max_of(self.max_corner.y, other.max_corner.y);
        self.max_corner.z = max_of(self.max_corner.z, other.max_corner.z);
    }
}

fn mid_of(lo: i32, hi: i32) -> (r: i32)
    requires
        lo <= hi,
    ensures
        r == mid_i32(lo, hi),
        lo <= r <= hi,
{
    let half: i64 = (hi as i64 - lo as i64) / 2;
    (lo as i64 + half) as i32
}

/// The interval of ray parameters for which a ray stays between two planes
/// `lo` and `hi` across one axis, from an origin coordinate `o` along a
/// direction coordinate `d`: the interval from `lo_num / den` to
/// `hi_num / den`. Where `d == 0` the interval has no ends (`den == 0`).
struct Slab {
    lo_num: i64,
    hi_num: i64,
    den: i64,
}

pub open spec fn axis_slab(lo: int, hi: int, o: int, d: int) -> (int, int, int) {
    if d > 0 {
        (lo - o, hi - o, d)
    } else if d < 0 {
        (o - hi, o - lo, -d)
    } else {
        (0, 0, 0)
    }
}

/// A ray parallel to the axis (`d == 0`) whose origin lies outside `lo..=hi`
/// never enters the slab.
pub open spec fn slab_blocks(lo: int, hi: int, o: int, d: int) -> bool {
    d == 0 && !(lo <= o && o <= hi)
}

/// The interval `s` does not start after the interval `e` ends; an interval
/// without ends neither starts nor ends.
pub open spec fn starts_before_end(s: (int, int, int), e: (int, int, int)) -> bool {
    s.2 == 0 || e.2 == 0 || s.0 * e.2 <= e.1 * s.2
}

pub open spec fn slab_x(b: BoundingBox, ray: Ray) -> (int, int, int) {
    axis_slab(b.min_corner.x as int, b.max_corner.x as int, ray.origin.x as int, ray.direction.x as int)
}

pub open spec fn slab_y(b: BoundingBox, ray: Ray) -> (int, int, int) {
    axis_slab(b.min_corner.y as int, b.max_corner.y as int, ray.origin.y as int, ray.direction.y as int)
}

pub open spec fn slab_z(b: BoundingBox, ray: Ray) -> (int, int, int) {
    axis_slab(b.min_corner.z as int, b.max_corner.z as int, ray.origin.z as int, ray.direction.z as int)
}

/// The line of `ray` passes through the box: no axis blocks it, and the
/// three slab intervals overlap, that is, the latest start is no later than
/// the earliest end. The parameter is not bounded below, so a box behind the
/// origin counts too.
pub open spec fn slab_hit(b: BoundingBox, ray: Ray) -> bool {
    let (sx, sy, sz) = (slab_x(b, ray), slab_y(b, ray), slab_z(b, ray));
    &&& !slab_blocks(b.min_corner.x as int, b.max_corner.x as int, ray.origin.x as int, ray.direction.x as int)
    &&& !slab_blocks(b.min_corner.y as int, b.max_corner.y as int, ray.origin.y as int, ray.direction.y as int)
    &&& !slab_blocks(b.min_corner.z as int, b.max_corner.z as int, ray.origin.z as int, ray.direction.z as int)
    &&& starts_before_end(sx, sx) && starts_before_end(sx, sy) && starts_before_end(sx, sz)
    &&& starts_before_end(sy, sx) && starts_before_end(sy, sy) && starts_before_end(sy, sz)
    &&& starts_before_end(sz, sx) && starts_before_end(sz, sy) && starts_before_end(sz, sz)
}

fn make_slab(lo: i32, hi: i32, o: i16, d: i16) -> (r: Slab)
    ensures
        (r.lo_num as int, r.hi_num as int, r.den as int) == axis_slab(lo as int, hi as int, o as int, d as int),
        -0x2_0000_0000 <= r.lo_num <= 0x2_0000_0000,
        -0x2_0000_0000 <= r.hi_num <= 0x2_0000_0000,
        0 <= r.den <= 0x8000,
{
    if d > 0 {
        Slab { lo_num: lo as i64 - o as i64, hi_num: hi as i64 - o as i64, den: d as i64 }
    } else if d < 0 {
        Slab { lo_num: o as i64 - hi as i64, hi_num: o as i64 - lo as i64, den: -(d as i64) }
    } else {
        Slab { lo_num: 0, hi_num: 0, den: 0 }
    }
}

fn before(s: &Slab, e: &Slab) -> (r: bool)
    requires
        -0x2_0000_0000 <= s.lo_num <= 0x2_0000_0000,
        -0x2_0000_0000 <= e.hi_num <= 0x2_0000_0000,
        0 <= s.den <= 0x8000,
        0 <= e.den <= 0x8000,
    ensures
        r == starts_before_end((s.lo_num as int, s.hi_num as int, s.den as int), (e.lo_num as int, e.hi_num as int, e.den as int)),
{
    if s.den == 0 || e.den == 0 {
        true
    } else {
        proof {
            assert(-0x2_0000_0000 * 0x8000 <= s.lo_num * e.den <= 0x2_0000_0000 * 0x8000) by (nonlinear_arith)
                requires
                    -0x2_0000_0000 <= s.lo_num <= 0x2_0000_0000,
                    0 <= e.den <= 0x8000,
            ;
            assert(-0x2_0000_0000 * 0x8000 <= e.hi_num * s.den <= 0x2_0000_0000 * 0x8000) by (nonlinear_arith)
                requires
                    -0x2_0000_0000 <= e.hi_num <= 0x2_0000_0000,
                    0 <= s.den <= 0x8000,
            ;
        }
        s.lo_num * e.den <= e.hi_num * s.den
    }
}

fn inside(lo: i32, hi: i32, o: i16) -> (r: bool)
    ensures
        r == (lo <= o && o <= hi),
{
    lo <= o as i32 && o as i32 <= hi
}

impl BoundingBox {
    /// Whether the line of `ray` passes through the box, by the slab test:
    /// the parameter intervals in which the line lies between the box's two
    /// faces across each axis must overlap. An axis along which the ray does
    /// not move blocks it exactly when the origin lies outside the box there.
    pub fn test_ray_simple(&self, ray: &Ray) -> (r: bool)
        ensures
            r == slab_hit(*self, *ray),
    {
        let x = make_slab(self.min_corner.x, self.max_corner.x, ray.origin.x, ray.direction.x);
        let y = make_slab(self.min_corner.y, self.max_corner.y, ray.origin.y, ray.direction.y);
        let z = make_slab(self.min_corner.z, self.max_corner.z, ray.origin.z, ray.direction.z);
        if ray.direction.x == 0 && !inside(self.min_corner.x, self.max_corner.x, ray.origin.x) {
            return false;
        }
        if ray.direction.y == 0 && !inside(self.min_corner.y, self.max_corner.y, ray.origin.y) {
            return false;
        }
        if ray.direction.z == 0 && !inside(self.min_corner.z, self.max_corner.z, ray.origin.z) {
            return false;
        }
        before(&x, &x) && before(&x, &y) && before(&x, &z)
        && before(&y, &x) && before(&y, &y) && before(&y, &z)
        && before(&z, &x) && before(&z, &y) && before(&z, &z)
    }
}

proof fn lemma_slab_grows(lo: int, hi: int, lo2: int, hi2: int, o: int, d: int)
    requires
        lo2 <= lo,
        hi <= hi2,
    ensures
        axis_slab(lo2, hi2, o, d).0 <= axis_slab(lo, hi, o, d).0,
        axis_slab(lo, hi, o, d).1 <= axis_slab(lo2, hi2, o, d).1,
        axis_slab(lo2, hi2, o, d).2 == axis_slab(lo, hi, o, d).2 >= 0,
        !slab_blocks(lo, hi, o, d) ==> !slab_blocks(lo2, hi2, o, d),
{
}

proof fn lemma_before_grows(s: (int, int, int), e: (int, int, int), s2: (int, int, int), e2: (int, int, int))
    requires
        starts_before_end(s, e),
        s2.0 <= s.0,
        e.1 <= e2.1,
        s2.2 == s.2 >= 0,
        e2.2 == e.2 >= 0,
    ensures
        starts_before_end(s2, e2),
{
    if s.2 != 0 && e.2 != 0 {
        assert(s2.0 * e2.2 <= e2.1 * s2.2) by (nonlinear_arith)
            requires
                s.0 * e.2 <= e.1 * s.2,
                s2.0 <= s.0,
                e.1 <= e2.1,
                s2.2 == s.2 >= 0,
                e2.2 == e.2 >= 0,
        ;
    }
}

/// A line that passes through a box passes through every box that holds it.
pub proof fn lemma_slab_hit_grows(inner: BoundingBox, outer: BoundingBox, ray: Ray)
    requires
        outer.contains(inner),
        slab_hit(inner, ray),
    ensures
        slab_hit(outer, ray),
{
    lemma_slab_grows(inner.min_corner.x as int, inner.max_corner.x as int, outer.min_corner.x as int,
        outer.max_corner.x as int, ray.origin.x as int, ray.direction.x as int);
    lemma_slab_grows(inner.min_corner.y as int, inner.max_corner.y as int, outer.min_corner.y as int,
        outer.max_corner.y as int, ray.origin.y as int, ray.direction.y as int);
    lemma_slab_grows(inner.min_corner.z as int, inner.max_corner.z as int, outer.min_corner.z as int,
        outer.max_corner.z as int, ray.origin.z as int, ray.direction.z as int);
    let (ix, iy, iz) = (slab_x(inner, ray), slab_y(inner, ray), slab_z(inner, ray));
    let (ox, oy, oz) = (slab_x(outer, ray), slab_y(outer, ray), slab_z(outer, ray));
    lemma_before_grows(ix, ix, ox, ox);
    lemma_before_grows(ix, iy, ox, oy);
    lemma_before_grows(ix, iz, ox, oz);
    lemma_before_grows(iy, ix, oy, ox);
    lemma_before_grows(iy, iy, oy, oy);
    lemma_before_grows(iy, iz, oy, oz);
    lemma_before_grows(iz, ix, oz, ox);
    lemma_before_grows(iz, iy, oz, oy);
    lemma_before_grows(iz, iz, oz, oz);
}

/// The union of two boxes holds both, is the same in either order, and
/// expanding a box by a box that it already holds leaves it as it is, so
/// that expanding twice by the same box is expanding once.
pub proof fn lemma_expand_laws(a: BoundingBox, b: BoundingBox)
    requires
        a.wf(),
        b.wf(),
    ensures
        a.union(b) == b.union(a),
        a.union(b).wf(),
        a.union(b).contains(a),
        a.union(b).contains(b),
        a.union(a) == a,
        a.union(b).union(b) == a.union(b),
        a.contains(b) ==> a.union(b) == a,
{
}

/// What every object of a scene answers: the box that holds it and a point
/// that stands for its position.
pub trait Object {
    /// The object is well formed (a box has its corners in order, a sphere
    /// a radius that is not negative).
    spec fn obj_wf(&self) -> bool;

    spec fn spec_bounding_box(&self) -> BoundingBox;

    spec fn spec_midpoint(&self) -> GridPoint;

    fn bounding_box(&self) -> (r: BoundingBox)
        requires
            self.obj_wf(),
        ensures
            r == self.spec_bounding_box(),
            r.wf(),
    ;

    fn midpoint(&self) -> (r: GridPoint)
        requires
            self.obj_wf(),
        ensures
            r == self.spec_midpoint(),
    ;
}

impl Object for BoundingBox {
    open spec fn obj_wf(&self) -> bool {
        self.wf()
    }

    open spec fn spec_bounding_box(&self) -> BoundingBox {
        *self
    }

    open spec fn spec_midpoint(&self) -> GridPoint {
        self.centre()
    }

    fn bounding_box(&self) -> (r: BoundingBox) {
        *self
    }

    fn midpoint(&self) -> (r: GridPoint) {
        GridPoint {
            x: mid_of(self.min_corner.x, self.max_corner.x),
            y: mid_of(self.min_corner.y, self.max_corner.y),
            z: mid_of(self.min_corner.z, self.max_corner.z),
        }
    }
}

} // verus!
