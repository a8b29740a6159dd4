use vstd::prelude::*;

verus! {

/// A vector or point of the scene grid: each coordinate is a whole number
/// of grid units.
#[derive(Clone, Copy, Debug, PartialEq, Eq, Structural)]
pub struct V3 {
    pub x: i16,
    pub y: i16,
    pub z: i16,
}

/// A point of the scene grid. Points and vectors share one representation.
pub type Point = V3;

/// A point with the wider coordinates that bounding boxes need: a box around
/// a sphere of the grid may reach past the grid's range.
#[derive(Clone, Copy, Debug, PartialEq, Eq, Structural)]
pub struct GridPoint {
    pub x: i32,
    pub y: i32,
    pub z: i32,
}

pub fn v3(x: i16, y: i16, z: i16) -> (r: V3)
    ensures
        r.x == x && r.y == y && r.z == z,
{
    V3 { x, y, z }
}

pub fn p3(x: i16, y: i16, z: i16) -> (r: Point)
    ensures
        r.x == x && r.y == y && r.z == z,
{
    V3 { x, y, z }
}

impl V3 {
    pub open spec fn is_zero(self) -> bool {
        self.x == 0 && self.y == 0 && self.z == 0
    }

    /// The same point with wide coordinates.
    pub open spec fn spec_widen(self) -> GridPoint {
        GridPoint { x: self.x as i32, y: self.y as i32, z: self.z as i32 }
    }

    pub fn widen(&self) -> (r: GridPoint)
        ensures
            r == self.spec_widen(),
    {
        GridPoint { x: self.x as i32, y: self.y as i32, z: self.z as i32 }
    }
}

/// The dot product of two grid vectors.
pub open spec fn dot(a: V3, b: V3) -> int {
    a.x * b.x + a.y * b.y + a.z * b.z
}

/// The dot product `(a - b) . d`, for grid points `a`, `b` and a vector `d`.
pub open spec fn diff_dot(a: V3, b: V3, d: V3) -> int {
    (a.x - b.x) * d.x + (a.y - b.y) * d.y + (a.z - b.z) * d.z
}

/// The squared distance between two grid points.
pub open spec fn dist2(a: V3, b: V3) -> int {
    (a.x - b.x) * (a.x - b.x) + (a.y - b.y) * (a.y - b.y) + (a.z - b.z) * (a.z - b.z)
}

/// A coordinate axis of three-dimensional space.
#[derive(Clone, Copy, Debug, PartialEq, Eq, Structural)]
pub enum Axis {
    X,
    Y,
    Z,
}

impl Axis {
    /// The axis that follows `self` in the cycle X, Y, Z, X, ...
    pub open spec fn spec_next(self) -> Axis {
        match self {
            Axis::X => Axis::Y,
            Axis::Y => Axis::Z,
            Axis::Z => Axis::X,
        }
    }

    /// The coordinate of `p` along this axis.
    pub open spec fn spec_get(self, p: GridPoint) -> i32 {
        match self {
            Axis::X => p.x,
            Axis::Y => p.y,
            Axis::Z => p.z,
        }
    }

    pub fn next(self) -> (r: Axis)
        ensures
            r == self.spec_next(),
    {
        match self {
            Axis::X => Axis::Y,
            Axis::Y => Axis::Z,
            Axis::Z => Axis::X,
        }
    }

    pub fn get(&self, point: &GridPoint) -> (r: i32)
        ensures
            r == self.spec_get(*point),
    {
        match *self {
            Axis::X => point.x,
            Axis::Y => point.y,
            Axis::Z => point.z,
        }
    }
}

/// A half-line from `origin` along `direction`, a vector that is not zero.
#[derive(Clone, Copy, Debug, PartialEq, Eq, Structural)]
pub struct Ray {
    pub origin: Point,
    pub direction: V3,
}

impl Ray {
    pub fn new(origin: Point, direction: V3) -> (r: Ray)
        requires
            !direction.is_zero(),
        ensures
            r.origin == origin && r.direction == direction,
    {
        Ray { origin, direction }
    }
}

/// A colour or a per-channel gain, each channel in thousandths
/// (1000 stands for full intensity).
#[derive(Clone, Copy, Debug, PartialEq, Eq, Structural)]
pub struct Rgb {
    pub r: u16,
    pub g: u16,
    pub b: u16,
}

/// How a surface answers light: the coefficients of its shading terms.
#[derive(Clone, Copy, Debug, PartialEq, Eq, Structural)]
pub struct Material {
    pub specular_k: Rgb,
    pub specular_n: u16,
    pub diffuse_k: Rgb,
    pub ambient_k: Rgb,
    pub reflectivity: Rgb,
}

/// A point light of the scene.
#[derive(Clone, Copy, Debug, PartialEq, Eq, Structural)]
pub struct Light {
    pub position: Point,
    pub intensity: Rgb,
}

/// The lights of a scene and its ambient intensity.
pub struct SceneParams {
    pub lights: Vec<Light>,
    pub ambient_intensity: Rgb,
}

/// `SceneParams` with its lights as a sequence.
pub struct SceneParamsView {
    pub lights: Seq<Light>,
    pub ambient_intensity: Rgb,
}

impl View for SceneParams {
    type V = SceneParamsView;

    open spec fn view(&self) -> SceneParamsView {
        SceneParamsView { lights: self.lights@, ambient_intensity: self.ambient_intensity }
    }
}

/// A parameter `t` along a ray, written as the near root
/// `(-b - sqrt(disc)) / (2 a)` of a quadratic, with `a > 0` and `disc >= 0`.
/// A rational parameter `n / d` is the root with `a == d`, `b == -2 n` and
/// `disc == 0`.
#[derive(Clone, Copy, Debug, PartialEq, Eq, Structural)]
pub struct Root {
    pub a: i128,
    pub b: i128,
    pub disc: i128,
}

/// Where a ray meets an object: the ray parameter of the point, and the
/// material of the object there.
#[derive(Clone, Copy, Debug, PartialEq, Eq, Structural)]
pub struct Intersection {
    pub t: Root,
    pub material: Material,
}

} // verus!
