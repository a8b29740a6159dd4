use vstd::prelude::*;

use crate::object::{BoundingBox, Object};
use crate::tracer::{Camera, Environment, Scene, SceneObject, SceneView};
use crate::types::{diff_dot, dist2, dot, p3, v3, GridPoint, Intersection, Light, Material, Point, Ray, Rgb, Root, SceneParamsView, V3};

verus! {

/// A sphere of the scene grid.
#[derive(Clone, Copy, Debug, PartialEq, Eq, Structural)]
pub struct Sphere {
    pub centre: Point,
    pub radius: u16,
    pub material: Material,
}

/// A one-sided plane: the points `p` with `normal . p + d == 0`.
#[derive(Clone, Copy, Debug, PartialEq, Eq, Structural)]
pub struct Plane {
    pub normal: V3,
    pub d: i16,
    pub material: Material,
}

/// The quadratic whose near root is where `ray` meets the sphere:
/// `a = |dir|^2`, `b = 2 dir . (origin - centre)`,
/// `c = |origin - centre|^2 - radius^2` and `disc = b^2 - 4 a c`.
pub open spec fn sphere_quadratic(s: Sphere, ray: Ray) -> (int, int, int) {
    let a = dot(ray.direction, ray.direction);
    let b = 2 * diff_dot(ray.origin, s.centre, ray.direction);
    let c = dist2(ray.origin, s.centre) - s.radius * s.radius;
    (a, b, b * b - 4 * a * c)
}

/// The near root `(-b - sqrt(disc)) / (2 a)` (with `a > 0`) exists and is not
/// negative: `disc >= 0` and `sqrt(disc) <= -b`.
pub open spec fn near_root_nonneg(b: int, disc: int) -> bool {
    disc >= 0 && b <= 0 && b * b >= disc
}

/// The ray meets the sphere at a parameter `t >= 0`.
pub open spec fn sphere_hits(s: Sphere, ray: Ray) -> bool {
    near_root_nonneg(sphere_quadratic(s, ray).1, sphere_quadratic(s, ray).2)
}

/// `normal . origin + d`: the signed offset of the ray's origin from the plane,
/// in units of the normal's length.
pub open spec fn plane_offset(p: Plane, ray: Ray) -> int {
    dot(p.normal, ray.origin) + p.d
}

/// The ray meets the plane at a parameter `s = -offset / (normal . dir)`
/// with `s >= 0`; a ray parallel to the plane never meets it.
pub open spec fn plane_hits(p: Plane, ray: Ray) -> bool {
    let nd = dot(p.normal, ray.direction);
    nd != 0 && (nd > 0 ==> plane_offset(p, ray) <= 0) && (nd < 0 ==> plane_offset(p, ray) >= 0)
}

/// What `Sphere::test_hit` returns.
pub open spec fn sphere_hit(s: Sphere, ray: Ray) -> Option<Intersection> {
    let (a, b, disc) = sphere_quadratic(s, ray);
    if near_root_nonneg(b, disc) {
        Some(Intersection { t: Root { a: a as i128, b: b as i128, disc: disc as i128 }, material: s.material })
    } else {
        None
    }
}

/// What `Plane::test_hit` returns.
pub open spec fn plane_hit(p: Plane, ray: Ray) -> Option<Intersection> {
    let nd = dot(p.normal, ray.direction);
    if plane_hits(p, ray) {
        Some(Intersection {
            t: Root {
                a: abs(nd) as i128,
                b: (if nd > 0 { 2 * plane_offset(p, ray) } else { -2 * plane_offset(p, ray) }) as i128,
                disc: 0,
            },
            material: p.material,
        })
    } else {
        None
    }
}

pub open spec fn abs(x: int) -> int {
    if x >= 0 { x } else { -x }
}

proof fn lemma_mul_bound(a: int, b: int, x: int, y: int)
    requires
        -x <= a <= x,
        -y <= b <= y,
    ensures
        -(x * y) <= a * b <= x * y,
{
    assert(-(x * y) <= a * b <= x * y) by (nonlinear_arith)
        requires
            -x <= a <= x,
            -y <= b <= y,
    ;
}

/// `a . b` for grid vectors with coordinates at most `x` and `y` in size.
fn dot_i64(ax: i64, ay: i64, az: i64, bx: i64, by: i64, bz: i64, Ghost(x): Ghost<int>, Ghost(y): Ghost<int>) -> (r: i64)
    requires
        0 <= x,
        0 <= y,
        x * y <= 0x1000_0000_0000,
        -x <= ax <= x,
        -x <= ay <= x,
        -x <= az <= x,
        -y <= bx <= y,
        -y <= by <= y,
        -y <= bz <= y,
    ensures
        r == ax * bx + ay * by + az * bz,
        -3 * (x * y) <= r <= 3 * (x * y),
{
    proof {
        lemma_mul_bound(ax as int, bx as int, x, y);
        lemma_mul_bound(ay as int, by as int, x, y);
        lemma_mul_bound(az as int, bz as int, x, y);
    }
    let px = ax * bx;
    let py = ay * by;
    let pz = az * bz;
    assert(-(x * y) <= px <= x * y);
    assert(-(x * y) <= py <= x * y);
    assert(-(x * y) <= pz <= x * y);
    let ghost xy = x * y;
    assert(-3 * xy <= px + py + pz <= 3 * xy);
    px + py + pz
}

impl Sphere {
    /// Where `ray` first meets the sphere at a parameter `t >= 0`, if it does.
    /// The parameter is the near root of `sphere_quadratic`; the far root is
    /// never taken, so a ray that starts inside the sphere does not meet it.
    pub fn test_hit(&self, ray: &Ray) -> (r: Option<Intersection>)
        requires
            !ray.direction.is_zero(),
        ensures
            r == sphere_hit(*self, *ray),
            r.is_some() == sphere_hits(*self, *ray),
            r matches Some(i) ==> {
                &&& i.t.a == sphere_quadratic(*self, *ray).0
                &&& i.t.b == sphere_quadratic(*self, *ray).1
                &&& i.t.disc == sphere_quadratic(*self, *ray).2
                &&& i.t.a > 0
                &&& i.material == self.material
            },
    {
        let dx = ray.direction.x as i64;
        let dy = ray.direction.y as i64;
        let dz = ray.direction.z as i64;
        let ox = ray.origin.x as i64 - self.centre.x as i64;
        let oy = ray.origin.y as i64 - self.centre.y as i64;
        let oz = ray.origin.z as i64 - self.centre.z as i64;
        let rr = self.radius as i64;
        let a = dot_i64(dx, dy, dz, dx, dy, dz, Ghost(0x8000), Ghost(0x8000));
        let half_b = dot_i64(ox, oy, oz, dx, dy, dz, Ghost(0x10000), Ghost(0x8000));
        let oo = dot_i64(ox, oy, oz, ox, oy, oz, Ghost(0x10000), Ghost(0x10000));
        proof {
            lemma_mul_bound(rr as int, rr as int, 0x10000, 0x10000);
            assert(a > 0) by (nonlinear_arith)
                requires
                    a == dx * dx + dy * dy + dz * dz,
                    dx != 0 || dy != 0 || dz != 0,
            ;
        }
        let b: i128 = 2 * half_b as i128;
        let c: i128 = oo as i128 - rr as i128 * rr as i128;
        proof {
            lemma_mul_bound(b as int, b as int, 0x10_0000_0000, 0x10_0000_0000);
            lemma_mul_bound(a as int, c as int, 0x1_0000_0000, 0x10_0000_0000);
        }
        let ac: i128 = (a as i128) * c;
        let disc: i128 = b * b - 4 * ac;
        proof {
            let q = sphere_quadratic(*self, *ray);
            assert(q.0 == a);
            assert(q.1 == b);
            assert(dist2(ray.origin, self.centre) == oo);
            assert(q.2 == b * b - 4 * (a * (oo - rr * rr))) by (nonlinear_arith)
                requires
                    q.2 == q.1 * q.1 - 4 * q.0 * (dist2(ray.origin, self.centre) - self.radius * self.radius),
                    q.0 == a,
                    q.1 == b,
                    dist2(ray.origin, self.centre) == oo,
                    rr == self.radius,
            ;
            assert(q.2 == disc);
        }
        if disc >= 0 && b <= 0 && b * b >= disc {
            Some(Intersection { t: Root { a: a as i128, b, disc }, material: self.material })
        } else {
            None
        }
    }
}

/// A ray aimed exactly at the centre of a sphere from a point outside it
/// (its direction is `k (centre - origin)` for some `k > 0`) always meets
/// it, at the parameter `t = (D - radius) / |dir|`, where `D` is the distance
/// from the origin to the centre: the quadratic has `b = -2 k D^2`,
/// `a = k^2 D^2` and `disc = 4 a radius^2`, so `sqrt(disc) = 2 |dir| radius`
/// and the hit lies `D - radius` from the origin.
pub proof fn lemma_aimed_at_centre_hits(s: Sphere, ray: Ray, k: int)
    requires
        k > 0,
        ray.direction.x == k * (s.centre.x - ray.origin.x),
        ray.direction.y == k * (s.centre.y - ray.origin.y),
        ray.direction.z == k * (s.centre.z - ray.origin.z),
        dist2(ray.origin, s.centre) >= s.radius * s.radius,
    ensures
        sphere_hits(s, ray),
        sphere_quadratic(s, ray).0 == k * k * dist2(ray.origin, s.centre),
        sphere_quadratic(s, ray).1 == -2 * k * dist2(ray.origin, s.centre),
        sphere_quadratic(s, ray).2 == 4 * sphere_quadratic(s, ray).0 * (s.radius * s.radius),
{
    let wx = s.centre.x - ray.origin.x;
    let wy = s.centre.y - ray.origin.y;
    let wz = s.centre.z - ray.origin.z;
    let w2 = wx * wx + wy * wy + wz * wz;
    let r2 = s.radius * s.radius;
    assert(dist2(ray.origin, s.centre) == w2) by (nonlinear_arith)
        requires
            wx == s.centre.x - ray.origin.x,
            wy == s.centre.y - ray.origin.y,
            wz == s.centre.z - ray.origin.z,
            w2 == wx * wx + wy * wy + wz * wz,
    ;
    let (a, b, disc) = sphere_quadratic(s, ray);
    let dx = ray.direction.x as int;
    let dy = ray.direction.y as int;
    let dz = ray.direction.z as int;
    assert(dx * dx == k * k * (wx * wx)) by (nonlinear_arith)
        requires
            dx == k * wx,
    ;
    assert(dy * dy == k * k * (wy * wy)) by (nonlinear_arith)
        requires
            dy == k * wy,
    ;
    assert(dz * dz == k * k * (wz * wz)) by (nonlinear_arith)
        requires
            dz == k * wz,
    ;
    assert(k * k * (wx * wx) + k * k * (wy * wy) + k * k * (wz * wz) == k * k * w2) by (nonlinear_arith)
        requires
            w2 == wx * wx + wy * wy + wz * wz,
    ;
    assert(a == k * k * w2);
    assert((-wx) * dx == -k * (wx * wx)) by (nonlinear_arith)
        requires
            dx == k * wx,
    ;
    assert((-wy) * dy == -k * (wy * wy)) by (nonlinear_arith)
        requires
            dy == k * wy,
    ;
    assert((-wz) * dz == -k * (wz * wz)) by (nonlinear_arith)
        requires
            dz == k * wz,
    ;
    assert(-k * (wx * wx) + -k * (wy * wy) + -k * (wz * wz) == -k * w2) by (nonlinear_arith)
        requires
            w2 == wx * wx + wy * wy + wz * wz,
    ;
    assert(diff_dot(ray.origin, s.centre, ray.direction) == -k * w2);
    assert(b == -2 * k * w2) by (nonlinear_arith)
        requires
            b == 2 * diff_dot(ray.origin, s.centre, ray.direction),
            diff_dot(ray.origin, s.centre, ray.direction) == -k * w2,
    ;
    assert(disc == 4 * a * r2) by (nonlinear_arith)
        requires
            disc == b * b - 4 * a * (w2 - r2),
            a == k * k * w2,
            b == -2 * k * w2,
    ;
    assert(w2 >= 0) by (nonlinear_arith)
        requires
            w2 == wx * wx + wy * wy + wz * wz,
    ;
    assert(r2 >= 0) by (nonlinear_arith)
        requires
            r2 == s.radius * s.radius,
    ;
    assert(near_root_nonneg(b, disc)) by (nonlinear_arith)
        requires
            disc == 4 * a * r2,
            a == k * k * w2,
            b == -2 * k * w2,
            k > 0,
            w2 >= r2,
            r2 >= 0,
    ;
}

impl Object for Sphere {
    open spec fn obj_wf(&self) -> bool {
        true
    }

    open spec fn spec_bounding_box(&self) -> BoundingBox {
        BoundingBox {
            min_corner: GridPoint {
                x: (self.centre.x - self.radius) as i32,
                y: (self.centre.y - self.radius) as i32,
                z: (self.centre.z - self.radius) as i32,
            },
            max_corner: GridPoint {
                x: (self.centre.x + self.radius) as i32,
                y: (self.centre.y + self.radius) as i32,
                z: (self.centre.z + self.radius) as i32,
            },
        }
    }

    open spec fn spec_midpoint(&self) -> GridPoint {
        self.centre.spec_widen()
    }

    fn bounding_box(&self) -> (r: BoundingBox) {
        let c = self.centre.widen();
        let rad = self.radius as i32;
        BoundingBox {
            min_corner: GridPoint { x: c.x - rad, y: c.y - rad, z: c.z - rad },
            max_corner: GridPoint { x: c.x + rad, y: c.y + rad, z: c.z + rad },
        }
    }

    fn midpoint(&self) -> (r: GridPoint) {
        self.centre.widen()
    }
}

impl Plane {
    /// Where `ray` meets the plane at a parameter `s >= 0`, if it does. The
    /// parameter is the rational `s = -offset / (normal . dir)`, given as the
    /// root with `disc == 0`, `a == |normal . dir|` and `-b / (2 a) == s`.
    pub fn test_hit(&self, ray: &Ray) -> (r: Option<Intersection>)
        ensures
            r == plane_hit(*self, *ray),
            r.is_some() == plane_hits(*self, *ray),
            dot(self.normal, ray.direction) == 0 ==> r.is_none(),
            r matches Some(i) ==> {
                &&& i.t.disc == 0
                &&& i.t.a == abs(dot(self.normal, ray.direction))
                &&& i.t.b * dot(self.normal, ray.direction) == 2 * i.t.a * plane_offset(*self, *ray)
                &&& i.material == self.material
            },
    {
        let nx = self.normal.x as i64;
        let ny = self.normal.y as i64;
        let nz = self.normal.z as i64;
        let nd = dot_i64(nx, ny, nz, ray.direction.x as i64, ray.direction.y as i64, ray.direction.z as i64,
            Ghost(0x8000), Ghost(0x8000));
        let no = dot_i64(nx, ny, nz, ray.origin.x as i64, ray.origin.y as i64, ray.origin.z as i64,
            Ghost(0x8000), Ghost(0x8000));
        let offset: i64 = no + self.d as i64;
        let wide_nd: i128 = nd as i128;
        let wide_off: i128 = offset as i128;
        if nd > 0 && offset <= 0 {
            let b: i128 = 2 * wide_off;
            proof {
                assert(b * nd == 2 * nd * offset) by (nonlinear_arith)
                    requires
                        b == 2 * offset,
                ;
            }
            Some(Intersection { t: Root { a: wide_nd, b, disc: 0 }, material: self.material })
        } else if nd < 0 && offset >= 0 {
            let b: i128 = -2 * wide_off;
            proof {
                assert(b * nd == 2 * (-nd) * offset) by (nonlinear_arith)
                    requires
                        b == -2 * offset,
                ;
            }
            Some(Intersection { t: Root { a: -wide_nd, b, disc: 0 }, material: self.material })
        } else {
            None
        }
    }
}

/// The material of a shiny sphere of colour `col`: a specular gain of a
/// quarter of white plus a quarter of the colour, exponent 10, a diffuse gain
/// of 2/5 of the colour, an ambient gain of a tenth of it, and a mirror gain of
/// 3/20 of white plus a fifth of the colour.
pub open spec fn shiny_material(col: Rgb) -> Material {
    Material {
        specular_k: Rgb { r: (250 + col.r / 4) as u16, g: (250 + col.g / 4) as u16, b: (250 + col.b / 4) as u16 },
        specular_n: 10,
        diffuse_k: Rgb { r: (col.r * 2 / 5) as u16, g: (col.g * 2 / 5) as u16, b: (col.b * 2 / 5) as u16 },
        ambient_k: Rgb { r: (col.r / 10) as u16, g: (col.g / 10) as u16, b: (col.b / 10) as u16 },
        reflectivity: Rgb { r: (150 + col.r / 5) as u16, g: (150 + col.g / 5) as u16, b: (150 + col.b / 5) as u16 },
    }
}

/// The material of a matte plane of colour `col`, which mirrors nothing.
pub open spec fn plane_material(col: Rgb) -> Material {
    Material {
        specular_k: Rgb { r: (col.r / 5) as u16, g: (col.g / 5) as u16, b: (col.b / 5) as u16 },
        specular_n: 5,
        diffuse_k: Rgb { r: (col.r * 2 / 5) as u16, g: (col.g * 2 / 5) as u16, b: (col.b * 2 / 5) as u16 },
        ambient_k: Rgb { r: (col.r / 10) as u16, g: (col.g / 10) as u16, b: (col.b / 10) as u16 },
        reflectivity: Rgb { r: 0, g: 0, b: 0 },
    }
}

fn scaled(c: u16, num: u32, den: u32, base: u16) -> (r: u16)
    requires
        num <= 2,
        1 <= den,
        base <= 250,
        num <= den,
        base + c <= 0xffff,
    ensures
        r == base + (c as int) * (num as int) / (den as int),
{
    proof {
        assert(c * num <= c * den) by (nonlinear_arith)
            requires
                num <= den,
                c >= 0,
        ;
        assert((c as int) * (num as int) / (den as int) <= c) by (nonlinear_arith)
            requires
                c * num <= c * den,
                den >= 1,
                c >= 0,
        ;
        assert(c * num <= 2 * 0xffff) by (nonlinear_arith)
            requires
                num <= 2,
                c <= 0xffff,
                c >= 0,
        ;
    }
    let q: u32 = (c as u32 * num) / den;
    assert(q <= c);
    (base as u32 + q) as u16
}

fn shiny_sphere(centre: Point, radius: u16, col: Rgb) -> (r: Sphere)
    requires
        col.r <= 60000 && col.g <= 60000 && col.b <= 60000,
    ensures
        r == (Sphere { centre, radius, material: shiny_material(col) }),
{
    Sphere {
        centre,
        radius,
        material: Material {
            specular_k: Rgb { r: scaled(col.r, 1, 4, 250), g: scaled(col.g, 1, 4, 250), b: scaled(col.b, 1, 4, 250) },
            specular_n: 10,
            diffuse_k: Rgb { r: scaled(col.r, 2, 5, 0), g: scaled(col.g, 2, 5, 0), b: scaled(col.b, 2, 5, 0) },
            ambient_k: Rgb { r: scaled(col.r, 1, 10, 0), g: scaled(col.g, 1, 10, 0), b: scaled(col.b, 1, 10, 0) },
            reflectivity: Rgb { r: scaled(col.r, 1, 5, 150), g: scaled(col.g, 1, 5, 150), b: scaled(col.b, 1, 5, 150) },
        },
    }
}

fn mk_plane(normal: V3, dist: i16, col: Rgb) -> (r: Plane)
    ensures
        r == (Plane { normal, d: dist, material: plane_material(col) }),
{
    Plane {
        normal,
        d: dist,
        material: Material {
            specular_k: Rgb { r: scaled(col.r, 1, 5, 0), g: scaled(col.g, 1, 5, 0), b: scaled(col.b, 1, 5, 0) },
            specular_n: 5,
            diffuse_k: Rgb { r: scaled(col.r, 2, 5, 0), g: scaled(col.g, 2, 5, 0), b: scaled(col.b, 2, 5, 0) },
            ambient_k: Rgb { r: scaled(col.r, 1, 10, 0), g: scaled(col.g, 1, 10, 0), b: scaled(col.b, 1, 10, 0) },
            reflectivity: Rgb { r: 0, g: 0, b: 0 },
        },
    }
}

/// The demonstration scene, with ten grid units to one scene unit: three
/// shiny spheres of radius 5 (red at (18, 4, 50), cyan at (0, -6, 40), yellow
/// at (18, -6, 50)), a dark grey plane `-z + 55 == 0` behind them, two lights
/// of half intensity at (40, -20, -30) and (-20, -10, 20), an ambient
/// intensity of 0.2, and a camera at (0, 0, -30) looking along +z at an image
/// plane 25 units away and 10 units wide.
pub open spec fn spec_default_env() -> SceneView {
    let red = Rgb { r: 1000, g: 0, b: 0 };
    let cyan = Rgb { r: 0, g: 1000, b: 1000 };
    let yellow = Rgb { r: 1000, g: 1000, b: 0 };
    let grey = Rgb { r: 100, g: 100, b: 100 };
    let half = Rgb { r: 500, g: 500, b: 500 };
    SceneView {
        objects: seq![
            SceneObject::Sphere(Sphere { centre: V3 { x: 18i16, y: 4i16, z: 50i16 }, radius: 5u16, material: shiny_material(red) }),
            SceneObject::Sphere(Sphere { centre: V3 { x: 0i16, y: -6i16, z: 40i16 }, radius: 5u16, material: shiny_material(cyan) }),
            SceneObject::Sphere(Sphere { centre: V3 { x: 18i16, y: -6i16, z: 50i16 }, radius: 5u16, material: shiny_material(yellow) }),
            SceneObject::Plane(Plane { normal: V3 { x: 0i16, y: 0i16, z: -1i16 }, d: 55i16, material: plane_material(grey) }),
        ],
        params: SceneParamsView {
            lights: seq![
                Light { position: V3 { x: 40i16, y: -20i16, z: -30i16 }, intensity: half },
                Light { position: V3 { x: -20i16, y: -10i16, z: 20i16 }, intensity: half },
            ],
            ambient_intensity: Rgb { r: 200, g: 200, b: 200 },
        },
        camera: Camera {
            position: V3 { x: 0i16, y: 0i16, z: -30i16 },
            direction: V3 { x: 0i16, y: 0i16, z: 1i16 },
            image_distance: 25i16,
            image_width: 10i16,
        },
    }
}

pub fn default_env() -> (r: Environment)
    ensures
        r@ == spec_default_env(),
{
    let cam_pos = p3(0, 0, -30);
    let cam_dir = v3(0, 0, 1);
    let cam_img_dist: i16 = 25;
    let img_w: i16 = 10;
    let ambient_intensity = Rgb { r: 200, g: 200, b: 200 };

    let s1 = shiny_sphere(p3(18, 4, 50), 5, Rgb { r: 1000, g: 0, b: 0 });
    let s2 = shiny_sphere(p3(0, -6, 40), 5, Rgb { r: 0, g: 1000, b: 1000 });
    let s3 = shiny_sphere(p3(18, -6, 50), 5, Rgb { r: 1000, g: 1000, b: 0 });
    let back = mk_plane(v3(0, 0, -1), 55, Rgb { r: 100, g: 100, b: 100 });

    let l1 = Light { position: p3(40, -20, -30), intensity: Rgb { r: 500, g: 500, b: 500 } };
    let l2 = Light { position: p3(-20, -10, 20), intensity: Rgb { r: 500, g: 500, b: 500 } };

    let r = Scene::new(
        vec![SceneObject::Sphere(s1), SceneObject::Sphere(s2), SceneObject::Sphere(s3), SceneObject::Plane(back)],
        vec![l1, l2],
        ambient_intensity,
        cam_pos,
        cam_dir,
        cam_img_dist,
        img_w,
    );
    proof {
        assert(r@.objects =~= spec_default_env().objects);
        assert(r@.params.lights =~= spec_default_env().params.lights);
    }
    r
}

} // verus!
