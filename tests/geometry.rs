use raytracer_core::env::{default_env, Plane, Sphere};
use raytracer_core::kdtree::KdTree;
use raytracer_core::object::{BoundingBox, Object};
use raytracer_core::partition::Partition;
use raytracer_core::tracer::{Scene, SceneObject};
use raytracer_core::types::{p3, v3, Axis, GridPoint, Light, Material, Ray, Rgb};

fn grey() -> Material {
    let g = Rgb { r: 500, g: 500, b: 500 };
    Material { specular_k: g, specular_n: 10, diffuse_k: g, ambient_k: g, reflectivity: g }
}

fn bx(a: (i32, i32, i32), b: (i32, i32, i32)) -> BoundingBox {
    BoundingBox {
        min_corner: GridPoint { x: a.0, y: a.1, z: a.2 },
        max_corner: GridPoint { x: b.0, y: b.1, z: b.2 },
    }
}

#[test]
fn axis_cycles() {
    assert_eq!(Axis::X.next(), Axis::Y);
    assert_eq!(Axis::Y.next(), Axis::Z);
    assert_eq!(Axis::Z.next(), Axis::X);
    let p = GridPoint { x: 1, y: 2, z: 3 };
    assert_eq!(Axis::Y.get(&p), 2);
}

#[test]
fn ray_at_centre_hits_sphere() {
    let s = Sphere { centre: p3(0, 0, 10), radius: 2, material: grey() };
    let ray = Ray::new(p3(0, 0, 0), v3(0, 0, 3));
    let hit = s.test_hit(&ray).expect("a ray aimed at the centre hits");
    // a = 9, b = -60, disc = 3600 - 4 * 9 * 96 = 144, so t = (60 - 12) / 18 = 8 / 3
    // and the hit lies 8 units from the origin: distance 10 minus radius 2.
    assert_eq!(hit.t.a, 9);
    assert_eq!(hit.t.b, -60);
    assert_eq!(hit.t.disc, 144);
    assert_eq!(hit.material, grey());
}

#[test]
fn sphere_behind_or_aside_is_missed() {
    let s = Sphere { centre: p3(0, 0, 10), radius: 2, material: grey() };
    assert!(s.test_hit(&Ray::new(p3(0, 0, 0), v3(0, 0, -1))).is_none());
    assert!(s.test_hit(&Ray::new(p3(5, 0, 0), v3(0, 0, 1))).is_none());
    // from inside the far root is never taken
    assert!(s.test_hit(&Ray::new(p3(0, 0, 10), v3(0, 0, 1))).is_none());
}

#[test]
fn parallel_ray_misses_plane() {
    let p = Plane { normal: v3(0, 0, -1), d: 5, material: grey() };
    assert!(p.test_hit(&Ray::new(p3(0, 0, 0), v3(1, 0, 0))).is_none());
    assert!(p.test_hit(&Ray::new(p3(0, 0, 9), v3(0, 1, 0))).is_none());
}

#[test]
fn ray_meets_plane_at_rational_parameter() {
    // -z + 5 == 0 is the plane z = 5; from the origin along (0, 0, 2) it is met at t = 5 / 2.
    let p = Plane { normal: v3(0, 0, -1), d: 5, material: grey() };
    let hit = p.test_hit(&Ray::new(p3(0, 0, 0), v3(0, 0, 2))).unwrap();
    assert_eq!(hit.t.disc, 0);
    assert_eq!(hit.t.a, 2);
    assert_eq!(hit.t.b, -10);
    assert!(p.test_hit(&Ray::new(p3(0, 0, 0), v3(0, 0, -2))).is_none());
}

#[test]
fn expand_is_commutative_and_idempotent() {
    let a = bx((0, 0, 0), (2, 2, 2));
    let b = bx((-1, 1, 1), (1, 5, 1));
    let mut ab = a;
    ab.expand(&b);
    let mut ba = b;
    ba.expand(&a);
    assert_eq!(ab, ba);
    assert_eq!(ab, bx((-1, 0, 0), (2, 5, 2)));
    let mut abb = ab;
    abb.expand(&b);
    assert_eq!(abb, ab);
    let mut aa = a;
    aa.expand(&a);
    assert_eq!(aa, a);
}

#[test]
fn box_midpoint_rounds_down() {
    let b = bx((-3, 0, 1), (0, 4, 2));
    assert_eq!(b.midpoint(), GridPoint { x: -2, y: 2, z: 1 });
    assert_eq!(b.bounding_box(), b);
}

fn check_boxes(t: &KdTree<Sphere>) -> Option<BoundingBox> {
    match t {
        KdTree::Leaf => None,
        KdTree::Branch(br) => {
            let inside = |outer: &BoundingBox, inner: &BoundingBox| {
                outer.min_corner.x <= inner.min_corner.x
                    && outer.min_corner.y <= inner.min_corner.y
                    && outer.min_corner.z <= inner.min_corner.z
                    && inner.max_corner.x <= outer.max_corner.x
                    && inner.max_corner.y <= outer.max_corner.y
                    && inner.max_corner.z <= outer.max_corner.z
            };
            assert!(inside(&br.bounding_box, &br.object.bounding_box()));
            if let Some(l) = check_boxes(&br.left) {
                assert!(inside(&br.bounding_box, &l));
                if let KdTree::Branch(c) = &br.left {
                    assert_eq!(c.axis, br.axis.next());
                }
            }
            if let Some(r) = check_boxes(&br.right) {
                assert!(inside(&br.bounding_box, &r));
            }
            Some(br.bounding_box)
        }
    }
}

fn count(t: &KdTree<Sphere>) -> usize {
    match t {
        KdTree::Leaf => 0,
        KdTree::Branch(br) => 1 + count(&br.left) + count(&br.right),
    }
}

fn spheres(n: u32) -> Vec<Sphere> {
    let mut seed: u32 = 12345;
    let mut out = Vec::new();
    for _ in 0..n {
        let mut next = || {
            seed = seed.wrapping_mul(1103515245).wrapping_add(12345);
            ((seed >> 8) % 2000) as i16 - 1000
        };
        let c = p3(next(), next(), next());
        out.push(Sphere { centre: c, radius: (next() + 1000) as u16 % 50, material: grey() });
    }
    out
}

#[test]
fn kd_tree_boxes_hold_their_subtrees() {
    for n in [1u32, 2, 3, 10, 100, 1000] {
        let t = KdTree::from_objects(spheres(n));
        assert_eq!(count(&t), n as usize);
        check_boxes(&t);
    }
}

#[test]
fn kd_tree_root_is_the_median_on_x() {
    let objs: Vec<Sphere> = [5i16, 1, 4, 2, 3]
        .iter()
        .map(|&x| Sphere { centre: p3(x, 0, 0), radius: 1, material: grey() })
        .collect();
    let t = KdTree::from_objects(objs);
    match &t {
        KdTree::Branch(br) => {
            assert_eq!(br.object.centre, p3(3, 0, 0));
            assert_eq!(br.axis, Axis::X);
            assert_eq!(count(&br.left), 2);
            assert_eq!(count(&br.right), 2);
            assert_eq!(br.bounding_box, bx((0, -1, -1), (6, 1, 1)));
        }
        KdTree::Leaf => panic!("tree is empty"),
    }
}

#[test]
fn kd_tree_insert_grows_boxes() {
    let mut t: KdTree<Sphere> = KdTree::from_objects(Vec::new());
    assert!(matches!(t, KdTree::Leaf));
    t.insert(Sphere { centre: p3(0, 0, 0), radius: 1, material: grey() });
    t.insert(Sphere { centre: p3(10, 0, 0), radius: 1, material: grey() });
    t.insert(Sphere { centre: p3(-10, 3, 0), radius: 2, material: grey() });
    assert_eq!(count(&t), 3);
    match &t {
        KdTree::Branch(br) => {
            assert_eq!(br.bounding_box, bx((-12, -1, -2), (11, 5, 2)));
            assert_eq!(count(&br.left), 1);
            assert_eq!(count(&br.right), 1);
        }
        KdTree::Leaf => panic!("tree is empty"),
    }
    check_boxes(&t);
}

#[test]
fn partition_keeps_insertion_order() {
    let mut p: Partition<u32> = Partition::new();
    assert!(p.all_objects().is_empty());
    p.insert(3);
    p.insert(1);
    p.insert(2);
    assert_eq!(p.all_objects(), &[3, 1, 2]);
}

#[test]
fn default_scene_contents() {
    let env = default_env();
    assert_eq!(env.objects.len(), 4);
    assert_eq!(env.params.lights.len(), 2);
    assert_eq!(env.params.ambient_intensity, Rgb { r: 200, g: 200, b: 200 });
    match env.objects[0] {
        SceneObject::Sphere(s) => {
            assert_eq!(s.centre, p3(18, 4, 50));
            assert_eq!(s.material.specular_k, Rgb { r: 500, g: 250, b: 250 });
            assert_eq!(s.material.diffuse_k, Rgb { r: 400, g: 0, b: 0 });
            assert_eq!(s.material.ambient_k, Rgb { r: 100, g: 0, b: 0 });
            assert_eq!(s.material.reflectivity, Rgb { r: 350, g: 150, b: 150 });
        }
        SceneObject::Plane(_) => panic!("first object is a sphere"),
    }
    match env.objects[3] {
        SceneObject::Plane(p) => {
            assert_eq!(p.d, 55);
            assert_eq!(p.material.diffuse_k, Rgb { r: 40, g: 40, b: 40 });
            assert_eq!(p.material.reflectivity, Rgb { r: 0, g: 0, b: 0 });
        }
        SceneObject::Sphere(_) => panic!("last object is a plane"),
    }
}

fn red_sphere_scene() -> Scene {
    let red = Rgb { r: 1000, g: 0, b: 0 };
    let m = Material { specular_k: red, specular_n: 10, diffuse_k: red, ambient_k: red, reflectivity: Rgb { r: 0, g: 0, b: 0 } };
    Scene::new(
        vec![SceneObject::Sphere(Sphere { centre: p3(0, 0, 5), radius: 1, material: m })],
        vec![Light { position: p3(5, -5, 0), intensity: Rgb { r: 1000, g: 1000, b: 1000 } }],
        Rgb { r: 100, g: 100, b: 100 },
        p3(0, 0, 0),
        v3(0, 0, 1),
        1,
        1,
    )
}

#[test]
fn centre_ray_hits_and_corner_rays_miss() {
    let scene = red_sphere_scene();
    let centre = scene.hits(&Ray::new(p3(0, 0, 0), v3(0, 0, 1)), None);
    assert_eq!(centre.len(), 1);
    assert_eq!(centre[0].0, 0);
    for (x, y) in [(-1i16, -1i16), (1, -1), (-1, 1), (1, 1)] {
        assert!(scene.hits(&Ray::new(p3(0, 0, 0), v3(x, y, 2)), None).is_empty());
    }
}

#[test]
fn excluded_object_is_not_hit() {
    let scene = red_sphere_scene();
    assert!(scene.hits(&Ray::new(p3(0, 0, 0), v3(0, 0, 1)), Some(0)).is_empty());
    assert_eq!(scene.hits(&Ray::new(p3(0, 0, 0), v3(0, 0, 1)), Some(1)).len(), 1);
}
