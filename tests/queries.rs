use raytracer_core::env::Sphere;
use raytracer_core::kdtree::KdTree;
use raytracer_core::object::{BoundingBox, Object};
use raytracer_core::types::{p3, v3, Axis, GridPoint, Material, Ray, Rgb};

fn plain() -> Material {
    let c = Rgb { r: 100, g: 200, b: 300 };
    Material { specular_k: c, specular_n: 1, diffuse_k: c, ambient_k: c, reflectivity: c }
}

fn unit_box() -> BoundingBox {
    BoundingBox { min_corner: GridPoint { x: 0, y: 0, z: 0 }, max_corner: GridPoint { x: 2, y: 2, z: 2 } }
}

#[test]
fn slab_test_hits_and_misses() {
    let b = unit_box();
    assert!(b.test_ray_simple(&Ray::new(p3(-5, 1, 1), v3(1, 0, 0))));
    assert!(b.test_ray_simple(&Ray::new(p3(-5, -5, -5), v3(1, 1, 1))));
    assert!(!b.test_ray_simple(&Ray::new(p3(-5, 3, 1), v3(1, 0, 0))));
    assert!(!b.test_ray_simple(&Ray::new(p3(-5, 0, 0), v3(1, 3, 0))));
    // a diagonal that just touches the edge (2, 0, z) at t = 7
    assert!(b.test_ray_simple(&Ray::new(p3(-5, -14, 1), v3(1, 2, 0))));
    assert!(!b.test_ray_simple(&Ray::new(p3(-5, -15, 1), v3(1, 2, 0))));
}

#[test]
fn slab_test_with_zero_direction_components() {
    let b = unit_box();
    // on a face plane of the box, moving along it
    assert!(b.test_ray_simple(&Ray::new(p3(0, 0, -4), v3(0, 0, 1))));
    assert!(b.test_ray_simple(&Ray::new(p3(2, 2, 9), v3(0, 0, -1))));
    assert!(!b.test_ray_simple(&Ray::new(p3(3, 1, -4), v3(0, 0, 1))));
    // the line counts on both sides of the origin
    assert!(b.test_ray_simple(&Ray::new(p3(1, 1, 10), v3(0, 0, 1))));
}

#[test]
fn aimed_rays_meet_spheres_at_distance_minus_radius() {
    // direction k (centre - origin): b^2 == 4 a D^2 and disc == 4 a r^2
    let cases = [((0, 0, 10), 2u16, (0, 0, 0), 1i16), ((3, 4, 0), 5, (-3, -4, 0), 2), ((7, -2, 5), 1, (1, 1, 1), 3)];
    for (c, r, o, k) in cases {
        let s = Sphere { centre: p3(c.0, c.1, c.2), radius: r, material: plain() };
        let d = v3(k * (c.0 - o.0), k * (c.1 - o.1), k * (c.2 - o.2));
        let hit = s.test_hit(&Ray::new(p3(o.0, o.1, o.2), d)).expect("aimed ray hits");
        let dd = ((c.0 - o.0) as i128).pow(2) + ((c.1 - o.1) as i128).pow(2) + ((c.2 - o.2) as i128).pow(2);
        assert_eq!(hit.t.b * hit.t.b, 4 * hit.t.a * dd);
        assert_eq!(hit.t.disc, 4 * hit.t.a * (r as i128) * (r as i128));
        let t = (-(hit.t.b as f64) - (hit.t.disc as f64).sqrt()) / (2.0 * hit.t.a as f64);
        let len = (hit.t.a as f64).sqrt();
        assert!((t * len - ((dd as f64).sqrt() - r as f64)).abs() < 1e-9);
    }
}

fn field(n: i16) -> Vec<Sphere> {
    let mut out = Vec::new();
    for i in 0..n {
        let x = (i * 37) % 101 - 50;
        let y = (i * 53) % 89 - 44;
        let z = (i * 17) % 61;
        out.push(Sphere { centre: p3(x, y, z), radius: (i % 4) as u16 + 1, material: plain() });
    }
    out
}

#[test]
fn query_reports_exactly_the_boxes_met() {
    let objects = field(300);
    let tree = KdTree::from_objects(objects.clone());
    let rays = [
        Ray::new(p3(0, 0, -10), v3(0, 0, 1)),
        Ray::new(p3(-60, -50, 0), v3(3, 2, 1)),
        Ray::new(p3(10, 10, 10), v3(0, 1, 0)),
        Ray::new(p3(-50, 0, 30), v3(1, 0, 0)),
    ];
    for ray in rays.iter() {
        let mut found: Vec<_> = tree.query(ray).iter().map(|s| (s.centre.x, s.centre.y, s.centre.z, s.radius)).collect();
        let mut expected: Vec<_> = objects
            .iter()
            .filter(|s| s.bounding_box().test_ray_simple(ray))
            .map(|s| (s.centre.x, s.centre.y, s.centre.z, s.radius))
            .collect();
        found.sort();
        expected.sort();
        assert_eq!(found, expected);
    }
}

fn check_order(t: &KdTree<Sphere>, axis: Axis) -> Vec<i32> {
    match t {
        KdTree::Leaf => Vec::new(),
        KdTree::Branch(br) => {
            assert_eq!(br.axis, axis);
            let key = axis.get(&br.object.midpoint());
            let left = check_order(&br.left, axis.next());
            let right = check_order(&br.right, axis.next());
            let mut all = Vec::new();
            for m in left.chunks(3) {
                let p = GridPoint { x: m[0], y: m[1], z: m[2] };
                assert!(axis.get(&p) <= key);
                all.extend_from_slice(m);
            }
            let own = br.object.midpoint();
            all.extend_from_slice(&[own.x, own.y, own.z]);
            for m in right.chunks(3) {
                let p = GridPoint { x: m[0], y: m[1], z: m[2] };
                assert!(axis.get(&p) >= key);
                all.extend_from_slice(m);
            }
            all
        }
    }
}

#[test]
fn built_and_grown_trees_split_by_axis() {
    let tree = KdTree::from_objects(field(200));
    assert_eq!(check_order(&tree, Axis::X).len(), 600);
    let mut grown: KdTree<Sphere> = KdTree::Leaf;
    for s in field(120) {
        grown.insert(s);
    }
    assert_eq!(check_order(&grown, Axis::X).len(), 360);
}

#[test]
fn sphere_box_and_midpoint() {
    let s = Sphere { centre: p3(-3, 4, 7), radius: 2, material: plain() };
    let b = s.bounding_box();
    assert_eq!(b.min_corner, GridPoint { x: -5, y: 2, z: 5 });
    assert_eq!(b.max_corner, GridPoint { x: -1, y: 6, z: 9 });
    assert_eq!(s.midpoint(), GridPoint { x: -3, y: 4, z: 7 });
}
