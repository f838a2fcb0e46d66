use raytracer::color::Color;
use raytracer::fixed::Fixed;
use raytracer::objects::{Object, Plane, Sphere};
use raytracer::scene::Ray;
use raytracer::vec3::Vec3;

fn v(x: i64, y: i64, z: i64) -> Vec3 {
    Vec3::new(Fixed::from_int(x), Fixed::from_int(y), Fixed::from_int(z))
}

#[test]
fn hit_test() {
    let obj = Plane {
        anchor: Vec3::zero(),
        normal: v(0, 0, 1),
        color: Color::white(),
    };
    let ray = Ray { start: v(0, 0, -10), direction: v(0, 0, 1) };
    let hit = obj.hit_test(ray);
    assert!(hit.is_some());
}

#[test]
fn ray_at_sphere_center_hits_at_outer_distance() {
    let sphere = Sphere {
        color: Color::white(),
        center: Vec3::zero(),
        radius: Fixed::from_int(10),
    };
    let start = v(0, 0, -20);
    let ray = Ray { start, direction: sphere.center.sub(start) };
    let hit = sphere.hit_test(ray).unwrap();
    assert_eq!(hit, v(0, 0, -10));
    let dist = hit.sub(start).norm();
    assert_eq!(dist, Fixed::from_int(10));
}

#[test]
fn off_axis_ray_at_sphere_center_hits_at_outer_distance() {
    let sphere = Sphere {
        color: Color::white(),
        center: v(3, 4, 0),
        radius: Fixed::from_int(2),
    };
    let start = v(9, 12, 0);
    let ray = Ray { start, direction: sphere.center.sub(start) };
    let hit = sphere.hit_test(ray).unwrap();
    let dist = hit.sub(start).norm();
    let tolerance: i64 = 66;
    assert!((dist.sub(Fixed::from_int(8))).abs().raw() < tolerance);
}

#[test]
fn ray_missing_sphere_yields_no_hit() {
    let sphere = Sphere {
        color: Color::white(),
        center: Vec3::zero(),
        radius: Fixed::from_int(10),
    };
    let ray = Ray { start: v(0, 0, -20), direction: v(0, 1, 0) };
    assert!(sphere.hit_test(ray).is_none());
}

#[test]
fn sphere_behind_ray_yields_no_hit() {
    let sphere = Sphere {
        color: Color::white(),
        center: v(0, 0, -40),
        radius: Fixed::from_int(10),
    };
    let ray = Ray { start: v(0, 0, -20), direction: v(0, 0, 1) };
    assert!(sphere.hit_test(ray).is_none());
}

#[test]
fn ray_along_plane_normal_hits_anchor() {
    let plane = Plane {
        anchor: v(1, 2, 3),
        normal: v(0, 0, 1),
        color: Color::white(),
    };
    let start = plane.anchor.sub(plane.normal.scale(Fixed::from_int(10)));
    let ray = Ray { start, direction: plane.normal };
    let hit = plane.hit_test(ray).unwrap();
    assert_eq!(hit, plane.anchor);
}

#[test]
fn ray_away_from_plane_misses() {
    let plane = Plane {
        anchor: Vec3::zero(),
        normal: v(0, 0, 1),
        color: Color::white(),
    };
    let ray = Ray { start: v(0, 0, -10), direction: v(0, 0, -1) };
    assert!(plane.hit_test(ray).is_none());
}

#[test]
fn ray_parallel_to_plane_hits_only_at_anchor() {
    let plane = Plane {
        anchor: Vec3::zero(),
        normal: v(0, 0, 1),
        color: Color::white(),
    };
    let off = Ray { start: v(0, 0, 5), direction: v(1, 0, 0) };
    assert!(plane.hit_test(off).is_none());
    let embedded = Ray { start: v(3, 7, 0), direction: v(1, 0, 0) };
    assert!(plane.hit_test(embedded).is_none());
    let at_anchor = Ray { start: Vec3::zero(), direction: v(1, 0, 0) };
    assert_eq!(plane.hit_test(at_anchor).unwrap(), Vec3::zero());
}

#[test]
fn sphere_normal_points_outward() {
    let sphere = Sphere {
        color: Color::white(),
        center: v(1, 0, 0),
        radius: Fixed::from_int(5),
    };
    let n = sphere.normal(v(6, 0, 0));
    assert_eq!(n, v(1, 0, 0));
    let m = sphere.normal(v(1, -5, 0));
    assert_eq!(m, v(0, -1, 0));
}

#[test]
fn plane_normal_is_constant() {
    let plane = Plane {
        anchor: v(5, 5, 5),
        normal: v(0, 1, 0),
        color: Color::new(9, 9, 9),
    };
    assert_eq!(plane.normal(v(100, 5, -3)), v(0, 1, 0));
    assert_eq!(plane.color(), Color::new(9, 9, 9));
}

#[test]
fn object_dispatch_matches_variant() {
    let s = Sphere {
        color: Color::new(1, 2, 3),
        center: Vec3::zero(),
        radius: Fixed::from_int(1),
    };
    let o = Object::Sphere(s);
    assert_eq!(o.color(), Color::new(1, 2, 3));
    let ray = Ray { start: v(0, 0, -5), direction: v(0, 0, 1) };
    assert_eq!(o.hit_test(ray), s.hit_test(ray));
    let p = Plane { anchor: Vec3::zero(), normal: v(0, 0, 1), color: Color::new(4, 5, 6) };
    let op = Object::Plane(p);
    assert_eq!(op.color(), Color::new(4, 5, 6));
    assert_eq!(op.normal(v(1, 1, 0)), v(0, 0, 1));
}
