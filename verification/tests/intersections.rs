//! Plane and sphere intersection scenarios, checked on concrete rays.

use raycore::math::{Frac, Ray, Vector3};
use raycore::surfaces::{Plane, Sphere, SphereHit, Surface, SurfaceHit};

/// Evaluate an exact fraction in floating point.
fn frac_f64(f: &Frac) -> f64 {
    f.num as f64 / f.den as f64
}

/// Evaluate the crossing distance `proj -+ sqrt(disc)` of a sphere hit.
fn sphere_t(h: &SphereHit) -> f64 {
    let root = (h.disc as f64).sqrt();
    if h.far {
        h.proj as f64 + root
    } else {
        h.proj as f64 - root
    }
}

/// The unit surface normal at a sphere hit: `direction * t - oc`, normalized.
fn sphere_normal(h: &SphereHit, direction: &Vector3) -> [f64; 3] {
    let t = sphere_t(h);
    let nx = direction.x as f64 * t - h.oc.x as f64;
    let ny = direction.y as f64 * t - h.oc.y as f64;
    let nz = direction.z as f64 * t - h.oc.z as f64;
    let norm = (nx * nx + ny * ny + nz * nz).sqrt();
    [nx / norm, ny / norm, nz / norm]
}

#[test]
fn sphere_straight_ahead() {
    // Coordinates scaled by 10: a sphere of radius 0.5 centered at
    // (0, 0, 5), a ray from the origin along +z.  The hit is at distance
    // 4.5, i.e. 45 scaled units, and the normal points back at the origin.
    let sphere = Sphere::new(Vector3::new(0, 0, 50), 5);
    let ray = Ray::new(Vector3::new(0, 0, 0), Vector3::new(0, 0, 1));
    let hit = sphere.closest_intersection(&ray).expect("sphere ahead must be hit");
    assert_eq!(hit.proj, 50);
    assert_eq!(hit.disc, 25);
    assert!(!hit.far);
    assert_eq!(sphere_t(&hit), 45.0);
    assert_eq!(sphere_normal(&hit, &ray.direction), [0.0, 0.0, -1.0]);
}

#[test]
fn sphere_missed_sideways() {
    // The same sphere, but the ray leaves the origin perpendicular to the
    // sphere's offset: no intersection.
    let sphere = Sphere::new(Vector3::new(0, 0, 50), 5);
    let ray = Ray::new(Vector3::new(0, 0, 0), Vector3::new(1, 0, 0));
    assert!(sphere.closest_intersection(&ray).is_none());
}

#[test]
fn plane_head_on() {
    // The plane y = 0, hit from (0, 5, 0) going straight down: distance 5,
    // normal (0, 1, 0) as stored.
    let plane = Plane::new(Vector3::new(0, 1, 0), 0);
    let ray = Ray::new(Vector3::new(0, 5, 0), Vector3::new(0, -1, 0));
    let (t, normal) = plane.closest_intersection(&ray).expect("plane below must be hit");
    assert_eq!(frac_f64(&t), 5.0);
    assert_eq!(t.num, 5 * t.den);
    assert_eq!((normal.x, normal.y, normal.z), (0, 1, 0));
}

#[test]
fn plane_parallel_ray_misses() {
    // A ray running parallel to the plane, on either side or inside it,
    // never strikes it.
    let plane = Plane::new(Vector3::new(0, 1, 0), 3);
    let above = Ray::new(Vector3::new(0, 7, 0), Vector3::new(1, 0, 0));
    let inside = Ray::new(Vector3::new(0, 3, 0), Vector3::new(1, 0, 5));
    let below = Ray::new(Vector3::new(2, -4, 1), Vector3::new(0, 0, -1));
    assert!(plane.closest_intersection(&above).is_none());
    assert!(plane.closest_intersection(&inside).is_none());
    assert!(plane.closest_intersection(&below).is_none());
}

#[test]
fn plane_behind_ray_misses() {
    // The crossing lies behind the origin: treated as a miss.
    let plane = Plane::new(Vector3::new(0, 1, 0), 0);
    let ray = Ray::new(Vector3::new(0, 5, 0), Vector3::new(0, 1, 0));
    assert!(plane.closest_intersection(&ray).is_none());
}

#[test]
fn sphere_through_center_near_root() {
    // A ray through the exact center with the origin outside: the roots are
    // proj - radius and proj + radius, and the nearer one is returned.
    let sphere = Sphere::new(Vector3::new(0, 0, 100), 20);
    let ray = Ray::new(Vector3::new(0, 0, 0), Vector3::new(0, 0, 1));
    let hit = sphere.closest_intersection(&ray).expect("sphere ahead must be hit");
    assert_eq!(hit.proj, 100);
    assert_eq!(hit.disc, 400);
    assert!(!hit.far);
    assert_eq!(sphere_t(&hit), 80.0);
}

#[test]
fn sphere_origin_inside_far_root() {
    // From strictly inside the sphere only the far root lies ahead, and it
    // is positive whatever the direction.
    let sphere = Sphere::new(Vector3::new(0, 0, 0), 10);
    let ray = Ray::new(Vector3::new(0, 0, 3), Vector3::new(0, 0, 1));
    let hit = sphere.closest_intersection(&ray).expect("origin inside must be a hit");
    assert_eq!(hit.proj, -3);
    assert_eq!(hit.disc, 100);
    assert!(hit.far);
    assert_eq!(sphere_t(&hit), 7.0);
    assert!(sphere_t(&hit) > 0.0);
}

#[test]
fn sphere_origin_on_surface_far_root() {
    // A ray starting exactly on the surface: the near root is 0, which is
    // no forward intersection; the far root, across the sphere, is taken.
    let sphere = Sphere::new(Vector3::new(0, 0, 10), 10);
    let ray = Ray::new(Vector3::new(0, 0, 0), Vector3::new(0, 0, 1));
    let hit = sphere.closest_intersection(&ray).expect("crossing the sphere must be a hit");
    assert_eq!(hit.proj, 10);
    assert_eq!(hit.disc, 100);
    assert!(hit.far);
    assert_eq!(sphere_t(&hit), 20.0);
}

#[test]
fn sphere_tangent_grazing() {
    // A tangent ray: the discriminant vanishes, the crossing distance is
    // proj itself, and the normal there is orthogonal to the direction.
    let sphere = Sphere::new(Vector3::new(0, 5, 50), 5);
    let ray = Ray::new(Vector3::new(0, 0, 0), Vector3::new(0, 0, 1));
    let hit = sphere.closest_intersection(&ray).expect("tangent ray must graze");
    assert_eq!(hit.disc, 0);
    assert!(!hit.far);
    assert_eq!(sphere_t(&hit), 50.0);
    let n = sphere_normal(&hit, &ray.direction);
    let graze = n[0] * ray.direction.x as f64 + n[1] * ray.direction.y as f64
        + n[2] * ray.direction.z as f64;
    assert!(graze.abs() < 1e-9);
    assert_eq!(n, [0.0, -1.0, 0.0]);
}

#[test]
fn sphere_behind_ray_misses() {
    // The whole sphere lies behind the ray: no intersection.
    let sphere = Sphere::new(Vector3::new(0, 0, -50), 5);
    let ray = Ray::new(Vector3::new(0, 0, 0), Vector3::new(0, 0, 1));
    assert!(sphere.closest_intersection(&ray).is_none());
}

#[test]
fn normals_have_unit_norm() {
    // Normals evaluated from the exact hit data always come out with
    // euclidean norm 1, for planes (once normalized) and spheres alike.
    let cases = [
        (Sphere::new(Vector3::new(0, 0, 50), 5), Ray::new(Vector3::new(0, 0, 0), Vector3::new(0, 0, 1))),
        (Sphere::new(Vector3::new(0, 5, 50), 5), Ray::new(Vector3::new(0, 0, 0), Vector3::new(0, 0, 1))),
        (Sphere::new(Vector3::new(0, 0, 0), 10), Ray::new(Vector3::new(0, 0, 3), Vector3::new(0, 0, 1))),
        (Sphere::new(Vector3::new(3, 4, 100), 13), Ray::new(Vector3::new(0, 0, 0), Vector3::new(0, 0, 1))),
    ];
    for (sphere, ray) in cases.iter() {
        let hit = sphere.closest_intersection(ray).expect("each case must hit");
        let n = sphere_normal(&hit, &ray.direction);
        let norm = (n[0] * n[0] + n[1] * n[1] + n[2] * n[2]).sqrt();
        assert!((norm - 1.0).abs() < 1e-9);
    }
    let plane = Plane::new(Vector3::new(0, 1, 0), 0);
    let ray = Ray::new(Vector3::new(0, 5, 0), Vector3::new(0, -1, 0));
    let (_, normal) = plane.closest_intersection(&ray).expect("plane must be hit");
    let norm = ((normal.x * normal.x + normal.y * normal.y + normal.z * normal.z) as f64).sqrt();
    assert!((norm - 1.0).abs() < 1e-9);
}

#[test]
fn surface_dispatch_matches_primitives() {
    // The Surface sum type answers exactly as the primitive it wraps.
    let sphere = Sphere::new(Vector3::new(0, 0, 50), 5);
    let plane = Plane::new(Vector3::new(0, 1, 0), 0);
    let ray_z = Ray::new(Vector3::new(0, 0, 0), Vector3::new(0, 0, 1));
    let ray_down = Ray::new(Vector3::new(0, 5, 0), Vector3::new(0, -1, 0));

    match Surface::Sphere(sphere).closest_intersection(&ray_z) {
        Some(SurfaceHit::Spherical { hit }) => {
            assert_eq!(hit.proj, 50);
            assert_eq!(hit.disc, 25);
            assert!(!hit.far);
        }
        _ => panic!("sphere surface must report a spherical hit"),
    }
    match Surface::Plane(plane).closest_intersection(&ray_down) {
        Some(SurfaceHit::Planar { distance, normal }) => {
            assert_eq!(frac_f64(&distance), 5.0);
            assert_eq!((normal.x, normal.y, normal.z), (0, 1, 0));
        }
        _ => panic!("plane surface must report a planar hit"),
    }
    assert!(Surface::Sphere(sphere).closest_intersection(&ray_down).is_none());
}
