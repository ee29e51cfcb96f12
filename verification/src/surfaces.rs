//! Surfaces a ray can strike: axis-aligned bounding boxes (as a cheap
//! rejection test), planes and spheres.
//!
//! Every decision in this module is exact.  A parametric distance `t` along a
//! ray is a rational number, compared by cross-multiplication ([`fle`]); the
//! quantity under the square root of the ray-sphere quadratic is an integer,
//! so its sign, and the signs of both roots, are decided without ever taking
//! the root itself.

use vstd::prelude::*;

use crate::math::{fle, dot3, sdot, Frac, Interval, Ray, Vector3, COORD_LIMIT};

verus! {

/// The rational `tn / td` (with `td > 0`) satisfies the slab constraint of
/// one axis: the point `o + (tn/td) * d` lies between `c0` and `c1`.  Both
/// sides are multiplied through by `td`, so the statement needs no division.
pub open spec fn axis_ok(c0: int, c1: int, o: int, d: int, tn: int, td: int) -> bool {
    &&& c0 * td <= o * td + tn * d
    &&& o * td + tn * d <= c1 * td
}

/// Some rational `t >= 0` places the ray inside the box on all three axes at
/// once: the exact meaning of the slab test.
pub open spec fn box_hit(bb: BoundingBox, ray: Ray) -> bool {
    exists|tn: int, td: int|
        {
            &&& td > 0
            &&& tn >= 0
            &&& #[trigger] axis_ok(
                bb.corners.0.x as int,
                bb.corners.1.x as int,
                ray.origin.x as int,
                ray.direction.x as int,
                tn,
                td,
            )
            &&& axis_ok(
                bb.corners.0.y as int,
                bb.corners.1.y as int,
                ray.origin.y as int,
                ray.direction.y as int,
                tn,
                td,
            )
            &&& axis_ok(
                bb.corners.0.z as int,
                bb.corners.1.z as int,
                ray.origin.z as int,
                ray.direction.z as int,
                tn,
                td,
            )
        }
}

/// What one axis of the slab test contributes: no `t` at all, every `t`, or
/// exactly the `t` in an interval.
#[derive(Clone, Copy)]
enum Slab {
    Miss,
    All,
    Range(Interval),
}

/// `s` describes the axis with box bounds `c0 <= c1`, ray origin component
/// `o` and ray direction component `d`.
spec fn slab_matches(s: Slab, c0: int, c1: int, o: int, d: int) -> bool {
    match s {
        Slab::Miss => forall|tn: int, td: int|
            td > 0 ==> !#[trigger] axis_ok(c0, c1, o, d, tn, td),
        Slab::All => forall|tn: int, td: int|
            td > 0 ==> #[trigger] axis_ok(c0, c1, o, d, tn, td),
        Slab::Range(iv) => iv.wf() && forall|tn: int, td: int|
            td > 0 ==> (#[trigger] iv.contains(tn, td) <==> axis_ok(c0, c1, o, d, tn, td)),
    }
}

/// Solve one axis of the slab test.  With a nonzero direction component the
/// two crossing distances `(c0-o)/d` and `(c1-o)/d` bound an interval (the
/// direction's sign decides which crossing comes first); with a zero
/// component the axis constrains nothing when the origin lies inside the
/// slab, and rules out every `t` when it lies outside.
fn axis_slab(c0: i64, c1: i64, o: i64, d: i64) -> (s: Slab)
    requires
        -0x200_0000 <= c0 <= c1 <= 0x200_0000,
        -0x100_0000 <= o <= 0x100_0000,
        -0x100_0000 <= d <= 0x100_0000,
    ensures
        slab_matches(s, c0 as int, c1 as int, o as int, d as int),
{
    if d == 0 {
        if c0 <= o && o <= c1 {
            proof {
                assert forall|tn: int, td: int| td > 0 implies #[trigger] axis_ok(
                    c0 as int,
                    c1 as int,
                    o as int,
                    0,
                    tn,
                    td,
                ) by {
                    assert(c0 as int * td <= o as int * td && o as int * td <= c1 as int * td)
                        by (nonlinear_arith)
                        requires
                            c0 <= o,
                            o <= c1,
                            td > 0,
                    ;
                }
            }
            Slab::All
        } else {
            proof {
                assert forall|tn: int, td: int| td > 0 implies !#[trigger] axis_ok(
                    c0 as int,
                    c1 as int,
                    o as int,
                    0,
                    tn,
                    td,
                ) by {
                    if o < c0 {
                        assert(o as int * td < c0 as int * td) by (nonlinear_arith)
                            requires
                                o < c0,
                                td > 0,
                        ;
                    } else {
                        assert(c1 as int * td < o as int * td) by (nonlinear_arith)
                            requires
                                c1 < o,
                                td > 0,
                        ;
                    }
                }
            }
            Slab::Miss
        }
    } else if d > 0 {
        let lo = Frac { num: c0 - o, den: d };
        let hi = Frac { num: c1 - o, den: d };
        let iv = Interval { lo, hi };
        proof {
            assert(lo.num as int * hi.den as int <= hi.num as int * lo.den as int)
                by (nonlinear_arith)
                requires
                    lo.num == c0 as int - o as int,
                    hi.num == c1 as int - o as int,
                    lo.den == d as int,
                    hi.den == d as int,
                    c0 <= c1,
                    d > 0,
            ;
            assert forall|tn: int, td: int| td > 0 implies (#[trigger] iv.contains(tn, td)
                <==> axis_ok(c0 as int, c1 as int, o as int, d as int, tn, td)) by {
                assert((c0 as int - o as int) * td == c0 as int * td - o as int * td)
                    by (nonlinear_arith);
                assert((c1 as int - o as int) * td == c1 as int * td - o as int * td)
                    by (nonlinear_arith);
            }
        }
        Slab::Range(iv)
    } else {
        let lo = Frac { num: o - c1, den: -d };
        let hi = Frac { num: o - c0, den: -d };
        let iv = Interval { lo, hi };
        proof {
            assert(lo.num as int * hi.den as int <= hi.num as int * lo.den as int)
                by (nonlinear_arith)
                requires
                    lo.num == o as int - c1 as int,
                    hi.num == o as int - c0 as int,
                    lo.den == -(d as int),
                    hi.den == -(d as int),
                    c0 <= c1,
                    d < 0,
            ;
            assert forall|tn: int, td: int| td > 0 implies (#[trigger] iv.contains(tn, td)
                <==> axis_ok(c0 as int, c1 as int, o as int, d as int, tn, td)) by {
                assert((o as int - c1 as int) * td == o as int * td - c1 as int * td)
                    by (nonlinear_arith);
                assert((o as int - c0 as int) * td == o as int * td - c0 as int * td)
                    by (nonlinear_arith);
                assert(tn * -(d as int) == -(tn * (d as int))) by (nonlinear_arith);
            }
        }
        Slab::Range(iv)
    }
}

/// The running constraint of the slab test after some axes were taken in:
/// already empty, still unconstrained, or an interval of `t`.
#[derive(Clone, Copy)]
enum ClipState {
    Empty,
    Free,
    Within(Interval),
}

/// Which rationals `tn / td` the running constraint still allows.
spec fn clip_allows(c: ClipState, tn: int, td: int) -> bool {
    match c {
        ClipState::Empty => false,
        ClipState::Free => true,
        ClipState::Within(iv) => iv.contains(tn, td),
    }
}

spec fn clip_wf(c: ClipState) -> bool {
    match c {
        ClipState::Within(iv) => iv.wf(),
        _ => true,
    }
}

/// Narrow the running constraint by one axis.
fn clip_step(c: ClipState, s: Slab, Ghost(c0): Ghost<int>, Ghost(c1): Ghost<int>, Ghost(o): Ghost<
    int,
>, Ghost(d): Ghost<int>) -> (r: ClipState)
    requires
        clip_wf(c),
        slab_matches(s, c0, c1, o, d),
    ensures
        clip_wf(r),
        forall|tn: int, td: int|
            td > 0 ==> (#[trigger] clip_allows(r, tn, td) <==> clip_allows(c, tn, td)
                && axis_ok(c0, c1, o, d, tn, td)),
{
    match s {
        Slab::Miss => ClipState::Empty,
        Slab::All => c,
        Slab::Range(iv) => match c {
            ClipState::Empty => ClipState::Empty,
            ClipState::Free => ClipState::Within(iv),
            ClipState::Within(a) => match a.intersection(&iv) {
                None => {
                    proof {
                        assert forall|tn: int, td: int| td > 0 implies (#[trigger] clip_allows(
                            ClipState::Empty,
                            tn,
                            td,
                        ) <==> clip_allows(c, tn, td) && axis_ok(c0, c1, o, d, tn, td)) by {
                            if a.contains(tn, td) && axis_ok(c0, c1, o, d, tn, td) {
                                assert(iv.contains(tn, td));
                                assert(false);
                            }
                        }
                    }
                    ClipState::Empty
                },
                Some(b) => {
                    proof {
                        assert forall|tn: int, td: int| td > 0 implies (#[trigger] clip_allows(
                            ClipState::Within(b),
                            tn,
                            td,
                        ) <==> clip_allows(c, tn, td) && axis_ok(c0, c1, o, d, tn, td)) by {
                            assert(b.contains(tn, td) <==> a.contains(tn, td) && iv.contains(
                                tn,
                                td,
                            ));
                        }
                    }
                    ClipState::Within(b)
                },
            },
        },
    }
}

/// An axis-aligned box given by its componentwise-minimum and
/// componentwise-maximum corners.
#[derive(Clone, Copy)]
pub struct BoundingBox {
    /// The first corner has the lowest coordinate values, the second the
    /// highest.
    pub corners: (Vector3, Vector3),
}

impl BoundingBox {
    /// The corners are ordered componentwise and lie within twice
    /// [`COORD_LIMIT`] (a sphere's box reaches that far).
    pub open spec fn wf(self) -> bool {
        &&& self.corners.0.in_range(2 * COORD_LIMIT as int)
        &&& self.corners.1.in_range(2 * COORD_LIMIT as int)
        &&& self.corners.0.x <= self.corners.1.x
        &&& self.corners.0.y <= self.corners.1.y
        &&& self.corners.0.z <= self.corners.1.z
    }

    /// Build the box spanned by two opposite corners, given in any order:
    /// the minimum and maximum are derived per axis, so the slab test may
    /// rely on the corners' ordering whatever the caller passed.
    pub fn new(first_corner: Vector3, second_corner: Vector3) -> (r: BoundingBox)
        requires
            first_corner.in_range(2 * COORD_LIMIT as int),
            second_corner.in_range(2 * COORD_LIMIT as int),
        ensures
            r.wf(),
            r.corners.0.x == if first_corner.x <= second_corner.x {
                first_corner.x
            } else {
                second_corner.x
            },
            r.corners.0.y == if first_corner.y <= second_corner.y {
                first_corner.y
            } else {
                second_corner.y
            },
            r.corners.0.z == if first_corner.z <= second_corner.z {
                first_corner.z
            } else {
                second_corner.z
            },
            r.corners.1.x == if first_corner.x <= second_corner.x {
                second_corner.x
            } else {
                first_corner.x
            },
            r.corners.1.y == if first_corner.y <= second_corner.y {
                second_corner.y
            } else {
                first_corner.y
            },
            r.corners.1.z == if first_corner.z <= second_corner.z {
                second_corner.z
            } else {
                first_corner.z
            },
    {
        let lo = Vector3 {
            x: if first_corner.x <= second_corner.x {
                first_corner.x
            } else {
                second_corner.x
            },
            y: if first_corner.y <= second_corner.y {
                first_corner.y
            } else {
                second_corner.y
            },
            z: if first_corner.z <= second_corner.z {
                first_corner.z
            } else {
                second_corner.z
            },
        };
        let hi = Vector3 {
            x: if first_corner.x <= second_corner.x {
                second_corner.x
            } else {
                first_corner.x
            },
            y: if first_corner.y <= second_corner.y {
                second_corner.y
            } else {
                first_corner.y
            },
            z: if first_corner.z <= second_corner.z {
                second_corner.z
            } else {
                first_corner.z
            },
        };
        BoundingBox { corners: (lo, hi) }
    }

    /// Does the ray intersect the box?  The answer is exactly [`box_hit`]:
    /// the three slabs are intersected in turn and the box is hit when the
    /// surviving interval of crossing distances reaches `t >= 0`.
    pub fn intersects(&self, ray: &Ray) -> (r: bool)
        requires
            self.wf(),
            ray.wf(),
        ensures
            r == box_hit(*self, *ray),
    {
        let ghost bx0 = self.corners.0.x as int;
        let ghost bx1 = self.corners.1.x as int;
        let ghost by0 = self.corners.0.y as int;
        let ghost by1 = self.corners.1.y as int;
        let ghost bz0 = self.corners.0.z as int;
        let ghost bz1 = self.corners.1.z as int;
        let ghost ox = ray.origin.x as int;
        let ghost oy = ray.origin.y as int;
        let ghost oz = ray.origin.z as int;
        let ghost dx = ray.direction.x as int;
        let ghost dy = ray.direction.y as int;
        let ghost dz = ray.direction.z as int;

        let sx = axis_slab(self.corners.0.x, self.corners.1.x, ray.origin.x, ray.direction.x);
        let sy = axis_slab(self.corners.0.y, self.corners.1.y, ray.origin.y, ray.direction.y);
        let sz = axis_slab(self.corners.0.z, self.corners.1.z, ray.origin.z, ray.direction.z);

        let cx = clip_step(ClipState::Free, sx, Ghost(bx0), Ghost(bx1), Ghost(ox), Ghost(dx));
        let cy = clip_step(cx, sy, Ghost(by0), Ghost(by1), Ghost(oy), Ghost(dy));
        let cz = clip_step(cy, sz, Ghost(bz0), Ghost(bz1), Ghost(oz), Ghost(dz));

        match cz {
            ClipState::Empty => {
                proof {
                    if box_hit(*self, *ray) {
                        let (tn, td): (int, int) = choose|tn: int, td: int|
                            {
                                &&& td > 0
                                &&& tn >= 0
                                &&& #[trigger] axis_ok(bx0, bx1, ox, dx, tn, td)
                                &&& axis_ok(by0, by1, oy, dy, tn, td)
                                &&& axis_ok(bz0, bz1, oz, dz, tn, td)
                            };
                        assert(clip_allows(cx, tn, td));
                        assert(clip_allows(cy, tn, td));
                        assert(clip_allows(cz, tn, td));
                        assert(false);
                    }
                }
                false
            },
            ClipState::Free => {
                proof {
                    assert(clip_allows(cz, 0, 1));
                    assert(clip_allows(cy, 0, 1));
                    assert(clip_allows(cx, 0, 1));
                    assert(axis_ok(bx0, bx1, ox, dx, 0, 1));
                    assert(axis_ok(by0, by1, oy, dy, 0, 1));
                    assert(axis_ok(bz0, bz1, oz, dz, 0, 1));
                }
                true
            },
            ClipState::Within(iv) => {
                if iv.hi.num >= 0 {
                    let ghost tn: int = if iv.lo.num >= 0 {
                        iv.lo.num as int
                    } else {
                        0
                    };
                    let ghost td: int = if iv.lo.num >= 0 {
                        iv.lo.den as int
                    } else {
                        1
                    };
                    proof {
                        if iv.lo.num >= 0 {
                            assert(fle(iv.lo.num as int, iv.lo.den as int, tn, td));
                            assert(fle(tn, td, iv.hi.num as int, iv.hi.den as int));
                        } else {
                            assert(iv.lo.num as int * 1 <= 0 * iv.lo.den as int)
                                by (nonlinear_arith)
                                requires
                                    iv.lo.num < 0,
                            ;
                            assert(0 * iv.hi.den as int <= iv.hi.num as int * 1)
                                by (nonlinear_arith)
                                requires
                                    iv.hi.num >= 0,
                            ;
                        }
                        assert(iv.contains(tn, td));
                        assert(clip_allows(cz, tn, td));
                        assert(axis_ok(bx0, bx1, ox, dx, tn, td));
                        assert(axis_ok(by0, by1, oy, dy, tn, td));
                        assert(axis_ok(bz0, bz1, oz, dz, tn, td));
                        assert(box_hit(*self, *ray));
                    }
                    true
                } else {
                    proof {
                        if box_hit(*self, *ray) {
                            let (tn, td): (int, int) = choose|tn: int, td: int|
                                {
                                    &&& td > 0
                                    &&& tn >= 0
                                    &&& #[trigger] axis_ok(bx0, bx1, ox, dx, tn, td)
                                    &&& axis_ok(by0, by1, oy, dy, tn, td)
                                    &&& axis_ok(bz0, bz1, oz, dz, tn, td)
                                };
                            assert(clip_allows(cx, tn, td));
                            assert(clip_allows(cy, tn, td));
                            assert(clip_allows(cz, tn, td));
                            assert(iv.contains(tn, td));
                            assert(tn * iv.hi.den as int >= 0) by (nonlinear_arith)
                                requires
                                    tn >= 0,
                                    iv.hi.den > 0,
                            ;
                            assert(iv.hi.num as int * td < 0) by (nonlinear_arith)
                                requires
                                    iv.hi.num < 0,
                                    td > 0,
                            ;
                            assert(false);
                        }
                    }
                    false
                }
            },
        }
    }
}

/// A ray whose origin lies strictly inside a box hits the box, whatever its
/// direction: the distance `t = 0` already satisfies every slab constraint.
pub proof fn lemma_origin_inside_box(bb: BoundingBox, ray: Ray)
    requires
        bb.corners.0.x < ray.origin.x < bb.corners.1.x,
        bb.corners.0.y < ray.origin.y < bb.corners.1.y,
        bb.corners.0.z < ray.origin.z < bb.corners.1.z,
    ensures
        box_hit(bb, ray),
{
    assert(axis_ok(
        bb.corners.0.x as int,
        bb.corners.1.x as int,
        ray.origin.x as int,
        ray.direction.x as int,
        0,
        1,
    ));
    assert(axis_ok(
        bb.corners.0.y as int,
        bb.corners.1.y as int,
        ray.origin.y as int,
        ray.direction.y as int,
        0,
        1,
    ));
    assert(axis_ok(
        bb.corners.0.z as int,
        bb.corners.1.z as int,
        ray.origin.z as int,
        ray.direction.z as int,
        0,
        1,
    ));
}

/// A flat surface: the points `p` with `dot(p, normal_vec) == distance_from_origin`.
///
/// The normal may have any nonzero integer length; the stored distance is
/// measured in units of that length, so a unit-length normal gives the plane
/// at euclidean distance `distance_from_origin` from the origin.
#[derive(Clone, Copy)]
pub struct Plane {
    /// Normal of the plane.  Its direction is exact; scaling it to unit
    /// length is an irrational step left to the caller.
    pub normal_vec: Vector3,
    /// Signed distance of the plane from the origin along the normal, in
    /// units of the normal's length.
    pub distance_from_origin: i64,
}

/// `dot(direction, normal)`: the denominator of the crossing distance.  Zero
/// exactly when the ray is parallel to the plane.
pub open spec fn plane_denom(p: Plane, ray: Ray) -> int {
    sdot(ray.direction, p.normal_vec)
}

/// `distance - dot(origin, normal)`: the numerator of the crossing distance.
pub open spec fn plane_num(p: Plane, ray: Ray) -> int {
    p.distance_from_origin - sdot(ray.origin, p.normal_vec)
}

/// The ray strikes the plane strictly ahead of its origin: the crossing
/// distance `t = plane_num / plane_denom` exists and is positive, which by
/// sign analysis is `plane_num * plane_denom > 0`.
pub open spec fn plane_hits(p: Plane, ray: Ray) -> bool {
    &&& plane_denom(p, ray) != 0
    &&& plane_num(p, ray) * plane_denom(p, ray) > 0
}

impl Plane {
    /// The normal is a nonzero vector and all stored values are bounded.
    pub open spec fn wf(self) -> bool {
        &&& self.normal_vec.in_range(COORD_LIMIT as int)
        &&& !(self.normal_vec.x == 0 && self.normal_vec.y == 0 && self.normal_vec.z == 0)
        &&& -COORD_LIMIT <= self.distance_from_origin <= COORD_LIMIT
    }

    pub fn new(normal_vec: Vector3, distance_from_origin: i64) -> (r: Plane)
        requires
            normal_vec.in_range(COORD_LIMIT as int),
            !(normal_vec.x == 0 && normal_vec.y == 0 && normal_vec.z == 0),
            -COORD_LIMIT <= distance_from_origin <= COORD_LIMIT,
        ensures
            r == (Plane { normal_vec, distance_from_origin }),
            r.wf(),
    {
        Plane { normal_vec, distance_from_origin }
    }

    /// The crossing distance of the ray and the plane, or `None` when the
    /// ray is parallel to the plane (a ray lying in the plane counts as a
    /// miss) or the crossing lies at or behind the origin.  The returned
    /// normal is the stored one; it is not flipped towards the ray.
    pub fn closest_intersection(&self, ray: &Ray) -> (r: Option<(Frac, Vector3)>)
        requires
            self.wf(),
            ray.wf(),
        ensures
            r is Some <==> plane_hits(*self, *ray),
            r matches Some(hit) ==> {
                &&& hit.1 == self.normal_vec
                &&& hit.0.wf()
                &&& hit.0.num > 0
                &&& hit.0.num * plane_denom(*self, *ray) == plane_num(*self, *ray) * hit.0.den
            },
    {
        let denom: i64 = ray.direction.dot(&self.normal_vec);
        if denom == 0 {
            None
        } else {
            let num: i64 = self.distance_from_origin - ray.origin.dot(&self.normal_vec);
            let t: Frac = if denom > 0 {
                Frac { num, den: denom }
            } else {
                Frac { num: -num, den: -denom }
            };
            proof {
                if denom > 0 {
                    assert(num > 0 <==> num as int * denom as int > 0) by (nonlinear_arith)
                        requires
                            denom > 0,
                    ;
                } else {
                    assert(-num > 0 <==> num as int * denom as int > 0) by (nonlinear_arith)
                        requires
                            denom < 0,
                    ;
                    assert((-num as int) * denom as int == num as int * (-denom as int))
                        by (nonlinear_arith);
                }
            }
            if t.num > 0 {
                Some((t, self.normal_vec))
            } else {
                None
            }
        }
    }
}

/// A sphere with integer center and strictly positive integer radius.
#[derive(Clone, Copy)]
pub struct Sphere {
    pub center_pos: Vector3,
    pub radius: i64,
}

/// `center - origin`, componentwise.
pub open spec fn sphere_oc(s: Sphere, ray: Ray) -> Vector3 {
    Vector3 {
        x: (s.center_pos.x - ray.origin.x) as i64,
        y: (s.center_pos.y - ray.origin.y) as i64,
        z: (s.center_pos.z - ray.origin.z) as i64,
    }
}

/// Projection of `center - origin` onto the ray direction.  For a
/// unit-length direction this is the distance along the ray at which the
/// center is nearest.
pub open spec fn sphere_proj(s: Sphere, ray: Ray) -> int {
    sdot(sphere_oc(s, ray), ray.direction)
}

/// The quantity under the square root of the ray-sphere quadratic
/// `t*t - 2*proj*t + (|oc|^2 - radius^2) == 0`, whose roots are
/// `proj - sqrt(disc)` and `proj + sqrt(disc)`.  Negative exactly when the
/// ray's line misses the sphere.
pub open spec fn sphere_disc(s: Sphere, ray: Ray) -> int {
    sphere_proj(s, ray) * sphere_proj(s, ray) - (sdot(sphere_oc(s, ray), sphere_oc(s, ray))
        - s.radius * s.radius)
}

/// The near root `proj - sqrt(disc)` is strictly positive: squaring the
/// inequality `sqrt(disc) < proj` gives `proj > 0 && disc < proj*proj`.
pub open spec fn sphere_near_hit(s: Sphere, ray: Ray) -> bool {
    &&& sphere_proj(s, ray) > 0
    &&& sphere_proj(s, ray) * sphere_proj(s, ray) > sphere_disc(s, ray)
}

/// The far root `proj + sqrt(disc)` is strictly positive: either the center
/// lies ahead of the origin, or `sqrt(disc) > -proj`, squared
/// `disc > proj*proj`.
pub open spec fn sphere_far_hit(s: Sphere, ray: Ray) -> bool {
    ||| sphere_proj(s, ray) > 0
    ||| sphere_disc(s, ray) > sphere_proj(s, ray) * sphere_proj(s, ray)
}

/// The ray strikes the sphere strictly ahead of its origin: the bounding box
/// pre-test passes, the quadratic has real roots, and at least its far root
/// is positive.
pub open spec fn sphere_hits(s: Sphere, ray: Ray) -> bool {
    &&& box_hit(s.spec_bounding_box(), ray)
    &&& sphere_disc(s, ray) >= 0
    &&& sphere_far_hit(s, ray)
}

/// An exact description of where a ray strikes a sphere.
///
/// The crossing distance is `proj - sqrt(disc)` when `far` is false and
/// `proj + sqrt(disc)` when it is true; with that distance `t`, the outward
/// surface normal before normalization is `direction * t - oc`, a vector of
/// euclidean length `radius` for a unit-length direction
/// (see [`lemma_root_offset_on_sphere`]).
#[derive(Clone, Copy)]
pub struct SphereHit {
    /// Projection of `center - origin` onto the ray direction.
    pub proj: i64,
    /// The nonnegative quantity under the square root.
    pub disc: i128,
    /// Whether the far root is the closest strictly positive one.
    pub far: bool,
    /// `center - origin`, handed out so the caller can form the normal.
    pub oc: Vector3,
}

impl Sphere {
    /// The center is bounded and the radius strictly positive, as a sphere
    /// of nonpositive radius has no geometry.
    pub open spec fn wf(self) -> bool {
        &&& self.center_pos.in_range(COORD_LIMIT as int)
        &&& 0 < self.radius <= COORD_LIMIT
    }

    /// Make a sphere with center `center_pos` and radius `radius`.
    pub fn new(center_pos: Vector3, radius: i64) -> (r: Sphere)
        requires
            center_pos.in_range(COORD_LIMIT as int),
            0 < radius <= COORD_LIMIT,
        ensures
            r == (Sphere { center_pos, radius }),
            r.wf(),
    {
        Sphere { center_pos, radius }
    }

    /// The minimal bounding box of the sphere: `center +- radius` on each
    /// axis.
    pub open spec fn spec_bounding_box(self) -> BoundingBox {
        BoundingBox {
            corners: (
                Vector3 {
                    x: (self.center_pos.x - self.radius) as i64,
                    y: (self.center_pos.y - self.radius) as i64,
                    z: (self.center_pos.z - self.radius) as i64,
                },
                Vector3 {
                    x: (self.center_pos.x + self.radius) as i64,
                    y: (self.center_pos.y + self.radius) as i64,
                    z: (self.center_pos.z + self.radius) as i64,
                },
            ),
        }
    }

    /// Compute the minimal bounding box of the sphere.
    pub fn bounding_box(&self) -> (r: BoundingBox)
        requires
            self.wf(),
        ensures
            r == self.spec_bounding_box(),
            r.wf(),
    {
        let lo = Vector3 {
            x: self.center_pos.x - self.radius,
            y: self.center_pos.y - self.radius,
            z: self.center_pos.z - self.radius,
        };
        let hi = Vector3 {
            x: self.center_pos.x + self.radius,
            y: self.center_pos.y + self.radius,
            z: self.center_pos.z + self.radius,
        };
        BoundingBox::new(lo, hi)
    }

    /// The closest forward crossing of the ray and the sphere, described
    /// exactly, or `None` when there is none.
    ///
    /// The box pre-test rejects most rays cheaply; then the sign of the
    /// discriminant decides whether the ray's line meets the sphere at all,
    /// and exact sign analysis picks the smallest strictly positive root:
    /// the near root `proj - sqrt(disc)` where it is positive, else the far
    /// root `proj + sqrt(disc)` (the origin lies inside the sphere or behind
    /// the near crossing), else no crossing (the sphere lies behind the
    /// ray).
    pub fn closest_intersection(&self, ray: &Ray) -> (r: Option<SphereHit>)
        requires
            self.wf(),
            ray.wf(),
        ensures
            r is Some <==> sphere_hits(*self, *ray),
            r matches Some(h) ==> {
                &&& h.proj == sphere_proj(*self, *ray)
                &&& h.disc == sphere_disc(*self, *ray)
                &&& h.disc >= 0
                &&& h.far == !sphere_near_hit(*self, *ray)
                &&& h.oc == sphere_oc(*self, *ray)
            },
    {
        let bb = self.bounding_box();
        if !bb.intersects(ray) {
            return None;
        }
        let oc = self.center_pos.sub(&ray.origin);
        let proj: i64 = oc.dot(&ray.direction);
        let norm2_oc: i64 = oc.norm2();
        proof {
            assert(0 < self.radius as int * self.radius as int <= 0x1_0000_0000_0000)
                by (nonlinear_arith)
                requires
                    0 < self.radius <= 0x100_0000,
            ;
        }
        let r2: i64 = self.radius * self.radius;
        proof {
            crate::math::lemma_mul_bound(proj as int, proj as int, 0x30_0000_0000_0000);
        }
        let pp: i128 = proj as i128 * proj as i128;
        let disc: i128 = pp - (norm2_oc as i128 - r2 as i128);
        if disc < 0 {
            None
        } else if proj > 0 && pp > disc {
            Some(SphereHit { proj, disc, far: false, oc })
        } else if proj > 0 || disc > pp {
            Some(SphereHit { proj, disc, far: true, oc })
        } else {
            None
        }
    }
}

/// A surface a ray can strike: a plane or a sphere.  Callers holding a
/// mixed collection query [`Surface::closest_intersection`] uniformly and
/// keep the nearest positive distance; that comparison is theirs, since it
/// needs no geometry.
#[derive(Clone, Copy)]
pub enum Surface {
    Plane(Plane),
    Sphere(Sphere),
}

/// Where a ray first strikes a surface.
#[derive(Clone, Copy)]
pub enum SurfaceHit {
    /// A plane hit: the exact crossing distance and the plane's normal.
    Planar { distance: Frac, normal: Vector3 },
    /// A sphere hit, described by [`SphereHit`].
    Spherical { hit: SphereHit },
}

impl Surface {
    pub open spec fn wf(self) -> bool {
        match self {
            Surface::Plane(p) => p.wf(),
            Surface::Sphere(s) => s.wf(),
        }
    }

    /// Find the closest forward intersection between the ray and the
    /// surface (if any), together with what determines the surface normal
    /// there.
    pub fn closest_intersection(&self, ray: &Ray) -> (r: Option<SurfaceHit>)
        requires
            self.wf(),
            ray.wf(),
        ensures
            *self matches Surface::Plane(p) ==> {
                &&& (r is Some <==> plane_hits(p, *ray))
                &&& r matches Some(sh) ==> sh matches SurfaceHit::Planar { distance, normal }
                    && normal == p.normal_vec && distance.wf() && distance.num > 0
                    && distance.num * plane_denom(p, *ray) == plane_num(p, *ray) * distance.den
            },
            *self matches Surface::Sphere(s) ==> {
                &&& (r is Some <==> sphere_hits(s, *ray))
                &&& r matches Some(sh) ==> sh matches SurfaceHit::Spherical { hit }
                    && hit.proj == sphere_proj(s, *ray) && hit.disc == sphere_disc(s, *ray)
                    && hit.disc >= 0 && hit.far == !sphere_near_hit(s, *ray) && hit.oc
                    == sphere_oc(s, *ray)
            },
    {
        match self {
            Surface::Plane(p) => match p.closest_intersection(ray) {
                Some((distance, normal)) => Some(SurfaceHit::Planar { distance, normal }),
                None => None,
            },
            Surface::Sphere(s) => match s.closest_intersection(ray) {
                Some(hit) => Some(SurfaceHit::Spherical { hit }),
                None => None,
            },
        }
    }
}

/// A ray parallel to a plane never strikes it, whatever its origin: with
/// `dot(direction, normal) == 0` there is no crossing distance at all.
pub proof fn lemma_parallel_ray_misses(p: Plane, ray: Ray)
    requires
        plane_denom(p, ray) == 0,
    ensures
        !plane_hits(p, ray),
{
}

/// A ray that passes through a sphere's exact center -- `center - origin`
/// is the direction scaled by the projection, for a unit-length direction --
/// with its origin outside the sphere and the center ahead, sees the two
/// quadratic roots collapse to `proj - radius` and `proj + radius`, and the
/// near one is the chosen crossing.
pub proof fn lemma_ray_through_center(s: Sphere, ray: Ray)
    requires
        s.wf(),
        ray.wf(),
        sdot(ray.direction, ray.direction) == 1,
        sphere_oc(s, ray).x == sphere_proj(s, ray) * ray.direction.x,
        sphere_oc(s, ray).y == sphere_proj(s, ray) * ray.direction.y,
        sphere_oc(s, ray).z == sphere_proj(s, ray) * ray.direction.z,
        sdot(sphere_oc(s, ray), sphere_oc(s, ray)) > s.radius * s.radius,
        sphere_proj(s, ray) > 0,
    ensures
        sphere_disc(s, ray) == s.radius * s.radius,
        sphere_near_hit(s, ray),
        sphere_hits(s, ray),
{
    let oc = sphere_oc(s, ray);
    let p = sphere_proj(s, ray);
    // The center itself is struck at distance `proj`, so the box pre-test
    // passes with the witness `t = proj / 1`.
    let bb = s.spec_bounding_box();
    assert(ray.origin.x + p * ray.direction.x == s.center_pos.x);
    assert(ray.origin.y + p * ray.direction.y == s.center_pos.y);
    assert(ray.origin.z + p * ray.direction.z == s.center_pos.z);
    assert(axis_ok(
        bb.corners.0.x as int, bb.corners.1.x as int,
        ray.origin.x as int, ray.direction.x as int, p, 1,
    ));
    assert(axis_ok(
        bb.corners.0.y as int, bb.corners.1.y as int,
        ray.origin.y as int, ray.direction.y as int, p, 1,
    ));
    assert(axis_ok(
        bb.corners.0.z as int, bb.corners.1.z as int,
        ray.origin.z as int, ray.direction.z as int, p, 1,
    ));
    assert(box_hit(bb, ray));
    assert(sdot(oc, oc) == p * p) by (nonlinear_arith)
        requires
            oc.x == p * ray.direction.x,
            oc.y == p * ray.direction.y,
            oc.z == p * ray.direction.z,
            sdot(ray.direction, ray.direction) == 1,
            sdot(oc, oc) == dot3(
                oc.x as int, oc.y as int, oc.z as int,
                oc.x as int, oc.y as int, oc.z as int,
            ),
            sdot(ray.direction, ray.direction) == dot3(
                ray.direction.x as int, ray.direction.y as int, ray.direction.z as int,
                ray.direction.x as int, ray.direction.y as int, ray.direction.z as int,
            ),
    ;
}

/// For a ray with origin strictly inside a sphere there is always a hit --
/// the origin is inside the bounding box too, so the pre-test passes -- and
/// the near root lies behind the origin while the far root lies ahead: the
/// crossing returned is the far one.
pub proof fn lemma_origin_inside_sphere(s: Sphere, ray: Ray)
    requires
        s.wf(),
        ray.wf(),
        sdot(sphere_oc(s, ray), sphere_oc(s, ray)) < s.radius * s.radius,
    ensures
        sphere_disc(s, ray) > sphere_proj(s, ray) * sphere_proj(s, ray),
        sphere_disc(s, ray) > 0,
        !sphere_near_hit(s, ray),
        sphere_far_hit(s, ray),
        sphere_hits(s, ray),
{
    let p = sphere_proj(s, ray);
    assert(p * p >= 0) by (nonlinear_arith);
    // Each offset component is below the radius in magnitude, so the origin
    // lies strictly inside the bounding box as well.
    let oc = sphere_oc(s, ray);
    assert(oc.x * oc.x < s.radius * s.radius && oc.y * oc.y < s.radius * s.radius && oc.z * oc.z
        < s.radius * s.radius) by (nonlinear_arith)
        requires
            sdot(oc, oc) < s.radius * s.radius,
            sdot(oc, oc) == oc.x * oc.x + oc.y * oc.y + oc.z * oc.z,
    ;
    assert(-s.radius < oc.x < s.radius) by (nonlinear_arith)
        requires
            oc.x * oc.x < s.radius * s.radius,
            s.radius > 0,
    ;
    assert(-s.radius < oc.y < s.radius) by (nonlinear_arith)
        requires
            oc.y * oc.y < s.radius * s.radius,
            s.radius > 0,
    ;
    assert(-s.radius < oc.z < s.radius) by (nonlinear_arith)
        requires
            oc.z * oc.z < s.radius * s.radius,
            s.radius > 0,
    ;
    lemma_origin_inside_box(s.spec_bounding_box(), ray);
}

/// The squared length of `direction * t - oc` expands to a polynomial in
/// `t`: the ray-sphere quadratic shifted by `radius^2` when the direction
/// has unit length.  The identity holds for every integer `t` and, being
/// polynomial, for the irrational roots as well.
pub proof fn lemma_offset_norm2(t: int, d: Vector3, oc: Vector3)
    ensures
        dot3(
            t * d.x - oc.x, t * d.y - oc.y, t * d.z - oc.z,
            t * d.x - oc.x, t * d.y - oc.y, t * d.z - oc.z,
        ) == t * t * sdot(d, d) - 2 * t * sdot(oc, d) + sdot(oc, oc),
{
    let dx = d.x as int;
    let dy = d.y as int;
    let dz = d.z as int;
    let ox = oc.x as int;
    let oy = oc.y as int;
    let oz = oc.z as int;
    assert((t * dx - ox) * (t * dx - ox) == t * t * (dx * dx) - 2 * t * (ox * dx) + ox * ox)
        by (nonlinear_arith);
    assert((t * dy - oy) * (t * dy - oy) == t * t * (dy * dy) - 2 * t * (oy * dy) + oy * oy)
        by (nonlinear_arith);
    assert((t * dz - oz) * (t * dz - oz) == t * t * (dz * dz) - 2 * t * (oz * dz) + oz * oz)
        by (nonlinear_arith);
    assert(t * t * (dx * dx + dy * dy + dz * dz) == t * t * (dx * dx) + t * t * (dy * dy) + t * t
        * (dz * dz)) by (nonlinear_arith);
    assert(2 * t * (ox * dx + oy * dy + oz * dz) == 2 * t * (ox * dx) + 2 * t * (oy * dy) + 2 * t
        * (oz * dz)) by (nonlinear_arith);
}

/// Any root `t` of the ray-sphere quadratic places the point
/// `direction * t` at distance `radius` from the sphere's center: the
/// vector `direction * t - oc` has squared length `radius^2`, so the normal
/// obtained by dividing it by `radius` has length one.
pub proof fn lemma_root_offset_on_sphere(s: Sphere, ray: Ray, t: int)
    requires
        sdot(ray.direction, ray.direction) == 1,
        t * t - 2 * t * sphere_proj(s, ray) + (sdot(sphere_oc(s, ray), sphere_oc(s, ray))
            - s.radius * s.radius) == 0,
    ensures
        dot3(
            t * ray.direction.x - sphere_oc(s, ray).x,
            t * ray.direction.y - sphere_oc(s, ray).y,
            t * ray.direction.z - sphere_oc(s, ray).z,
            t * ray.direction.x - sphere_oc(s, ray).x,
            t * ray.direction.y - sphere_oc(s, ray).y,
            t * ray.direction.z - sphere_oc(s, ray).z,
        ) == s.radius * s.radius,
{
    lemma_offset_norm2(t, ray.direction, sphere_oc(s, ray));
}

/// At grazing incidence -- the discriminant is zero and the one crossing
/// distance is `proj` itself -- the unnormalized surface normal
/// `direction * proj - oc` is orthogonal to the ray direction.
pub proof fn lemma_tangent_normal_grazes(s: Sphere, ray: Ray)
    requires
        sdot(ray.direction, ray.direction) == 1,
    ensures
        dot3(
            sphere_proj(s, ray) * ray.direction.x - sphere_oc(s, ray).x,
            sphere_proj(s, ray) * ray.direction.y - sphere_oc(s, ray).y,
            sphere_proj(s, ray) * ray.direction.z - sphere_oc(s, ray).z,
            ray.direction.x as int,
            ray.direction.y as int,
            ray.direction.z as int,
        ) == 0,
{
    let p = sphere_proj(s, ray);
    let oc = sphere_oc(s, ray);
    let d = ray.direction;
    let dx = d.x as int;
    let dy = d.y as int;
    let dz = d.z as int;
    let ox = oc.x as int;
    let oy = oc.y as int;
    let oz = oc.z as int;
    assert((p * dx - ox) * dx == p * (dx * dx) - ox * dx) by (nonlinear_arith);
    assert((p * dy - oy) * dy == p * (dy * dy) - oy * dy) by (nonlinear_arith);
    assert((p * dz - oz) * dz == p * (dz * dz) - oz * dz) by (nonlinear_arith);
    assert(p * (dx * dx + dy * dy + dz * dz) == p * (dx * dx) + p * (dy * dy) + p * (dz * dz))
        by (nonlinear_arith);
}

} // verus!
