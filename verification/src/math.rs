//! Exact scalar, vector, ray and interval primitives.
//!
//! Coordinates are bounded integers; parametric distances along a ray are
//! exact fractions ([`Frac`]).  Comparing two fractions with positive
//! denominators never divides: `a/b <= c/d` holds exactly when
//! `a*d <= c*b`, which is what [`fle`] states and what the executable
//! comparisons compute in 128-bit arithmetic.

use vstd::prelude::*;

verus! {

/// Largest coordinate magnitude the geometric functions accept for ray
/// origins, ray directions, sphere centers, radii, plane normals and plane
/// distances.  Bounding every input keeps all intermediate products well
/// inside the fixed-width integer types.
pub const COORD_LIMIT: i64 = 0x100_0000;

/// `a/b <= c/d` for fractions with positive denominators, stated without
/// division: `a*d <= c*b`.
pub open spec fn fle(an: int, ad: int, bn: int, bd: int) -> bool {
    an * bd <= bn * ad
}

/// Transitivity of [`fle`] over positive denominators.
pub proof fn lemma_fle_trans(an: int, ad: int, bn: int, bd: int, cn: int, cd: int)
    by (nonlinear_arith)
    requires
        ad > 0,
        bd > 0,
        cd > 0,
        an * bd <= bn * ad,
        bn * cd <= cn * bd,
    ensures
        an * cd <= cn * ad,
{
}

/// Dot product of two integer triples.
pub open spec fn dot3(ax: int, ay: int, az: int, bx: int, by: int, bz: int) -> int {
    ax * bx + ay * by + az * bz
}

/// The product of two values of magnitude at most `m` has magnitude at most
/// `m * m`.
pub proof fn lemma_mul_bound(a: int, b: int, m: int)
    by (nonlinear_arith)
    requires
        0 <= m,
        -m <= a <= m,
        -m <= b <= m,
    ensures
        -(m * m) <= a * b <= m * m,
{
}

/// A squared norm is never negative.
pub proof fn lemma_norm2_nonneg(x: int, y: int, z: int)
    by (nonlinear_arith)
    ensures
        dot3(x, y, z, x, y, z) >= 0,
{
}

/// A three-dimensional vector with integer coordinates.
#[derive(Clone, Copy, PartialEq, Eq, Structural, Debug)]
pub struct Vector3 {
    pub x: i64,
    pub y: i64,
    pub z: i64,
}

/// Dot product of two vectors, as a mathematical integer.
pub open spec fn sdot(a: Vector3, b: Vector3) -> int {
    dot3(a.x as int, a.y as int, a.z as int, b.x as int, b.y as int, b.z as int)
}

impl Vector3 {
    /// Every coordinate has magnitude at most `limit`.
    pub open spec fn in_range(self, limit: int) -> bool {
        &&& -limit <= self.x <= limit
        &&& -limit <= self.y <= limit
        &&& -limit <= self.z <= limit
    }

    pub fn new(x: i64, y: i64, z: i64) -> (r: Vector3)
        ensures
            r == (Vector3 { x, y, z }),
    {
        Vector3 { x, y, z }
    }

    /// Componentwise sum.
    pub fn add(&self, other: &Vector3) -> (r: Vector3)
        requires
            self.in_range(0x2000_0000),
            other.in_range(0x2000_0000),
        ensures
            r.x == self.x + other.x,
            r.y == self.y + other.y,
            r.z == self.z + other.z,
    {
        Vector3 { x: self.x + other.x, y: self.y + other.y, z: self.z + other.z }
    }

    /// Componentwise difference.
    pub fn sub(&self, other: &Vector3) -> (r: Vector3)
        requires
            self.in_range(0x2000_0000),
            other.in_range(0x2000_0000),
        ensures
            r.x == self.x - other.x,
            r.y == self.y - other.y,
            r.z == self.z - other.z,
    {
        Vector3 { x: self.x - other.x, y: self.y - other.y, z: self.z - other.z }
    }

    /// Multiplication by an integer scalar.
    pub fn scale(&self, k: i64) -> (r: Vector3)
        requires
            self.in_range(0x4000_0000),
            -0x4000_0000 <= k <= 0x4000_0000,
        ensures
            r.x == k * self.x,
            r.y == k * self.y,
            r.z == k * self.z,
    {
        proof {
            lemma_mul_bound(k as int, self.x as int, 0x4000_0000);
            lemma_mul_bound(k as int, self.y as int, 0x4000_0000);
            lemma_mul_bound(k as int, self.z as int, 0x4000_0000);
        }
        Vector3 { x: k * self.x, y: k * self.y, z: k * self.z }
    }

    /// Dot product.  The bound on the result follows from the bound on the
    /// operands' coordinates.
    pub fn dot(&self, other: &Vector3) -> (r: i64)
        requires
            self.in_range(0x400_0000),
            other.in_range(0x400_0000),
        ensures
            r == sdot(*self, *other),
            -0x30_0000_0000_0000 <= r <= 0x30_0000_0000_0000,
    {
        proof {
            lemma_mul_bound(self.x as int, other.x as int, 0x400_0000);
            lemma_mul_bound(self.y as int, other.y as int, 0x400_0000);
            lemma_mul_bound(self.z as int, other.z as int, 0x400_0000);
        }
        (self.x as i128 * other.x as i128 + self.y as i128 * other.y as i128
            + self.z as i128 * other.z as i128) as i64
    }

    /// Squared euclidean norm.
    pub fn norm2(&self) -> (r: i64)
        requires
            self.in_range(0x400_0000),
        ensures
            r == sdot(*self, *self),
            0 <= r <= 0x30_0000_0000_0000,
    {
        proof {
            lemma_norm2_nonneg(self.x as int, self.y as int, self.z as int);
        }
        self.dot(self)
    }
}

/// A half-line: the points `origin + t * direction` for `t >= 0`.
#[derive(Clone, Copy, Debug)]
pub struct Ray {
    pub origin: Vector3,
    pub direction: Vector3,
}

impl Ray {
    /// Both the origin and the direction are within [`COORD_LIMIT`].
    pub open spec fn wf(self) -> bool {
        &&& self.origin.in_range(COORD_LIMIT as int)
        &&& self.direction.in_range(COORD_LIMIT as int)
    }

    pub fn new(origin: Vector3, direction: Vector3) -> (r: Ray)
        ensures
            r == (Ray { origin, direction }),
    {
        Ray { origin, direction }
    }
}

/// An exact fraction `num / den` with a positive denominator.
#[derive(Clone, Copy, PartialEq, Eq, Structural, Debug)]
pub struct Frac {
    pub num: i64,
    pub den: i64,
}

impl Frac {
    /// The denominator is positive, so the fraction's sign is its
    /// numerator's and [`fle`] compares values.
    pub open spec fn wf(self) -> bool {
        0 < self.den
    }

    /// `self <= other` as rational numbers.
    pub open spec fn spec_le(self, other: Frac) -> bool {
        fle(self.num as int, self.den as int, other.num as int, other.den as int)
    }

    /// Build `num / den`, normalizing the sign so the denominator is
    /// positive.
    pub fn new(num: i64, den: i64) -> (r: Frac)
        requires
            den != 0,
            -0x4000_0000_0000_0000 <= num <= 0x4000_0000_0000_0000,
            -0x4000_0000_0000_0000 <= den <= 0x4000_0000_0000_0000,
        ensures
            r.wf(),
            den > 0 ==> r == (Frac { num, den }),
            den < 0 ==> r == (Frac { num: -num as i64, den: -den as i64 }),
    {
        if den > 0 {
            Frac { num, den }
        } else {
            Frac { num: -num, den: -den }
        }
    }

    /// Exact comparison by cross-multiplication.
    pub fn le(&self, other: &Frac) -> (r: bool)
        requires
            self.wf(),
            other.wf(),
        ensures
            r == self.spec_le(*other),
    {
        proof {
            lemma_mul_bound(self.num as int, other.den as int, 0x8000_0000_0000_0000);
            lemma_mul_bound(other.num as int, self.den as int, 0x8000_0000_0000_0000);
        }
        self.num as i128 * other.den as i128 <= other.num as i128 * self.den as i128
    }
}

/// A closed interval `[lo, hi]` of rational numbers.
#[derive(Clone, Copy, Debug)]
pub struct Interval {
    pub lo: Frac,
    pub hi: Frac,
}

impl Interval {
    /// Both endpoints are well formed and in order.
    pub open spec fn wf(self) -> bool {
        &&& self.lo.wf()
        &&& self.hi.wf()
        &&& self.lo.spec_le(self.hi)
    }

    /// The rational `tn / td` (with `td > 0`) lies in the interval.
    pub open spec fn contains(self, tn: int, td: int) -> bool {
        &&& fle(self.lo.num as int, self.lo.den as int, tn, td)
        &&& fle(tn, td, self.hi.num as int, self.hi.den as int)
    }

    /// Build the interval with the given endpoints, in either order.
    pub fn new(first: Frac, second: Frac) -> (r: Interval)
        requires
            first.wf(),
            second.wf(),
        ensures
            r.wf(),
            first.spec_le(second) ==> r == (Interval { lo: first, hi: second }),
            !first.spec_le(second) ==> r == (Interval { lo: second, hi: first }),
    {
        if first.le(&second) {
            Interval { lo: first, hi: second }
        } else {
            Interval { lo: second, hi: first }
        }
    }

    /// The endpoints `(lo, hi)`.
    pub fn get_endpoints(&self) -> (r: (Frac, Frac))
        ensures
            r == (self.lo, self.hi),
    {
        (self.lo, self.hi)
    }

    /// Exact intersection of two intervals: the result contains exactly the
    /// rationals that both operands contain, and `None` means no rational
    /// lies in both.
    pub fn intersection(&self, other: &Interval) -> (r: Option<Interval>)
        requires
            self.wf(),
            other.wf(),
        ensures
            match r {
                Some(iv) => iv.wf() && forall|tn: int, td: int|
                    td > 0 ==> (#[trigger] iv.contains(tn, td) <==> self.contains(tn, td)
                        && other.contains(tn, td)),
                None => forall|tn: int, td: int|
                    td > 0 && #[trigger] self.contains(tn, td) ==> !other.contains(tn, td),
            },
    {
        let lo: Frac = if self.lo.le(&other.lo) {
            other.lo
        } else {
            self.lo
        };
        let hi: Frac = if self.hi.le(&other.hi) {
            self.hi
        } else {
            other.hi
        };
        if lo.le(&hi) {
            let iv = Interval { lo, hi };
            proof {
                assert forall|tn: int, td: int|
                    td > 0 implies (#[trigger] iv.contains(tn, td) <==> self.contains(tn, td)
                        && other.contains(tn, td)) by {
                    if iv.contains(tn, td) {
                        if self.lo.spec_le(other.lo) {
                            lemma_fle_trans(
                                self.lo.num as int, self.lo.den as int,
                                lo.num as int, lo.den as int,
                                tn, td,
                            );
                        }
                        if !self.hi.spec_le(other.hi) {
                            lemma_fle_trans(
                                tn, td,
                                hi.num as int, hi.den as int,
                                self.hi.num as int, self.hi.den as int,
                            );
                        }
                        if !self.lo.spec_le(other.lo) {
                            lemma_fle_trans(
                                other.lo.num as int, other.lo.den as int,
                                lo.num as int, lo.den as int,
                                tn, td,
                            );
                        }
                        if self.hi.spec_le(other.hi) {
                            lemma_fle_trans(
                                tn, td,
                                hi.num as int, hi.den as int,
                                other.hi.num as int, other.hi.den as int,
                            );
                        }
                    }
                }
            }
            Some(iv)
        } else {
            proof {
                assert forall|tn: int, td: int|
                    td > 0 && #[trigger] self.contains(tn, td) implies !other.contains(
                    tn,
                    td,
                ) by {
                    if other.contains(tn, td) {
                        lemma_fle_trans(
                            lo.num as int, lo.den as int,
                            tn, td,
                            hi.num as int, hi.den as int,
                        );
                    }
                }
            }
            None
        }
    }
}

} // verus!
