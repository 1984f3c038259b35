//! Rays: an origin with a direction, the position along the ray, and the
//! analytic intersection with a sphere.
//!
//! The solver returns both quadratic roots whenever the discriminant is
//! nonnegative — tangent rays give a doubled root, and roots behind the
//! origin are kept: filtering for visibility belongs to hit selection.

use vstd::prelude::*;
use crate::fixed::{
    Field, SCALE, LIMIT, fmul, fdiv, fsqrt, lemma_isqrt, lemma_tdiv_ordered, lemma_fmul_bound,
};
use crate::intersection::Intersection;
use crate::sphere::Sphere;
use crate::vector::{Point, Vector, dot_spec, norm_sq_spec, lemma_dot_bound, lemma_norm_sq_nonneg};

verus! {

/// A ray: origin and direction.  The direction need not be a unit vector,
/// but the parameter of an intersection measures distance only when it is.
#[derive(Clone, Copy, PartialEq, Eq, Structural, Debug)]
pub struct Ray {
    pub origin: Point,
    pub direction: Vector,
}

/// The vector from the sphere's centre to the ray's origin.
pub open spec fn oc_spec(r: Ray, s: Sphere) -> Vector {
    Vector {
        x: Field { raw: (r.origin.x.raw - s.origin.x.raw) as i128 },
        y: Field { raw: (r.origin.y.raw - s.origin.y.raw) as i128 },
        z: Field { raw: (r.origin.z.raw - s.origin.z.raw) as i128 },
    }
}

/// The quadratic coefficient `a`: the squared norm of the direction.
pub open spec fn qa_spec(r: Ray) -> int {
    norm_sq_spec(r.direction)
}

/// The quadratic coefficient `b`: direction dotted with the centre-to-
/// origin vector.
pub open spec fn qb_spec(r: Ray, s: Sphere) -> int {
    dot_spec(r.direction, oc_spec(r, s))
}

/// The quadratic coefficient `c`: the squared distance from the centre to
/// the origin, less the squared radius.
pub open spec fn qc_spec(r: Ray, s: Sphere) -> int {
    norm_sq_spec(oc_spec(r, s)) - fmul(s.radius.val(), s.radius.val())
}

/// The discriminant `b^2 - a c` of the intersection quadratic.
pub open spec fn disc_spec(r: Ray, s: Sphere) -> int {
    fmul(qb_spec(r, s), qb_spec(r, s)) - fmul(qa_spec(r), qc_spec(r, s))
}

/// The nearer root `(-b - sqrt(disc)) / a`.
pub open spec fn t1_spec(r: Ray, s: Sphere) -> int {
    fdiv(-qb_spec(r, s) - fsqrt(disc_spec(r, s)), qa_spec(r))
}

/// The farther root `(-b + sqrt(disc)) / a`.
pub open spec fn t2_spec(r: Ray, s: Sphere) -> int {
    fdiv(-qb_spec(r, s) + fsqrt(disc_spec(r, s)), qa_spec(r))
}

impl Ray {
    /// The ray with the given origin and direction.
    pub fn new(origin: Point, direction: Vector) -> (r: Ray)
        ensures
            r == (Ray { origin, direction }),
    {
        Ray { origin, direction }
    }

    /// The point reached after travelling `t` along the direction:
    /// `origin + direction * t`.
    pub fn position(&self, t: Field) -> (p: Point)
        requires
            self.origin.mag_le(LIMIT as int),
            self.direction.mag_le(LIMIT as int),
            t.mag_le(LIMIT as int),
        ensures
            p.x.raw == self.origin.x.raw + fmul(self.direction.x.val(), t.val()),
            p.y.raw == self.origin.y.raw + fmul(self.direction.y.val(), t.val()),
            p.z.raw == self.origin.z.raw + fmul(self.direction.z.val(), t.val()),
    {
        proof {
            lemma_fmul_bound(self.direction.x.val(), t.val(), LIMIT as int, LIMIT as int);
            lemma_fmul_bound(self.direction.y.val(), t.val(), LIMIT as int, LIMIT as int);
            lemma_fmul_bound(self.direction.z.val(), t.val(), LIMIT as int, LIMIT as int);
        }
        self.origin.add(self.direction.scale(t))
    }

    /// The two crossings of the ray with a sphere, by solving the
    /// quadratic: `None` exactly when the discriminant is negative, else
    /// both roots in order, equal for a tangent ray.  Roots may be
    /// negative (behind the origin): visibility is the hit selection's
    /// concern.
    pub fn sphere_intersection(&self, sphere: Sphere) -> (res: Option<(Intersection, Intersection)>)
        requires
            self.origin.mag_le(LIMIT as int),
            self.direction.mag_le(LIMIT as int),
            sphere.origin.mag_le(LIMIT as int),
            sphere.radius.mag_le(LIMIT as int),
            qa_spec(*self) >= 1,
        ensures
            (res is None) <==> disc_spec(*self, sphere) < 0,
            match res {
                None => true,
                Some((i1, i2)) => {
                    &&& i1.object == sphere
                    &&& i2.object == sphere
                    &&& i1.t.raw == t1_spec(*self, sphere)
                    &&& i2.t.raw == t2_spec(*self, sphere)
                    &&& i1.t.raw <= i2.t.raw
                    &&& disc_spec(*self, sphere) == 0 ==> i1.t == i2.t
                },
            },
    {
        let oc = self.origin.sub(sphere.origin);
        proof {
            assert(oc == oc_spec(*self, sphere));
            lemma_norm_sq_nonneg(self.direction);
            lemma_norm_sq_nonneg(oc);
            lemma_dot_bound(self.direction, self.direction, LIMIT as int, LIMIT as int);
            lemma_dot_bound(self.direction, oc, LIMIT as int, 2 * LIMIT as int);
            lemma_dot_bound(oc, oc, 2 * LIMIT as int, 2 * LIMIT as int);
            lemma_fmul_bound(sphere.radius.val(), sphere.radius.val(), LIMIT as int, LIMIT as int);
        }
        let a = self.direction.norm_sq();
        let b = self.direction.dot(&oc);
        let c = oc.norm_sq().sub(sphere.radius.mul(sphere.radius));
        proof {
            lemma_fmul_bound(b.raw as int, b.raw as int, 12_000_000_000_000, 12_000_000_000_000);
            lemma_fmul_bound(a.raw as int, c.raw as int, 3_000_000_000_000, 14_000_000_000_000);
        }
        let disc = b.mul(b).sub(a.mul(c));
        if disc.raw < 0 {
            None
        } else {
            let sq = disc.sqrt();
            proof {
                lemma_isqrt(disc.raw * SCALE);
                let q = fsqrt(disc.raw as int);
                assert(q <= disc.raw * SCALE) by (nonlinear_arith)
                    requires
                        q >= 0,
                        q * q <= disc.raw * SCALE,
                ;
                let num1 = -(b.raw as int) - q;
                let num2 = -(b.raw as int) + q;
                assert(num1 * SCALE <= num2 * SCALE) by (nonlinear_arith)
                    requires
                        num1 <= num2,
                        SCALE >= 1,
                ;
                lemma_tdiv_ordered(num1 * SCALE, num2 * SCALE, a.raw as int);
            }
            let t1 = b.neg().sub(sq).div(a);
            let t2 = b.neg().add(sq).div(a);
            Some((Intersection::new(t1, sphere), Intersection::new(t2, sphere)))
        }
    }
}

} // verus!
