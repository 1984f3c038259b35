//! The sphere primitive: a centre, a radius and a material, with the
//! outward surface normal query.

use vstd::prelude::*;
use crate::fixed::{Field, SCALE, LIMIT, fdiv};
use crate::material::{Material, default_material};
use crate::vector::{Point, Vector, norm_spec};

verus! {

/// A sphere with its surface material.
#[derive(Clone, Copy, PartialEq, Eq, Structural, Debug)]
pub struct Sphere {
    pub origin: Point,
    pub radius: Field,
    pub material: Material,
}

/// The vector from a sphere's centre to a point.
pub open spec fn centre_diff(s: Sphere, p: Point) -> Vector {
    Vector {
        x: Field { raw: (p.x.raw - s.origin.x.raw) as i128 },
        y: Field { raw: (p.y.raw - s.origin.y.raw) as i128 },
        z: Field { raw: (p.z.raw - s.origin.z.raw) as i128 },
    }
}

impl Sphere {
    /// The sphere with the given centre, radius and material.
    pub fn new(origin: Point, radius: Field, material: Material) -> (s: Sphere)
        ensures
            s == (Sphere { origin, radius, material }),
    {
        Sphere { origin, radius, material }
    }

    /// The outward unit normal at a surface point: the direction from the
    /// centre to the point, normalized.  `None` when that direction has no
    /// fixed-point norm to divide by (in particular at the centre itself),
    /// in which case the caller skips the pixel.
    pub fn normal_at(&self, point: Point) -> (r: Option<Vector>)
        requires
            self.origin.mag_le(LIMIT as int),
            point.mag_le(LIMIT as int),
        ensures
            match r {
                None => norm_spec(centre_diff(*self, point)) == 0,
                Some(u) => {
                    &&& norm_spec(centre_diff(*self, point)) >= 1000
                    &&& u.x.raw == fdiv(
                        centre_diff(*self, point).x.val(),
                        norm_spec(centre_diff(*self, point)),
                    )
                    &&& u.y.raw == fdiv(
                        centre_diff(*self, point).y.val(),
                        norm_spec(centre_diff(*self, point)),
                    )
                    &&& u.z.raw == fdiv(
                        centre_diff(*self, point).z.val(),
                        norm_spec(centre_diff(*self, point)),
                    )
                    &&& u.mag_le(2 * SCALE)
                },
            },
    {
        let diff = point.sub(self.origin);
        proof {
            assert(diff == centre_diff(*self, point));
        }
        diff.normalize()
    }
}

impl Default for Sphere {
    /// The unit sphere at the world origin with the default material.
    fn default() -> (s: Sphere)
        ensures
            s.origin.x.raw == 0 && s.origin.y.raw == 0 && s.origin.z.raw == 0,
            s.radius.raw == SCALE,
            s.material == default_material(),
    {
        Sphere { origin: Point::origin(), radius: Field::one(), material: Material::default() }
    }
}

} // verus!
