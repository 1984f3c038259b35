//! The point light and the Phong shading function.
//!
//! `lighting` has exactly three terminal shapes, selected by the signs of
//! two dot products: ambient only (light behind the surface), ambient
//! plus diffuse (reflection away from the eye), and the full sum with the
//! specular term.

use vstd::prelude::*;
use crate::colour::Colour;
use crate::fixed::{Field, SCALE, LIMIT, fmul, fdiv, fpow, lemma_fmul_bound};
use crate::material::Material;
use crate::vector::{Point, Vector, dot_spec, norm_spec, lemma_dot_bound, reflect};

verus! {

/// An idealized point light: a position and a colour, no attenuation.
#[derive(Clone, Copy, PartialEq, Eq, Structural, Debug)]
pub struct LightSource {
    pub origin: Point,
    pub colour: Colour,
}

impl LightSource {
    /// The light at the given position with the given colour.
    pub fn new(origin: Point, colour: Colour) -> (l: LightSource)
        ensures
            l == (LightSource { origin, colour }),
    {
        LightSource { origin, colour }
    }

    /// A white light at the given position.
    pub fn sun_at(x: Field, y: Field, z: Field) -> (l: LightSource)
        ensures
            l.origin == (Point { x, y, z }),
            l.colour.r.raw == SCALE && l.colour.g.raw == SCALE && l.colour.b.raw == SCALE,
    {
        LightSource { origin: Point::new(x, y, z), colour: Colour::white() }
    }
}

/// The vector from the shaded point to the light.
pub open spec fn light_diff(l: LightSource, p: Point) -> Vector {
    Vector {
        x: Field { raw: (l.origin.x.raw - p.x.raw) as i128 },
        y: Field { raw: (l.origin.y.raw - p.y.raw) as i128 },
        z: Field { raw: (l.origin.z.raw - p.z.raw) as i128 },
    }
}

/// The fixed-point norm of that vector.
pub open spec fn light_norm(l: LightSource, p: Point) -> int {
    norm_spec(light_diff(l, p))
}

/// The unit vector toward the light.
pub open spec fn light_dir(l: LightSource, p: Point) -> Vector {
    Vector {
        x: Field { raw: fdiv(light_diff(l, p).x.val(), light_norm(l, p)) as i128 },
        y: Field { raw: fdiv(light_diff(l, p).y.val(), light_norm(l, p)) as i128 },
        z: Field { raw: fdiv(light_diff(l, p).z.val(), light_norm(l, p)) as i128 },
    }
}

/// The light direction dotted with the surface normal; negative when the
/// light lies behind the surface.
pub open spec fn ldn_spec(l: LightSource, p: Point, n: Vector) -> int {
    dot_spec(light_dir(l, p), n)
}

/// The light direction reversed: the incoming direction of the light.
pub open spec fn light_in(l: LightSource, p: Point) -> Vector {
    Vector {
        x: Field { raw: (-light_dir(l, p).x.raw) as i128 },
        y: Field { raw: (-light_dir(l, p).y.raw) as i128 },
        z: Field { raw: (-light_dir(l, p).z.raw) as i128 },
    }
}

/// The incoming light mirrored about the surface normal.
pub open spec fn reflect_spec(l: LightSource, p: Point, n: Vector) -> Vector {
    Vector {
        x: Field {
            raw: (light_in(l, p).x.val() - fmul(n.x.val(), 2 * dot_spec(light_in(l, p), n))) as i128,
        },
        y: Field {
            raw: (light_in(l, p).y.val() - fmul(n.y.val(), 2 * dot_spec(light_in(l, p), n))) as i128,
        },
        z: Field {
            raw: (light_in(l, p).z.val() - fmul(n.z.val(), 2 * dot_spec(light_in(l, p), n))) as i128,
        },
    }
}

/// The reflection dotted with the eye direction; nonpositive when the
/// reflected light misses the eye.
pub open spec fn rde_spec(l: LightSource, p: Point, eye: Vector, n: Vector) -> int {
    dot_spec(reflect_spec(l, p, n), eye)
}

/// One channel of the effective colour: light filtered by the surface.
pub open spec fn eff_channel(lc: int, mc: int) -> int {
    fmul(lc, mc)
}

/// One channel of the ambient term.
pub open spec fn ambient_channel(lc: int, mc: int, ambient: int) -> int {
    fmul(eff_channel(lc, mc), ambient)
}

/// One channel of the diffuse term, proportional to the light-normal dot.
pub open spec fn diffuse_channel(lc: int, mc: int, diffuse: int, ldn: int) -> int {
    fmul(fmul(eff_channel(lc, mc), diffuse), ldn)
}

/// The specular falloff exponent: the whole part of the shininess.
pub open spec fn shin_exp(m: Material) -> int {
    (m.shininess.raw as int) / (SCALE as int)
}

/// The specular factor: the reflection-eye dot, capped at one, raised to
/// the shininess exponent.
pub open spec fn factor_spec(m: Material, l: LightSource, p: Point, eye: Vector, n: Vector) -> int {
    let base = if rde_spec(l, p, eye, n) > SCALE {
        SCALE as int
    } else {
        rde_spec(l, p, eye, n)
    };
    fpow(base, shin_exp(m) as nat)
}

/// One channel of the specular term (from the light's own colour).
pub open spec fn specular_channel(lc: int, specular: int, factor: int) -> int {
    fmul(fmul(lc, specular), factor)
}

/// Phong shading at a surface point.  The result is one of three sums,
/// chosen by the signs of the two dot products: ambient alone when the
/// light is behind the surface, ambient plus diffuse when the reflection
/// misses the eye, and all three terms otherwise.
pub fn lighting(
    material: Material,
    light_source: LightSource,
    point: Point,
    eye_normal: Vector,
    surface_normal: Vector,
) -> (res: Colour)
    requires
        material.colour.mag_le(LIMIT as int),
        material.ambient.mag_le(LIMIT as int),
        material.diffuse.mag_le(LIMIT as int),
        material.specular.mag_le(LIMIT as int),
        0 <= material.shininess.raw <= LIMIT,
        light_source.colour.mag_le(LIMIT as int),
        light_source.origin.mag_le(LIMIT as int),
        point.mag_le(LIMIT as int),
        eye_normal.mag_le(LIMIT as int),
        surface_normal.mag_le(LIMIT as int),
        light_norm(light_source, point) != 0,
    ensures
        ldn_spec(light_source, point, surface_normal) < 0 ==> {
            &&& res.r.raw == ambient_channel(
                light_source.colour.r.val(),
                material.colour.r.val(),
                material.ambient.val(),
            )
            &&& res.g.raw == ambient_channel(
                light_source.colour.g.val(),
                material.colour.g.val(),
                material.ambient.val(),
            )
            &&& res.b.raw == ambient_channel(
                light_source.colour.b.val(),
                material.colour.b.val(),
                material.ambient.val(),
            )
        },
        ldn_spec(light_source, point, surface_normal) >= 0 && rde_spec(
            light_source,
            point,
            eye_normal,
            surface_normal,
        ) <= 0 ==> {
            &&& res.r.raw == ambient_channel(
                light_source.colour.r.val(),
                material.colour.r.val(),
                material.ambient.val(),
            ) + diffuse_channel(
                light_source.colour.r.val(),
                material.colour.r.val(),
                material.diffuse.val(),
                ldn_spec(light_source, point, surface_normal),
            )
            &&& res.g.raw == ambient_channel(
                light_source.colour.g.val(),
                material.colour.g.val(),
                material.ambient.val(),
            ) + diffuse_channel(
                light_source.colour.g.val(),
                material.colour.g.val(),
                material.diffuse.val(),
                ldn_spec(light_source, point, surface_normal),
            )
            &&& res.b.raw == ambient_channel(
                light_source.colour.b.val(),
                material.colour.b.val(),
                material.ambient.val(),
            ) + diffuse_channel(
                light_source.colour.b.val(),
                material.colour.b.val(),
                material.diffuse.val(),
                ldn_spec(light_source, point, surface_normal),
            )
        },
        ldn_spec(light_source, point, surface_normal) >= 0 && rde_spec(
            light_source,
            point,
            eye_normal,
            surface_normal,
        ) > 0 ==> {
            &&& res.r.raw == ambient_channel(
                light_source.colour.r.val(),
                material.colour.r.val(),
                material.ambient.val(),
            ) + diffuse_channel(
                light_source.colour.r.val(),
                material.colour.r.val(),
                material.diffuse.val(),
                ldn_spec(light_source, point, surface_normal),
            ) + specular_channel(
                light_source.colour.r.val(),
                material.specular.val(),
                factor_spec(material, light_source, point, eye_normal, surface_normal),
            )
            &&& res.g.raw == ambient_channel(
                light_source.colour.g.val(),
                material.colour.g.val(),
                material.ambient.val(),
            ) + diffuse_channel(
                light_source.colour.g.val(),
                material.colour.g.val(),
                material.diffuse.val(),
                ldn_spec(light_source, point, surface_normal),
            ) + specular_channel(
                light_source.colour.g.val(),
                material.specular.val(),
                factor_spec(material, light_source, point, eye_normal, surface_normal),
            )
            &&& res.b.raw == ambient_channel(
                light_source.colour.b.val(),
                material.colour.b.val(),
                material.ambient.val(),
            ) + diffuse_channel(
                light_source.colour.b.val(),
                material.colour.b.val(),
                material.diffuse.val(),
                ldn_spec(light_source, point, surface_normal),
            ) + specular_channel(
                light_source.colour.b.val(),
                material.specular.val(),
                factor_spec(material, light_source, point, eye_normal, surface_normal),
            )
        },
{
    proof {
        lemma_fmul_bound(
            light_source.colour.r.val(),
            material.colour.r.val(),
            LIMIT as int,
            LIMIT as int,
        );
        lemma_fmul_bound(
            light_source.colour.g.val(),
            material.colour.g.val(),
            LIMIT as int,
            LIMIT as int,
        );
        lemma_fmul_bound(
            light_source.colour.b.val(),
            material.colour.b.val(),
            LIMIT as int,
            LIMIT as int,
        );
    }
    let effective = light_source.colour.mul(material.colour);
    proof {
        lemma_fmul_bound(
            effective.r.val(),
            material.ambient.val(),
            1_000_000_000_000,
            LIMIT as int,
        );
        lemma_fmul_bound(
            effective.g.val(),
            material.ambient.val(),
            1_000_000_000_000,
            LIMIT as int,
        );
        lemma_fmul_bound(
            effective.b.val(),
            material.ambient.val(),
            1_000_000_000_000,
            LIMIT as int,
        );
    }
    let ambient = effective.scale(material.ambient);
    let diff = light_source.origin.sub(point);
    proof {
        assert(diff == light_diff(light_source, point));
    }
    let lv = match diff.normalize() {
        Some(v) => v,
        None => {
            proof {
                assert(false);
            }
            diff
        },
    };
    proof {
        assert(lv == light_dir(light_source, point));
        lemma_dot_bound(lv, surface_normal, 2 * SCALE as int, LIMIT as int);
    }
    let light_dot_surface = lv.dot(&surface_normal);
    if light_dot_surface.raw < 0 {
        return ambient;
    }
    proof {
        lemma_fmul_bound(
            effective.r.val(),
            material.diffuse.val(),
            1_000_000_000_000,
            LIMIT as int,
        );
        lemma_fmul_bound(
            effective.g.val(),
            material.diffuse.val(),
            1_000_000_000_000,
            LIMIT as int,
        );
        lemma_fmul_bound(
            effective.b.val(),
            material.diffuse.val(),
            1_000_000_000_000,
            LIMIT as int,
        );
    }
    let ed = effective.scale(material.diffuse);
    proof {
        lemma_fmul_bound(
            ed.r.val(),
            light_dot_surface.val(),
            1_000_000_000_000_000,
            6_000_000_000,
        );
        lemma_fmul_bound(
            ed.g.val(),
            light_dot_surface.val(),
            1_000_000_000_000_000,
            6_000_000_000,
        );
        lemma_fmul_bound(
            ed.b.val(),
            light_dot_surface.val(),
            1_000_000_000_000_000,
            6_000_000_000,
        );
    }
    let diffuse = ed.scale(light_dot_surface);
    let incoming = lv.neg();
    proof {
        assert(incoming == light_in(light_source, point));
        lemma_dot_bound(incoming, surface_normal, 2 * SCALE as int, LIMIT as int);
        let idn = dot_spec(incoming, surface_normal);
        lemma_fmul_bound(surface_normal.x.val(), 2 * idn, LIMIT as int, 12_000_000_000);
        lemma_fmul_bound(surface_normal.y.val(), 2 * idn, LIMIT as int, 12_000_000_000);
        lemma_fmul_bound(surface_normal.z.val(), 2 * idn, LIMIT as int, 12_000_000_000);
    }
    let reflection = reflect(incoming, surface_normal);
    proof {
        assert(reflection == reflect_spec(light_source, point, surface_normal));
        lemma_dot_bound(reflection, eye_normal, 20_000_000_000_000, LIMIT as int);
    }
    let reflection_dot_eye = reflection.dot(&eye_normal);
    if reflection_dot_eye.raw <= 0 {
        return ambient.add(diffuse);
    }
    let base = if reflection_dot_eye.raw > SCALE {
        Field::one()
    } else {
        reflection_dot_eye
    };
    let exp_u: u32 = ((material.shininess.raw as u128) / (SCALE as u128)) as u32;
    proof {
        assert(exp_u as int == shin_exp(material));
    }
    let factor = base.pow(exp_u);
    proof {
        assert(factor.raw == factor_spec(
            material,
            light_source,
            point,
            eye_normal,
            surface_normal,
        ));
        lemma_fmul_bound(
            light_source.colour.r.val(),
            material.specular.val(),
            LIMIT as int,
            LIMIT as int,
        );
        lemma_fmul_bound(
            light_source.colour.g.val(),
            material.specular.val(),
            LIMIT as int,
            LIMIT as int,
        );
        lemma_fmul_bound(
            light_source.colour.b.val(),
            material.specular.val(),
            LIMIT as int,
            LIMIT as int,
        );
    }
    let ls = light_source.colour.scale(material.specular);
    proof {
        lemma_fmul_bound(ls.r.val(), factor.val(), 1_000_000_000_000, SCALE as int);
        lemma_fmul_bound(ls.g.val(), factor.val(), 1_000_000_000_000, SCALE as int);
        lemma_fmul_bound(ls.b.val(), factor.val(), 1_000_000_000_000, SCALE as int);
    }
    let specular = ls.scale(factor);
    ambient.add(diffuse).add(specular)
}

} // verus!
