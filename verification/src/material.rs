//! Surface materials: the per-surface Phong shading parameters.

use vstd::prelude::*;
use crate::colour::Colour;
use crate::fixed::{Field, SCALE};

verus! {

/// The shading parameters of a surface: its colour, the three reflectance
/// coefficients, and the specular falloff exponent.
#[derive(Clone, Copy, PartialEq, Eq, Structural, Debug)]
pub struct Material {
    pub colour: Colour,
    pub ambient: Field,
    pub diffuse: Field,
    pub specular: Field,
    pub shininess: Field,
}

/// The default material: white, ambient one tenth, diffuse and specular
/// nine tenths, shininess two hundred.
pub open spec fn default_material() -> Material {
    Material {
        colour: Colour {
            r: Field { raw: SCALE as i128 },
            g: Field { raw: SCALE as i128 },
            b: Field { raw: SCALE as i128 },
        },
        ambient: Field { raw: 100_000 },
        diffuse: Field { raw: 900_000 },
        specular: Field { raw: 900_000 },
        shininess: Field { raw: 200_000_000 },
    }
}

impl Material {
    /// The material with the given parameters.
    pub fn new(colour: Colour, ambient: Field, diffuse: Field, specular: Field, shininess: Field)
        -> (m: Material)
        ensures
            m == (Material { colour, ambient, diffuse, specular, shininess }),
    {
        Material { colour, ambient, diffuse, specular, shininess }
    }
}

impl Default for Material {
    /// White, ambient one tenth, diffuse and specular nine tenths,
    /// shininess two hundred.
    fn default() -> (m: Material)
        ensures
            m == default_material(),
    {
        Material {
            colour: Colour::white(),
            ambient: Field::from_raw(100_000),
            diffuse: Field::from_raw(900_000),
            specular: Field::from_raw(900_000),
            shininess: Field::from_raw(200_000_000),
        }
    }
}

} // verus!
