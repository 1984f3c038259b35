//! A verified renderer core for a single sphere under Phong illumination.
//!
//! The library covers the geometric and photometric pipeline: rays and
//! their analytic sphere intersection, selection of the nearest visible
//! hit, Phong shading, and the pixel canvas with its plain-text encoding.
//! All arithmetic is exact fixed-point (see `fixed`), so every function's
//! result is pinned by its contract.

pub mod canvas;
pub mod colour;
pub mod fixed;
pub mod intersection;
pub mod light;
pub mod material;
pub mod ray;
pub mod sphere;
pub mod text;
pub mod vector;

pub use fixed::Field;
pub use vector::Point;
pub use vector::Vector;
