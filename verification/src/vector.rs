//! Points and vectors in world space, with the linear algebra the tracer
//! needs: componentwise arithmetic, dot and cross products, norms,
//! normalization and mirror reflection.

use vstd::prelude::*;
use crate::fixed::{
    Field, SCALE, fmul, fdiv, fsqrt, isqrt, lemma_isqrt, lemma_isqrt_unique, lemma_isqrt_ordered,
    lemma_tdiv_bound, lemma_fmul_bound,
};

verus! {

/// Magnitude limit on the raw components of vector-operation operands:
/// within it, every intermediate product provably fits in `i128`.
pub const OP_LIMIT: i128 = 1_000_000_000_000_000;

/// A direction in world space.
#[derive(Clone, Copy, PartialEq, Eq, Structural, Debug)]
pub struct Vector {
    pub x: Field,
    pub y: Field,
    pub z: Field,
}

/// A position in world space.
#[derive(Clone, Copy, PartialEq, Eq, Structural, Debug)]
pub struct Point {
    pub x: Field,
    pub y: Field,
    pub z: Field,
}

/// The fixed-point dot product of two vectors.
pub open spec fn dot_spec(a: Vector, b: Vector) -> int {
    fmul(a.x.val(), b.x.val()) + fmul(a.y.val(), b.y.val()) + fmul(a.z.val(), b.z.val())
}

/// The fixed-point squared norm of a vector.
pub open spec fn norm_sq_spec(v: Vector) -> int {
    dot_spec(v, v)
}

/// The fixed-point norm of a vector.
pub open spec fn norm_spec(v: Vector) -> int {
    fsqrt(norm_sq_spec(v))
}

/// A square is nonnegative, so each term of a squared norm is too.
pub proof fn lemma_fmul_sq_nonneg(x: int)
    ensures
        0 <= fmul(x, x),
        fmul(x, x) <= x * x,
{
    assert(x * x >= 0) by (nonlinear_arith);
    lemma_tdiv_bound(x * x, SCALE as int);
}

/// The squared norm is nonnegative, and each component's scaled square is
/// at most the whole.
pub proof fn lemma_norm_sq_nonneg(v: Vector)
    ensures
        0 <= norm_sq_spec(v),
        fmul(v.x.val(), v.x.val()) <= norm_sq_spec(v),
        fmul(v.y.val(), v.y.val()) <= norm_sq_spec(v),
        fmul(v.z.val(), v.z.val()) <= norm_sq_spec(v),
{
    lemma_fmul_sq_nonneg(v.x.val());
    lemma_fmul_sq_nonneg(v.y.val());
    lemma_fmul_sq_nonneg(v.z.val());
}

/// A dot product of componentwise-bounded vectors is bounded by three
/// scaled products of the bounds.
pub proof fn lemma_dot_bound(a: Vector, b: Vector, ma: int, mb: int)
    requires
        a.mag_le(ma),
        b.mag_le(mb),
    ensures
        -(3 * ((ma * mb) / (SCALE as int))) <= dot_spec(a, b) <= 3 * ((ma * mb) / (
        SCALE as int)),
{
    lemma_fmul_bound(a.x.val(), b.x.val(), ma, mb);
    lemma_fmul_bound(a.y.val(), b.y.val(), ma, mb);
    lemma_fmul_bound(a.z.val(), b.z.val(), ma, mb);
}

impl Vector {
    /// True when every component's raw magnitude is at most `m`.
    pub open spec fn mag_le(self, m: int) -> bool {
        self.x.mag_le(m) && self.y.mag_le(m) && self.z.mag_le(m)
    }

    /// The vector with the given components.
    pub fn new(x: Field, y: Field, z: Field) -> (r: Vector)
        ensures
            r == (Vector { x, y, z }),
    {
        Vector { x, y, z }
    }

    /// The componentwise sum.
    pub fn add(self, o: Vector) -> (r: Vector)
        requires
            i128::MIN <= self.x.raw + o.x.raw <= i128::MAX,
            i128::MIN <= self.y.raw + o.y.raw <= i128::MAX,
            i128::MIN <= self.z.raw + o.z.raw <= i128::MAX,
        ensures
            r.x.raw == self.x.raw + o.x.raw,
            r.y.raw == self.y.raw + o.y.raw,
            r.z.raw == self.z.raw + o.z.raw,
    {
        Vector { x: self.x.add(o.x), y: self.y.add(o.y), z: self.z.add(o.z) }
    }

    /// The componentwise difference.
    pub fn sub(self, o: Vector) -> (r: Vector)
        requires
            i128::MIN <= self.x.raw - o.x.raw <= i128::MAX,
            i128::MIN <= self.y.raw - o.y.raw <= i128::MAX,
            i128::MIN <= self.z.raw - o.z.raw <= i128::MAX,
        ensures
            r.x.raw == self.x.raw - o.x.raw,
            r.y.raw == self.y.raw - o.y.raw,
            r.z.raw == self.z.raw - o.z.raw,
    {
        Vector { x: self.x.sub(o.x), y: self.y.sub(o.y), z: self.z.sub(o.z) }
    }

    /// The componentwise negation.
    pub fn neg(self) -> (r: Vector)
        requires
            self.x.raw != i128::MIN,
            self.y.raw != i128::MIN,
            self.z.raw != i128::MIN,
        ensures
            r.x.raw == -self.x.raw,
            r.y.raw == -self.y.raw,
            r.z.raw == -self.z.raw,
    {
        Vector { x: self.x.neg(), y: self.y.neg(), z: self.z.neg() }
    }

    /// The vector scaled by a field.
    pub fn scale(self, s: Field) -> (r: Vector)
        requires
            i128::MIN < self.x.raw * s.raw <= i128::MAX,
            i128::MIN < self.y.raw * s.raw <= i128::MAX,
            i128::MIN < self.z.raw * s.raw <= i128::MAX,
        ensures
            r.x.raw == fmul(self.x.val(), s.val()),
            r.y.raw == fmul(self.y.val(), s.val()),
            r.z.raw == fmul(self.z.val(), s.val()),
    {
        Vector { x: self.x.mul(s), y: self.y.mul(s), z: self.z.mul(s) }
    }

    /// The componentwise product.
    pub fn mul(self, o: Vector) -> (r: Vector)
        requires
            i128::MIN < self.x.raw * o.x.raw <= i128::MAX,
            i128::MIN < self.y.raw * o.y.raw <= i128::MAX,
            i128::MIN < self.z.raw * o.z.raw <= i128::MAX,
        ensures
            r.x.raw == fmul(self.x.val(), o.x.val()),
            r.y.raw == fmul(self.y.val(), o.y.val()),
            r.z.raw == fmul(self.z.val(), o.z.val()),
    {
        Vector { x: self.x.mul(o.x), y: self.y.mul(o.y), z: self.z.mul(o.z) }
    }

    /// The dot product.
    pub fn dot(self, o: &Vector) -> (r: Field)
        requires
            self.mag_le(OP_LIMIT as int),
            o.mag_le(OP_LIMIT as int),
        ensures
            r.raw == dot_spec(self, *o),
    {
        proof {
            lemma_fmul_bound(self.x.val(), o.x.val(), OP_LIMIT as int, OP_LIMIT as int);
            lemma_fmul_bound(self.y.val(), o.y.val(), OP_LIMIT as int, OP_LIMIT as int);
            lemma_fmul_bound(self.z.val(), o.z.val(), OP_LIMIT as int, OP_LIMIT as int);
        }
        self.x.mul(o.x).add(self.y.mul(o.y)).add(self.z.mul(o.z))
    }

    /// The cross product.
    pub fn cross(self, o: &Vector) -> (r: Vector)
        requires
            self.mag_le(OP_LIMIT as int),
            o.mag_le(OP_LIMIT as int),
        ensures
            r.x.raw == fmul(self.y.val(), o.z.val()) - fmul(self.z.val(), o.y.val()),
            r.y.raw == fmul(self.z.val(), o.x.val()) - fmul(self.x.val(), o.z.val()),
            r.z.raw == fmul(self.x.val(), o.y.val()) - fmul(self.y.val(), o.x.val()),
    {
        proof {
            lemma_fmul_bound(self.y.val(), o.z.val(), OP_LIMIT as int, OP_LIMIT as int);
            lemma_fmul_bound(self.z.val(), o.y.val(), OP_LIMIT as int, OP_LIMIT as int);
            lemma_fmul_bound(self.z.val(), o.x.val(), OP_LIMIT as int, OP_LIMIT as int);
            lemma_fmul_bound(self.x.val(), o.z.val(), OP_LIMIT as int, OP_LIMIT as int);
            lemma_fmul_bound(self.x.val(), o.y.val(), OP_LIMIT as int, OP_LIMIT as int);
            lemma_fmul_bound(self.y.val(), o.x.val(), OP_LIMIT as int, OP_LIMIT as int);
        }
        Vector {
            x: self.y.mul(o.z).sub(self.z.mul(o.y)),
            y: self.z.mul(o.x).sub(self.x.mul(o.z)),
            z: self.x.mul(o.y).sub(self.y.mul(o.x)),
        }
    }

    /// The squared norm.
    pub fn norm_sq(self) -> (r: Field)
        requires
            self.mag_le(OP_LIMIT as int),
        ensures
            r.raw == norm_sq_spec(self),
            r.raw >= 0,
    {
        proof {
            lemma_norm_sq_nonneg(self);
        }
        self.dot(&self)
    }

    /// The norm.
    pub fn norm(self) -> (r: Field)
        requires
            self.mag_le(OP_LIMIT as int),
        ensures
            r.raw == norm_spec(self),
            r.raw >= 0,
    {
        proof {
            lemma_norm_sq_nonneg(self);
            lemma_dot_bound(self, self, OP_LIMIT as int, OP_LIMIT as int);
        }
        self.norm_sq().sqrt()
    }

    /// The vector divided by its norm: `None` when the fixed-point norm
    /// vanishes (the zero vector, or one too short to resolve).  Each
    /// component of the result stays within twice the unit magnitude.
    pub fn normalize(self) -> (r: Option<Vector>)
        requires
            self.mag_le(OP_LIMIT as int),
        ensures
            match r {
                None => norm_spec(self) == 0,
                Some(u) => {
                    &&& norm_spec(self) >= 1000
                    &&& u.x.raw == fdiv(self.x.val(), norm_spec(self))
                    &&& u.y.raw == fdiv(self.y.val(), norm_spec(self))
                    &&& u.z.raw == fdiv(self.z.val(), norm_spec(self))
                    &&& u.mag_le(2 * SCALE)
                },
            },
    {
        proof {
            lemma_norm_sq_nonneg(self);
            lemma_dot_bound(self, self, OP_LIMIT as int, OP_LIMIT as int);
        }
        let ns = self.norm_sq();
        let n = ns.sqrt();
        if n.raw == 0 {
            None
        } else {
            proof {
                if ns.raw == 0 {
                    lemma_isqrt_unique(0, 0);
                }
                lemma_normalize_component(self.x.val(), ns.raw as int, n.raw as int);
                lemma_normalize_component(self.y.val(), ns.raw as int, n.raw as int);
                lemma_normalize_component(self.z.val(), ns.raw as int, n.raw as int);
            }
            Some(Vector { x: self.x.div(n), y: self.y.div(n), z: self.z.div(n) })
        }
    }
}

/// A component divided by the fixed-point norm stays within twice the
/// unit magnitude: the norm of a vector is never far under any single
/// component's magnitude.
proof fn lemma_normalize_component(x: int, ns: int, n: int)
    requires
        ns >= 1,
        n == isqrt(ns * SCALE),
        fmul(x, x) <= ns,
    ensures
        n >= 1000,
        -(2 * SCALE) <= fdiv(x, n) <= 2 * SCALE,
{
    let s = SCALE as int;
    // The norm is at least one thousandth: ns * SCALE >= SCALE.
    assert(ns * s >= s) by (nonlinear_arith)
        requires
            ns >= 1,
            s == SCALE as int,
    ;
    lemma_isqrt_unique(s, 1000);
    lemma_isqrt_ordered(s, ns * s);
    assert(n >= 1000);
    lemma_isqrt(ns * s);
    // The component's square is nearly within the scaled squared norm.
    assert(x * x >= 0) by (nonlinear_arith);
    vstd::arithmetic::div_mod::lemma_fundamental_div_mod(x * x, s);
    vstd::arithmetic::div_mod::lemma_mod_division_less_than_divisor(x * x, s);
    assert(x * x <= s * ns + s - 1);
    assert(x * x < (n + 1) * (n + 1) + s);
    // Hence the component's magnitude is at most n + 500.
    if x > n + 500 || x < -(n + 500) {
        assert(x * x >= (n + 501) * (n + 501)) by (nonlinear_arith)
            requires
                x > n + 500 || x < -(n + 500),
                n >= 0,
        ;
        assert((n + 501) * (n + 501) - (n + 1) * (n + 1) == 1000 * n + 251000)
            by (nonlinear_arith);
        assert(false);
    }
    // Dividing by the norm then keeps the quotient within two units.
    vstd::arithmetic::div_mod::lemma_hoist_over_denominator(500 * s, s, n as nat);
    assert((n + 500) * s == 500 * s + s * n) by (nonlinear_arith);
    vstd::arithmetic::div_mod::lemma_div_is_ordered_by_denominator(500 * s, 1000, n);
    assert(((n + 500) * s) / n == (500 * s) / n + s);
    assert((500 * s) / n <= (500 * s) / 1000);
    if x >= 0 {
        assert(x * s <= (n + 500) * s) by (nonlinear_arith)
            requires
                0 <= x <= n + 500,
                s >= 1,
        ;
        vstd::arithmetic::div_mod::lemma_div_is_ordered(x * s, (n + 500) * s, n);
        lemma_tdiv_bound(x * s, n);
    } else {
        assert((-x) * s <= (n + 500) * s) by (nonlinear_arith)
            requires
                0 <= -x <= n + 500,
                s >= 1,
        ;
        vstd::arithmetic::div_mod::lemma_div_is_ordered((-x) * s, (n + 500) * s, n);
        lemma_tdiv_bound((-x) * s, n);
        assert(-(x * s) == (-x) * s) by (nonlinear_arith);
    }
}

/// The mirror reflection of `incoming` about `normal`:
/// `incoming - normal * 2 * (incoming . normal)`, componentwise in fixed
/// point.
pub fn reflect(incoming: Vector, normal: Vector) -> (r: Vector)
    requires
        incoming.mag_le(1_000_000_000_000),
        normal.mag_le(1_000_000_000_000),
    ensures
        r.x.raw == incoming.x.val() - fmul(normal.x.val(), 2 * dot_spec(incoming, normal)),
        r.y.raw == incoming.y.val() - fmul(normal.y.val(), 2 * dot_spec(incoming, normal)),
        r.z.raw == incoming.z.val() - fmul(normal.z.val(), 2 * dot_spec(incoming, normal)),
{
    proof {
        lemma_dot_bound(incoming, normal, 1_000_000_000_000, 1_000_000_000_000);
    }
    let d = incoming.dot(&normal);
    let t = d.add(d);
    proof {
        lemma_fmul_bound(normal.x.val(), t.raw as int, 1_000_000_000_000, 6_000_000_000_000_000_000);
        lemma_fmul_bound(normal.y.val(), t.raw as int, 1_000_000_000_000, 6_000_000_000_000_000_000);
        lemma_fmul_bound(normal.z.val(), t.raw as int, 1_000_000_000_000, 6_000_000_000_000_000_000);
    }
    incoming.sub(normal.scale(t))
}

impl Point {
    /// True when every component's raw magnitude is at most `m`.
    pub open spec fn mag_le(self, m: int) -> bool {
        self.x.mag_le(m) && self.y.mag_le(m) && self.z.mag_le(m)
    }

    /// The point with the given components.
    pub fn new(x: Field, y: Field, z: Field) -> (r: Point)
        ensures
            r == (Point { x, y, z }),
    {
        Point { x, y, z }
    }

    /// The world origin.
    pub fn origin() -> (r: Point)
        ensures
            r.x.raw == 0,
            r.y.raw == 0,
            r.z.raw == 0,
    {
        Point { x: Field::zero(), y: Field::zero(), z: Field::zero() }
    }

    /// The vector from `o` to `self`.
    pub fn sub(self, o: Point) -> (r: Vector)
        requires
            i128::MIN <= self.x.raw - o.x.raw <= i128::MAX,
            i128::MIN <= self.y.raw - o.y.raw <= i128::MAX,
            i128::MIN <= self.z.raw - o.z.raw <= i128::MAX,
        ensures
            r.x.raw == self.x.raw - o.x.raw,
            r.y.raw == self.y.raw - o.y.raw,
            r.z.raw == self.z.raw - o.z.raw,
    {
        Vector { x: self.x.sub(o.x), y: self.y.sub(o.y), z: self.z.sub(o.z) }
    }

    /// The point displaced by a vector.
    pub fn add(self, v: Vector) -> (r: Point)
        requires
            i128::MIN <= self.x.raw + v.x.raw <= i128::MAX,
            i128::MIN <= self.y.raw + v.y.raw <= i128::MAX,
            i128::MIN <= self.z.raw + v.z.raw <= i128::MAX,
        ensures
            r.x.raw == self.x.raw + v.x.raw,
            r.y.raw == self.y.raw + v.y.raw,
            r.z.raw == self.z.raw + v.z.raw,
    {
        Point { x: self.x.add(v.x), y: self.y.add(v.y), z: self.z.add(v.z) }
    }
}

} // verus!
