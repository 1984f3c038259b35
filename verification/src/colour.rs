//! Colours: a triple of fixed-point channel intensities, unconstrained
//! during computation and clamped to the unit interval only when encoded.

use vstd::prelude::*;
use vstd::string::StringExecFns;
use crate::fixed::{Field, SCALE, fmul};
use crate::text::{dec_spec, push_dec};

verus! {

/// An RGB colour; channel values are free to leave `[0, 1]` until encoding.
#[derive(Clone, Copy, PartialEq, Eq, Structural, Debug)]
pub struct Colour {
    pub r: Field,
    pub g: Field,
    pub b: Field,
}

/// One channel prepared for encoding: clamped to the unit interval, scaled
/// to 255 and rounded to the nearest whole value.
pub open spec fn channel_spec(c: int) -> int {
    let cl = if c < 0 {
        0
    } else if c > SCALE {
        SCALE as int
    } else {
        c
    };
    (cl * 255 + (SCALE as int) / 2) / (SCALE as int)
}

/// The encoded form of a colour: the three channel values in decimal,
/// separated by single spaces.
pub open spec fn encode_spec(c: Colour) -> Seq<char> {
    dec_spec(channel_spec(c.r.val())) + seq![' '] + dec_spec(channel_spec(c.g.val())) + seq![' ']
        + dec_spec(channel_spec(c.b.val()))
}

/// True when every channel is exactly zero.
pub open spec fn is_black(c: Colour) -> bool {
    c.r.raw == 0 && c.g.raw == 0 && c.b.raw == 0
}

/// An encoded channel is always between 0 and 255.
pub proof fn lemma_channel_range(c: int)
    ensures
        0 <= channel_spec(c) <= 255,
{
    let s = SCALE as int;
    let cl = if c < 0 {
        0
    } else if c > s {
        s
    } else {
        c
    };
    vstd::arithmetic::div_mod::lemma_div_pos_is_pos(cl * 255 + s / 2, s);
    vstd::arithmetic::div_mod::lemma_div_is_ordered(cl * 255 + s / 2, s * 255 + s / 2, s);
}

impl Colour {
    /// True when every channel's raw magnitude is at most `m`.
    pub open spec fn mag_le(self, m: int) -> bool {
        self.r.mag_le(m) && self.g.mag_le(m) && self.b.mag_le(m)
    }

    /// The colour with the given channels.
    pub fn new(r: Field, g: Field, b: Field) -> (c: Colour)
        ensures
            c == (Colour { r, g, b }),
    {
        Colour { r, g, b }
    }

    /// Black: all channels zero.
    pub fn black() -> (c: Colour)
        ensures
            c.r.raw == 0 && c.g.raw == 0 && c.b.raw == 0,
    {
        Colour { r: Field::zero(), g: Field::zero(), b: Field::zero() }
    }

    /// Blue: only the blue channel at one.
    pub fn blue() -> (c: Colour)
        ensures
            c.r.raw == 0 && c.g.raw == 0 && c.b.raw == SCALE,
    {
        Colour { r: Field::zero(), g: Field::zero(), b: Field::one() }
    }

    /// Green: only the green channel at one.
    pub fn green() -> (c: Colour)
        ensures
            c.r.raw == 0 && c.g.raw == SCALE && c.b.raw == 0,
    {
        Colour { r: Field::zero(), g: Field::one(), b: Field::zero() }
    }

    /// Cyan: green and blue at one.
    pub fn cyan() -> (c: Colour)
        ensures
            c.r.raw == 0 && c.g.raw == SCALE && c.b.raw == SCALE,
    {
        Colour { r: Field::zero(), g: Field::one(), b: Field::one() }
    }

    /// Red: only the red channel at one.
    pub fn red() -> (c: Colour)
        ensures
            c.r.raw == SCALE && c.g.raw == 0 && c.b.raw == 0,
    {
        Colour { r: Field::one(), g: Field::zero(), b: Field::zero() }
    }

    /// Magenta: red and blue at one.
    pub fn magenta() -> (c: Colour)
        ensures
            c.r.raw == SCALE && c.g.raw == 0 && c.b.raw == SCALE,
    {
        Colour { r: Field::one(), g: Field::zero(), b: Field::one() }
    }

    /// Yellow: red and green at one.
    pub fn yellow() -> (c: Colour)
        ensures
            c.r.raw == SCALE && c.g.raw == SCALE && c.b.raw == 0,
    {
        Colour { r: Field::one(), g: Field::one(), b: Field::zero() }
    }

    /// White: all channels at one.
    pub fn white() -> (c: Colour)
        ensures
            c.r.raw == SCALE && c.g.raw == SCALE && c.b.raw == SCALE,
    {
        Colour { r: Field::one(), g: Field::one(), b: Field::one() }
    }

    /// The channelwise sum.
    pub fn add(self, o: Colour) -> (c: Colour)
        requires
            i128::MIN <= self.r.raw + o.r.raw <= i128::MAX,
            i128::MIN <= self.g.raw + o.g.raw <= i128::MAX,
            i128::MIN <= self.b.raw + o.b.raw <= i128::MAX,
        ensures
            c.r.raw == self.r.raw + o.r.raw,
            c.g.raw == self.g.raw + o.g.raw,
            c.b.raw == self.b.raw + o.b.raw,
    {
        Colour { r: self.r.add(o.r), g: self.g.add(o.g), b: self.b.add(o.b) }
    }

    /// The channelwise difference.
    pub fn sub(self, o: Colour) -> (c: Colour)
        requires
            i128::MIN <= self.r.raw - o.r.raw <= i128::MAX,
            i128::MIN <= self.g.raw - o.g.raw <= i128::MAX,
            i128::MIN <= self.b.raw - o.b.raw <= i128::MAX,
        ensures
            c.r.raw == self.r.raw - o.r.raw,
            c.g.raw == self.g.raw - o.g.raw,
            c.b.raw == self.b.raw - o.b.raw,
    {
        Colour { r: self.r.sub(o.r), g: self.g.sub(o.g), b: self.b.sub(o.b) }
    }

    /// The channelwise negation.
    pub fn neg(self) -> (c: Colour)
        requires
            self.r.raw != i128::MIN,
            self.g.raw != i128::MIN,
            self.b.raw != i128::MIN,
        ensures
            c.r.raw == -self.r.raw,
            c.g.raw == -self.g.raw,
            c.b.raw == -self.b.raw,
    {
        Colour { r: self.r.neg(), g: self.g.neg(), b: self.b.neg() }
    }

    /// The colour scaled by a field.
    pub fn scale(self, s: Field) -> (c: Colour)
        requires
            i128::MIN < self.r.raw * s.raw <= i128::MAX,
            i128::MIN < self.g.raw * s.raw <= i128::MAX,
            i128::MIN < self.b.raw * s.raw <= i128::MAX,
        ensures
            c.r.raw == fmul(self.r.val(), s.val()),
            c.g.raw == fmul(self.g.val(), s.val()),
            c.b.raw == fmul(self.b.val(), s.val()),
    {
        Colour { r: self.r.mul(s), g: self.g.mul(s), b: self.b.mul(s) }
    }

    /// The channelwise (Hadamard) product, combining a light's colour with
    /// a surface's.
    pub fn mul(self, o: Colour) -> (c: Colour)
        requires
            i128::MIN < self.r.raw * o.r.raw <= i128::MAX,
            i128::MIN < self.g.raw * o.g.raw <= i128::MAX,
            i128::MIN < self.b.raw * o.b.raw <= i128::MAX,
        ensures
            c.r.raw == fmul(self.r.val(), o.r.val()),
            c.g.raw == fmul(self.g.val(), o.g.val()),
            c.b.raw == fmul(self.b.val(), o.b.val()),
    {
        Colour { r: self.r.mul(o.r), g: self.g.mul(o.g), b: self.b.mul(o.b) }
    }

    /// The encoded channel triple, clamped and rounded: `"R G B"`.
    pub fn encode(self) -> (s: String)
        ensures
            s@ == encode_spec(self),
    {
        let mut s = String::new();
        push_channel(&mut s, self.r);
        push_space(&mut s);
        push_channel(&mut s, self.g);
        push_space(&mut s);
        push_channel(&mut s, self.b);
        proof {
            assert(s@ =~= encode_spec(self));
        }
        s
    }
}

/// Appends a single space.
fn push_space(s: &mut String)
    ensures
        final(s)@ == old(s)@ + seq![' '],
{
    proof {
        reveal_strlit(" ");
    }
    s.append(" ");
    proof {
        assert(s@ =~= old(s)@ + seq![' ']);
    }
}

/// Appends one clamped, rounded channel in decimal.
fn push_channel(s: &mut String, c: Field)
    ensures
        final(s)@ == old(s)@ + dec_spec(channel_spec(c.val())),
{
    let cl: i128 = if c.raw < 0 {
        0
    } else if c.raw > SCALE {
        SCALE
    } else {
        c.raw
    };
    let scaled: u128 = ((cl * 255 + SCALE / 2) as u128) / (SCALE as u128);
    proof {
        lemma_channel_range(c.val());
        vstd::arithmetic::div_mod::lemma_div_pos_is_pos(cl * 255 + (SCALE as int) / 2, SCALE as int);
    }
    push_dec(s, scaled);
}

} // verus!
