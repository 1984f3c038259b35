//! Fixed-point scalar arithmetic.
//!
//! Every real quantity in the renderer (coordinate, colour channel,
//! reflectance coefficient, ray parameter) is a `Field`: an integer count of
//! millionths.  Multiplication, division and square root truncate toward
//! zero, so each operation's result is pinned exactly by the spec functions
//! `fmul`, `fdiv` and `fsqrt` below.

use vstd::prelude::*;

verus! {

/// Number of raw units per whole unit: a `Field` with `raw == SCALE`
/// has the value one.
pub const SCALE: i128 = 1_000_000;

/// Magnitude limit on the raw representation of scene inputs (coordinates,
/// channels, coefficients): one thousand whole units.  The scene-level
/// functions require their inputs within this limit so that every
/// intermediate product provably fits in `i128`.
pub const LIMIT: i128 = 1_000_000_000;

/// Truncating division (round toward zero), defined for positive divisors.
pub open spec fn tdiv(a: int, b: int) -> int {
    if a >= 0 {
        a / b
    } else {
        -((-a) / b)
    }
}

/// The fixed-point product: `a` and `b` are raw values; so is the result.
pub open spec fn fmul(a: int, b: int) -> int {
    tdiv(a * b, SCALE as int)
}

/// The fixed-point quotient of two raw values.
pub open spec fn fdiv(a: int, b: int) -> int {
    if b >= 0 {
        tdiv(a * SCALE, b)
    } else {
        tdiv(-(a * SCALE), -b)
    }
}

/// Integer square root: the greatest `r` with `r * r <= n` (zero for
/// `n <= 0`), via the base-four recurrence.
pub open spec fn isqrt(n: int) -> int
    decreases n,
{
    if n <= 0 {
        0
    } else {
        let r = 2 * isqrt(n / 4);
        if (r + 1) * (r + 1) <= n {
            r + 1
        } else {
            r
        }
    }
}

/// The fixed-point square root of a raw value.
pub open spec fn fsqrt(a: int) -> int {
    isqrt(a * SCALE)
}

/// The fixed-point power `b^n` for a base in `[0, 1]`, by repeated
/// truncating multiplication.
pub open spec fn fpow(b: int, n: nat) -> int
    decreases n,
{
    if n == 0 {
        SCALE as int
    } else {
        fmul(b, fpow(b, (n - 1) as nat))
    }
}

/// `isqrt(n)` is the integer square root: nonnegative, with its square at
/// most `n` and the next square beyond `n`.
pub proof fn lemma_isqrt(n: int)
    requires
        n >= 0,
    ensures
        isqrt(n) >= 0,
        isqrt(n) * isqrt(n) <= n,
        n < (isqrt(n) + 1) * (isqrt(n) + 1),
    decreases n,
{
    if n == 0 {
    } else {
        let m = n / 4;
        vstd::arithmetic::div_mod::lemma_fundamental_div_mod(n, 4);
        lemma_div_pos(n, 4);
        vstd::arithmetic::div_mod::lemma_div_decreases(n, 4);
        lemma_isqrt(m);
        let r0 = isqrt(m);
        let r = 2 * r0;
        assert(r * r == 4 * (r0 * r0)) by (nonlinear_arith)
            requires
                r == 2 * r0,
        ;
        assert((r + 2) * (r + 2) == 4 * ((r0 + 1) * (r0 + 1))) by (nonlinear_arith)
            requires
                r == 2 * r0,
        ;
        assert(n - 4 * m < 4);
        assert(4 * (r0 * r0) <= 4 * m);
        assert(4 * m < 4 * ((r0 + 1) * (r0 + 1)));
    }
}

/// Any `r` whose square brackets `n` is the integer square root of `n`.
pub proof fn lemma_isqrt_unique(n: int, r: int)
    requires
        n >= 0,
        r >= 0,
        r * r <= n,
        n < (r + 1) * (r + 1),
    ensures
        r == isqrt(n),
{
    lemma_isqrt(n);
    let s = isqrt(n);
    if r < s {
        assert((r + 1) * (r + 1) <= s * s) by (nonlinear_arith)
            requires
                0 <= r,
                r + 1 <= s,
        ;
    }
    if s < r {
        assert((s + 1) * (s + 1) <= r * r) by (nonlinear_arith)
            requires
                0 <= s,
                s + 1 <= r,
        ;
    }
}

/// The integer square root is monotone.
pub proof fn lemma_isqrt_ordered(m: int, n: int)
    requires
        0 <= m <= n,
    ensures
        isqrt(m) <= isqrt(n),
{
    lemma_isqrt(m);
    lemma_isqrt(n);
    let a = isqrt(m);
    let b = isqrt(n);
    if b < a {
        assert((b + 1) * (b + 1) <= a * a) by (nonlinear_arith)
            requires
                0 <= b,
                b + 1 <= a,
        ;
    }
}

/// The greatest `r` with `r * r <= n`, by bisection on the root.
fn isqrt_u128(n: u128) -> (r: u128)
    ensures
        r == isqrt(n as int),
{
    let mut lo: u128 = 0;
    let mut hi: u128 = 1u128 << 64;
    proof {
        assert((1u128 << 64) == 0x10000000000000000) by (bit_vector);
        assert((n as int) < 0x10000000000000000int * 0x10000000000000000int);
    }
    while hi - lo > 1
        invariant
            lo < hi <= 0x10000000000000000u128,
            (lo as int) * (lo as int) <= n as int,
            (n as int) < (hi as int) * (hi as int),
        decreases hi - lo,
    {
        let mid = lo + (hi - lo) / 2;
        proof {
            assert((mid as int) * (mid as int) <= 0xffffffffffffffffint * 0xffffffffffffffffint)
                by (nonlinear_arith)
                requires
                    0 <= mid as int <= 0xffffffffffffffffint,
            ;
        }
        let sq = mid * mid;
        if sq <= n {
            lo = mid;
        } else {
            hi = mid;
        }
    }
    proof {
        lemma_isqrt_unique(n as int, lo as int);
    }
    lo
}

/// A real number stored as `raw` millionths.
#[derive(Clone, Copy, PartialEq, Eq, Structural, Debug)]
pub struct Field {
    pub raw: i128,
}

proof fn lemma_div_pos(x: int, d: int)
    requires
        x >= 0,
        d > 0,
    ensures
        0 <= x / d <= x,
{
    vstd::arithmetic::div_mod::lemma_div_pos_is_pos(x, d);
    vstd::arithmetic::div_mod::lemma_div_nonincreasing(x, d);
}

/// Truncating division is bounded by the dividend (for divisors of at
/// least one) and keeps its sign.
pub proof fn lemma_tdiv_bound(a: int, b: int)
    requires
        b >= 1,
    ensures
        a >= 0 ==> 0 <= tdiv(a, b) <= a,
        a < 0 ==> a <= tdiv(a, b) <= 0,
{
    if a >= 0 {
        lemma_div_pos(a, b);
    } else {
        lemma_div_pos(-a, b);
    }
}

/// Truncating division by a positive divisor is monotone.
pub proof fn lemma_tdiv_ordered(x: int, y: int, b: int)
    requires
        x <= y,
        b >= 1,
    ensures
        tdiv(x, b) <= tdiv(y, b),
{
    if x >= 0 {
        vstd::arithmetic::div_mod::lemma_div_is_ordered(x, y, b);
    } else if y < 0 {
        vstd::arithmetic::div_mod::lemma_div_is_ordered(-y, -x, b);
    } else {
        lemma_div_pos(-x, b);
        lemma_div_pos(y, b);
    }
}

/// Exact truncating division of a raw value by a positive raw divisor.
fn trunc_div(p: i128, q: i128) -> (r: i128)
    requires
        p != i128::MIN,
        q > 0,
    ensures
        r == tdiv(p as int, q as int),
        p >= 0 ==> 0 <= r <= p,
        p < 0 ==> p <= r <= 0,
{
    proof {
        lemma_tdiv_bound(p as int, q as int);
    }
    if p >= 0 {
        ((p as u128) / (q as u128)) as i128
    } else {
        let m: u128 = (-p) as u128;
        -((m / (q as u128)) as i128)
    }
}

impl Field {
    /// The raw count of millionths, as a mathematical integer.
    pub open spec fn val(self) -> int {
        self.raw as int
    }

    /// True when the magnitude of the raw value is at most `m`.
    pub open spec fn mag_le(self, m: int) -> bool {
        -m <= self.raw <= m
    }

    /// The value zero.
    pub fn zero() -> (r: Field)
        ensures
            r.raw == 0,
    {
        Field { raw: 0 }
    }

    /// The value one.
    pub fn one() -> (r: Field)
        ensures
            r.raw == SCALE,
    {
        Field { raw: SCALE }
    }

    /// A field with the given raw count of millionths.
    pub fn from_raw(raw: i128) -> (r: Field)
        ensures
            r.raw == raw,
    {
        Field { raw }
    }

    /// The field holding the given whole number.
    pub fn from_int(v: i64) -> (r: Field)
        ensures
            r.raw == v * SCALE,
    {
        Field { raw: (v as i128) * SCALE }
    }

    /// The sum.
    pub fn add(self, o: Field) -> (r: Field)
        requires
            i128::MIN <= self.raw + o.raw <= i128::MAX,
        ensures
            r.raw == self.raw + o.raw,
    {
        Field { raw: self.raw + o.raw }
    }

    /// The difference.
    pub fn sub(self, o: Field) -> (r: Field)
        requires
            i128::MIN <= self.raw - o.raw <= i128::MAX,
        ensures
            r.raw == self.raw - o.raw,
    {
        Field { raw: self.raw - o.raw }
    }

    /// The negation.
    pub fn neg(self) -> (r: Field)
        requires
            self.raw != i128::MIN,
        ensures
            r.raw == -self.raw,
    {
        Field { raw: -self.raw }
    }

    /// The truncating fixed-point product.
    pub fn mul(self, o: Field) -> (r: Field)
        requires
            i128::MIN < self.raw * o.raw <= i128::MAX,
        ensures
            r.raw == fmul(self.val(), o.val()),
            self.raw * o.raw >= 0 ==> 0 <= r.raw <= self.raw * o.raw,
            self.raw * o.raw < 0 ==> self.raw * o.raw <= r.raw <= 0,
    {
        let p: i128 = self.raw * o.raw;
        Field { raw: trunc_div(p, SCALE) }
    }

    /// The truncating fixed-point quotient.
    pub fn div(self, o: Field) -> (r: Field)
        requires
            o.raw != 0,
            o.raw != i128::MIN,
            i128::MIN < self.raw * SCALE <= i128::MAX,
        ensures
            r.raw == fdiv(self.val(), o.val()),
            o.raw >= 1 && self.raw >= 0 ==> 0 <= r.raw <= self.raw * SCALE,
            o.raw >= 1 && self.raw < 0 ==> self.raw * SCALE <= r.raw <= 0,
    {
        let p: i128 = self.raw * SCALE;
        if o.raw > 0 {
            Field { raw: trunc_div(p, o.raw) }
        } else {
            proof {
                assert(-(p as int) == (-p) as int);
            }
            Field { raw: trunc_div(-p, -o.raw) }
        }
    }

    /// The truncating fixed-point square root of a nonnegative field.
    pub fn sqrt(self) -> (r: Field)
        requires
            self.raw >= 0,
            self.raw * SCALE <= i128::MAX,
        ensures
            r.raw == fsqrt(self.val()),
            0 <= r.raw <= self.raw * SCALE,
    {
        let p: i128 = self.raw * SCALE;
        let s = isqrt_u128(p as u128);
        proof {
            lemma_isqrt(p as int);
            let q = isqrt(p as int);
            assert(q <= p) by (nonlinear_arith)
                requires
                    q >= 0,
                    q * q <= p,
            ;
        }
        Field { raw: s as i128 }
    }

    /// The truncating fixed-point power, for a base between zero and one.
    pub fn pow(self, n: u32) -> (r: Field)
        requires
            0 <= self.raw <= SCALE,
        ensures
            r.raw == fpow(self.val(), n as nat),
            0 <= r.raw <= SCALE,
    {
        let mut acc = Field::one();
        let mut i: u32 = 0;
        while i < n
            invariant
                0 <= self.raw <= SCALE,
                i <= n,
                acc.raw == fpow(self.val(), i as nat),
                0 <= acc.raw <= SCALE,
            decreases n - i,
        {
            proof {
                assert(0 <= self.raw * acc.raw <= SCALE * SCALE) by (nonlinear_arith)
                    requires
                        0 <= self.raw <= SCALE,
                        0 <= acc.raw <= SCALE,
                ;
                lemma_tdiv_ordered(self.raw * acc.raw, (SCALE * SCALE) as int, SCALE as int);
                vstd::arithmetic::div_mod::lemma_div_by_multiple(SCALE as int, SCALE as int);
                lemma_tdiv_bound(self.raw * acc.raw, SCALE as int);
            }
            acc = self.mul(acc);
            i = i + 1;
        }
        acc
    }
}

/// A fixed-point product of bounded factors is bounded by the scaled
/// product of the bounds.
pub proof fn lemma_fmul_bound(a: int, b: int, ma: int, mb: int)
    requires
        -ma <= a <= ma,
        -mb <= b <= mb,
    ensures
        -(ma * mb) <= a * b <= ma * mb,
        -((ma * mb) / (SCALE as int)) <= fmul(a, b) <= (ma * mb) / (SCALE as int),
{
    assert(-(ma * mb) <= a * b <= ma * mb) by (nonlinear_arith)
        requires
            -ma <= a <= ma,
            -mb <= b <= mb,
    ;
    let p = a * b;
    if p >= 0 {
        vstd::arithmetic::div_mod::lemma_div_is_ordered(p, ma * mb, SCALE as int);
        lemma_div_pos(p, SCALE as int);
    } else {
        vstd::arithmetic::div_mod::lemma_div_is_ordered(-p, ma * mb, SCALE as int);
        lemma_div_pos(-p, SCALE as int);
    }
}

} // verus!
