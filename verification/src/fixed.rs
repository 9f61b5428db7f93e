//! Fixed-point numbers: a scalar with exact, total arithmetic.
//!
//! A [`Fixed`] holds a number as a 64-bit integer that counts 2^-32s.  Sums
//! and differences are exact until they leave the range, where they
//! saturate; products and quotients are rounded toward zero.
use crate::scalar::Scalar;
use vstd::prelude::*;

verus! {

/// The raw value of the number one.
pub const ONE: i64 = 0x1_0000_0000;

/// A fixed-point number with 32 bits behind the point.
#[derive(Clone, Copy, Debug, PartialEq, Eq)]
pub struct Fixed {
    pub raw: i64,
}

/// The nearest raw value to an integer.
pub open spec fn clamp(x: int) -> i64 {
    if x < i64::MIN {
        i64::MIN
    } else if x > i64::MAX {
        i64::MAX
    } else {
        x as i64
    }
}

/// The magnitude of an integer.
pub open spec fn mag(x: int) -> nat {
    if x < 0 {
        (-x) as nat
    } else {
        x as nat
    }
}

/// A magnitude with a sign.
pub open spec fn signed(negative: bool, m: int) -> int {
    if negative {
        -m
    } else {
        m
    }
}

/// The raw product of two raw values: the product of the magnitudes over
/// one, rounded down, with the sign of the product.
pub open spec fn product(a: int, b: int) -> i64 {
    clamp(signed((a < 0) != (b < 0), ((mag(a) * mag(b)) as int) / (ONE as int)))
}

/// The raw quotient of two raw values: the magnitude of the dividend times
/// one over the magnitude of the divisor, rounded down, with the sign of
/// the quotient.  Over zero, a number saturates on its side, and zero
/// stays zero.
pub open spec fn quotient(a: int, b: int) -> i64 {
    if b == 0 {
        if a == 0 {
            0
        } else if a < 0 {
            i64::MIN
        } else {
            i64::MAX
        }
    } else {
        clamp(signed((a < 0) != (b < 0), ((mag(a) * (ONE as nat)) as int) / (mag(b) as int)))
    }
}

/// The product of two words, or the largest word where that is smaller.
pub open spec fn sat_mul(a: u128, b: u128) -> u128 {
    if a * b > u128::MAX {
        u128::MAX
    } else {
        (a * b) as u128
    }
}

/// The sum of two words, or the largest word where that is smaller.
pub open spec fn sat_add(a: u128, b: u128) -> u128 {
    if a + b > u128::MAX {
        u128::MAX
    } else {
        (a + b) as u128
    }
}

/// The largest `r` below `2 * bit` above the given `r` whose square does
/// not exceed `n`, found bit by bit from `bit` down.
pub open spec fn root_from(n: u128, r: u128, bit: u128) -> u128
    decreases bit,
{
    if bit == 0 {
        r
    } else {
        let c = sat_add(r, bit);
        root_from(
            n,
            if c * c <= n {
                c
            } else {
                r
            },
            bit / 2,
        )
    }
}

/// The raw square root of a raw value; zero for what is not positive.
pub open spec fn root(a: i64) -> i64 {
    if a <= 0 {
        0
    } else {
        clamp(root_from(((a as nat) * (ONE as nat)) as u128, 0, 0x8000_0000_0000) as int)
    }
}

/// The series `1 + z + z^2/2 + ...` in raw values: the sum after the terms
/// up to `z^last / last!`, given the term and the sum before the term
/// number `i`.
pub open spec fn series(z: u128, term: u128, sum: u128, i: nat, last: nat) -> u128
    decreases last + 1 - i,
{
    if i > last || i == 0 {
        sum
    } else {
        let next = (((sat_mul(term, z) / (ONE as u128)) as int) / (i as int)) as u128;
        series(z, next, sat_add(sum, next), i + 1, last)
    }
}

/// A raw value squared `k` times.
pub open spec fn squared(v: u128, k: nat) -> u128
    decreases k,
{
    if k == 0 {
        v
    } else {
        squared(sat_mul(v, v) / (ONE as u128), (k - 1) as nat)
    }
}

/// The raw exponential of a raw magnitude: the series of a 32nd of it,
/// squared five times.
pub open spec fn exp_of(y: u128) -> u128 {
    squared(series(y / 32, ONE as u128, ONE as u128, 1, 12), 5)
}

/// The raw exponential of a raw value.  From 23 on it saturates, below
/// -23 it is zero, and for a negative number it is one over the
/// exponential of the magnitude.
pub open spec fn exponential(a: i64) -> i64 {
    let y = mag(a as int);
    if y >= 23 * ONE {
        if a < 0 {
            0
        } else {
            i64::MAX
        }
    } else {
        let p = exp_of(y as u128);
        if a < 0 {
            if p == 0 {
                i64::MAX
            } else {
                clamp((0x1_0000_0000_0000_0000u128 / p) as int)
            }
        } else {
            clamp(p as int)
        }
    }
}

/// Brings a wide integer into the range of raw values.
fn clamp_wide(x: i128) -> (r: i64)
    ensures
        r == clamp(x as int),
{
    if x < i64::MIN as i128 {
        i64::MIN
    } else if x > i64::MAX as i128 {
        i64::MAX
    } else {
        x as i64
    }
}

/// The magnitude of a raw value.
fn magnitude(a: i64) -> (r: u128)
    ensures
        r == mag(a as int),
        r <= 0x8000_0000_0000_0000,
{
    if a < 0 {
        (-(a as i128)) as u128
    } else {
        a as u128
    }
}

/// Gives a magnitude below 2^126 a sign and brings it into range.
fn finish(negative: bool, m: u128) -> (r: i64)
    requires
        m <= 0x4000_0000_0000_0000_0000_0000_0000_0000,
    ensures
        r == clamp(signed(negative, m as int)),
{
    if negative {
        clamp_wide(-(m as i128))
    } else {
        clamp_wide(m as i128)
    }
}

/// Multiplies two words, saturating.
fn mul_saturating(a: u128, b: u128) -> (r: u128)
    ensures
        r == sat_mul(a, b),
{
    match a.checked_mul(b) {
        Some(p) => p,
        None => u128::MAX,
    }
}

/// Computes the raw exponential of a raw magnitude.
fn exp_magnitude(y: u128) -> (r: u128)
    ensures
        r == exp_of(y),
{
    let z = y / 32;
    let one = ONE as u128;
    let mut term: u128 = one;
    let mut sum: u128 = one;
    let mut i: u128 = 1;
    while i <= 12
        invariant
            1 <= i <= 13,
            one == ONE as u128,
            series(z, term, sum, i as nat, 12) == series(z, one, one, 1, 12),
        decreases 13 - i,
    {
        term = (mul_saturating(term, z) / one) / i;
        sum = sum.saturating_add(term);
        i += 1;
    }
    let mut v = sum;
    let mut k: usize = 0;
    while k < 5
        invariant
            k <= 5,
            one == ONE as u128,
            squared(v, (5 - k) as nat) == squared(sum, 5),
        decreases 5 - k,
    {
        v = mul_saturating(v, v) / one;
        k += 1;
    }
    v
}

/// Computes the root of a word bit by bit.
fn root_word(n: u128) -> (r: u128)
    ensures
        r == root_from(n, 0, 0x8000_0000_0000),
{
    let mut r: u128 = 0;
    let mut bit: u128 = 0x8000_0000_0000;
    while bit > 0
        invariant
            root_from(n, r, bit) == root_from(n, 0, 0x8000_0000_0000),
        decreases bit,
    {
        let c = r.saturating_add(bit);
        match c.checked_mul(c) {
            Some(square) => {
                if square <= n {
                    r = c;
                }
            },
            None => {},
        }
        bit = bit / 2;
    }
    r
}

impl Fixed {
    /// The number with the given raw value.
    pub fn from_raw(raw: i64) -> (r: Self)
        ensures
            r.raw == raw,
    {
        Fixed { raw }
    }
}

impl Scalar for Fixed {
    open spec fn spec_zero() -> Self {
        Fixed { raw: 0 }
    }

    open spec fn spec_one() -> Self {
        Fixed { raw: ONE }
    }

    open spec fn spec_from_count(n: usize) -> Self {
        Fixed { raw: clamp(n * ONE) }
    }

    open spec fn spec_plus(self, rhs: Self) -> Self {
        Fixed { raw: clamp(self.raw + rhs.raw) }
    }

    open spec fn spec_minus(self, rhs: Self) -> Self {
        Fixed { raw: clamp(self.raw - rhs.raw) }
    }

    open spec fn spec_times(self, rhs: Self) -> Self {
        Fixed { raw: product(self.raw as int, rhs.raw as int) }
    }

    open spec fn spec_over(self, rhs: Self) -> Self {
        Fixed { raw: quotient(self.raw as int, rhs.raw as int) }
    }

    open spec fn spec_exp(self) -> Self {
        Fixed { raw: exponential(self.raw) }
    }

    open spec fn spec_sqrt(self) -> Self {
        Fixed { raw: root(self.raw) }
    }

    open spec fn spec_max(self, rhs: Self) -> Self {
        if self.raw < rhs.raw {
            rhs
        } else {
            self
        }
    }

    /// The top 33 bits of the word, less one: a multiple of 2^-32 from -1
    /// up to, but not including, 1.
    open spec fn spec_uniform(word: u64) -> Self {
        Fixed { raw: (word / 0x8000_0000 - ONE) as i64 }
    }

    fn zero() -> (r: Self) {
        Fixed { raw: 0 }
    }

    fn one() -> (r: Self) {
        Fixed { raw: ONE }
    }

    fn from_count(n: usize) -> (r: Self) {
        Fixed { raw: clamp_wide((n as i128) * (ONE as i128)) }
    }

    fn plus(self, rhs: Self) -> (r: Self) {
        Fixed { raw: clamp_wide(self.raw as i128 + rhs.raw as i128) }
    }

    fn minus(self, rhs: Self) -> (r: Self) {
        Fixed { raw: clamp_wide(self.raw as i128 - rhs.raw as i128) }
    }

    fn times(self, rhs: Self) -> (r: Self) {
        let a = magnitude(self.raw);
        let b = magnitude(rhs.raw);
        assert(a * b <= 0x4000_0000_0000_0000_0000_0000_0000_0000) by (nonlinear_arith)
            requires
                a <= 0x8000_0000_0000_0000,
                b <= 0x8000_0000_0000_0000,
        ;
        let p = (a * b) / (ONE as u128);
        Fixed { raw: finish((self.raw < 0) != (rhs.raw < 0), p) }
    }

    fn over(self, rhs: Self) -> (r: Self) {
        if rhs.raw == 0 {
            return Fixed {
                raw: if self.raw == 0 {
                    0
                } else if self.raw < 0 {
                    i64::MIN
                } else {
                    i64::MAX
                },
            };
        }
        let a = magnitude(self.raw);
        let b = magnitude(rhs.raw);
        let one: u128 = 0x1_0000_0000;
        assert(one == ONE as u128);
        let q = (a * one) / b;
        assert(q <= a * one) by (nonlinear_arith)
            requires
                q == (a * one) as int / b as int,
                b >= 1,
        ;
        Fixed { raw: finish((self.raw < 0) != (rhs.raw < 0), q) }
    }

    fn exp(self) -> (r: Self) {
        let y = magnitude(self.raw);
        if y >= 23 * (ONE as u128) {
            return Fixed {
                raw: if self.raw < 0 {
                    0
                } else {
                    i64::MAX
                },
            };
        }
        let p = exp_magnitude(y);
        if self.raw < 0 {
            if p == 0 {
                Fixed { raw: i64::MAX }
            } else {
                let q = 0x1_0000_0000_0000_0000u128 / p;
                Fixed { raw: finish(false, q) }
            }
        } else {
            Fixed {
                raw: if p > i64::MAX as u128 {
                    i64::MAX
                } else {
                    p as i64
                },
            }
        }
    }

    fn sqrt(self) -> (r: Self) {
        if self.raw <= 0 {
            return Fixed { raw: 0 };
        }
        let n = (self.raw as u128) * (ONE as u128);
        let r = root_word(n);
        Fixed {
            raw: if r > i64::MAX as u128 {
                i64::MAX
            } else {
                r as i64
            },
        }
    }

    fn max(self, rhs: Self) -> (r: Self) {
        if self.raw < rhs.raw {
            rhs
        } else {
            self
        }
    }

    fn uniform(word: u64) -> (r: Self) {
        Fixed { raw: (word / 0x8000_0000) as i64 - ONE }
    }
}

} // verus!
