//! Binary64 numbers, held by their bit patterns.
//!
//! A [`Scalar`] is the 64-bit pattern of an IEEE 754 double. Its view is the
//! number the pattern denotes: not-a-number, an infinity, or an exact multiple
//! of 2^-1074, the spacing of the smallest subnormals. Comparison and
//! truncation are computed on the bits and stated over the numbers.

use vstd::prelude::*;
use vstd::arithmetic::div_mod::{lemma_basic_div, lemma_div_is_ordered, lemma_div_multiples_vanish_quotient};
use vstd::arithmetic::power2::{
    pow2, lemma2_to64, lemma2_to64_rest, lemma_pow2_adds, lemma_pow2_pos, lemma_pow2_strictly_increases,
    lemma_pow2_unfold,
};
use vstd::bits::lemma_u64_shr_is_div;

verus! {

/// The sign bit of a pattern.
pub const SIGN_BIT: u64 = 0x8000_0000_0000_0000;

/// The magnitude bits of an infinity; larger magnitudes are not numbers.
pub const INFINITY_MAGNITUDE: u64 = 0x7ff0_0000_0000_0000;

/// The weight of the implicit leading bit of a normal significand, 2^52.
pub const HIDDEN_BIT: u64 = 0x0010_0000_0000_0000;

/// The pattern of the number one.
pub const ONE_BITS: u64 = 0x3ff0_0000_0000_0000;

/// What a binary64 pattern denotes.
pub enum Value {
    /// Not a number; unordered against everything, itself included.
    Nan,
    /// Positive or negative infinity.
    Infinite { negative: bool },
    /// The real number `units * 2^-1074`. Both zeros denote `units == 0`.
    Finite { units: int },
}

/// The magnitude bits of a pattern: everything but the sign.
pub open spec fn magnitude(bits: u64) -> u64 {
    (bits % SIGN_BIT) as u64
}

/// Whether the sign bit of a pattern is set.
pub open spec fn sign(bits: u64) -> bool {
    bits >= SIGN_BIT
}

/// The absolute value of a finite pattern, in units of 2^-1074.
///
/// With biased exponent `e` and fraction `f`, a subnormal (`e == 0`) is worth
/// `f` units and a normal number `(2^52 + f) * 2^(e - 1)` units.
pub open spec fn magnitude_units(mag: u64) -> int {
    let e = mag / HIDDEN_BIT;
    let f = mag % HIDDEN_BIT;
    if e == 0 {
        f as int
    } else {
        (HIDDEN_BIT + f) * pow2((e - 1) as nat)
    }
}

/// The number that a pattern denotes.
pub open spec fn value_of(bits: u64) -> Value {
    let mag = magnitude(bits);
    if mag > INFINITY_MAGNITUDE {
        Value::Nan
    } else if mag == INFINITY_MAGNITUDE {
        Value::Infinite { negative: sign(bits) }
    } else if sign(bits) {
        Value::Finite { units: -magnitude_units(mag) }
    } else {
        Value::Finite { units: magnitude_units(mag) }
    }
}

impl Value {
    /// The number zero.
    pub open spec fn zero() -> Value {
        Value::Finite { units: 0 }
    }

    /// The integer `n` as a value.
    pub open spec fn integer(n: int) -> Value {
        Value::Finite { units: n * pow2(1074) }
    }

    /// Strictly less, as IEEE 754 orders numbers: false whenever either side
    /// is not a number.
    pub open spec fn lt(self, other: Value) -> bool {
        match (self, other) {
            (Value::Finite { units: a }, Value::Finite { units: b }) => a < b,
            (Value::Infinite { negative: true }, Value::Finite { .. }) => true,
            (Value::Infinite { negative: true }, Value::Infinite { negative: false }) => true,
            (Value::Finite { .. }, Value::Infinite { negative: false }) => true,
            _ => false,
        }
    }

    /// Numerically equal: the same number, and a number at all.
    pub open spec fn equals(self, other: Value) -> bool {
        !(self is Nan) && self == other
    }

    /// Less or equal: false whenever either side is not a number.
    pub open spec fn le(self, other: Value) -> bool {
        self.lt(other) || self.equals(other)
    }

    /// Strictly greater.
    pub open spec fn gt(self, other: Value) -> bool {
        other.lt(self)
    }

    /// Greater or equal.
    pub open spec fn ge(self, other: Value) -> bool {
        other.le(self)
    }

    /// A finite value with its fractional part dropped, rounding toward zero.
    pub open spec fn trunc(self) -> int
        recommends
            self is Finite,
    {
        match self {
            Value::Finite { units } => if units >= 0 {
                units / (pow2(1074) as int)
            } else {
                -((-units) / (pow2(1074) as int))
            },
            _ => 0,
        }
    }

    /// The nearest `i32` that is not farther from zero: truncation for finite
    /// values, the end of the range for what lies beyond it, zero for what is
    /// not a number.
    pub open spec fn to_i32(self) -> int {
        match self {
            Value::Nan => 0,
            Value::Infinite { negative } => if negative {
                i32::MIN as int
            } else {
                i32::MAX as int
            },
            Value::Finite { .. } => {
                let t = self.trunc();
                if t < i32::MIN {
                    i32::MIN as int
                } else if t > i32::MAX {
                    i32::MAX as int
                } else {
                    t
                }
            },
        }
    }
}

/// A binary64 number, carried as its 64-bit pattern.
#[derive(Clone, Copy, Debug)]
pub struct Scalar {
    pub bits: u64,
}

impl View for Scalar {
    type V = Value;

    open spec fn view(&self) -> Value {
        value_of(self.bits)
    }
}

/// Larger magnitude bits mean a larger absolute value: among finite patterns
/// the units grow strictly with the magnitude.
pub proof fn lemma_units_increase(m1: u64, m2: u64)
    requires
        m1 < m2 < INFINITY_MAGNITUDE,
    ensures
        0 <= magnitude_units(m1) < magnitude_units(m2),
{
    let e1 = m1 / HIDDEN_BIT;
    let f1 = m1 % HIDDEN_BIT;
    let e2 = m2 / HIDDEN_BIT;
    let f2 = m2 % HIDDEN_BIT;
    let h = HIDDEN_BIT as int;
    if e1 == 0 {
        if e2 != 0 {
            let w2 = pow2((e2 - 1) as nat) as int;
            lemma_pow2_pos((e2 - 1) as nat);
            assert(h * 1 <= (h + f2) * w2) by (nonlinear_arith)
                requires
                    w2 >= 1,
                    f2 >= 0,
                    h >= 0,
            ;
        }
    } else {
        let w1 = pow2((e1 - 1) as nat) as int;
        let w2 = pow2((e2 - 1) as nat) as int;
        lemma_pow2_pos((e1 - 1) as nat);
        assert(0 <= (h + f1) * w1) by (nonlinear_arith)
            requires
                w1 >= 1,
                f1 >= 0,
                h >= 0,
        ;
        if e1 == e2 {
            assert((h + f1) * w1 < (h + f2) * w1) by (nonlinear_arith)
                requires
                    w1 >= 1,
                    f1 < f2,
            ;
        } else {
            lemma_pow2_unfold(e1 as nat);
            if e1 < e2 - 1 {
                lemma_pow2_strictly_increases(e1 as nat, (e2 - 1) as nat);
            }
            assert((h + f1) * w1 < (h + f2) * w2) by (nonlinear_arith)
                requires
                    w1 >= 1,
                    2 * w1 <= w2,
                    0 <= f1 < h,
                    0 <= f2,
            ;
        }
    }
}

/// Only the zero magnitude is worth zero units.
pub proof fn lemma_units_zero(m: u64)
    requires
        m < INFINITY_MAGNITUDE,
    ensures
        magnitude_units(m) >= 0,
        magnitude_units(m) == 0 <==> m == 0,
{
    if m > 0 {
        lemma_units_increase(0, m);
    }
}

/// Finite magnitudes compare as the absolute values they denote, and an
/// absolute value is never negative.
pub proof fn lemma_units_compare(a: u64, b: u64)
    ensures
        a < INFINITY_MAGNITUDE ==> magnitude_units(a) >= 0 && (magnitude_units(a) == 0 <==> a == 0),
        b < INFINITY_MAGNITUDE ==> magnitude_units(b) >= 0 && (magnitude_units(b) == 0 <==> b == 0),
        a < INFINITY_MAGNITUDE && b < INFINITY_MAGNITUDE ==> {
            &&& a < b <==> magnitude_units(a) < magnitude_units(b)
            &&& a == b <==> magnitude_units(a) == magnitude_units(b)
        },
{
    if a < INFINITY_MAGNITUDE {
        lemma_units_zero(a);
    }
    if b < INFINITY_MAGNITUDE {
        lemma_units_zero(b);
    }
    if a < b && b < INFINITY_MAGNITUDE {
        lemma_units_increase(a, b);
    }
    if b < a && a < INFINITY_MAGNITUDE {
        lemma_units_increase(b, a);
    }
}

/// A finite magnitude with biased exponent below 1023 is less than one.
proof fn lemma_units_below_one(m: u64)
    requires
        m / HIDDEN_BIT < 1023,
    ensures
        0 <= magnitude_units(m) < pow2(1074),
        magnitude_units(m) / (pow2(1074) as int) == 0,
{
    let e = m / HIDDEN_BIT;
    let f = m % HIDDEN_BIT;
    let h = HIDDEN_BIT as int;
    lemma2_to64_rest();
    assert(pow2(52) == h);
    if e == 0 {
        lemma_pow2_strictly_increases(52, 1074);
    } else {
        let p = pow2((e - 1) as nat) as int;
        lemma_pow2_pos((e - 1) as nat);
        lemma_pow2_adds(52, e as nat);
        lemma_pow2_unfold(e as nat);
        if 52 + e < 1074 {
            lemma_pow2_strictly_increases((52 + e) as nat, 1074);
        }
        assert(0 <= (h + f) * p < h * (2 * p)) by (nonlinear_arith)
            requires
                p >= 1,
                0 <= f < h,
        ;
    }
    lemma_basic_div(magnitude_units(m), pow2(1074) as int);
}

/// A finite magnitude with biased exponent of at least 1054 is at least 2^31.
proof fn lemma_units_beyond_i32(m: u64)
    requires
        1054 <= m / HIDDEN_BIT,
    ensures
        magnitude_units(m) > 0,
        magnitude_units(m) / (pow2(1074) as int) >= 0x8000_0000,
{
    let e = m / HIDDEN_BIT;
    let f = m % HIDDEN_BIT;
    let h = HIDDEN_BIT as int;
    let p = pow2((e - 1) as nat) as int;
    let unit = pow2(1074) as int;
    lemma2_to64();
    lemma2_to64_rest();
    assert(pow2(52) == h);
    assert(pow2(31) == 0x8000_0000);
    lemma_pow2_pos(1074);
    lemma_pow2_adds(52, (e - 1) as nat);
    lemma_pow2_adds(31, 1074);
    if 1105 < 52 + (e - 1) {
        lemma_pow2_strictly_increases(1105, (52 + (e - 1)) as nat);
    }
    assert(h * p <= (h + f) * p) by (nonlinear_arith)
        requires
            p >= 0,
            f >= 0,
    ;
    assert(0 < 0x8000_0000 * unit <= magnitude_units(m));
    lemma_div_is_ordered(0x8000_0000 * unit, magnitude_units(m), unit);
    assert((0x8000_0000 * unit) / unit == 0x8000_0000) by (nonlinear_arith)
        requires
            unit > 0,
    ;
}

/// A magnitude with biased exponent from 1023 to 1053 has an integer part
/// below 2^31, which is its significand shifted right.
proof fn lemma_units_shifted(m: u64)
    requires
        1023 <= m / HIDDEN_BIT < 1054,
    ensures
        magnitude_units(m) > 0,
        magnitude_units(m) / (pow2(1074) as int) == (((HIDDEN_BIT + m % HIDDEN_BIT) as u64) >> ((1075
            - m / HIDDEN_BIT) as u64)),
        (((HIDDEN_BIT + m % HIDDEN_BIT) as u64) >> ((1075 - m / HIDDEN_BIT) as u64)) < 0x8000_0000,
{
    let e = m / HIDDEN_BIT;
    let f = m % HIDDEN_BIT;
    let significand = (HIDDEN_BIT + f) as u64;
    let shift = (1075 - e) as u64;
    let p = pow2((e - 1) as nat) as int;
    let d = pow2(shift as nat) as int;
    lemma_pow2_pos((e - 1) as nat);
    lemma_pow2_pos(shift as nat);
    lemma_pow2_adds((e - 1) as nat, shift as nat);
    assert(pow2(1074) == p * d);
    lemma_div_multiples_vanish_quotient(p, significand as int, d);
    assert(significand * p == p * significand && significand * p > 0) by (nonlinear_arith)
        requires
            p > 0,
            significand > 0,
    ;
    lemma_u64_shr_is_div(significand, shift);
    assert((significand >> shift) < 0x8000_0000) by (bit_vector)
        requires
            significand < 0x0020_0000_0000_0000,
            22 <= shift <= 52,
    ;
}

/// An integer of the range of `i32` survives the way into a value and back.
pub proof fn lemma_integer_to_i32(n: int)
    requires
        i32::MIN <= n <= i32::MAX,
    ensures
        Value::integer(n).to_i32() == n,
{
    let unit = pow2(1074) as int;
    lemma_pow2_pos(1074);
    if n >= 0 {
        assert(n * unit >= 0 && (n * unit) / unit == n) by (nonlinear_arith)
            requires
                unit > 0,
                n >= 0,
        ;
    } else {
        assert(n * unit < 0 && (-(n * unit)) / unit == -n) by (nonlinear_arith)
            requires
                unit > 0,
                n < 0,
        ;
    }
}

impl Scalar {
    /// The number zero.
    pub fn zero() -> (s: Scalar)
        ensures
            s.bits == 0,
            s@ == Value::zero(),
    {
        Scalar { bits: 0 }
    }

    /// The number one.
    pub fn one() -> (s: Scalar)
        ensures
            s.bits == ONE_BITS,
            s@ == Value::integer(1),
    {
        proof {
            lemma2_to64_rest();
            lemma_pow2_adds(52, 1022);
            assert(ONE_BITS / HIDDEN_BIT == 1023 && ONE_BITS % HIDDEN_BIT == 0);
        }
        Scalar { bits: ONE_BITS }
    }

    /// The integer `n` as a scalar. Every `i32` is a binary64 number, so
    /// nothing is rounded.
    pub fn from_i32(n: i32) -> (s: Scalar)
        ensures
            s@ == Value::integer(n as int),
            s@.to_i32() == n,
    {
        proof {
            lemma_integer_to_i32(n as int);
        }
        if n == 0 {
            return Scalar::zero();
        }
        let negative = n < 0;
        let m: u64 = if negative {
            (-(n as i64)) as u64
        } else {
            n as u64
        };
        let mut significand: u64 = m;
        let mut e: u64 = 1075;
        proof {
            lemma2_to64();
            lemma2_to64_rest();
            assert(m * pow2(0) == m) by (nonlinear_arith)
                requires
                    pow2(0) == 1,
            ;
        }
        while significand < HIDDEN_BIT
            invariant
                0 < m <= 0x8000_0000,
                e <= 1075,
                0 < significand < 2 * HIDDEN_BIT,
                significand == m * pow2((1075 - e) as nat),
                pow2(52) == HIDDEN_BIT,
                pow2(53) == 2 * HIDDEN_BIT,
            decreases 2 * HIDDEN_BIT - significand,
        {
            proof {
                let k = (1075 - e) as nat;
                if k >= 52 {
                    if k > 52 {
                        lemma_pow2_strictly_increases(52, k);
                    }
                    assert(m * pow2(k) >= pow2(k)) by (nonlinear_arith)
                        requires
                            m >= 1,
                    ;
                }
                assert(k < 52);
                lemma_pow2_unfold(k + 1);
                assert(2 * (m * pow2(k)) == m * (2 * pow2(k))) by (nonlinear_arith);
            }
            significand = significand * 2;
            e = e - 1;
        }
        proof {
            let k = (1075 - e) as nat;
            if k >= 53 {
                if k > 53 {
                    lemma_pow2_strictly_increases(53, k);
                }
                assert(m * pow2(k) >= pow2(k)) by (nonlinear_arith)
                    requires
                        m >= 1,
                ;
            }
            assert(k < 53);
            lemma_pow2_adds(k, (e - 1) as nat);
            assert((m * pow2(k)) * pow2((e - 1) as nat) == m * (pow2(k) * pow2((e - 1) as nat)))
                by (nonlinear_arith);
            assert((-(m as int)) * pow2(1074) == -(m * pow2(1074))) by (nonlinear_arith);
        }
        let magnitude: u64 = e * HIDDEN_BIT + (significand - HIDDEN_BIT);
        assert(magnitude / HIDDEN_BIT == e && magnitude % HIDDEN_BIT == significand - HIDDEN_BIT);
        if negative {
            Scalar { bits: SIGN_BIT + magnitude }
        } else {
            Scalar { bits: magnitude }
        }
    }

    /// The scalar with the given pattern.
    pub fn from_bits(bits: u64) -> (s: Scalar)
        ensures
            s.bits == bits,
    {
        Scalar { bits }
    }

    /// The pattern of this scalar.
    pub fn to_bits(self) -> (bits: u64)
        ensures
            bits == self.bits,
    {
        self.bits
    }

    /// Whether this scalar is not a number.
    pub fn is_nan(self) -> (r: bool)
        ensures
            r == (self@ is Nan),
    {
        self.bits % SIGN_BIT > INFINITY_MAGNITUDE
    }

    /// `self < other`.
    pub fn lt(self, other: Scalar) -> (r: bool)
        ensures
            r == self@.lt(other@),
    {
        let a: u64 = self.bits % SIGN_BIT;
        let b: u64 = other.bits % SIGN_BIT;
        if a > INFINITY_MAGNITUDE || b > INFINITY_MAGNITUDE {
            return false;
        }
        proof {
            lemma_units_compare(a, b);
        }
        if self.bits >= SIGN_BIT {
            if other.bits >= SIGN_BIT {
                a > b
            } else {
                a != 0 || b != 0
            }
        } else {
            if other.bits >= SIGN_BIT {
                false
            } else {
                a < b
            }
        }
    }

    /// `self == other` as numbers: the two zeros are equal, and what is not a
    /// number equals nothing.
    pub fn equals(self, other: Scalar) -> (r: bool)
        ensures
            r == self@.equals(other@),
    {
        let a: u64 = self.bits % SIGN_BIT;
        let b: u64 = other.bits % SIGN_BIT;
        if a > INFINITY_MAGNITUDE || b > INFINITY_MAGNITUDE {
            return false;
        }
        proof {
            lemma_units_compare(a, b);
        }
        if (self.bits >= SIGN_BIT) == (other.bits >= SIGN_BIT) {
            a == b
        } else {
            a == 0 && b == 0
        }
    }

    /// `self <= other`.
    pub fn le(self, other: Scalar) -> (r: bool)
        ensures
            r == self@.le(other@),
    {
        self.lt(other) || self.equals(other)
    }

    /// `self > other`.
    pub fn gt(self, other: Scalar) -> (r: bool)
        ensures
            r == self@.gt(other@),
    {
        other.lt(self)
    }

    /// `self >= other`.
    pub fn ge(self, other: Scalar) -> (r: bool)
        ensures
            r == self@.ge(other@),
    {
        other.le(self)
    }

    /// `self > 0`.
    pub fn is_positive(self) -> (r: bool)
        ensures
            r == self@.gt(Value::zero()),
    {
        Scalar::zero().lt(self)
    }

    /// The scalar as an `i32`, as a saturating cast would give it: rounded
    /// toward zero, held to the range of `i32`, and zero if not a number.
    pub fn to_i32(self) -> (r: i32)
        ensures
            r == self@.to_i32(),
    {
        let mag: u64 = self.bits % SIGN_BIT;
        let negative = self.bits >= SIGN_BIT;
        if mag > INFINITY_MAGNITUDE {
            return 0;
        }
        let e: u64 = mag / HIDDEN_BIT;
        let f: u64 = mag % HIDDEN_BIT;
        if e < 1023 {
            proof {
                lemma_units_below_one(mag);
            }
            return 0;
        }
        if e >= 1054 {
            proof {
                if mag < INFINITY_MAGNITUDE {
                    lemma_units_beyond_i32(mag);
                }
            }
            return if negative {
                i32::MIN
            } else {
                i32::MAX
            };
        }
        let shift: u64 = 1075 - e;
        let q: u64 = (HIDDEN_BIT + f) >> shift;
        proof {
            lemma_units_shifted(mag);
        }
        if negative {
            -(q as i32)
        } else {
            q as i32
        }
    }
}

} // verus!
