//! IEEE-754 binary64 values as bit patterns, with exact ordering.

use vstd::prelude::*;
use vstd::arithmetic::power2::{lemma_pow2_adds, lemma_pow2_pos, lemma_pow2_strictly_increases, pow2};
use vstd::bits::{lemma_u64_shl_is_mul, lemma_u64_shr_is_div};

verus! {

/// Bits of the magnitude (exponent and fraction) of a binary64 pattern.
pub const MAGNITUDE_MASK: u64 = 0x7fff_ffff_ffff_ffff;

/// The sign bit of a binary64 pattern.
pub const SIGN_BIT: u64 = 0x8000_0000_0000_0000;

/// Magnitude of positive infinity; every larger magnitude is a NaN.
pub const INFINITY_BITS: u64 = 0x7ff0_0000_0000_0000;

/// Bits of the fraction of a binary64 pattern.
pub const FRACTION_MASK: u64 = 0x000f_ffff_ffff_ffff;

/// The implicit leading bit of a normal binary64 significand.
pub const HIDDEN_BIT: u64 = 0x0010_0000_0000_0000;

/// Pattern of the number one.
pub const ONE_BITS: u64 = 0x3ff0_0000_0000_0000;

/// A binary64 value, held as its bit pattern.
#[derive(Clone, Copy, Debug, PartialEq, Eq, Structural)]
pub struct Scalar {
    pub bits: u64,
}

impl Scalar {
    /// Magnitude of the pattern: the pattern with its sign bit cleared.
    pub open spec fn magnitude(self) -> u64 {
        self.bits & MAGNITUDE_MASK
    }

    /// Whether the sign bit is set.
    pub open spec fn negative(self) -> bool {
        self.bits & SIGN_BIT != 0
    }

    /// Whether the pattern encodes a NaN.
    pub open spec fn nan(self) -> bool {
        self.magnitude() > INFINITY_BITS
    }

    /// The exponent field of the pattern.
    pub open spec fn exponent(self) -> u64 {
        self.magnitude() >> 52
    }

    /// The significand of a normal number: its fraction under the implicit
    /// leading bit. The number's absolute value is the significand times
    /// two to the power of the exponent field less 1075.
    pub open spec fn significand(self) -> u64 {
        (self.bits & FRACTION_MASK) | HIDDEN_BIT
    }

    /// Whether the pattern is that of the whole number `x`: positive zero
    /// for 0, and otherwise the normal number of the sign of `x` whose
    /// significand, scaled down by its exponent, is the absolute value of
    /// `x`.
    pub open spec fn represents(self, x: int) -> bool {
        if x == 0 {
            self.bits == 0
        } else {
            &&& self.negative() == (x < 0)
            &&& 1023 <= self.exponent() <= 1075
            &&& self.significand() == (if x < 0 {
                -x
            } else {
                x
            }) * pow2((1075 - self.exponent()) as nat)
        }
    }

    /// Position of a non-NaN value in the numeric order: binary64 is a
    /// sign-magnitude format, so the magnitude orders the non-negative values
    /// and its negation the negative ones. Both zeros sit at 0.
    pub open spec fn key(self) -> int {
        if self.negative() {
            -(self.magnitude() as int)
        } else {
            self.magnitude() as int
        }
    }

    /// Numeric `<`: false whenever an operand is NaN.
    pub open spec fn lt_spec(self, other: Scalar) -> bool {
        !self.nan() && !other.nan() && self.key() < other.key()
    }

    /// Numeric `<=`: false whenever an operand is NaN.
    pub open spec fn le_spec(self, other: Scalar) -> bool {
        !self.nan() && !other.nan() && self.key() <= other.key()
    }

    /// The lesser operand; a NaN operand yields the other one, and of two
    /// numerically equal operands the first is kept.
    pub open spec fn min_spec(self, other: Scalar) -> Scalar {
        if self.nan() {
            other
        } else if other.nan() {
            self
        } else if other.key() < self.key() {
            other
        } else {
            self
        }
    }

    /// The greater operand; a NaN operand yields the other one, and of two
    /// numerically equal operands the first is kept.
    pub open spec fn max_spec(self, other: Scalar) -> Scalar {
        if self.nan() {
            other
        } else if other.nan() {
            self
        } else if other.key() > self.key() {
            other
        } else {
            self
        }
    }

    /// The pattern with its sign bit flipped.
    pub open spec fn neg_spec(self) -> Scalar {
        Scalar { bits: self.bits ^ SIGN_BIT }
    }

    /// Positive zero.
    pub fn zero() -> (s: Scalar)
        ensures
            s.bits == 0,
    {
        Scalar { bits: 0 }
    }

    /// The number one.
    pub fn one() -> (s: Scalar)
        ensures
            s.bits == ONE_BITS,
    {
        Scalar { bits: ONE_BITS }
    }

    /// Positive infinity.
    pub fn infinity() -> (s: Scalar)
        ensures
            s.bits == INFINITY_BITS,
    {
        Scalar { bits: INFINITY_BITS }
    }

    /// The pattern of the whole number `x`. Every 32-bit integer has one.
    pub fn from_int(x: i32) -> (s: Scalar)
        ensures
            s.represents(x as int),
            !s.nan(),
    {
        if x == 0 {
            assert(0u64 & 0x7fff_ffff_ffff_ffffu64 == 0) by (bit_vector);
            return Scalar { bits: 0 };
        }
        let negative = x < 0;
        let m: u64 = if negative {
            (-(x as i64)) as u64
        } else {
            x as u64
        };
        // Place of the leading bit of `m`.
        let mut p: u64 = 0;
        assert(m >> 0 == m) by (bit_vector);
        while (m >> (p + 1)) != 0
            invariant
                1 <= m <= 0x8000_0000,
                p <= 31,
                m >> p != 0,
            decreases 32 - p,
        {
            assert(p + 1 <= 31) by (bit_vector)
                requires
                    m <= 0x8000_0000u64,
                    p <= 31,
                    m >> ((p + 1) as u64) != 0,
            ;
            p = p + 1;
        }
        let shift: u64 = 52 - p;
        let e: u64 = 1023 + p;
        let significand: u64 = m << shift;
        let sign: u64 = if negative {
            SIGN_BIT
        } else {
            0
        };
        let bits: u64 = (e << 52) | (significand & FRACTION_MASK) | sign;
        proof {
            let q: u64 = (p + 1) as u64;
            lemma_u64_shr_is_div(m, q);
            lemma_pow2_pos(q as nat);
            assert(m < pow2(q as nat)) by {
                vstd::arithmetic::div_mod::lemma_fundamental_div_mod(m as int, pow2(q as nat) as int);
                vstd::arithmetic::div_mod::lemma_mod_bound(m as int, pow2(q as nat) as int);
            }
            lemma_pow2_adds(q as nat, shift as nat);
            lemma_pow2_pos(shift as nat);
            assert(m * pow2(shift as nat) < pow2(53)) by (nonlinear_arith)
                requires
                    m < pow2(q as nat),
                    pow2(q as nat) * pow2(shift as nat) == pow2(53),
                    pow2(shift as nat) > 0,
            ;
            lemma_pow2_strictly_increases(53, 64);
            vstd::arithmetic::power2::lemma2_to64();
            lemma_u64_shl_is_mul(m, shift);
            assert((bits & 0x7fff_ffff_ffff_ffffu64) >> 52 == e && ((bits
                & 0x000f_ffff_ffff_ffffu64) | 0x0010_0000_0000_0000u64) == significand && (bits
                & 0x7fff_ffff_ffff_ffffu64) < 0x7ff0_0000_0000_0000u64 && ((bits
                & 0x8000_0000_0000_0000u64) != 0) == (sign != 0)) by (bit_vector)
                requires
                    bits == (e << 52) | (significand & 0x000f_ffff_ffff_ffffu64) | sign,
                    significand == m << shift,
                    shift == 52 - p,
                    e == 1023 + p,
                    p <= 31,
                    m >> p != 0,
                    m >> ((p + 1) as u64) == 0,
                    sign == 0 || sign == 0x8000_0000_0000_0000u64,
            ;
        }
        Scalar { bits }
    }

    /// Wraps a bit pattern.
    pub fn from_bits(bits: u64) -> (s: Scalar)
        ensures
            s.bits == bits,
    {
        Scalar { bits }
    }

    /// The bit pattern.
    pub fn to_bits(self) -> (bits: u64)
        ensures
            bits == self.bits,
    {
        self.bits
    }

    pub fn is_nan(self) -> (r: bool)
        ensures
            r == self.nan(),
    {
        (self.bits & MAGNITUDE_MASK) > INFINITY_BITS
    }

    pub fn is_negative(self) -> (r: bool)
        ensures
            r == self.negative(),
    {
        (self.bits & SIGN_BIT) != 0
    }

    /// Whether `self < other` holds numerically.
    pub fn lt(self, other: Scalar) -> (r: bool)
        ensures
            r == self.lt_spec(other),
    {
        if self.is_nan() || other.is_nan() {
            return false;
        }
        let a: u64 = self.bits & MAGNITUDE_MASK;
        let b: u64 = other.bits & MAGNITUDE_MASK;
        if self.is_negative() {
            if other.is_negative() {
                b < a
            } else {
                a != 0 || b != 0
            }
        } else {
            if other.is_negative() {
                false
            } else {
                a < b
            }
        }
    }

    /// Whether `self <= other` holds numerically.
    pub fn le(self, other: Scalar) -> (r: bool)
        ensures
            r == self.le_spec(other),
    {
        if self.is_nan() || other.is_nan() {
            return false;
        }
        !other.lt(self)
    }

    /// Whether `self > other` holds numerically.
    pub fn gt(self, other: Scalar) -> (r: bool)
        ensures
            r == other.lt_spec(self),
    {
        other.lt(self)
    }

    /// The lesser of two values.
    pub fn min(self, other: Scalar) -> (r: Scalar)
        ensures
            r == self.min_spec(other),
    {
        if self.is_nan() {
            other
        } else if other.lt(self) {
            other
        } else {
            self
        }
    }

    /// The greater of two values.
    pub fn max(self, other: Scalar) -> (r: Scalar)
        ensures
            r == self.max_spec(other),
    {
        if self.is_nan() {
            other
        } else if self.lt(other) {
            other
        } else {
            self
        }
    }

    /// The value with the opposite sign.
    pub fn neg(self) -> (r: Scalar)
        ensures
            r == self.neg_spec(),
    {
        Scalar { bits: self.bits ^ SIGN_BIT }
    }
}

/// Negation keeps the magnitude and flips the sign, so it mirrors the
/// numeric order and maps NaN to NaN.
pub proof fn lemma_neg_mirrors(a: Scalar)
    ensures
        a.neg_spec().magnitude() == a.magnitude(),
        a.neg_spec().negative() == !a.negative(),
        a.neg_spec().nan() == a.nan(),
        a.neg_spec().key() == -a.key(),
        a.neg_spec().neg_spec() == a,
{
    let b = a.bits;
    assert((b ^ 0x8000_0000_0000_0000u64) & 0x7fff_ffff_ffff_ffffu64 == b
        & 0x7fff_ffff_ffff_ffffu64) by (bit_vector);
    assert(((b ^ 0x8000_0000_0000_0000u64) & 0x8000_0000_0000_0000u64 != 0) == !(b
        & 0x8000_0000_0000_0000u64 != 0)) by (bit_vector);
    assert((b ^ 0x8000_0000_0000_0000u64) ^ 0x8000_0000_0000_0000u64 == b) by (bit_vector);
}

/// On numbers, `<=` is a total preorder, and `<` is its strict part: every
/// number is at most itself, of two numbers one is at most the other, and
/// the order passes along chains.
pub proof fn lemma_order_is_total(a: Scalar, b: Scalar, c: Scalar)
    requires
        !a.nan(),
        !b.nan(),
        !c.nan(),
    ensures
        a.le_spec(a),
        a.le_spec(b) || b.le_spec(a),
        a.le_spec(b) && b.le_spec(c) ==> a.le_spec(c),
        a.lt_spec(b) == !b.le_spec(a),
        a.min_spec(b).le_spec(a) && a.min_spec(b).le_spec(b),
        a.le_spec(a.max_spec(b)) && b.le_spec(a.max_spec(b)),
{
}

/// The magnitude of a pattern is its exponent field above its fraction.
proof fn lemma_magnitude_parts(a: Scalar)
    ensures
        a.magnitude() == a.exponent() * 0x0010_0000_0000_0000 + a.significand()
            - 0x0010_0000_0000_0000,
        0x0010_0000_0000_0000 <= a.significand() < 0x0020_0000_0000_0000,
        a.exponent() < 2048,
{
    let b = a.bits;
    assert((b & 0x7fff_ffff_ffff_ffffu64) == ((b & 0x7fff_ffff_ffff_ffffu64) >> 52)
        * 0x0010_0000_0000_0000u64 + ((b & 0x000f_ffff_ffff_ffffu64) | 0x0010_0000_0000_0000u64)
        - 0x0010_0000_0000_0000u64 && 0x0010_0000_0000_0000u64 <= ((b
        & 0x000f_ffff_ffff_ffffu64) | 0x0010_0000_0000_0000u64) && ((b
        & 0x000f_ffff_ffff_ffffu64) | 0x0010_0000_0000_0000u64) < 0x0020_0000_0000_0000u64 && ((b
        & 0x7fff_ffff_ffff_ffffu64) >> 52) < 2048) by (bit_vector);
}

/// Among the patterns of positive whole numbers, the greater number has the
/// greater magnitude.
proof fn lemma_magnitudes_follow_whole_numbers(a: Scalar, b: Scalar, x: int, y: int)
    requires
        0 < x < y,
        1023 <= a.exponent() <= 1075,
        1023 <= b.exponent() <= 1075,
        a.significand() == x * pow2((1075 - a.exponent()) as nat),
        b.significand() == y * pow2((1075 - b.exponent()) as nat),
    ensures
        a.magnitude() < b.magnitude(),
{
    lemma_magnitude_parts(a);
    lemma_magnitude_parts(b);
    let ea = a.exponent() as int;
    let eb = b.exponent() as int;
    let sa = a.significand() as int;
    let sb = b.significand() as int;
    let pa = pow2((1075 - ea) as nat) as int;
    let pb = pow2((1075 - eb) as nat) as int;
    lemma_pow2_pos((1075 - ea) as nat);
    lemma_pow2_pos((1075 - eb) as nat);
    if ea == eb {
        assert(sa < sb) by (nonlinear_arith)
            requires
                sa == x * pa,
                sb == y * pa,
                x < y,
                pa > 0,
        ;
    } else if ea > eb {
        // Then `x` would be at least `y`: its significand is scaled down less.
        let d = (ea - eb) as nat;
        lemma_pow2_adds((1075 - ea) as nat, d);
        lemma_pow2_pos(d);
        lemma_pow2_strictly_increases(0, d);
        assert(pow2(0) == 1) by {
            vstd::arithmetic::power2::lemma2_to64();
        }
        let k = pow2(d) as int;
        assert(false) by (nonlinear_arith)
            requires
                sa == x * pa,
                sb == y * pb,
                pb == pa * k,
                k >= 2,
                pa > 0,
                x < y,
                0x0010_0000_0000_0000 <= sa,
                sb < 0x0020_0000_0000_0000,
        ;
    } else {
        assert(ea * 0x0010_0000_0000_0000 + 0x0010_0000_0000_0000 <= eb * 0x0010_0000_0000_0000)
            by (nonlinear_arith)
            requires
                ea + 1 <= eb,
        ;
    }
}

/// The order of the patterns agrees with the order of the whole numbers
/// that they stand for.
pub proof fn lemma_whole_numbers_keep_their_order(a: Scalar, b: Scalar, x: int, y: int)
    requires
        a.represents(x),
        b.represents(y),
    ensures
        !a.nan(),
        !b.nan(),
        a.lt_spec(b) == (x < y),
        a.le_spec(b) == (x <= y),
{
    lemma_magnitude_parts(a);
    lemma_magnitude_parts(b);
    assert(0u64 & 0x7fff_ffff_ffff_ffffu64 == 0 && 0u64 & 0x8000_0000_0000_0000u64 == 0)
        by (bit_vector);
    assert(x != 0 ==> a.magnitude() >= 1023 * 0x0010_0000_0000_0000) by (nonlinear_arith)
        requires
            a.magnitude() == a.exponent() * 0x0010_0000_0000_0000 + a.significand()
                - 0x0010_0000_0000_0000,
            0x0010_0000_0000_0000 <= a.significand(),
            x != 0 ==> 1023 <= a.exponent() <= 1075,
    ;
    assert(y != 0 ==> b.magnitude() >= 1023 * 0x0010_0000_0000_0000) by (nonlinear_arith)
        requires
            b.magnitude() == b.exponent() * 0x0010_0000_0000_0000 + b.significand()
                - 0x0010_0000_0000_0000,
            0x0010_0000_0000_0000 <= b.significand(),
            y != 0 ==> 1023 <= b.exponent() <= 1075,
    ;
    assert(x != 0 ==> a.magnitude() < 1077 * 0x0010_0000_0000_0000) by (nonlinear_arith)
        requires
            a.magnitude() == a.exponent() * 0x0010_0000_0000_0000 + a.significand()
                - 0x0010_0000_0000_0000,
            a.significand() < 0x0020_0000_0000_0000,
            x != 0 ==> 1023 <= a.exponent() <= 1075,
    ;
    assert(y != 0 ==> b.magnitude() < 1077 * 0x0010_0000_0000_0000) by (nonlinear_arith)
        requires
            b.magnitude() == b.exponent() * 0x0010_0000_0000_0000 + b.significand()
                - 0x0010_0000_0000_0000,
            b.significand() < 0x0020_0000_0000_0000,
            y != 0 ==> 1023 <= b.exponent() <= 1075,
    ;
    let ax = if x < 0 {
        -x
    } else {
        x
    };
    let ay = if y < 0 {
        -y
    } else {
        y
    };
    if x != 0 && y != 0 {
        if ax < ay {
            lemma_magnitudes_follow_whole_numbers(a, b, ax, ay);
        } else if ay < ax {
            lemma_magnitudes_follow_whole_numbers(b, a, ay, ax);
        } else {
            lemma_pow2_pos((1075 - a.exponent()) as nat);
            lemma_pow2_pos((1075 - b.exponent()) as nat);
            // Equal numbers with different exponents would need
            // significands a factor of two apart.
            if a.exponent() < b.exponent() {
                lemma_same_number_same_exponent(b, a, ax);
            } else {
                lemma_same_number_same_exponent(a, b, ax);
            }
        }
    }
}

/// Two normal patterns of one positive whole number have one exponent.
proof fn lemma_same_number_same_exponent(a: Scalar, b: Scalar, x: int)
    requires
        0 < x,
        1023 <= b.exponent() <= a.exponent() <= 1075,
        a.significand() == x * pow2((1075 - a.exponent()) as nat),
        b.significand() == x * pow2((1075 - b.exponent()) as nat),
    ensures
        a.exponent() == b.exponent(),
{
    lemma_magnitude_parts(a);
    lemma_magnitude_parts(b);
    let ea = a.exponent() as int;
    let eb = b.exponent() as int;
    if eb < ea {
        let d = (ea - eb) as nat;
        lemma_pow2_adds((1075 - ea) as nat, d);
        lemma_pow2_pos((1075 - ea) as nat);
        lemma_pow2_strictly_increases(0, d);
        assert(pow2(0) == 1) by {
            vstd::arithmetic::power2::lemma2_to64();
        }
        let pa = pow2((1075 - ea) as nat) as int;
        let pb = pow2((1075 - eb) as nat) as int;
        let k = pow2(d) as int;
        let sa = a.significand() as int;
        let sb = b.significand() as int;
        assert(false) by (nonlinear_arith)
            requires
                sa == x * pa,
                sb == x * pb,
                pb == pa * k,
                k >= 2,
                pa > 0,
                x > 0,
                0x0010_0000_0000_0000 <= sa,
                sb < 0x0020_0000_0000_0000,
        ;
    }
}

} // verus!
