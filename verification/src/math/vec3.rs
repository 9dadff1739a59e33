//! Three-component vectors.

use vstd::prelude::*;
use vstd::arithmetic::div_mod::{lemma_fundamental_div_mod, lemma_mod_bound};
use vstd::arithmetic::power2::{lemma_pow2_pos, pow2};
use vstd::bits::lemma_u64_shr_is_div;
use crate::math::Axis;
use crate::scalar::{lemma_neg_mirrors, Scalar, FRACTION_MASK, HIDDEN_BIT, MAGNITUDE_MASK, ONE_BITS};

verus! {

/// Pattern of 1.0e-8, the bound below which a component counts as vanished.
pub const NEAR_ZERO_DELTA_BITS: u64 = 0x3e45_798e_e230_8c3a;

/// Pattern of 0.999, the brightest channel value that is displayed.
pub const CHANNEL_MAX_BITS: u64 = 0x3fef_f7ce_d916_872b;

/// The 8-bit level of a channel value: 256 times the value clamped to
/// `[0, 0.999]`, rounded down. NaN and everything below zero give level 0.
///
/// A clamped value with exponent field `e` and fraction `f` is the number
/// `(2^52 + f) * 2^(e - 1075)`, so 256 times it, rounded down, is the
/// significand shifted right by `1067 - e` places; below `e = 1015` the
/// product is less than one.
pub open spec fn level_spec(c: Scalar) -> u8 {
    if c.nan() || c.negative() {
        0
    } else {
        let m = if c.bits > CHANNEL_MAX_BITS {
            CHANNEL_MAX_BITS
        } else {
            c.bits
        };
        let e = m >> 52;
        if e < 1015 {
            0
        } else {
            (((m & FRACTION_MASK) | HIDDEN_BIT) >> ((1067 - e) as u64)) as u8
        }
    }
}

/// The 8-bit level of a channel value, see [`level_spec`].
pub fn level(c: Scalar) -> (l: u8)
    ensures
        l == level_spec(c),
{
    if c.is_nan() || c.is_negative() {
        return 0;
    }
    let m: u64 = if c.bits > CHANNEL_MAX_BITS {
        CHANNEL_MAX_BITS
    } else {
        c.bits
    };
    let e: u64 = m >> 52;
    assert(e <= 1022) by (bit_vector)
        requires
            e == m >> 52,
            m <= 0x3fef_f7ce_d916_872bu64,
    ;
    if e < 1015 {
        return 0;
    }
    let shift: u64 = 1067 - e;
    let significand: u64 = (m & FRACTION_MASK) | HIDDEN_BIT;
    assert(significand >> shift < 256) by (bit_vector)
        requires
            significand == (m & 0x000f_ffff_ffff_ffffu64) | 0x0010_0000_0000_0000u64,
            45 <= shift <= 52,
    ;
    (significand >> shift) as u8
}

/// The level of a value between 1/256 and 0.999 is 256 times the value,
/// rounded down: the value is `significand * 2^(e - 1075)`, and the level is
/// the one integer `l` with `l <= significand / 2^(1067 - e) < l + 1`.
pub proof fn lemma_level_rounds_down(c: Scalar)
    requires
        !c.nan(),
        !c.negative(),
        c.bits <= CHANNEL_MAX_BITS,
        c.bits >> 52 >= 1015,
    ensures
        level_spec(c) * pow2((1067 - (c.bits >> 52)) as nat) <= ((c.bits & FRACTION_MASK)
            | HIDDEN_BIT),
        ((c.bits & FRACTION_MASK) | HIDDEN_BIT) < (level_spec(c) + 1) * pow2(
            (1067 - (c.bits >> 52)) as nat,
        ),
{
    let m = c.bits;
    let e = m >> 52;
    assert(e <= 1022) by (bit_vector)
        requires
            e == m >> 52,
            m <= 0x3fef_f7ce_d916_872bu64,
    ;
    let shift: u64 = (1067 - e) as u64;
    let significand: u64 = (m & FRACTION_MASK) | HIDDEN_BIT;
    assert(significand >> shift < 256) by (bit_vector)
        requires
            significand == (m & 0x000f_ffff_ffff_ffffu64) | 0x0010_0000_0000_0000u64,
            45 <= shift <= 52,
    ;
    lemma_u64_shr_is_div(significand, shift);
    lemma_pow2_pos(shift as nat);
    lemma_fundamental_div_mod(significand as int, pow2(shift as nat) as int);
    lemma_mod_bound(significand as int, pow2(shift as nat) as int);
    let l = level_spec(c) as int;
    let p = pow2(shift as nat) as int;
    assert(l == significand as int / p);
    assert(l * p == p * l) by (nonlinear_arith);
    assert((l + 1) * p == p * l + p) by (nonlinear_arith);
}

/// A brighter value never gets a darker level.
pub proof fn lemma_level_is_monotone(a: Scalar, b: Scalar)
    requires
        a.le_spec(b),
    ensures
        level_spec(a) <= level_spec(b),
{
    let x = a.bits;
    let y = b.bits;
    if a.negative() {
    } else {
        assert(!b.negative() || b.magnitude() == 0);
        assert(x & 0x7fff_ffff_ffff_ffffu64 == x) by (bit_vector)
            requires
                x & 0x8000_0000_0000_0000u64 == 0,
        ;
        if b.negative() {
            assert(x >> 52 < 1015) by (bit_vector)
                requires
                    x == 0,
            ;
        } else {
            assert(y & 0x7fff_ffff_ffff_ffffu64 == y) by (bit_vector)
                requires
                    y & 0x8000_0000_0000_0000u64 == 0,
            ;
            let m = if x > CHANNEL_MAX_BITS {
                CHANNEL_MAX_BITS
            } else {
                x
            };
            let n = if y > CHANNEL_MAX_BITS {
                CHANNEL_MAX_BITS
            } else {
                y
            };
            assert(m <= n);
            lemma_clamped_level_is_monotone(m, n);
        }
    }
}

/// Among values up to 0.999, a greater pattern never gets a lesser level.
proof fn lemma_clamped_level_is_monotone(m: u64, n: u64)
    requires
        m <= n <= CHANNEL_MAX_BITS,
    ensures
        (if m >> 52 < 1015 {
            0
        } else {
            (((m & FRACTION_MASK) | HIDDEN_BIT) >> ((1067 - (m >> 52)) as u64)) as u8
        }) <= (if n >> 52 < 1015 {
            0
        } else {
            (((n & FRACTION_MASK) | HIDDEN_BIT) >> ((1067 - (n >> 52)) as u64)) as u8
        }),
{
    let em = m >> 52;
    let en = n >> 52;
    assert(em <= en && en <= 1022) by (bit_vector)
        requires
            em == m >> 52,
            en == n >> 52,
            m <= n,
            n <= 0x3fef_f7ce_d916_872bu64,
    ;
    if em >= 1015 {
        let sm: u64 = (1067 - em) as u64;
        let sn: u64 = (1067 - en) as u64;
        let gm: u64 = (m & FRACTION_MASK) | HIDDEN_BIT;
        let gn: u64 = (n & FRACTION_MASK) | HIDDEN_BIT;
        assert(gm >> sm <= gn >> sn && gn >> sn < 256) by (bit_vector)
            requires
                gm == (m & 0x000f_ffff_ffff_ffffu64) | 0x0010_0000_0000_0000u64,
                gn == (n & 0x000f_ffff_ffff_ffffu64) | 0x0010_0000_0000_0000u64,
                m <= n,
                n <= 0x3fef_f7ce_d916_872bu64,
                m >> 52 >= 1015,
                sm == 1067 - (m >> 52),
                sn == 1067 - (n >> 52),
        ;
    }
}

/// A vector in 3D Euclidean space.
#[derive(Clone, Copy, Debug, PartialEq, Eq, Structural)]
pub struct Vec3 {
    pub x: Scalar,
    pub y: Scalar,
    pub z: Scalar,
}

/// A [`Vec3`] read as a position.
pub type Point = Vec3;

/// A [`Vec3`] read as a linear RGB color.
pub type Rgb = Vec3;

impl Vec3 {
    /// The component along `axis`.
    pub open spec fn get(self, axis: Axis) -> Scalar {
        match axis {
            Axis::X => self.x,
            Axis::Y => self.y,
            Axis::Z => self.z,
        }
    }

    /// The vector with every component negated.
    pub open spec fn neg_spec(self) -> Vec3 {
        Vec3 { x: self.x.neg_spec(), y: self.y.neg_spec(), z: self.z.neg_spec() }
    }

    /// The vector in which all components are 0.
    pub open spec fn zero_spec() -> Vec3 {
        Vec3 { x: Scalar { bits: 0 }, y: Scalar { bits: 0 }, z: Scalar { bits: 0 } }
    }

    /// Whether the absolute value of every component is below 1.0e-8. The
    /// magnitude of a pattern orders absolute values, and every NaN has a
    /// magnitude above that of 1.0e-8, so no vector with a NaN qualifies.
    pub open spec fn near_zero_spec(self) -> bool {
        &&& self.x.magnitude() < NEAR_ZERO_DELTA_BITS
        &&& self.y.magnitude() < NEAR_ZERO_DELTA_BITS
        &&& self.z.magnitude() < NEAR_ZERO_DELTA_BITS
    }

    /// Whether every component lies numerically in `[0, 1]`.
    pub open spec fn in_unit_range(self) -> bool {
        let zero = Scalar { bits: 0 };
        let one = Scalar { bits: crate::scalar::ONE_BITS };
        &&& zero.le_spec(self.x) && self.x.le_spec(one)
        &&& zero.le_spec(self.y) && self.y.le_spec(one)
        &&& zero.le_spec(self.z) && self.z.le_spec(one)
    }

    pub fn new(x: Scalar, y: Scalar, z: Scalar) -> (v: Vec3)
        ensures
            v == (Vec3 { x, y, z }),
    {
        Vec3 { x, y, z }
    }

    pub fn newf(x: Scalar, y: Scalar, z: Scalar) -> (v: Vec3)
        ensures
            v == (Vec3 { x, y, z }),
    {
        Vec3 { x, y, z }
    }

    /// The vector of three whole numbers.
    pub fn newi(x: i32, y: i32, z: i32) -> (v: Vec3)
        ensures
            v.x.represents(x as int),
            v.y.represents(y as int),
            v.z.represents(z as int),
    {
        Vec3 { x: Scalar::from_int(x), y: Scalar::from_int(y), z: Scalar::from_int(z) }
    }

    /// The vector whose three components all equal `n`.
    pub fn new_all(n: Scalar) -> (v: Vec3)
        ensures
            v == (Vec3 { x: n, y: n, z: n }),
    {
        Vec3 { x: n, y: n, z: n }
    }

    /// The vector in which all components are 0.
    pub fn zero() -> (v: Vec3)
        ensures
            v == Self::zero_spec(),
    {
        Vec3::new_all(Scalar::zero())
    }

    /// The vector in which all components are 1.
    pub fn one() -> (v: Vec3)
        ensures
            v.x.bits == crate::scalar::ONE_BITS,
            v.y == v.x,
            v.z == v.x,
    {
        Vec3::new_all(Scalar::one())
    }

    /// The component along `axis`.
    pub fn index(&self, axis: Axis) -> (c: Scalar)
        ensures
            c == self.get(axis),
    {
        match axis {
            Axis::X => self.x,
            Axis::Y => self.y,
            Axis::Z => self.z,
        }
    }

    /// The component numbered `index`: 0 is x, 1 is y, 2 is z.
    pub open spec fn at_spec(self, index: int) -> Scalar {
        if index == 0 {
            self.x
        } else if index == 1 {
            self.y
        } else {
            self.z
        }
    }

    /// The component numbered `index`, which is below 3.
    pub fn at(&self, index: usize) -> (c: Scalar)
        requires
            index < 3,
        ensures
            c == self.at_spec(index as int),
    {
        if index == 0 {
            self.x
        } else if index == 1 {
            self.y
        } else {
            self.z
        }
    }

    /// Replaces the component numbered `index`, which is below 3.
    pub fn set_at(&mut self, index: usize, value: Scalar)
        requires
            index < 3,
        ensures
            final(self).at_spec(index as int) == value,
            forall|other: int|
                0 <= other < 3 && other != index ==> final(self).at_spec(other) == old(self).at_spec(
                    other,
                ),
    {
        if index == 0 {
            self.x = value;
        } else if index == 1 {
            self.y = value;
        } else {
            self.z = value;
        }
    }

    /// The vector pointing the opposite way.
    pub fn neg(self) -> (v: Vec3)
        ensures
            v == self.neg_spec(),
    {
        Vec3 { x: self.x.neg(), y: self.y.neg(), z: self.z.neg() }
    }

    /// Whether the vector is near the origin: the absolute value of each of
    /// the components is less than 1.0e-8.
    pub fn near_zero(self) -> (r: bool)
        ensures
            r == self.near_zero_spec(),
    {
        (self.x.bits & MAGNITUDE_MASK) < NEAR_ZERO_DELTA_BITS && (self.y.bits & MAGNITUDE_MASK)
            < NEAR_ZERO_DELTA_BITS && (self.z.bits & MAGNITUDE_MASK) < NEAR_ZERO_DELTA_BITS
    }

    /// RGB8 values of a color whose channels have been averaged and
    /// gamma-corrected: the [`level`] of each channel.
    pub fn to_rgb8(self) -> (rgb: [u8; 3])
        ensures
            rgb@ == seq![level_spec(self.x), level_spec(self.y), level_spec(self.z)],
    {
        [level(self.x), level(self.y), level(self.z)]
    }

    /// Turns a sample from the unit ball into the hemisphere around a normal:
    /// `facing` is the dot product of the sample with the normal, and the
    /// sample is kept when that is positive and mirrored otherwise.
    pub fn random_in_hemisphere(in_unit_sphere: Vec3, facing: Scalar) -> (v: Vec3)
        ensures
            v == if (Scalar { bits: 0 }).lt_spec(facing) {
                in_unit_sphere
            } else {
                in_unit_sphere.neg_spec()
            },
    {
        if facing.gt(Scalar::zero()) {
            in_unit_sphere
        } else {
            in_unit_sphere.neg()
        }
    }
}

/// A vector is near zero exactly when each of its components is a number
/// strictly between -1.0e-8 and 1.0e-8.
pub proof fn lemma_near_zero_is_two_sided(v: Vec3)
    ensures
        v.near_zero_spec() == {
            let delta = Scalar { bits: NEAR_ZERO_DELTA_BITS };
            &&& delta.neg_spec().lt_spec(v.x) && v.x.lt_spec(delta)
            &&& delta.neg_spec().lt_spec(v.y) && v.y.lt_spec(delta)
            &&& delta.neg_spec().lt_spec(v.z) && v.z.lt_spec(delta)
        },
{
    let delta = Scalar { bits: NEAR_ZERO_DELTA_BITS };
    lemma_neg_mirrors(delta);
    assert(0x3e45_798e_e230_8c3au64 & 0x7fff_ffff_ffff_ffffu64 == 0x3e45_798e_e230_8c3au64
        && 0x3e45_798e_e230_8c3au64 & 0x8000_0000_0000_0000u64 == 0) by (bit_vector);
}

/// Whether a vector of the given squared length lies strictly inside the
/// unit ball: a draw from the cube around the ball is kept exactly then.
pub fn inside_unit_ball(len_squared: Scalar) -> (r: bool)
    ensures
        r == len_squared.lt_spec(Scalar { bits: ONE_BITS }),
{
    len_squared.lt(Scalar::one())
}

impl Default for Vec3 {
    /// The vector in which all components are 0.
    fn default() -> (v: Vec3)
        ensures
            v == Vec3::zero_spec(),
    {
        Vec3::zero()
    }
}

} // verus!
