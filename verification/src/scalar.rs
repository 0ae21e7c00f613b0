use vstd::prelude::*;
use vstd::arithmetic::div_mod::{
    lemma_basic_div,
    lemma_div_is_ordered,
    lemma_div_multiples_vanish_quotient,
};
use vstd::arithmetic::power2::{
    lemma2_to64,
    lemma_pow2_adds,
    lemma_pow2_pos,
    lemma_pow2_strictly_increases,
    lemma_pow2_unfold,
    pow2,
};
use vstd::bits::lemma_u32_shr_is_div;

verus! {

/// An IEEE-754 single-precision number, carried by its 32-bit pattern.
///
/// The library never computes with such numbers; it only orders them, moves
/// them around and cuts them down to bytes. Arithmetic on them is the
/// caller's business. Two scalars are equal (`==`) when their patterns are.
#[derive(Clone, Copy, Debug, PartialEq, Eq, Structural)]
pub struct Scalar {
    pub bits: u32,
}

/// Bit pattern of positive zero.
pub const ZERO_BITS: u32 = 0;

/// Bit pattern of positive infinity; every larger magnitude is not a number.
pub const INFINITY_BITS: u32 = 0x7f80_0000;

/// Weight of the sign bit.
pub const SIGN: u32 = 0x8000_0000;

/// Weight of the lowest exponent bit: one more than the largest fraction.
pub const HIDDEN: u32 = 0x80_0000;

/// The exponent field of one.
pub const BIAS: u32 = 127;

impl Scalar {
    /// The pattern without its sign bit.
    pub open spec fn magnitude(self) -> int {
        self.bits as int % 0x8000_0000
    }

    /// Whether the sign bit is set.
    pub open spec fn negative(self) -> bool {
        self.bits >= 0x8000_0000
    }

    /// The exponent field.
    pub open spec fn exponent(self) -> nat {
        (self.magnitude() / 0x80_0000) as nat
    }

    /// The fraction field.
    pub open spec fn fraction(self) -> nat {
        (self.magnitude() % 0x80_0000) as nat
    }

    /// Whether the pattern encodes no number at all: the exponent field is
    /// all ones and the fraction is not zero.
    pub open spec fn is_nan_spec(self) -> bool {
        self.exponent() == 255 && self.fraction() != 0
    }

    /// The pattern read as a sign and a magnitude. Numbers lie on the number
    /// line as their ranks do, which is how they are compared.
    pub open spec fn rank(self) -> int {
        if self.negative() {
            -self.magnitude()
        } else {
            self.magnitude()
        }
    }

    /// The size of the number, sign aside, counted in units of the least
    /// positive number, two to the power of -149. Infinity comes out greater
    /// than every finite number; of a pattern that is no number the value
    /// means nothing.
    pub open spec fn scaled(self) -> nat {
        if self.exponent() == 0 {
            self.fraction()
        } else {
            (0x80_0000 + self.fraction()) * pow2((self.exponent() - 1) as nat)
        }
    }

    /// The number itself, in the same units.
    pub open spec fn units(self) -> int {
        if self.negative() {
            -(self.scaled() as int)
        } else {
            self.scaled() as int
        }
    }

    /// The number cut down to a byte: what is behind the point goes, what is
    /// below zero becomes 0, what is above 255 becomes 255, and a pattern
    /// that is no number becomes 0.
    pub open spec fn byte_spec(self) -> u8 {
        if self.is_nan_spec() || self.negative() {
            0
        } else if self.scaled() / pow2(149) >= 255 {
            255
        } else {
            (self.scaled() / pow2(149)) as u8
        }
    }

    /// `self < other` as IEEE-754 has it: the one number is the smaller, and
    /// both are numbers.
    pub open spec fn lt_spec(self, other: Scalar) -> bool {
        !self.is_nan_spec() && !other.is_nan_spec() && self.units() < other.units()
    }

    /// `self > other` as IEEE-754 has it.
    pub open spec fn gt_spec(self, other: Scalar) -> bool {
        other.lt_spec(self)
    }

    /// `self <= other` as IEEE-754 has it: like `<`, false as soon as either
    /// side is not a number.
    pub open spec fn le_spec(self, other: Scalar) -> bool {
        !self.is_nan_spec() && !other.is_nan_spec() && self.units() <= other.units()
    }

    pub open spec fn zero_spec() -> Scalar {
        Scalar { bits: 0 }
    }

    pub fn from_bits(bits: u32) -> (s: Scalar)
        ensures
            s.bits == bits,
    {
        Scalar { bits }
    }

    pub fn to_bits(self) -> (bits: u32)
        ensures
            bits == self.bits,
    {
        self.bits
    }

    #[verifier::when_used_as_spec(zero_spec)]
    pub fn zero() -> (s: Scalar)
        ensures
            s == Scalar::zero_spec(),
    {
        Scalar { bits: ZERO_BITS }
    }

    #[verifier::when_used_as_spec(is_nan_spec)]
    pub fn is_nan(self) -> (r: bool)
        ensures
            r == self.is_nan_spec(),
    {
        self.bits % SIGN > INFINITY_BITS
    }

    #[verifier::when_used_as_spec(lt_spec)]
    pub fn lt(self, other: Scalar) -> (r: bool)
        ensures
            r == self.lt_spec(other),
    {
        proof {
            self.lemma_rank_is_order(other);
        }
        if self.is_nan() || other.is_nan() {
            return false;
        }
        let a: u32 = self.bits % SIGN;
        let b: u32 = other.bits % SIGN;
        if self.bits >= SIGN {
            if other.bits >= SIGN {
                b < a
            } else {
                a != 0 || b != 0
            }
        } else {
            if other.bits >= SIGN {
                false
            } else {
                a < b
            }
        }
    }

    #[verifier::when_used_as_spec(gt_spec)]
    pub fn gt(self, other: Scalar) -> (r: bool)
        ensures
            r == self.gt_spec(other),
    {
        other.lt(self)
    }

    #[verifier::when_used_as_spec(le_spec)]
    pub fn le(self, other: Scalar) -> (r: bool)
        ensures
            r == self.le_spec(other),
    {
        proof {
            self.lemma_rank_is_order(other);
            other.lemma_rank_is_order(self);
        }
        if self.is_nan() || other.is_nan() {
            false
        } else {
            !other.lt(self)
        }
    }

    /// Cuts the number down to a byte.
    #[verifier::when_used_as_spec(byte_spec)]
    pub fn to_byte(self) -> (byte: u8)
        ensures
            byte == self.byte_spec(),
    {
        if self.is_nan() || self.bits >= SIGN {
            return 0;
        }
        let e: u32 = self.bits / HIDDEN;
        let f: u32 = self.bits % HIDDEN;
        proof {
            lemma_pow2_pos(149);
        }
        if e < BIAS {
            proof {
                self.lemma_below_one();
                lemma_basic_div(self.scaled() as int, pow2(149) as int);
            }
            0
        } else if e > BIAS + 7 {
            proof {
                self.lemma_above_bytes();
            }
            255
        } else {
            let sig: u32 = HIDDEN + f;
            let down: u32 = BIAS + 23 - e;
            proof {
                let low = pow2((e - 1) as nat);
                let high = pow2(down as nat);
                lemma_pow2_pos((e - 1) as nat);
                lemma_pow2_pos(down as nat);
                lemma_pow2_adds((e - 1) as nat, down as nat);
                assert(pow2(149) == low * high);
                lemma_div_multiples_vanish_quotient(low as int, sig as int, high as int);
                assert(self.scaled() == low * sig) by (nonlinear_arith)
                    requires
                        self.scaled() == sig * low,
                ;
                assert(self.scaled() / pow2(149) == sig as int / high as int);
                lemma_u32_shr_is_div(sig, down);
                lemma2_to64();
                if down > 16 {
                    lemma_pow2_strictly_increases(16, down as nat);
                }
                assert(sig < 256 * high);
                assert(sig as int / high as int <= 255) by (nonlinear_arith)
                    requires
                        0 <= sig < 256 * high,
                        high > 0,
                ;
            }
            (sig >> down) as u8
        }
    }

    /// A positive number whose exponent field is below that of one is less
    /// than one.
    proof fn lemma_below_one(self)
        requires
            self.exponent() < 127,
        ensures
            self.scaled() < pow2(149),
    {
        let e = self.exponent();
        let f = self.fraction();
        lemma2_to64();
        if e == 0 {
            lemma_pow2_strictly_increases(23, 149);
        } else {
            let low = pow2((e - 1) as nat);
            lemma_pow2_pos((e - 1) as nat);
            lemma_pow2_adds(24, (e - 1) as nat);
            if e + 23 < 149 {
                lemma_pow2_strictly_increases(e + 23, 149);
            }
            assert((0x80_0000 + f) * low < 0x100_0000 * low) by (nonlinear_arith)
                requires
                    f < 0x80_0000,
                    low > 0,
            ;
        }
    }

    /// A number whose exponent field is eight or more above that of one is
    /// at least 256.
    proof fn lemma_above_bytes(self)
        requires
            self.exponent() > 134,
        ensures
            self.scaled() / pow2(149) >= 255,
    {
        let e = self.exponent();
        let f = self.fraction();
        let low = pow2((e - 1) as nat);
        let unit = pow2(149) as int;
        lemma2_to64();
        lemma_pow2_pos(149);
        lemma_pow2_pos((e - 1) as nat);
        lemma_pow2_adds(23, (e - 1) as nat);
        lemma_pow2_adds(8, 149);
        if e + 22 > 157 {
            lemma_pow2_strictly_increases(157, e + 22);
        }
        assert((0x80_0000 + f) * low >= 0x80_0000 * low) by (nonlinear_arith)
            requires
                f >= 0,
                low > 0,
        ;
        assert(self.scaled() >= 256 * unit);
        lemma_div_is_ordered(256 * unit, self.scaled() as int, unit);
        assert((256 * unit) / unit == 256) by (nonlinear_arith)
            requires
                unit > 0,
        ;
    }

    /// The greater bit pattern, signs aside, encodes the greater size, and
    /// equal patterns encode equal sizes.
    proof fn lemma_scaled_order(self, other: Scalar)
        ensures
            self.magnitude() < other.magnitude() <==> self.scaled() < other.scaled(),
            self.magnitude() == other.magnitude() <==> self.scaled() == other.scaled(),
    {
        if self.magnitude() < other.magnitude() {
            self.lemma_scaled_grows(other);
        } else if other.magnitude() < self.magnitude() {
            other.lemma_scaled_grows(self);
        }
    }

    proof fn lemma_scaled_grows(self, other: Scalar)
        requires
            self.magnitude() < other.magnitude(),
        ensures
            self.scaled() < other.scaled(),
    {
        let e1 = self.exponent();
        let f1 = self.fraction();
        let e2 = other.exponent();
        let f2 = other.fraction();
        assert(e1 <= e2);
        if e2 > 0 {
            let step2 = pow2((e2 - 1) as nat);
            lemma_pow2_pos((e2 - 1) as nat);
            if e1 == 0 {
                assert((0x80_0000 + f2) * step2 >= 0x80_0000) by (nonlinear_arith)
                    requires
                        f2 >= 0,
                        step2 >= 1,
                ;
            } else if e1 == e2 {
                assert((0x80_0000 + f1) * step2 < (0x80_0000 + f2) * step2) by (nonlinear_arith)
                    requires
                        f1 < f2,
                        step2 > 0,
                ;
            } else {
                let step1 = pow2((e1 - 1) as nat);
                lemma_pow2_pos((e1 - 1) as nat);
                lemma_pow2_unfold(e1);
                if e1 < e2 - 1 {
                    lemma_pow2_strictly_increases(e1, (e2 - 1) as nat);
                }
                assert((0x80_0000 + f1) * step1 < (0x80_0000 + f2) * step2) by (nonlinear_arith)
                    requires
                        f1 < 0x80_0000,
                        f2 >= 0,
                        step1 > 0,
                        2 * step1 <= step2,
                ;
            }
        }
    }

    /// The order of the bit patterns, read as sign and magnitude, is the
    /// order of the numbers they encode. The two zeros are equal, and the
    /// infinities lie beyond all else.
    pub proof fn lemma_rank_is_order(self, other: Scalar)
        ensures
            self.units() < other.units() <==> self.rank() < other.rank(),
            self.units() == other.units() <==> self.rank() == other.rank(),
    {
        self.lemma_scaled_order(other);
        let zero = Scalar { bits: 0 };
        self.lemma_scaled_order(zero);
        other.lemma_scaled_order(zero);
        assert(zero.scaled() == 0);
    }

    /// Cutting down to a byte keeps the order: the greater number never
    /// gives the smaller byte.
    pub proof fn lemma_byte_keeps_order(self, other: Scalar)
        requires
            self.le_spec(other),
        ensures
            self.byte_spec() <= other.byte_spec(),
    {
        lemma_pow2_pos(149);
        if !self.negative() {
            lemma_div_is_ordered(self.scaled() as int, other.scaled() as int, pow2(149) as int);
        }
    }

    /// No number is less than itself, and the order is transitive.
    pub proof fn lemma_order_is_strict(self, middle: Scalar, other: Scalar)
        ensures
            !self.lt_spec(self),
            self.lt_spec(middle) && middle.lt_spec(other) ==> self.lt_spec(other),
            self.lt_spec(other) ==> !other.lt_spec(self),
            self.le_spec(other) <==> self.lt_spec(other) || (!self.is_nan_spec()
                && !other.is_nan_spec() && self.units() == other.units()),
    {
    }
}

} // verus!
