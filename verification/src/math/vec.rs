//! Triples of doubles, and what is decided of a colour.
use vstd::arithmetic::div_mod::lemma_div_multiples_vanish_quotient;
use vstd::arithmetic::power2::{lemma2_to64, lemma2_to64_rest, lemma_pow2_adds, lemma_pow2_pos, lemma_pow2_strictly_increases, pow2};
use vstd::bits::lemma_u64_shr_is_div;
use vstd::prelude::*;
use crate::math::scalar::{Scalar, HIDDEN, ONE, SIGN, ZERO};
use crate::ppm::{decimal, digits};

verus! {

/// The pattern of 0.999, the brightest that a channel is written.
pub const BRIGHTEST: u64 = 0x3FEF_F7CE_D916_872B;

/// Three doubles: a point, a direction or a colour.
#[derive(Clone, Copy, Debug)]
pub struct Vec3(pub Scalar, pub Scalar, pub Scalar);

/// `x` held between `min` and `max`: what is below `min` becomes `min`, what
/// is above `max` becomes `max`, and anything else, also what is not a
/// number, stays.
pub open spec fn clamped(x: Scalar, min: Scalar, max: Scalar) -> Scalar {
    if x.less(min) {
        min
    } else if max.less(x) {
        max
    } else {
        x
    }
}

/// The level at which a channel is written: the channel is held between
/// nought and 0.999, multiplied by 256 and cut off to a whole number. What is
/// not a number is written as 0. (The size of what is held is its value, as
/// nothing below zero is held, and a size counts in steps of 2^-1074.)
pub open spec fn level(channel: Scalar) -> int {
    let held = clamped(channel, Scalar::of(ZERO), Scalar::of(BRIGHTEST));
    if held.is_number() {
        held.size() * 256 / (pow2(1074) as int)
    } else {
        0
    }
}

/// Whether a point with this squared length lies inside the unit ball: a
/// sampler that looks for such a point draws again where it does not. Only a
/// squared length of one or more is turned down.
pub open spec fn inside(length_squared: Scalar) -> bool {
    !Scalar::of(ONE).at_most(length_squared)
}

/// `x` held between `min` and `max`.
pub fn clamp(x: Scalar, min: Scalar, max: Scalar) -> (r: Scalar)
    ensures
        r == clamped(x, min, max),
{
    if x.lt(min) {
        min
    } else if x.gt(max) {
        max
    } else {
        x
    }
}

/// Whether a sampler takes the point with this squared length.
pub fn inside_unit_ball(length_squared: Scalar) -> (r: bool)
    ensures
        r == inside(length_squared),
{
    !length_squared.ge(Scalar::from_bits(ONE))
}

/// The level of a channel.
pub fn quantize(channel: Scalar) -> (n: u8)
    ensures
        n == level(channel),
{
    let held = clamp(channel, Scalar::from_bits(ZERO), Scalar::from_bits(BRIGHTEST));
    if held.is_nan() {
        return 0;
    }
    let magnitude: u64 = if held.bits >= SIGN {
        held.bits - SIGN
    } else {
        held.bits
    };
    let exponent: u64 = magnitude / HIDDEN;
    let fraction: u64 = magnitude % HIDDEN;
    proof {
        lemma_level_of_parts(exponent as int, fraction as int);
    }
    if exponent < 1015 {
        0
    } else {
        let shift: u64 = 1067 - exponent;
        let whole: u64 = (HIDDEN + fraction) >> shift;
        proof {
            lemma_u64_shr_is_div((HIDDEN + fraction) as u64, shift);
        }
        whole as u8
    }
}

/// What `level` comes to for a number below one, by the exponent and the
/// fraction of its pattern: the fraction with its hidden bit, cut off at the
/// binary point. Below exponent 1015, which is to say below 2^-8, that is 0.
proof fn lemma_level_of_parts(exponent: int, fraction: int)
    requires
        0 <= exponent <= 1022,
        0 <= fraction < HIDDEN,
    ensures
        exponent == 0 ==> fraction * 256 / (pow2(1074) as int) == 0,
        exponent > 0 ==> (HIDDEN + fraction) * pow2((exponent - 1) as nat) * 256 / (pow2(
            1074,
        ) as int) == (HIDDEN + fraction) / (pow2((1067 - exponent) as nat) as int),
        0 < exponent < 1015 ==> (HIDDEN + fraction) / (pow2((1067 - exponent) as nat) as int) == 0,
        exponent >= 1015 ==> 0 <= (HIDDEN + fraction) / (pow2((1067 - exponent) as nat) as int)
            < 256,
{
    lemma2_to64();
    lemma2_to64_rest();
    let h = HIDDEN as int;
    assert(pow2(52) == h);
    if exponent == 0 {
        lemma_pow2_strictly_increases(60, 1074);
        let whole = pow2(1074) as int;
        assert(fraction * 256 / whole == 0) by (nonlinear_arith)
            requires
                0 <= fraction * 256 < whole,
        ;
    } else {
        let up = pow2((exponent + 7) as nat) as int;
        let down = pow2((1067 - exponent) as nat) as int;
        let step = pow2((exponent - 1) as nat) as int;
        lemma_pow2_pos((exponent + 7) as nat);
        lemma_pow2_pos((1067 - exponent) as nat);
        assert(step * 256 == up) by {
            lemma_pow2_adds((exponent - 1) as nat, 8);
        }
        assert(up * down == pow2(1074)) by {
            lemma_pow2_adds((exponent + 7) as nat, (1067 - exponent) as nat);
        }
        assert((h + fraction) * step * 256 == up * (h + fraction)) by (nonlinear_arith)
            requires
                step * 256 == up,
        ;
        lemma_div_multiples_vanish_quotient(up, h + fraction, down);
        if exponent < 1015 {
            assert(h + fraction < down) by {
                if exponent < 1014 {
                    lemma_pow2_strictly_increases(53, (1067 - exponent) as nat);
                }
            }
            assert((h + fraction) / down == 0) by (nonlinear_arith)
                requires
                    0 <= h + fraction < down,
            ;
        } else {
            assert(h + fraction < 256 * down) by {
                assert(pow2(45) <= down) by {
                    if exponent < 1022 {
                        lemma_pow2_strictly_increases(45, (1067 - exponent) as nat);
                    }
                }
            }
            assert((h + fraction) / down < 256) by (nonlinear_arith)
                requires
                    0 <= h + fraction < 256 * down,
                    down > 0,
            ;
            assert(0 <= (h + fraction) / down) by (nonlinear_arith)
                requires
                    0 <= h + fraction,
                    down > 0,
            ;
        }
    }
}

/// What is held between two bounds lies between them: where `min` is at most
/// `max`, a number is clamped to a number from `min` to `max`. What is not a
/// number is left as it is.
pub proof fn lemma_clamped_between(x: Scalar, min: Scalar, max: Scalar)
    ensures
        x.is_number() && min.at_most(max) ==> min.at_most(clamped(x, min, max)) && clamped(
            x,
            min,
            max,
        ).at_most(max),
        !x.is_number() ==> clamped(x, min, max) == x,
{
}

/// A level is a whole number from 0 to 255, whatever the channel holds: it
/// is 0 for every channel that is nought or less, or not a number, and 255
/// for every channel from 0.999 up, one and infinity among them.
pub proof fn lemma_level_bounds(channel: Scalar)
    ensures
        0 <= level(channel) <= 255,
        !channel.is_number() || channel.at_most(Scalar::of(ZERO)) ==> level(channel) == 0,
        Scalar::of(BRIGHTEST).at_most(channel) ==> level(channel) == 255,
{
    let held = clamped(channel, Scalar::of(ZERO), Scalar::of(BRIGHTEST));
    if held.is_number() {
        assert(0 <= held.magnitude() <= BRIGHTEST);
        lemma_level_of_parts(held.exponent(), held.fraction());
        if Scalar::of(BRIGHTEST).at_most(channel) {
            assert(held.bits == BRIGHTEST);
            assert(held.exponent() == 1022);
            assert(held.fraction() == 0xF_F7CE_D916_872B);
            lemma2_to64_rest();
            assert(pow2(45) == 0x2000_0000_0000);
            assert(0x1F_F7CE_D916_872Bint / 0x2000_0000_0000int == 255);
        }
    }
}

impl Vec3 {
    /// The vector that points the other way.
    pub open spec fn negated(self) -> Vec3 {
        Vec3(self.0.negated(), self.1.negated(), self.2.negated())
    }

    /// The vector of three zeros.
    pub open spec fn origin() -> Vec3 {
        Vec3(Scalar::of(ZERO), Scalar::of(ZERO), Scalar::of(ZERO))
    }

    /// The line of the file that holds this colour: the levels of red, green
    /// and blue in decimal, a blank between them and a line feed after them.
    pub open spec fn line(self) -> Seq<u8> {
        digits(level(self.0) as nat) + seq![32u8] + digits(level(self.1) as nat) + seq![32u8]
            + digits(level(self.2) as nat) + seq![10u8]
    }

    /// The vector of three zeros.
    pub fn zero() -> (v: Vec3)
        ensures
            v == Vec3::origin(),
    {
        Vec3(Scalar::from_bits(ZERO), Scalar::from_bits(ZERO), Scalar::from_bits(ZERO))
    }

    /// The vector that points the other way.
    pub fn neg(self) -> (v: Vec3)
        ensures
            v == self.negated(),
    {
        Vec3(self.0.neg(), self.1.neg(), self.2.neg())
    }

    /// The line of the file for a colour whose channels have been averaged
    /// over the samples and corrected for gamma.
    pub fn write_color(&self) -> (text: Vec<u8>)
        ensures
            text@ == self.line(),
    {
        let mut text = decimal(quantize(self.0) as u64);
        let mut green = decimal(quantize(self.1) as u64);
        let mut blue = decimal(quantize(self.2) as u64);
        text.push(32u8);
        text.append(&mut green);
        text.push(32u8);
        text.append(&mut blue);
        text.push(10u8);
        proof {
            assert(text@ =~= self.line());
        }
        text
    }
}

} // verus!
