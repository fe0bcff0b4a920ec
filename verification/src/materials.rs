//! What a surface does with the light that strikes it.
//!
//! There are three kinds of surface. Each answers a ray with the colour by
//! which it dims the light and with the way the ray goes on, or swallows it.
//! The new direction is the caller's arithmetic; the answers are given here.
use vstd::prelude::*;
use crate::math::scalar::{Scalar, ONE, ZERO};
use crate::math::vec::Vec3;

verus! {

/// The pattern of 0.7.
pub const SEVEN_TENTHS: u64 = 0x3FE6_6666_6666_6666;

/// The pattern of 0.3.
pub const THREE_TENTHS: u64 = 0x3FD3_3333_3333_3333;

/// The pattern of 0.5.
pub const HALF: u64 = 0x3FE0_0000_0000_0000;

/// A matt surface, which scatters every ray.
#[derive(Clone, Copy, Debug)]
pub struct Lambertian {
    pub albedo: Vec3,
}

/// A mirror, the rougher the larger its `fuzz`, which is never above one.
#[derive(Clone, Copy, Debug)]
pub struct Metal {
    pub albedo: Vec3,
    pub fuzz: Scalar,
}

/// Clear glass.
#[derive(Clone, Copy, Debug)]
pub struct Dielectric {
    pub ref_idx: Scalar,
}

/// The kinds of surface.
#[derive(Clone, Copy, Debug)]
pub enum Material {
    Lambertian(Lambertian),
    Metal(Metal),
    Dielectric(Dielectric),
}

/// The way a ray leaves glass.
#[derive(Clone, Copy, Debug, PartialEq, Eq, Structural)]
pub enum Bend {
    Reflected,
    Refracted,
}

impl Lambertian {
    /// A matt surface of the colour (0.7, 0.3, 0.5).
    pub fn new() -> (m: Lambertian)
        ensures
            m.albedo == Vec3(
                Scalar::of(SEVEN_TENTHS),
                Scalar::of(THREE_TENTHS),
                Scalar::of(HALF),
            ),
    {
        Lambertian {
            albedo: Vec3(
                Scalar::from_bits(SEVEN_TENTHS),
                Scalar::from_bits(THREE_TENTHS),
                Scalar::from_bits(HALF),
            ),
        }
    }

    /// A matt surface swallows no ray, and dims each by its albedo.
    pub fn scatter(&self) -> (attenuation: Option<Vec3>)
        ensures
            attenuation == Some(self.albedo),
    {
        Some(self.albedo)
    }
}

/// `x` where that is below one, else one: the smaller of the two, and one
/// where `x` is not a number.
pub open spec fn capped(x: Scalar) -> Scalar {
    if x.less(Scalar::of(ONE)) {
        x
    } else {
        Scalar::of(ONE)
    }
}

/// `x` where that is below one, else one.
fn cap(x: Scalar) -> (r: Scalar)
    ensures
        r == capped(x),
{
    if x.lt(Scalar::from_bits(ONE)) {
        x
    } else {
        Scalar::from_bits(ONE)
    }
}

impl Metal {
    /// What a mirror answers: it swallows the ray whose new direction does
    /// not leave the surface, and dims any other by its albedo. `facing` is
    /// the product of the new direction with the normal of the hit.
    pub open spec fn answer(self, facing: Scalar) -> Option<Vec3> {
        if Scalar::of(ZERO).less(facing) {
            Some(self.albedo)
        } else {
            None
        }
    }

    /// A mirror of the given colour, with the fuzz asked for or, where that
    /// is not below one, with fuzz one.
    pub fn new(albedo: Vec3, fuzz: Scalar) -> (m: Metal)
        ensures
            m.albedo == albedo,
            m.fuzz == capped(fuzz),
    {
        Metal { albedo, fuzz: cap(fuzz) }
    }

    /// The colour by which the mirror dims the ray, or nothing where it
    /// swallows it.
    pub fn scatter(&self, facing: Scalar) -> (attenuation: Option<Vec3>)
        ensures
            attenuation == self.answer(facing),
    {
        if facing.gt(Scalar::from_bits(ZERO)) {
            Some(self.albedo)
        } else {
            None
        }
    }
}

impl Dielectric {
    /// The ratio of the refractive index on the side the ray comes from to
    /// the one on the side it goes to: a ray that strikes a front face comes
    /// from outside and meets `reciprocal`, which is one over the index of
    /// the glass; a ray that strikes a back face leaves the glass and meets
    /// the index itself.
    pub open spec fn spec_ratio(self, front_face: bool, reciprocal: Scalar) -> Scalar {
        if front_face {
            reciprocal
        } else {
            self.ref_idx
        }
    }

    /// Whether the ray cannot enter the other medium at all. `grazing` is the
    /// sine of the angle of incidence times the ratio of the two refractive
    /// indices; Snell's law has no answer where it is above one.
    pub open spec fn total_reflection(grazing: Scalar) -> bool {
        Scalar::of(ONE).less(grazing)
    }

    /// The way the ray goes on: reflected where it must be, else reflected
    /// with the probability `reflectance`, which is to say where `coin`,
    /// drawn evenly from between nought and one, falls below it; else
    /// refracted.
    pub open spec fn bend(grazing: Scalar, reflectance: Scalar, coin: Scalar) -> Bend {
        if Dielectric::total_reflection(grazing) || coin.less(reflectance) {
            Bend::Reflected
        } else {
            Bend::Refracted
        }
    }

    /// The colour by which glass dims the light: none at all.
    pub open spec fn clear() -> Vec3 {
        Vec3(Scalar::of(ONE), Scalar::of(ONE), Scalar::of(ONE))
    }

    /// What glass answers before any coin is drawn: a reflection where the
    /// ray cannot enter the other medium, and nothing yet where it can.
    pub open spec fn forced(grazing: Scalar) -> Option<(Vec3, Bend)> {
        if Dielectric::total_reflection(grazing) {
            Some((Dielectric::clear(), Bend::Reflected))
        } else {
            None
        }
    }

    /// Glass of the given refractive index.
    pub fn new(ref_idx: Scalar) -> (m: Dielectric)
        ensures
            m.ref_idx == ref_idx,
    {
        Dielectric { ref_idx }
    }

    /// The ratio of the two refractive indices at a hit.
    pub fn ratio(&self, front_face: bool, reciprocal: Scalar) -> (r: Scalar)
        ensures
            r == self.spec_ratio(front_face, reciprocal),
    {
        if front_face {
            reciprocal
        } else {
            self.ref_idx
        }
    }

    /// The cosine of the angle of incidence: the product of the ray's unit
    /// direction, turned round, with the normal, held at one where rounding
    /// has carried it beyond.
    pub fn cosine(&self, against: Scalar) -> (r: Scalar)
        ensures
            r == capped(against),
    {
        cap(against)
    }

    /// The answer of glass where it needs no coin: the ray that cannot enter
    /// the other medium is reflected, undimmed. For any other ray there is
    /// no answer until a coin is drawn.
    pub fn reflects_totally(&self, grazing: Scalar) -> (answer: Option<(Vec3, Bend)>)
        ensures
            answer == Dielectric::forced(grazing),
    {
        if grazing.gt(Scalar::from_bits(ONE)) {
            Some((self.attenuation(), Bend::Reflected))
        } else {
            None
        }
    }

    /// The answer of glass, which swallows no ray and dims none: the colour
    /// of clear light, and the way the ray goes on.
    pub fn scatter(&self, grazing: Scalar, reflectance: Scalar, coin: Scalar) -> (answer: (
        Vec3,
        Bend,
    ))
        ensures
            answer.0 == Dielectric::clear(),
            answer.1 == Dielectric::bend(grazing, reflectance, coin),
    {
        match self.reflects_totally(grazing) {
            Some(answer) => answer,
            None => if coin.lt(reflectance) {
                (self.attenuation(), Bend::Reflected)
            } else {
                (self.attenuation(), Bend::Refracted)
            },
        }
    }

    fn attenuation(&self) -> (clear: Vec3)
        ensures
            clear == Dielectric::clear(),
    {
        Vec3(Scalar::from_bits(ONE), Scalar::from_bits(ONE), Scalar::from_bits(ONE))
    }
}

/// What is capped is a number that is at most one, whatever it was before:
/// so is a mirror's fuzz, and so is the cosine that glass reckons with.
pub proof fn lemma_capped(x: Scalar)
    ensures
        capped(x).at_most(Scalar::of(ONE)),
        x.at_most(Scalar::of(ONE)) ==> capped(x).rank() == x.rank(),
{
}

/// A ray that strikes glass head-on is never reflected for want of an answer
/// from Snell's law: where the sine of the angle of incidence is zero, so is
/// its product with any finite ratio, and a zero is not above one.
pub proof fn lemma_head_on_enters(grazing: Scalar, reflectance: Scalar, coin: Scalar)
    requires
        grazing.rank() == 0,
    ensures
        !Dielectric::total_reflection(grazing),
        Dielectric::forced(grazing) is None,
        Dielectric::bend(grazing, reflectance, coin) == Bend::Reflected <==> coin.less(
            reflectance,
        ),
{
}

} // verus!
