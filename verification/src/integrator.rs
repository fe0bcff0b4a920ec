//! What becomes of a ray at one step of its walk through the scene.
//!
//! The colour along a ray is found by a walk: the ray is tried against the
//! scene, the surface it strikes first sends it on in a new direction, and
//! the colours met on the way are multiplied up. The arithmetic of that walk
//! is the caller's; here it is decided, at each step, whether the walk goes
//! on and with which hit.
use vstd::prelude::*;
use crate::math::scalar::{Scalar, INFINITY};
use crate::math::shapes::{nearest, HitRecord, HittableList};

verus! {

/// The pattern of the double nearest to a thousandth: hits closer than this
/// to a ray's origin are not counted, so that a ray which leaves a surface
/// is not caught by that surface again.
pub const T_MIN: u64 = 0x3F50_624D_D2F1_A9FC;

/// What a ray meets at one step.
#[derive(Clone, Copy, Debug)]
pub enum Trace {
    /// No depth is left: the walk ends in black.
    Exhausted,
    /// The ray leaves the scene: the walk ends in the colour of the sky.
    Background,
    /// The ray strikes a surface, which may send it on; the ray that it sends
    /// on has `depth` steps left.
    Surface { rec: HitRecord, depth: i32 },
}

/// One step of the walk with `depth` steps left: at depth 0 the walk is
/// exhausted; at any other depth the ray meets the nearest hit of `world`
/// beyond a thousandth of its direction, which leaves one step less, or the
/// background where there is no such hit.
pub fn ray_color(world: &HittableList, depth: i32) -> (trace: Trace)
    requires
        world.wf(),
        depth >= 0,
    ensures
        trace is Exhausted <==> depth == 0,
        trace is Background ==> nearest(world@, Scalar::of(T_MIN), Scalar::of(INFINITY), None),
        trace matches Trace::Surface { rec, depth: rest } ==> rest == depth - 1 && nearest(
            world@,
            Scalar::of(T_MIN),
            Scalar::of(INFINITY),
            Some(rec),
        ),
{
    if depth == 0 {
        return Trace::Exhausted;
    }
    match world.hit(Scalar::from_bits(T_MIN), Scalar::from_bits(INFINITY)) {
        Some(rec) => Trace::Surface { rec, depth: depth - 1 },
        None => Trace::Background,
    }
}

} // verus!
