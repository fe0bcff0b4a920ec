//! Spheres as one ray meets them, and the nearest of their hits.
//!
//! A ray `origin + t * direction` meets a sphere where the quadratic
//! `a t^2 + 2 half_b t + c = 0` has a root. The caller solves the quadratic
//! in doubles and hands over what it found; whether that makes a hit, at
//! which root, facing which way, and which of many hits is the nearest, is
//! decided here.
use vstd::prelude::*;
use crate::math::scalar::{Scalar, ZERO};
use crate::math::vec::Vec3;

verus! {

/// What is known of a ray where it passes through a surface: the parameter,
/// the point, the surface normal that points away from the centre (for a
/// sphere of negative radius, towards it), and the product of the ray's
/// direction with that normal.
#[derive(Clone, Copy, Debug)]
pub struct Crossing {
    pub t: Scalar,
    pub p: Vec3,
    pub outward_normal: Vec3,
    pub facing: Scalar,
}

/// A hit: where, with the normal turned against the ray, whether the ray
/// came from outside, and the handle of the material that was struck.
#[derive(Clone, Copy, Debug)]
pub struct HitRecord {
    pub t: Scalar,
    pub p: Vec3,
    pub normal: Vec3,
    pub front_face: bool,
    pub mat: usize,
}

/// A sphere as one ray meets it: the discriminant `half_b^2 - a c` of the
/// quadratic, the crossings at `(-half_b - sqrt(discriminant)) / a` and at
/// `(-half_b + sqrt(discriminant)) / a`, and the handle of its material.
#[derive(Clone, Copy, Debug)]
pub struct Sphere {
    pub discriminant: Scalar,
    pub near: Crossing,
    pub far: Crossing,
    pub material: usize,
}

/// The spheres of a scene as one ray meets them, in the order in which they
/// were added. Each of them is `ordered`.
pub struct HittableList {
    objs: Vec<Sphere>,
}

impl HitRecord {
    /// The record that a front or back face gives: a ray that runs against
    /// the outward normal came from outside and keeps that normal, any other
    /// gets the normal turned round.
    pub open spec fn faced(self, facing: Scalar, outward_normal: Vec3) -> HitRecord {
        let front_face = facing.less(Scalar::of(ZERO));
        HitRecord {
            front_face,
            normal: if front_face {
                outward_normal
            } else {
                outward_normal.negated()
            },
            ..self
        }
    }

    /// The record before anything is known: zeros, a back face, material 0.
    pub open spec fn blank() -> HitRecord {
        HitRecord {
            t: Scalar::of(ZERO),
            p: Vec3::origin(),
            normal: Vec3::origin(),
            front_face: false,
            mat: 0,
        }
    }

    /// Turns the record to the side from which the ray came. `facing` is the
    /// product of the ray's direction with `outward_normal`.
    pub fn set_face_normal(&mut self, facing: Scalar, outward_normal: &Vec3)
        ensures
            *final(self) == old(self).faced(facing, *outward_normal),
    {
        self.front_face = facing.lt(Scalar::from_bits(ZERO));
        self.normal = if self.front_face {
            *outward_normal
        } else {
            outward_normal.neg()
        };
    }

    /// The record before anything is known.
    pub fn new() -> (rec: HitRecord)
        ensures
            rec == HitRecord::blank(),
    {
        HitRecord {
            t: Scalar::from_bits(ZERO),
            p: Vec3::zero(),
            normal: Vec3::zero(),
            front_face: false,
            mat: 0,
        }
    }
}

impl Crossing {
    /// Whether the crossing lies strictly between the two bounds.
    pub open spec fn within(self, t_min: Scalar, t_max: Scalar) -> bool {
        self.t.less(t_max) && t_min.less(self.t)
    }

    /// The hit that this crossing makes on a surface of the given material.
    pub open spec fn record(self, mat: usize) -> HitRecord {
        HitRecord { t: self.t, p: self.p, mat, ..HitRecord::blank() }.faced(
            self.facing,
            self.outward_normal,
        )
    }
}

impl Sphere {
    /// The near crossing is not beyond the far one. The two roots of a
    /// quadratic meet this as they are computed, whatever the ray.
    pub open spec fn ordered(self) -> bool {
        !self.far.t.less(self.near.t)
    }

    /// The hit within `(t_min, t_max)`: none unless the discriminant is
    /// above zero, so a ray that only touches the sphere misses it; else the
    /// near crossing if it lies within the bounds, else the far one if that
    /// does.
    pub open spec fn spec_hit(self, t_min: Scalar, t_max: Scalar) -> Option<HitRecord> {
        if !Scalar::of(ZERO).less(self.discriminant) {
            None
        } else if self.near.within(t_min, t_max) {
            Some(self.near.record(self.material))
        } else if self.far.within(t_min, t_max) {
            Some(self.far.record(self.material))
        } else {
            None
        }
    }

    fn record(&self, crossing: &Crossing) -> (rec: HitRecord)
        ensures
            rec == crossing.record(self.material),
    {
        let mut rec = HitRecord::new();
        rec.t = crossing.t;
        rec.p = crossing.p;
        rec.mat = self.material;
        rec.set_face_normal(crossing.facing, &crossing.outward_normal);
        rec
    }

    /// The hit of the ray on this sphere within `(t_min, t_max)`.
    pub fn hit(&self, t_min: Scalar, t_max: Scalar) -> (found: Option<HitRecord>)
        ensures
            found == self.spec_hit(t_min, t_max),
    {
        if self.discriminant.gt(Scalar::from_bits(ZERO)) {
            if self.near.t.lt(t_max) && self.near.t.gt(t_min) {
                return Some(self.record(&self.near));
            }
            if self.far.t.lt(t_max) && self.far.t.gt(t_min) {
                return Some(self.record(&self.far));
            }
        }
        None
    }
}

/// Whether `found` is what a ray hits first among `objs` within
/// `(t_min, t_max)`: nothing if none of them is hit there; else the hit of
/// one of them, which none of the others undercuts, and which every sphere
/// added before that one strictly exceeds. Of two hits at one distance the
/// sphere that was added first has it.
pub open spec fn nearest(
    objs: Seq<Sphere>,
    t_min: Scalar,
    t_max: Scalar,
    found: Option<HitRecord>,
) -> bool {
    match found {
        None => forall|i: int|
            0 <= i < objs.len() ==> (#[trigger] objs[i]).spec_hit(t_min, t_max) is None,
        Some(rec) => exists|k: int| #[trigger] first_nearest(objs, t_min, t_max, rec, k),
    }
}

/// Whether `rec` is the hit of the sphere at place `k`, no hit of any sphere
/// lies before it along the ray, and every hit of a sphere at an earlier
/// place lies strictly after it.
pub open spec fn first_nearest(
    objs: Seq<Sphere>,
    t_min: Scalar,
    t_max: Scalar,
    rec: HitRecord,
    k: int,
) -> bool {
    &&& 0 <= k < objs.len()
    &&& objs[k].spec_hit(t_min, t_max) == Some(rec)
    &&& forall|i: int|
        0 <= i < objs.len() ==> ((#[trigger] objs[i]).spec_hit(t_min, t_max) matches Some(other)
            ==> !other.t.less(rec.t))
    &&& forall|i: int|
        0 <= i < k ==> ((#[trigger] objs[i]).spec_hit(t_min, t_max) matches Some(other)
            ==> rec.t.less(other.t))
}

impl View for HittableList {
    type V = Seq<Sphere>;

    closed spec fn view(&self) -> Seq<Sphere> {
        self.objs@
    }
}

impl HittableList {
    /// Every sphere of the list is `ordered`.
    pub open spec fn wf(&self) -> bool {
        forall|i: int| 0 <= i < self@.len() ==> (#[trigger] self@[i]).ordered()
    }

    /// Adds a sphere behind those that are there.
    pub fn add(&mut self, object: Sphere)
        requires
            old(self).wf(),
            object.ordered(),
        ensures
            final(self).wf(),
            final(self)@ == old(self)@.push(object),
    {
        self.objs.push(object);
    }

    /// The empty scene.
    pub fn new() -> (list: HittableList)
        ensures
            list.wf(),
            list@ == Seq::<Sphere>::empty(),
    {
        HittableList { objs: Vec::new() }
    }

    /// The nearest hit within `(t_min, t_max)`. The spheres are tried in
    /// order, each against the bounds that the hits before it have left, so
    /// that a later sphere replaces the record only where it is hit strictly
    /// sooner.
    pub fn hit(&self, t_min: Scalar, t_max: Scalar) -> (found: Option<HitRecord>)
        requires
            self.wf(),
        ensures
            nearest(self@, t_min, t_max, found),
    {
        let mut found: Option<HitRecord> = None;
        let mut closest = t_max;
        let ghost mut place: int = 0;
        let mut i: usize = 0;
        while i < self.objs.len()
            invariant
                i <= self.objs.len(),
                self.wf(),
                self@ == self.objs@,
                found is None ==> closest == t_max,
                found matches Some(rec) ==> closest == rec.t && rec.t.less(t_max) && first_nearest(
                    self@.take(i as int),
                    t_min,
                    t_max,
                    rec,
                    place,
                ),
                nearest(self@.take(i as int), t_min, t_max, found),
            decreases self.objs.len() - i,
        {
            let ghost before = self@.take(i as int);
            let ghost after = self@.take(i + 1);
            let object = &self.objs[i];
            proof {
                assert(self@[i as int].ordered());
                lemma_narrowed(*object, t_min, t_max, closest);
                assert forall|j: int| 0 <= j < i implies #[trigger] after[j] == before[j] by {}
                assert(after[i as int] == *object);
            }
            match object.hit(t_min, closest) {
                Some(rec) => {
                    proof {
                        place = i as int;
                        assert(first_nearest(after, t_min, t_max, rec, place));
                    }
                    closest = rec.t;
                    found = Some(rec);
                },
                None => {
                    proof {
                        if let Some(rec) = found {
                            assert(after[place] == before[place]);
                            assert(first_nearest(after, t_min, t_max, rec, place));
                        }
                    }
                },
            }
            i += 1;
        }
        proof {
            assert(self@.take(i as int) == self@);
        }
        found
    }
}

/// The hit, if it lies strictly before `closest`.
pub open spec fn sooner(found: Option<HitRecord>, closest: Scalar) -> Option<HitRecord> {
    match found {
        Some(rec) => if rec.t.less(closest) {
            Some(rec)
        } else {
            None
        },
        None => None,
    }
}

/// Lowering the upper bound to `closest` takes hits away and changes none:
/// an ordered sphere is hit within `(t_min, closest)` where it is hit within
/// `(t_min, t_max)` strictly before `closest`, and with the same record.
pub proof fn lemma_narrowed(object: Sphere, t_min: Scalar, t_max: Scalar, closest: Scalar)
    requires
        object.ordered(),
        closest == t_max || closest.less(t_max),
    ensures
        object.spec_hit(t_min, closest) == sooner(object.spec_hit(t_min, t_max), closest),
{
}

/// The normal of a hit is turned against the ray. On a front face the record
/// keeps the outward normal, and the product of the ray's direction with it,
/// which is `facing`, is not above zero; on a back face the record has the
/// outward normal turned round, and the product with that, which is the
/// opposite of `facing`, is not above zero either.
pub proof fn lemma_normal_opposes_ray(rec: HitRecord, facing: Scalar, outward_normal: Vec3)
    ensures
        rec.faced(facing, outward_normal).front_face ==> rec.faced(facing, outward_normal).normal
            == outward_normal && !Scalar::of(ZERO).less(facing),
        !rec.faced(facing, outward_normal).front_face ==> rec.faced(
            facing,
            outward_normal,
        ).normal == outward_normal.negated() && !Scalar::of(ZERO).less(facing.negated()),
{
}

/// A hit lies strictly within the bounds it was asked for, at a parameter
/// that is a number.
pub proof fn lemma_hit_within(object: Sphere, t_min: Scalar, t_max: Scalar)
    ensures
        object.spec_hit(t_min, t_max) matches Some(rec) ==> t_min.less(rec.t) && rec.t.less(t_max)
            && rec.t.is_number(),
{
}

/// The nearest hit is determined: two answers that are both `nearest` are one
/// answer.
pub proof fn lemma_nearest_unique(
    objs: Seq<Sphere>,
    t_min: Scalar,
    t_max: Scalar,
    one: Option<HitRecord>,
    other: Option<HitRecord>,
)
    requires
        nearest(objs, t_min, t_max, one),
        nearest(objs, t_min, t_max, other),
    ensures
        one == other,
{
    match (one, other) {
        (Some(a), Some(b)) => {
            let i = choose|i: int| first_nearest(objs, t_min, t_max, a, i);
            let j = choose|j: int| first_nearest(objs, t_min, t_max, b, j);
            assert(objs[i].spec_hit(t_min, t_max) == Some(a));
            assert(objs[j].spec_hit(t_min, t_max) == Some(b));
        },
        (Some(a), None) => {
            let i = choose|i: int| first_nearest(objs, t_min, t_max, a, i);
            assert(objs[i].spec_hit(t_min, t_max) == Some(a));
        },
        (None, Some(b)) => {
            let j = choose|j: int| first_nearest(objs, t_min, t_max, b, j);
            assert(objs[j].spec_hit(t_min, t_max) == Some(b));
        },
        (None, None) => {},
    }
}

/// Of two spheres that one ray hits at different distances, the scene's hit
/// is the one with the strictly smaller parameter, whichever was added first.
pub proof fn lemma_nearer_of_two(
    first: Sphere,
    second: Sphere,
    t_min: Scalar,
    t_max: Scalar,
    found: Option<HitRecord>,
)
    requires
        first.spec_hit(t_min, t_max) is Some,
        second.spec_hit(t_min, t_max) is Some,
        nearest(seq![first, second], t_min, t_max, found),
    ensures
        first.spec_hit(t_min, t_max)->0.t.less(second.spec_hit(t_min, t_max)->0.t) ==> found
            == first.spec_hit(t_min, t_max),
        second.spec_hit(t_min, t_max)->0.t.less(first.spec_hit(t_min, t_max)->0.t) ==> found
            == second.spec_hit(t_min, t_max),
{
    let objs = seq![first, second];
    assert(objs[0] == first && objs[1] == second);
    match found {
        Some(rec) => {
            let k = choose|k: int| first_nearest(objs, t_min, t_max, rec, k);
            assert(objs[k].spec_hit(t_min, t_max) == Some(rec));
        },
        None => {},
    }
}

/// The order in which the spheres were added does not change how far the
/// nearest hit lies: two lists of the same spheres find a hit together or
/// not at all, and at parameters of one rank.
pub proof fn lemma_order_irrelevant(
    objs: Seq<Sphere>,
    shuffled: Seq<Sphere>,
    t_min: Scalar,
    t_max: Scalar,
    found: Option<HitRecord>,
    other: Option<HitRecord>,
)
    requires
        objs.to_multiset() == shuffled.to_multiset(),
        nearest(objs, t_min, t_max, found),
        nearest(shuffled, t_min, t_max, other),
    ensures
        found is Some <==> other is Some,
        found matches Some(a) ==> (other matches Some(b) ==> a.t.rank() == b.t.rank()),
{
    broadcast use vstd::seq_lib::group_to_multiset_ensures;

    assert forall|i: int| 0 <= i < objs.len() implies shuffled.contains(#[trigger] objs[i]) by {
        assert(objs.to_multiset().count(objs[i]) > 0);
    }
    assert forall|j: int| 0 <= j < shuffled.len() implies objs.contains(
        #[trigger] shuffled[j],
    ) by {
        assert(shuffled.to_multiset().count(shuffled[j]) > 0);
    }
    if let Some(a) = found {
        let i = choose|i: int| first_nearest(objs, t_min, t_max, a, i);
        let j = choose|j: int| 0 <= j < shuffled.len() && shuffled[j] == objs[i];
        assert(shuffled[j].spec_hit(t_min, t_max) == Some(a));
    }
    if let Some(b) = other {
        let j = choose|j: int| first_nearest(shuffled, t_min, t_max, b, j);
        let i = choose|i: int| 0 <= i < objs.len() && objs[i] == shuffled[j];
        assert(objs[i].spec_hit(t_min, t_max) == Some(b));
    }
}

} // verus!
