//! What a material does with a ray, and the rules by which it decides.
//!
//! Directions, cosines and reflectances are the caller's arithmetic. What a
//! material does with them is a matter of a few comparisons, and those are
//! fixed here: when a metal absorbs, on which side of a dielectric surface a
//! ray travels, when it must reflect, that it passes all light on, and when a
//! sampled point is kept.

use vstd::prelude::*;
use crate::scalar::{Scalar, Value, ONE_BITS};

verus! {

/// What a material makes of a ray: it absorbs it, or scatters it.
///
/// `R` is the caller's ray and `C` its color; the attenuation is the share of
/// the light along the scattered ray that the surface passes on, by channel.
pub enum ScatterRecord<R, C> {
    Absorption,
    Scatter { scattered: R, attenuation: C },
}

/// A surface material: what it makes of a ray that hits it at a point with
/// the given normal.
///
/// The arithmetic is the implementor's; nothing is taken on trust about it
/// here.
pub trait Material {
    /// The implementor's ray.
    type Ray;

    /// The implementor's vector: points and normals.
    type Vector;

    /// The implementor's color.
    type Color;

    fn scatter(&self, ray: &Self::Ray, point: Self::Vector, normal: Self::Vector) -> ScatterRecord<
        Self::Ray,
        Self::Color,
    >;
}

/// A borrowed material is a material: it scatters as the material it
/// borrows.
impl<'a, M: Material + ?Sized> Material for &'a M {
    type Ray = M::Ray;

    type Vector = M::Vector;

    type Color = M::Color;

    fn scatter(&self, ray: &M::Ray, point: M::Vector, normal: M::Vector) -> (record: ScatterRecord<M::Ray, M::Color>)
        ensures
            call_ensures(M::scatter, (*self, ray, point, normal), record),
    {
        (*self).scatter(ray, point, normal)
    }
}

/// The side of a dielectric surface on which a ray arrives.
#[derive(Clone, Copy, Debug, PartialEq, Eq, Structural)]
pub enum Side {
    /// The ray travels against the surface normal, into the medium.
    Entering,
    /// The ray travels along the surface normal, out of the medium.
    Exiting,
}

/// The ray that a dielectric sends on.
#[derive(Clone, Copy, Debug, PartialEq, Eq, Structural)]
pub enum Branch {
    Reflect,
    Refract,
}

/// What a metal makes of a ray, given the dot product of the outgoing
/// direction with the surface normal: it scatters the ray into `scattered`
/// with the given attenuation only if the ray leaves on the outer side, that
/// is if the product is strictly positive. Otherwise the ray is absorbed, a
/// product of exactly zero included.
pub fn metal_scatter<R, C>(outgoing_dot_normal: Scalar, scattered: R, attenuation: C) -> (record: ScatterRecord<
    R,
    C,
>)
    ensures
        record == if outgoing_dot_normal@.gt(Value::zero()) {
            ScatterRecord::Scatter { scattered, attenuation }
        } else {
            ScatterRecord::Absorption
        },
{
    if outgoing_dot_normal.is_positive() {
        ScatterRecord::Scatter { scattered, attenuation }
    } else {
        ScatterRecord::Absorption
    }
}

/// The side on which a ray meets a dielectric, from the dot product of its
/// direction with the surface normal: exiting if the product is strictly
/// positive, entering otherwise.
pub fn side(direction_dot_normal: Scalar) -> (side: Side)
    ensures
        side == if direction_dot_normal@.gt(Value::zero()) {
            Side::Exiting
        } else {
            Side::Entering
        },
{
    if direction_dot_normal.is_positive() {
        Side::Exiting
    } else {
        Side::Entering
    }
}

/// Whether a dielectric reflects totally: if the discriminant of Snell's law,
/// `1 - ratio^2 * (1 - cosine^2)`, is negative, so that no refracted ray
/// exists.
pub fn reflects_totally(discriminant: Scalar) -> (total: bool)
    ensures
        total == discriminant@.lt(Value::zero()),
{
    discriminant.lt(Scalar::zero())
}

/// The ray that a dielectric sends on where refraction is possible, given its
/// reflectance at the angle of incidence and a uniform sample: the refracted
/// ray if the sample exceeds the reflectance, the reflected ray otherwise.
pub fn branch(sample: Scalar, reflectance: Scalar) -> (branch: Branch)
    ensures
        branch == if sample@.gt(reflectance@) {
            Branch::Refract
        } else {
            Branch::Reflect
        },
{
    if sample.gt(reflectance) {
        Branch::Refract
    } else {
        Branch::Reflect
    }
}

/// What a dielectric makes of a ray: it never absorbs it, and whichever ray
/// it sends on, reflected or refracted, it passes all of the light on.
///
/// `sent` is the ray that is sent on. `color(r, g, b)` makes the caller's
/// color of three channels; it is asked for the color whose channels are all
/// one, which is the attenuation of the record.
pub fn dielectric_scatter<R, C, F: FnOnce(Scalar, Scalar, Scalar) -> C>(sent: R, color: F) -> (record:
    ScatterRecord<R, C>)
    requires
        forall|r: Scalar, g: Scalar, b: Scalar| call_requires(color, (r, g, b)),
    ensures
        record matches ScatterRecord::Scatter { scattered, attenuation } && scattered == sent && call_ensures(
            color,
            (Scalar { bits: ONE_BITS }, Scalar { bits: ONE_BITS }, Scalar { bits: ONE_BITS }),
            attenuation,
        ),
{
    let attenuation = color(Scalar::one(), Scalar::one(), Scalar::one());
    ScatterRecord::Scatter { scattered: sent, attenuation }
}

/// Whether a point drawn from the cube around the unit sphere is kept: if it
/// lies in the sphere, that is if its norm is at most one.
pub fn keeps_sample(norm: Scalar) -> (kept: bool)
    ensures
        kept == norm@.le(Value::integer(1)),
{
    norm.le(Scalar::one())
}

} // verus!
