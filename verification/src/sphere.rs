//! Which root of the ray-sphere quadratic counts as the hit.
//!
//! With `a = d.d`, `b = oc.d` and `c = oc.oc - r^2` the ray meets the sphere
//! at `(-b - sqrt(b^2 - ac)) / a` and `(-b + sqrt(b^2 - ac)) / a`. The caller
//! computes the discriminant and the two roots; which of them is the hit
//! within a window `[t_min, t_max]` is decided here.

use vstd::prelude::*;
use crate::hitable::{not_beyond, within, HitRecord};
use crate::scalar::{Scalar, Value};

verus! {

/// Whether `t` lies before or beyond the window. What is not a number lies
/// neither within nor outside.
pub open spec fn outside(t: Value, t_min: Value, t_max: Value) -> bool {
    t.lt(t_min) || t.gt(t_max)
}

/// The hit that [`select_root`] reports: the near root if the window holds
/// it, else the far root if the near one lies outside the window and the far
/// one within, and none without a positive discriminant.
pub open spec fn selected_root(
    discriminant: Scalar,
    near: Scalar,
    far: Scalar,
    t_min: Scalar,
    t_max: Scalar,
) -> Option<Scalar> {
    if !discriminant@.gt(Value::zero()) {
        None
    } else if within(near@, t_min@, t_max@) {
        Some(near)
    } else if outside(near@, t_min@, t_max@) && within(far@, t_min@, t_max@) {
        Some(far)
    } else {
        None
    }
}

/// The ray parameter at which a sphere is hit within `[t_min, t_max]`, given
/// the discriminant of the quadratic and its two roots, the nearer first.
///
/// A ray that grazes or misses the sphere (discriminant not positive) hits
/// nothing. Otherwise the near root is preferred and the far root, which
/// matters for rays that start inside the sphere, is the fallback. A hit
/// that is reported is one of the two roots and lies in the window.
pub fn select_root(discriminant: Scalar, near: Scalar, far: Scalar, t_min: Scalar, t_max: Scalar) -> (hit:
    Option<Scalar>)
    ensures
        hit == selected_root(discriminant, near, far, t_min, t_max),
        !discriminant@.gt(Value::zero()) ==> hit is None,
        discriminant@.gt(Value::zero()) && within(near@, t_min@, t_max@) ==> hit == Some(near),
        hit matches Some(t) ==> within(t@, t_min@, t_max@) && (t == near || t == far),
{
    if !discriminant.is_positive() {
        return None;
    }
    let mut t = near;
    if t.lt(t_min) || t.gt(t_max) {
        t = far;
    }
    if t_min.le(t) && t.le(t_max) {
        Some(t)
    } else {
        None
    }
}

/// The record of a sphere's hit within `[t_min, t_max]`, given the
/// discriminant of the quadratic and its two roots, the nearer first.
///
/// `surface(t)` gives the point of the ray at `t` and the normal of the
/// sphere there. It is asked only where a root was selected, and with that
/// root; the record then holds the root, that point and normal, and the
/// material. Without a root in the window the record is `Nothing`.
pub fn hit_record<V, M, F: FnOnce(Scalar) -> (V, V)>(
    discriminant: Scalar,
    near: Scalar,
    far: Scalar,
    t_min: Scalar,
    t_max: Scalar,
    surface: F,
    material: M,
) -> (record: HitRecord<V, M>)
    requires
        forall|t: Scalar| call_requires(surface, (t,)),
    ensures
        match selected_root(discriminant, near, far, t_min, t_max) {
            Some(root) => record matches HitRecord::Hit { t, point, normal, material: m } && t == root && m
                == material && call_ensures(surface, (root,), (point, normal)),
            None => record is Nothing,
        },
        !discriminant@.gt(Value::zero()) ==> record is Nothing,
        record matches HitRecord::Hit { t, .. } ==> within(t@, t_min@, t_max@),
{
    match select_root(discriminant, near, far, t_min, t_max) {
        Some(t) => {
            let (point, normal) = surface(t);
            HitRecord::Hit { t, point, normal, material }
        },
        None => HitRecord::Nothing,
    }
}

/// A sphere reports its first intersection in the window: asked again with
/// a nearer far end, it reports the same root if that root still lies in the
/// window, and nothing if it does not. The roots must come in order, the far
/// one not below the near one.
pub proof fn lemma_first_root_in_window(
    discriminant: Scalar,
    near: Scalar,
    far: Scalar,
    t_min: Scalar,
    whole: Scalar,
    part: Scalar,
)
    requires
        !far@.lt(near@),
        not_beyond(part, whole),
    ensures
        selected_root(discriminant, near, far, t_min, part) == match selected_root(
            discriminant,
            near,
            far,
            t_min,
            whole,
        ) {
            Some(t) => if t@.le(part@) {
                Some(t)
            } else {
                None
            },
            None => None,
        },
{
}

} // verus!
