//! Hits, and the nearest of them over a scene.
//!
//! A scene is scanned object by object. Each object is asked for a hit no
//! farther than the nearest one found so far, and what it reports is offered
//! to a [`Closest`]. A hit is taken only if it is strictly nearer than the
//! current bound, so among equally near hits the first one stays.

use vstd::prelude::*;
use crate::scalar::{Scalar, Value};

verus! {

/// Whether `t` lies in the closed window `[t_min, t_max]`.
pub open spec fn within(t: Value, t_min: Value, t_max: Value) -> bool {
    t_min.le(t) && t.le(t_max)
}

/// What a ray meets: nothing, or a surface.
///
/// `V` is the caller's vector and `M` its material. The ray parameter `t`
/// alone decides which of two hits is nearer; point, normal and material
/// travel with it untouched.
pub enum HitRecord<V, M> {
    Nothing,
    Hit { t: Scalar, point: V, normal: V, material: M },
}

impl<V, M> HitRecord<V, M> {
    /// The ray parameter of a hit.
    pub open spec fn parameter(self) -> Option<Scalar> {
        match self {
            HitRecord::Hit { t, .. } => Some(t),
            HitRecord::Nothing => None,
        }
    }

    /// Whether this is a hit.
    pub fn is_hit(&self) -> (hit: bool)
        ensures
            hit == (self is Hit),
    {
        match self {
            HitRecord::Hit { .. } => true,
            HitRecord::Nothing => false,
        }
    }

    /// The ray parameter of a hit, or `None` where nothing was hit.
    pub fn t(&self) -> (t: Option<Scalar>)
        ensures
            t == self.parameter(),
    {
        match self {
            HitRecord::Hit { t, .. } => Some(*t),
            HitRecord::Nothing => None,
        }
    }
}

/// The nearest hit found so far, and the bound that later hits must beat.
pub struct Closest<V, M> {
    /// The ray parameter to beat: that of `best`, or the far end of the
    /// query while nothing has been taken.
    pub bound: Scalar,
    /// The nearest hit, or `Nothing` while none has been taken.
    pub best: HitRecord<V, M>,
}

impl<V, M> Closest<V, M> {
    /// The state before anything was offered to a query that ends at `t_max`.
    pub open spec fn start(t_max: Scalar) -> Self {
        Closest { bound: t_max, best: HitRecord::Nothing }
    }

    /// Whether a record would be taken: if it is a hit strictly nearer than
    /// the bound.
    pub open spec fn accepts(self, record: HitRecord<V, M>) -> bool {
        record matches HitRecord::Hit { t, .. } && t@.lt(self.bound@)
    }

    /// The state after a record was offered.
    pub open spec fn heard(self, record: HitRecord<V, M>) -> Self {
        match record {
            HitRecord::Hit { t, .. } => if t@.lt(self.bound@) {
                Closest { bound: t, best: record }
            } else {
                self
            },
            HitRecord::Nothing => self,
        }
    }

    /// The state after the objects of a scene reported `records`, in order.
    pub open spec fn scan(t_max: Scalar, records: Seq<HitRecord<V, M>>) -> Self
        decreases records.len(),
    {
        if records.len() == 0 {
            Self::start(t_max)
        } else {
            Self::scan(t_max, records.drop_last()).heard(records.last())
        }
    }

    /// Begins a scan for hits nearer than `t_max`.
    pub fn new(t_max: Scalar) -> (c: Self)
        ensures
            c == Self::start(t_max),
    {
        Closest { bound: t_max, best: HitRecord::Nothing }
    }

    /// The bound that the next hit must beat: the far end of the window to
    /// query the next object with.
    pub fn bound(&self) -> (b: Scalar)
        ensures
            b == self.bound,
    {
        self.bound
    }

    /// Offers what an object reported. A hit is taken, and `true` returned,
    /// exactly if its ray parameter is strictly less than the bound; the
    /// bound then drops to it.
    pub fn offer(&mut self, record: HitRecord<V, M>) -> (taken: bool)
        ensures
            taken == old(self).accepts(record),
            *final(self) == old(self).heard(record),
            final(self).bound == old(self).bound || final(self).bound@.lt(old(self).bound@),
    {
        match record.t() {
            Some(t) => {
                if t.lt(self.bound) {
                    self.bound = t;
                    self.best = record;
                    true
                } else {
                    false
                }
            },
            None => false,
        }
    }

    /// Ends the scan: the nearest hit, or `Nothing` if none was taken.
    pub fn into_best(self) -> (best: HitRecord<V, M>)
        ensures
            best == self.best,
    {
        self.best
    }
}

/// Anything that a ray can hit.
///
/// `hit` reports the first intersection of the ray with the surface whose
/// ray parameter lies in `[t_min, t_max]`, or `Nothing`. The arithmetic is
/// the implementor's; nothing is taken on trust about it here.
pub trait Hitable {
    /// The implementor's ray.
    type Ray;

    /// The implementor's vector: points and normals.
    type Vector;

    /// The implementor's material.
    type Material;

    fn hit(&self, ray: &Self::Ray, t_min: Scalar, t_max: Scalar) -> HitRecord<Self::Vector, Self::Material>;
}

/// Whether the objects of type `T` keep to the window they are asked with:
/// whatever hit one of them reports lies within it.
pub open spec fn keeps_to_window<T: Hitable>() -> bool {
    forall|object: T, ray: T::Ray, t_min: Scalar, t_max: Scalar, record: HitRecord<T::Vector, T::Material>| #[trigger]
        call_ensures(T::hit, (&object, &ray, t_min, t_max), record) ==> (record matches HitRecord::Hit { t, .. }
            ==> within(t@, t_min@, t_max@))
}

/// Whether `records` is what the objects of a scene reported to a scan:
/// there is one record for each object, and each object reported its record
/// when asked for a hit from `t_min` up to the bound that the records before
/// it had left.
pub open spec fn asked_in_turn<T: Hitable>(
    objects: Seq<T>,
    ray: T::Ray,
    t_min: Scalar,
    t_max: Scalar,
    records: Seq<HitRecord<T::Vector, T::Material>>,
) -> bool {
    &&& records.len() == objects.len()
    &&& forall|i: int|
        0 <= i < objects.len() ==> call_ensures(
            T::hit,
            (&objects[i], &ray, t_min, Closest::scan(t_max, records.take(i)).bound),
            #[trigger] records[i],
        )
}

/// Whether `part` is no farther than `whole`.
pub open spec fn not_beyond(part: Scalar, whole: Scalar) -> bool {
    part == whole || part@.lt(whole@)
}

/// Whether none of `records` is a hit strictly nearer than `bound`.
pub open spec fn none_nearer<V, M>(records: Seq<HitRecord<V, M>>, bound: Scalar) -> bool {
    forall|j: int|
        0 <= j < records.len() ==> ((#[trigger] records[j]) matches HitRecord::Hit { t, .. } ==> !t@.lt(bound@))
}

/// Whether record `i` is a hit that a scan must end with: it beats the far
/// end of the query, no hit is strictly nearer, and every earlier hit is
/// strictly farther or not a number.
pub open spec fn is_first_nearest<V, M>(t_max: Scalar, records: Seq<HitRecord<V, M>>, i: int) -> bool {
    &&& 0 <= i < records.len()
    &&& records[i] matches HitRecord::Hit { t, .. }
    &&& t@.lt(t_max@)
    &&& none_nearer(records, t)
    &&& forall|j: int|
        0 <= j < i ==> ((#[trigger] records[j]) matches HitRecord::Hit { t: u, .. } ==> !u@.le(t@))
}

/// Whether `best` is the nearest hit among `records`: the first among the
/// nearest hits that beat the far end of the query, or `Nothing` if no hit
/// beat it.
pub open spec fn is_nearest_of<V, M>(t_max: Scalar, records: Seq<HitRecord<V, M>>, best: HitRecord<V, M>) -> bool {
    match best {
        HitRecord::Nothing => none_nearer(records, t_max),
        HitRecord::Hit { .. } => exists|i: int| #[trigger] is_first_nearest(t_max, records, i) && records[i] == best,
    }
}

/// A scan ends with the nearest of the hits that the objects reported, and
/// with the first of them where several are equally near. It ends with
/// nothing exactly if no hit beat the far end of the query. Its bound is the
/// ray parameter of the hit it holds, or the far end of the query; it is
/// never beyond the far end, and no hit reported is strictly nearer.
pub proof fn lemma_scan_keeps_nearest<V, M>(t_max: Scalar, records: Seq<HitRecord<V, M>>)
    ensures
        is_nearest_of(t_max, records, Closest::scan(t_max, records).best),
        Closest::scan(t_max, records).bound == match Closest::scan(t_max, records).best {
            HitRecord::Hit { t, .. } => t,
            HitRecord::Nothing => t_max,
        },
        not_beyond(Closest::scan(t_max, records).bound, t_max),
        none_nearer(records, Closest::scan(t_max, records).bound),
    decreases records.len(),
{
    if records.len() > 0 {
        let earlier = records.drop_last();
        let before = Closest::scan(t_max, earlier);
        let last = records.last();
        let n = records.len() - 1;
        lemma_scan_keeps_nearest(t_max, earlier);
        assert forall|j: int| 0 <= j < n implies records[j] == earlier[j] by {}
        if before.accepts(last) {
            assert forall|j: int| 0 <= j < n implies ((#[trigger] records[j]) matches HitRecord::Hit { t: u, .. }
                ==> !u@.le(last->t@)) by {
                assert(earlier[j] matches HitRecord::Hit { t: u, .. } ==> !u@.lt(before.bound@));
            }
            assert(is_first_nearest(t_max, records, n));
        } else if before.best is Hit {
            let i = choose|i: int| #[trigger] is_first_nearest(t_max, earlier, i) && earlier[i] == before.best;
            assert(is_first_nearest(t_max, records, i));
        }
    }
}

/// A record cut to a nearer far end: the record itself if its hit lies no
/// farther than `part`, and `Nothing` otherwise.
pub open spec fn cut_to<V, M>(record: HitRecord<V, M>, part: Scalar) -> HitRecord<V, M> {
    match record {
        HitRecord::Hit { t, .. } => if t@.le(part@) {
            record
        } else {
            HitRecord::Nothing
        },
        HitRecord::Nothing => HitRecord::Nothing,
    }
}

/// Whether the objects of type `T` report their first intersection in the
/// window: asked again with a nearer far end, an object reports the same hit
/// if it still lies in the window, and nothing if it does not.
pub open spec fn reports_first_in_window<T: Hitable>() -> bool {
    forall|
        object: T,
        ray: T::Ray,
        t_min: Scalar,
        whole: Scalar,
        part: Scalar,
        far: HitRecord<T::Vector, T::Material>,
        near: HitRecord<T::Vector, T::Material>,
    |
        {
            &&& #[trigger] call_ensures(T::hit, (&object, &ray, t_min, whole), far)
            &&& #[trigger] call_ensures(T::hit, (&object, &ray, t_min, part), near)
            &&& not_beyond(part, whole)
        } ==> near == cut_to(far, part)
}

/// Whether `records` is what the objects of a scene report to the whole
/// window `[t_min, t_max]`, each asked by itself.
pub open spec fn asked_alone<T: Hitable>(
    objects: Seq<T>,
    ray: T::Ray,
    t_min: Scalar,
    t_max: Scalar,
    records: Seq<HitRecord<T::Vector, T::Material>>,
) -> bool {
    &&& records.len() == objects.len()
    &&& forall|i: int|
        0 <= i < objects.len() ==> call_ensures(T::hit, (&objects[i], &ray, t_min, t_max), #[trigger] records[i])
}

/// Narrowing hides nothing, prefix by prefix: after the first `k` objects a
/// scan that narrows its bound stands where a scan of what the objects
/// report to the whole window stands.
proof fn lemma_prefixes_agree<T: Hitable>(
    objects: Seq<T>,
    ray: T::Ray,
    t_min: Scalar,
    t_max: Scalar,
    narrowed: Seq<HitRecord<T::Vector, T::Material>>,
    alone: Seq<HitRecord<T::Vector, T::Material>>,
    k: int,
)
    requires
        reports_first_in_window::<T>(),
        asked_in_turn(objects, ray, t_min, t_max, narrowed),
        asked_alone(objects, ray, t_min, t_max, alone),
        0 <= k <= objects.len(),
    ensures
        Closest::scan(t_max, narrowed.take(k)) == Closest::scan(t_max, alone.take(k)),
    decreases k,
{
    if k > 0 {
        lemma_prefixes_agree(objects, ray, t_min, t_max, narrowed, alone, k - 1);
        let before = Closest::scan(t_max, narrowed.take(k - 1));
        lemma_scan_keeps_nearest(t_max, narrowed.take(k - 1));
        assert(narrowed.take(k).drop_last() == narrowed.take(k - 1));
        assert(alone.take(k).drop_last() == alone.take(k - 1));
        assert(narrowed.take(k).last() == narrowed[k - 1]);
        assert(alone.take(k).last() == alone[k - 1]);
        assert(call_ensures(T::hit, (&objects[k - 1], &ray, t_min, t_max), alone[k - 1]));
        assert(call_ensures(T::hit, (&objects[k - 1], &ray, t_min, before.bound), narrowed[k - 1]));
        assert(narrowed[k - 1] == cut_to(alone[k - 1], before.bound));
    }
}

/// Narrowing hides nothing: where the objects of a scene report their first
/// intersection in the window, a scan that asks each object only up to the
/// nearest hit so far ends where a scan of what the objects report to the
/// whole window ends, with the nearest of those hits.
pub proof fn lemma_narrowing_hides_nothing<T: Hitable>(
    objects: Seq<T>,
    ray: T::Ray,
    t_min: Scalar,
    t_max: Scalar,
    narrowed: Seq<HitRecord<T::Vector, T::Material>>,
    alone: Seq<HitRecord<T::Vector, T::Material>>,
)
    requires
        reports_first_in_window::<T>(),
        asked_in_turn(objects, ray, t_min, t_max, narrowed),
        asked_alone(objects, ray, t_min, t_max, alone),
    ensures
        Closest::scan(t_max, narrowed) == Closest::scan(t_max, alone),
        is_nearest_of(t_max, alone, Closest::scan(t_max, narrowed).best),
{
    lemma_prefixes_agree(objects, ray, t_min, t_max, narrowed, alone, objects.len() as int);
    assert(narrowed.take(objects.len() as int) == narrowed);
    assert(alone.take(objects.len() as int) == alone);
    lemma_scan_keeps_nearest(t_max, alone);
}

/// Of two objects that a ray hits, a scene returns the hit of the nearer one,
/// whichever of them stands first: where `near` reports `one` and `far`
/// reports `other` to the whole window, `one` strictly nearer than `other`
/// and both nearer than the far end, a scan of the two ends with `one`.
pub proof fn lemma_nearer_of_two_wins<T: Hitable>(
    scene: Seq<T>,
    near: T,
    far: T,
    ray: T::Ray,
    t_min: Scalar,
    t_max: Scalar,
    one: HitRecord<T::Vector, T::Material>,
    other: HitRecord<T::Vector, T::Material>,
    narrowed: Seq<HitRecord<T::Vector, T::Material>>,
)
    requires
        reports_first_in_window::<T>(),
        scene == seq![near, far] || scene == seq![far, near],
        call_ensures(T::hit, (&near, &ray, t_min, t_max), one),
        call_ensures(T::hit, (&far, &ray, t_min, t_max), other),
        one matches HitRecord::Hit { t: t1, .. } && other matches HitRecord::Hit { t: t2, .. } && t1@.lt(t2@)
            && t2@.lt(t_max@),
        asked_in_turn(scene, ray, t_min, t_max, narrowed),
    ensures
        Closest::scan(t_max, narrowed).best == one,
{
    let alone = if scene == seq![near, far] {
        seq![one, other]
    } else {
        seq![other, one]
    };
    assert(asked_alone(scene, ray, t_min, t_max, alone)) by {
        assert forall|i: int| 0 <= i < scene.len() implies call_ensures(
            T::hit,
            (&scene[i], &ray, t_min, t_max),
            #[trigger] alone[i],
        ) by {
            if scene == seq![near, far] {
                assert(scene[0] == near && scene[1] == far && alone[0] == one && alone[1] == other);
            } else {
                assert(scene[0] == far && scene[1] == near && alone[0] == other && alone[1] == one);
            }
        }
    }
    lemma_narrowing_hides_nothing(scene, ray, t_min, t_max, narrowed, alone);
    let best = Closest::scan(t_max, narrowed).best;
    let at = if scene == seq![near, far] {
        0int
    } else {
        1int
    };
    assert(alone[at] == one && alone[1 - at] == other);
    if best is Hit {
        let i = choose|i: int| #[trigger] is_first_nearest(t_max, alone, i) && alone[i] == best;
        if i != at {
            assert(!alone[at]->t@.lt(alone[i]->t@));
        }
    } else {
        assert(!alone[at]->t@.lt(t_max@));
    }
}

/// A scene: a sequence of things that a ray can hit.
impl<T: Hitable> Hitable for [T] {
    type Ray = T::Ray;

    type Vector = T::Vector;

    type Material = T::Material;

    /// The nearest hit among the objects of the scene.
    ///
    /// The objects are asked in order, each once, each for a hit from `t_min`
    /// up to the nearest hit so far; the nearest hit is returned, the first
    /// one among equally near hits, or `Nothing` if no object reported a hit
    /// nearer than `t_max`. Where the objects keep to the window they are
    /// asked with, so does the scene; and where they report their first
    /// intersection in the window, the hit returned is the nearest of the
    /// hits that the objects report to the whole window.
    fn hit(&self, ray: &T::Ray, t_min: Scalar, t_max: Scalar) -> (best: HitRecord<T::Vector, T::Material>)
        ensures
            exists|records: Seq<HitRecord<T::Vector, T::Material>>|
                {
                    &&& #[trigger] asked_in_turn(self@, *ray, t_min, t_max, records)
                    &&& best == Closest::scan(t_max, records).best
                    &&& is_nearest_of(t_max, records, best)
                },
            keeps_to_window::<T>() ==> (best matches HitRecord::Hit { t, .. } ==> within(t@, t_min@, t_max@)),
            reports_first_in_window::<T>() ==> forall|alone: Seq<HitRecord<T::Vector, T::Material>>| #[trigger]
                asked_alone(self@, *ray, t_min, t_max, alone) ==> is_nearest_of(t_max, alone, best),
    {
        let mut scan = Closest::new(t_max);
        let ghost mut records: Seq<HitRecord<T::Vector, T::Material>> = Seq::empty();
        let mut i: usize = 0;
        while i < self.len()
            invariant
                i <= self@.len(),
                records.len() == i,
                scan == Closest::scan(t_max, records),
                forall|k: int|
                    0 <= k < i ==> call_ensures(
                        T::hit,
                        (&self@[k], ray, t_min, Closest::scan(t_max, records.take(k)).bound),
                        #[trigger] records[k],
                    ),
            decreases self@.len() - i,
        {
            let record = self[i].hit(ray, t_min, scan.bound());
            proof {
                let longer = records.push(record);
                assert(longer.drop_last() == records);
                assert(longer.take(i as int) == records);
                assert forall|k: int| 0 <= k < i implies call_ensures(
                    T::hit,
                    (&self@[k], ray, t_min, Closest::scan(t_max, longer.take(k)).bound),
                    #[trigger] longer[k],
                ) by {
                    assert(longer.take(k) == records.take(k));
                }
                records = longer;
            }
            scan.offer(record);
            i = i + 1;
        }
        proof {
            lemma_scan_keeps_nearest(t_max, records);
            if keeps_to_window::<T>() && scan.best is Hit {
                let i = choose|i: int| #[trigger] is_first_nearest(t_max, records, i) && records[i] == scan.best;
                assert(call_ensures(
                    T::hit,
                    (&self@[i], ray, t_min, Closest::scan(t_max, records.take(i)).bound),
                    records[i],
                ));
            }
        }
        assert(asked_in_turn(self@, *ray, t_min, t_max, records));
        assert forall|alone: Seq<HitRecord<T::Vector, T::Material>>|
            reports_first_in_window::<T>() && #[trigger] asked_alone(
                self@,
                *ray,
                t_min,
                t_max,
                alone,
            ) implies is_nearest_of(t_max, alone, scan.best) by {
            lemma_narrowing_hides_nothing(self@, *ray, t_min, t_max, records, alone);
        }
        scan.into_best()
    }
}

} // verus!
