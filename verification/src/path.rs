//! Light paths: how one is followed, when it ends, and what light it carries.
//!
//! A path is followed from the camera into the scene. At each level the scene
//! is probed for the nearest surface. A ray that escapes sees the sky; a ray
//! that hits a surface at depth [`MAX_DEPTH`] or beyond is cut off and
//! contributes nothing; any other hit is handed to the surface's material,
//! which absorbs the ray or scatters it one level deeper. The light at the
//! end of the path comes back attenuated once for each scattering.

use vstd::prelude::*;
use crate::hitable::{HitRecord, Hitable};
use crate::material::{Material, ScatterRecord};
use crate::scalar::{Scalar, Value};

verus! {

/// The depth at which a path is cut off.
pub const MAX_DEPTH: i32 = 50;

/// The pattern of 0.001, the near end of every probe: a ray does not see the
/// surface it starts on.
pub const T_MIN_BITS: u64 = 0x3f50_624d_d2f1_a9fc;

/// The pattern of positive infinity, the far end of every probe: a ray sees
/// to any distance. A scene takes only what is strictly nearer than the far
/// end, so a probe of a scene ranges over `[0.001, +inf)`.
pub const T_MAX_BITS: u64 = 0x7ff0_0000_0000_0000;

/// The near end of every probe.
pub open spec fn t_min() -> Scalar {
    Scalar { bits: T_MIN_BITS }
}

/// The far end of every probe.
pub open spec fn t_max() -> Scalar {
    Scalar { bits: T_MAX_BITS }
}

/// A probe ranges over every distance from the near end on: the far end is
/// positive infinity, and every finite number lies strictly below it.
pub proof fn lemma_probe_sees_any_distance(t: Scalar)
    ensures
        t_max()@ == (Value::Infinite { negative: false }),
        t@ is Finite ==> t@.lt(t_max()@),
{
}

/// A position along a light path: the number of scatterings behind it.
#[derive(Clone, Copy, Debug)]
pub struct Path {
    pub depth: i32,
}

/// What follows a probe of the scene.
#[derive(Clone, Copy, Debug)]
pub enum Step {
    /// The ray escaped: the path ends with the sky's radiance.
    Sky,
    /// The ray hit a surface at the cutoff depth: the path ends black, and
    /// the material is not consulted.
    Black,
    /// The ray hit a surface: the material decides. If it scatters, the path
    /// goes on at `next`.
    Scatter { next: Path },
}

/// How a path ended.
#[derive(Clone, Copy, Debug, PartialEq, Eq, Structural)]
pub enum Ending {
    /// With the sky's radiance, after a miss.
    Sky,
    /// Black, absorbed by a material.
    Absorbed,
    /// Black, cut off at [`MAX_DEPTH`].
    Cutoff,
}

/// A path as it was followed through a scene.
///
/// `R` is the caller's ray and `C` the attenuation that a scattering applies.
/// The radiance at the end of the path reaches the camera attenuated once
/// for each scattering.
pub struct Trace<R, C> {
    /// How the path ended.
    pub ending: Ending,
    /// The ray with which the path ended: the one that missed, was absorbed
    /// or was cut off.
    pub ray: R,
    /// The attenuations of the scatterings along the path, that of the first
    /// scattering first.
    pub attenuations: Vec<C>,
}

impl Path {
    /// What follows a probe at this position that found a surface (`hit`) or
    /// none.
    pub open spec fn step(self, hit: bool) -> Step {
        if !hit {
            Step::Sky
        } else if self.depth >= MAX_DEPTH {
            Step::Black
        } else {
            Step::Scatter { next: Path { depth: (self.depth + 1) as i32 } }
        }
    }

    /// The position of a path that has scattered `depth` times.
    pub fn new(depth: i32) -> (path: Path)
        ensures
            path.depth == depth,
    {
        Path { depth }
    }

    /// The number of scatterings behind this position.
    pub fn depth(&self) -> (depth: i32)
        ensures
            depth == self.depth,
    {
        self.depth
    }

    /// Decides what follows a probe of the scene from this position.
    pub fn probe(&self, hit: bool) -> (step: Step)
        ensures
            step == self.step(hit),
    {
        if !hit {
            Step::Sky
        } else if self.depth >= MAX_DEPTH {
            Step::Black
        } else {
            Step::Scatter { next: Path { depth: self.depth + 1 } }
        }
    }
}

/// Whether `lights` is the light along a finished path, level by level:
/// `lights[k]` is what reaches level `k`. At the end of the path it is the
/// sky's radiance along the last ray if the path ended in the sky and black
/// otherwise, and each scattering passes on the light of the level below it,
/// attenuated.
pub open spec fn lit<R, C, K: Fn(&R) -> C, A: Fn(&C, C) -> C>(
    end: Trace<R, C>,
    sky: K,
    black: C,
    attenuate: A,
    lights: Seq<C>,
) -> bool {
    &&& lights.len() == end.attenuations@.len() + 1
    &&& match end.ending {
        Ending::Sky => call_ensures(sky, (&end.ray,), lights.last()),
        Ending::Absorbed | Ending::Cutoff => lights.last() == black,
    }
    &&& forall|k: int|
        0 <= k < end.attenuations@.len() ==> call_ensures(
            attenuate,
            (&end.attenuations@[k], lights[k + 1]),
            #[trigger] lights[k],
        )
}

impl<R, C> Trace<R, C> {
    /// The light that reaches the camera along this path.
    ///
    /// `sky(ray)` gives the radiance of the sky along a ray that escaped,
    /// `black` is no light at all, and `attenuate(attenuation, light)` is the
    /// light that a scattering passes on. The light at the end of the path is
    /// attenuated once for each scattering, the last scattering first.
    pub fn radiance<K: Fn(&R) -> C, A: Fn(&C, C) -> C>(self, sky: K, black: C, attenuate: A) -> (light: C)
        requires
            call_requires(sky, (&self.ray,)),
            forall|a: C, c: C| call_requires(attenuate, (&a, c)),
        ensures
            exists|lights: Seq<C>| #[trigger] lit(self, sky, black, attenuate, lights) && light == lights[0],
    {
        let Trace { ending, ray, attenuations } = self;
        let mut rest = attenuations;
        let mut light = match ending {
            Ending::Sky => sky(&ray),
            _ => black,
        };
        let ghost mut lights: Seq<C> = seq![light];
        while rest.len() > 0
            invariant
                forall|a: C, c: C| call_requires(attenuate, (&a, c)),
                rest@.len() <= self.attenuations@.len(),
                rest@ == self.attenuations@.take(rest@.len() as int),
                lights.len() == self.attenuations@.len() - rest@.len() + 1,
                lights[0] == light,
                match self.ending {
                    Ending::Sky => call_ensures(sky, (&self.ray,), lights.last()),
                    Ending::Absorbed | Ending::Cutoff => lights.last() == black,
                },
                forall|k: int|
                    0 <= k < lights.len() - 1 ==> call_ensures(
                        attenuate,
                        (&self.attenuations@[rest@.len() + k], lights[k + 1]),
                        #[trigger] lights[k],
                    ),
            decreases rest@.len(),
        {
            let attenuation = rest.pop().unwrap();
            let ghost below = light;
            light = attenuate(&attenuation, light);
            proof {
                assert(attenuation == self.attenuations@[rest@.len() as int]);
                assert(rest@ == self.attenuations@.take(rest@.len() as int));
                let longer = seq![light] + lights;
                assert(longer[0] == light && longer[1] == below);
                assert forall|k: int| 0 <= k < longer.len() - 1 implies call_ensures(
                    attenuate,
                    (&self.attenuations@[rest@.len() + k], longer[k + 1]),
                    #[trigger] longer[k],
                ) by {
                    if k > 0 {
                        assert(longer[k] == lights[k - 1] && longer[k + 1] == lights[k]);
                    }
                }
                assert(longer.last() == lights.last());
                lights = longer;
            }
        }
        assert(lit(self, sky, black, attenuate, lights));
        light
    }
}

/// Whether `hit` is what a probe of the scene with `ray` reports.
pub open spec fn probed<W: Hitable + ?Sized>(world: &W, ray: W::Ray, hit: HitRecord<W::Vector, W::Material>) -> bool {
    call_ensures(W::hit, (world, &ray, t_min(), t_max()), hit)
}

/// Whether `out` is what the material of the surface that `hit` records
/// makes of `ray`.
pub open spec fn scattered<W: Hitable + ?Sized>(
    ray: W::Ray,
    hit: HitRecord<W::Vector, W::Material>,
    out: ScatterRecord<W::Ray, <W::Material as Material>::Color>,
) -> bool where W::Material: Material<Ray = W::Ray, Vector = W::Vector> {
    hit is Hit && call_ensures(
        <W::Material as Material>::scatter,
        (&hit->material, &ray, hit->point, hit->normal),
        out,
    )
}

/// Whether the scene scatters `ray` into `next` with the given attenuation:
/// the probe reports a hit, and the material of the surface hit scatters so.
pub open spec fn scatters_into<W: Hitable + ?Sized>(
    world: &W,
    ray: W::Ray,
    next: W::Ray,
    attenuation: <W::Material as Material>::Color,
) -> bool where W::Material: Material<Ray = W::Ray, Vector = W::Vector> {
    exists|hit: HitRecord<W::Vector, W::Material>|
        {
            &&& #[trigger] probed(world, ray, hit)
            &&& scattered::<W>(ray, hit, ScatterRecord::Scatter { scattered: next, attenuation })
        }
}

/// Whether a path that has reached `ray` at the given depth ends there in the
/// given way: in the sky if the probe reports nothing, cut off if it reports
/// a hit at `MAX_DEPTH` or deeper, and absorbed if it reports a hit above
/// that depth and the material of the surface absorbs the ray.
pub open spec fn ends_at<W: Hitable + ?Sized>(world: &W, depth: int, ray: W::Ray, ending: Ending) -> bool where
    W::Material: Material<Ray = W::Ray, Vector = W::Vector>,
 {
    match ending {
        Ending::Sky => probed(world, ray, HitRecord::Nothing),
        Ending::Cutoff => depth >= MAX_DEPTH && exists|hit: HitRecord<W::Vector, W::Material>|
            hit is Hit && #[trigger] probed(world, ray, hit),
        Ending::Absorbed => depth < MAX_DEPTH && exists|hit: HitRecord<W::Vector, W::Material>|
            {
                &&& #[trigger] probed(world, ray, hit)
                &&& scattered::<W>(ray, hit, ScatterRecord::Absorption)
            },
    }
}

/// Whether `rays` are the rays of the path that `end` records, from the first
/// ray at depth `depth` on: each but the last is scattered into the next,
/// above `MAX_DEPTH` and with the attenuation recorded, and with the last
/// one the path ends as recorded.
pub open spec fn follows<W: Hitable + ?Sized>(
    world: &W,
    depth: int,
    rays: Seq<W::Ray>,
    end: Trace<W::Ray, <W::Material as Material>::Color>,
) -> bool where W::Material: Material<Ray = W::Ray, Vector = W::Vector> {
    &&& rays.len() == end.attenuations@.len() + 1
    &&& rays.last() == end.ray
    &&& forall|k: int|
        0 <= k < end.attenuations@.len() ==> depth + k < MAX_DEPTH && scatters_into(
            world,
            #[trigger] rays[k],
            rays[k + 1],
            end.attenuations@[k],
        )
    &&& ends_at(world, depth + end.attenuations@.len(), end.ray, end.ending)
}

/// Whether every ray hits a surface of the scene and every material
/// scatters: a closed cavity of mirrors.
pub open spec fn never_ends<W: Hitable + ?Sized>(world: &W) -> bool where
    W::Material: Material<Ray = W::Ray, Vector = W::Vector>,
 {
    &&& forall|ray: W::Ray, hit: HitRecord<W::Vector, W::Material>| #[trigger]
        probed(world, ray, hit) ==> hit is Hit
    &&& forall|
        ray: W::Ray,
        hit: HitRecord<W::Vector, W::Material>,
        out: ScatterRecord<W::Ray, <W::Material as Material>::Color>,
    | #[trigger] scattered::<W>(ray, hit, out) ==> out is Scatter
}

/// Follows a light path through a scene, from `ray` at the given depth.
///
/// Level by level the ray is probed for the nearest surface that it hits
/// between the near and the far end. A miss ends the path in the sky, a hit
/// at `MAX_DEPTH` or deeper cuts it off without a word from the material,
/// and any other hit goes to the material of the surface, which absorbs the
/// ray or sends it one level deeper.
///
/// The path is returned as it went: its ending, its last ray, and the
/// attenuations it gathered. It never scatters at `MAX_DEPTH` or deeper, and
/// in a scene that lets no ray end it is cut off at exactly that depth.
pub fn trace<W: Hitable + ?Sized>(ray: W::Ray, world: &W, depth: i32) -> (end: Trace<
    W::Ray,
    <W::Material as Material>::Color,
>) where W::Material: Material<Ray = W::Ray, Vector = W::Vector>
    ensures
        exists|rays: Seq<W::Ray>| rays.len() > 0 && rays[0] == ray && #[trigger] follows(world, depth as int, rays, end),
        depth <= MAX_DEPTH ==> depth + end.attenuations@.len() <= MAX_DEPTH,
        depth >= MAX_DEPTH ==> end.attenuations@.len() == 0,
        never_ends(world) ==> end.ending == Ending::Cutoff,
        never_ends(world) && depth <= MAX_DEPTH ==> depth + end.attenuations@.len() == MAX_DEPTH,
{
    let mut path = Path::new(depth);
    let mut current = ray;
    let mut attenuations: Vec<<W::Material as Material>::Color> = Vec::new();
    let ghost mut rays: Seq<W::Ray> = seq![current];
    loop
        invariant
            rays.len() == attenuations@.len() + 1,
            rays[0] == ray,
            rays.last() == current,
            path.depth == depth + attenuations@.len(),
            attenuations@.len() > 0 ==> path.depth <= MAX_DEPTH,
            forall|k: int|
                0 <= k < attenuations@.len() ==> depth + k < MAX_DEPTH && scatters_into(
                    world,
                    #[trigger] rays[k],
                    rays[k + 1],
                    attenuations@[k],
                ),
        decreases
                if path.depth < MAX_DEPTH {
                    MAX_DEPTH - path.depth
                } else {
                    0
                },
    {
        let record = world.hit(&current, Scalar::from_bits(T_MIN_BITS), Scalar::from_bits(T_MAX_BITS));
        let ghost seen = record;
        assert(probed(world, current, seen));
        let ending = match record {
            HitRecord::Nothing => {
                assert(ends_at(world, path.depth as int, current, Ending::Sky));
                Ending::Sky
            },
            HitRecord::Hit { t: _, point, normal, material } => match path.probe(true) {
                Step::Scatter { next } => {
                    let out = material.scatter(&current, point, normal);
                    assert(scattered::<W>(current, seen, out));
                    match out {
                        ScatterRecord::Absorption => {
                            assert(ends_at(world, path.depth as int, current, Ending::Absorbed));
                            Ending::Absorbed
                        },
                        ScatterRecord::Scatter { scattered: next_ray, attenuation } => {
                            proof {
                                let longer = rays.push(next_ray);
                                assert(scatters_into(world, current, next_ray, attenuation));
                                assert forall|k: int| 0 <= k < attenuations@.len() implies scatters_into(
                                    world,
                                    #[trigger] longer[k],
                                    longer[k + 1],
                                    attenuations@.push(attenuation)[k],
                                ) by {
                                    assert(longer[k] == rays[k] && longer[k + 1] == rays[k + 1]);
                                }
                                rays = longer;
                            }
                            attenuations.push(attenuation);
                            current = next_ray;
                            path = next;
                            continue ;
                        },
                    }
                },
                _ => {
                    assert(ends_at(world, path.depth as int, current, Ending::Cutoff));
                    Ending::Cutoff
                },
            },
        };
        let end = Trace { ending, ray: current, attenuations };
        assert(follows(world, depth as int, rays, end));
        return end;
    }
}

} // verus!
