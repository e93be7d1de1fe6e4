//! Light transport along one ray.
//!
//! The tracer follows a ray through a scene for a bounded number of bounces.
//! It knows nothing of vectors or spheres: the measurements it needs are
//! functions of the caller, gathered in [`Optics`], and rays, surfaces, ray
//! parameters and attenuations are values of the caller's types that the
//! tracer only carries from one of these functions to the next.
//!
//! A material may scatter at random, so two traces of one ray may differ. The
//! contracts therefore say which results are possible: [`traced`] relates a
//! result to what the caller's functions can return.

use vstd::prelude::*;
use crate::pixel::Pixel;
use crate::record::HitRecord;
use crate::scan::{
    closest_hit, lemma_scan_of_misses, lemma_scanned_is_scan_of, lemma_scanned_unique, misses,
    scan_of, scanned,
};

verus! {

/// The measurements that the tracer asks of its caller, and the interval of
/// ray parameters inside which it looks for surfaces.
///
/// - `hit(surface, ray, t_min, t_max)` tests one surface against a ray and,
///   where the ray meets it at a parameter inside `(t_min, t_max)`, gives the
///   record of the meeting;
/// - `scatter(ray, record)` lets the material at the meeting re-emit the light:
///   an attenuation and the scattered ray, or nothing where it absorbs;
/// - `attenuate(attenuation, pixel)` dims a colour by an attenuation;
/// - `sky(ray)` is the colour of the background in the ray's direction.
///
/// `near` keeps a scattered ray from meeting the surface it has just left, and
/// `far` is the bound beyond which nothing is sought.
pub struct Optics<T, FH, FS, FA, FK> {
    pub near: T,
    pub far: T,
    pub hit: FH,
    pub scatter: FS,
    pub attenuate: FA,
    pub sky: FK,
}

impl<T, FH, FS, FA, FK> Optics<T, FH, FS, FA, FK> {
    /// Every one of the four functions accepts every argument.
    pub open spec fn total<R, S, V, M, A>(&self) -> bool where
        FH: Fn(&S, &R, T, T) -> Option<HitRecord<V, T, M>>,
        FS: Fn(&R, HitRecord<V, T, M>) -> Option<(A, R)>,
        FA: Fn(&A, Pixel) -> Pixel,
        FK: Fn(&R) -> Pixel,
     {
        &&& forall|s: &S, r: &R, lo: T, hi: T| call_requires(self.hit, (s, r, lo, hi))
        &&& forall|r: &R, h: HitRecord<V, T, M>| call_requires(self.scatter, (r, h))
        &&& forall|a: &A, p: Pixel| call_requires(self.attenuate, (a, p))
        &&& forall|r: &R| call_requires(self.sky, (r,))
    }

    /// The four functions answer as `model` says.
    pub open spec fn follows<R, S, V, M, A>(&self, model: Model<R, S, V, T, M, A>) -> bool where
        FH: Fn(&S, &R, T, T) -> Option<HitRecord<V, T, M>>,
        FS: Fn(&R, HitRecord<V, T, M>) -> Option<(A, R)>,
        FA: Fn(&A, Pixel) -> Pixel,
        FK: Fn(&R) -> Pixel,
     {
        &&& forall|s: &S, r: &R, lo: T, hi: T, out: Option<HitRecord<V, T, M>>|
            #[trigger] call_ensures(self.hit, (s, r, lo, hi), out)
                ==> out == (model.hit)(*s, *r, lo, hi)
        &&& forall|r: &R, h: HitRecord<V, T, M>, out: Option<(A, R)>|
            #[trigger] call_ensures(self.scatter, (r, h), out) ==> out == (model.scatter)(*r, h)
        &&& forall|a: &A, p: Pixel, out: Pixel|
            #[trigger] call_ensures(self.attenuate, (a, p), out)
                ==> out == (model.attenuate)(*a, p)
        &&& forall|r: &R, out: Pixel|
            #[trigger] call_ensures(self.sky, (r,), out) ==> out == (model.sky)(*r)
    }

    /// None of the four functions can answer one question in two ways.
    pub open spec fn single_valued<R, S, V, M, A>(&self) -> bool where
        FH: Fn(&S, &R, T, T) -> Option<HitRecord<V, T, M>>,
        FS: Fn(&R, HitRecord<V, T, M>) -> Option<(A, R)>,
        FA: Fn(&A, Pixel) -> Pixel,
        FK: Fn(&R) -> Pixel,
     {
        &&& forall|s: &S, r: &R, lo: T, hi: T, one: Option<HitRecord<V, T, M>>, other: Option<HitRecord<V, T, M>>|
            call_ensures(self.hit, (s, r, lo, hi), one)
                && call_ensures(self.hit, (s, r, lo, hi), other) ==> one == other
        &&& forall|r: &R, h: HitRecord<V, T, M>, one: Option<(A, R)>, other: Option<(A, R)>|
            call_ensures(self.scatter, (r, h), one)
                && call_ensures(self.scatter, (r, h), other) ==> one == other
        &&& forall|a: &A, p: Pixel, one: Pixel, other: Pixel|
            call_ensures(self.attenuate, (a, p), one)
                && call_ensures(self.attenuate, (a, p), other) ==> one == other
        &&& forall|r: &R, one: Pixel, other: Pixel|
            call_ensures(self.sky, (r,), one) && call_ensures(self.sky, (r,), other)
                ==> one == other
    }
}

/// The colours that a trace of `ray` through `world` can give with `depth`
/// bounces left.
///
/// With no bounce left the light is spent and the colour is black. Otherwise
/// the nearest surface decides: where the ray meets none, the colour is the
/// sky's; where the material absorbs, it is black; where the material
/// scatters, it is the colour traced along the scattered ray with one bounce
/// fewer, dimmed by the material's attenuation.
pub open spec fn traced<R, S, V, T, M, A, FH, FS, FA, FK>(
    optics: Optics<T, FH, FS, FA, FK>,
    ray: R,
    world: Seq<S>,
    depth: nat,
    out: Pixel,
) -> bool where
    FH: Fn(&S, &R, T, T) -> Option<HitRecord<V, T, M>>,
    FS: Fn(&R, HitRecord<V, T, M>) -> Option<(A, R)>,
    FA: Fn(&A, Pixel) -> Pixel,
    FK: Fn(&R) -> Pixel,

    decreases depth, 2nat,
{
    if depth == 0 {
        out == Pixel::black()
    } else {
        exists|found: Option<HitRecord<V, T, M>>|
            #[trigger] scanned(optics.hit, ray, world, 0, optics.near, optics.far, None, found)
                && after_scan(optics, ray, world, depth, found, out)
    }
}

/// The colours that a trace with `depth` bounces left can give once its scan
/// has left `found`.
pub open spec fn after_scan<R, S, V, T, M, A, FH, FS, FA, FK>(
    optics: Optics<T, FH, FS, FA, FK>,
    ray: R,
    world: Seq<S>,
    depth: nat,
    found: Option<HitRecord<V, T, M>>,
    out: Pixel,
) -> bool where
    FH: Fn(&S, &R, T, T) -> Option<HitRecord<V, T, M>>,
    FS: Fn(&R, HitRecord<V, T, M>) -> Option<(A, R)>,
    FA: Fn(&A, Pixel) -> Pixel,
    FK: Fn(&R) -> Pixel,

    recommends
        depth > 0,
    decreases depth, 1nat,
{
    match found {
        None => call_ensures(optics.sky, (&ray,), out),
        Some(record) => exists|re: Option<(A, R)>|
            #[trigger] call_ensures(optics.scatter, (&ray, record), re)
                && after_scatter(optics, world, depth, re, out),
    }
}

/// The colours that a trace with `depth` bounces left can give once the
/// material that it met has answered `re`.
pub open spec fn after_scatter<R, S, V, T, M, A, FH, FS, FA, FK>(
    optics: Optics<T, FH, FS, FA, FK>,
    world: Seq<S>,
    depth: nat,
    re: Option<(A, R)>,
    out: Pixel,
) -> bool where
    FH: Fn(&S, &R, T, T) -> Option<HitRecord<V, T, M>>,
    FS: Fn(&R, HitRecord<V, T, M>) -> Option<(A, R)>,
    FA: Fn(&A, Pixel) -> Pixel,
    FK: Fn(&R) -> Pixel,

    recommends
        depth > 0,
    decreases depth, 0nat,
{
    match re {
        None => out == Pixel::black(),
        Some((attenuation, onward)) => depth > 0 && exists|inner: Pixel|
            traced(optics, onward, world, (depth - 1) as nat, inner)
                && #[trigger] call_ensures(optics.attenuate, (&attenuation, inner), out),
    }
}

/// The colour that arrives along `r` from `world`, followed for at most
/// `max_depth` bounces.
///
/// A trace with no bounce left is black whatever the ray and the scene, and a
/// trace through an empty scene is the sky seen along the ray.
pub fn trace_ray<R, S, V, T: Copy, M, A, FH, FS, FA, FK>(
    r: &R,
    world: &Vec<S>,
    max_depth: usize,
    optics: &Optics<T, FH, FS, FA, FK>,
) -> (out: Pixel) where
    FH: Fn(&S, &R, T, T) -> Option<HitRecord<V, T, M>>,
    FS: Fn(&R, HitRecord<V, T, M>) -> Option<(A, R)>,
    FA: Fn(&A, Pixel) -> Pixel,
    FK: Fn(&R) -> Pixel,

    requires
        optics.total(),
    ensures
        traced(*optics, *r, world@, max_depth as nat, out),
        max_depth == 0 ==> out == Pixel::black(),
        max_depth > 0 && world@.len() == 0 ==> call_ensures(optics.sky, (r,), out),
    decreases max_depth,
{
    if max_depth == 0 {
        return Pixel::black();
    }
    let found = closest_hit(r, world, optics.near, optics.far, &optics.hit);
    match found {
        None => (optics.sky)(r),
        Some(record) => {
            let re = (optics.scatter)(r, record);
            match re {
                None => Pixel::black(),
                Some((attenuation, onward)) => {
                    let inner = trace_ray(&onward, world, max_depth - 1, optics);
                    (optics.attenuate)(&attenuation, inner)
                },
            }
        },
    }
}

/// What the four functions of an [`Optics`] answer, where each answers every
/// question in one way: the mathematical content of optics without chance.
#[verifier::reject_recursive_types(R)]
#[verifier::reject_recursive_types(S)]
#[verifier::reject_recursive_types(V)]
#[verifier::reject_recursive_types(M)]
#[verifier::reject_recursive_types(T)]
#[verifier::reject_recursive_types(A)]
pub struct Model<R, S, V, T, M, A> {
    pub hit: spec_fn(S, R, T, T) -> Option<HitRecord<V, T, M>>,
    pub scatter: spec_fn(R, HitRecord<V, T, M>) -> Option<(A, R)>,
    pub attenuate: spec_fn(A, Pixel) -> Pixel,
    pub sky: spec_fn(R) -> Pixel,
}

impl<R, S, V, T, M, A> Model<R, S, V, T, M, A> {
    /// The test of a surface along `ray` from `near` on, as the scan asks it.
    pub open spec fn test_along(self, ray: R, near: T) -> spec_fn(S, T) -> Option<HitRecord<V, T, M>> {
        |surface: S, bound: T| (self.hit)(surface, ray, near, bound)
    }
}

/// The colour that a trace of `ray` through `world` gives with `depth`
/// bounces left, where the optics answer as `model` says.
pub open spec fn trace_of<R, S, V, T, M, A>(
    model: Model<R, S, V, T, M, A>,
    near: T,
    far: T,
    ray: R,
    world: Seq<S>,
    depth: nat,
) -> Pixel
    decreases depth,
{
    if depth == 0 {
        Pixel::black()
    } else {
        match scan_of(world, model.test_along(ray, near), 0, far, None) {
            None => (model.sky)(ray),
            Some(record) => match (model.scatter)(ray, record) {
                None => Pixel::black(),
                Some((attenuation, onward)) => (model.attenuate)(
                    attenuation,
                    trace_of(model, near, far, onward, world, (depth - 1) as nat),
                ),
            },
        }
    }
}

/// Where the optics answer as `model` says, a trace gives what `trace_of`
/// says.
pub proof fn lemma_traced_is_trace_of<R, S, V, T, M, A, FH, FS, FA, FK>(
    optics: Optics<T, FH, FS, FA, FK>,
    model: Model<R, S, V, T, M, A>,
    ray: R,
    world: Seq<S>,
    depth: nat,
    out: Pixel,
) where
    FH: Fn(&S, &R, T, T) -> Option<HitRecord<V, T, M>>,
    FS: Fn(&R, HitRecord<V, T, M>) -> Option<(A, R)>,
    FA: Fn(&A, Pixel) -> Pixel,
    FK: Fn(&R) -> Pixel,

    requires
        optics.follows(model),
        traced(optics, ray, world, depth, out),
    ensures
        out == trace_of(model, optics.near, optics.far, ray, world, depth),
    decreases depth,
{
    if depth > 0 {
        let found = choose|found: Option<HitRecord<V, T, M>>|
            #[trigger] scanned(optics.hit, ray, world, 0, optics.near, optics.far, None, found)
                && after_scan(optics, ray, world, depth, found, out);
        lemma_scanned_is_scan_of(
            optics.hit,
            ray,
            world,
            0,
            optics.near,
            optics.far,
            None,
            found,
            model.test_along(ray, optics.near),
        );
        if let Some(record) = found {
            let re = choose|re: Option<(A, R)>|
                #[trigger] call_ensures(optics.scatter, (&ray, record), re)
                    && after_scatter(optics, world, depth, re, out);
            if let Some((attenuation, onward)) = re {
                let inner = choose|inner: Pixel|
                    traced(optics, onward, world, (depth - 1) as nat, inner)
                        && #[trigger] call_ensures(optics.attenuate, (&attenuation, inner), out);
                lemma_traced_is_trace_of(optics, model, onward, world, (depth - 1) as nat, inner);
            }
        }
    }
}

/// A ray that misses every surface shows the sky: where no surface of `world`
/// can be hit inside `(near, far)`, a trace with a bounce left gives what the
/// sky gives along the ray.
pub proof fn lemma_traced_past_misses<R, S, V, T, M, A, FH, FS, FA, FK>(
    optics: Optics<T, FH, FS, FA, FK>,
    ray: R,
    world: Seq<S>,
    depth: nat,
    out: Pixel,
) where
    FH: Fn(&S, &R, T, T) -> Option<HitRecord<V, T, M>>,
    FS: Fn(&R, HitRecord<V, T, M>) -> Option<(A, R)>,
    FA: Fn(&A, Pixel) -> Pixel,
    FK: Fn(&R) -> Pixel,

    requires
        depth > 0,
        forall|j: int|
            0 <= j < world.len()
                ==> misses(optics.hit, ray, #[trigger] world[j], optics.near, optics.far),
        traced(optics, ray, world, depth, out),
    ensures
        call_ensures(optics.sky, (&ray,), out),
{
    let found = choose|found: Option<HitRecord<V, T, M>>|
        #[trigger] scanned(optics.hit, ray, world, 0, optics.near, optics.far, None, found)
            && after_scan(optics, ray, world, depth, found, out);
    lemma_scan_of_misses(optics.hit, ray, world, 0, optics.near, optics.far, None, found);
}

/// The tracer adds no chance of its own: where the caller's functions answer
/// each question in one way, a trace has one result.
pub proof fn lemma_traced_unique<R, S, V, T, M, A, FH, FS, FA, FK>(
    optics: Optics<T, FH, FS, FA, FK>,
    ray: R,
    world: Seq<S>,
    depth: nat,
    one: Pixel,
    other: Pixel,
) where
    FH: Fn(&S, &R, T, T) -> Option<HitRecord<V, T, M>>,
    FS: Fn(&R, HitRecord<V, T, M>) -> Option<(A, R)>,
    FA: Fn(&A, Pixel) -> Pixel,
    FK: Fn(&R) -> Pixel,

    requires
        optics.single_valued(),
        traced(optics, ray, world, depth, one),
        traced(optics, ray, world, depth, other),
    ensures
        one == other,
    decreases depth,
{
    if depth > 0 {
        let first = choose|found: Option<HitRecord<V, T, M>>|
            #[trigger] scanned(optics.hit, ray, world, 0, optics.near, optics.far, None, found)
                && after_scan(optics, ray, world, depth, found, one);
        let second = choose|found: Option<HitRecord<V, T, M>>|
            #[trigger] scanned(optics.hit, ray, world, 0, optics.near, optics.far, None, found)
                && after_scan(optics, ray, world, depth, found, other);
        lemma_scanned_unique(
            optics.hit, ray, world, 0, optics.near, optics.far, None, first, second,
        );
        if let Some(record) = first {
            let re = choose|re: Option<(A, R)>|
                #[trigger] call_ensures(optics.scatter, (&ray, record), re)
                    && after_scatter(optics, world, depth, re, one);
            let re_other = choose|re: Option<(A, R)>|
                #[trigger] call_ensures(optics.scatter, (&ray, record), re)
                    && after_scatter(optics, world, depth, re, other);
            assert(re == re_other);
            if let Some((attenuation, onward)) = re {
                let inner = choose|inner: Pixel|
                    traced(optics, onward, world, (depth - 1) as nat, inner)
                        && #[trigger] call_ensures(optics.attenuate, (&attenuation, inner), one);
                let inner_other = choose|inner: Pixel|
                    traced(optics, onward, world, (depth - 1) as nat, inner)
                        && #[trigger] call_ensures(optics.attenuate, (&attenuation, inner), other);
                lemma_traced_unique(optics, onward, world, (depth - 1) as nat, inner, inner_other);
            }
        }
    }
}

} // verus!
