//! The sphere, and the test of a ray against it.
//!
//! A ray meets a sphere where its parameter is a root of a quadratic. Which
//! of the roots counts as the meeting is decided here; the roots themselves,
//! the order of the ray's parameters and the point and normal at a root are
//! measured by functions of the caller, gathered in [`Geometry`].

use vstd::prelude::*;
use crate::record::HitRecord;
use crate::scan::{
    faithful, from_scene, lemma_closest_hit_is_nearest, reach, scan_of, scanned,
};

verus! {

/// A sphere, over the caller's types of vectors (`V`), of numbers (`T`) and
/// of what stands for a material (`M`).
#[derive(Debug)]
pub struct Sphere<V, T, M> {
    pub center: V,
    pub radius: T,
    pub material: M,
}

impl<V, T, M> Sphere<V, T, M> {
    /// The sphere about `center` with the given radius and material.
    pub fn new(center: V, radius: T, material: M) -> (sphere: Self)
        ensures
            sphere == (Sphere { center, radius, material }),
    {
        Sphere { center, radius, material }
    }
}

/// The measurements that the test of a ray against a sphere asks of its
/// caller.
///
/// - `roots(sphere, ray)` gives the parameters at which the ray's line
///   crosses the sphere, the smaller one first, or nothing where the line
///   passes the sphere by;
/// - `inside(t, t_min, t_max)` says whether `t` lies strictly between
///   `t_min` and `t_max`;
/// - `surface(sphere, ray, t)` gives the point of the ray at `t`, the
///   sphere's normal there, of length one and turned against the ray, and
///   whether the ray comes from outside the sphere.
pub struct Geometry<FR, FI, FS> {
    pub roots: FR,
    pub inside: FI,
    pub surface: FS,
}

impl<FR, FI, FS> Geometry<FR, FI, FS> {
    /// Every one of the three functions accepts every argument.
    pub open spec fn total<R, V, T, M>(&self) -> bool where
        FR: Fn(&Sphere<V, T, M>, &R) -> Option<(T, T)>,
        FI: Fn(T, T, T) -> bool,
        FS: Fn(&Sphere<V, T, M>, &R, T) -> (V, V, bool),
     {
        &&& forall|s: &Sphere<V, T, M>, r: &R| call_requires(self.roots, (s, r))
        &&& forall|t: T, lo: T, hi: T| call_requires(self.inside, (t, lo, hi))
        &&& forall|s: &Sphere<V, T, M>, r: &R, t: T| call_requires(self.surface, (s, r, t))
    }

    /// The three functions answer as `model` says.
    pub open spec fn follows<R, V, T, M>(&self, model: Solid<R, V, T, M>) -> bool where
        FR: Fn(&Sphere<V, T, M>, &R) -> Option<(T, T)>,
        FI: Fn(T, T, T) -> bool,
        FS: Fn(&Sphere<V, T, M>, &R, T) -> (V, V, bool),
     {
        &&& forall|s: &Sphere<V, T, M>, r: &R, out: Option<(T, T)>|
            #[trigger] call_ensures(self.roots, (s, r), out) ==> out == (model.roots)(*s, *r)
        &&& forall|t: T, lo: T, hi: T, out: bool|
            #[trigger] call_ensures(self.inside, (t, lo, hi), out)
                ==> out == model.between(t, lo, hi)
        &&& forall|s: &Sphere<V, T, M>, r: &R, t: T, out: (V, V, bool)|
            #[trigger] call_ensures(self.surface, (s, r, t), out)
                ==> out == (model.surface)(*s, *r, t)
    }
}

/// The record of a meeting with `sphere` at the parameter `t`, where the
/// point, the normal and the side of the meeting are `at`.
pub open spec fn record_of<V, T, M>(sphere: Sphere<V, T, M>, t: T, at: (V, V, bool)) -> HitRecord<
    V,
    T,
    M,
> {
    HitRecord { point: at.0, normal: at.1, t, front_face: at.2, material: sphere.material }
}

/// `out` is a record of `ray` meeting `sphere` at the parameter `t`.
pub open spec fn recorded<R, V, T, M, FR, FI, FS>(
    geometry: Geometry<FR, FI, FS>,
    sphere: Sphere<V, T, M>,
    ray: R,
    t: T,
    out: Option<HitRecord<V, T, M>>,
) -> bool where
    FR: Fn(&Sphere<V, T, M>, &R) -> Option<(T, T)>,
    FI: Fn(T, T, T) -> bool,
    FS: Fn(&Sphere<V, T, M>, &R, T) -> (V, V, bool),
 {
    exists|at: (V, V, bool)|
        #[trigger] call_ensures(geometry.surface, (&sphere, &ray, t), at)
            && out == Some(record_of(sphere, t, at))
}

/// What the test can give once the roots are known: the record of the
/// meeting at `first` where that root lies inside `(t_min, t_max)`, else at
/// `second` where that one does, else nothing.
pub open spec fn chosen<R, V, T, M, FR, FI, FS>(
    geometry: Geometry<FR, FI, FS>,
    sphere: Sphere<V, T, M>,
    ray: R,
    t_min: T,
    t_max: T,
    first: T,
    second: T,
    out: Option<HitRecord<V, T, M>>,
) -> bool where
    FR: Fn(&Sphere<V, T, M>, &R) -> Option<(T, T)>,
    FI: Fn(T, T, T) -> bool,
    FS: Fn(&Sphere<V, T, M>, &R, T) -> (V, V, bool),
 {
    exists|first_in: bool|
        #[trigger] call_ensures(geometry.inside, (first, t_min, t_max), first_in) && if first_in {
            recorded(geometry, sphere, ray, first, out)
        } else {
            exists|second_in: bool|
                #[trigger] call_ensures(geometry.inside, (second, t_min, t_max), second_in)
                    && if second_in {
                    recorded(geometry, sphere, ray, second, out)
                } else {
                    out is None
                }
        }
}

/// What the test of `ray` against `sphere` can give inside `(t_min, t_max)`.
///
/// Where the ray's line passes the sphere by, nothing. Otherwise the record
/// of the meeting at the smaller root where that root lies inside the
/// interval, else at the larger root where that one does, else nothing.
pub open spec fn met<R, V, T, M, FR, FI, FS>(
    geometry: Geometry<FR, FI, FS>,
    sphere: Sphere<V, T, M>,
    ray: R,
    t_min: T,
    t_max: T,
    out: Option<HitRecord<V, T, M>>,
) -> bool where
    FR: Fn(&Sphere<V, T, M>, &R) -> Option<(T, T)>,
    FI: Fn(T, T, T) -> bool,
    FS: Fn(&Sphere<V, T, M>, &R, T) -> (V, V, bool),
 {
    exists|roots: Option<(T, T)>|
        #[trigger] call_ensures(geometry.roots, (&sphere, &ray), roots) && match roots {
            None => out is None,
            Some((first, second)) => chosen(
                geometry, sphere, ray, t_min, t_max, first, second, out,
            ),
        }
}

/// Tests `ray` against `sphere`: the record of their nearest meeting at a
/// parameter strictly inside `(t_min, t_max)`, if there is one.
///
/// A ray whose line passes the sphere by meets nothing, and the record of a
/// meeting carries the sphere's material.
pub fn hit<R, V, T: Copy, M: Copy, FR, FI, FS>(
    sphere: &Sphere<V, T, M>,
    ray: &R,
    t_min: T,
    t_max: T,
    geometry: &Geometry<FR, FI, FS>,
) -> (out: Option<HitRecord<V, T, M>>) where
    FR: Fn(&Sphere<V, T, M>, &R) -> Option<(T, T)>,
    FI: Fn(T, T, T) -> bool,
    FS: Fn(&Sphere<V, T, M>, &R, T) -> (V, V, bool),

    requires
        geometry.total(),
    ensures
        met(*geometry, *sphere, *ray, t_min, t_max, out),
        (forall|roots: Option<(T, T)>|
            call_ensures(geometry.roots, (sphere, ray), roots) ==> roots is None) ==> out is None,
        out matches Some(record) ==> record.material == sphere.material,
{
    let roots = (geometry.roots)(sphere, ray);
    match roots {
        None => None,
        Some((first, second)) => {
            if (geometry.inside)(first, t_min, t_max) {
                Some(record_at(sphere, ray, first, geometry))
            } else if (geometry.inside)(second, t_min, t_max) {
                Some(record_at(sphere, ray, second, geometry))
            } else {
                None
            }
        },
    }
}

/// The record of `ray` meeting `sphere` at the parameter `t`.
fn record_at<R, V, T: Copy, M: Copy, FR, FI, FS>(
    sphere: &Sphere<V, T, M>,
    ray: &R,
    t: T,
    geometry: &Geometry<FR, FI, FS>,
) -> (record: HitRecord<V, T, M>) where
    FR: Fn(&Sphere<V, T, M>, &R) -> Option<(T, T)>,
    FI: Fn(T, T, T) -> bool,
    FS: Fn(&Sphere<V, T, M>, &R, T) -> (V, V, bool),

    requires
        geometry.total(),
    ensures
        recorded(*geometry, *sphere, *ray, t, Some(record)),
        record.material == sphere.material,
        record.t == t,
{
    let (point, normal, front_face) = (geometry.surface)(sphere, ray, t);
    HitRecord { point, normal, t, front_face, material: sphere.material }
}

/// What the three functions of a [`Geometry`] answer: the mathematical
/// content of the geometry of spheres, with the order of the ray's
/// parameters in place of the test of an interval.
#[verifier::reject_recursive_types(R)]
#[verifier::reject_recursive_types(V)]
#[verifier::reject_recursive_types(T)]
#[verifier::reject_recursive_types(M)]
pub struct Solid<R, V, T, M> {
    pub roots: spec_fn(Sphere<V, T, M>, R) -> Option<(T, T)>,
    pub before: spec_fn(T, T) -> bool,
    pub surface: spec_fn(Sphere<V, T, M>, R, T) -> (V, V, bool),
}

impl<R, V, T, M> Solid<R, V, T, M> {
    /// `t` lies strictly between `t_min` and `t_max`.
    pub open spec fn between(self, t: T, t_min: T, t_max: T) -> bool {
        (self.before)(t_min, t) && (self.before)(t, t_max)
    }

    /// The record of `ray` meeting `sphere` at the parameter `t`.
    pub open spec fn record(self, sphere: Sphere<V, T, M>, ray: R, t: T) -> HitRecord<V, T, M> {
        record_of(sphere, t, (self.surface)(sphere, ray, t))
    }

    /// What the test of `ray` against `sphere` gives inside `(t_min, t_max)`.
    pub open spec fn hit_of(
        self,
        sphere: Sphere<V, T, M>,
        ray: R,
        t_min: T,
        t_max: T,
    ) -> Option<HitRecord<V, T, M>> {
        match (self.roots)(sphere, ray) {
            None => None,
            Some((first, second)) => if self.between(first, t_min, t_max) {
                Some(self.record(sphere, ray, first))
            } else if self.between(second, t_min, t_max) {
                Some(self.record(sphere, ray, second))
            } else {
                None
            },
        }
    }

    /// The test of a sphere along `ray` from `near` on, as a scan asks it.
    pub open spec fn test_along(self, ray: R, near: T) -> spec_fn(Sphere<V, T, M>, T) -> Option<
        HitRecord<V, T, M>,
    > {
        |sphere: Sphere<V, T, M>, bound: T| self.hit_of(sphere, ray, near, bound)
    }

    /// No parameter lies before itself, and what lies before a parameter lies
    /// before every later one.
    pub open spec fn ordered(self) -> bool {
        &&& forall|t: T| !#[trigger] (self.before)(t, t)
        &&& forall|a: T, b: T, c: T|
            #[trigger] (self.before)(a, b) && #[trigger] (self.before)(b, c) ==> (self.before)(a, c)
    }

    /// The roots of every sphere of `world` along `ray` are given the smaller
    /// one first.
    pub open spec fn sorted(self, world: Seq<Sphere<V, T, M>>, ray: R) -> bool {
        forall|i: int|
            0 <= i < world.len() ==> match #[trigger] (self.roots)(world[i], ray) {
                Some((first, second)) => !(self.before)(second, first),
                None => true,
            }
    }
}

/// Where the geometry answers as `model` says, the test gives what `hit_of`
/// says.
pub proof fn lemma_met_is_hit_of<R, V, T, M, FR, FI, FS>(
    geometry: Geometry<FR, FI, FS>,
    model: Solid<R, V, T, M>,
    sphere: Sphere<V, T, M>,
    ray: R,
    t_min: T,
    t_max: T,
    out: Option<HitRecord<V, T, M>>,
) where
    FR: Fn(&Sphere<V, T, M>, &R) -> Option<(T, T)>,
    FI: Fn(T, T, T) -> bool,
    FS: Fn(&Sphere<V, T, M>, &R, T) -> (V, V, bool),

    requires
        geometry.follows(model),
        met(geometry, sphere, ray, t_min, t_max, out),
    ensures
        out == model.hit_of(sphere, ray, t_min, t_max),
{
}

/// The test of a sphere is a faithful intersection test: with parameters in
/// order and roots given the smaller one first, a hit lies inside the
/// interval that was asked for, the sphere has nothing before its hit, and a
/// sphere with nothing inside an interval has nothing inside a shorter one.
/// So a scan of spheres finds the nearest meeting.
pub proof fn lemma_hit_of_is_faithful<R, V, T, M>(
    model: Solid<R, V, T, M>,
    world: Seq<Sphere<V, T, M>>,
    ray: R,
    near: T,
)
    requires
        model.ordered(),
        model.sorted(world, ray),
    ensures
        faithful(world, model.test_along(ray, near), model.before),
{
}

/// A scan of spheres finds the nearest meeting.
///
/// Where `hit` tests every sphere as [`hit`](self::hit) does, with a geometry
/// that answers as `model` says, with parameters in order and with roots
/// given the smaller one first, what a scan of `world` leaves is the meeting
/// with one of its spheres, and no sphere of `world` is met before it.
pub proof fn lemma_scan_of_spheres_is_nearest<R, V, T, M, FH, FR, FI, FS>(
    hit: FH,
    geometry: Geometry<FR, FI, FS>,
    model: Solid<R, V, T, M>,
    ray: R,
    world: Seq<Sphere<V, T, M>>,
    near: T,
    far: T,
    found: Option<HitRecord<V, T, M>>,
) where
    FH: Fn(&Sphere<V, T, M>, &R, T, T) -> Option<HitRecord<V, T, M>>,
    FR: Fn(&Sphere<V, T, M>, &R) -> Option<(T, T)>,
    FI: Fn(T, T, T) -> bool,
    FS: Fn(&Sphere<V, T, M>, &R, T) -> (V, V, bool),

    requires
        forall|s: &Sphere<V, T, M>, r: &R, lo: T, hi: T, out: Option<HitRecord<V, T, M>>|
            #[trigger] call_ensures(hit, (s, r, lo, hi), out)
                ==> met(geometry, *s, *r, lo, hi, out),
        geometry.follows(model),
        model.ordered(),
        model.sorted(world, ray),
        scanned(hit, ray, world, 0, near, far, None, found),
    ensures
        found == scan_of(world, model.test_along(ray, near), 0, far, None),
        forall|j: int|
            0 <= j < world.len()
                ==> model.hit_of(#[trigger] world[j], ray, near, reach(far, found)) is None,
        from_scene(world, model.test_along(ray, near), found),
{
    let test = model.test_along(ray, near);
    assert forall|i: int, bound: T, out: Option<HitRecord<V, T, M>>|
        0 <= i < world.len() && #[trigger] call_ensures(
            hit,
            (&world[i], &ray, near, bound),
            out,
        ) implies out == test(world[i], bound) by {
        lemma_met_is_hit_of(geometry, model, world[i], ray, near, bound, out);
    }
    lemma_hit_of_is_faithful(model, world, ray, near);
    lemma_closest_hit_is_nearest(hit, ray, world, near, far, found, test, model.before);
    assert forall|j: int| 0 <= j < world.len() implies model.hit_of(
        #[trigger] world[j],
        ray,
        near,
        reach(far, found),
    ) is None by {
        assert(test(world[j], reach(far, found)) is None);
    }
}

} // verus!
