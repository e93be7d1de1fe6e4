//! The scan of a scene for the nearest surface that a ray meets.
//!
//! The scan knows nothing of geometry: whether a ray meets a surface is a
//! function of the caller, `hit(surface, ray, t_min, t_max)`, which gives the
//! record of the meeting where the ray's parameter there lies inside
//! `(t_min, t_max)`. The scan hands every surface to that function in turn
//! and pulls the upper bound in to the parameter of each hit that it is
//! given, so that a later surface is accepted only where it lies nearer.

use vstd::prelude::*;
use crate::record::HitRecord;

verus! {

/// The upper bound that a scan works with once it holds `best`: the parameter
/// of the hit it holds, or `far` while it holds none.
pub open spec fn reach<V, T, M>(far: T, best: Option<HitRecord<V, T, M>>) -> T {
    match best {
        Some(record) => record.t,
        None => far,
    }
}

/// What a scan holds after a test has answered `out`: the new hit, or what it
/// held before where the surface was missed.
pub open spec fn held<V, T, M>(best: Option<HitRecord<V, T, M>>, out: Option<HitRecord<V, T, M>>) -> Option<HitRecord<V, T, M>> {
    if out is Some {
        out
    } else {
        best
    }
}

/// What a scan of `world[from..]` can leave behind when it is entered holding
/// `best`.
///
/// Each surface in turn is tested inside `(near, reach(far, best))`. A surface
/// that is hit replaces what the scan holds, which pulls the bound in to the
/// new hit's parameter for every later surface; a surface that is missed
/// changes nothing.
pub open spec fn scanned<R, S, V, T, M, FH: Fn(&S, &R, T, T) -> Option<HitRecord<V, T, M>>>(
    hit: FH,
    ray: R,
    world: Seq<S>,
    from: int,
    near: T,
    far: T,
    best: Option<HitRecord<V, T, M>>,
    found: Option<HitRecord<V, T, M>>,
) -> bool
    decreases world.len() - from,
{
    if from < 0 || from >= world.len() {
        found == best
    } else {
        exists|out: Option<HitRecord<V, T, M>>|
            #[trigger] call_ensures(hit, (&world[from], &ray, near, reach(far, best)), out)
                && scanned(hit, ray, world, from + 1, near, far, held(best, out), found)
    }
}

/// What a scan of the whole of `world` along `ray` leaves: the last hit that
/// was accepted, or nothing where every surface was missed.
///
/// The surfaces are tested in the order in which the scene holds them, the
/// first inside `(near, far)` and each later one inside the interval that the
/// hits before it have left. With a `hit` that tests as an intersection test
/// does, what is left is the nearest meeting of the ray with the scene: see
/// [`lemma_closest_hit_is_nearest`].
pub fn closest_hit<R, S, V, T: Copy, M, FH: Fn(&S, &R, T, T) -> Option<HitRecord<V, T, M>>>(
    ray: &R,
    world: &Vec<S>,
    near: T,
    far: T,
    hit: &FH,
) -> (found: Option<HitRecord<V, T, M>>)
    requires
        forall|s: &S, r: &R, lo: T, hi: T| call_requires(*hit, (s, r, lo, hi)),
    ensures
        scanned(*hit, *ray, world@, 0, near, far, None, found),
        world@.len() == 0 ==> found is None,
{
    let mut bound = far;
    let mut best: Option<HitRecord<V, T, M>> = None;
    let mut i: usize = 0;
    while i < world.len()
        invariant
            i <= world.len(),
            forall|s: &S, r: &R, lo: T, hi: T| call_requires(*hit, (s, r, lo, hi)),
            i == 0 ==> best is None,
            bound == reach(far, best),
            forall|end: Option<HitRecord<V, T, M>>|
                scanned(*hit, *ray, world@, i as int, near, far, best, end)
                    ==> scanned(*hit, *ray, world@, 0, near, far, None, end),
        decreases world.len() - i,
    {
        let out = hit(&world[i], ray, near, bound);
        if let Some(record) = out {
            bound = record.t;
            best = Some(record);
        }
        i = i + 1;
    }
    best
}

/// `hit` finds nothing of `surface` along `ray` inside `(near, bound)`.
pub open spec fn misses<R, S, V, T, M, FH: Fn(&S, &R, T, T) -> Option<HitRecord<V, T, M>>>(
    hit: FH,
    ray: R,
    surface: S,
    near: T,
    bound: T,
) -> bool {
    forall|out: Option<HitRecord<V, T, M>>| #[trigger]
        call_ensures(hit, (&surface, &ray, near, bound), out) ==> out is None
}

/// `hit` answers for the surfaces of `world` along `ray` as `test` says:
/// `test(surface, bound)` is what there is to find of `surface` inside
/// `(near, bound)`.
pub open spec fn answers<R, S, V, T, M, FH: Fn(&S, &R, T, T) -> Option<HitRecord<V, T, M>>>(
    hit: FH,
    ray: R,
    world: Seq<S>,
    near: T,
    test: spec_fn(S, T) -> Option<HitRecord<V, T, M>>,
) -> bool {
    forall|i: int, bound: T, out: Option<HitRecord<V, T, M>>|
        0 <= i < world.len() && #[trigger] call_ensures(hit, (&world[i], &ray, near, bound), out)
            ==> out == test(world[i], bound)
}

/// What a scan of `world[from..]` leaves when it is entered holding `best`
/// and every surface answers as `test` says.
pub open spec fn scan_of<S, V, T, M>(
    world: Seq<S>,
    test: spec_fn(S, T) -> Option<HitRecord<V, T, M>>,
    from: int,
    far: T,
    best: Option<HitRecord<V, T, M>>,
) -> Option<HitRecord<V, T, M>>
    decreases world.len() - from,
{
    if from < 0 || from >= world.len() {
        best
    } else {
        scan_of(world, test, from + 1, far, held(best, test(world[from], reach(far, best))))
    }
}

/// Where `hit` answers as `test` says, a scan leaves what `scan_of` says.
pub proof fn lemma_scanned_is_scan_of<R, S, V, T, M, FH: Fn(&S, &R, T, T) -> Option<HitRecord<V, T, M>>>(
    hit: FH,
    ray: R,
    world: Seq<S>,
    from: int,
    near: T,
    far: T,
    best: Option<HitRecord<V, T, M>>,
    found: Option<HitRecord<V, T, M>>,
    test: spec_fn(S, T) -> Option<HitRecord<V, T, M>>,
)
    requires
        answers(hit, ray, world, near, test),
        scanned(hit, ray, world, from, near, far, best, found),
    ensures
        found == scan_of(world, test, from, far, best),
    decreases world.len() - from,
{
    if 0 <= from < world.len() {
        let out = choose|out: Option<HitRecord<V, T, M>>|
            #[trigger] call_ensures(hit, (&world[from], &ray, near, reach(far, best)), out)
                && scanned(hit, ray, world, from + 1, near, far, held(best, out), found);
        lemma_scanned_is_scan_of(hit, ray, world, from + 1, near, far, held(best, out), found, test);
    }
}

/// `test` finds on the surfaces of `world` what an intersection test finds,
/// where `before` orders the ray's parameters:
///
/// - a hit lies before the bound that the test was given, and it is the first
///   meeting with its surface: the same surface has nothing before it;
/// - a surface that has nothing inside an interval has nothing inside a
///   shorter one.
pub open spec fn faithful<S, V, T, M>(
    world: Seq<S>,
    test: spec_fn(S, T) -> Option<HitRecord<V, T, M>>,
    before: spec_fn(T, T) -> bool,
) -> bool {
    &&& forall|i: int, bound: T|
        0 <= i < world.len() ==> match #[trigger] test(world[i], bound) {
            Some(record) => before(record.t, bound) && test(world[i], record.t) is None,
            None => true,
        }
    &&& forall|i: int, bound: T, closer: T|
        0 <= i < world.len() && test(world[i], bound) is None && #[trigger] before(closer, bound)
            ==> #[trigger] test(world[i], closer) is None
}

/// `found`, where it is a hit, is what `test` finds on a surface of `world`.
pub open spec fn from_scene<S, V, T, M>(
    world: Seq<S>,
    test: spec_fn(S, T) -> Option<HitRecord<V, T, M>>,
    found: Option<HitRecord<V, T, M>>,
) -> bool {
    found is Some ==> exists|i: int, bound: T|
        0 <= i < world.len() && found == #[trigger] test(world[i], bound)
}

/// A scan that is entered holding nothing nearer than any surface behind it
/// ends holding nothing nearer than any surface of the scene.
proof fn lemma_scan_keeps_nearest<S, V, T, M>(
    world: Seq<S>,
    test: spec_fn(S, T) -> Option<HitRecord<V, T, M>>,
    before: spec_fn(T, T) -> bool,
    from: int,
    far: T,
    best: Option<HitRecord<V, T, M>>,
)
    requires
        faithful(world, test, before),
        0 <= from <= world.len(),
        forall|j: int| 0 <= j < from ==> #[trigger] test(world[j], reach(far, best)) is None,
        from_scene(world, test, best),
    ensures
        forall|j: int|
            0 <= j < world.len()
                ==> #[trigger] test(world[j], reach(far, scan_of(world, test, from, far, best))) is None,
        from_scene(world, test, scan_of(world, test, from, far, best)),
    decreases world.len() - from,
{
    if from < world.len() {
        let bound = reach(far, best);
        let out = test(world[from], bound);
        if let Some(record) = out {
            let t = record.t;
            assert forall|j: int| 0 <= j < from + 1 implies #[trigger] test(world[j], t) is None by {
                if j < from {
                    assert(test(world[j], bound) is None);
                }
            }
        }
        lemma_scan_keeps_nearest(world, test, before, from + 1, far, held(best, out));
    }
}

/// The scan finds the nearest hit, not merely the first or the last.
///
/// Where the surfaces answer as a faithful intersection test does, what a scan
/// of the whole scene leaves is what the test finds on one of the scene's
/// surfaces, and no surface of the scene has anything before it: tested
/// against the parameter of what was found, or against `far` where nothing
/// was, every surface is missed. The order in which the scene holds its
/// surfaces plays no part in this.
pub proof fn lemma_scan_of_is_nearest<S, V, T, M>(
    world: Seq<S>,
    test: spec_fn(S, T) -> Option<HitRecord<V, T, M>>,
    before: spec_fn(T, T) -> bool,
    far: T,
)
    requires
        faithful(world, test, before),
    ensures
        forall|j: int|
            0 <= j < world.len()
                ==> #[trigger] test(world[j], reach(far, scan_of(world, test, 0, far, None))) is None,
        from_scene(world, test, scan_of(world, test, 0, far, None)),
{
    lemma_scan_keeps_nearest(world, test, before, 0, far, None);
}

/// What `closest_hit` returns is the nearest hit: the statement of
/// [`lemma_scan_of_is_nearest`] for a `hit` that answers as a faithful
/// intersection test does.
pub proof fn lemma_closest_hit_is_nearest<R, S, V, T, M, FH: Fn(&S, &R, T, T) -> Option<HitRecord<V, T, M>>>(
    hit: FH,
    ray: R,
    world: Seq<S>,
    near: T,
    far: T,
    found: Option<HitRecord<V, T, M>>,
    test: spec_fn(S, T) -> Option<HitRecord<V, T, M>>,
    before: spec_fn(T, T) -> bool,
)
    requires
        answers(hit, ray, world, near, test),
        faithful(world, test, before),
        scanned(hit, ray, world, 0, near, far, None, found),
    ensures
        found == scan_of(world, test, 0, far, None),
        forall|j: int| 0 <= j < world.len() ==> #[trigger] test(world[j], reach(far, found)) is None,
        from_scene(world, test, found),
{
    lemma_scanned_is_scan_of(hit, ray, world, 0, near, far, None, found, test);
    lemma_scan_of_is_nearest(world, test, before, far);
}

/// A scan past surfaces that are all missed keeps what it held.
pub proof fn lemma_scan_of_misses<R, S, V, T, M, FH: Fn(&S, &R, T, T) -> Option<HitRecord<V, T, M>>>(
    hit: FH,
    ray: R,
    world: Seq<S>,
    from: int,
    near: T,
    far: T,
    best: Option<HitRecord<V, T, M>>,
    found: Option<HitRecord<V, T, M>>,
)
    requires
        0 <= from,
        scanned(hit, ray, world, from, near, far, best, found),
        forall|j: int|
            from <= j < world.len() ==> misses(hit, ray, #[trigger] world[j], near, reach(far, best)),
    ensures
        found == best,
    decreases world.len() - from,
{
    if from < world.len() {
        assert(misses(hit, ray, world[from], near, reach(far, best)));
        lemma_scan_of_misses(hit, ray, world, from + 1, near, far, best, found);
    }
}

/// With a `hit` that answers each question in one way, a scan has one result.
pub proof fn lemma_scanned_unique<R, S, V, T, M, FH: Fn(&S, &R, T, T) -> Option<HitRecord<V, T, M>>>(
    hit: FH,
    ray: R,
    world: Seq<S>,
    from: int,
    near: T,
    far: T,
    best: Option<HitRecord<V, T, M>>,
    one: Option<HitRecord<V, T, M>>,
    other: Option<HitRecord<V, T, M>>,
)
    requires
        forall|s: &S, r: &R, lo: T, hi: T, a: Option<HitRecord<V, T, M>>, b: Option<HitRecord<V, T, M>>|
            call_ensures(hit, (s, r, lo, hi), a) && call_ensures(hit, (s, r, lo, hi), b) ==> a
                == b,
        scanned(hit, ray, world, from, near, far, best, one),
        scanned(hit, ray, world, from, near, far, best, other),
    ensures
        one == other,
    decreases world.len() - from,
{
    if 0 <= from < world.len() {
        let bound = reach(far, best);
        let first = choose|out: Option<HitRecord<V, T, M>>|
            #[trigger] call_ensures(hit, (&world[from], &ray, near, bound), out)
                && scanned(hit, ray, world, from + 1, near, far, held(best, out), one);
        let second = choose|out: Option<HitRecord<V, T, M>>|
            #[trigger] call_ensures(hit, (&world[from], &ray, near, bound), out)
                && scanned(hit, ray, world, from + 1, near, far, held(best, out), other);
        assert(first == second);
        lemma_scanned_unique(hit, ray, world, from + 1, near, far, held(best, first), one, other);
    }
}

} // verus!
