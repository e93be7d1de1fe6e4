//! How a surface re-emits the light that meets it.
//!
//! There are three materials. What each decides stands here: whether the
//! light is scattered or absorbed, and by what it is attenuated. The
//! directions in which they scatter are measured by functions of the caller,
//! gathered in [`Lobes`], which may draw at random.

use vstd::prelude::*;

verus! {

/// A material, over the caller's types of colours (`C`) and of numbers (`T`).
#[derive(Debug, PartialEq)]
pub enum Material<C, T> {
    /// A diffuse surface, which reflects the fraction `albedo` of the light.
    Lambertian { albedo: C },
    /// A mirror that reflects the fraction `albedo`, roughened by `fuzz`.
    Metal { albedo: C, fuzz: T },
    /// A clear medium such as glass, which bends light by `refraction_index`.
    Dielectric { refraction_index: T },
}

/// The measurements that the materials ask of their caller.
///
/// - `diffuse(hit)` is a ray that leaves a diffuse surface at the meeting;
/// - `mirror(incoming, hit, fuzz)` is the incoming ray mirrored at the meeting
///   and perturbed by the fuzz;
/// - `leaves(ray, hit)` says whether a ray points away from the surface it
///   starts on;
/// - `glass(incoming, hit, refraction_index)` is the incoming ray refracted
///   at the meeting, or reflected where the medium does not let it pass.
///
/// `clear` is the attenuation that takes nothing away.
pub struct Lobes<C, FD, FM, FL, FG> {
    pub clear: C,
    pub diffuse: FD,
    pub mirror: FM,
    pub leaves: FL,
    pub glass: FG,
}

impl<C, FD, FM, FL, FG> Lobes<C, FD, FM, FL, FG> {
    /// Every one of the four functions accepts every argument.
    pub open spec fn total<R, H, T>(&self) -> bool where
        FD: Fn(&H) -> R,
        FM: Fn(&R, &H, T) -> R,
        FL: Fn(&R, &H) -> bool,
        FG: Fn(&R, &H, T) -> R,
     {
        &&& forall|h: &H| call_requires(self.diffuse, (h,))
        &&& forall|r: &R, h: &H, fuzz: T| call_requires(self.mirror, (r, h, fuzz))
        &&& forall|r: &R, h: &H| call_requires(self.leaves, (r, h))
        &&& forall|r: &R, h: &H, index: T| call_requires(self.glass, (r, h, index))
    }
}

/// What `material` can make of the ray `incoming` at the meeting `hit`: an
/// attenuation and a scattered ray, or nothing where the light is absorbed.
///
/// - A diffuse surface always scatters, in a direction of `diffuse`, and
///   attenuates by its albedo.
/// - A metal mirrors the ray and attenuates by its albedo, but absorbs the
///   light where the mirrored ray does not leave the surface.
/// - A dielectric always scatters, in a direction of `glass`, and takes
///   nothing away.
pub open spec fn scattered<R, H, C, T, FD, FM, FL, FG>(
    lobes: Lobes<C, FD, FM, FL, FG>,
    material: Material<C, T>,
    incoming: R,
    hit: H,
    out: Option<(C, R)>,
) -> bool where
    FD: Fn(&H) -> R,
    FM: Fn(&R, &H, T) -> R,
    FL: Fn(&R, &H) -> bool,
    FG: Fn(&R, &H, T) -> R,
 {
    match material {
        Material::Lambertian { albedo } => exists|onward: R|
            #[trigger] call_ensures(lobes.diffuse, (&hit,), onward)
                && out == Some((albedo, onward)),
        Material::Metal { albedo, fuzz } => exists|onward: R, away: bool|
            call_ensures(lobes.mirror, (&incoming, &hit, fuzz), onward)
                && #[trigger] call_ensures(lobes.leaves, (&onward, &hit), away)
                && out == if away { Some((albedo, onward)) } else { None },
        Material::Dielectric { refraction_index } => exists|onward: R|
            #[trigger] call_ensures(lobes.glass, (&incoming, &hit, refraction_index), onward)
                && out == Some((lobes.clear, onward)),
    }
}

/// The light is scattered, and attenuated by `attenuation`.
pub open spec fn attenuated_by<C, R>(out: Option<(C, R)>, attenuation: C) -> bool {
    out matches Some((a, _)) && a == attenuation
}

/// Scatters the ray `incoming`, which has met a surface of `material` at
/// `hit`.
///
/// Whatever the directions are, the attenuation of a diffuse surface and of a
/// metal is the material's albedo and that of a dielectric is `clear`, and
/// neither a diffuse surface nor a dielectric ever absorbs.
pub fn scatter<R, H, C: Copy, T: Copy, FD, FM, FL, FG>(
    material: &Material<C, T>,
    incoming: &R,
    hit: &H,
    lobes: &Lobes<C, FD, FM, FL, FG>,
) -> (out: Option<(C, R)>) where
    FD: Fn(&H) -> R,
    FM: Fn(&R, &H, T) -> R,
    FL: Fn(&R, &H) -> bool,
    FG: Fn(&R, &H, T) -> R,

    requires
        lobes.total(),
    ensures
        scattered(*lobes, *material, *incoming, *hit, out),
        material matches Material::Lambertian { albedo } ==> attenuated_by(out, *albedo),
        material matches Material::Metal { albedo, .. }
            ==> out is None || attenuated_by(out, *albedo),
        material is Dielectric ==> attenuated_by(out, lobes.clear),
{
    match material {
        Material::Lambertian { albedo } => {
            let onward = (lobes.diffuse)(hit);
            Some((*albedo, onward))
        },
        Material::Metal { albedo, fuzz } => {
            let onward = (lobes.mirror)(incoming, hit, *fuzz);
            if (lobes.leaves)(&onward, hit) {
                Some((*albedo, onward))
            } else {
                None
            }
        },
        Material::Dielectric { refraction_index } => {
            let onward = (lobes.glass)(incoming, hit, *refraction_index);
            Some((lobes.clear, onward))
        },
    }
}

} // verus!
