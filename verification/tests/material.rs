use raytracer::material::scatter;
use raytracer::{Lobes, Material};
use std::cell::RefCell;

type Stuff = Material<&'static str, i32>;

/// Scatters the ray 7 at the meeting 'h', with rays that tell where they
/// come from, and says which measurements were asked for.
fn scattered(material: &Stuff, away: bool) -> (Option<(&'static str, String)>, Vec<String>) {
    let asked = RefCell::new(Vec::new());
    let lobes = Lobes {
        clear: "clear",
        diffuse: |h: &char| {
            asked.borrow_mut().push(String::from("diffuse"));
            format!("diffuse at {}", h)
        },
        mirror: |r: &String, h: &char, fuzz: i32| {
            asked.borrow_mut().push(String::from("mirror"));
            format!("mirror of {} at {} with fuzz {}", r, h, fuzz)
        },
        leaves: |r: &String, h: &char| {
            asked.borrow_mut().push(format!("leaves: {} at {}", r, h));
            away
        },
        glass: |r: &String, h: &char, index: i32| {
            asked.borrow_mut().push(String::from("glass"));
            format!("glass for {} at {} with index {}", r, h, index)
        },
    };
    let out = scatter(material, &String::from("ray 7"), &'h', &lobes);
    let asked = asked.borrow().clone();
    (out, asked)
}

#[test]
fn lambertian_scatters_diffusely_with_its_albedo() {
    let paint: Stuff = Material::Lambertian { albedo: "blue" };
    for away in [true, false] {
        let (out, asked) = scattered(&paint, away);
        assert_eq!(out, Some(("blue", String::from("diffuse at h"))));
        assert_eq!(asked, vec!["diffuse"]);
    }
}

#[test]
fn metal_scatters_the_mirrored_ray_with_its_albedo() {
    let gold: Stuff = Material::Metal { albedo: "gold", fuzz: 3 };
    let (out, asked) = scattered(&gold, true);
    assert_eq!(out, Some(("gold", String::from("mirror of ray 7 at h with fuzz 3"))));
    assert_eq!(asked, vec!["mirror", "leaves: mirror of ray 7 at h with fuzz 3 at h"]);
}

#[test]
fn metal_absorbs_a_mirrored_ray_that_does_not_leave() {
    let gold: Stuff = Material::Metal { albedo: "gold", fuzz: 3 };
    let (out, asked) = scattered(&gold, false);
    assert_eq!(out, None);
    assert_eq!(asked, vec!["mirror", "leaves: mirror of ray 7 at h with fuzz 3 at h"]);
}

#[test]
fn dielectric_scatters_through_glass_and_takes_nothing_away() {
    let glass: Stuff = Material::Dielectric { refraction_index: 15 };
    for away in [true, false] {
        let (out, asked) = scattered(&glass, away);
        assert_eq!(out, Some(("clear", String::from("glass for ray 7 at h with index 15"))));
        assert_eq!(asked, vec!["glass"]);
    }
}
