use raytracer::{expose_pixel, render, HitRecord, Image, Optics, Pixel, Settings};
use std::cell::{Cell, RefCell};

type Hit = HitRecord<f64, f64, u8>;

fn no_hit(_s: &u8, _r: &(usize, usize), _lo: f64, _hi: f64) -> Option<Hit> {
    None
}

fn no_scatter(_r: &(usize, usize), _h: Hit) -> Option<(f64, (usize, usize))> {
    None
}

fn keep(_a: &f64, p: Pixel) -> Pixel {
    p
}

fn gamma(v: u8) -> u8 {
    ((v as f64 / 255.0).sqrt() * 256.0) as u8
}

#[test]
fn render_stores_the_bottom_row_last() {
    // The sky's colour tells which pixel the ray was cast through.
    let optics = Optics {
        near: 0.001,
        far: f64::INFINITY,
        hit: no_hit,
        scatter: no_scatter,
        attenuate: keep,
        sky: |r: &(usize, usize)| Pixel::new(10 * r.0 as u8, 10 * r.1 as u8, 200),
    };
    let cast = |x: usize, y: usize, _w: usize, _h: usize| (x, y);
    let settings = Settings { samples_per_pixel: 1, max_depth: 3 };
    let mut image = Image::new(3, 4);
    render(&mut image, &vec![], &settings, &cast, &optics);
    assert_eq!(image.width(), 4);
    assert_eq!(image.height(), 3);
    for y in 0..3usize {
        for x in 0..4usize {
            let expected = Pixel::new(gamma(10 * x as u8), gamma(10 * y as u8), gamma(200));
            assert_eq!(image.pixel_at(x, 3 - 1 - y), expected);
        }
    }
}

#[test]
fn render_hands_the_camera_the_size_of_the_image() {
    let seen = RefCell::new(Vec::new());
    let optics = Optics {
        near: 0.001,
        far: f64::INFINITY,
        hit: no_hit,
        scatter: no_scatter,
        attenuate: keep,
        sky: |_r: &(usize, usize)| Pixel::black(),
    };
    let cast = |x: usize, y: usize, w: usize, h: usize| {
        seen.borrow_mut().push((x, y, w, h));
        (x, y)
    };
    let settings = Settings { samples_per_pixel: 1, max_depth: 1 };
    let mut image = Image::new(2, 3);
    render(&mut image, &vec![], &settings, &cast, &optics);
    assert_eq!(
        *seen.borrow(),
        vec![(0, 0, 3, 2), (1, 0, 3, 2), (2, 0, 3, 2), (0, 1, 3, 2), (1, 1, 3, 2), (2, 1, 3, 2)]
    );
}

#[test]
fn render_samples_every_pixel_as_often_as_asked() {
    let casts = Cell::new(0usize);
    let optics = Optics {
        near: 0.001,
        far: f64::INFINITY,
        hit: no_hit,
        scatter: no_scatter,
        attenuate: keep,
        sky: |_r: &(usize, usize)| Pixel::new(255, 255, 255),
    };
    let cast = |x: usize, y: usize, _w: usize, _h: usize| {
        casts.set(casts.get() + 1);
        (x, y)
    };
    for samples in [0usize, 1, 2, 7] {
        casts.set(0);
        let settings = Settings { samples_per_pixel: samples, max_depth: 2 };
        let mut image = Image::new(3, 5);
        render(&mut image, &vec![], &settings, &cast, &optics);
        assert_eq!(casts.get(), 15 * samples);
    }
}

#[test]
fn render_without_samples_is_black() {
    let optics = Optics {
        near: 0.001,
        far: f64::INFINITY,
        hit: no_hit,
        scatter: no_scatter,
        attenuate: keep,
        sky: |_r: &(usize, usize)| Pixel::new(255, 255, 255),
    };
    let cast = |x: usize, y: usize, _w: usize, _h: usize| (x, y);
    let settings = Settings { samples_per_pixel: 0, max_depth: 2 };
    let mut image = Image::new(2, 2);
    image.insert_pixel_at(1, 1, &Pixel::new(9, 9, 9));
    render(&mut image, &vec![], &settings, &cast, &optics);
    assert_eq!(image.to_ppm(), "P3\n2 2\n255\n0 0 0\n0 0 0\n0 0 0\n0 0 0\n");
}

#[test]
fn render_without_depth_is_black() {
    let optics = Optics {
        near: 0.001,
        far: f64::INFINITY,
        hit: no_hit,
        scatter: no_scatter,
        attenuate: keep,
        sky: |_r: &(usize, usize)| Pixel::new(255, 255, 255),
    };
    let cast = |x: usize, y: usize, _w: usize, _h: usize| (x, y);
    let settings = Settings { samples_per_pixel: 4, max_depth: 0 };
    let mut image = Image::new(2, 2);
    render(&mut image, &vec![], &settings, &cast, &optics);
    assert_eq!(image.to_ppm(), "P3\n2 2\n255\n0 0 0\n0 0 0\n0 0 0\n0 0 0\n");
}

#[test]
fn render_of_an_empty_image_does_nothing() {
    let casts = Cell::new(0usize);
    let optics = Optics {
        near: 0.001,
        far: f64::INFINITY,
        hit: no_hit,
        scatter: no_scatter,
        attenuate: keep,
        sky: |_r: &(usize, usize)| Pixel::new(255, 255, 255),
    };
    let cast = |x: usize, y: usize, _w: usize, _h: usize| {
        casts.set(casts.get() + 1);
        (x, y)
    };
    let settings = Settings { samples_per_pixel: 3, max_depth: 3 };
    let mut image = Image::new(0, 5);
    render(&mut image, &vec![], &settings, &cast, &optics);
    assert_eq!(casts.get(), 0);
    assert_eq!(image.to_ppm(), "P3\n5 0\n255\n");
}

#[test]
fn expose_pixel_averages_before_it_develops() {
    // The samples alternate between black and white: the mean is half light
    // and 256 * sqrt(1/2) = 181.01...
    let turn = Cell::new(0u8);
    let optics = Optics {
        near: 0.001,
        far: f64::INFINITY,
        hit: no_hit,
        scatter: no_scatter,
        attenuate: keep,
        sky: |_r: &(usize, usize)| {
            turn.set(turn.get() ^ 1);
            if turn.get() == 1 {
                Pixel::new(255, 255, 255)
            } else {
                Pixel::black()
            }
        },
    };
    let cast = |x: usize, y: usize, _w: usize, _h: usize| (x, y);
    let settings = Settings { samples_per_pixel: 10, max_depth: 1 };
    let out = expose_pixel(0, 0, 1, 1, &vec![], &settings, &cast, &optics);
    assert_eq!(out, Pixel::new(181, 181, 181));
}

#[test]
fn more_samples_of_a_steady_scene_store_the_same_picture() {
    let optics = Optics {
        near: 0.001,
        far: f64::INFINITY,
        hit: no_hit,
        scatter: no_scatter,
        attenuate: keep,
        sky: |r: &(usize, usize)| Pixel::new(40 * r.0 as u8, 60 * r.1 as u8, 77),
    };
    let cast = |x: usize, y: usize, _w: usize, _h: usize| (x, y);
    let mut once = Image::new(3, 3);
    render(&mut once, &vec![], &Settings { samples_per_pixel: 1, max_depth: 2 }, &cast, &optics);
    for samples in [2usize, 5, 64] {
        let mut often = Image::new(3, 3);
        let settings = Settings { samples_per_pixel: samples, max_depth: 2 };
        render(&mut often, &vec![], &settings, &cast, &optics);
        assert_eq!(often.to_ppm(), once.to_ppm());
    }
}
