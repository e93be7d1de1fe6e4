//! The driver: every pixel of an image, sampled, averaged and stored.

use vstd::prelude::*;
use crate::exposure::{
    developed, lemma_developed_of_equal_samples, lemma_developed_unique, lemma_sums_of, Sums,
    Tally,
};
use crate::image::{lemma_put, Image};
use crate::pixel::Pixel;
use crate::record::HitRecord;
use crate::tracer::{
    lemma_traced_is_trace_of, lemma_traced_unique, trace_of, trace_ray, traced, Model, Optics,
};

verus! {

/// How much work a rendering spends on each pixel.
#[derive(Clone, Copy, Debug)]
pub struct Settings {
    /// The number of rays traced through each pixel.
    pub samples_per_pixel: usize,
    /// The number of bounces after which a ray's light counts as spent.
    pub max_depth: usize,
}

/// The colours that one sample of the pixel in column `x` of row `y`, rows
/// counted from the bottom of a picture of `width` by `height` pixels, can
/// give: what a trace can give along a ray that the camera can cast through
/// the pixel.
pub open spec fn sampled<R, S, V, T, M, A, FC, FH, FS, FA, FK>(
    cast: FC,
    optics: Optics<T, FH, FS, FA, FK>,
    world: Seq<S>,
    depth: nat,
    x: usize,
    y: usize,
    width: usize,
    height: usize,
    out: Pixel,
) -> bool where
    FC: Fn(usize, usize, usize, usize) -> R,
    FH: Fn(&S, &R, T, T) -> Option<HitRecord<V, T, M>>,
    FS: Fn(&R, HitRecord<V, T, M>) -> Option<(A, R)>,
    FA: Fn(&A, Pixel) -> Pixel,
    FK: Fn(&R) -> Pixel,
 {
    exists|ray: R|
        #[trigger] call_ensures(cast, (x, y, width, height), ray)
            && traced(optics, ray, world, depth, out)
}

/// Every one of `samples` is a colour that a sample of the pixel can give.
pub open spec fn all_sampled<R, S, V, T, M, A, FC, FH, FS, FA, FK>(
    cast: FC,
    optics: Optics<T, FH, FS, FA, FK>,
    world: Seq<S>,
    depth: nat,
    x: usize,
    y: usize,
    width: usize,
    height: usize,
    samples: Seq<Pixel>,
) -> bool where
    FC: Fn(usize, usize, usize, usize) -> R,
    FH: Fn(&S, &R, T, T) -> Option<HitRecord<V, T, M>>,
    FS: Fn(&R, HitRecord<V, T, M>) -> Option<(A, R)>,
    FA: Fn(&A, Pixel) -> Pixel,
    FK: Fn(&R) -> Pixel,
 {
    forall|k: int|
        0 <= k < samples.len()
            ==> sampled(cast, optics, world, depth, x, y, width, height, #[trigger] samples[k])
}

/// The colours that can be stored for a pixel: what `settings.samples_per_pixel`
/// samples of it develop to.
pub open spec fn exposed<R, S, V, T, M, A, FC, FH, FS, FA, FK>(
    cast: FC,
    optics: Optics<T, FH, FS, FA, FK>,
    world: Seq<S>,
    settings: Settings,
    x: usize,
    y: usize,
    width: usize,
    height: usize,
    out: Pixel,
) -> bool where
    FC: Fn(usize, usize, usize, usize) -> R,
    FH: Fn(&S, &R, T, T) -> Option<HitRecord<V, T, M>>,
    FS: Fn(&R, HitRecord<V, T, M>) -> Option<(A, R)>,
    FA: Fn(&A, Pixel) -> Pixel,
    FK: Fn(&R) -> Pixel,
 {
    exists|samples: Seq<Pixel>|
        {
            &&& samples.len() == settings.samples_per_pixel
            &&& all_sampled(
                cast,
                optics,
                world,
                settings.max_depth as nat,
                x,
                y,
                width,
                height,
                samples,
            )
            &&& developed(#[trigger] Sums::of(samples), out)
        }
}

/// Rendering adds no chance of its own: where the camera and the optics
/// answer each question in one way, a pixel has one colour.
pub proof fn lemma_exposed_unique<R, S, V, T, M, A, FC, FH, FS, FA, FK>(
    cast: FC,
    optics: Optics<T, FH, FS, FA, FK>,
    world: Seq<S>,
    settings: Settings,
    x: usize,
    y: usize,
    width: usize,
    height: usize,
    one: Pixel,
    other: Pixel,
) where
    FC: Fn(usize, usize, usize, usize) -> R,
    FH: Fn(&S, &R, T, T) -> Option<HitRecord<V, T, M>>,
    FS: Fn(&R, HitRecord<V, T, M>) -> Option<(A, R)>,
    FA: Fn(&A, Pixel) -> Pixel,
    FK: Fn(&R) -> Pixel,

    requires
        forall|x: usize, y: usize, w: usize, h: usize, a: R, b: R|
            call_ensures(cast, (x, y, w, h), a) && call_ensures(cast, (x, y, w, h), b) ==> a == b,
        optics.single_valued(),
        exposed(cast, optics, world, settings, x, y, width, height, one),
        exposed(cast, optics, world, settings, x, y, width, height, other),
    ensures
        one == other,
{
    let depth = settings.max_depth as nat;
    let first = choose|samples: Seq<Pixel>|
        {
            &&& samples.len() == settings.samples_per_pixel
            &&& all_sampled(cast, optics, world, depth, x, y, width, height, samples)
            &&& developed(#[trigger] Sums::of(samples), one)
        };
    let second = choose|samples: Seq<Pixel>|
        {
            &&& samples.len() == settings.samples_per_pixel
            &&& all_sampled(cast, optics, world, depth, x, y, width, height, samples)
            &&& developed(#[trigger] Sums::of(samples), other)
        };
    assert forall|k: int| 0 <= k < first.len() implies first[k] == second[k] by {
        assert(sampled(cast, optics, world, depth, x, y, width, height, first[k]));
        assert(sampled(cast, optics, world, depth, x, y, width, height, second[k]));
        let ray = choose|ray: R|
            #[trigger] call_ensures(cast, (x, y, width, height), ray)
                && traced(optics, ray, world, depth, first[k]);
        let again = choose|ray: R|
            #[trigger] call_ensures(cast, (x, y, width, height), ray)
                && traced(optics, ray, world, depth, second[k]);
        assert(ray == again);
        lemma_traced_unique(optics, ray, world, depth, first[k], second[k]);
    }
    assert(first =~= second);
    lemma_developed_unique(Sums::of(first), one, other);
}

/// Sampling more often does not move the picture of a scene without chance:
/// where the camera casts one ray through a pixel, `view` says which, and the
/// optics answer as `model` says, any number of samples, one at least, store
/// the colour that a single trace of that ray develops to.
pub proof fn lemma_exposed_of_steady<R, S, V, T, M, A, FC, FH, FS, FA, FK>(
    cast: FC,
    optics: Optics<T, FH, FS, FA, FK>,
    world: Seq<S>,
    settings: Settings,
    x: usize,
    y: usize,
    width: usize,
    height: usize,
    out: Pixel,
    view: spec_fn(usize, usize, usize, usize) -> R,
    model: Model<R, S, V, T, M, A>,
) where
    FC: Fn(usize, usize, usize, usize) -> R,
    FH: Fn(&S, &R, T, T) -> Option<HitRecord<V, T, M>>,
    FS: Fn(&R, HitRecord<V, T, M>) -> Option<(A, R)>,
    FA: Fn(&A, Pixel) -> Pixel,
    FK: Fn(&R) -> Pixel,

    requires
        forall|x: usize, y: usize, w: usize, h: usize, ray: R|
            #[trigger] call_ensures(cast, (x, y, w, h), ray) ==> ray == view(x, y, w, h),
        optics.follows(model),
        settings.samples_per_pixel >= 1,
        exposed(cast, optics, world, settings, x, y, width, height, out),
    ensures
        developed(
            Sums::of(
                seq![
                    trace_of(
                        model,
                        optics.near,
                        optics.far,
                        view(x, y, width, height),
                        world,
                        settings.max_depth as nat,
                    ),
                ],
            ),
            out,
        ),
{
    let depth = settings.max_depth as nat;
    let colour = trace_of(model, optics.near, optics.far, view(x, y, width, height), world, depth);
    let samples = choose|samples: Seq<Pixel>|
        {
            &&& samples.len() == settings.samples_per_pixel
            &&& all_sampled(cast, optics, world, depth, x, y, width, height, samples)
            &&& developed(#[trigger] Sums::of(samples), out)
        };
    assert forall|k: int| 0 <= k < samples.len() implies samples[k] == colour by {
        assert(sampled(cast, optics, world, depth, x, y, width, height, samples[k]));
        let ray = choose|ray: R|
            #[trigger] call_ensures(cast, (x, y, width, height), ray)
                && traced(optics, ray, world, depth, samples[k]);
        lemma_traced_is_trace_of(optics, model, ray, world, depth, samples[k]);
    }
    lemma_developed_of_equal_samples(samples, colour, out);
}

/// The colour to store for the pixel in column `x` of row `y`, rows counted
/// from the bottom: `settings.samples_per_pixel` rays are cast through the
/// pixel and traced, and the colours they bring are averaged and developed.
pub fn expose_pixel<R, S, V, T: Copy, M, A, FC, FH, FS, FA, FK>(
    x: usize,
    y: usize,
    width: usize,
    height: usize,
    world: &Vec<S>,
    settings: &Settings,
    cast: &FC,
    optics: &Optics<T, FH, FS, FA, FK>,
) -> (out: Pixel) where
    FC: Fn(usize, usize, usize, usize) -> R,
    FH: Fn(&S, &R, T, T) -> Option<HitRecord<V, T, M>>,
    FS: Fn(&R, HitRecord<V, T, M>) -> Option<(A, R)>,
    FA: Fn(&A, Pixel) -> Pixel,
    FK: Fn(&R) -> Pixel,

    requires
        forall|x: usize, y: usize, w: usize, h: usize| call_requires(*cast, (x, y, w, h)),
        optics.total(),
    ensures
        exposed(*cast, *optics, world@, *settings, x, y, width, height, out),
{
    let mut tally = Tally::new();
    let ghost mut samples: Seq<Pixel> = Seq::empty();
    let mut k: usize = 0;
    while k < settings.samples_per_pixel
        invariant
            k <= settings.samples_per_pixel,
            forall|x: usize, y: usize, w: usize, h: usize| call_requires(*cast, (x, y, w, h)),
            optics.total(),
            samples.len() == k,
            tally@ == Sums::of(samples),
            all_sampled(
                *cast,
                *optics,
                world@,
                settings.max_depth as nat,
                x,
                y,
                width,
                height,
                samples,
            ),
        decreases settings.samples_per_pixel - k,
    {
        let ray = cast(x, y, width, height);
        let colour = trace_ray(&ray, world, settings.max_depth, optics);
        proof {
            lemma_sums_of(samples);
        }
        tally.add(colour);
        proof {
            assert(samples.push(colour).drop_last() =~= samples);
            samples = samples.push(colour);
        }
        k = k + 1;
    }
    tally.develop()
}

/// Renders `world` into `image`.
///
/// Every pixel of the image is exposed once. The camera counts rows from the
/// bottom of the picture and the image from the top, so the colour of the
/// camera's row `y` is stored in the image's row `height - 1 - y`.
pub fn render<R, S, V, T: Copy, M, A, FC, FH, FS, FA, FK>(
    image: &mut Image,
    world: &Vec<S>,
    settings: &Settings,
    cast: &FC,
    optics: &Optics<T, FH, FS, FA, FK>,
) where
    FC: Fn(usize, usize, usize, usize) -> R,
    FH: Fn(&S, &R, T, T) -> Option<HitRecord<V, T, M>>,
    FS: Fn(&R, HitRecord<V, T, M>) -> Option<(A, R)>,
    FA: Fn(&A, Pixel) -> Pixel,
    FK: Fn(&R) -> Pixel,

    requires
        forall|x: usize, y: usize, w: usize, h: usize| call_requires(*cast, (x, y, w, h)),
        optics.total(),
    ensures
        final(image)@.wf(),
        final(image)@.width == old(image)@.width,
        final(image)@.height == old(image)@.height,
        forall|x: int, y: int|
            final(image)@.holds(x, y) ==> exposed(
                *cast,
                *optics,
                world@,
                *settings,
                x as usize,
                (old(image)@.height - 1 - y) as usize,
                old(image)@.width as usize,
                old(image)@.height as usize,
                #[trigger] final(image)@.at(x, y),
            ),
{
    let width = image.width();
    let height = image.height();
    proof {
        image.lemma_view();
    }
    let mut y: usize = 0;
    while y < height
        invariant
            y <= height,
            forall|x: usize, y: usize, w: usize, h: usize| call_requires(*cast, (x, y, w, h)),
            optics.total(),
            image@.wf(),
            image@.width == width,
            image@.height == height,
            forall|i: int, j: int|
                0 <= i < width && height - y <= j < height ==> exposed(
                    *cast,
                    *optics,
                    world@,
                    *settings,
                    i as usize,
                    (height - 1 - j) as usize,
                    width,
                    height,
                    #[trigger] image@.at(i, j),
                ),
        decreases height - y,
    {
        let row = height - y - 1;
        let mut x: usize = 0;
        while x < width
            invariant
                x <= width,
                y < height,
                row == height - y - 1,
                forall|x: usize, y: usize, w: usize, h: usize| call_requires(*cast, (x, y, w, h)),
                optics.total(),
                image@.wf(),
                image@.width == width,
                image@.height == height,
                forall|i: int, j: int|
                    0 <= i < width && height - y <= j < height ==> exposed(
                        *cast,
                        *optics,
                        world@,
                        *settings,
                        i as usize,
                        (height - 1 - j) as usize,
                        width,
                        height,
                        #[trigger] image@.at(i, j),
                    ),
                forall|i: int|
                    0 <= i < x ==> exposed(
                        *cast,
                        *optics,
                        world@,
                        *settings,
                        i as usize,
                        y,
                        width,
                        height,
                        #[trigger] image@.at(i, row as int),
                    ),
            decreases width - x,
        {
            let colour = expose_pixel(x, y, width, height, world, settings, cast, optics);
            proof {
                lemma_put(image@, x as int, row as int, colour);
            }
            image.insert_pixel_at(x, row, &colour);
            x = x + 1;
        }
        y = y + 1;
    }
}

} // verus!
