//! From the samples of a pixel to its stored colour.
//!
//! A pixel is sampled several times. The samples are averaged channel by
//! channel, the mean `m` of a channel, between 0 and 255, is mapped to
//! `256 * sqrt(m / 255)`, an approximate gamma-2 correction, and the stored
//! channel is the whole part of that number, held to 255. All of it is done
//! in whole numbers and is exact: no rounding takes place before the whole
//! part is taken. A pixel without samples is black.

use vstd::prelude::*;
use crate::pixel::Pixel;

verus! {

/// Channel sums of a number of samples.
pub struct Sums {
    pub r: nat,
    pub g: nat,
    pub b: nat,
    pub count: nat,
}

impl Sums {
    /// The sums of the given samples.
    pub open spec fn of(samples: Seq<Pixel>) -> Sums
        decreases samples.len(),
    {
        if samples.len() == 0 {
            Sums { r: 0, g: 0, b: 0, count: 0 }
        } else {
            Sums::of(samples.drop_last()).plus(samples.last())
        }
    }

    /// The sums with one more sample.
    pub open spec fn plus(self, p: Pixel) -> Sums {
        Sums {
            r: self.r + p.r as nat,
            g: self.g + p.g as nat,
            b: self.b + p.b as nat,
            count: self.count + 1,
        }
    }

    /// No channel sums to more than 255 a sample.
    pub open spec fn wf(self) -> bool {
        &&& self.r <= 255 * self.count
        &&& self.g <= 255 * self.count
        &&& self.b <= 255 * self.count
    }
}

/// The sums of samples count the samples and are well formed.
pub proof fn lemma_sums_of(samples: Seq<Pixel>)
    ensures
        Sums::of(samples).count == samples.len(),
        Sums::of(samples).wf(),
    decreases samples.len(),
{
    if samples.len() > 0 {
        lemma_sums_of(samples.drop_last());
    }
}

/// `level` does not exceed `256 * sqrt(sum / (255 * count))`.
pub open spec fn within_gamma(sum: nat, count: nat, level: nat) -> bool {
    level * level * (255 * count) <= 65536 * sum
}

/// `level` is the stored value of a channel whose `count` samples sum to
/// `sum`: the whole part of `256 * sqrt(sum / (255 * count))`, held to 255,
/// and 0 where there is no sample.
pub open spec fn is_gamma(sum: nat, count: nat, level: nat) -> bool {
    if count == 0 {
        level == 0
    } else {
        &&& level <= 255
        &&& within_gamma(sum, count, level)
        &&& level < 255 ==> !within_gamma(sum, count, level + 1)
    }
}

/// `out` is the stored colour of a pixel with the given sums.
pub open spec fn developed(sums: Sums, out: Pixel) -> bool {
    &&& is_gamma(sums.r, sums.count, out.r as nat)
    &&& is_gamma(sums.g, sums.count, out.g as nat)
    &&& is_gamma(sums.b, sums.count, out.b as nat)
}

/// A greater level is harder to stay within.
proof fn lemma_within_gamma_falls(sum: nat, count: nat, low: nat, high: nat)
    requires
        low <= high,
        within_gamma(sum, count, high),
    ensures
        within_gamma(sum, count, low),
{
    assert(low * low * (255 * count) <= high * high * (255 * count)) by (nonlinear_arith)
        requires
            low <= high,
    ;
}

/// A channel has one stored value only.
pub proof fn lemma_gamma_unique(sum: nat, count: nat, first: nat, second: nat)
    requires
        is_gamma(sum, count, first),
        is_gamma(sum, count, second),
    ensures
        first == second,
{
    if count > 0 {
        if first < second {
            lemma_within_gamma_falls(sum, count, first + 1, second);
        }
        if second < first {
            lemma_within_gamma_falls(sum, count, second + 1, first);
        }
    }
}

/// More light is never stored darker: of two channels with equally many
/// samples, the one with the greater sum has the greater stored value, or the
/// same.
pub proof fn lemma_gamma_rises(sum: nat, more: nat, count: nat, level: nat, higher: nat)
    requires
        sum <= more,
        is_gamma(sum, count, level),
        is_gamma(more, count, higher),
    ensures
        level <= higher,
{
    if count > 0 && higher < level {
        lemma_within_gamma_falls(sum, count, higher + 1, level);
    }
}

/// A pixel has one stored colour only.
pub proof fn lemma_developed_unique(sums: Sums, first: Pixel, second: Pixel)
    requires
        developed(sums, first),
        developed(sums, second),
    ensures
        first == second,
{
    lemma_gamma_unique(sums.r, sums.count, first.r as nat, second.r as nat);
    lemma_gamma_unique(sums.g, sums.count, first.g as nat, second.g as nat);
    lemma_gamma_unique(sums.b, sums.count, first.b as nat, second.b as nat);
}

/// The stored value of a channel depends on the mean of its samples alone:
/// two runs of samples with one mean, however many samples each has, store
/// the same value.
pub proof fn lemma_gamma_of_mean(
    sum: nat,
    count: nat,
    other_sum: nat,
    other_count: nat,
    level: nat,
)
    requires
        count > 0,
        other_count > 0,
        sum * other_count == other_sum * count,
    ensures
        is_gamma(sum, count, level) == is_gamma(other_sum, other_count, level),
{
    lemma_within_gamma_of_mean(sum, count, other_sum, other_count, level);
    lemma_within_gamma_of_mean(sum, count, other_sum, other_count, level + 1);
}

/// Whether a level is within the gamma of a channel depends on the mean of
/// the channel's samples alone.
proof fn lemma_within_gamma_of_mean(
    sum: nat,
    count: nat,
    other_sum: nat,
    other_count: nat,
    level: nat,
)
    requires
        count > 0,
        other_count > 0,
        sum * other_count == other_sum * count,
    ensures
        within_gamma(sum, count, level) == within_gamma(other_sum, other_count, level),
{
    let square = level * level * 255;
    assert(level * level * (255 * count) == square * count) by (nonlinear_arith)
        requires
            square == level * level * 255,
    ;
    assert(level * level * (255 * other_count) == square * other_count) by (nonlinear_arith)
        requires
            square == level * level * 255,
    ;
    assert((square * count <= 65536 * sum) == (square * other_count <= 65536 * other_sum))
        by (nonlinear_arith)
        requires
            count > 0,
            other_count > 0,
            sum * other_count == other_sum * count,
    ;
}

/// The stored colour of a pixel depends on the mean of its samples alone: two
/// runs of samples with the same mean in every channel, however many samples
/// each has, store the same colour.
pub proof fn lemma_developed_of_mean(sums: Sums, other: Sums, out: Pixel)
    requires
        sums.count > 0,
        other.count > 0,
        sums.r * other.count == other.r * sums.count,
        sums.g * other.count == other.g * sums.count,
        sums.b * other.count == other.b * sums.count,
    ensures
        developed(sums, out) == developed(other, out),
{
    lemma_gamma_of_mean(sums.r, sums.count, other.r, other.count, out.r as nat);
    lemma_gamma_of_mean(sums.g, sums.count, other.g, other.count, out.g as nat);
    lemma_gamma_of_mean(sums.b, sums.count, other.b, other.count, out.b as nat);
}

/// The sums of samples that all have the colour `colour`.
proof fn lemma_sums_of_equal_samples(samples: Seq<Pixel>, colour: Pixel)
    requires
        forall|k: int| 0 <= k < samples.len() ==> samples[k] == colour,
    ensures
        Sums::of(samples) == (Sums {
            r: samples.len() * colour.r as nat,
            g: samples.len() * colour.g as nat,
            b: samples.len() * colour.b as nat,
            count: samples.len(),
        }),
    decreases samples.len(),
{
    if samples.len() > 0 {
        let rest = samples.drop_last();
        lemma_sums_of_equal_samples(rest, colour);
        let n = rest.len();
        assert((n + 1) * colour.r as nat == n * colour.r as nat + colour.r as nat)
            by (nonlinear_arith);
        assert((n + 1) * colour.g as nat == n * colour.g as nat + colour.g as nat)
            by (nonlinear_arith);
        assert((n + 1) * colour.b as nat == n * colour.b as nat + colour.b as nat)
            by (nonlinear_arith);
    } else {
        assert(0 * colour.r as nat == 0 && 0 * colour.g as nat == 0 && 0 * colour.b as nat == 0)
            by (nonlinear_arith);
    }
}

/// Sampling more often does not move a colour that every sample agrees on:
/// any number of samples of one colour, one at least, store what a single
/// sample of that colour stores.
pub proof fn lemma_developed_of_equal_samples(samples: Seq<Pixel>, colour: Pixel, out: Pixel)
    requires
        samples.len() > 0,
        forall|k: int| 0 <= k < samples.len() ==> samples[k] == colour,
    ensures
        developed(Sums::of(samples), out) == developed(Sums::of(seq![colour]), out),
{
    lemma_sums_of_equal_samples(samples, colour);
    lemma_sums_of_equal_samples(seq![colour], colour);
    let many = Sums::of(samples);
    let single = Sums::of(seq![colour]);
    assert(many.r * single.count == single.r * many.count) by (nonlinear_arith)
        requires
            single.count == 1,
            many.r == many.count * colour.r as nat,
            single.r == 1 * colour.r as nat,
    ;
    assert(many.g * single.count == single.g * many.count) by (nonlinear_arith)
        requires
            single.count == 1,
            many.g == many.count * colour.g as nat,
            single.g == 1 * colour.g as nat,
    ;
    assert(many.b * single.count == single.b * many.count) by (nonlinear_arith)
        requires
            single.count == 1,
            many.b == many.count * colour.b as nat,
            single.b == 1 * colour.b as nat,
    ;
    lemma_developed_of_mean(many, single, out);
}

/// The stored value of a channel whose `count` samples sum to `sum`.
fn gamma_channel(sum: u128, count: usize) -> (level: u8)
    requires
        sum <= 255 * count,
    ensures
        is_gamma(sum as nat, count as nat, level as nat),
{
    if count == 0 {
        return 0;
    }
    let unit: u128 = 255 * (count as u128);
    let scaled: u128 = 65536 * sum;
    let mut low: u128 = 0;
    let mut high: u128 = 256;
    assert(within_gamma(sum as nat, count as nat, 0)) by (nonlinear_arith);
    while high - low > 1
        invariant
            low < high <= 256,
            unit == 255 * count,
            scaled == 65536 * sum,
            unit < 0x1_0000_0000_0000_0000_0000,
            within_gamma(sum as nat, count as nat, low as nat),
            high <= 255 ==> !within_gamma(sum as nat, count as nat, high as nat),
        decreases high - low,
    {
        let middle: u128 = (low + high) / 2;
        assert(middle * middle <= 65536) by (nonlinear_arith)
            requires
                middle <= 256,
        ;
        assert(middle * middle * unit <= 65536 * unit) by (nonlinear_arith)
            requires
                middle * middle <= 65536,
                0 <= unit,
        ;
        if middle * middle * unit <= scaled {
            low = middle;
        } else {
            high = middle;
        }
    }
    low as u8
}

/// The running sums of a pixel's samples.
pub struct Tally {
    r: u128,
    g: u128,
    b: u128,
    count: usize,
}

impl View for Tally {
    type V = Sums;

    closed spec fn view(&self) -> Sums {
        Sums { r: self.r as nat, g: self.g as nat, b: self.b as nat, count: self.count as nat }
    }
}

impl Tally {
    #[verifier::type_invariant]
    spec fn inv(self) -> bool {
        self@.wf()
    }

    /// The tally of no samples.
    pub fn new() -> (tally: Tally)
        ensures
            tally@ == Sums::of(Seq::empty()),
    {
        Tally { r: 0, g: 0, b: 0, count: 0 }
    }

    /// Counts one more sample.
    pub fn add(&mut self, p: Pixel)
        requires
            old(self)@.count < usize::MAX,
        ensures
            final(self)@ == old(self)@.plus(p),
    {
        proof {
            use_type_invariant(&*self);
        }
        let tally = Tally {
            r: self.r + p.r as u128,
            g: self.g + p.g as u128,
            b: self.b + p.b as u128,
            count: self.count + 1,
        };
        *self = tally;
    }

    /// The colour stored for the samples counted so far.
    pub fn develop(&self) -> (out: Pixel)
        ensures
            developed(self@, out),
    {
        proof {
            use_type_invariant(self);
        }
        Pixel {
            r: gamma_channel(self.r, self.count),
            g: gamma_channel(self.g, self.count),
            b: gamma_channel(self.b, self.count),
        }
    }
}

} // verus!
