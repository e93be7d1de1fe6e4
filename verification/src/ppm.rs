//! The plain-text pixel map: what an image is written as, and why nothing is
//! lost in the writing.

use vstd::prelude::*;
use vstd::seq_lib::lemma_concat_associative;
use crate::decimal::{decimal, is_digit, lemma_decimal, number};
use crate::pixel::Pixel;

verus! {

/// The three lines that open a pixel map of the given size: the magic word
/// `P3`, the width and the height, and the greatest channel value, 255.
pub open spec fn ppm_header(width: nat, height: nat) -> Seq<char> {
    seq!['P', '3', '\n'] + decimal(width) + seq![' '] + decimal(height)
        + seq!['\n', '2', '5', '5', '\n']
}

/// One pixel's line of a pixel map: red, green and blue in decimal, a space
/// between them, and a line feed.
pub open spec fn ppm_line(p: Pixel) -> Seq<char> {
    decimal(p.r as nat) + seq![' '] + decimal(p.g as nat) + seq![' '] + decimal(p.b as nat)
        + seq!['\n']
}

/// The lines of the given pixels, in their order.
pub open spec fn ppm_body(pixels: Seq<Pixel>) -> Seq<char>
    decreases pixels.len(),
{
    if pixels.len() == 0 {
        Seq::empty()
    } else {
        ppm_body(pixels.drop_last()) + ppm_line(pixels.last())
    }
}

/// The pixel map of an image of the given size and pixels.
pub open spec fn ppm_text(width: nat, height: nat, pixels: Seq<Pixel>) -> Seq<char> {
    ppm_header(width, height) + ppm_body(pixels)
}

/// A run of digits ends where the first other character stands: two texts
/// that are equal, and each a run of digits, one other character and a rest,
/// agree in all three parts.
proof fn lemma_digits_end(
    digits: Seq<char>,
    stop: char,
    rest: Seq<char>,
    other_digits: Seq<char>,
    other_stop: char,
    other_rest: Seq<char>,
)
    requires
        forall|i: int| 0 <= i < digits.len() ==> is_digit(#[trigger] digits[i]),
        forall|i: int| 0 <= i < other_digits.len() ==> is_digit(#[trigger] other_digits[i]),
        !is_digit(stop),
        !is_digit(other_stop),
        digits + seq![stop] + rest == other_digits + seq![other_stop] + other_rest,
    ensures
        digits == other_digits,
        stop == other_stop,
        rest == other_rest,
{
    let text = digits + seq![stop] + rest;
    let other_text = other_digits + seq![other_stop] + other_rest;
    let n = digits.len() as int;
    let m = other_digits.len() as int;
    assert(text[n] == stop);
    assert(other_text[m] == other_stop);
    if n < m {
        assert(other_text[n] == other_digits[n]);
    }
    if m < n {
        assert(text[m] == digits[m]);
    }
    assert(n == m);
    assert forall|i: int| 0 <= i < n implies digits[i] == other_digits[i] by {
        assert(text[i] == digits[i]);
        assert(other_text[i] == other_digits[i]);
    }
    assert(digits =~= other_digits);
    assert(rest =~= text.skip(n + 1));
    assert(other_rest =~= other_text.skip(n + 1));
}

/// A number in decimal ends where the first character that is no digit
/// stands: two equal texts that each begin with a number, one other character
/// and a rest agree in the number, the character and the rest.
proof fn lemma_number_ends(
    n: nat,
    stop: char,
    rest: Seq<char>,
    other_n: nat,
    other_stop: char,
    other_rest: Seq<char>,
)
    requires
        !is_digit(stop),
        !is_digit(other_stop),
        decimal(n) + seq![stop] + rest == decimal(other_n) + seq![other_stop] + other_rest,
    ensures
        n == other_n,
        stop == other_stop,
        rest == other_rest,
{
    lemma_decimal(n);
    lemma_decimal(other_n);
    lemma_digits_end(decimal(n), stop, rest, decimal(other_n), other_stop, other_rest);
    assert(number(decimal(n)) == number(decimal(other_n)));
}

/// A pixel's line before a rest, read from the left.
proof fn lemma_line_shape(p: Pixel, rest: Seq<char>)
    ensures
        ppm_line(p) + rest == decimal(p.r as nat) + seq![' '] + (decimal(p.g as nat) + seq![' ']
            + (decimal(p.b as nat) + seq!['\n'] + rest)),
{
    let r = decimal(p.r as nat);
    let g = decimal(p.g as nat);
    let b = decimal(p.b as nat);
    let space = seq![' '];
    let feed = seq!['\n'];
    lemma_concat_associative(r + space + g + space + b, feed, rest);
    lemma_concat_associative(r + space + g + space, b, feed + rest);
    lemma_concat_associative(b, feed, rest);
    lemma_concat_associative(r + space + g, space, b + feed + rest);
    lemma_concat_associative(r + space, g, space + (b + feed + rest));
    lemma_concat_associative(g, space, b + feed + rest);
}

/// A pixel's line and what follows it tell the pixel and what follows.
proof fn lemma_line_ends(p: Pixel, rest: Seq<char>, q: Pixel, other_rest: Seq<char>)
    requires
        ppm_line(p) + rest == ppm_line(q) + other_rest,
    ensures
        p == q,
        rest == other_rest,
{
    let after_g = decimal(p.b as nat) + seq!['\n'] + rest;
    let after_r = decimal(p.g as nat) + seq![' '] + after_g;
    let other_after_g = decimal(q.b as nat) + seq!['\n'] + other_rest;
    let other_after_r = decimal(q.g as nat) + seq![' '] + other_after_g;
    lemma_line_shape(p, rest);
    lemma_line_shape(q, other_rest);
    lemma_number_ends(p.r as nat, ' ', after_r, q.r as nat, ' ', other_after_r);
    lemma_number_ends(p.g as nat, ' ', after_g, q.g as nat, ' ', other_after_g);
    lemma_number_ends(p.b as nat, '\n', rest, q.b as nat, '\n', other_rest);
}

/// A header before a rest, read from the left.
proof fn lemma_header_shape(width: nat, height: nat, rest: Seq<char>)
    ensures
        ppm_header(width, height) + rest == seq!['P', '3', '\n'] + (decimal(width) + seq![' '] + (
        decimal(height) + seq!['\n'] + (seq!['2', '5', '5', '\n'] + rest))),
{
    let magic = seq!['P', '3', '\n'];
    let w = decimal(width);
    let h = decimal(height);
    let space = seq![' '];
    let feed = seq!['\n'];
    let depth = seq!['2', '5', '5', '\n'];
    assert(seq!['\n', '2', '5', '5', '\n'] =~= feed + depth);
    lemma_concat_associative(magic + w + space + h, feed, depth);
    lemma_concat_associative(magic + w + space + h + feed, depth, rest);
    lemma_concat_associative(magic + w + space + h, feed, depth + rest);
    lemma_concat_associative(magic + w + space, h, feed + (depth + rest));
    lemma_concat_associative(h, feed, depth + rest);
    lemma_concat_associative(magic + w, space, h + feed + (depth + rest));
    lemma_concat_associative(magic, w, space + (h + feed + (depth + rest)));
    lemma_concat_associative(w, space, h + feed + (depth + rest));
}

/// A header and what follows it tell the size and what follows.
proof fn lemma_header_ends(
    width: nat,
    height: nat,
    rest: Seq<char>,
    other_width: nat,
    other_height: nat,
    other_rest: Seq<char>,
)
    requires
        ppm_header(width, height) + rest == ppm_header(other_width, other_height) + other_rest,
    ensures
        width == other_width,
        height == other_height,
        rest == other_rest,
{
    let magic = seq!['P', '3', '\n'];
    let depth = seq!['2', '5', '5', '\n'];
    let after_height = depth + rest;
    let after_width = decimal(height) + seq!['\n'] + after_height;
    let other_after_height = depth + other_rest;
    let other_after_width = decimal(other_height) + seq!['\n'] + other_after_height;
    lemma_header_shape(width, height, rest);
    lemma_header_shape(other_width, other_height, other_rest);
    magic.lemma_concat_injective(
        decimal(width) + seq![' '] + after_width,
        decimal(other_width) + seq![' '] + other_after_width,
    );
    lemma_number_ends(width, ' ', after_width, other_width, ' ', other_after_width);
    lemma_number_ends(height, '\n', after_height, other_height, '\n', other_after_height);
    depth.lemma_concat_injective(rest, other_rest);
}

/// The body of a pixel map begins with the line of the first pixel.
proof fn lemma_body_begins(pixels: Seq<Pixel>)
    requires
        pixels.len() > 0,
    ensures
        ppm_body(pixels) == ppm_line(pixels.first()) + ppm_body(pixels.skip(1)),
    decreases pixels.len(),
{
    if pixels.len() == 1 {
        assert(pixels.drop_last() =~= Seq::<Pixel>::empty());
        assert(pixels.skip(1) =~= Seq::<Pixel>::empty());
        assert(ppm_body(pixels.drop_last()) =~= Seq::<char>::empty());
        assert(ppm_body(pixels) =~= ppm_line(pixels.first()) + ppm_body(pixels.skip(1)));
    } else {
        lemma_body_begins(pixels.drop_last());
        assert(pixels.drop_last().skip(1) =~= pixels.skip(1).drop_last());
        assert(pixels.drop_last().first() == pixels.first());
        assert(pixels.skip(1).last() == pixels.last());
        assert(ppm_body(pixels) =~= ppm_line(pixels.first()) + ppm_body(pixels.skip(1)));
    }
}

/// Equal bodies of equally many lines are the bodies of equal pixels.
proof fn lemma_body_tells_pixels(pixels: Seq<Pixel>, others: Seq<Pixel>)
    requires
        pixels.len() == others.len(),
        ppm_body(pixels) == ppm_body(others),
    ensures
        pixels == others,
    decreases pixels.len(),
{
    if pixels.len() > 0 {
        lemma_body_begins(pixels);
        lemma_body_begins(others);
        lemma_line_ends(
            pixels.first(),
            ppm_body(pixels.skip(1)),
            others.first(),
            ppm_body(others.skip(1)),
        );
        lemma_body_tells_pixels(pixels.skip(1), others.skip(1));
        assert(pixels =~= seq![pixels.first()] + pixels.skip(1));
        assert(others =~= seq![others.first()] + others.skip(1));
    } else {
        assert(pixels =~= others);
    }
}

/// Nothing is lost in the writing: two images with a pixel for every place,
/// written as the same pixel map, have the same size and the same pixels.
pub proof fn lemma_ppm_tells_image(
    width: nat,
    height: nat,
    pixels: Seq<Pixel>,
    other_width: nat,
    other_height: nat,
    other_pixels: Seq<Pixel>,
)
    requires
        pixels.len() == width * height,
        other_pixels.len() == other_width * other_height,
        ppm_text(width, height, pixels) == ppm_text(other_width, other_height, other_pixels),
    ensures
        width == other_width,
        height == other_height,
        pixels == other_pixels,
{
    lemma_header_ends(
        width,
        height,
        ppm_body(pixels),
        other_width,
        other_height,
        ppm_body(other_pixels),
    );
    lemma_body_tells_pixels(pixels, other_pixels);
}

} // verus!
