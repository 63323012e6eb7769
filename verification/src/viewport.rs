//! The pixels of the image.
//!
//! The image is `width` pixels wide and `height` pixels high and is stored row by row, the
//! top row first. Pixel `index` therefore stands in column `index % width` of row
//! `index / width`. Seen from the camera, a pixel lies at `column / (width / 2) - 1`
//! across and `row / (height / 2) - 1` down, so the pixel in column `width / 2` of row
//! `height / 2` lies straight ahead.

use vstd::prelude::*;
use vstd::arithmetic::div_mod::{
    lemma_fundamental_div_mod,
    lemma_fundamental_div_mod_converse,
    lemma_mod_bound,
};
use vstd::arithmetic::mul::{lemma_mul_inequality, lemma_mul_is_commutative};
use crate::color::{color_of, Rgb, Sample};

verus! {

/// Where a pixel stands, with the two numbers that its place is divided by to give its
/// direction from the camera.
#[derive(Clone, Copy, Debug, PartialEq, Eq, Structural)]
pub struct Pixel {
    pub column: usize,
    pub row: usize,
    pub half_width: usize,
    pub half_height: usize,
}

/// The column of pixel `index` in an image `width` wide.
pub open spec fn column_of(index: nat, width: nat) -> nat {
    index % width
}

/// The row of pixel `index` in an image `width` wide.
pub open spec fn row_of(index: nat, width: nat) -> nat {
    index / width
}

/// The index of the pixel in `column` of `row`.
pub open spec fn index_at(column: nat, row: nat, width: nat) -> nat {
    row * width + column
}

/// The index of the pixel at the centre of the image.
pub open spec fn centre(width: nat, height: nat) -> nat {
    index_at(width / 2, height / 2, width)
}

/// Where pixel `index` stands in an image of `width` by `height` pixels.
pub open spec fn pixel_at(index: usize, width: usize, height: usize) -> Pixel {
    Pixel {
        column: column_of(index as nat, width as nat) as usize,
        row: row_of(index as nat, width as nat) as usize,
        half_width: width / 2,
        half_height: height / 2,
    }
}

/// Finds where pixel `index` stands. The image must have a width; its height may be
/// anything, and so may the index, which need not lie inside the image.
pub fn pixel_from_index(index: usize, width: usize, height: usize) -> (pixel: Pixel)
    requires
        width > 0,
    ensures
        pixel == pixel_at(index, width, height),
        pixel.column == index % width,
        pixel.row == index / width,
        pixel.half_width == width / 2,
        pixel.half_height == height / 2,
{
    Pixel {
        column: index % width,
        row: index / width,
        half_width: width / 2,
        half_height: height / 2,
    }
}

/// The number of pixels of the image, unless it is beyond what the machine can count.
pub fn pixel_count(width: usize, height: usize) -> (count: Option<usize>)
    ensures
        match count {
            Some(n) => n == width * height,
            None => width * height > usize::MAX,
        },
{
    width.checked_mul(height)
}

/// Renders the image: one sample per pixel, taken by `kernel` from the pixel's index and
/// turned into a colour, in the order of the indices.
///
/// No pixel depends on another: the colour at an index is what the kernel gave for that
/// index and for no other. The result is `None` only where the image has more pixels than
/// the machine can count.
pub fn render<K: Fn(usize) -> Option<Sample>>(width: usize, height: usize, kernel: K) -> (frame:
    Option<Vec<Rgb>>)
    requires
        forall|index: usize| index < width * height ==> call_requires(kernel, (index,)),
    ensures
        frame is Some <==> width * height <= usize::MAX,
        frame matches Some(pixels) ==> {
            &&& pixels.len() == width * height
            &&& forall|index: int|
                0 <= index < pixels.len() ==> sampled(kernel, index as usize, #[trigger] pixels[index])
        },
{
    let count = match pixel_count(width, height) {
        Some(n) => n,
        None => {
            return None;
        },
    };
    let mut pixels: Vec<Rgb> = Vec::with_capacity(count);
    let mut index: usize = 0;
    while index < count
        invariant
            index <= count,
            count == width * height,
            pixels.len() == index,
            forall|i: usize| i < width * height ==> call_requires(kernel, (i,)),
            forall|i: int| 0 <= i < index ==> sampled(kernel, i as usize, #[trigger] pixels[i]),
        decreases count - index,
    {
        let sample = kernel(index);
        pixels.push(Rgb::from_sample(sample));
        index += 1;
    }
    Some(pixels)
}

/// Whether `color` is what the kernel's sample for pixel `index` shows as.
pub open spec fn sampled<K: Fn(usize) -> Option<Sample>>(kernel: K, index: usize, color: Rgb) -> bool {
    exists|sample: Option<Sample>| #[trigger]
        call_ensures(kernel, (index,), sample) && color == color_of(sample)
}

/// The pixel at the centre of the image stands in column `width / 2` of row `height / 2`:
/// its place across equals the number it is divided by, and so does its place down. It is
/// the pixel that lies straight ahead of the camera.
pub proof fn lemma_centre_lies_ahead(width: usize, height: usize)
    requires
        width > 0,
        centre(width as nat, height as nat) <= usize::MAX,
    ensures
        ({
            let pixel = pixel_at(centre(width as nat, height as nat) as usize, width, height);
            &&& pixel.column == width / 2
            &&& pixel.row == height / 2
            &&& pixel.column == pixel.half_width
            &&& pixel.row == pixel.half_height
        }),
{
    lemma_place_of_index((width / 2) as nat, (height / 2) as nat, width as nat);
}

/// Column and row name the pixel: the index of the pixel in the column and row of
/// `index` is `index` again.
pub proof fn lemma_index_of_place(index: nat, width: nat)
    requires
        width > 0,
    ensures
        index_at(column_of(index, width), row_of(index, width), width) == index,
        column_of(index, width) < width,
{
    lemma_fundamental_div_mod(index as int, width as int);
    lemma_mul_is_commutative(width as int, (index / width) as int);
    lemma_mod_bound(index as int, width as int);
}

/// The pixel in `column` of `row` has that column and that row.
pub proof fn lemma_place_of_index(column: nat, row: nat, width: nat)
    requires
        column < width,
    ensures
        column_of(index_at(column, row, width), width) == column,
        row_of(index_at(column, row, width), width) == row,
{
    lemma_fundamental_div_mod_converse(
        index_at(column, row, width) as int,
        width as int,
        row as int,
        column as int,
    );
}

/// A pixel of the image stands in one of its rows.
pub proof fn lemma_row_in_image(index: nat, width: nat, height: nat)
    requires
        index < width * height,
    ensures
        width > 0,
        row_of(index, width) < height,
        column_of(index, width) < width,
{
    if width == 0 {
        assert(width * height == 0) by (nonlinear_arith)
            requires
                width == 0,
        ;
    }
    lemma_index_of_place(index, width);
    if row_of(index, width) >= height {
        lemma_mul_inequality(height as int, row_of(index, width) as int, width as int);
        lemma_mul_is_commutative(width as int, height as int);
    }
}

} // verus!
