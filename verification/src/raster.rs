//! From a decoded image to the pixel grid that is drawn: the image is scaled
//! by the `image` crate to fit the wanted size and read as RGBA.

use crate::filter::FilterKind;
use crate::grid::PixelGrid;
use image::{DynamicImage, GenericImageView};
use vstd::prelude::*;

verus! {

/// No side of an image that is scaled, before or after, may be longer than
/// this: the resampler works out positions in single precision, which is
/// exact enough only for sides of moderate length.
pub const SIDE_LIMIT: u32 = 0x1_0000;

/// `image::DynamicImage`, a decoded image in one of several pixel formats.
/// Nothing is known of what is inside but what the functions below say.
#[verifier::external_type_specification]
#[verifier::external_body]
pub struct ExDynamicImage(image::DynamicImage);

/// The number of columns of a decoded image.
pub uninterp spec fn image_width(image: DynamicImage) -> nat;

/// The number of rows of a decoded image.
pub uninterp spec fn image_height(image: DynamicImage) -> nat;

/// The largest width and height in the proportions of `width` to `height`
/// that fit within `max_width` by `max_height`, each rounded down.
pub open spec fn fitted(width: nat, height: nat, max_width: nat, max_height: nat) -> (nat, nat) {
    if max_width * height <= width * max_height {
        (max_width, height * max_width / width)
    } else {
        (width * max_height / height, max_height)
    }
}

/// The images and sizes that can be scaled: the image is not empty, no side
/// is longer than [`SIDE_LIMIT`] before or after, and the buffers that the
/// scaling fills can be addressed.
pub open spec fn scalable(width: nat, height: nat, max_width: nat, max_height: nat) -> bool {
    &&& 0 < width <= SIDE_LIMIT
    &&& 0 < height <= SIDE_LIMIT
    &&& max_width <= SIDE_LIMIT
    &&& max_height <= SIDE_LIMIT
    &&& 4 * (width * max_height) <= usize::MAX
    &&& 4 * (max_width * max_height) <= usize::MAX
}

/// `GenericImageView::width` of `DynamicImage`, which returns the width of
/// the buffer that the image holds.
#[verifier::external_body]
fn width_of(image: &DynamicImage) -> (width: u32)
    ensures
        width == image_width(*image),
{
    image.width()
}

/// `GenericImageView::height` of `DynamicImage`, which returns the height
/// of the buffer that the image holds.
#[verifier::external_body]
fn height_of(image: &DynamicImage) -> (height: u32)
    ensures
        height == image_height(*image),
{
    image.height()
}

/// `DynamicImage::resize`, which scales an image with the given filter to
/// the largest size in its proportions that fits within `max_width` by
/// `max_height`. It divides by the image's sides and panics where a buffer
/// of four bytes for each pixel of the image's width by the new height, or
/// of the new size, cannot be addressed. Claimed of the result: its width
/// and height. Its pixels are computed in floating point and nothing is
/// said of them.
#[verifier::external_body]
fn resize(
    image: &DynamicImage,
    max_width: u32,
    max_height: u32,
    filter: FilterKind,
) -> (scaled: DynamicImage)
    requires
        scalable(image_width(*image), image_height(*image), max_width as nat, max_height as nat),
    ensures
        (image_width(scaled), image_height(scaled)) == fitted(
            image_width(*image),
            image_height(*image),
            max_width as nat,
            max_height as nat,
        ),
{
    let kind = match filter {
        FilterKind::Nearest => image::FilterType::Nearest,
        FilterKind::Linear => image::FilterType::Triangle,
        FilterKind::Cubic => image::FilterType::CatmullRom,
        FilterKind::Gaussian => image::FilterType::Gaussian,
        FilterKind::Lanczos3 => image::FilterType::Lanczos3,
    };
    image.resize(max_width, max_height, kind)
}

/// `DynamicImage::to_rgba`, which converts an image to RGBA, followed by
/// `ImageBuffer::into_raw`, which hands out its samples. The conversion
/// panics where four bytes for each pixel cannot be addressed. Claimed of
/// the result: there are four samples for each pixel of the image.
#[verifier::external_body]
fn rgba_samples(image: &DynamicImage) -> (samples: Vec<u8>)
    requires
        4 * (image_width(*image) * image_height(*image)) <= usize::MAX,
    ensures
        samples@.len() == 4 * (image_width(*image) * image_height(*image)),
{
    image.to_rgba().into_raw()
}

/// What fits is no larger than what it fits in.
pub proof fn lemma_fitted_within(width: nat, height: nat, max_width: nat, max_height: nat)
    requires
        width > 0,
        height > 0,
    ensures
        fitted(width, height, max_width, max_height).0 <= max_width,
        fitted(width, height, max_width, max_height).1 <= max_height,
        fitted(width, height, max_width, max_height).0 == max_width || fitted(
            width,
            height,
            max_width,
            max_height,
        ).1 == max_height,
{
    if max_width * height <= width * max_height {
        assert(height * max_width / width <= max_height) by (nonlinear_arith)
            requires
                max_width * height <= width * max_height,
                width > 0,
        ;
    } else {
        assert(width * max_height / height <= max_width) by (nonlinear_arith)
            requires
                max_width * height > width * max_height,
                height > 0,
        ;
    }
}

/// Scales a decoded image to fit within `max_width` by `max_height`,
/// keeping its proportions, and reads the result as a grid of RGBA pixels.
/// `None` for an image or a size that cannot be scaled: see [`scalable`].
pub fn rasterize(
    image: &DynamicImage,
    max_width: u32,
    max_height: u32,
    filter: FilterKind,
) -> (grid: Option<PixelGrid>)
    ensures
        grid is Some <==> scalable(
            image_width(*image),
            image_height(*image),
            max_width as nat,
            max_height as nat,
        ),
        grid matches Some(g) ==> g@.wf() && (g@.width, g@.height) == fitted(
            image_width(*image),
            image_height(*image),
            max_width as nat,
            max_height as nat,
        ),
{
    let width: u32 = width_of(image);
    let height: u32 = height_of(image);
    if width == 0 || height == 0 || width > SIDE_LIMIT || height > SIDE_LIMIT || max_width
        > SIDE_LIMIT || max_height > SIDE_LIMIT {
        return None;
    }
    assert(width * max_height <= 0x1_0000 * 0x1_0000 && max_width * max_height <= 0x1_0000
        * 0x1_0000) by (nonlinear_arith)
        requires
            0 <= width <= 0x1_0000,
            0 <= max_width <= 0x1_0000,
            0 <= max_height <= 0x1_0000,
    ;
    let tall: u64 = 4 * ((width as u64) * (max_height as u64));
    let wide: u64 = 4 * ((max_width as u64) * (max_height as u64));
    if tall > usize::MAX as u64 || wide > usize::MAX as u64 {
        return None;
    }
    let scaled = resize(image, max_width, max_height, filter);
    let scaled_width: u32 = width_of(&scaled);
    let scaled_height: u32 = height_of(&scaled);
    proof {
        lemma_fitted_within(width as nat, height as nat, max_width as nat, max_height as nat);
        assert(scaled_width * scaled_height <= max_width * max_height) by (nonlinear_arith)
            requires
                0 <= scaled_width <= max_width,
                0 <= scaled_height <= max_height,
        ;
    }
    let samples = rgba_samples(&scaled);
    let grid = PixelGrid::from_raw(scaled_width, scaled_height, samples.as_slice());
    grid
}

} // verus!
