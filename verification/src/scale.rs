//! Bringing an image to the size of the text art.

use crate::error::SymbolizeError;
use crate::grid::PixelGrid;
use vstd::prelude::*;

verus! {

/// How the colours of the new pixels are sampled from the old ones.
#[derive(Clone, Copy, Debug, PartialEq, Eq, Structural)]
pub enum FilterType {
    /// Nearest neighbour.
    Nearest,
    /// Linear filter.
    Triangle,
    /// Cubic filter.
    CatmullRom,
    /// Gaussian filter.
    Gaussian,
    /// Lanczos with window 3.
    Lanczos3,
}

impl FilterType {
    /// The filter that a name stands for.
    pub open spec fn named(name: Seq<char>) -> Option<FilterType> {
        if name == "nearest"@ {
            Some(FilterType::Nearest)
        } else if name == "triangle"@ {
            Some(FilterType::Triangle)
        } else if name == "catmull_rom"@ {
            Some(FilterType::CatmullRom)
        } else if name == "gaussian"@ {
            Some(FilterType::Gaussian)
        } else if name == "lanczos3"@ {
            Some(FilterType::Lanczos3)
        } else {
            None
        }
    }

    /// The filter of that name: one of `nearest`, `triangle`, `catmull_rom`,
    /// `gaussian`, `lanczos3`.
    pub fn from_name(name: &str) -> (result: Result<FilterType, SymbolizeError>)
        ensures
            result == match FilterType::named(name@) {
                Some(filter) => Ok::<FilterType, SymbolizeError>(filter),
                None => Err::<FilterType, SymbolizeError>(SymbolizeError::UnknownFilter),
            },
    {
        let name = name.to_owned();
        if name == "nearest".to_owned() {
            Ok(FilterType::Nearest)
        } else if name == "triangle".to_owned() {
            Ok(FilterType::Triangle)
        } else if name == "catmull_rom".to_owned() {
            Ok(FilterType::CatmullRom)
        } else if name == "gaussian".to_owned() {
            Ok(FilterType::Gaussian)
        } else if name == "lanczos3".to_owned() {
            Ok(FilterType::Lanczos3)
        } else {
            Err(SymbolizeError::UnknownFilter)
        }
    }
}

/// The size asked for. A scale factor is applied to the image's width and
/// height by the caller; what arrives here is the size that came out, or the
/// news that the factor was below zero.
#[derive(Clone, Copy, Debug, PartialEq, Eq, Structural)]
pub enum Scale {
    /// The factor was below zero.
    Negative,
    /// The size of the scaled image, in pixels.
    To { width: u32, height: u32 },
}

/// The longest side, in pixels, between which the filters other than
/// `Nearest` resample.
pub const MAX_SAMPLED_SIDE: u32 = 65535;

/// Whether an image of `width` by `height` pixels can be brought to
/// `new_width` by `new_height` with the filter.
///
/// An image that keeps its size is copied and always fits. Otherwise two
/// things are asked. The buffers that resampling allocates must not exceed
/// the largest allocation: the result, of three bytes to a pixel, and one of
/// `width` by `new_height` pixels of sixteen bytes. And, for every filter
/// but `Nearest`, no side, old or new, is longer than [`MAX_SAMPLED_SIDE`]:
/// these filters weigh the source pixels around the centre of each new
/// pixel, the centre is computed in single precision, and on longer sides
/// it can be so far off that no pixel near it has a weight.
pub open spec fn resize_fits(
    width: nat,
    height: nat,
    new_width: nat,
    new_height: nat,
    filter: FilterType,
) -> bool {
    ||| new_width == width && new_height == height
    ||| {
        &&& 3 * new_width * new_height <= isize::MAX
        &&& 16 * width * new_height <= isize::MAX
        &&& filter is Nearest || {
            &&& width <= MAX_SAMPLED_SIDE
            &&& height <= MAX_SAMPLED_SIDE
            &&& new_width <= MAX_SAMPLED_SIDE
            &&& new_height <= MAX_SAMPLED_SIDE
        }
    }
}

/// Tells whether the image can be brought to `width` by `height` with the
/// filter.
pub fn can_resize(image: &PixelGrid, width: u32, height: u32, filter: FilterType) -> (fits: bool)
    ensures
        fits == resize_fits(
            image.spec_width(),
            image.spec_height(),
            width as nat,
            height as nat,
            filter,
        ),
{
    let old_width = image.width();
    let old_height = image.height();
    if width == old_width && height == old_height {
        return true;
    }
    let sampled = match filter {
        FilterType::Nearest => true,
        _ => old_width <= MAX_SAMPLED_SIDE && old_height <= MAX_SAMPLED_SIDE && width
            <= MAX_SAMPLED_SIDE && height <= MAX_SAMPLED_SIDE,
    };
    let w = width as u128;
    let h = height as u128;
    let ow = old_width as u128;
    assert(w * h <= 0xFFFF_FFFF * 0xFFFF_FFFF && ow * h <= 0xFFFF_FFFF * 0xFFFF_FFFF)
        by (nonlinear_arith)
        requires
            w <= 0xFFFF_FFFF,
            h <= 0xFFFF_FFFF,
            ow <= 0xFFFF_FFFF,
    ;
    assert(3 * width * height == 3 * (w * h) && 16 * old_width * height == 16 * (ow * h))
        by (nonlinear_arith)
        requires
            w == width,
            h == height,
            ow == old_width,
    ;
    let limit = isize::MAX as u128;
    sampled && 3 * (w * h) <= limit && 16 * (ow * h) <= limit
}

/// The buffer of the image that `image::imageops::resize` makes with the
/// filter `Nearest` of an RGB image of `width` by `height` with the buffer
/// `data`, brought to `new_width` by `new_height`.
pub uninterp spec fn resized_nearest(
    data: Seq<u8>,
    width: nat,
    height: nat,
    new_width: nat,
    new_height: nat,
) -> Seq<u8>;

/// Whether `scaled` can be the buffer of what becomes of an image of `width`
/// by `height` with the buffer `data` when it is brought to `new_width` by
/// `new_height` with the filter: it has three values for each pixel of the
/// new size; an image that keeps its size keeps its pixels; and with the
/// filter `Nearest` it is what that filter makes of the image. With another
/// filter and another size the colours are open.
pub open spec fn resizes_to(
    data: Seq<u8>,
    width: nat,
    height: nat,
    filter: FilterType,
    scaled: Seq<u8>,
    new_width: nat,
    new_height: nat,
) -> bool {
    &&& scaled.len() == 3 * new_width * new_height
    &&& new_width == width && new_height == height ==> scaled == data
    &&& filter is Nearest ==> scaled == resized_nearest(data, width, height, new_width, new_height)
}

/// Calls `image::imageops::resize` on an RGB image given as its buffer of
/// channel values, and hands back the buffer of the image that comes out.
///
/// That image has the size asked for, so its buffer holds three values for
/// each of its pixels. Where the size asked for is the size of the source,
/// the source is copied pixel by pixel. With the filter `Nearest` every
/// weight is one, so each pixel of the result is one pixel of the source,
/// picked by a division, a product, a floor and a ceiling in single
/// precision: the result depends on the arguments alone and has a name.
/// With the other filters nothing is said of the colours: they weigh with
/// `sin`, `exp` and `powi`, whose last digit differs from one machine to
/// another.
///
/// The buffer given must hold the source exactly, and the sizes must fit:
/// `ImageBuffer::new` panics where a buffer cannot be allocated, and the
/// sampling unwraps a value that is missing where the weights of the
/// sampled pixels sum to zero. On sides up to [`MAX_SAMPLED_SIDE`] the
/// centre of a new pixel is off by less than a hundredth of a pixel, so the
/// source pixels within half a step of it are sampled, each with a weight
/// of at least 0.46. The weights below zero, which only `CatmullRom` and
/// `Lanczos3` have, are at most 0.15 each and too few to outweigh them, and
/// rounding the sum loses less than what is left: the sum is above zero.
#[verifier::external_body]
fn resize_raw(
    data: &Vec<u8>,
    width: u32,
    height: u32,
    new_width: u32,
    new_height: u32,
    filter: FilterType,
) -> (out: Vec<u8>)
    requires
        data@.len() == 3 * width * height,
        resize_fits(width as nat, height as nat, new_width as nat, new_height as nat, filter),
    ensures
        out@.len() == 3 * new_width * new_height,
        new_width == width && new_height == height ==> out@ == data@,
        filter is Nearest ==> out@ == resized_nearest(
            data@,
            width as nat,
            height as nat,
            new_width as nat,
            new_height as nat,
        ),
{
    let source: image::ImageBuffer<image::Rgb<u8>, &[u8]> =
        image::ImageBuffer::from_raw(width, height, data.as_slice()).unwrap();
    let kind = match filter {
        FilterType::Nearest => image::imageops::FilterType::Nearest,
        FilterType::Triangle => image::imageops::FilterType::Triangle,
        FilterType::CatmullRom => image::imageops::FilterType::CatmullRom,
        FilterType::Gaussian => image::imageops::FilterType::Gaussian,
        FilterType::Lanczos3 => image::imageops::FilterType::Lanczos3,
    };
    image::imageops::resize(&source, new_width, new_height, kind).into_raw()
}

/// The image at another size.
///
/// An image that keeps its size keeps its pixels, and with the filter
/// `Nearest` the result is what that filter makes of the image. Otherwise
/// the size is all that is known of the result: the colours are what the
/// filter makes of them. The size must be one that the image can be brought
/// to, see [`resize_fits`]; [`can_resize`] tells.
pub fn resize(image: &PixelGrid, width: u32, height: u32, filter: FilterType) -> (scaled: PixelGrid)
    requires
        resize_fits(image.spec_width(), image.spec_height(), width as nat, height as nat, filter),
    ensures
        scaled.spec_width() == width,
        scaled.spec_height() == height,
        resizes_to(
            image.raw(),
            image.spec_width(),
            image.spec_height(),
            filter,
            scaled.raw(),
            width as nat,
            height as nat,
        ),
{
    let old_width = image.width();
    let old_height = image.height();
    let out = resize_raw(image.as_raw(), old_width, old_height, width, height, filter);
    PixelGrid::from_raw(width, height, out).unwrap()
}

} // verus!
