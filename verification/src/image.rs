//! Decoded raster images.
use std::rc::Rc;

use vstd::prelude::*;

verus! {

/// An RGBA8 image with straight alpha, ready for the canvas.
#[derive(Clone, Debug, PartialEq)]
pub struct RasterImage {
    pub width: u32,
    pub height: u32,
    /// `width * height * 4` bytes in RGBA order.
    pub pixels: Vec<u8>,
}

/// Does a buffer of `len` bytes hold a `width` by `height` RGBA image with at
/// least one pixel?
pub open spec fn fits_image(width: u32, height: u32, len: nat) -> bool {
    width > 0 && height > 0 && len == width * height * 4
}

/// The image a decoded buffer makes, if the buffer fits its dimensions.
pub open spec fn raster_of(width: u32, height: u32, pixels: Seq<u8>) -> Option<
    (u32, u32, Seq<u8>),
> {
    if fits_image(width, height, pixels.len()) {
        Some((width, height, pixels))
    } else {
        None
    }
}

/// What the `image` crate decodes `bytes` to, as RGBA8: width, height and the
/// raw buffer.
pub uninterp spec fn decoded_rgba(bytes: Seq<u8>) -> Option<(u32, u32, Seq<u8>)>;

/// Calls `image::load_from_memory`, then converts to RGBA8 with
/// `DynamicImage::to_rgba8`, reads `dimensions` and takes the buffer with
/// `into_raw`.
///
/// The contract claims only that the outcome is a function of the bytes,
/// named [`decoded_rgba`]; which formats decode, and to what, is not stated.
#[verifier::external_body]
fn decode_rgba(bytes: &[u8]) -> (r: Option<(u32, u32, Vec<u8>)>)
    ensures
        match r {
            Some((width, height, pixels)) => decoded_rgba(bytes@) == Some((width, height, pixels@)),
            None => decoded_rgba(bytes@) is None,
        },
{
    let decoded = image::load_from_memory(bytes).ok()?;
    let rgba = decoded.to_rgba8();
    let (width, height) = rgba.dimensions();
    Some((width, height, rgba.into_raw()))
}

impl View for RasterImage {
    type V = (u32, u32, Seq<u8>);

    open spec fn view(&self) -> (u32, u32, Seq<u8>) {
        (self.width, self.height, self.pixels@)
    }
}

pub open spec fn image_view(image: Option<RasterImage>) -> Option<(u32, u32, Seq<u8>)> {
    match image {
        Some(image) => Some(image@),
        None => None,
    }
}

impl RasterImage {
    /// An image of the buffer, when it holds exactly `width * height` RGBA
    /// pixels and there is at least one.
    pub fn new(width: u32, height: u32, pixels: Vec<u8>) -> (r: Option<Self>)
        ensures
            image_view(r) == raster_of(width, height, pixels@),
    {
        let len = pixels.len();
        if width == 0 || height == 0 {
            return None;
        }
        assert((width as int) * (height as int) <= u32::MAX * u32::MAX) by (nonlinear_arith)
            requires
                width <= u32::MAX,
                height <= u32::MAX,
        ;
        let area: u64 = width as u64 * height as u64;
        if area > u64::MAX / 4 {
            assert(pixels@.len() <= usize::MAX);
            assert(width * height * 4 > u64::MAX);
            return None;
        }
        let expected: u64 = area * 4;
        if len as u64 != expected {
            return None;
        }
        Some(RasterImage { width, height, pixels })
    }

    /// Decodes PNG, JPEG, GIF or BMP data.
    pub fn decode(bytes: &[u8]) -> (r: Option<Self>)
        ensures
            image_view(r) == match decoded_rgba(bytes@) {
                Some((width, height, pixels)) => raster_of(width, height, pixels),
                None => None,
            },
    {
        let (width, height, pixels) = decode_rgba(bytes)?;
        RasterImage::new(width, height, pixels)
    }

    /// A flat single-colour image, used for placeholders and tests.
    pub fn solid(width: u32, height: u32, rgba: [u8; 4]) -> (r: Self)
        requires
            width * height * 4 <= usize::MAX,
        ensures
            r.width == width,
            r.height == height,
            r.pixels@.len() == width * height * 4,
            forall|i: int| 0 <= i < r.pixels@.len() ==> #[trigger] r.pixels@[i] == rgba@[i % 4],
    {
        let count: usize = (width as usize) * (height as usize) * 4;
        let mut pixels: Vec<u8> = Vec::with_capacity(count);
        let mut i: usize = 0;
        while i < count
            invariant
                count == width * height * 4,
                i <= count,
                pixels@.len() == i,
                forall|j: int| 0 <= j < i ==> #[trigger] pixels@[j] == rgba@[j % 4],
            decreases count - i,
        {
            pixels.push(rgba[i % 4]);
            i = i + 1;
        }
        RasterImage { width, height, pixels }
    }
}

/// Supplies decoded images to the display list builder.
pub trait ImageSource {
    /// Can the source be asked for `url`?
    spec fn serves(&self, url: &str) -> bool;

    fn image(&self, url: &str) -> Option<Rc<RasterImage>>
        requires
            self.serves(url),
    ;
}

/// An image source with nothing in it.
pub struct NoImageSource;

impl ImageSource for NoImageSource {
    open spec fn serves(&self, url: &str) -> bool {
        true
    }

    fn image(&self, _url: &str) -> (r: Option<Rc<RasterImage>>)
        ensures
            r is None,
    {
        None
    }
}

/// A closure from URL to image is an image source.
impl<F> ImageSource for F where F: Fn(&str) -> Option<Rc<RasterImage>> {
    open spec fn serves(&self, url: &str) -> bool {
        call_requires(*self, (url,))
    }

    fn image(&self, url: &str) -> (r: Option<Rc<RasterImage>>)
        ensures
            call_ensures(*self, (url,), r),
    {
        self(url)
    }
}

} // verus!
