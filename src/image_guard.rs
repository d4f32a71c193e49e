//! The bound on the decoded size of a received image, checked before it is
//! decompressed.
use vstd::prelude::*;

verus! {

/// Largest decoded image, in bytes, that the receiver accepts to decompress.
pub const MAX_ACCEPTABLE_IMAGE_SIZE: u64 = 10_000_000;

/// Colorspace that a compressed image declares.
#[derive(Clone, Copy, Debug, PartialEq, Eq, Structural)]
pub enum Colorspace {
    Rgb,
    YCbCr,
    Gray,
    Cmyk,
    Ycck,
}

impl Colorspace {
    /// Number of components per pixel.
    pub open spec fn spec_channels(self) -> nat {
        match self {
            Colorspace::Rgb | Colorspace::YCbCr => 3,
            Colorspace::Gray => 1,
            Colorspace::Cmyk | Colorspace::Ycck => 4,
        }
    }

    /// Number of components per pixel.
    pub fn channels(&self) -> (r: u64)
        ensures
            r == self.spec_channels(),
    {
        match self {
            Colorspace::Rgb | Colorspace::YCbCr => 3,
            Colorspace::Gray => 1,
            Colorspace::Cmyk | Colorspace::Ycck => 4,
        }
    }
}

/// What a compressed image declares about itself.
#[derive(Clone, Copy, Debug, PartialEq, Eq, Structural)]
pub struct ImageHeader {
    pub width: u64,
    pub height: u64,
    pub colorspace: Colorspace,
}

impl ImageHeader {
    /// Bytes that decompressing the image would allocate.
    pub open spec fn decoded_size(self) -> nat {
        (self.width as nat) * (self.height as nat) * self.colorspace.spec_channels()
    }
}

/// Why a received image is not decompressed.
#[derive(Clone, Copy, Debug, PartialEq, Eq, Structural)]
pub enum ImageRejection {
    /// The declared decoded size is above `MAX_ACCEPTABLE_IMAGE_SIZE`.
    TooLarge,
}

/// Admits an image for decompression when its declared decoded size is at
/// most `MAX_ACCEPTABLE_IMAGE_SIZE`, and returns that size.
pub fn check_image_header(h: &ImageHeader) -> (r: Result<u64, ImageRejection>)
    ensures
        h.decoded_size() <= MAX_ACCEPTABLE_IMAGE_SIZE ==> r == Ok::<u64, ImageRejection>(h.decoded_size() as u64),
        h.decoded_size() > MAX_ACCEPTABLE_IMAGE_SIZE ==> r == Err::<u64, ImageRejection>(ImageRejection::TooLarge),
{
    let channels = h.colorspace.channels();
    if h.width == 0 || h.height == 0 {
        assert(h.decoded_size() == 0) by (nonlinear_arith)
            requires
                h.width == 0 || h.height == 0,
                h.decoded_size() == h.width * h.height * h.colorspace.spec_channels(),
        ;
        return Ok(0);
    }
    if h.width > MAX_ACCEPTABLE_IMAGE_SIZE || h.height > MAX_ACCEPTABLE_IMAGE_SIZE {
        assert(h.decoded_size() > MAX_ACCEPTABLE_IMAGE_SIZE) by (nonlinear_arith)
            requires
                h.width >= 1,
                h.height >= 1,
                channels >= 1,
                h.width > MAX_ACCEPTABLE_IMAGE_SIZE || h.height > MAX_ACCEPTABLE_IMAGE_SIZE,
                h.decoded_size() == h.width * h.height * channels,
        ;
        return Err(ImageRejection::TooLarge);
    }
    assert(h.width * h.height * channels <= 4 * MAX_ACCEPTABLE_IMAGE_SIZE * MAX_ACCEPTABLE_IMAGE_SIZE)
        by (nonlinear_arith)
        requires
            h.width <= MAX_ACCEPTABLE_IMAGE_SIZE,
            h.height <= MAX_ACCEPTABLE_IMAGE_SIZE,
            channels <= 4,
    ;
    let size = h.width * h.height * channels;
    if size > MAX_ACCEPTABLE_IMAGE_SIZE {
        Err(ImageRejection::TooLarge)
    } else {
        Ok(size)
    }
}

} // verus!
