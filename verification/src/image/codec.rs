//! Decoding of image files that are held in memory.
//!
//! The decoders of the `zune-jpeg` and `image` crates do the decoding. What
//! they hand back is taken over by verified code, which checks that it has
//! the size of an RGBA raster before it makes an [`Image`] of it.

use crate::image::raster::Image;
use image::codecs::gif::GifDecoder;
use image::codecs::png::PngDecoder;
use image::AnimationDecoder;
use std::io::Cursor;
use std::time::Duration;
use vstd::prelude::*;
use zune_jpeg::zune_core::bytestream::ZCursor;
use zune_jpeg::zune_core::colorspace::ColorSpace;
use zune_jpeg::zune_core::options::DecoderOptions;
use zune_jpeg::JpegDecoder;

verus! {

#[verifier::external_type_specification]
#[verifier::external_body]
pub struct ExDecodeErrors(zune_jpeg::errors::DecodeErrors);

#[verifier::external_type_specification]
#[verifier::external_body]
pub struct ExImageError(image::ImageError);

/// What a decoder hands back for one picture: its size, its bytes, and,
/// for a frame of an animation, the time for which it is shown, in
/// nanoseconds.
pub struct Decoded {
    pub width: u32,
    pub height: u32,
    pub data: Vec<u8>,
    pub nanos: u64,
}

/// Why image data could not be decoded.
#[derive(Debug)]
pub enum CodecError {
    /// The JPEG decoder rejected the data; its message is kept.
    Jpeg(String),
    /// The PNG decoder rejected the data; its message is kept.
    Png(String),
    /// The GIF decoder rejected the data; its message is kept.
    Gif(String),
    /// The PNG data holds a still image where an animation was asked for.
    StillImage,
    /// A decoder handed back a buffer that does not hold four bytes for
    /// each pixel.
    BufferSize,
}

/// The file formats that still images are loaded from.
#[derive(PartialEq, Eq, Structural, Clone, Copy, Debug)]
pub enum ImageFormat {
    Jpeg,
    Png,
}

/// Tells whether two byte strings are the same.
pub fn same_bytes(a: &[u8], b: &[u8]) -> (same: bool)
    ensures
        same == (a@ == b@),
{
    if a.len() != b.len() {
        return false;
    }
    let mut i: usize = 0;
    while i < a.len()
        invariant
            i <= a@.len(),
            a@.len() == b@.len(),
            forall|k: int| 0 <= k < i ==> a@[k] == b@[k],
        decreases a@.len() - i,
    {
        if a[i] != b[i] {
            return false;
        }
        i += 1;
    }
    assert(a@ =~= b@);
    true
}

impl ImageFormat {
    /// The format of a file with the given extension: `jpg` and `jpeg` for
    /// JPEG, `png` for PNG. The extension is given as its bytes.
    pub open spec fn of_extension(extension: Seq<u8>) -> Option<ImageFormat> {
        if extension == seq![0x6au8, 0x70u8, 0x67u8] || extension == seq![
            0x6au8,
            0x70u8,
            0x65u8,
            0x67u8,
        ] {
            Some(ImageFormat::Jpeg)
        } else if extension == seq![0x70u8, 0x6eu8, 0x67u8] {
            Some(ImageFormat::Png)
        } else {
            None
        }
    }

    /// Returns the format that a file with the given extension is loaded
    /// as, or `None` where the extension is not one of a supported format.
    /// The extension is given as its bytes, without the dot, and has to be
    /// in lower case.
    pub fn from_extension(extension: &[u8]) -> (format: Option<ImageFormat>)
        ensures
            format == Self::of_extension(extension@),
    {
        let jpg: [u8; 3] = [0x6a, 0x70, 0x67];
        let jpeg: [u8; 4] = [0x6a, 0x70, 0x65, 0x67];
        let png: [u8; 3] = [0x70, 0x6e, 0x67];
        assert(jpg@ =~= seq![0x6au8, 0x70u8, 0x67u8]);
        assert(jpeg@ =~= seq![0x6au8, 0x70u8, 0x65u8, 0x67u8]);
        assert(png@ =~= seq![0x70u8, 0x6eu8, 0x67u8]);
        if same_bytes(extension, jpg.as_slice()) || same_bytes(extension, jpeg.as_slice()) {
            Some(ImageFormat::Jpeg)
        } else if same_bytes(extension, png.as_slice()) {
            Some(ImageFormat::Png)
        } else {
            None
        }
    }
}

impl Decoded {
    /// The picture as plain values: width, height, bytes and nanoseconds.
    pub open spec fn model(&self) -> (u32, u32, Seq<u8>, u64) {
        (self.width, self.height, self.data@, self.nanos)
    }
}

/// What each of the pictures holds, as plain values.
pub open spec fn models(pictures: Seq<Decoded>) -> Seq<(u32, u32, Seq<u8>, u64)> {
    Seq::new(pictures.len(), |i: int| pictures[i].model())
}

/// The width, the height and the RGBA bytes that the `image` crate decodes
/// from PNG data, or `None` where it rejects the data.
pub uninterp spec fn png_rgba(data: Seq<u8>) -> Option<(u32, u32, Seq<u8>)>;

/// Whether the `image` crate finds an animation in PNG data, or `None`
/// where it rejects the data.
pub uninterp spec fn png_animated(data: Seq<u8>) -> Option<bool>;

/// The frames that the `image` crate decodes from animated PNG data, or
/// `None` where it rejects the data.
pub uninterp spec fn apng_frames(data: Seq<u8>) -> Option<Seq<(u32, u32, Seq<u8>, u64)>>;

/// The frames that the `image` crate decodes from GIF data, or `None` where
/// it rejects the data.
pub uninterp spec fn gif_frames(data: Seq<u8>) -> Option<Seq<(u32, u32, Seq<u8>, u64)>>;

/// `zune_jpeg::JpegDecoder::decode` with RGBA output, and the size from
/// `JpegDecoder::info`. Nothing is claimed of what comes back: the decoder
/// picks its routines by the machine it runs on.
#[verifier::external_body]
fn jpeg_decode(data: &[u8]) -> (result: Result<Decoded, zune_jpeg::errors::DecodeErrors>) {
    let options = DecoderOptions::default().jpeg_set_out_colorspace(ColorSpace::RGBA);
    let mut decoder = JpegDecoder::new_with_options(ZCursor::new(data), options);
    let data = decoder.decode()?;
    let (width, height) = decoder.info().map(|i| (i.width, i.height)).unwrap_or_default();
    Ok(Decoded { width: u32::from(width), height: u32::from(height), data, nanos: 0 })
}

/// `image::load_from_memory_with_format` for PNG, converted with
/// `DynamicImage::to_rgba8`: the result is what [`png_rgba`] names.
#[verifier::external_body]
fn png_decode(data: &[u8]) -> (result: Result<Decoded, image::ImageError>)
    ensures
        match result {
            Ok(picture) => png_rgba(data@) == Some(
                (picture.width, picture.height, picture.data@),
            ) && picture.nanos == 0,
            Err(_) => png_rgba(data@) is None,
        },
{
    let buf = image::load_from_memory_with_format(data, image::ImageFormat::Png)?.to_rgba8();
    Ok(Decoded { width: buf.width(), height: buf.height(), data: buf.into_raw(), nanos: 0 })
}

/// `PngDecoder::new` and `PngDecoder::is_apng`: the result is what
/// [`png_animated`] names.
#[verifier::external_body]
fn png_is_animated(data: &[u8]) -> (result: Result<bool, image::ImageError>)
    ensures
        match result {
            Ok(animated) => png_animated(data@) == Some(animated),
            Err(_) => png_animated(data@) is None,
        },
{
    PngDecoder::new(Cursor::new(data))?.is_apng()
}

/// `PngDecoder::apng`, `into_frames` and `Frames::collect_frames`: the
/// result is what [`apng_frames`] names. Each frame is taken to plain
/// values: the size and the bytes of its buffer, and its delay as
/// `Duration` has it.
#[verifier::external_body]
fn apng_decode(data: &[u8]) -> (result: Result<Vec<Decoded>, image::ImageError>)
    ensures
        match result {
            Ok(frames) => apng_frames(data@) == Some(models(frames@)),
            Err(_) => apng_frames(data@) is None,
        },
{
    let frames = PngDecoder::new(Cursor::new(data))?.apng()?.into_frames().collect_frames()?;
    let plain = |f: image::Frame| {
        let nanos = u64::try_from(Duration::from(f.delay()).as_nanos()).unwrap_or(u64::MAX);
        let buf = f.into_buffer();
        Decoded { width: buf.width(), height: buf.height(), data: buf.into_raw(), nanos }
    };
    Ok(frames.into_iter().map(plain).collect())
}

/// `GifDecoder::new`, `into_frames` and `Frames::collect_frames`: the result
/// is what [`gif_frames`] names. Each frame is taken to plain values: the
/// size and the bytes of its buffer, and its delay as `Duration` has it.
#[verifier::external_body]
fn gif_decode(data: &[u8]) -> (result: Result<Vec<Decoded>, image::ImageError>)
    ensures
        match result {
            Ok(frames) => gif_frames(data@) == Some(models(frames@)),
            Err(_) => gif_frames(data@) is None,
        },
{
    let frames = GifDecoder::new(Cursor::new(data))?.into_frames().collect_frames()?;
    let plain = |f: image::Frame| {
        let nanos = u64::try_from(Duration::from(f.delay()).as_nanos()).unwrap_or(u64::MAX);
        let buf = f.into_buffer();
        Decoded { width: buf.width(), height: buf.height(), data: buf.into_raw(), nanos }
    };
    Ok(frames.into_iter().map(plain).collect())
}

/// The message of a `zune_jpeg` error, as its `Display` gives it.
#[verifier::external_body]
fn jpeg_error_text(error: &zune_jpeg::errors::DecodeErrors) -> (text: String) {
    format!("{error}")
}

/// The message of an `image` error, as its `Display` gives it.
#[verifier::external_body]
fn image_error_text(error: &image::ImageError) -> (text: String) {
    format!("{error}")
}

/// The image that a decoded picture holds: the picture must have four bytes
/// for each pixel.
pub open spec fn holds(image: &Image, picture: (u32, u32, Seq<u8>)) -> bool {
    &&& image.wf()
    &&& image.spec_width() == picture.0
    &&& image.spec_height() == picture.1
    &&& image.bytes() == picture.2
}

/// The picture has four bytes for each of its pixels.
pub open spec fn is_raster(width: u32, height: u32, data: Seq<u8>) -> bool {
    data.len() == 4 * (width * height)
}

/// Makes an image of what a decoder handed back.
pub fn into_image(picture: Decoded) -> (result: Result<Image, CodecError>)
    ensures
        is_raster(picture.width, picture.height, picture.data@) ==> (result matches Ok(image)
            && holds(&image, (picture.width, picture.height, picture.data@))),
        !is_raster(picture.width, picture.height, picture.data@) ==> (result matches Err(
            CodecError::BufferSize,
        )),
{
    match Image::from_raw(picture.width, picture.height, picture.data) {
        Some(image) => Ok(image),
        None => Err(CodecError::BufferSize),
    }
}

impl Image {
    /// Decodes a JFIF JPEG or Motion JPEG from a byte slice.
    pub fn decode_jpeg(data: &[u8]) -> (result: Result<Image, CodecError>)
        ensures
            match result {
                Ok(image) => image.wf(),
                Err(error) => error is Jpeg || error is BufferSize,
            },
    {
        match jpeg_decode(data) {
            Ok(picture) => into_image(picture),
            Err(error) => Err(CodecError::Jpeg(jpeg_error_text(&error))),
        }
    }

    /// Decodes an image of the given format from a byte slice.
    pub fn decode(data: &[u8], format: ImageFormat) -> (result: Result<Image, CodecError>)
        ensures
            match format {
                ImageFormat::Jpeg => match result {
                    Ok(image) => image.wf(),
                    Err(error) => error is Jpeg || error is BufferSize,
                },
                ImageFormat::Png => match png_rgba(data@) {
                    Some((width, height, bytes)) => if is_raster(width, height, bytes) {
                        result matches Ok(image) && holds(&image, (width, height, bytes))
                    } else {
                        result matches Err(CodecError::BufferSize)
                    },
                    None => result matches Err(CodecError::Png(_)),
                },
            },
    {
        match format {
            ImageFormat::Jpeg => Self::decode_jpeg(data),
            ImageFormat::Png => Self::decode_png(data),
        }
    }

    /// Decodes a PNG from a byte slice.
    pub fn decode_png(data: &[u8]) -> (result: Result<Image, CodecError>)
        ensures
            match png_rgba(data@) {
                Some((width, height, bytes)) => if is_raster(width, height, bytes) {
                    result matches Ok(image) && holds(&image, (width, height, bytes))
                } else {
                    result matches Err(CodecError::BufferSize)
                },
                None => result matches Err(CodecError::Png(_)),
            },
    {
        match png_decode(data) {
            Ok(picture) => into_image(picture),
            Err(error) => Err(CodecError::Png(image_error_text(&error))),
        }
    }
}

/// Decodes the frames of a GIF.
pub(crate) fn decode_gif_frames(data: &[u8]) -> (result: Result<Vec<Decoded>, CodecError>)
    ensures
        match gif_frames(data@) {
            Some(frames) => result matches Ok(list) && models(list@) == frames,
            None => result matches Err(CodecError::Gif(_)),
        },
{
    match gif_decode(data) {
        Ok(frames) => Ok(frames),
        Err(error) => Err(CodecError::Gif(image_error_text(&error))),
    }
}

/// The frames of animated PNG data: none where the data is rejected or
/// holds a still image.
pub open spec fn animated_png_frames(data: Seq<u8>) -> Option<Seq<(u32, u32, Seq<u8>, u64)>> {
    if png_animated(data) == Some(true) {
        apng_frames(data)
    } else {
        None
    }
}

/// Decodes the frames of an animated PNG, and rejects a still image.
pub(crate) fn decode_apng_frames(data: &[u8]) -> (result: Result<Vec<Decoded>, CodecError>)
    ensures
        match animated_png_frames(data@) {
            Some(frames) => result matches Ok(list) && models(list@) == frames,
            None => if png_animated(data@) == Some(false) {
                result matches Err(CodecError::StillImage)
            } else {
                result matches Err(CodecError::Png(_))
            },
        },
{
    match png_is_animated(data) {
        Ok(true) => match apng_decode(data) {
            Ok(frames) => Ok(frames),
            Err(error) => Err(CodecError::Png(image_error_text(&error))),
        },
        Ok(false) => Err(CodecError::StillImage),
        Err(error) => Err(CodecError::Png(image_error_text(&error))),
    }
}

} // verus!
