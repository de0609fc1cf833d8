//! Turning the decoder's PPM output into JPEG bytes with the `image` crate:
//! decode, shrink to fit a `max_dimension` square (never enlarge), encode at
//! the chosen quality. Pictures travel between the steps as plain values:
//! width, height and 8-bit RGB samples, row by row.
use vstd::prelude::*;
use vstd::string::*;

use crate::options::ConversionOptions;
use crate::path::starts_with;

verus! {

/// An error of the `image` crate, carried through unread.
#[verifier::external_type_specification]
#[verifier::external_body]
pub struct ExImageError(image::ImageError);

/// A picture as plain values: width, height, and samples.
pub type PictureView = (u32, u32, Seq<u8>);

/// What `image::load_from_memory_with_format` makes of `bytes` read as a
/// PNM (PPM/PGM/PBM/PAM) image, converted to 8-bit RGB: `None` when it
/// fails. The answer depends on the bytes alone.
pub uninterp spec fn pnm_picture(bytes: Seq<u8>) -> Option<PictureView>;

/// The size `DynamicImage::resize` gives a `width` by `height` picture asked
/// to fit a `max_dimension` square. It is computed from the arguments alone
/// with floating-point division, multiplication and rounding. (The samples
/// of the resized picture are not named: the Lanczos3 weights use `f32::sin`,
/// whose precision the standard library leaves unspecified.)
pub uninterp spec fn fit_dimensions(width: u32, height: u32, max_dimension: u32) -> (u32, u32);

/// `resized` is `width` by `height` scaled to fit a `max_dimension` square
/// with its aspect ratio kept up to rounding: each side is between 1 and
/// `max_dimension`; the longer side of a picture that is not empty becomes
/// `max_dimension`, and the other side is within one pixel of its
/// proportional length.
pub open spec fn scaled_to_fit(width: u32, height: u32, max_dimension: u32, resized: (u32, u32)) -> bool {
    &&& 1 <= resized.0 <= max_dimension
    &&& 1 <= resized.1 <= max_dimension
    &&& (width >= height && width > 0) ==> {
        &&& resized.0 == max_dimension
        &&& -(width as int) <= resized.1 * width - height * max_dimension <= width
    }
    &&& height > width ==> {
        &&& resized.1 == max_dimension
        &&& -(height as int) <= resized.0 * height - width * max_dimension <= height
    }
}

/// The bytes `JpegEncoder::new_with_quality(.., quality).encode_image`
/// writes for an RGB picture.
pub uninterp spec fn jpeg_encoding(width: u32, height: u32, samples: Seq<u8>, quality: u8) -> Seq<
    u8,
>;

/// The samples hold at least the picture's `3 * width * height` values.
pub open spec fn well_sized(picture: PictureView) -> bool {
    picture.2.len() >= 3 * picture.0 * picture.1
}

/// Calls `image::load_from_memory_with_format(bytes, ImageFormat::Pnm)` and
/// converts the image with `into_rgb8`. Claims that the result is
/// `pnm_picture(bytes)` and that an image buffer holds all its samples.
#[verifier::external_body]
fn decode_pnm(bytes: &[u8]) -> (decoded: Result<(u32, u32, Vec<u8>), image::ImageError>)
    ensures
        decoded is Ok <==> pnm_picture(bytes@) is Some,
        decoded matches Ok((w, h, samples)) ==> pnm_picture(bytes@) == Some(
            (w, h, samples@),
        ) && well_sized((w, h, samples@)),
{
    image::load_from_memory_with_format(bytes, image::ImageFormat::Pnm).map(|image| {
        let rgb = image.into_rgb8();
        (rgb.width(), rgb.height(), rgb.into_raw())
    })
}

/// Calls `DynamicImage::resize(max_dimension, max_dimension, Lanczos3)` on
/// the RGB picture. Claims what the crate documents and its source
/// (`resize_dimensions`) shows of the size: it is `fit_dimensions` of the
/// arguments and scales the picture to fit (`scaled_to_fit`), and the
/// buffer holds all samples. Nothing is claimed of the samples.
#[verifier::external_body]
fn resize_lanczos3(width: u32, height: u32, samples: Vec<u8>, max_dimension: u32) -> (resized: (
    u32,
    u32,
    Vec<u8>,
))
    requires
        well_sized((width, height, samples@)),
        max_dimension >= 1,
    ensures
        (resized.0, resized.1) == fit_dimensions(width, height, max_dimension),
        scaled_to_fit(width, height, max_dimension, (resized.0, resized.1)),
        well_sized((resized.0, resized.1, resized.2@)),
{
    let buffer = image::RgbImage::from_raw(width, height, samples).unwrap();
    let resized = image::DynamicImage::ImageRgb8(buffer).resize(
        max_dimension,
        max_dimension,
        image::imageops::FilterType::Lanczos3,
    ).into_rgb8();
    (resized.width(), resized.height(), resized.into_raw())
}

/// Calls `JpegEncoder::new_with_quality` on an in-memory buffer and then
/// `encode_image` on the RGB picture. Claims what the source shows: writing
/// to memory cannot fail, so encoding fails exactly when a side is 0 or over
/// 65535; the bytes are `jpeg_encoding` of the arguments.
#[verifier::external_body]
fn encode_jpeg(width: u32, height: u32, samples: &Vec<u8>, quality: u8) -> (encoded: Result<
    Vec<u8>,
    image::ImageError,
>)
    requires
        well_sized((width, height, samples@)),
    ensures
        encoded is Ok <==> encodable(width, height),
        encoded matches Ok(jpeg) ==> jpeg@ == jpeg_encoding(width, height, samples@, quality),
{
    let buffer = image::ImageBuffer::<image::Rgb<u8>, &[u8]>::from_raw(
        width,
        height,
        samples.as_slice(),
    ).unwrap();
    let mut bytes: Vec<u8> = Vec::new();
    image::codecs::jpeg::JpegEncoder::new_with_quality(&mut bytes, quality).encode_image(
        &buffer,
    ).map(|()| bytes)
}

/// Renders an `image::ImageError` with its `Display`. Nothing is claimed of
/// the text.
#[verifier::external_body]
fn image_error_text(error: &image::ImageError) -> (text: String) {
    format!("{error}")
}

/// A picture of this size needs no shrinking to respect `max_dimension`.
pub open spec fn fits_within(width: u32, height: u32, max_dimension: u32) -> bool {
    width <= max_dimension && height <= max_dimension
}

/// A JPEG can hold a picture of this size.
pub open spec fn encodable(width: u32, height: u32) -> bool {
    1 <= width <= 65535 && 1 <= height <= 65535
}

/// The size of the picture that is encoded: the decoded size when it fits a
/// `max_dimension` square, else the size the resize gives.
pub open spec fn shrunk_size(picture: PictureView, max_dimension: u32) -> (u32, u32) {
    if fits_within(picture.0, picture.1, max_dimension) {
        (picture.0, picture.1)
    } else {
        fit_dimensions(picture.0, picture.1, max_dimension)
    }
}

/// `result` is what the converter encodes for `picture`: the picture itself
/// when it fits a `max_dimension` square, else a resize of it to
/// `shrunk_size`, scaled to fit with its aspect ratio kept.
pub open spec fn shrinks_to(picture: PictureView, max_dimension: u32, result: PictureView) -> bool {
    if fits_within(picture.0, picture.1, max_dimension) {
        result == picture
    } else {
        &&& (result.0, result.1) == fit_dimensions(picture.0, picture.1, max_dimension)
        &&& scaled_to_fit(picture.0, picture.1, max_dimension, (result.0, result.1))
        &&& well_sized(result)
    }
}

/// A decoded picture, ready to be encoded.
pub struct Picture {
    width: u32,
    height: u32,
    samples: Vec<u8>,
}

impl View for Picture {
    type V = PictureView;

    closed spec fn view(&self) -> PictureView {
        (self.width, self.height, self.samples@)
    }
}

impl Picture {
    #[verifier::type_invariant]
    spec fn inv(self) -> bool {
        well_sized((self.width, self.height, self.samples@))
    }

    /// The picture's width.
    pub fn width(&self) -> (width: u32)
        ensures
            width == self@.0,
    {
        self.width
    }

    /// The picture's height.
    pub fn height(&self) -> (height: u32)
        ensures
            height == self@.1,
    {
        self.height
    }
}

/// The prefix of the reason given when the decoder's output is no image.
pub open spec fn invalid_output_prefix() -> Seq<char> {
    "invalid decoder output: "@
}

/// The prefix of the reason given when JPEG encoding fails.
pub open spec fn write_failure_prefix() -> Seq<char> {
    "could not write JPEG: "@
}

/// `prefix` followed by the text of `error`.
fn reason_with(prefix: &str, error: &image::ImageError) -> (reason: String)
    ensures
        starts_with(reason@, prefix@),
{
    let mut reason = String::from_str(prefix);
    let text = image_error_text(error);
    reason.append(text.as_str());
    assert(reason@.subrange(0, prefix@.len() as int) =~= prefix@);
    reason
}

/// Shrinks the picture to fit a `max_dimension` square when it does not fit
/// already; a picture that fits is handed back as it is, never enlarged.
/// What comes out fits the square; a shrunk picture has each side at least
/// 1, its longer side `max_dimension` and its aspect ratio kept up to
/// rounding (`scaled_to_fit`).
pub fn resize_without_upscaling(picture: Picture, max_dimension: u32) -> (resized: Picture)
    requires
        max_dimension >= 1,
    ensures
        shrinks_to(picture@, max_dimension, resized@),
        (resized@.0, resized@.1) == shrunk_size(picture@, max_dimension),
        picture@.0 <= max_dimension && picture@.1 <= max_dimension ==> resized@ == picture@,
        resized@.0 <= max_dimension && resized@.1 <= max_dimension,
        fits_within(resized@.0, resized@.1, max_dimension),
        !fits_within(picture@.0, picture@.1, max_dimension) ==> scaled_to_fit(
            picture@.0,
            picture@.1,
            max_dimension,
            (resized@.0, resized@.1),
        ),
{
    proof {
        use_type_invariant(&picture);
    }
    if picture.width <= max_dimension && picture.height <= max_dimension {
        picture
    } else {
        let (width, height, samples) = resize_lanczos3(
            picture.width,
            picture.height,
            picture.samples,
            max_dimension,
        );
        Picture { width, height, samples }
    }
}

/// Decodes the decoder's output as PNM and shrinks it to fit
/// `options.max_dimension()`; see `shrinks_to`. Output that is no PNM image
/// fails with a reason starting "invalid decoder output: ".
pub fn decode_picture(bytes: &[u8], options: ConversionOptions) -> (decoded: Result<
    Picture,
    String,
>)
    ensures
        match pnm_picture(bytes@) {
            None => decoded matches Err(reason) && starts_with(reason@, invalid_output_prefix()),
            Some(picture) => decoded matches Ok(p) && shrinks_to(
                picture,
                options.spec_max_dimension(),
                p@,
            ) && (p@.0, p@.1) == shrunk_size(picture, options.spec_max_dimension()),
        },
        decoded matches Ok(p) ==> fits_within(p@.0, p@.1, options.spec_max_dimension()),
        pnm_picture(bytes@) matches Some(picture) ==> (picture.0 <= options.spec_max_dimension()
            && picture.1 <= options.spec_max_dimension() ==> (decoded matches Ok(p) && p@
            == picture)),
{
    proof {
        reveal_strlit("invalid decoder output: ");
    }
    match decode_pnm(bytes) {
        Ok((width, height, samples)) => {
            let picture = Picture { width, height, samples };
            Ok(resize_without_upscaling(picture, options.max_dimension()))
        },
        Err(error) => Err(reason_with("invalid decoder output: ", &error)),
    }
}

/// Encodes the picture as a JPEG of the given quality. Fails, with a reason
/// starting "could not write JPEG: ", exactly when a side is 0 or over 65535.
pub fn encode_picture(picture: &Picture, quality: u8) -> (encoded: Result<Vec<u8>, String>)
    ensures
        encoded is Ok <==> encodable(picture@.0, picture@.1),
        encoded matches Ok(jpeg) ==> jpeg@ == jpeg_encoding(
            picture@.0,
            picture@.1,
            picture@.2,
            quality,
        ),
        encoded matches Err(reason) ==> starts_with(reason@, write_failure_prefix()),
{
    proof {
        use_type_invariant(picture);
        reveal_strlit("could not write JPEG: ");
    }
    match encode_jpeg(picture.width, picture.height, &picture.samples, quality) {
        Ok(jpeg) => Ok(jpeg),
        Err(error) => Err(reason_with("could not write JPEG: ", &error)),
    }
}

/// `jpeg` is a JPEG the decoder's output can become: the encoding, at
/// `quality`, of a picture that the decoded picture shrinks to.
pub open spec fn renders_to(bytes: Seq<u8>, max_dimension: u32, quality: u8, jpeg: Seq<u8>) -> bool {
    exists|p: PictureView|
        #![trigger jpeg_encoding(p.0, p.1, p.2, quality)]
        pnm_picture(bytes) matches Some(picture) && shrinks_to(picture, max_dimension, p) && jpeg
            == jpeg_encoding(p.0, p.1, p.2, quality)
}

/// The decoder's output can be converted: it decodes, and the picture it
/// shrinks to has sides in 1..=65535.
pub open spec fn convertible(bytes: Seq<u8>, max_dimension: u32) -> bool {
    match pnm_picture(bytes) {
        Some(picture) => {
            let size = shrunk_size(picture, max_dimension);
            encodable(size.0, size.1)
        },
        None => false,
    }
}

/// Converts the decoder's output to JPEG bytes: decodes it as PNM, shrinks
/// it to fit `options.max_dimension()` when larger, encodes it with
/// `options.quality()`. Succeeds exactly when the output is `convertible`,
/// with bytes that `renders_to` relates to it. Output that is no PNM image
/// fails with a reason starting "invalid decoder output: "; a failed
/// encoding with one starting "could not write JPEG: ".
pub fn render_jpeg(bytes: &[u8], options: ConversionOptions) -> (rendered_jpeg: Result<
    Vec<u8>,
    String,
>)
    ensures
        rendered_jpeg is Ok <==> convertible(bytes@, options.spec_max_dimension()),
        rendered_jpeg matches Ok(jpeg) ==> renders_to(
            bytes@,
            options.spec_max_dimension(),
            options.spec_quality(),
            jpeg@,
        ),
        pnm_picture(bytes@) is None <==> (rendered_jpeg matches Err(reason) && starts_with(
            reason@,
            invalid_output_prefix(),
        )),
        pnm_picture(bytes@) is Some ==> (rendered_jpeg matches Err(reason) ==> starts_with(
            reason@,
            write_failure_prefix(),
        )),
        pnm_picture(bytes@) matches Some(picture) ==> fits_within(
            shrunk_size(picture, options.spec_max_dimension()).0,
            shrunk_size(picture, options.spec_max_dimension()).1,
            options.spec_max_dimension(),
        ),
{
    proof {
        reveal_strlit("invalid decoder output: ");
        reveal_strlit("could not write JPEG: ");
    }
    let picture = match decode_picture(bytes, options) {
        Ok(picture) => picture,
        Err(reason) => {
            return Err(reason);
        },
    };
    let encoded = encode_picture(&picture, options.quality());
    proof {
        match &encoded {
            Err(reason) => {
                // The two prefixes differ at their first character.
                assert(reason@.subrange(0, write_failure_prefix().len() as int)[0] == reason@[0]);
                assert(reason@[0] == 'c');
                assert(invalid_output_prefix()[0] == 'i');
                if starts_with(reason@, invalid_output_prefix()) {
                    assert(reason@.subrange(0, invalid_output_prefix().len() as int)[0]
                        == reason@[0]);
                }
            },
            Ok(_) => {},
        }
    }
    encoded
}

} // verus!
