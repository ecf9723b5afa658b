//! Images as a content: always PNG on the wire, bitmaps on some clipboards.

use crate::bytes;
use crate::bytes::{copy_range, push_all, push_le32, read_little16, read_little32};
use crate::clipboard::types::{backend, check_size, ClipboardError, ErrorView};
use crate::net::wire::MAX_IMAGE_SOURCE_BYTES;
use crate::protocol::{ClipboardPayload, PayloadView};
use crate::text;
use crate::text::decimal_text;
use image::ImageEncoder;
use vstd::prelude::*;

verus! {

/// The largest width and height of an image.
pub const MAX_IMAGE_DIMENSION: u32 = 16_384;

/// The largest number of pixels of an image.
pub const MAX_IMAGE_PIXELS: u64 = 16_777_216;

/// How many bytes decoding an image may take.
pub const MAX_IMAGE_DECODE_BYTES: u64 = 83_886_080;

/// The file header of a bitmap.
pub const BMP_FILE_HEADER_LEN: usize = 14;

/// The smallest header of a bitmap after that.
pub const BITMAPINFOHEADER_LEN: usize = 40;

/// An image of eight bits per channel: red, green, blue, alpha.
#[derive(Debug)]
pub struct RgbaImage {
    pub width: u32,
    pub height: u32,
    pub pixels: Vec<u8>,
}

/// An image as plain values.
#[verifier::ext_equal]
pub struct ImageView {
    pub width: u32,
    pub height: u32,
    pub pixels: Seq<u8>,
}

impl View for RgbaImage {
    type V = ImageView;

    open spec fn view(&self) -> ImageView {
        ImageView { width: self.width, height: self.height, pixels: self.pixels@ }
    }
}

/// There are exactly as many pixels as the image has room for.
pub open spec fn is_filled(image: ImageView) -> bool {
    image.pixels.len() == image.width * image.height * 4
}

/// How an encoded image is written.
#[derive(Debug, Clone, Copy, PartialEq, Eq, Structural)]
pub enum ImageKind {
    Png,
    Bmp,
}

/// What `PngEncoder` makes of the pixels of an image, or its error in words.
pub uninterp spec fn png_encoding(width: u32, height: u32, pixels: Seq<u8>) -> Result<
    Seq<u8>,
    Seq<char>,
>;

/// What `BmpEncoder` makes of the pixels of an image, or its error in words.
pub uninterp spec fn bmp_encoding(width: u32, height: u32, pixels: Seq<u8>) -> Result<
    Seq<u8>,
    Seq<char>,
>;

/// The width and height that `ImageReader` finds in an encoded image, or its error in
/// words.
pub uninterp spec fn encoded_dimensions(
    encoded: Seq<u8>,
    is_png: bool,
    max_dimension: u32,
    max_alloc: u64,
) -> Result<(u32, u32), Seq<char>>;

/// The width, height and pixels that `ImageReader` decodes, or its error in words.
pub uninterp spec fn decoded_image(
    encoded: Seq<u8>,
    is_png: bool,
    max_dimension: u32,
    max_alloc: u64,
) -> Result<(u32, u32, Seq<u8>), Seq<char>>;

/// `image::codecs::png::PngEncoder::write_image` with fast compression and no filter.
/// The encoder panics where the pixels do not fill the image.
#[verifier::external_body]
pub(crate) fn encode_png(image: &RgbaImage) -> (result: Result<Vec<u8>, String>)
    requires
        is_filled(image@),
    ensures
        match result {
            Ok(png) => png_encoding(image.width, image.height, image.pixels@) == Ok::<
                Seq<u8>,
                Seq<char>,
            >(png@),
            Err(e) => png_encoding(image.width, image.height, image.pixels@) == Err::<
                Seq<u8>,
                Seq<char>,
            >(e@),
        },
{
    let mut png: Vec<u8> = Vec::new();
    image::codecs::png::PngEncoder::new_with_quality(
        &mut png,
        image::codecs::png::CompressionType::Fast,
        image::codecs::png::FilterType::NoFilter,
    )
        .write_image(&image.pixels, image.width, image.height, image::ExtendedColorType::Rgba8)
        .map_err(|e| e.to_string())?;
    Ok(png)
}

/// `image::codecs::bmp::BmpEncoder::write_image`. The encoder panics where the pixels
/// do not fill the image.
#[verifier::external_body]
pub(crate) fn encode_bmp(image: &RgbaImage) -> (result: Result<Vec<u8>, String>)
    requires
        is_filled(image@),
    ensures
        match result {
            Ok(bmp) => bmp_encoding(image.width, image.height, image.pixels@) == Ok::<
                Seq<u8>,
                Seq<char>,
            >(bmp@),
            Err(e) => bmp_encoding(image.width, image.height, image.pixels@) == Err::<
                Seq<u8>,
                Seq<char>,
            >(e@),
        },
{
    let mut bmp: Vec<u8> = Vec::new();
    image::codecs::bmp::BmpEncoder::new(&mut bmp)
        .write_image(&image.pixels, image.width, image.height, image::ExtendedColorType::Rgba8)
        .map_err(|e| e.to_string())?;
    Ok(bmp)
}

/// `image::ImageReader::into_dimensions` under limits for width, height and memory.
#[verifier::external_body]
pub(crate) fn read_dimensions(
    encoded: &[u8],
    kind: ImageKind,
    max_dimension: u32,
    max_alloc: u64,
) -> (result: Result<(u32, u32), String>)
    ensures
        match result {
            Ok(size) => encoded_dimensions(
                encoded@,
                kind == ImageKind::Png,
                max_dimension,
                max_alloc,
            ) == Ok::<(u32, u32), Seq<char>>(size),
            Err(e) => encoded_dimensions(encoded@, kind == ImageKind::Png, max_dimension, max_alloc)
                == Err::<(u32, u32), Seq<char>>(e@),
        },
{
    let format = match kind {
        ImageKind::Png => image::ImageFormat::Png,
        ImageKind::Bmp => image::ImageFormat::Bmp,
    };
    let mut limits = image::Limits::default();
    limits.max_image_width = Some(max_dimension);
    limits.max_image_height = Some(max_dimension);
    limits.max_alloc = Some(max_alloc);
    let mut reader = image::ImageReader::with_format(std::io::Cursor::new(encoded), format);
    reader.limits(limits);
    reader.into_dimensions().map_err(|e| e.to_string())
}

/// `image::ImageReader::decode` under limits for width, height and memory, then
/// `DynamicImage::to_rgba8`, whose pixels fill the image.
#[verifier::external_body]
pub(crate) fn decode_pixels(
    encoded: &[u8],
    kind: ImageKind,
    max_dimension: u32,
    max_alloc: u64,
) -> (result: Result<RgbaImage, String>)
    ensures
        match result {
            Ok(image) => is_filled(image@) && decoded_image(
                encoded@,
                kind == ImageKind::Png,
                max_dimension,
                max_alloc,
            ) == Ok::<(u32, u32, Seq<u8>), Seq<char>>((image.width, image.height, image.pixels@)),
            Err(e) => decoded_image(encoded@, kind == ImageKind::Png, max_dimension, max_alloc)
                == Err::<(u32, u32, Seq<u8>), Seq<char>>(e@),
        },
{
    let format = match kind {
        ImageKind::Png => image::ImageFormat::Png,
        ImageKind::Bmp => image::ImageFormat::Bmp,
    };
    let mut limits = image::Limits::default();
    limits.max_image_width = Some(max_dimension);
    limits.max_image_height = Some(max_dimension);
    limits.max_alloc = Some(max_alloc);
    let mut reader = image::ImageReader::with_format(std::io::Cursor::new(encoded), format);
    reader.limits(limits);
    let decoded = reader.decode().map_err(|e| e.to_string())?.to_rgba8();
    Ok(RgbaImage { width: decoded.width(), height: decoded.height(), pixels: decoded.into_raw() })
}

/// `image::imageops::resize` with the Lanczos filter, to a smaller size. The result has
/// the requested size and its pixels fill it. Which pixels they are is left unsaid:
/// the filter weighs them with `f32::sin`, whose precision differs between platforms.
/// What is resized, and to which size, `is_resized` says.
#[verifier::external_body]
pub(crate) fn shrink(image: &RgbaImage, width: u32, height: u32) -> (smaller: RgbaImage)
    requires
        is_filled(image@),
        dimension_error(image.width, image.height) is None,
        0 < width <= image.width,
        0 < height <= image.height,
    ensures
        smaller.width == width,
        smaller.height == height,
        is_filled(smaller@),
{
    let source = image::ImageBuffer::<image::Rgba<u8>, &[u8]>::from_raw(
        image.width,
        image.height,
        &image.pixels,
    ).expect("the pixels fill the image");
    let filter = image::imageops::FilterType::Lanczos3;
    let resized = image::imageops::resize(&source, width, height, filter);
    RgbaImage { width, height, pixels: resized.into_raw() }
}

/// What is wrong with the size of an image in pixels, if anything.
pub open spec fn dimension_error(width: u32, height: u32) -> Option<ErrorView> {
    if width == 0 || height == 0 || width > MAX_IMAGE_DIMENSION || height > MAX_IMAGE_DIMENSION
        || width * height > MAX_IMAGE_PIXELS {
        Some(
            ErrorView::Backend(
                "image dimensions exceed decode limits: width="@ + text::decimal(width as nat)
                    + " height="@ + text::decimal(height as nat) + " pixels="@ + text::decimal(
                    (width * height) as nat,
                ) + " max_dimension="@ + text::decimal(MAX_IMAGE_DIMENSION as nat)
                    + " max_pixels="@ + text::decimal(MAX_IMAGE_PIXELS as nat),
            ),
        )
    } else {
        None
    }
}

/// Tells whether an image of a size may be decoded.
pub fn validate_image_dimensions(width: u32, height: u32) -> (result: Result<(), ClipboardError>)
    ensures
        match result {
            Ok(_) => dimension_error(width, height) is None,
            Err(e) => dimension_error(width, height) == Some(e@),
        },
{
    assert(width * height <= u32::MAX * u32::MAX) by (nonlinear_arith)
        requires
            width <= u32::MAX,
            height <= u32::MAX,
    ;
    let pixels: u64 = width as u64 * height as u64;
    if width == 0 || height == 0 || width > MAX_IMAGE_DIMENSION || height > MAX_IMAGE_DIMENSION
        || pixels > MAX_IMAGE_PIXELS {
        let mut text: String = "image dimensions exceed decode limits: width=".to_owned();
        text.append(&decimal_text(width as u64));
        text.append(" height=");
        text.append(&decimal_text(height as u64));
        text.append(" pixels=");
        text.append(&decimal_text(pixels));
        text.append(" max_dimension=");
        text.append(&decimal_text(MAX_IMAGE_DIMENSION as u64));
        text.append(" max_pixels=");
        text.append(&decimal_text(MAX_IMAGE_PIXELS));
        return Err(ClipboardError::Backend(text));
    }
    Ok(())
}

/// What is wrong with the size of an encoded image in bytes, if anything.
pub open spec fn source_error(size: nat, context: Seq<char>) -> Option<ErrorView> {
    if size > MAX_IMAGE_SOURCE_BYTES {
        Some(
            ErrorView::Backend(
                context + " exceeds image decode source limit: size_bytes="@ + text::decimal(size)
                    + " limit_bytes="@ + text::decimal(MAX_IMAGE_SOURCE_BYTES as nat),
            ),
        )
    } else {
        None
    }
}

/// Tells whether an encoded image is small enough to be decoded.
pub fn ensure_image_source_size(size: usize, context: &str) -> (result: Result<(), ClipboardError>)
    ensures
        match result {
            Ok(_) => source_error(size as nat, context@) is None,
            Err(e) => source_error(size as nat, context@) == Some(e@),
        },
{
    let size_bytes: u64 = size as u64;
    if size_bytes > MAX_IMAGE_SOURCE_BYTES {
        let mut text: String = context.to_owned();
        text.append(" exceeds image decode source limit: size_bytes=");
        text.append(&decimal_text(size_bytes));
        text.append(" limit_bytes=");
        text.append(&decimal_text(MAX_IMAGE_SOURCE_BYTES));
        return Err(ClipboardError::Backend(text));
    }
    Ok(())
}

/// Words for an error in some context.
pub open spec fn in_context(context: Seq<char>, error: Seq<char>) -> ErrorView {
    ErrorView::Backend(context + ": "@ + error)
}

fn error_in(context: &str, error: &str) -> (e: ClipboardError)
    ensures
        e@ == in_context(context@, error@),
{
    let mut text: String = context.to_owned();
    text.append(": ");
    text.append(error);
    ClipboardError::Backend(text)
}

/// Why an image is refused before it is decoded, if it is, given what its header says.
pub open spec fn header_error(
    size: nat,
    header: Result<(u32, u32), Seq<char>>,
    context: Seq<char>,
) -> Option<ErrorView> {
    if source_error(size, context) is Some {
        source_error(size, context)
    } else {
        match header {
            Ok((width, height)) => dimension_error(width, height),
            Err(e) => Some(in_context(context, e)),
        }
    }
}

/// A size or an error in words, as plain values.
pub open spec fn header_view(header: Result<(u32, u32), String>) -> Result<(u32, u32), Seq<char>> {
    match header {
        Ok(size) => Ok(size),
        Err(e) => Err(e@),
    }
}

/// Decides by its header whether an image may be decoded.
pub fn accept_image_header(
    size: usize,
    header: Result<(u32, u32), String>,
    context: &str,
) -> (result: Result<(), ClipboardError>)
    ensures
        match result {
            Ok(_) => header_error(size as nat, header_view(header), context@) is None,
            Err(e) => header_error(size as nat, header_view(header), context@) == Some(e@),
        },
{
    if let Err(e) = ensure_image_source_size(size, context) {
        return Err(e);
    }
    match header {
        Ok((width, height)) => validate_image_dimensions(width, height),
        Err(e) => Err(error_in(context, &e)),
    }
}

/// What the header of an encoded image says.
pub open spec fn header_of(encoded: Seq<u8>, kind: ImageKind) -> Result<(u32, u32), Seq<char>> {
    encoded_dimensions(
        encoded,
        kind == ImageKind::Png,
        MAX_IMAGE_DIMENSION,
        MAX_IMAGE_DECODE_BYTES,
    )
}

/// Tells whether an encoded image may be decoded. What is too large is not read.
pub fn validate_encoded_image_dimensions(encoded: &[u8], kind: ImageKind, context: &str) -> (result:
    Result<(), ClipboardError>)
    ensures
        match result {
            Ok(_) => header_error(encoded@.len(), header_of(encoded@, kind), context@) is None,
            Err(e) => header_error(encoded@.len(), header_of(encoded@, kind), context@) == Some(
                e@,
            ),
        },
{
    if let Err(e) = ensure_image_source_size(encoded.len(), context) {
        return Err(e);
    }
    let header = read_dimensions(encoded, kind, MAX_IMAGE_DIMENSION, MAX_IMAGE_DECODE_BYTES);
    assert(header_view(header) == header_of(encoded@, kind));
    accept_image_header(encoded.len(), header, context)
}

/// The outcome of decoding an image.
pub open spec fn decoding(encoded: Seq<u8>, kind: ImageKind, context: Seq<char>) -> Result<
    ImageView,
    ErrorView,
> {
    match header_error(encoded.len(), header_of(encoded, kind), context) {
        Some(e) => Err(e),
        None => match decoded_image(
            encoded,
            kind == ImageKind::Png,
            MAX_IMAGE_DIMENSION,
            MAX_IMAGE_DECODE_BYTES,
        ) {
            Ok((width, height, pixels)) => Ok(ImageView { width, height, pixels }),
            Err(e) => Err(in_context(context, e)),
        },
    }
}

/// Decodes an image that is small enough.
pub fn decode_image_with_limits(encoded: &[u8], kind: ImageKind, context: &str) -> (result: Result<
    RgbaImage,
    ClipboardError,
>)
    ensures
        match result {
            Ok(image) => is_filled(image@) && decoding(encoded@, kind, context@) == Ok::<
                ImageView,
                ErrorView,
            >(image@),
            Err(e) => decoding(encoded@, kind, context@) == Err::<ImageView, ErrorView>(e@),
        },
{
    if let Err(e) = validate_encoded_image_dimensions(encoded, kind, context) {
        return Err(e);
    }
    match decode_pixels(encoded, kind, MAX_IMAGE_DIMENSION, MAX_IMAGE_DECODE_BYTES) {
        Ok(image) => Ok(image),
        Err(e) => Err(error_in(context, &e)),
    }
}

/// A side of an image one step smaller: 85 of 100 parts, but never nothing.
pub open spec fn scaled(n: u32) -> u32 {
    let product = if n * 85 > u32::MAX {
        u32::MAX as int
    } else {
        n * 85
    };
    if product / 100 > 1 {
        (product / 100) as u32
    } else {
        1
    }
}

/// A side of an image some steps smaller.
pub open spec fn scaled_by(n: u32, steps: nat) -> u32
    decreases steps,
{
    if steps == 0 {
        n
    } else {
        scaled(scaled_by(n, (steps - 1) as nat))
    }
}

fn next_side(n: u32) -> (smaller: u32)
    ensures
        smaller == scaled(n),
{
    let product: u32 = match n.checked_mul(85) {
        Some(product) => product,
        None => u32::MAX,
    };
    let side: u32 = product / 100;
    if side > 1 {
        side
    } else {
        1
    }
}

/// What follows an attempt to encode an image.
#[derive(Debug)]
pub enum ImageStep {
    /// The encoding is small enough.
    Done(Vec<u8>),
    /// There is no encoding to be had.
    Failed(ClipboardError),
    /// Try again with an image of this width and height.
    Shrink(u32, u32),
}

/// What follows an attempt to encode an image, as plain values.
#[verifier::ext_equal]
pub enum StepView {
    Done(Seq<u8>),
    Failed(ErrorView),
    Shrink(u32, u32),
}

impl View for ImageStep {
    type V = StepView;

    open spec fn view(&self) -> StepView {
        match self {
            ImageStep::Done(png) => StepView::Done(png@),
            ImageStep::Failed(e) => StepView::Failed(e@),
            ImageStep::Shrink(width, height) => StepView::Shrink(*width, *height),
        }
    }
}

/// What follows when an image of some size was encoded.
pub open spec fn image_step(
    width: u32,
    height: u32,
    encoded: Result<Seq<u8>, Seq<char>>,
    limit_bytes: u64,
) -> StepView {
    match encoded {
        Err(e) => StepView::Failed(ErrorView::Backend(e)),
        Ok(png) => if png.len() <= limit_bytes {
            StepView::Done(png)
        } else if scaled(width) == width && scaled(height) == height {
            StepView::Failed(ErrorView::TooLarge(png.len() as u64, limit_bytes))
        } else {
            StepView::Shrink(scaled(width), scaled(height))
        },
    }
}

/// An encoding or an error in words, as plain values.
pub open spec fn encoding_view(encoded: Result<Vec<u8>, String>) -> Result<Seq<u8>, Seq<char>> {
    match encoded {
        Ok(png) => Ok(png@),
        Err(e) => Err(e@),
    }
}

/// Decides what follows when an image of some size was encoded.
pub fn next_image_step(
    width: u32,
    height: u32,
    encoded: Result<Vec<u8>, String>,
    limit_bytes: u64,
) -> (step: ImageStep)
    ensures
        step@ == image_step(width, height, encoding_view(encoded), limit_bytes),
{
    let png = match encoded {
        Ok(png) => png,
        Err(e) => return ImageStep::Failed(ClipboardError::Backend(e)),
    };
    let size_bytes: u64 = png.len() as u64;
    if size_bytes <= limit_bytes {
        return ImageStep::Done(png);
    }
    let next_width: u32 = next_side(width);
    let next_height: u32 = next_side(height);
    if next_width == width && next_height == height {
        return ImageStep::Failed(ClipboardError::TooLarge { size_bytes, limit_bytes });
    }
    ImageStep::Shrink(next_width, next_height)
}

/// What follows when an image was encoded.
pub open spec fn step_of(image: ImageView, limit_bytes: u64) -> StepView {
    image_step(
        image.width,
        image.height,
        png_encoding(image.width, image.height, image.pixels),
        limit_bytes,
    )
}

/// One image is what resizing another one to a given size gave. `shrink` says which
/// size it has; its pixels are those that the filter computed from the other image.
pub closed spec fn is_resized(image: ImageView, width: u32, height: u32, smaller: ImageView) -> bool {
    exists|a: RgbaImage, b: RgbaImage|
        a@ == image && b@ == smaller && #[trigger] call_ensures(shrink, (&a, width, height), b)
}

/// One image follows another one: its encoding was over the limit, and resizing it to the
/// next size gave the other one.
pub open spec fn is_next(image: ImageView, smaller: ImageView, limit_bytes: u64) -> bool {
    match step_of(image, limit_bytes) {
        StepView::Shrink(width, height) => is_resized(image, width, height, smaller),
        _ => false,
    }
}

/// An image is another one, some steps smaller: each step was made from the image before.
pub open spec fn is_shrunk(last: ImageView, first: ImageView, steps: nat, limit_bytes: u64) -> bool
    decreases steps,
{
    if steps == 0 {
        last == first
    } else {
        exists|image: ImageView|
            is_shrunk(image, first, (steps - 1) as nat, limit_bytes) && #[trigger] is_next(
                image,
                last,
                limit_bytes,
            )
    }
}

/// What resizing gives has the size that was asked for, and its pixels fill it.
pub proof fn resized_images_have_their_size(
    image: ImageView,
    width: u32,
    height: u32,
    smaller: ImageView,
)
    requires
        is_resized(image, width, height, smaller),
    ensures
        smaller.width == width,
        smaller.height == height,
        is_filled(smaller),
{
}

/// Every step makes both sides of an image 85 percent of what they were.
pub proof fn shrunk_images_have_their_size(
    last: ImageView,
    first: ImageView,
    steps: nat,
    limit_bytes: u64,
)
    requires
        is_shrunk(last, first, steps, limit_bytes),
        is_filled(first),
    ensures
        last.width == scaled_by(first.width, steps),
        last.height == scaled_by(first.height, steps),
        is_filled(last),
    decreases steps,
{
    if steps > 0 {
        let image = choose|image: ImageView|
            is_shrunk(image, first, (steps - 1) as nat, limit_bytes) && #[trigger] is_next(
                image,
                last,
                limit_bytes,
            );
        shrunk_images_have_their_size(image, first, (steps - 1) as nat, limit_bytes);
        resized_images_have_their_size(image, scaled(image.width), scaled(image.height), last);
    }
}

/// An outcome is what follows for some image.
pub open spec fn is_end(
    result: Result<ClipboardPayload, ClipboardError>,
    last: ImageView,
    limit_bytes: u64,
) -> bool {
    match result {
        Ok(payload) => payload@ is ImagePng && step_of(last, limit_bytes) == StepView::Done(
            payload@->ImagePng_0,
        ),
        Err(e) => step_of(last, limit_bytes) == StepView::Failed(e@),
    }
}

/// Every step makes an image of allowed size smaller, until it is one pixel.
pub proof fn scaling_shrinks(n: u32)
    ensures
        0 < n ==> 0 < scaled(n) <= n,
        1 < n <= MAX_IMAGE_DIMENSION ==> scaled(n) < n,
        scaled(1) == 1,
{
}

/// The content that an image makes. An image whose encoding is over the limit is made
/// smaller step by step, until it is within the limit or cannot get smaller.
pub fn encode_image_payload(image: RgbaImage, limit_bytes: u64) -> (result: Result<
    ClipboardPayload,
    ClipboardError,
>)
    requires
        is_filled(image@),
    ensures
        match dimension_error(image.width, image.height) {
            Some(e) => result is Err && result->Err_0@ == e,
            None => exists|last: ImageView, steps: nat|
                #[trigger] is_shrunk(last, image@, steps, limit_bytes) && is_end(
                    result,
                    last,
                    limit_bytes,
                ),
        },
        dimension_error(image.width, image.height) is None ==> match step_of(image@, limit_bytes) {
            StepView::Done(png) => result is Ok && result->Ok_0@ == PayloadView::ImagePng(png),
            StepView::Failed(e) => result is Err && result->Err_0@ == e,
            StepView::Shrink(_, _) => true,
        },
        match result {
            Ok(payload) => payload@ is ImagePng && payload@->ImagePng_0.len() <= limit_bytes,
            Err(_) => true,
        },
{
    if let Err(e) = validate_image_dimensions(image.width, image.height) {
        return Err(e);
    }
    let ghost first = image@;
    let ghost mut steps: nat = 0;
    let mut current = image;
    loop
        invariant
            is_filled(current@),
            first == image@,
            dimension_error(first.width, first.height) is None,
            dimension_error(current.width, current.height) is None,
            is_shrunk(current@, first, steps, limit_bytes),
            steps > 0 ==> step_of(first, limit_bytes) is Shrink,
        decreases current.width + current.height,
    {
        let encoded = encode_png(&current);
        let ghost last = current@;
        assert(encoding_view(encoded) == png_encoding(last.width, last.height, last.pixels));
        match next_image_step(current.width, current.height, encoded, limit_bytes) {
            ImageStep::Done(png_bytes) => {
                let result = Ok(ClipboardPayload::ImagePng { png_bytes });
                assert(is_shrunk(last, first, steps, limit_bytes) && is_end(
                    result,
                    last,
                    limit_bytes,
                ));
                return result;
            },
            ImageStep::Failed(e) => {
                let result = Err(e);
                assert(is_shrunk(last, first, steps, limit_bytes) && is_end(
                    result,
                    last,
                    limit_bytes,
                ));
                return result;
            },
            ImageStep::Shrink(width, height) => {
                proof {
                    scaling_shrinks(current.width);
                    scaling_shrinks(current.height);
                    assert(width * height <= last.width * last.height) by (nonlinear_arith)
                        requires
                            0 <= width <= last.width,
                            0 <= height <= last.height,
                    ;
                }
                let resize = shrink;
                let smaller = resize(&current, width, height);
                proof {
                    assert(call_ensures(shrink, (&current, width, height), smaller));
                    assert(is_next(last, smaller@, limit_bytes));
                    assert(is_shrunk(last, first, steps, limit_bytes));
                    steps = steps + 1;
                    assert(is_shrunk(smaller@, first, steps, limit_bytes));
                }
                current = smaller;
            },
        }
    }
}

/// Decodes an image for the clipboard.
pub fn decode_clipboard_png(png_bytes: &[u8], limit_bytes: u64) -> (result: Result<
    RgbaImage,
    ClipboardError,
>)
    ensures
        match result {
            Ok(image) => png_bytes@.len() <= limit_bytes && is_filled(image@) && decoding(
                png_bytes@,
                ImageKind::Png,
                "decode clipboard png"@,
            ) == Ok::<ImageView, ErrorView>(image@),
            Err(e) => if png_bytes@.len() > limit_bytes {
                e@ == ErrorView::TooLarge(png_bytes@.len() as u64, limit_bytes)
            } else {
                decoding(png_bytes@, ImageKind::Png, "decode clipboard png"@) == Err::<
                    ImageView,
                    ErrorView,
                >(e@)
            },
        },
{
    if let Err(e) = check_size(png_bytes.len() as u64, limit_bytes) {
        return Err(e);
    }
    decode_image_with_limits(png_bytes, ImageKind::Png, "decode clipboard png")
}

/// Why bytes are not a bitmap file, if they are not.
pub open spec fn bmp_error(bmp: Seq<u8>) -> Option<ErrorView> {
    if bmp.len() <= BMP_FILE_HEADER_LEN {
        Some(ErrorView::Backend("encoded windows bmp is missing file header"@))
    } else if bmp[0] != 0x42 || bmp[1] != 0x4d {
        Some(ErrorView::Backend("encoded windows bmp has invalid signature"@))
    } else {
        None
    }
}

/// The bitmap in a bitmap file.
pub fn bmp_bytes_to_dib_bytes(bmp_bytes: &[u8]) -> (result: Result<Vec<u8>, ClipboardError>)
    ensures
        match result {
            Ok(dib) => bmp_error(bmp_bytes@) is None && dib@ == bmp_bytes@.skip(
                BMP_FILE_HEADER_LEN as int,
            ),
            Err(e) => bmp_error(bmp_bytes@) == Some(e@),
        },
{
    if bmp_bytes.len() <= BMP_FILE_HEADER_LEN {
        return Err(backend("encoded windows bmp is missing file header"));
    }
    if bmp_bytes[0] != 0x42 || bmp_bytes[1] != 0x4d {
        return Err(backend("encoded windows bmp has invalid signature"));
    }
    let dib = copy_range(bmp_bytes, BMP_FILE_HEADER_LEN, bmp_bytes.len());
    assert(dib@ =~= bmp_bytes@.skip(BMP_FILE_HEADER_LEN as int));
    Ok(dib)
}

/// Two to the power of a number.
pub open spec fn two_to(n: nat) -> nat
    decreases n,
{
    if n == 0 {
        1
    } else {
        2 * two_to((n - 1) as nat)
    }
}

/// How many colors the palette of a bitmap has.
pub open spec fn palette_entries(dib: Seq<u8>) -> int {
    let colors_used = bytes::little32(dib, 32);
    let bit_count = bytes::little16(dib, 14);
    if colors_used > 0 {
        colors_used
    } else if bit_count <= 8 {
        two_to(bit_count as nat) as int
    } else {
        0
    }
}

/// How many bytes of color masks follow the header of a bitmap.
pub open spec fn mask_bytes(dib: Seq<u8>) -> int {
    let compression = bytes::little32(dib, 16);
    if bytes::little32(dib, 0) != BITMAPINFOHEADER_LEN {
        0
    } else if compression == 3 {
        12
    } else if compression == 6 {
        16
    } else {
        0
    }
}

/// Where the pixels of a bitmap start in a bitmap file.
pub open spec fn pixel_offset(dib: Seq<u8>) -> int {
    BMP_FILE_HEADER_LEN + bytes::little32(dib, 0) + mask_bytes(dib) + palette_entries(dib) * 4
}

/// Why bytes are not a bitmap, if they are not.
pub open spec fn dib_error(dib: Seq<u8>) -> Option<ErrorView> {
    let header_size = bytes::little32(dib, 0);
    if source_error(dib.len(), "windows dib"@) is Some {
        source_error(dib.len(), "windows dib"@)
    } else if dib.len() < BITMAPINFOHEADER_LEN {
        Some(ErrorView::Backend("windows dib too short"@))
    } else if header_size < BITMAPINFOHEADER_LEN || header_size > dib.len() {
        Some(
            ErrorView::Backend("invalid dib header size: "@ + text::decimal(header_size as nat)),
        )
    } else if palette_entries(dib) * 4 > usize::MAX {
        Some(ErrorView::Backend("windows dib palette size overflow"@))
    } else if pixel_offset(dib) > usize::MAX {
        Some(ErrorView::Backend("windows dib pixel offset overflow"@))
    } else if pixel_offset(dib) > BMP_FILE_HEADER_LEN + dib.len() {
        Some(
            ErrorView::Backend(
                "windows dib has invalid pixel offset or file size: pixel_offset="@ + text::decimal(
                    pixel_offset(dib) as nat,
                ) + " file_size="@ + text::decimal(BMP_FILE_HEADER_LEN as nat + dib.len()),
            ),
        )
    } else {
        None
    }
}

/// The bitmap file of a bitmap.
pub open spec fn bmp_of(dib: Seq<u8>) -> Seq<u8> {
    seq![0x42u8, 0x4du8] + bytes::le32((BMP_FILE_HEADER_LEN + dib.len()) as u32) + seq![
        0u8,
        0u8,
        0u8,
        0u8,
    ] + bytes::le32(pixel_offset(dib) as u32) + dib
}

fn two_to_exec(n: u16) -> (power: usize)
    requires
        n <= 8,
    ensures
        power == two_to(n as nat),
        power <= 256,
{
    let mut power: usize = 1;
    let mut i: u16 = 0;
    proof {
        reveal_with_fuel(two_to, 10);
    }
    while i < n
        invariant
            i <= n <= 8,
            power == two_to(i as nat),
            two_to(8) == 256,
            power <= 256,
            i < 8 ==> power <= 128,
            i < 7 ==> power <= 64,
            i < 6 ==> power <= 32,
            i < 5 ==> power <= 16,
            i < 4 ==> power <= 8,
            i < 3 ==> power <= 4,
            i < 2 ==> power <= 2,
            i < 1 ==> power <= 1,
        decreases n - i,
    {
        power = power * 2;
        i = i + 1;
    }
    power
}

/// Writes a bitmap as a bitmap file.
pub fn dib_to_bmp_bytes(dib_bytes: &[u8]) -> (result: Result<Vec<u8>, ClipboardError>)
    ensures
        match result {
            Ok(bmp) => dib_error(dib_bytes@) is None && bmp@ == bmp_of(dib_bytes@),
            Err(e) => dib_error(dib_bytes@) == Some(e@),
        },
{
    if let Err(e) = ensure_image_source_size(dib_bytes.len(), "windows dib") {
        return Err(e);
    }
    if dib_bytes.len() < BITMAPINFOHEADER_LEN {
        return Err(backend("windows dib too short"));
    }
    let header_size: usize = read_little32(dib_bytes, 0) as usize;
    if header_size < BITMAPINFOHEADER_LEN || header_size > dib_bytes.len() {
        let mut text: String = "invalid dib header size: ".to_owned();
        text.append(&decimal_text(header_size as u64));
        return Err(ClipboardError::Backend(text));
    }
    let bit_count: u16 = read_little16(dib_bytes, 14);
    let compression: u32 = read_little32(dib_bytes, 16);
    let colors_used: usize = read_little32(dib_bytes, 32) as usize;
    let entries: usize = if colors_used > 0 {
        colors_used
    } else if bit_count <= 8 {
        two_to_exec(bit_count)
    } else {
        0
    };
    let masks: usize = if header_size != BITMAPINFOHEADER_LEN {
        0
    } else if compression == 3 {
        12
    } else if compression == 6 {
        16
    } else {
        0
    };
    let palette_bytes: usize = match entries.checked_mul(4) {
        Some(n) => n,
        None => return Err(backend("windows dib palette size overflow")),
    };
    let offset: usize = match (BMP_FILE_HEADER_LEN + header_size + masks).checked_add(
        palette_bytes,
    ) {
        Some(n) => n,
        None => return Err(backend("windows dib pixel offset overflow")),
    };
    let file_size: usize = BMP_FILE_HEADER_LEN + dib_bytes.len();
    if offset > file_size {
        let mut text: String =
            "windows dib has invalid pixel offset or file size: pixel_offset=".to_owned();
        text.append(&decimal_text(offset as u64));
        text.append(" file_size=");
        text.append(&decimal_text(file_size as u64));
        return Err(ClipboardError::Backend(text));
    }
    let mut bmp: Vec<u8> = Vec::new();
    bmp.push(0x42);
    bmp.push(0x4d);
    push_le32(&mut bmp, file_size as u32);
    bmp.push(0);
    bmp.push(0);
    bmp.push(0);
    bmp.push(0);
    push_le32(&mut bmp, offset as u32);
    push_all(&mut bmp, dib_bytes);
    assert(bmp@ =~= bmp_of(dib_bytes@));
    Ok(bmp)
}

/// The outcome of reading a PNG from the clipboard: one within the limit stays as it is.
pub fn encode_existing_png_payload(png_bytes: Vec<u8>, limit_bytes: u64) -> (result: Result<
    ClipboardPayload,
    ClipboardError,
>)
    ensures
        ({
            let refused = header_error(
                png_bytes@.len(),
                header_of(png_bytes@, ImageKind::Png),
                "inspect windows png"@,
            );
            if refused is Some {
                result is Err && result->Err_0@ == refused->Some_0
            } else if png_bytes@.len() <= limit_bytes {
                result is Ok && result->Ok_0@ == PayloadView::ImagePng(png_bytes@)
            } else {
                is_reencoded(
                    result,
                    decoding(png_bytes@, ImageKind::Png, "decode oversized png"@),
                    limit_bytes,
                )
            }
        }),
{
    if let Err(e) = validate_encoded_image_dimensions(
        &png_bytes,
        ImageKind::Png,
        "inspect windows png",
    ) {
        return Err(e);
    }
    if png_bytes.len() as u64 > limit_bytes {
        return match decode_image_with_limits(&png_bytes, ImageKind::Png, "decode oversized png") {
            Ok(image) => encode_image_payload(image, limit_bytes),
            Err(e) => Err(e),
        };
    }
    Ok(ClipboardPayload::ImagePng { png_bytes })
}

/// A result is what encoding a decoded image gives.
pub open spec fn is_reencoded(
    result: Result<ClipboardPayload, ClipboardError>,
    decoded: Result<ImageView, ErrorView>,
    limit_bytes: u64,
) -> bool {
    match decoded {
        Err(e) => result is Err && result->Err_0@ == e,
        Ok(image) => match dimension_error(image.width, image.height) {
            Some(e) => result is Err && result->Err_0@ == e,
            None => exists|last: ImageView, steps: nat|
                #[trigger] is_shrunk(last, image, steps, limit_bytes) && is_end(
                    result,
                    last,
                    limit_bytes,
                ),
        },
    }
}

/// The outcome of reading a bitmap from the clipboard; an empty one is none.
pub fn encode_dib_payload(dib_bytes: &[u8], limit_bytes: u64) -> (result: Result<
    Option<ClipboardPayload>,
    ClipboardError,
>)
    ensures
        if dib_bytes@.len() == 0 {
            result matches Ok(None)
        } else if dib_error(dib_bytes@) is Some {
            result is Err && result->Err_0@ == dib_error(dib_bytes@)->Some_0
        } else {
            is_reencoded(
                some_payload(result),
                decoding(bmp_of(dib_bytes@), ImageKind::Bmp, "decode windows dib"@),
                limit_bytes,
            ) && !(result matches Ok(None))
        },
{
    if dib_bytes.len() == 0 {
        return Ok(None);
    }
    let bmp = match dib_to_bmp_bytes(dib_bytes) {
        Ok(bmp) => bmp,
        Err(e) => return Err(e),
    };
    match decode_image_with_limits(&bmp, ImageKind::Bmp, "decode windows dib") {
        Ok(image) => match encode_image_payload(image, limit_bytes) {
            Ok(payload) => Ok(Some(payload)),
            Err(e) => Err(e),
        },
        Err(e) => Err(e),
    }
}

/// A result that holds a content, without the option.
pub open spec fn some_payload(
    result: Result<Option<ClipboardPayload>, ClipboardError>,
) -> Result<ClipboardPayload, ClipboardError> {
    match result {
        Ok(payload) => Ok(payload->Some_0),
        Err(e) => Err(e),
    }
}

/// The outcome of reading a bitmap file from the clipboard; an empty one is none.
pub fn encode_bitmap_payload(bitmap_bytes: &[u8], limit_bytes: u64) -> (result: Result<
    Option<ClipboardPayload>,
    ClipboardError,
>)
    ensures
        if bitmap_bytes@.len() == 0 {
            result matches Ok(None)
        } else {
            is_reencoded(
                some_payload(result),
                decoding(bitmap_bytes@, ImageKind::Bmp, "decode windows bitmap"@),
                limit_bytes,
            ) && !(result matches Ok(None))
        },
{
    if bitmap_bytes.len() == 0 {
        return Ok(None);
    }
    match decode_image_with_limits(bitmap_bytes, ImageKind::Bmp, "decode windows bitmap") {
        Ok(image) => match encode_image_payload(image, limit_bytes) {
            Ok(payload) => Ok(Some(payload)),
            Err(e) => Err(e),
        },
        Err(e) => Err(e),
    }
}

/// The outcome of making a bitmap of a PNG.
pub open spec fn dib_outcome(png: Seq<u8>) -> Result<Seq<u8>, ErrorView> {
    match decoding(png, ImageKind::Png, "decode png for windows image write"@) {
        Err(e) => Err(e),
        Ok(image) => match bmp_encoding(image.width, image.height, image.pixels) {
            Err(e) => Err(in_context("encode windows bitmap"@, e)),
            Ok(bmp) => match bmp_error(bmp) {
                Some(e) => Err(e),
                None => Ok(bmp.skip(BMP_FILE_HEADER_LEN as int)),
            },
        },
    }
}

/// The bitmap that goes into a clipboard which has no PNG.
pub fn png_to_dib_bytes(png_bytes: &[u8]) -> (result: Result<Vec<u8>, ClipboardError>)
    ensures
        match result {
            Ok(dib) => dib_outcome(png_bytes@) == Ok::<Seq<u8>, ErrorView>(dib@),
            Err(e) => dib_outcome(png_bytes@) == Err::<Seq<u8>, ErrorView>(e@),
        },
{
    let image = match decode_image_with_limits(
        png_bytes,
        ImageKind::Png,
        "decode png for windows image write",
    ) {
        Ok(image) => image,
        Err(e) => return Err(e),
    };
    let bmp = match encode_bmp(&image) {
        Ok(bmp) => bmp,
        Err(e) => return Err(error_in("encode windows bitmap", &e)),
    };
    bmp_bytes_to_dib_bytes(&bmp)
}

/// The bitmap can be written.
pub open spec fn may_succeed<E, F: FnOnce() -> Result<(), E>>(write: F) -> bool {
    exists|done: Result<(), E>| #[trigger] write.ensures((), done) && done is Ok
}

/// Writes an image in two forms. The bitmap comes first and is what matters: once it is
/// there, the PNG is written too, and if that fails it is no failure. Without the bitmap
/// the PNG is not tried: it need not be possible to write it then.
pub fn write_windows_image_formats<
    E,
    F: FnOnce() -> Result<(), E>,
    G: FnOnce() -> Result<(), E>,
>(write_dib: F, write_png: G) -> (result: Result<(), E>)
    requires
        write_dib.requires(()),
        may_succeed(write_dib) ==> write_png.requires(()),
    ensures
        write_dib.ensures((), result),
        result is Ok ==> exists|png: Result<(), E>| write_png.ensures((), png),
{
    let bitmap = write_dib();
    match next_image_format(&bitmap) {
        ImageFormatStep::WritePng => {
            let _png = write_png();
        },
        ImageFormatStep::Stop => {},
    }
    bitmap
}

/// What follows once the bitmap of an image was written, or not.
#[derive(Debug, Clone, Copy, PartialEq, Eq, Structural)]
pub enum ImageFormatStep {
    /// Write the PNG as well, whatever comes of it.
    WritePng,
    /// Write nothing more.
    Stop,
}

/// Decides what follows once the bitmap of an image was written, or not.
pub fn next_image_format<E>(bitmap: &Result<(), E>) -> (step: ImageFormatStep)
    ensures
        step == if *bitmap is Ok {
            ImageFormatStep::WritePng
        } else {
            ImageFormatStep::Stop
        },
{
    match bitmap {
        Ok(_) => ImageFormatStep::WritePng,
        Err(_) => ImageFormatStep::Stop,
    }
}

/// A bitmap that was written as a file is read back from it unchanged.
pub proof fn bitmaps_are_read_back(dib: Seq<u8>)
    requires
        dib_error(dib) is None,
    ensures
        bmp_error(bmp_of(dib)) is None,
        bmp_of(dib).skip(BMP_FILE_HEADER_LEN as int) == dib,
{
    bytes::be32_is_read_back((BMP_FILE_HEADER_LEN + dib.len()) as u32);
    bytes::be32_is_read_back(pixel_offset(dib) as u32);
    let bmp = bmp_of(dib);
    assert(bmp.len() == 14 + dib.len());
    assert(bmp[0] == 0x42 && bmp[1] == 0x4d);
    assert(bmp.skip(14) =~= dib);
}

/// An image may be decoded whose sides are 1 to 16384 pixels and which has no more than 16777216
/// pixels in all, whatever its proportions.
pub proof fn images_of_ordinary_size_are_accepted(width: u32, height: u32)
    ensures
        dimension_error(width, height) is None <==> 1 <= width <= 16_384 && 1 <= height <= 16_384
            && width * height <= 16_777_216,
{
}

/// An encoded image of up to 80 MiB may be decoded if its header can be read and says a size
/// that is allowed; an error says in which context it came up.
pub proof fn readable_images_are_accepted(size: nat, width: u32, height: u32, error: Seq<char>, context: Seq<char>)
    ensures
        source_error(size, context) is None <==> size <= 83_886_080,
        size <= 83_886_080 ==> header_error(size, Ok((width, height)), context) == dimension_error(
            width,
            height,
        ),
        size <= 83_886_080 ==> header_error(size, Err(error), context) == Some(
            ErrorView::Backend(context + ": "@ + error),
        ),
        size > 83_886_080 ==> header_error(size, Ok((width, height)), context) is Some,
{
}

/// A side of 2 to 16384 pixels becomes 85 percent of what it was, rounded down.
pub proof fn sides_become_85_percent(n: u32)
    requires
        2 <= n <= 16_384,
    ensures
        scaled(n) * 100 <= n * 85,
        n * 85 < (scaled(n) + 1) * 100,
        scaled(1) == 1,
{
}

/// An encoding within the limit is taken as it is; one over the limit makes both sides of the
/// image smaller, and only an image of one pixel is given up for its size.
pub proof fn encodings_within_the_limit_are_taken(
    width: u32,
    height: u32,
    png: Seq<u8>,
    error: Seq<char>,
    limit_bytes: u64,
)
    requires
        1 <= width <= 16_384,
        1 <= height <= 16_384,
    ensures
        png.len() <= limit_bytes ==> image_step(width, height, Ok(png), limit_bytes)
            == StepView::Done(png),
        png.len() > limit_bytes && (width > 1 || height > 1) ==> ({
            let step = image_step(width, height, Ok(png), limit_bytes);
            &&& step is Shrink
            &&& width > 1 ==> step->Shrink_0 < width
            &&& height > 1 ==> step->Shrink_1 < height
            &&& width >= 2 ==> step->Shrink_0 == width * 85 / 100
            &&& height >= 2 ==> step->Shrink_1 == height * 85 / 100
        }),
        png.len() > limit_bytes && width == 1 && height == 1 ==> image_step(
            width,
            height,
            Ok(png),
            limit_bytes,
        ) == StepView::Failed(ErrorView::TooLarge(png.len() as u64, limit_bytes)),
        image_step(width, height, Err(error), limit_bytes) == StepView::Failed(
            ErrorView::Backend(error),
        ),
{
}

/// A bitmap of true color with the usual header of 40 bytes and no palette is accepted, and its
/// pixels start behind the headers of file and bitmap; with color masks, behind those.
pub proof fn usual_bitmaps_are_accepted(dib: Seq<u8>)
    requires
        56 <= dib.len() <= 83_886_080,
        bytes::little32(dib, 0) == 40,
        bytes::little32(dib, 32) == 0,
        bytes::little16(dib, 14) == 24 || bytes::little16(dib, 14) == 32,
    ensures
        dib_error(dib) is None,
        bytes::little32(dib, 16) == 0 ==> pixel_offset(dib) == 54,
        bytes::little32(dib, 16) == 3 ==> pixel_offset(dib) == 66,
        bytes::little32(dib, 16) == 6 ==> pixel_offset(dib) == 70,
{
}

/// The palette of a bitmap has as many colors as its header says, or else as many as its depth
/// can tell apart, each of them in four bytes before the pixels.
pub proof fn palettes_stand_before_the_pixels(dib: Seq<u8>)
    requires
        bytes::little32(dib, 0) == 40,
        bytes::little32(dib, 16) == 0,
    ensures
        bytes::little32(dib, 32) > 0 ==> pixel_offset(dib) == 54 + 4 * bytes::little32(dib, 32),
        bytes::little32(dib, 32) == 0 && bytes::little16(dib, 14) == 8 ==> pixel_offset(dib) == 54
            + 4 * 256,
        bytes::little32(dib, 32) == 0 && bytes::little16(dib, 14) == 4 ==> pixel_offset(dib) == 54
            + 4 * 16,
        bytes::little32(dib, 32) == 0 && bytes::little16(dib, 14) == 1 ==> pixel_offset(dib) == 54
            + 4 * 2,
{
    reveal_with_fuel(two_to, 10);
}

/// A bitmap file starts with `BM`, its own length and, from the tenth byte on, the place of its
/// pixels, both least significant byte first; from the fourteenth byte on it is the bitmap.
pub proof fn bitmap_files_have_their_layout(dib: Seq<u8>)
    requires
        dib_error(dib) is None,
        pixel_offset(dib) <= u32::MAX,
    ensures
        ({
            let file = bmp_of(dib);
            &&& file.len() == 14 + dib.len()
            &&& file[0] == 0x42 && file[1] == 0x4d
            &&& file.subrange(2, 6) == bytes::le32((14 + dib.len()) as u32)
            &&& file.subrange(6, 10) == seq![0u8, 0, 0, 0]
            &&& file.subrange(10, 14) == bytes::le32(pixel_offset(dib) as u32)
            &&& file.skip(14) == dib
        }),
{
    bytes::numbers_start_with_their_highest_byte((14 + dib.len()) as u32, 0);
    bytes::numbers_start_with_their_highest_byte(pixel_offset(dib) as u32, 0);
    let file = bmp_of(dib);
    assert(file.subrange(2, 6) =~= bytes::le32((14 + dib.len()) as u32));
    assert(file.subrange(6, 10) =~= seq![0u8, 0, 0, 0]);
    assert(file.subrange(10, 14) =~= bytes::le32(pixel_offset(dib) as u32));
    assert(file.skip(14) =~= dib);
}

/// Bytes are a bitmap file exactly if they start with `BM` and go on behind the header.
pub proof fn bitmap_files_are_known_by_their_start(bmp: Seq<u8>)
    ensures
        bmp_error(bmp) is None <==> bmp.len() > 14 && bmp[0] == 0x42 && bmp[1] == 0x4d,
{
}

proof fn only_large_images_are_shrunk(last: ImageView, first: ImageView, steps: nat, limit_bytes: u64)
    requires
        is_shrunk(last, first, steps, limit_bytes),
        steps > 0,
    ensures
        step_of(first, limit_bytes) is Shrink,
    decreases steps,
{
    let image = choose|image: ImageView|
        is_shrunk(image, first, (steps - 1) as nat, limit_bytes) && #[trigger] is_next(
            image,
            last,
            limit_bytes,
        );
    if steps > 1 {
        only_large_images_are_shrunk(image, first, (steps - 1) as nat, limit_bytes);
    }
}

/// An image of allowed size whose encoding is within the limit is a content as it is encoded,
/// pixel by pixel: it is not made smaller. One of another size is refused.
pub proof fn small_images_are_not_shrunk(
    result: Result<ClipboardPayload, ClipboardError>,
    image: ImageView,
    limit_bytes: u64,
)
    requires
        is_reencoded(result, Ok(image), limit_bytes),
    ensures
        ({
            let encoded = png_encoding(image.width, image.height, image.pixels);
            let allowed = 1 <= image.width <= 16_384 && 1 <= image.height <= 16_384 && image.width
                * image.height <= 16_777_216;
            &&& allowed && encoded is Ok && encoded->Ok_0.len() <= limit_bytes ==> result is Ok
                && result->Ok_0@ == PayloadView::ImagePng(encoded->Ok_0)
            &&& allowed && encoded is Err ==> result is Err && result->Err_0@ == ErrorView::Backend(
                encoded->Err_0,
            )
            &&& !allowed ==> result is Err
            &&& result is Ok ==> result->Ok_0@ is ImagePng && result->Ok_0@->ImagePng_0.len()
                <= limit_bytes
        }),
{
    if dimension_error(image.width, image.height) is None {
        let (last, steps) = choose|last: ImageView, steps: nat|
            #[trigger] is_shrunk(last, image, steps, limit_bytes) && is_end(
                result,
                last,
                limit_bytes,
            );
        if steps > 0 {
            only_large_images_are_shrunk(last, image, steps, limit_bytes);
        }
    }
}

/// An image that can be read and is of allowed size is decoded to the pixels that it holds.
pub proof fn readable_images_are_decoded(encoded: Seq<u8>, kind: ImageKind, context: Seq<char>)
    requires
        encoded.len() <= 83_886_080,
        ({
            let header = encoded_dimensions(encoded, kind == ImageKind::Png, 16_384, 83_886_080);
            header is Ok && dimension_error(header->Ok_0.0, header->Ok_0.1) is None
        }),
    ensures
        ({
            let image = decoded_image(encoded, kind == ImageKind::Png, 16_384, 83_886_080);
            &&& image is Ok ==> decoding(encoded, kind, context) == Ok::<_, ErrorView>(
                ImageView {
                    width: image->Ok_0.0,
                    height: image->Ok_0.1,
                    pixels: image->Ok_0.2,
                },
            )
            &&& image is Err ==> decoding(encoded, kind, context) == Err::<ImageView, _>(
                ErrorView::Backend(context + ": "@ + image->Err_0),
            )
        }),
{
}

/// The bitmap that is put into a clipboard is that of the decoded image, without the header of
/// the file.
pub proof fn written_bitmaps_are_those_of_the_image(png: Seq<u8>, image: ImageView)
    requires
        decoding(png, ImageKind::Png, "decode png for windows image write"@) == Ok::<_, ErrorView>(
            image,
        ),
    ensures
        ({
            let bmp = bmp_encoding(image.width, image.height, image.pixels);
            bmp is Ok && bmp->Ok_0.len() > 14 && bmp->Ok_0[0] == 0x42 && bmp->Ok_0[1] == 0x4d
                ==> dib_outcome(png) == Ok::<_, ErrorView>(bmp->Ok_0.skip(14))
        }),
{
}

} // verus!
