//! Reading and writing the clipboard of this device.
//!
//! A clipboard offers its content in several forms at once. Files come before images,
//! images before formatted text, and formatted text before plain text.

pub mod archive;
pub mod file_access;
pub mod files;
pub mod fingerprint;
pub mod image_payload;
pub mod path_policy;
pub mod plain_text;
pub mod rich_text;
pub mod types;

use crate::clipboard::files::encode_file_bundle_payload;
use crate::clipboard::image_payload::{encode_image_payload, ImageView, RgbaImage};
use crate::clipboard::types::{backend, check_size, ClipboardError, ErrorView};
use crate::net::item;
use crate::net::item::size_of;
use crate::protocol;
use crate::protocol::{clone_texts, ClipboardItem, ClipboardPayload, ItemView, PayloadView};
use crate::text::byte_len;
use vstd::prelude::*;
use vstd::utf8::*;

verus! {

/// How often the clipboard is tried.
pub const CLIPBOARD_IO_RETRIES: usize = 10;

/// The pause between two tries.
pub const CLIPBOARD_IO_DELAY_MS: u64 = 40;

/// Files that the clipboard offers.
#[derive(Debug)]
pub struct OfferedFiles {
    pub paths: Vec<String>,
    pub top_level_names: Vec<String>,
    pub archive_bytes: u64,
}

/// What the clipboard offers. A form that was not asked for, because an earlier one is
/// there, is missing.
#[derive(Debug)]
pub struct ClipboardOffer {
    pub files: Result<Option<OfferedFiles>, ClipboardError>,
    /// An image in the form of the platform.
    pub native_image: Result<Option<ClipboardPayload>, ClipboardError>,
    /// Whether the clipboard could be opened for the forms that follow.
    pub opened: Result<(), ClipboardError>,
    pub image: Option<RgbaImage>,
    pub rich_text: Result<Option<ClipboardPayload>, ClipboardError>,
    pub text: Option<String>,
}

/// A result is a given refusal.
pub open spec fn is_refused(result: Result<ClipboardPayload, ClipboardError>, e: ErrorView) -> bool {
    result is Err && result->Err_0@ == e
}

/// A result is what offered files make.
pub open spec fn is_file_snapshot(
    result: Result<ClipboardPayload, ClipboardError>,
    files: OfferedFiles,
    limit_bytes: u64,
) -> bool {
    match files::file_list_error(
        protocol::texts(files.top_level_names@),
        files.archive_bytes,
        limit_bytes,
    ) {
        Some(e) => is_refused(result, e),
        None => result is Ok && result->Ok_0@ == PayloadView::FileList(
            protocol::texts(files.paths@),
            protocol::texts(files.top_level_names@),
            files.archive_bytes,
        ),
    }
}

/// How many bytes the pixels of an image take.
pub open spec fn pixel_bytes(image: ImageView) -> int {
    image.width * image.height * 4
}

/// An image without bytes behind its pixels.
pub open spec fn cut_to_pixels(image: ImageView) -> ImageView {
    ImageView { pixels: image.pixels.take(pixel_bytes(image)), ..image }
}

/// A result is what an offered image makes. Without all of its pixels it is refused; bytes
/// behind its pixels are no part of it.
pub open spec fn is_image_snapshot(
    result: Result<ClipboardPayload, ClipboardError>,
    image: RgbaImage,
    limit_bytes: u64,
) -> bool {
    if image@.pixels.len() < pixel_bytes(image@) {
        is_refused(result, ErrorView::Backend("invalid image buffer"@))
    } else {
        image_payload::is_reencoded(result, Ok(cut_to_pixels(image@)), limit_bytes)
    }
}

/// A result is what an offered text makes, or a refusal if there is none.
pub open spec fn is_text_snapshot(
    result: Result<ClipboardPayload, ClipboardError>,
    text: Option<String>,
    limit_bytes: u64,
) -> bool {
    match text {
        Some(t) => if encode_utf8(t@).len() > limit_bytes {
            is_refused(
                result,
                ErrorView::TooLarge(encode_utf8(t@).len() as u64, limit_bytes),
            )
        } else {
            result is Ok && result->Ok_0@ == PayloadView::Text(t@)
        },
        None => is_refused(result, ErrorView::Unsupported),
    }
}

/// An image in the form in which it is sent.
pub open spec fn is_image(payload: PayloadView) -> bool {
    payload is ImagePng
}

/// Formatted text.
pub open spec fn is_rich_text(payload: PayloadView) -> bool {
    payload is Html || payload is Rtf
}

/// A result is an offered content, if that is of a given kind and within the limit.
pub open spec fn is_passed_on(
    result: Result<ClipboardPayload, ClipboardError>,
    payload: PayloadView,
    of_kind: bool,
    limit_bytes: u64,
) -> bool {
    let size_bytes = item::content_size(payload, 0);
    if !of_kind {
        is_refused(result, ErrorView::Unsupported)
    } else if size_bytes > limit_bytes {
        is_refused(result, ErrorView::TooLarge(size_bytes, limit_bytes))
    } else {
        result is Ok && result->Ok_0@ == payload
    }
}

/// A result is what the forms after the files make.
pub open spec fn is_other_snapshot(
    result: Result<ClipboardPayload, ClipboardError>,
    offer: ClipboardOffer,
    limit_bytes: u64,
) -> bool {
    match offer.native_image {
        Err(e) => is_refused(result, e@),
        Ok(Some(payload)) => is_passed_on(result, payload@, is_image(payload@), limit_bytes),
        Ok(None) => match (offer.opened, offer.image) {
            (Err(e), _) => is_refused(result, e@),
            (Ok(_), Some(image)) => is_image_snapshot(result, image, limit_bytes),
            (Ok(_), None) => match offer.rich_text {
                Err(e) => is_refused(result, e@),
                Ok(Some(payload)) => is_passed_on(
                    result,
                    payload@,
                    is_rich_text(payload@),
                    limit_bytes,
                ),
                Ok(None) => is_text_snapshot(result, offer.text, limit_bytes),
            },
        },
    }
}

/// A content can be sent: it is within the limit and no bundle that was received; it
/// consists of files exactly if files were offered, and is plain text only if nothing
/// else was.
pub open spec fn is_snapshot_of(
    payload: PayloadView,
    offer: ClipboardOffer,
    limit_bytes: u64,
) -> bool {
    let files_offered = offer.files is Ok && offer.files->Ok_0 is Some;
    let image_offered = offer.native_image != Ok::<_, ClipboardError>(None::<ClipboardPayload>)
        || offer.image is Some;
    let rich_text_offered = offer.rich_text != Ok::<_, ClipboardError>(None::<ClipboardPayload>);
    &&& item::content_size(payload, 0) <= limit_bytes
    &&& !(payload is FileBundleDir)
    &&& (payload is FileList <==> files_offered)
    &&& (payload is Text ==> !files_offered && !image_offered && !rich_text_offered)
}

/// No form of the image is offered.
pub open spec fn offers_no_image(offer: ClipboardOffer) -> bool {
    offer.native_image == Ok::<_, ClipboardError>(None::<ClipboardPayload>) && offer.image is None
}

/// A content is what was offered, letter by letter and byte by byte: a text is the offered
/// text, formatted text the offered formatted text, files the offered files in their order.
/// What is offered in one of these forms, and in none that goes before, is read if it is
/// within the limit; plain text without formatted text and without images, for instance.
pub open spec fn is_unchanged(
    result: Result<ClipboardPayload, ClipboardError>,
    offer: ClipboardOffer,
    limit_bytes: u64,
) -> bool {
    let no_files = offer.files == Ok::<_, ClipboardError>(None::<OfferedFiles>);
    let no_rich_text = offer.rich_text == Ok::<_, ClipboardError>(None::<ClipboardPayload>);
    &&& result is Ok && result->Ok_0@ is Text ==> offer.text is Some && result->Ok_0@
        == PayloadView::Text(offer.text->Some_0@)
    &&& result is Ok && (result->Ok_0@ is Html || result->Ok_0@ is Rtf) ==> offer.rich_text is Ok
        && offer.rich_text->Ok_0 is Some && result->Ok_0@ == offer.rich_text->Ok_0->Some_0@
    &&& result is Ok && result->Ok_0@ is FileList ==> {
        let files = offer.files->Ok_0->Some_0;
        &&& offer.files is Ok && offer.files->Ok_0 is Some
        &&& result->Ok_0@ == PayloadView::FileList(
            protocol::texts(files.paths@),
            protocol::texts(files.top_level_names@),
            files.archive_bytes,
        )
    }
    &&& no_files && offers_no_image(offer) && offer.opened is Ok && no_rich_text
        && offer.text is Some ==> {
        let t = offer.text->Some_0@;
        if encode_utf8(t).len() <= limit_bytes {
            result is Ok && result->Ok_0@ == PayloadView::Text(t)
        } else {
            result is Err && result->Err_0@ == ErrorView::TooLarge(
                encode_utf8(t).len() as u64,
                limit_bytes,
            )
        }
    }
    &&& no_files && offers_no_image(offer) && offer.opened is Ok && offer.rich_text is Ok ==> match (
    offer.rich_text->Ok_0) {
        Some(ClipboardPayload::Html { html }) if encode_utf8(html@).len() <= limit_bytes => {
            result is Ok && result->Ok_0@ == PayloadView::Html(html@)
        },
        Some(ClipboardPayload::Rtf { rtf }) if encode_utf8(rtf@).len() <= limit_bytes => {
            result is Ok && result->Ok_0@ == PayloadView::Rtf(rtf@)
        },
        _ => true,
    }
    &&& no_files && offer.native_image is Ok ==> match offer.native_image->Ok_0 {
        Some(ClipboardPayload::ImagePng { png_bytes }) if png_bytes@.len() <= limit_bytes => {
            result is Ok && result->Ok_0@ == PayloadView::ImagePng(png_bytes@)
        },
        _ => true,
    }
}

fn pass_on(payload: ClipboardPayload, of_kind: bool, limit_bytes: u64) -> (result: Result<
    ClipboardPayload,
    ClipboardError,
>)
    ensures
        is_passed_on(result, payload@, of_kind, limit_bytes),
{
    if !of_kind {
        return Err(ClipboardError::Unsupported);
    }
    match check_size(size_of(&payload, 0), limit_bytes) {
        Ok(_) => Ok(payload),
        Err(e) => Err(e),
    }
}

/// Makes a content of what the clipboard offers, by the first form that is there. It is
/// within the limit, and it is never a bundle that was received.
pub fn read_snapshot(offer: ClipboardOffer, limit_bytes: u64) -> (result: Result<
    ClipboardPayload,
    ClipboardError,
>)
    ensures
        match offer.files {
            Err(e) => is_refused(result, e@),
            Ok(Some(files)) => is_file_snapshot(result, files, limit_bytes),
            Ok(None) => is_other_snapshot(result, offer, limit_bytes),
        },
        result is Ok ==> is_snapshot_of(result->Ok_0@, offer, limit_bytes),
        is_unchanged(result, offer, limit_bytes),
{
    match offer.files {
        Err(e) => return Err(e),
        Ok(Some(files)) => {
            return encode_file_bundle_payload(
                files.paths,
                files.top_level_names,
                files.archive_bytes,
                limit_bytes,
            );
        },
        Ok(None) => {},
    }
    match offer.native_image {
        Err(e) => return Err(e),
        Ok(Some(payload)) => {
            let image = match &payload {
                ClipboardPayload::ImagePng { .. } => true,
                _ => false,
            };
            return pass_on(payload, image, limit_bytes);
        },
        Ok(None) => {},
    }
    if let Err(e) = offer.opened {
        return Err(e);
    }
    if let Some(offered) = offer.image {
        let mut image = offered;
        proof {
            pixels_are_counted(image.width, image.height);
        }
        let pixels: u64 = image.width as u64 * image.height as u64;
        let length: u64 = image.pixels.len() as u64;
        let needed: u64 = match pixels.checked_mul(4) {
            Some(needed) => needed,
            None => return Err(backend("invalid image buffer")),
        };
        if length < needed {
            return Err(backend("invalid image buffer"));
        }
        image.pixels.truncate(needed as usize);
        assert(image@ =~= cut_to_pixels(offered@));
        return encode_image_payload(image, limit_bytes);
    }
    match offer.rich_text {
        Err(e) => return Err(e),
        Ok(Some(payload)) => {
            let rich_text = match &payload {
                ClipboardPayload::Html { .. } => true,
                ClipboardPayload::Rtf { .. } => true,
                _ => false,
            };
            return pass_on(payload, rich_text, limit_bytes);
        },
        Ok(None) => {},
    }
    match offer.text {
        Some(text) => {
            if let Err(e) = check_size(byte_len(&text) as u64, limit_bytes) {
                return Err(e);
            }
            Ok(ClipboardPayload::Text { text })
        },
        None => Err(ClipboardError::Unsupported),
    }
}

proof fn pixels_are_counted(width: u32, height: u32)
    ensures
        0 <= width * height <= u32::MAX * u32::MAX,
{
    assert(0 <= width * height <= u32::MAX * u32::MAX) by (nonlinear_arith)
        requires
            0 <= width <= u32::MAX,
            0 <= height <= u32::MAX,
    ;
}

/// What is to be put into the clipboard.
#[derive(Debug)]
pub enum ClipboardWrite {
    Text(String),
    Image(Vec<u8>),
    Bundle { bundle_dir: String, top_level_names: Vec<String> },
    Html(String),
    Rtf(String),
}

/// What is to be put into the clipboard, as a content.
pub open spec fn write_view(write: ClipboardWrite) -> PayloadView {
    match write {
        ClipboardWrite::Text(t) => PayloadView::Text(t@),
        ClipboardWrite::Image(b) => PayloadView::ImagePng(b@),
        ClipboardWrite::Bundle { bundle_dir, top_level_names } => PayloadView::FileBundleDir(
            bundle_dir@,
            protocol::texts(top_level_names@),
        ),
        ClipboardWrite::Html(t) => PayloadView::Html(t@),
        ClipboardWrite::Rtf(t) => PayloadView::Rtf(t@),
    }
}

/// Why an item is not put into the clipboard, if it is not.
pub open spec fn write_error(item: ItemView, limit_bytes: u64) -> Option<ErrorView> {
    if item.size_bytes > limit_bytes {
        Some(ErrorView::TooLarge(item.size_bytes, limit_bytes))
    } else if item.payload is FileList {
        Some(ErrorView::Unsupported)
    } else {
        None
    }
}

/// Decides what is put into the clipboard for an item. Paths of another machine are
/// nothing that can be put there.
pub fn write_item(item: &ClipboardItem, limit_bytes: u64) -> (result: Result<
    ClipboardWrite,
    ClipboardError,
>)
    ensures
        match result {
            Ok(write) => write_error(item@, limit_bytes) is None && write_view(write)
                == item@.payload,
            Err(e) => write_error(item@, limit_bytes) == Some(e@),
        },
        result is Ok ==> match item@.payload {
            PayloadView::Text(t) => result->Ok_0 is Text && result->Ok_0->Text_0@ == t,
            PayloadView::ImagePng(b) => result->Ok_0 is Image && result->Ok_0->Image_0@ == b,
            PayloadView::FileBundleDir(dir, names) => {
                &&& result->Ok_0 is Bundle
                &&& result->Ok_0->bundle_dir@ == dir
                &&& protocol::texts(result->Ok_0->top_level_names@) == names
            },
            PayloadView::FileList(_, _, _) => false,
            PayloadView::Html(t) => result->Ok_0 is Html && result->Ok_0->Html_0@ == t,
            PayloadView::Rtf(t) => result->Ok_0 is Rtf && result->Ok_0->Rtf_0@ == t,
        },
        result is Ok <==> item@.size_bytes <= limit_bytes && !(item@.payload is FileList),
{
    if let Err(e) = check_size(item.size_bytes, limit_bytes) {
        return Err(e);
    }
    match &item.payload {
        ClipboardPayload::Text { text } => Ok(ClipboardWrite::Text(text.clone())),
        ClipboardPayload::ImagePng { png_bytes } => Ok(
            ClipboardWrite::Image(crate::bytes::copy_range(png_bytes, 0, png_bytes.len())),
        ),
        ClipboardPayload::FileBundleDir { bundle_dir, top_level_names } => Ok(
            ClipboardWrite::Bundle {
                bundle_dir: bundle_dir.clone(),
                top_level_names: clone_texts(top_level_names),
            },
        ),
        ClipboardPayload::FileList { .. } => Err(ClipboardError::Unsupported),
        ClipboardPayload::Html { html } => Ok(ClipboardWrite::Html(html.clone())),
        ClipboardPayload::Rtf { rtf } => Ok(ClipboardWrite::Rtf(rtf.clone())),
    }
}

/// What follows a try to use the clipboard.
#[derive(Debug)]
pub enum RetryStep<T> {
    Done(Result<T, ClipboardError>),
    /// Try again after a pause.
    Again(u64),
}

/// A try is to be repeated: the clipboard failed, and it was not the last try.
pub open spec fn is_retried<T>(attempt: usize, outcome: Result<T, ClipboardError>) -> bool {
    outcome is Err && outcome->Err_0@ is Backend && attempt + 1 < CLIPBOARD_IO_RETRIES
}

/// Decides whether the clipboard is tried again. Tries are counted from zero.
pub fn retry_clipboard_io<T>(attempt: usize, outcome: Result<T, ClipboardError>) -> (step: RetryStep<
    T,
>)
    ensures
        step == if is_retried(attempt, outcome) {
            RetryStep::Again(CLIPBOARD_IO_DELAY_MS)
        } else {
            RetryStep::Done(outcome)
        },
        outcome is Err && outcome->Err_0@ is Backend && attempt < 9 ==> step == RetryStep::<T>::Again(
            40,
        ),
        outcome is Ok || !(outcome->Err_0@ is Backend) || attempt >= 9 ==> step == RetryStep::Done(
            outcome,
        ),
{
    let again = match &outcome {
        Err(ClipboardError::Backend(_)) => attempt < CLIPBOARD_IO_RETRIES - 1,
        _ => false,
    };
    if again {
        RetryStep::Again(CLIPBOARD_IO_DELAY_MS)
    } else {
        RetryStep::Done(outcome)
    }
}

/// Where the clipboard offers files, they are the content, and only if their archive is
/// within the limit.
pub proof fn files_come_first(
    result: Result<ClipboardPayload, ClipboardError>,
    files: OfferedFiles,
    limit_bytes: u64,
)
    requires
        is_file_snapshot(result, files, limit_bytes),
    ensures
        result is Ok ==> result->Ok_0@ is FileList && result->Ok_0@->FileList_2 <= limit_bytes,
{
}

/// What was offered as plain text alone, and is within the limit, is read as it stands: no
/// blank, no line break and no other character is lost or added, at the ends or elsewhere.
pub proof fn plain_text_is_read_as_it_stands(
    result: Result<ClipboardPayload, ClipboardError>,
    offer: ClipboardOffer,
    limit_bytes: u64,
)
    requires
        offer.files == Ok::<_, ClipboardError>(None::<OfferedFiles>),
        offer.native_image == Ok::<_, ClipboardError>(None::<ClipboardPayload>),
        offer.opened is Ok,
        offer.image is None,
        offer.rich_text == Ok::<_, ClipboardError>(None::<ClipboardPayload>),
        offer.text is Some,
        is_other_snapshot(result, offer, limit_bytes),
    ensures
        result is Ok <==> encode_utf8(offer.text->Some_0@).len() <= limit_bytes,
        result is Ok ==> result->Ok_0@ == PayloadView::Text(offer.text->Some_0@),
        result is Err ==> result->Err_0@ == ErrorView::TooLarge(
            encode_utf8(offer.text->Some_0@).len() as u64,
            limit_bytes,
        ),
{
}

/// Formatted text within the limit is read as it stands, and so is an image in the form of
/// the platform.
pub proof fn rich_text_and_images_are_read_as_they_stand(
    result: Result<ClipboardPayload, ClipboardError>,
    offer: ClipboardOffer,
    payload: ClipboardPayload,
    limit_bytes: u64,
)
    requires
        is_other_snapshot(result, offer, limit_bytes),
        match payload@ {
            PayloadView::Html(t) => encode_utf8(t).len() <= limit_bytes,
            PayloadView::Rtf(t) => encode_utf8(t).len() <= limit_bytes,
            PayloadView::ImagePng(b) => b.len() <= limit_bytes,
            _ => false,
        },
        payload@ is ImagePng ==> offer.native_image == Ok::<_, ClipboardError>(Some(payload)),
        !(payload@ is ImagePng) ==> offers_no_image(offer) && offer.opened is Ok && offer.rich_text
            == Ok::<_, ClipboardError>(Some(payload)),
    ensures
        result is Ok,
        result->Ok_0@ == payload@,
{
}

/// A content that was read from one clipboard is put into another as it stands, unless it
/// consists of paths, which mean nothing there.
pub proof fn what_is_read_can_be_put_back(write: ClipboardWrite, item: ItemView, limit_bytes: u64)
    requires
        write_error(item, limit_bytes) is None,
        write_view(write) == item.payload,
    ensures
        item.size_bytes <= limit_bytes,
        item.payload is Text ==> write == ClipboardWrite::Text(write->Text_0) && write->Text_0@
            == item.payload->Text_0,
        item.payload is Html ==> write == ClipboardWrite::Html(write->Html_0) && write->Html_0@
            == item.payload->Html_0,
        item.payload is Rtf ==> write == ClipboardWrite::Rtf(write->Rtf_0) && write->Rtf_0@
            == item.payload->Rtf_0,
        item.payload is ImagePng ==> write == ClipboardWrite::Image(write->Image_0)
            && write->Image_0@ == item.payload->ImagePng_0,
{
}

/// Everything within the limit but paths can be put into the clipboard.
pub proof fn only_paths_and_large_items_are_refused(item: ItemView, limit_bytes: u64)
    ensures
        write_error(item, limit_bytes) is None <==> item.size_bytes <= limit_bytes && !(
        item.payload is FileList),
        item.size_bytes > limit_bytes ==> write_error(item, limit_bytes) == Some(
            ErrorView::TooLarge(item.size_bytes, limit_bytes),
        ),
        item.size_bytes <= limit_bytes && item.payload is FileList ==> write_error(
            item,
            limit_bytes,
        ) == Some(ErrorView::Unsupported),
{
}

/// An image of allowed size with all of its pixels is read as it is encoded if that is within
/// the limit; bytes behind its pixels do not count, and without all of them it is refused.
pub proof fn complete_images_are_read(
    result: Result<ClipboardPayload, ClipboardError>,
    image: RgbaImage,
    limit_bytes: u64,
)
    requires
        is_image_snapshot(result, image, limit_bytes),
        1 <= image.width <= 16_384,
        1 <= image.height <= 16_384,
        image.width * image.height <= 16_777_216,
    ensures
        ({
            let needed = image.width * image.height * 4;
            let encoded = image_payload::png_encoding(
                image.width,
                image.height,
                image.pixels@.take(needed),
            );
            &&& image.pixels@.len() < needed ==> result is Err && result->Err_0@
                == ErrorView::Backend("invalid image buffer"@)
            &&& image.pixels@.len() >= needed && encoded is Ok && encoded->Ok_0.len() <= limit_bytes
                ==> result is Ok && result->Ok_0@ == PayloadView::ImagePng(encoded->Ok_0)
        }),
{
    if image@.pixels.len() >= pixel_bytes(image@) {
        image_payload::small_images_are_not_shrunk(result, cut_to_pixels(image@), limit_bytes);
    }
}

/// Files whose names travel together and whose archive is within the limit are read as they were
/// offered, in their order.
pub proof fn files_are_read_as_offered(
    result: Result<ClipboardPayload, ClipboardError>,
    files: OfferedFiles,
    limit_bytes: u64,
)
    requires
        is_file_snapshot(result, files, limit_bytes),
    ensures
        result is Ok <==> files.archive_bytes <= limit_bytes && path_policy::names_error(
            protocol::texts(files.top_level_names@),
        ) is None,
        result is Ok ==> result->Ok_0@ == PayloadView::FileList(
            protocol::texts(files.paths@),
            protocol::texts(files.top_level_names@),
            files.archive_bytes,
        ),
{
}

} // verus!
