//! Why the clipboard could not be read or written.

use crate::text;
use crate::text::decimal_text;
use vstd::prelude::*;

verus! {

/// Why the clipboard could not be read or written.
#[derive(Debug)]
pub enum ClipboardError {
    Backend(String),
    TooLarge { size_bytes: u64, limit_bytes: u64 },
    Unsupported,
}

/// An error as plain values.
#[verifier::ext_equal]
pub enum ErrorView {
    Backend(Seq<char>),
    TooLarge(u64, u64),
    Unsupported,
}

impl View for ClipboardError {
    type V = ErrorView;

    open spec fn view(&self) -> ErrorView {
        match self {
            ClipboardError::Backend(text) => ErrorView::Backend(text@),
            ClipboardError::TooLarge { size_bytes, limit_bytes } => ErrorView::TooLarge(
                *size_bytes,
                *limit_bytes,
            ),
            ClipboardError::Unsupported => ErrorView::Unsupported,
        }
    }
}

/// An error in words.
pub open spec fn error_text(e: ErrorView) -> Seq<char> {
    match e {
        ErrorView::Backend(text) => "clipboard backend error: "@ + text,
        ErrorView::TooLarge(size, limit) => "payload too large: size_bytes="@ + text::decimal(
            size as nat,
        ) + " limit_bytes="@ + text::decimal(limit as nat),
        ErrorView::Unsupported => "unsupported clipboard content"@,
    }
}

impl ClipboardError {
    /// The error in words.
    pub fn message(&self) -> (text: String)
        ensures
            text@ == error_text(self@),
    {
        match self {
            ClipboardError::Backend(error) => {
                let mut out: String = "clipboard backend error: ".to_owned();
                out.append(error);
                out
            },
            ClipboardError::TooLarge { size_bytes, limit_bytes } => {
                let mut out: String = "payload too large: size_bytes=".to_owned();
                out.append(&decimal_text(*size_bytes));
                out.append(" limit_bytes=");
                out.append(&decimal_text(*limit_bytes));
                out
            },
            ClipboardError::Unsupported => "unsupported clipboard content".to_owned(),
        }
    }
}

/// Refuses a content with given words.
pub(crate) fn backend(text: &str) -> (error: ClipboardError)
    ensures
        error@ == ErrorView::Backend(text@),
{
    ClipboardError::Backend(text.to_owned())
}

/// What was written to the clipboard, if that differs from the item.
#[derive(Debug)]
pub struct AppliedClipboardWrite {
    pub content_hash: Option<String>,
}

/// Refuses a content that is over the limit.
pub fn check_size(size_bytes: u64, limit_bytes: u64) -> (result: Result<(), ClipboardError>)
    ensures
        match result {
            Ok(_) => size_bytes <= limit_bytes,
            Err(e) => size_bytes > limit_bytes && e@ == ErrorView::TooLarge(
                size_bytes,
                limit_bytes,
            ),
        },
{
    if size_bytes > limit_bytes {
        Err(ClipboardError::TooLarge { size_bytes, limit_bytes })
    } else {
        Ok(())
    }
}

/// An error that is put in words says what it was: what failed, or which size was over which
/// limit.
pub proof fn errors_say_what_they_were(t: Seq<char>, size: u64, limit: u64)
    ensures
        error_text(ErrorView::Backend(t)) == "clipboard backend error: "@ + t,
        error_text(ErrorView::TooLarge(size, limit)) == "payload too large: size_bytes="@
            + text::decimal(size as nat) + " limit_bytes="@ + text::decimal(limit as nat),
        error_text(ErrorView::Unsupported) == "unsupported clipboard content"@,
{
}

} // verus!
