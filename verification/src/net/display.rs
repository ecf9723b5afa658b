//! How contents are described to the user.

use crate::protocol::{ClipboardPayload, PayloadView};
use crate::protocol;
use crate::text;
use crate::text::{chars_of, decimal_text, ends_with_text, lower_text, text_of, trim};
use vstd::prelude::*;

verus! {

/// The longest preview of a text in characters.
pub const PREVIEW_CHARACTERS: usize = 20_000;

/// A name ends like that of a file with text in it.
pub open spec fn is_text_file_name(name: Seq<char>) -> bool {
    let lower = text::ascii_lowered(text::trimmed(name));
    ||| ".txt"@.is_suffix_of(lower)
    ||| ".md"@.is_suffix_of(lower)
    ||| ".markdown"@.is_suffix_of(lower)
    ||| ".json"@.is_suffix_of(lower)
    ||| ".yaml"@.is_suffix_of(lower)
    ||| ".yml"@.is_suffix_of(lower)
    ||| ".toml"@.is_suffix_of(lower)
    ||| ".ini"@.is_suffix_of(lower)
    ||| ".csv"@.is_suffix_of(lower)
    ||| ".log"@.is_suffix_of(lower)
    ||| ".xml"@.is_suffix_of(lower)
    ||| ".html"@.is_suffix_of(lower)
    ||| ".css"@.is_suffix_of(lower)
    ||| ".js"@.is_suffix_of(lower)
    ||| ".ts"@.is_suffix_of(lower)
    ||| ".tsx"@.is_suffix_of(lower)
    ||| ".jsx"@.is_suffix_of(lower)
    ||| ".rs"@.is_suffix_of(lower)
    ||| ".py"@.is_suffix_of(lower)
    ||| ".java"@.is_suffix_of(lower)
    ||| ".c"@.is_suffix_of(lower)
    ||| ".cpp"@.is_suffix_of(lower)
    ||| ".h"@.is_suffix_of(lower)
    ||| ".hpp"@.is_suffix_of(lower)
    ||| ".go"@.is_suffix_of(lower)
    ||| ".sh"@.is_suffix_of(lower)
}

/// All names are those of files with text in them.
pub open spec fn are_text_files(names: Seq<Seq<char>>) -> bool {
    forall|i: int| 0 <= i < names.len() ==> is_text_file_name(#[trigger] names[i])
}

/// What files are called.
pub open spec fn files_label(names: Seq<Seq<char>>) -> Seq<char> {
    if are_text_files(names) {
        "文本文件"@
    } else {
        "文件"@
    }
}

/// How files are described: the first name, and how many more there are.
pub open spec fn files_summary(names: Seq<Seq<char>>) -> Seq<char> {
    if names.len() == 0 {
        "文件"@
    } else if names.len() == 1 {
        files_label(names) + "："@ + names[0]
    } else {
        files_label(names) + "："@ + names[0] + " +"@ + text::decimal((names.len() - 1) as nat)
    }
}

/// The start of a text, without white space around it.
pub open spec fn snippet(value: Seq<char>, limit: int) -> Seq<char> {
    let s = text::trimmed(value);
    if s.len() > limit {
        s.take(limit) + "…"@
    } else {
        s
    }
}

/// The start of a text, or a word for it where there is nothing to show.
pub open spec fn preview(value: Seq<char>, word: Seq<char>) -> Seq<char> {
    let s = snippet(value, PREVIEW_CHARACTERS as int);
    if s.len() == 0 {
        word
    } else {
        s
    }
}

/// What a content is called.
pub open spec fn label(payload: PayloadView) -> Seq<char> {
    match payload {
        PayloadView::Text(_) => "直接复制文字"@,
        PayloadView::ImagePng(_) => "图片"@,
        PayloadView::FileBundleDir(_, names) => files_label(names),
        PayloadView::FileList(_, names, _) => files_label(names),
        PayloadView::Html(_) => "HTML 富文本"@,
        PayloadView::Rtf(_) => "RTF 富文本"@,
    }
}

/// How a content is described.
pub open spec fn summary(payload: PayloadView) -> Seq<char> {
    match payload {
        PayloadView::Text(s) => preview(s, "直接复制文字"@),
        PayloadView::ImagePng(_) => "图片 PNG"@,
        PayloadView::FileBundleDir(_, names) => files_summary(names),
        PayloadView::FileList(_, names, _) => files_summary(names),
        PayloadView::Html(s) => preview(s, "HTML"@),
        PayloadView::Rtf(s) => preview(s, "RTF"@),
    }
}

/// Tells whether a name ends like that of a file with text in it.
pub fn looks_like_text_file(name: &str) -> (text_file: bool)
    ensures
        text_file == is_text_file_name(name@),
{
    let trimmed = trim(name);
    let lower = lower_text(&trimmed);
    ends_with_text(&lower, ".txt")
        || ends_with_text(&lower, ".md")
        || ends_with_text(&lower, ".markdown")
        || ends_with_text(&lower, ".json")
        || ends_with_text(&lower, ".yaml")
        || ends_with_text(&lower, ".yml")
        || ends_with_text(&lower, ".toml")
        || ends_with_text(&lower, ".ini")
        || ends_with_text(&lower, ".csv")
        || ends_with_text(&lower, ".log")
        || ends_with_text(&lower, ".xml")
        || ends_with_text(&lower, ".html")
        || ends_with_text(&lower, ".css")
        || ends_with_text(&lower, ".js")
        || ends_with_text(&lower, ".ts")
        || ends_with_text(&lower, ".tsx")
        || ends_with_text(&lower, ".jsx")
        || ends_with_text(&lower, ".rs")
        || ends_with_text(&lower, ".py")
        || ends_with_text(&lower, ".java")
        || ends_with_text(&lower, ".c")
        || ends_with_text(&lower, ".cpp")
        || ends_with_text(&lower, ".h")
        || ends_with_text(&lower, ".hpp")
        || ends_with_text(&lower, ".go")
        || ends_with_text(&lower, ".sh")
}

/// What the files of a stream are called.
pub fn file_stream_label(top_level_names: &Vec<String>) -> (text: String)
    ensures
        text@ == files_label(protocol::texts(top_level_names@)),
{
    let ghost names = protocol::texts(top_level_names@);
    let mut i: usize = 0;
    while i < top_level_names.len()
        invariant
            i <= top_level_names.len(),
            names == protocol::texts(top_level_names@),
            forall|j: int| 0 <= j < i ==> is_text_file_name(#[trigger] names[j]),
        decreases top_level_names.len() - i,
    {
        assert(names[i as int] == top_level_names@[i as int]@);
        if !looks_like_text_file(&top_level_names[i]) {
            return "文件".to_owned();
        }
        i = i + 1;
    }
    "文本文件".to_owned()
}

/// How the files of a stream are described.
pub fn file_stream_summary(top_level_names: &Vec<String>) -> (text: String)
    ensures
        text@ == files_summary(protocol::texts(top_level_names@)),
{
    if top_level_names.len() == 0 {
        return "文件".to_owned();
    }
    let mut text = file_stream_label(top_level_names);
    text.append("：");
    text.append(&top_level_names[0]);
    if top_level_names.len() > 1 {
        text.append(" +");
        text.append(&decimal_text((top_level_names.len() - 1) as u64));
    }
    text
}

fn text_preview_snippet(value: &str, limit: usize) -> (text: String)
    ensures
        text@ == snippet(value@, limit as int),
{
    let trimmed = trim(value);
    let chars = chars_of(&trimmed);
    if chars.len() > limit {
        let mut text = text_of(&chars, 0, limit);
        text.append("…");
        assert(chars@.subrange(0, limit as int) =~= chars@.take(limit as int));
        text
    } else {
        trimmed
    }
}

fn preview_or(value: &str, word: &str) -> (text: String)
    ensures
        text@ == preview(value@, word@),
{
    let snippet = text_preview_snippet(value, PREVIEW_CHARACTERS);
    if snippet.as_str().is_empty() {
        word.to_owned()
    } else {
        snippet
    }
}

/// What a content is called.
pub fn payload_label(payload: &ClipboardPayload) -> (text: String)
    ensures
        text@ == label(payload@),
{
    match payload {
        ClipboardPayload::Text { .. } => "直接复制文字".to_owned(),
        ClipboardPayload::ImagePng { .. } => "图片".to_owned(),
        ClipboardPayload::FileBundleDir { top_level_names, .. } => file_stream_label(
            top_level_names,
        ),
        ClipboardPayload::FileList { top_level_names, .. } => file_stream_label(top_level_names),
        ClipboardPayload::Html { .. } => "HTML 富文本".to_owned(),
        ClipboardPayload::Rtf { .. } => "RTF 富文本".to_owned(),
    }
}

/// How a content is described.
pub fn payload_summary(payload: &ClipboardPayload) -> (text: String)
    ensures
        text@ == summary(payload@),
{
    match payload {
        ClipboardPayload::Text { text } => preview_or(text, "直接复制文字"),
        ClipboardPayload::ImagePng { .. } => "图片 PNG".to_owned(),
        ClipboardPayload::FileBundleDir { top_level_names, .. } => file_stream_summary(
            top_level_names,
        ),
        ClipboardPayload::FileList { top_level_names, .. } => file_stream_summary(top_level_names),
        ClipboardPayload::Html { html } => preview_or(html, "HTML"),
        ClipboardPayload::Rtf { rtf } => preview_or(rtf, "RTF"),
    }
}

/// A text of up to 20000 characters is shown whole, without the white space around it; of a
/// longer one as many are shown and a sign that there is more.
pub proof fn short_texts_are_shown_whole(s: Seq<char>)
    ensures
        ({
            let t = text::trimmed(s);
            let shown = summary(PayloadView::Text(s));
            &&& 0 < t.len() <= 20_000 ==> shown == t
            &&& t.len() > 20_000 ==> shown.len() == 20_001 && shown.take(20_000) == t.take(20_000)
                && shown.last() == '…'
            &&& t.len() == 0 ==> shown == "直接复制文字"@
            &&& 0 < t.len() <= 20_000 ==> summary(PayloadView::Html(s)) == t && summary(
                PayloadView::Rtf(s),
            ) == t
        }),
{
    let t = text::trimmed(s);
    if t.len() > 20_000 {
        reveal_strlit("…");
        let shown = summary(PayloadView::Text(s));
        assert(shown == t.take(20_000) + "…"@);
        assert(shown.take(20_000) =~= t.take(20_000));
    }
}

/// Each kind of content has its name.
pub proof fn contents_are_called_by_their_kind(payload: PayloadView)
    ensures
        payload is Text ==> label(payload) == "直接复制文字"@,
        payload is ImagePng ==> label(payload) == "图片"@ && summary(payload) == "图片 PNG"@,
        payload is Html ==> label(payload) == "HTML 富文本"@,
        payload is Rtf ==> label(payload) == "RTF 富文本"@,
        payload is FileBundleDir || payload is FileList ==> label(payload) == "文本文件"@ || label(
            payload,
        ) == "文件"@,
{
}

/// Files are described by the first name and by how many more there are; they are called text
/// files only if every one of them is one.
pub proof fn files_are_described_by_the_first(names: Seq<Seq<char>>, i: int)
    requires
        0 <= i < names.len(),
    ensures
        names.len() == 1 ==> files_summary(names) == files_label(names) + "："@ + names[0],
        names.len() > 1 ==> files_summary(names) == files_label(names) + "："@ + names[0] + " +"@
            + text::decimal((names.len() - 1) as nat),
        !is_text_file_name(names[i]) ==> files_label(names) == "文件"@,
        (forall|k: int| 0 <= k < names.len() ==> is_text_file_name(#[trigger] names[k]))
            ==> files_label(names) == "文本文件"@,
{
}

} // verus!
