//! Clipboard contents as this device holds them.

use vstd::prelude::*;

verus! {

/// One clipboard content.
///
/// Some kinds hold paths of this machine, which must never reach the network.
#[derive(Debug)]
pub enum ClipboardPayload {
    Text { text: String },
    ImagePng { png_bytes: Vec<u8> },
    FileBundleDir { bundle_dir: String, top_level_names: Vec<String> },
    FileList { paths: Vec<String>, top_level_names: Vec<String>, estimated_archive_bytes: u64 },
    Html { html: String },
    Rtf { rtf: String },
}

/// A clipboard content with its origin.
#[derive(Debug)]
pub struct ClipboardItem {
    pub id: String,
    pub content_hash: String,
    pub created_at_us: u64,
    pub source_device_id: String,
    pub size_bytes: u64,
    pub payload: ClipboardPayload,
}

/// Several texts as plain values.
pub open spec fn texts(v: Seq<String>) -> Seq<Seq<char>> {
    v.map_values(|s: String| s@)
}

/// A clipboard content as plain values.
#[verifier::ext_equal]
pub enum PayloadView {
    Text(Seq<char>),
    ImagePng(Seq<u8>),
    FileBundleDir(Seq<char>, Seq<Seq<char>>),
    FileList(Seq<Seq<char>>, Seq<Seq<char>>, u64),
    Html(Seq<char>),
    Rtf(Seq<char>),
}

impl View for ClipboardPayload {
    type V = PayloadView;

    open spec fn view(&self) -> PayloadView {
        match self {
            ClipboardPayload::Text { text } => PayloadView::Text(text@),
            ClipboardPayload::ImagePng { png_bytes } => PayloadView::ImagePng(png_bytes@),
            ClipboardPayload::FileBundleDir { bundle_dir, top_level_names } => {
                PayloadView::FileBundleDir(bundle_dir@, texts(top_level_names@))
            },
            ClipboardPayload::FileList { paths, top_level_names, estimated_archive_bytes } => {
                PayloadView::FileList(
                    texts(paths@),
                    texts(top_level_names@),
                    *estimated_archive_bytes,
                )
            },
            ClipboardPayload::Html { html } => PayloadView::Html(html@),
            ClipboardPayload::Rtf { rtf } => PayloadView::Rtf(rtf@),
        }
    }
}

/// A clipboard item as plain values.
#[verifier::ext_equal]
pub struct ItemView {
    pub id: Seq<char>,
    pub content_hash: Seq<char>,
    pub created_at_us: u64,
    pub source_device_id: Seq<char>,
    pub size_bytes: u64,
    pub payload: PayloadView,
}

impl View for ClipboardItem {
    type V = ItemView;

    open spec fn view(&self) -> ItemView {
        ItemView {
            id: self.id@,
            content_hash: self.content_hash@,
            created_at_us: self.created_at_us,
            source_device_id: self.source_device_id@,
            size_bytes: self.size_bytes,
            payload: self.payload@,
        }
    }
}

/// Copies texts.
pub fn clone_texts(v: &Vec<String>) -> (copy: Vec<String>)
    ensures
        copy@ == v@,
{
    let mut copy: Vec<String> = Vec::new();
    let mut i: usize = 0;
    while i < v.len()
        invariant
            i <= v.len(),
            copy@ == v@.take(i as int),
        decreases v.len() - i,
    {
        copy.push(v[i].clone());
        i = i + 1;
        assert(copy@ =~= v@.take(i as int));
    }
    assert(v@.take(i as int) =~= v@);
    copy
}

impl Clone for ClipboardPayload {
    fn clone(&self) -> (copy: Self)
        ensures
            copy@ == self@,
    {
        match self {
            ClipboardPayload::Text { text } => ClipboardPayload::Text { text: text.clone() },
            ClipboardPayload::ImagePng { png_bytes } => ClipboardPayload::ImagePng {
                png_bytes: crate::bytes::copy_range(png_bytes, 0, png_bytes.len()),
            },
            ClipboardPayload::FileBundleDir { bundle_dir, top_level_names } => {
                ClipboardPayload::FileBundleDir {
                    bundle_dir: bundle_dir.clone(),
                    top_level_names: clone_texts(top_level_names),
                }
            },
            ClipboardPayload::FileList { paths, top_level_names, estimated_archive_bytes } => {
                ClipboardPayload::FileList {
                    paths: clone_texts(paths),
                    top_level_names: clone_texts(top_level_names),
                    estimated_archive_bytes: *estimated_archive_bytes,
                }
            },
            ClipboardPayload::Html { html } => ClipboardPayload::Html { html: html.clone() },
            ClipboardPayload::Rtf { rtf } => ClipboardPayload::Rtf { rtf: rtf.clone() },
        }
    }
}

impl Clone for ClipboardItem {
    fn clone(&self) -> (copy: Self)
        ensures
            copy@ == self@,
    {
        ClipboardItem {
            id: self.id.clone(),
            content_hash: self.content_hash.clone(),
            created_at_us: self.created_at_us,
            source_device_id: self.source_device_id.clone(),
            size_bytes: self.size_bytes,
            payload: self.payload.clone(),
        }
    }
}

/// The name of a kind of content.
pub open spec fn kind_name(payload: PayloadView) -> Seq<char> {
    match payload {
        PayloadView::Text(_) => "text"@,
        PayloadView::ImagePng(_) => "image_png"@,
        PayloadView::FileBundleDir(_, _) => "file_bundle"@,
        PayloadView::FileList(_, _, _) => "file_bundle"@,
        PayloadView::Html(_) => "html"@,
        PayloadView::Rtf(_) => "rtf"@,
    }
}

impl ClipboardPayload {
    /// The name of this kind of content.
    pub fn kind(&self) -> (name: &'static str)
        ensures
            name@ == kind_name(self@),
    {
        match self {
            ClipboardPayload::Text { .. } => "text",
            ClipboardPayload::ImagePng { .. } => "image_png",
            ClipboardPayload::FileBundleDir { .. } => "file_bundle",
            ClipboardPayload::FileList { .. } => "file_bundle",
            ClipboardPayload::Html { .. } => "html",
            ClipboardPayload::Rtf { .. } => "rtf",
        }
    }
}

/// Each kind of content goes by its name; files that are copied and files that were received
/// are one kind.
pub proof fn contents_go_by_their_kind(payload: PayloadView)
    ensures
        payload is Text ==> kind_name(payload) == "text"@,
        payload is Html ==> kind_name(payload) == "html"@,
        payload is Rtf ==> kind_name(payload) == "rtf"@,
        payload is ImagePng ==> kind_name(payload) == "image_png"@,
        payload is FileList || payload is FileBundleDir ==> kind_name(payload) == "file_bundle"@,
{
}

} // verus!
