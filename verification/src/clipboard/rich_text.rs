//! Formatted text as a content, and the form in which Windows keeps HTML.

use crate::bytes::{copy_range, push_all};
use crate::clipboard::plain_text;
use crate::clipboard::plain_text::{html_to_plain_bounded, MAX_PLAIN_FALLBACK_BYTES};
use crate::clipboard::types::{backend, check_size, ClipboardError, ErrorView};
use crate::protocol::{ClipboardPayload, PayloadView};
use crate::text;
use crate::text::{
    byte_len, chars_of, decimal_text, find_from, is_at, lower_text, read_number, same_text,
    text_from_utf8, text_from_utf8_lossy, text_of, trim,
};
use base64::Engine;
use vstd::prelude::*;
use vstd::utf8::*;

verus! {

/// How many bytes the header of stored HTML takes at most.
pub const CF_HTML_HEADER_SCAN_BYTES: usize = 4096;

/// How many bytes of diagnostics are read from a helper program.
pub const MAX_HELPER_DIAGNOSTIC_BYTES: usize = 16_384;

/// The largest place that the header of stored HTML can name.
pub const MAX_CF_HTML_OFFSET: u64 = 9_999_999_999;

/// How many bytes the header of stored HTML takes.
pub const CF_HTML_HEADER_BYTES: u64 = 105;

/// How many bytes stand before the fragment in stored HTML, the header included.
pub const CF_HTML_FRAGMENT_START: u64 = 137;

/// How many bytes stand behind the fragment in stored HTML.
pub const CF_HTML_SUFFIX_BYTES: u64 = 32;

/// What stands before a fragment.
pub open spec fn start_marker() -> Seq<char> {
    "<!--StartFragment-->"@
}

/// What stands behind a fragment.
pub open spec fn end_marker() -> Seq<char> {
    "<!--EndFragment-->"@
}

/// The part between two places, if both are known.
pub open spec fn between(s: Seq<char>, from: Option<int>, to: Option<int>) -> Option<Seq<char>> {
    match (from, to) {
        (Some(a), Some(b)) => Some(s.subrange(a, b)),
        _ => None,
    }
}

/// The part of a document between the markers of a fragment.
pub open spec fn marked_part(html: Seq<char>) -> Option<Seq<char>> {
    match text::first_at(html, start_marker(), 0) {
        Some(at) => {
            let from = at + start_marker().len();
            between(html, Some(from), text::first_at(html, end_marker(), from))
        },
        None => None,
    }
}

/// The body of a document.
pub open spec fn body_part(html: Seq<char>) -> Option<Seq<char>> {
    let lower = text::ascii_lowered(html);
    match text::first_at(lower, "<body"@, 0) {
        Some(body) => match text::first_at(lower, ">"@, body) {
            Some(open) => between(
                html,
                Some(open + 1),
                text::first_at(lower, "</body>"@, open + 1),
            ),
            None => None,
        },
        None => None,
    }
}

/// The fragment that a document is about: what is marked, or the body, or all of it.
pub open spec fn fragment_of(html: Seq<char>) -> Seq<char> {
    match marked_part(html) {
        Some(part) => part,
        None => match body_part(html) {
            Some(part) => part,
            None => html,
        },
    }
}

fn marked_fragment(chars: &Vec<char>) -> (part: Option<String>)
    ensures
        match part {
            Some(p) => marked_part(chars@) == Some(p@),
            None => marked_part(chars@) is None,
        },
{
    let start = chars_of("<!--StartFragment-->");
    let end = chars_of("<!--EndFragment-->");
    match find_from(chars, &start, 0) {
        Some(at) => {
            let from: usize = at + start.len();
            match find_from(chars, &end, from) {
                Some(to) => Some(text_of(chars, from, to)),
                None => None,
            }
        },
        None => None,
    }
}

fn body_fragment(html: &str, chars: &Vec<char>) -> (part: Option<String>)
    requires
        chars@ == html@,
    ensures
        match part {
            Some(p) => body_part(chars@) == Some(p@),
            None => body_part(chars@) is None,
        },
{
    let lower = chars_of(&lower_text(html));
    let open_tag = chars_of("<body");
    let bracket = chars_of(">");
    let close_tag = chars_of("</body>");
    proof {
        reveal_strlit(">");
    }
    match find_from(&lower, &open_tag, 0) {
        Some(body) => {
            match find_from(&lower, &bracket, body) {
                Some(open) => {
                    match find_from(&lower, &close_tag, open + 1) {
                        Some(to) => Some(text_of(chars, open + 1, to)),
                        None => None,
                    }
                },
                None => None,
            }
        },
        None => None,
    }
}

/// Finds the fragment that a document is about.
pub fn extract_html_fragment(html: &str) -> (fragment: String)
    ensures
        fragment@ == fragment_of(html@),
{
    let chars = chars_of(html);
    if let Some(part) = marked_fragment(&chars) {
        return part;
    }
    if let Some(part) = body_fragment(html, &chars) {
        return part;
    }
    html.to_owned()
}

/// A number in ten digits.
pub open spec fn ten_digits(n: nat) -> Seq<char> {
    let digits = text::decimal(n);
    Seq::new((10 - digits.len()) as nat, |i: int| '0') + digits
}

/// The header of stored HTML.
pub open spec fn cf_html_header(end_html: nat, end_fragment: nat) -> Seq<char> {
    "Version:1.0\r\nStartHTML:"@ + ten_digits(CF_HTML_HEADER_BYTES as nat) + "\r\nEndHTML:"@
        + ten_digits(end_html) + "\r\nStartFragment:"@ + ten_digits(CF_HTML_FRAGMENT_START as nat)
        + "\r\nEndFragment:"@ + ten_digits(end_fragment) + "\r\n"@
}

/// A fragment as a whole document.
pub open spec fn document_of(fragment: Seq<char>) -> Seq<char> {
    "<html><body><!--StartFragment-->"@ + fragment + "<!--EndFragment--></body></html>"@
}

/// Where a fragment of stored HTML ends.
pub open spec fn fragment_end(fragment: Seq<char>) -> nat {
    CF_HTML_FRAGMENT_START as nat + encode_utf8(fragment).len()
}

/// Where stored HTML ends.
pub open spec fn html_end(fragment: Seq<char>) -> nat {
    fragment_end(fragment) + CF_HTML_SUFFIX_BYTES as nat
}

/// A fragment as stored HTML.
pub open spec fn cf_html(fragment: Seq<char>) -> Seq<char> {
    cf_html_header(html_end(fragment), fragment_end(fragment)) + document_of(fragment)
}

/// Why a fragment cannot be stored, if it cannot.
pub open spec fn cf_html_error(fragment: Seq<char>) -> Option<ErrorView> {
    if html_end(fragment) > u64::MAX {
        Some(ErrorView::Backend("windows cf_html offset overflow"@))
    } else if html_end(fragment) > MAX_CF_HTML_OFFSET {
        Some(
            ErrorView::Backend(
                "windows cf_html exceeds offset range: end_html="@ + text::decimal(
                    html_end(fragment),
                ),
            ),
        )
    } else {
        None
    }
}

proof fn decimal_is_short(n: nat)
    requires
        n <= MAX_CF_HTML_OFFSET,
    ensures
        1 <= text::decimal(n).len() <= 10,
{
    reveal_with_fuel(text::decimal, 11);
}

fn push_ten_digits(out: &mut String, n: u64)
    requires
        n <= MAX_CF_HTML_OFFSET,
    ensures
        final(out)@ == old(out)@ + ten_digits(n as nat),
{
    let digits = decimal_text(n);
    proof {
        decimal_is_short(n as nat);
    }
    let count: usize = chars_of(&digits).len();
    let mut i: usize = count;
    while i < 10
        invariant
            count <= i <= 10,
            out@ =~= old(out)@ + Seq::new((i - count) as nat, |k: int| '0'),
        decreases 10 - i,
    {
        out.push('0');
        i = i + 1;
    }
    out.append(&digits);
    assert(out@ =~= old(out)@ + ten_digits(n as nat));
}

/// Stores HTML in the form of Windows, with the places of its parts in bytes.
pub fn build_windows_cf_html(html: &str) -> (result: Result<String, ClipboardError>)
    ensures
        match result {
            Ok(stored) => cf_html_error(fragment_of(html@)) is None && stored@ == cf_html(
                fragment_of(html@),
            ),
            Err(e) => cf_html_error(fragment_of(html@)) == Some(e@),
        },
{
    let fragment = extract_html_fragment(html);
    let length: u64 = byte_len(&fragment) as u64;
    let end_html: u64 = match length.checked_add(CF_HTML_FRAGMENT_START + CF_HTML_SUFFIX_BYTES) {
        Some(end) => end,
        None => return Err(backend("windows cf_html offset overflow")),
    };
    if end_html > MAX_CF_HTML_OFFSET {
        let mut text: String = "windows cf_html exceeds offset range: end_html=".to_owned();
        text.append(&decimal_text(end_html));
        return Err(ClipboardError::Backend(text));
    }
    let mut out: String = "Version:1.0\r\nStartHTML:".to_owned();
    push_ten_digits(&mut out, CF_HTML_HEADER_BYTES);
    out.append("\r\nEndHTML:");
    push_ten_digits(&mut out, end_html);
    out.append("\r\nStartFragment:");
    push_ten_digits(&mut out, CF_HTML_FRAGMENT_START);
    out.append("\r\nEndFragment:");
    push_ten_digits(&mut out, CF_HTML_FRAGMENT_START + length);
    out.append("\r\n");
    out.append("<html><body><!--StartFragment-->");
    out.append(&fragment);
    out.append("<!--EndFragment--></body></html>");
    assert(out@ =~= cf_html(fragment@));
    Ok(out)
}

/// Where the line ends that a place is in.
pub open spec fn line_end(s: Seq<char>, from: int) -> int
    decreases s.len() - from,
{
    if 0 <= from < s.len() && s[from] != '\n' {
        line_end(s, from + 1)
    } else {
        from
    }
}

/// The line ends behind every place in it.
pub proof fn line_end_is_ahead(s: Seq<char>, from: int)
    ensures
        from <= line_end(s, from),
        from <= s.len() ==> line_end(s, from) <= s.len(),
        0 <= from && line_end(s, from) < s.len() ==> s[line_end(s, from)] == '\n',
    decreases s.len() - from,
{
    if 0 <= from < s.len() && s[from] != '\n' {
        line_end_is_ahead(s, from + 1);
    }
}

/// The number behind a key in the first line from a place on that starts with the key.
pub open spec fn offset_from(s: Seq<char>, key: Seq<char>, from: int) -> Option<int>
    decreases s.len() - from,
{
    if from < 0 || from > s.len() {
        None
    } else {
        proof {
            line_end_is_ahead(s, from);
        }
        let end = line_end(s, from);
        if text::stands_at(s, key, from) && from + key.len() <= end {
            text::number_in(
                text::trimmed(s.subrange(from + key.len(), end)),
                10,
                usize::MAX as int,
            )
        } else if end >= s.len() {
            None
        } else {
            offset_from(s, key, end + 1)
        }
    }
}

/// Reads the number behind a key of a header.
pub fn parse_cf_html_offset(header_text: &str, key: &str) -> (offset: Option<usize>)
    ensures
        match offset {
            Some(n) => offset_from(header_text@, key@, 0) == Some(n as int),
            None => offset_from(header_text@, key@, 0) is None,
        },
{
    let chars = chars_of(header_text);
    let key_chars = chars_of(key);
    let mut from: usize = 0;
    loop
        invariant
            from <= chars.len(),
            chars@ == header_text@,
            key_chars@ == key@,
            offset_from(header_text@, key@, 0) == offset_from(header_text@, key@, from as int),
        decreases chars.len() - from,
    {
        proof {
            line_end_is_ahead(chars@, from as int);
        }
        let mut end: usize = from;
        while end < chars.len() && chars[end] != '\n'
            invariant
                from <= end <= chars.len(),
                line_end(chars@, from as int) == line_end(chars@, end as int),
            decreases chars.len() - end,
        {
            end = end + 1;
        }
        if is_at(&chars, &key_chars, from) && key_chars.len() <= end - from {
            let value = trim(&text_of(&chars, from + key_chars.len(), end));
            let digits = chars_of(&value);
            assert(digits@.subrange(0, digits@.len() as int) =~= digits@);
            return match read_number(&digits, 0, digits.len(), 10, usize::MAX as u64) {
                Some(n) => Some(n as usize),
                None => None,
            };
        }
        if end >= chars.len() {
            return None;
        }
        from = end + 1;
    }
}

/// The outcome of decoding bytes in some context.
pub open spec fn decoded_text(bytes: Seq<u8>, context: Seq<char>) -> Result<Seq<char>, ErrorView> {
    if valid_utf8(bytes) {
        Ok(decode_utf8(bytes))
    } else {
        Err(ErrorView::Backend(context + text::utf8_error(bytes)))
    }
}

fn decode_text(bytes: Vec<u8>, context: &str) -> (result: Result<String, ClipboardError>)
    ensures
        match result {
            Ok(t) => decoded_text(bytes@, context@) == Ok::<Seq<char>, ErrorView>(t@),
            Err(e) => decoded_text(bytes@, context@) == Err::<Seq<char>, ErrorView>(e@),
        },
{
    match text_from_utf8(bytes) {
        Ok(t) => Ok(t),
        Err(e) => {
            let mut text: String = context.to_owned();
            text.append(&e);
            Err(ClipboardError::Backend(text))
        },
    }
}

/// Bytes between two places, if both are known and in order.
pub open spec fn bytes_between(b: Seq<u8>, from: Option<int>, to: Option<int>) -> Option<Seq<u8>> {
    match (from, to) {
        (Some(start), Some(end)) => if 0 <= start <= end <= b.len() {
            Some(b.subrange(start, end))
        } else {
            None
        },
        _ => None,
    }
}

fn range_of(b: &[u8], from: Option<usize>, to: Option<usize>) -> (part: Option<Vec<u8>>)
    ensures
        ({
            let expected = bytes_between(b@, index_option(from), index_option(to));
            match part {
                Some(p) => expected == Some(p@),
                None => expected is None,
            }
        }),
{
    match (from, to) {
        (Some(start), Some(end)) => if start <= end && end <= b.len() {
            Some(copy_range(b, start, end))
        } else {
            None
        },
        _ => None,
    }
}

/// A place that may be unknown, as a number.
pub open spec fn index_option(i: Option<usize>) -> Option<int> {
    match i {
        Some(n) => Some(n as int),
        None => None,
    }
}

/// The first bytes of stored HTML, in which its header stands.
pub open spec fn header_scan(raw: Seq<u8>) -> Seq<u8> {
    if raw.len() < CF_HTML_HEADER_SCAN_BYTES {
        raw
    } else {
        raw.take(CF_HTML_HEADER_SCAN_BYTES as int)
    }
}

/// The document in stored HTML whose header has a given text.
pub open spec fn document_in(raw: Seq<u8>, header: Seq<char>) -> Result<Seq<char>, ErrorView> {
    let html = bytes_between(
        raw,
        offset_from(header, "StartHTML:"@, 0),
        offset_from(header, "EndHTML:"@, 0),
    );
    let fragment = bytes_between(
        raw,
        offset_from(header, "StartFragment:"@, 0),
        offset_from(header, "EndFragment:"@, 0),
    );
    if raw.len() == 0 {
        Err(ErrorView::Backend("windows html clipboard payload is empty"@))
    } else if html is Some {
        decoded_text(html->Some_0, "decode windows cf_html: "@)
    } else if fragment is Some {
        decoded_text(fragment->Some_0, "decode windows cf_html fragment: "@)
    } else {
        decoded_text(raw, "decode windows html payload: "@)
    }
}

/// Finds the document in stored HTML, given the text of its header: the whole document
/// if the header says where it stands, else the fragment, else all bytes.
pub fn read_document(raw: &[u8], header_text: &str) -> (result: Result<String, ClipboardError>)
    ensures
        match result {
            Ok(t) => document_in(raw@, header_text@) == Ok::<Seq<char>, ErrorView>(t@),
            Err(e) => document_in(raw@, header_text@) == Err::<Seq<char>, ErrorView>(e@),
        },
{
    if raw.len() == 0 {
        return Err(backend("windows html clipboard payload is empty"));
    }
    let start_html = parse_cf_html_offset(header_text, "StartHTML:");
    let end_html = parse_cf_html_offset(header_text, "EndHTML:");
    if let Some(html) = range_of(raw, start_html, end_html) {
        return decode_text(html, "decode windows cf_html: ");
    }
    let start_fragment = parse_cf_html_offset(header_text, "StartFragment:");
    let end_fragment = parse_cf_html_offset(header_text, "EndFragment:");
    if let Some(fragment) = range_of(raw, start_fragment, end_fragment) {
        return decode_text(fragment, "decode windows cf_html fragment: ");
    }
    let all = copy_range(raw, 0, raw.len());
    assert(all@ =~= raw@);
    decode_text(all, "decode windows html payload: ")
}

/// Reads HTML that is stored in the form of Windows.
pub fn normalize_windows_cf_html(raw_bytes: &[u8]) -> (result: Result<String, ClipboardError>)
    ensures
        ({
            let expected = document_in(raw_bytes@, text::lossy_text(header_scan(raw_bytes@)));
            match result {
                Ok(t) => expected == Ok::<Seq<char>, ErrorView>(t@),
                Err(e) => expected == Err::<Seq<char>, ErrorView>(e@),
            }
        }),
        forall|fragment: Seq<char>|
            raw_bytes@ == encode_utf8(#[trigger] cf_html(fragment)) && cf_html_error(fragment)
                is None ==> result is Ok && result->Ok_0@ == document_of(fragment),
{
    let scan_end: usize = if raw_bytes.len() < CF_HTML_HEADER_SCAN_BYTES {
        raw_bytes.len()
    } else {
        CF_HTML_HEADER_SCAN_BYTES
    };
    let scan = copy_range(raw_bytes, 0, scan_end);
    assert(scan@ =~= header_scan(raw_bytes@));
    let header_text = text_from_utf8_lossy(&scan);
    proof {
        assert forall|fragment: Seq<char>|
            raw_bytes@ == encode_utf8(#[trigger] cf_html(fragment)) && cf_html_error(fragment)
                is None implies document_in(raw_bytes@, header_text@) == Ok::<
            Seq<char>,
            ErrorView,
        >(document_of(fragment)) by {
            let h = cf_html_header(html_end(fragment), fragment_end(fragment));
            stored_html_is_laid_out(fragment);
            encode_utf8_valid_utf8(h);
            encode_utf8_decode_utf8(h);
            assert(raw_bytes.len() <= usize::MAX);
            assert(scan@.take(CF_HTML_HEADER_BYTES as int) =~= raw_bytes@.take(
                CF_HTML_HEADER_BYTES as int,
            ));
            stored_html_is_read_back(fragment, header_text@);
        }
    }
    read_document(raw_bytes, &header_text)
}

/// The content that a text makes, if it is within the limit.
pub open spec fn html_content(
    html: Result<Seq<char>, ErrorView>,
    limit_bytes: u64,
) -> Result<PayloadView, ErrorView> {
    match html {
        Err(e) => Err(e),
        Ok(t) => if encode_utf8(t).len() > limit_bytes {
            Err(ErrorView::TooLarge(encode_utf8(t).len() as u64, limit_bytes))
        } else {
            Ok(PayloadView::Html(t))
        },
    }
}

/// The content of HTML that Windows stores; nothing stored is none.
pub fn windows_html_payload(raw_bytes: &[u8], limit_bytes: u64) -> (result: Result<
    Option<ClipboardPayload>,
    ClipboardError,
>)
    ensures
        ({
            let expected = html_content(
                document_in(raw_bytes@, text::lossy_text(header_scan(raw_bytes@))),
                limit_bytes,
            );
            if raw_bytes@.len() == 0 {
                result matches Ok(None)
            } else {
                match result {
                    Ok(Some(payload)) => expected == Ok::<PayloadView, ErrorView>(payload@),
                    Ok(None) => false,
                    Err(e) => expected == Err::<PayloadView, ErrorView>(e@),
                }
            }
        }),
{
    if raw_bytes.len() == 0 {
        return Ok(None);
    }
    let html = match normalize_windows_cf_html(raw_bytes) {
        Ok(html) => html,
        Err(e) => return Err(e),
    };
    if let Err(e) = check_size(byte_len(&html) as u64, limit_bytes) {
        return Err(e);
    }
    Ok(Some(ClipboardPayload::Html { html }))
}

/// What `base64`'s standard engine decodes, or its error in words.
pub uninterp spec fn base64_decoded(encoded: Seq<u8>) -> Result<Seq<u8>, Seq<char>>;

/// What `base64`'s standard engine makes of bytes.
pub uninterp spec fn base64_encoded(bytes: Seq<u8>) -> Seq<char>;

/// `base64::engine::general_purpose::STANDARD.decode`.
#[verifier::external_body]
pub(crate) fn decode_base64(encoded: &[u8]) -> (result: Result<Vec<u8>, String>)
    ensures
        match result {
            Ok(b) => base64_decoded(encoded@) == Ok::<Seq<u8>, Seq<char>>(b@),
            Err(e) => base64_decoded(encoded@) == Err::<Seq<u8>, Seq<char>>(e@),
        },
{
    base64::engine::general_purpose::STANDARD.decode(encoded).map_err(|e| e.to_string())
}

/// `base64::engine::general_purpose::STANDARD.encode`: decoding gives the bytes back.
#[verifier::external_body]
pub(crate) fn encode_base64(bytes: &[u8]) -> (text: String)
    ensures
        text@ == base64_encoded(bytes@),
        base64_decoded(encode_utf8(text@)) is Ok && base64_decoded(encode_utf8(text@))->Ok_0
            == bytes@,
{
    base64::engine::general_purpose::STANDARD.encode(bytes)
}

/// The content of the output of a helper program: what its kind is, and the decoded
/// bytes.
pub open spec fn output_content(
    kind: Seq<char>,
    decoded: Result<Seq<u8>, Seq<char>>,
    limit_bytes: u64,
) -> Result<Option<PayloadView>, ErrorView> {
    match decoded {
        Err(e) => Err(ErrorView::Backend(e)),
        Ok(b) => if b.len() > limit_bytes {
            Err(ErrorView::TooLarge(b.len() as u64, limit_bytes))
        } else if !valid_utf8(b) {
            Err(ErrorView::Backend(text::utf8_error(b)))
        } else if kind == "html"@ {
            Ok(Some(PayloadView::Html(decode_utf8(b))))
        } else if kind == "rtf"@ {
            Ok(Some(PayloadView::Rtf(decode_utf8(b))))
        } else {
            Ok(None)
        },
    }
}

/// A content that may be missing, as plain values.
pub open spec fn payload_result(
    result: Result<Option<ClipboardPayload>, ClipboardError>,
) -> Result<Option<PayloadView>, ErrorView> {
    match result {
        Ok(Some(payload)) => Ok(Some(payload@)),
        Ok(None) => Ok(None),
        Err(e) => Err(e@),
    }
}

/// Bytes or an error in words, as plain values.
pub open spec fn bytes_result(r: Result<Vec<u8>, String>) -> Result<Seq<u8>, Seq<char>> {
    match r {
        Ok(b) => Ok(b@),
        Err(e) => Err(e@),
    }
}

/// Makes a content of what a helper program said.
pub fn payload_of_output(kind: &str, decoded: Result<Vec<u8>, String>, limit_bytes: u64) -> (result:
    Result<Option<ClipboardPayload>, ClipboardError>)
    ensures
        payload_result(result) == output_content(kind@, bytes_result(decoded), limit_bytes),
{
    let bytes = match decoded {
        Ok(bytes) => bytes,
        Err(e) => return Err(ClipboardError::Backend(e)),
    };
    if let Err(e) = check_size(bytes.len() as u64, limit_bytes) {
        return Err(e);
    }
    let value = match text_from_utf8(bytes) {
        Ok(value) => value,
        Err(e) => return Err(ClipboardError::Backend(e)),
    };
    if same_text(kind, "html") {
        return Ok(Some(ClipboardPayload::Html { html: value }));
    }
    if same_text(kind, "rtf") {
        return Ok(Some(ClipboardPayload::Rtf { rtf: value }));
    }
    Ok(None)
}

/// The second line of a text, if there is one.
pub open spec fn second_line(s: Seq<char>) -> Seq<char> {
    let end = line_end(s, 0);
    if end < s.len() {
        s.subrange(end + 1, line_end(s, end + 1))
    } else {
        Seq::empty()
    }
}

/// The content in the two lines that a helper program prints, given their text; no
/// content if one of them is empty.
pub open spec fn printed_content(printed: Seq<char>, limit_bytes: u64) -> Result<
    Option<PayloadView>,
    ErrorView,
> {
    let kind = text::trimmed(printed.take(line_end(printed, 0)));
    let encoded = text::trimmed(second_line(printed));
    if kind.len() == 0 || encoded.len() == 0 {
        Ok(None)
    } else {
        output_content(kind, base64_decoded(encode_utf8(encoded)), limit_bytes)
    }
}

fn find_line_end(chars: &Vec<char>, from: usize) -> (end: usize)
    requires
        from <= chars.len(),
    ensures
        end == line_end(chars@, from as int),
        from <= end <= chars.len(),
{
    let mut end: usize = from;
    while end < chars.len() && chars[end] != '\n'
        invariant
            from <= end <= chars.len(),
            line_end(chars@, from as int) == line_end(chars@, end as int),
        decreases chars.len() - end,
    {
        end = end + 1;
    }
    end
}

/// Reads what a helper program printed.
pub fn parse_rich_text_output(stdout: &[u8], limit_bytes: u64) -> (result: Result<
    Option<ClipboardPayload>,
    ClipboardError,
>)
    ensures
        payload_result(result) == printed_content(text::lossy_text(stdout@), limit_bytes),
{
    let printed = text_from_utf8_lossy(stdout);
    let chars = chars_of(&printed);
    let first_end: usize = find_line_end(&chars, 0);
    let first = text_of(&chars, 0, first_end);
    assert(first@ =~= printed@.take(line_end(printed@, 0)));
    let kind = trim(&first);
    let second: String = if first_end < chars.len() {
        let second_end: usize = find_line_end(&chars, first_end + 1);
        text_of(&chars, first_end + 1, second_end)
    } else {
        String::new()
    };
    assert(second@ =~= second_line(printed@));
    let encoded = trim(&second);
    if chars_of(&kind).len() == 0 || chars_of(&encoded).len() == 0 {
        return Ok(None);
    }
    let decoded = decode_base64(encoded.as_str().as_bytes());
    payload_of_output(&kind, decoded, limit_bytes)
}

/// A text is what Base64 makes of bytes, and decoding it gives them back.
pub open spec fn is_base64_of(encoded: Seq<char>, bytes: Seq<u8>) -> bool {
    encoded == base64_encoded(bytes) && base64_decoded(encode_utf8(encoded)) == Ok::<
        Seq<u8>,
        Seq<char>,
    >(bytes)
}

/// What a helper program is given to write a content, in the form that it takes.
pub fn helper_input(format: &str, value: &str) -> (result: Result<String, ClipboardError>)
    ensures
        match result {
            Ok(input) => (format@ == "html"@ && cf_html_error(fragment_of(value@)) is None
                && is_base64_of(input@, encode_utf8(cf_html(fragment_of(value@))))) || (format@
                == "rtf"@ && is_base64_of(input@, encode_utf8(value@))),
            Err(e) => if format@ == "html"@ {
                cf_html_error(fragment_of(value@)) == Some(e@)
            } else {
                format@ != "rtf"@ && e@ == ErrorView::Unsupported
            },
        },
{
    proof {
        reveal_strlit("html");
        reveal_strlit("rtf");
        assert("html"@.len() != "rtf"@.len());
    }
    if same_text(format, "html") {
        return match build_windows_cf_html(value) {
            Ok(stored) => Ok(encode_base64(stored.as_str().as_bytes())),
            Err(e) => Err(e),
        };
    }
    if same_text(format, "rtf") {
        return Ok(encode_base64(value.as_bytes()));
    }
    Err(ClipboardError::Unsupported)
}

/// Tells what became of writing by a helper program: where it failed, its diagnostics
/// say why.
pub fn helper_outcome(succeeded: bool, stderr: &[u8]) -> (result: Result<(), ClipboardError>)
    ensures
        match result {
            Ok(_) => succeeded,
            Err(e) => !succeeded && e@ == ErrorView::Backend(
                text::trimmed(text::lossy_text(stderr@)),
            ),
        },
{
    if succeeded {
        return Ok(());
    }
    let diagnostics = text_from_utf8_lossy(stderr);
    Err(ClipboardError::Backend(trim(&diagnostics)))
}

/// A formatted text as it is put on a pasteboard: its own bytes under its own type, with
/// a plain text beside it for programs that take no other.
#[derive(Debug)]
pub struct PasteboardItem {
    pub is_html: bool,
    pub data: Vec<u8>,
    pub plain: String,
}

/// Decides what a formatted text is put on a pasteboard as. The plain text of HTML is
/// made here, so that nothing that the HTML refers to is ever fetched; that of RTF is
/// what the platform imports, or why it cannot.
pub fn pasteboard_item(format: &str, value: &str, imported: Result<String, String>) -> (result:
    Result<PasteboardItem, ClipboardError>)
    ensures
        match result {
            Ok(item) => {
                &&& item.data@ == encode_utf8(value@)
                &&& if item.is_html {
                    format@ == "html"@ && item.plain@ == plain_text::plain_of(
                        value@,
                        MAX_PLAIN_FALLBACK_BYTES as int,
                    )
                } else {
                    format@ == "rtf"@ && imported is Ok && item.plain@ == imported->Ok_0@
                }
            },
            Err(e) => format@ != "html"@ && if format@ == "rtf"@ {
                imported is Err && e@ == ErrorView::Backend(
                    "failed to extract macOS RTF plain fallback: "@ + imported->Err_0@,
                )
            } else {
                e@ == ErrorView::Unsupported
            },
        },
{
    proof {
        reveal_strlit("html");
        reveal_strlit("rtf");
        assert("html"@.len() != "rtf"@.len());
    }
    let bytes = value.as_bytes();
    let data = copy_range(bytes, 0, bytes.len());
    assert(data@ =~= encode_utf8(value@));
    if same_text(format, "html") {
        let plain = html_to_plain_bounded(value, MAX_PLAIN_FALLBACK_BYTES);
        return Ok(PasteboardItem { is_html: true, data, plain });
    }
    if same_text(format, "rtf") {
        return match imported {
            Ok(plain) => Ok(PasteboardItem { is_html: false, data, plain }),
            Err(e) => {
                let mut message: String = "failed to extract macOS RTF plain fallback: ".to_owned();
                message.append(&e);
                Err(ClipboardError::Backend(message))
            },
        };
    }
    Err(ClipboardError::Unsupported)
}

/// The steps in which an item is put on a pasteboard.
#[derive(Debug, Clone, Copy, PartialEq, Eq, Structural)]
pub enum PasteboardStep {
    MakeItem,
    SetPlain,
    SetData,
    WriteItem,
}

/// What is said where a step fails.
pub open spec fn pasteboard_failure(step: PasteboardStep) -> Seq<char> {
    match step {
        PasteboardStep::MakeItem => "macOS NSPasteboardItem class is unavailable"@,
        PasteboardStep::SetPlain => "failed to prepare macOS rich-text plain fallback"@,
        PasteboardStep::SetData => "failed to prepare macOS rich-text clipboard data"@,
        PasteboardStep::WriteItem => "failed to write macOS rich-text pasteboard item"@,
    }
}

/// Decides what follows a step of putting an item on a pasteboard: the next step, or
/// nothing after the last. The pasteboard is emptied and written last, once nothing else
/// can fail.
pub fn next_pasteboard_step(step: PasteboardStep, succeeded: bool) -> (result: Result<
    Option<PasteboardStep>,
    ClipboardError,
>)
    ensures
        match result {
            Ok(next) => succeeded && next == match step {
                PasteboardStep::MakeItem => Some(PasteboardStep::SetPlain),
                PasteboardStep::SetPlain => Some(PasteboardStep::SetData),
                PasteboardStep::SetData => Some(PasteboardStep::WriteItem),
                PasteboardStep::WriteItem => None,
            },
            Err(e) => !succeeded && e@ == ErrorView::Backend(pasteboard_failure(step)),
        },
{
    match step {
        PasteboardStep::MakeItem => if succeeded {
            Ok(Some(PasteboardStep::SetPlain))
        } else {
            Err(backend("macOS NSPasteboardItem class is unavailable"))
        },
        PasteboardStep::SetPlain => if succeeded {
            Ok(Some(PasteboardStep::SetData))
        } else {
            Err(backend("failed to prepare macOS rich-text plain fallback"))
        },
        PasteboardStep::SetData => if succeeded {
            Ok(Some(PasteboardStep::WriteItem))
        } else {
            Err(backend("failed to prepare macOS rich-text clipboard data"))
        },
        PasteboardStep::WriteItem => if succeeded {
            Ok(None)
        } else {
            Err(backend("failed to write macOS rich-text pasteboard item"))
        },
    }
}

/// The content of formatted text that a clipboard hands out as bytes: HTML if there is
/// any, else RTF.
pub open spec fn offered_content(
    html: Option<Seq<u8>>,
    rtf: Option<Seq<u8>>,
    limit_bytes: u64,
) -> Result<Option<PayloadView>, ErrorView> {
    if html is Some && html->Some_0.len() > 0 {
        output_content("html"@, Ok(html->Some_0), limit_bytes)
    } else if rtf is Some && rtf->Some_0.len() > 0 {
        output_content("rtf"@, Ok(rtf->Some_0), limit_bytes)
    } else {
        Ok(None)
    }
}

/// Bytes that may be missing, as plain values.
pub open spec fn bytes_option(b: Option<Vec<u8>>) -> Option<Seq<u8>> {
    match b {
        Some(v) => Some(v@),
        None => None,
    }
}

/// Makes a content of formatted text that a clipboard hands out as bytes.
pub fn offered_rich_text(html: Option<Vec<u8>>, rtf: Option<Vec<u8>>, limit_bytes: u64) -> (result:
    Result<Option<ClipboardPayload>, ClipboardError>)
    ensures
        payload_result(result) == offered_content(
            bytes_option(html),
            bytes_option(rtf),
            limit_bytes,
        ),
{
    if let Some(bytes) = html {
        if bytes.len() > 0 {
            return payload_of_output("html", Ok(bytes), limit_bytes);
        }
    }
    if let Some(bytes) = rtf {
        if bytes.len() > 0 {
            return payload_of_output("rtf", Ok(bytes), limit_bytes);
        }
    }
    Ok(None)
}

/// How many bytes a helper program may print for a content within the limit.
pub open spec fn output_limit(max_item_bytes: u64) -> int {
    let payload = if max_item_bytes > usize::MAX {
        usize::MAX as int
    } else {
        max_item_bytes as int
    };
    let room = (payload + 2) / 3 * 4 + CF_HTML_HEADER_SCAN_BYTES;
    if payload + 2 > usize::MAX || room > usize::MAX {
        usize::MAX as int
    } else {
        room
    }
}

/// How many bytes a helper program may print for a content within the limit.
pub fn helper_payload_output_limit(max_item_bytes: u64) -> (limit: usize)
    ensures
        limit == output_limit(max_item_bytes),
{
    let payload: usize = if max_item_bytes > usize::MAX as u64 {
        usize::MAX
    } else {
        max_item_bytes as usize
    };
    let padded: usize = match payload.checked_add(2) {
        Some(n) => n,
        None => return usize::MAX,
    };
    let encoded: usize = match (padded / 3).checked_mul(4) {
        Some(n) => n,
        None => return usize::MAX,
    };
    match encoded.checked_add(CF_HTML_HEADER_SCAN_BYTES) {
        Some(n) => n,
        None => usize::MAX,
    }
}

/// The output of a helper program, of which no more than a number of bytes is kept.
#[derive(Debug)]
pub struct BoundedOutput {
    pub output: Vec<u8>,
    pub limit: usize,
    pub exceeded: bool,
}

impl BoundedOutput {
    /// What is kept of some output.
    pub open spec fn holds(&self, all: Seq<u8>) -> bool {
        if all.len() <= self.limit {
            self.output@ == all && !self.exceeded
        } else {
            self.output@ == all.take(self.limit as int) && self.exceeded
        }
    }

    /// No output so far.
    pub fn new(limit: usize) -> (output: Self)
        ensures
            output.limit == limit,
            output.holds(Seq::empty()),
    {
        let output = BoundedOutput { output: Vec::new(), limit, exceeded: false };
        assert(output.output@ =~= Seq::empty());
        output
    }

    /// Takes more output.
    pub fn push(&mut self, part: &[u8])
        requires
            old(self).output@.len() <= old(self).limit,
        ensures
            final(self).limit == old(self).limit,
            forall|all: Seq<u8>| #[trigger] old(self).holds(all) ==> final(self).holds(all + part@),
            final(self).output@.len() <= final(self).limit,
    {
        let ghost before = *self;
        let remaining: usize = self.limit - self.output.len();
        let keep: usize = if remaining < part.len() {
            remaining
        } else {
            part.len()
        };
        let kept = copy_range(part, 0, keep);
        push_all(&mut self.output, &kept);
        if keep < part.len() {
            self.exceeded = true;
        }
        proof {
            assert forall|all: Seq<u8>| #[trigger] before.holds(all) implies self.holds(
                all + part@,
            ) by {
                let whole = all + part@;
                if whole.len() <= self.limit {
                    assert(self.output@ =~= whole);
                } else {
                    assert(self.output@ =~= whole.take(self.limit as int));
                }
            }
        }
    }

    /// All of the output, unless it was too much.
    pub fn finish(self) -> (result: Result<Vec<u8>, String>)
        ensures
            match result {
                Ok(b) => !self.exceeded && b@ == self.output@,
                Err(e) => self.exceeded && e@ == "clipboard helper output exceeds "@
                    + text::decimal(self.limit as nat) + " bytes"@,
            },
    {
        if self.exceeded {
            let mut text: String = "clipboard helper output exceeds ".to_owned();
            text.append(&decimal_text(self.limit as u64));
            text.append(" bytes");
            return Err(text);
        }
        Ok(self.output)
    }
}

proof fn decimal_is_read_back(n: nat)
    ensures
        text::digits_number(text::decimal(n), 10) == Some(n as int),
        forall|i: int|
            0 <= i < text::decimal(n).len() ==> '0' <= #[trigger] text::decimal(n)[i] <= '9',
    decreases n,
{
    let s = text::decimal(n);
    if n < 10 {
        assert(s.drop_last() =~= Seq::<char>::empty());
        assert(text::digits_number(s.drop_last(), 10) == Some(0int));
    } else {
        decimal_is_read_back(n / 10);
        assert(s.drop_last() =~= text::decimal(n / 10));
    }
}

proof fn zeros_count_nothing(k: nat, s: Seq<char>)
    requires
        text::digits_number(s, 10) is Some,
    ensures
        text::digits_number(Seq::new(k, |i: int| '0') + s, 10) == text::digits_number(s, 10),
    decreases k + s.len(),
{
    let zeros = Seq::new(k, |i: int| '0');
    if s.len() > 0 {
        zeros_count_nothing(k, s.drop_last());
        assert((zeros + s).drop_last() =~= zeros + s.drop_last());
    } else if k > 0 {
        let fewer = Seq::new((k - 1) as nat, |i: int| '0');
        zeros_count_nothing((k - 1) as nat, s);
        assert((zeros + s).drop_last() =~= fewer + s);
    } else {
        assert(zeros + s =~= s);
    }
}

proof fn ten_digits_are_read_back(n: nat)
    requires
        n <= MAX_CF_HTML_OFFSET,
    ensures
        ten_digits(n).len() == 10,
        forall|i: int| 0 <= i < 10 ==> '0' <= #[trigger] ten_digits(n)[i] <= '9',
        text::number_in(ten_digits(n), 10, usize::MAX as int) == if n <= usize::MAX {
            Some(n as int)
        } else {
            None
        },
        text::trimmed(ten_digits(n).push('\r')) == ten_digits(n),
{
    decimal_is_short(n);
    decimal_is_read_back(n);
    let digits = text::decimal(n);
    let s = ten_digits(n);
    let k = (10 - digits.len()) as nat;
    zeros_count_nothing(k, digits);
    assert forall|i: int| 0 <= i < 10 implies '0' <= #[trigger] s[i] <= '9' by {
        if i >= k {
            assert(s[i] == digits[i - k]);
        }
    }
    assert('0' <= s[0] <= '9' && '0' <= s[9] <= '9');
    let line = s.push('\r');
    assert(line[0] == s[0]);
    assert(line.drop_last() =~= s);
    assert(text::without_trailing_white(s) == s);
}

proof fn line_ends_at(s: Seq<char>, from: int, end: int)
    requires
        0 <= from <= end < s.len(),
        s[end] == '\n',
        forall|i: int| from <= i < end ==> s[i] != '\n',
    ensures
        line_end(s, from) == end,
    decreases end - from,
{
    if from < end {
        line_ends_at(s, from + 1, end);
    }
}

#[verifier::spinoff_prover]
proof fn header_is_laid_out(e: nat, fe: nat)
    requires
        e <= MAX_CF_HTML_OFFSET,
        fe <= MAX_CF_HTML_OFFSET,
    ensures
        ({
            let h = cf_html_header(e, fe);
            &&& h.len() == CF_HTML_HEADER_BYTES
            &&& is_ascii_chars(h)
            &&& h[0] == 'V'
            &&& h[12] == '\n'
            &&& forall|i: int| 0 <= i < 12 ==> h[i] != '\n'
            &&& h.subrange(13, 23) == "StartHTML:"@
            &&& h.subrange(23, 33) == ten_digits(CF_HTML_HEADER_BYTES as nat)
            &&& h[33] == '\r'
            &&& h[34] == '\n'
            &&& h.subrange(35, 43) == "EndHTML:"@
            &&& h.subrange(43, 53) == ten_digits(e)
            &&& h[53] == '\r'
            &&& h[54] == '\n'
        }),
{
    reveal_strlit("Version:1.0\r\nStartHTML:");
    reveal_strlit("\r\nEndHTML:");
    reveal_strlit("\r\nStartFragment:");
    reveal_strlit("\r\nEndFragment:");
    reveal_strlit("\r\n");
    reveal_strlit("StartHTML:");
    reveal_strlit("EndHTML:");
    ten_digits_are_read_back(CF_HTML_HEADER_BYTES as nat);
    ten_digits_are_read_back(e);
    ten_digits_are_read_back(CF_HTML_FRAGMENT_START as nat);
    ten_digits_are_read_back(fe);
    let h = cf_html_header(e, fe);
    assert(h.subrange(13, 23) =~= "StartHTML:"@);
    assert(h.subrange(23, 33) =~= ten_digits(CF_HTML_HEADER_BYTES as nat));
    assert(h.subrange(35, 43) =~= "EndHTML:"@);
    assert(h.subrange(43, 53) =~= ten_digits(e));
    let a = "Version:1.0\r\nStartHTML:"@;
    let b = ten_digits(CF_HTML_HEADER_BYTES as nat);
    let c = "\r\nEndHTML:"@;
    let d = ten_digits(e);
    let f = "\r\nStartFragment:"@;
    let g = ten_digits(CF_HTML_FRAGMENT_START as nat);
    let i = "\r\nEndFragment:"@;
    let j = ten_digits(fe);
    let k = "\r\n"@;
    assert(is_ascii_chars(a));
    assert(is_ascii_chars(b));
    assert(is_ascii_chars(c));
    assert(is_ascii_chars(d));
    assert(is_ascii_chars(f));
    assert(is_ascii_chars(g));
    assert(is_ascii_chars(i));
    assert(is_ascii_chars(j));
    assert(is_ascii_chars(k));
    ascii_concat(a, b);
    ascii_concat(a + b, c);
    ascii_concat(a + b + c, d);
    ascii_concat(a + b + c + d, f);
    ascii_concat(a + b + c + d + f, g);
    ascii_concat(a + b + c + d + f + g, i);
    ascii_concat(a + b + c + d + f + g + i, j);
    ascii_concat(a + b + c + d + f + g + i + j, k);
}

proof fn ascii_concat(a: Seq<char>, b: Seq<char>)
    requires
        is_ascii_chars(a),
        is_ascii_chars(b),
    ensures
        is_ascii_chars(a + b),
{
}

#[verifier::spinoff_prover]
proof fn header_lines_are_found(header: Seq<char>, e: nat, fe: nat)
    requires
        e <= MAX_CF_HTML_OFFSET,
        fe <= MAX_CF_HTML_OFFSET,
        cf_html_header(e, fe).is_prefix_of(header),
    ensures
        header.len() >= CF_HTML_HEADER_BYTES,
        header[0] == 'V',
        line_end(header, 0) == 12,
        line_end(header, 13) == 34,
        line_end(header, 35) == 54,
        header.subrange(13, 23) == "StartHTML:"@,
        header.subrange(35, 43) == "EndHTML:"@,
        header.subrange(23, 34) == ten_digits(CF_HTML_HEADER_BYTES as nat).push('\r'),
        header.subrange(43, 54) == ten_digits(e).push('\r'),
{
    let h = cf_html_header(e, fe);
    header_is_laid_out(e, fe);
    ten_digits_are_read_back(CF_HTML_HEADER_BYTES as nat);
    ten_digits_are_read_back(e);
    reveal_strlit("StartHTML:");
    reveal_strlit("EndHTML:");
    assert(forall|i: int| 0 <= i < 105 ==> header[i] == h[i]);
    line_ends_at(header, 0, 12);
    assert forall|i: int| 13 <= i < 34 implies header[i] != '\n' by {
        if i < 23 {
            assert(h.subrange(13, 23)[i - 13] == header[i]);
        } else if i < 33 {
            assert(h.subrange(23, 33)[i - 23] == header[i]);
        }
    }
    line_ends_at(header, 13, 34);
    assert forall|i: int| 35 <= i < 54 implies header[i] != '\n' by {
        if i < 43 {
            assert(h.subrange(35, 43)[i - 35] == header[i]);
        } else if i < 53 {
            assert(h.subrange(43, 53)[i - 43] == header[i]);
        }
    }
    line_ends_at(header, 35, 54);
    assert(header.subrange(13, 23) =~= h.subrange(13, 23));
    assert(header.subrange(35, 43) =~= h.subrange(35, 43));
    assert(header.subrange(23, 34) =~= h.subrange(23, 33).push('\r'));
    assert(header.subrange(43, 54) =~= h.subrange(43, 53).push('\r'));
}

proof fn other_keys_are_passed(s: Seq<char>, key: Seq<char>, from: int, end: int)
    requires
        0 <= from <= end < s.len(),
        line_end(s, from) == end,
        key.len() > 0,
        s[from] != key[0],
    ensures
        offset_from(s, key, from) == offset_from(s, key, end + 1),
{
    if text::stands_at(s, key, from) {
        assert(s.subrange(from, from + key.len())[0] == s[from]);
    }
}

#[verifier::spinoff_prover]
proof fn offsets_are_found(header: Seq<char>, e: nat, fe: nat)
    requires
        e <= MAX_CF_HTML_OFFSET,
        fe <= MAX_CF_HTML_OFFSET,
        e <= usize::MAX,
        cf_html_header(e, fe).is_prefix_of(header),
    ensures
        offset_from(header, "StartHTML:"@, 0) == Some(CF_HTML_HEADER_BYTES as int),
        offset_from(header, "EndHTML:"@, 0) == Some(e as int),
{
    let first = "StartHTML:"@;
    let second = "EndHTML:"@;
    reveal_strlit("StartHTML:");
    reveal_strlit("EndHTML:");
    header_lines_are_found(header, e, fe);
    ten_digits_are_read_back(CF_HTML_HEADER_BYTES as nat);
    ten_digits_are_read_back(e);
    assert(header.subrange(13, 23)[0] == header[13]);
    other_keys_are_passed(header, first, 0, 12);
    other_keys_are_passed(header, second, 0, 12);
    other_keys_are_passed(header, second, 13, 34);
    assert(text::stands_at(header, first, 13));
    assert(text::stands_at(header, second, 35));
}

/// HTML that was stored is read back as a whole document, whatever follows its header.
pub proof fn stored_html_is_read_back(fragment: Seq<char>, header: Seq<char>)
    requires
        cf_html_error(fragment) is None,
        html_end(fragment) <= usize::MAX,
        cf_html_header(html_end(fragment), fragment_end(fragment)).is_prefix_of(header),
    ensures
        document_in(encode_utf8(cf_html(fragment)), header) == Ok::<Seq<char>, ErrorView>(
            document_of(fragment),
        ),
        encode_utf8(cf_html(fragment)).len() == html_end(fragment),
        encode_utf8(cf_html(fragment)).take(CF_HTML_HEADER_BYTES as int) == encode_utf8(
            cf_html_header(html_end(fragment), fragment_end(fragment)),
        ),
{
    stored_html_is_laid_out(fragment);
    let e = html_end(fragment);
    let fe = fragment_end(fragment);
    offsets_are_found(header, e, fe);
    let doc = document_of(fragment);
    encode_utf8_valid_utf8(doc);
    encode_utf8_decode_utf8(doc);
}

proof fn stored_html_is_laid_out(fragment: Seq<char>)
    requires
        cf_html_error(fragment) is None,
    ensures
        ({
            let raw = encode_utf8(cf_html(fragment));
            let start = CF_HTML_HEADER_BYTES as int;
            &&& raw.len() == html_end(fragment)
            &&& raw.take(start) == encode_utf8(
                cf_html_header(html_end(fragment), fragment_end(fragment)),
            )
            &&& raw.subrange(start, raw.len() as int) == encode_utf8(document_of(fragment))
        }),
{
    let h = cf_html_header(html_end(fragment), fragment_end(fragment));
    let doc = document_of(fragment);
    header_is_laid_out(html_end(fragment), fragment_end(fragment));
    is_ascii_chars_encode_utf8(h);
    let prefix = "<html><body><!--StartFragment-->"@;
    let suffix = "<!--EndFragment--></body></html>"@;
    reveal_strlit("<html><body><!--StartFragment-->");
    reveal_strlit("<!--EndFragment--></body></html>");
    assert(is_ascii_chars(prefix));
    assert(is_ascii_chars(suffix));
    is_ascii_chars_encode_utf8(prefix);
    is_ascii_chars_encode_utf8(suffix);
    text::encode_concat(h, doc);
    text::encode_concat(prefix + fragment, suffix);
    text::encode_concat(prefix, fragment);
    let raw = encode_utf8(cf_html(fragment));
    assert(raw.take(CF_HTML_HEADER_BYTES as int) =~= encode_utf8(h));
    assert(raw.subrange(CF_HTML_HEADER_BYTES as int, raw.len() as int) =~= encode_utf8(doc));
}

/// The fragment of a document that was made of a fragment is that fragment, unless it
/// holds the mark of its end itself: storing what was read back changes nothing.
pub proof fn fragments_are_read_back(fragment: Seq<char>)
    requires
        !text::holds(fragment, end_marker()),
    ensures
        fragment_of(document_of(fragment)) == fragment,
{
    let prefix = "<html><body><!--StartFragment-->"@;
    let suffix = "<!--EndFragment--></body></html>"@;
    reveal_strlit("<html><body><!--StartFragment-->");
    reveal_strlit("<!--EndFragment--></body></html>");
    reveal_strlit("<!--StartFragment-->");
    reveal_strlit("<!--EndFragment-->");
    let start = start_marker();
    let end = end_marker();
    let doc = document_of(fragment);
    let n = fragment.len() as int;
    assert(doc.subrange(12, 32) =~= start);
    assert(text::stands_at(doc, start, 12));
    text::first_at_is_first(doc, start, 0);
    assert forall|i: int| 0 <= i < 12 implies !text::stands_at(doc, start, i) by {
        if text::stands_at(doc, start, i) {
            assert(doc.subrange(i, i + 20)[1] == doc[i + 1]);
            assert(doc[i + 1] == prefix[i + 1]);
        }
    }
    assert(text::first_at(doc, start, 0) == Some(12int));
    assert(doc.subrange(32 + n, 50 + n) =~= end);
    assert(text::stands_at(doc, end, 32 + n));
    text::first_at_is_first(doc, end, 32);
    assert forall|i: int| 32 <= i < 32 + n implies !text::stands_at(doc, end, i) by {
        if text::stands_at(doc, end, i) {
            let part = doc.subrange(i, i + 18);
            if i + 18 <= 32 + n {
                assert(fragment.subrange(i - 32, i - 14) =~= part);
                assert(text::stands_at(fragment, end, i - 32));
            } else {
                let k = 32 + n - i;
                assert(part[k] == doc[32 + n]);
                assert(doc[32 + n] == suffix[0]);
            }
        }
    }
    assert(text::first_at(doc, end, 32) == Some(32 + n));
    assert(doc.subrange(32, 32 + n) =~= fragment);
}

/// HTML within the limit is a content as it stands, and one over the limit is refused for its
/// size.
pub proof fn html_within_the_limit_is_a_content(t: Seq<char>, limit_bytes: u64)
    ensures
        encode_utf8(t).len() <= limit_bytes ==> html_content(Ok(t), limit_bytes) == Ok::<
            _,
            ErrorView,
        >(PayloadView::Html(t)),
        encode_utf8(t).len() > limit_bytes ==> html_content(Ok(t), limit_bytes) == Err::<
            PayloadView,
            _,
        >(ErrorView::TooLarge(encode_utf8(t).len() as u64, limit_bytes)),
{
}

/// Formatted text that comes as bytes is a content as it stands, of the kind that is said, if it
/// is within the limit; other kinds are none.
pub proof fn rich_text_comes_as_it_stands(t: Seq<char>, kind: Seq<char>, limit_bytes: u64)
    requires
        encode_utf8(t).len() <= limit_bytes,
    ensures
        output_content("html"@, Ok(encode_utf8(t)), limit_bytes) == Ok::<_, ErrorView>(
            Some(PayloadView::Html(t)),
        ),
        output_content("rtf"@, Ok(encode_utf8(t)), limit_bytes) == Ok::<_, ErrorView>(
            Some(PayloadView::Rtf(t)),
        ),
        kind != "html"@ && kind != "rtf"@ ==> output_content(
            kind,
            Ok(encode_utf8(t)),
            limit_bytes,
        ) == Ok::<Option<PayloadView>, ErrorView>(None),
{
    encode_utf8_valid_utf8(t);
    encode_utf8_decode_utf8(t);
    reveal_strlit("html");
    reveal_strlit("rtf");
    assert("html"@.len() != "rtf"@.len());
}

/// Where a clipboard offers HTML it is taken, and RTF only without it; what is empty is not
/// offered.
pub proof fn html_comes_before_rtf(html: Seq<char>, rtf: Seq<char>, limit_bytes: u64)
    requires
        0 < encode_utf8(html).len() <= limit_bytes,
        0 < encode_utf8(rtf).len() <= limit_bytes,
    ensures
        offered_content(Some(encode_utf8(html)), Some(encode_utf8(rtf)), limit_bytes) == Ok::<
            _,
            ErrorView,
        >(Some(PayloadView::Html(html))),
        offered_content(None, Some(encode_utf8(rtf)), limit_bytes) == Ok::<_, ErrorView>(
            Some(PayloadView::Rtf(rtf)),
        ),
        offered_content(Some(Seq::empty()), Some(encode_utf8(rtf)), limit_bytes) == Ok::<
            _,
            ErrorView,
        >(Some(PayloadView::Rtf(rtf))),
        offered_content(None, None, limit_bytes) == Ok::<Option<PayloadView>, ErrorView>(None),
        offered_content(Some(Seq::empty()), None, limit_bytes) == Ok::<
            Option<PayloadView>,
            ErrorView,
        >(None),
{
    rich_text_comes_as_it_stands(html, "html"@, limit_bytes);
    rich_text_comes_as_it_stands(rtf, "rtf"@, limit_bytes);
}

/// A document without markers and without a body is its own fragment.
pub proof fn bare_documents_are_fragments(html: Seq<char>)
    requires
        !text::holds(html, "<!--StartFragment-->"@),
        !text::holds(text::ascii_lowered(html), "<body"@),
    ensures
        fragment_of(html) == html,
{
    text::first_at_is_first(html, start_marker(), 0);
    text::first_at_is_first(text::ascii_lowered(html), "<body"@, 0);
}

/// What stands between the first markers of a document is its fragment, as it stands, whatever
/// is around it.
pub proof fn marked_parts_are_fragments(before: Seq<char>, part: Seq<char>, after: Seq<char>)
    requires
        !text::holds(part + "<!--EndFragment-->"@.drop_last(), "<!--EndFragment-->"@),
        !text::holds(before + "<!--StartFragment-->"@.drop_last(), "<!--StartFragment-->"@),
    ensures
        fragment_of(before + "<!--StartFragment-->"@ + part + "<!--EndFragment-->"@ + after) == part,
{
    let start = start_marker();
    let end = end_marker();
    reveal_strlit("<!--StartFragment-->");
    reveal_strlit("<!--EndFragment-->");
    let html = before + start + part + end + after;
    let p = before.len() as int;
    let from = p + start.len();
    let q = from + part.len();
    assert(html.subrange(p, p + start.len()) =~= start);
    assert(html.subrange(q, q + end.len()) =~= end);
    text::first_at_is_first(html, start, 0);
    assert(text::stands_at(html, start, p));
    let found = text::first_at(html, start, 0);
    if found is Some && found->Some_0 < p {
        let i = found->Some_0;
        let shorter = before + start.drop_last();
        assert(shorter.subrange(i, i + start.len()) =~= html.subrange(i, i + start.len()));
        assert(text::stands_at(shorter, start, i));
    }
    assert(found == Some(p));
    text::first_at_is_first(html, end, from);
    assert(text::stands_at(html, end, q));
    let close = text::first_at(html, end, from);
    if close is Some && close->Some_0 < q {
        let i = close->Some_0;
        let shorter = part + end.drop_last();
        assert(shorter.subrange(i - from, i - from + end.len()) =~= html.subrange(
            i,
            i + end.len(),
        ));
        assert(text::stands_at(shorter, end, i - from));
    }
    assert(close == Some(q));
    assert(html.subrange(from, q) =~= part);
}

proof fn lines_end_at(s: Seq<char>, from: int, to: int)
    requires
        0 <= from <= to <= s.len(),
        forall|i: int| from <= i < to ==> #[trigger] s[i] != '\n',
        to < s.len() ==> s[to] == '\n',
    ensures
        line_end(s, from) == to,
    decreases to - from,
{
    if from < to {
        assert(s[from] != '\n');
        lines_end_at(s, from + 1, to);
    }
}

/// What a helper program prints is its kind in the first line and its bytes, as Base64, in the
/// second; nothing behind them matters.
pub proof fn printed_lines_are_kind_and_bytes(
    kind: Seq<char>,
    encoded: Seq<char>,
    t: Seq<char>,
    limit_bytes: u64,
)
    requires
        kind == "html"@ || kind == "rtf"@,
        encoded.len() > 0,
        forall|i: int| 0 <= i < encoded.len() ==> !text::is_white(#[trigger] encoded[i]),
        is_base64_of(encoded, encode_utf8(t)),
        encode_utf8(t).len() <= limit_bytes,
    ensures
        printed_content(kind + seq!['\n'] + encoded, limit_bytes) == Ok::<_, ErrorView>(
            Some(
                if kind == "html"@ {
                    PayloadView::Html(t)
                } else {
                    PayloadView::Rtf(t)
                },
            ),
        ),
{
    reveal_strlit("html");
    reveal_strlit("rtf");
    let printed = kind + seq!['\n'] + encoded;
    let n = kind.len() as int;
    assert forall|i: int| 0 <= i < n implies #[trigger] printed[i] != '\n' by {
        assert(printed[i] == kind[i]);
    }
    assert(printed[n] == '\n');
    lines_end_at(printed, 0, n);
    assert forall|i: int| n + 1 <= i < printed.len() implies #[trigger] printed[i] != '\n' by {
        assert(printed[i] == encoded[i - n - 1]);
        assert(!text::is_white(encoded[i - n - 1]));
    }
    lines_end_at(printed, n + 1, printed.len() as int);
    assert(printed.take(n) =~= kind);
    assert(printed.subrange(n + 1, printed.len() as int) =~= encoded);
    text::trim_keeps(kind);
    text::trim_keeps(encoded);
    rich_text_comes_as_it_stands(t, kind, limit_bytes);
}

/// A helper program may print four characters for every three bytes of a content, and 4096 more.
pub proof fn printed_contents_have_room(max_item_bytes: u64)
    requires
        max_item_bytes <= 1_048_576_000,
    ensures
        output_limit(max_item_bytes) == (max_item_bytes + 2) / 3 * 4 + 4_096,
{
}

/// The header of stored HTML is looked for in its first 4096 bytes, and in all of it if there
/// are fewer.
pub proof fn headers_stand_in_the_first_bytes(raw: Seq<u8>)
    ensures
        raw.len() <= 4_096 ==> header_scan(raw) == raw,
        raw.len() > 4_096 ==> header_scan(raw) == raw.take(4_096),
{
    if raw.len() == 4_096 {
        assert(raw.take(4_096) =~= raw);
    }
}

/// A fragment can be stored as long as all of it ends before ten digits are used up.
pub proof fn fragments_can_be_stored(fragment: Seq<char>)
    ensures
        encode_utf8(fragment).len() <= 9_999_999_830 ==> cf_html_error(fragment) is None,
        encode_utf8(fragment).len() > 9_999_999_830 ==> cf_html_error(fragment) is Some,
        html_end(fragment) == 169 + encode_utf8(fragment).len(),
        fragment_end(fragment) == 137 + encode_utf8(fragment).len(),
{
}

/// The body of a document without markers is its fragment, as it stands, whatever attributes the
/// body has and in whatever case its tags are written.
pub proof fn bodies_are_fragments(html: Seq<char>, open: int, from: int, to: int)
    requires
        !text::holds(html, "<!--StartFragment-->"@),
        ({
            let lower = text::ascii_lowered(html);
            &&& 0 <= open < from <= to <= html.len()
            &&& text::stands_at(lower, "<body"@, open)
            &&& forall|i: int| 0 <= i < open ==> !#[trigger] text::stands_at(lower, "<body"@, i)
            &&& html[from - 1] == '>'
            &&& forall|i: int| open <= i < from - 1 ==> #[trigger] html[i] != '>'
            &&& text::stands_at(lower, "</body>"@, to)
            &&& forall|i: int| from <= i < to ==> !#[trigger] text::stands_at(lower, "</body>"@, i)
        }),
    ensures
        fragment_of(html) == html.subrange(from, to),
{
    let lower = text::ascii_lowered(html);
    text::first_at_is_first(html, start_marker(), 0);
    text::first_at_is_first(lower, "<body"@, 0);
    reveal_strlit(">");
    let gt = ">"@;
    text::first_at_is_first(lower, gt, open);
    let found = text::first_at(lower, gt, open);
    assert(lower[from - 1] == text::ascii_lower(html[from - 1]));
    assert(lower.subrange(from - 1, from) =~= gt);
    assert(text::stands_at(lower, gt, from - 1));
    if found is Some && found->Some_0 < from - 1 {
        let i = found->Some_0;
        assert(lower.subrange(i, i + 1)[0] == lower[i]);
        assert(gt[0] == '>');
        assert(lower[i] == text::ascii_lower(html[i]));
        assert(html[i] != '>');
    }
    assert(found == Some(from - 1));
    text::first_at_is_first(lower, "</body>"@, from);
}

} // verus!
