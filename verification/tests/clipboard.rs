//! Clipboard contents: files, images, formatted text, fingerprints.

use image::ImageEncoder;
use lan_clipboard::clipboard::archive::ArchiveWriter;
use lan_clipboard::clipboard::file_access::{
    changed_path_error, verified_kind, verify_still_at, verify_unchanged_at, FileState,
};
use lan_clipboard::clipboard::files::{
    check_archive_traversal, check_bundle_is_managed, check_source_kind,
    encode_file_bundle_payload, extracted_mode, is_internal_file_payload,
    join_portable_archive_path, portable_entry, received_bundle, ArchiveEstimate, ArchiveUnpack,
    ExactFile,
};
use lan_clipboard::clipboard::fingerprint::{
    check_hash_traversal, hex_hash, normalize_hash_path, payload_content_hash, ContentHash,
    FileTreeHash,
};
use lan_clipboard::clipboard::image_payload::{
    accept_image_header, bmp_bytes_to_dib_bytes, decode_clipboard_png, decode_image_with_limits,
    dib_to_bmp_bytes, encode_bitmap_payload, encode_dib_payload, encode_existing_png_payload,
    encode_image_payload, ensure_image_source_size, next_image_format, next_image_step,
    png_to_dib_bytes, validate_image_dimensions, write_windows_image_formats, ImageFormatStep,
    ImageKind, ImageStep, RgbaImage, MAX_IMAGE_DIMENSION,
};
use lan_clipboard::clipboard::path_policy::{
    bundle_removal, check_restored_path, inspect_managed_bundle_path, is_internal_path,
    next_bundle_name, path_lies_in, stale_bundles, validate_archive_path, validate_portable_component,
    validate_top_level_names, EntryKind, ReceivedEntry, BUNDLE_TTL_NS, MAX_RETAINED_BUNDLES,
};
use lan_clipboard::clipboard::plain_text::{html_to_plain_bounded, MAX_PLAIN_FALLBACK_BYTES};
use lan_clipboard::clipboard::rich_text::{
    build_windows_cf_html, extract_html_fragment, helper_input, helper_outcome,
    helper_payload_output_limit, next_pasteboard_step, normalize_windows_cf_html,
    offered_rich_text, parse_cf_html_offset, parse_rich_text_output, pasteboard_item,
    payload_of_output, read_document, windows_html_payload, BoundedOutput,
    CF_HTML_HEADER_SCAN_BYTES, PasteboardStep,
};
use lan_clipboard::clipboard::types::{check_size, ClipboardError};
use lan_clipboard::clipboard::{
    read_snapshot, retry_clipboard_io, write_item, ClipboardOffer, ClipboardWrite, OfferedFiles,
    RetryStep,
};
use lan_clipboard::protocol::{ClipboardItem, ClipboardPayload};
use std::cell::{Cell, RefCell};
use std::io::{Cursor, Read};

const FILE_HASH_BUFFER_BYTES: usize = 64 * 1024;

fn rgba_from_fn(width: u32, height: u32, f: impl Fn(u32, u32) -> [u8; 4]) -> RgbaImage {
    let image = image::RgbaImage::from_fn(width, height, |x, y| image::Rgba(f(x, y)));
    RgbaImage { width, height, pixels: image.into_raw() }
}

fn bmp_of(image: &RgbaImage) -> Vec<u8> {
    let mut bmp_bytes = Vec::new();
    image::codecs::bmp::BmpEncoder::new(&mut bmp_bytes)
        .write_image(&image.pixels, image.width, image.height, image::ExtendedColorType::Rgba8)
        .unwrap();
    bmp_bytes
}

fn png_bytes_of(payload: ClipboardPayload) -> Vec<u8> {
    let ClipboardPayload::ImagePng { png_bytes } = payload else {
        panic!("expected image payload");
    };
    png_bytes
}

fn message_of<T>(result: Result<T, ClipboardError>) -> String {
    match result {
        Ok(_) => panic!("expected an error"),
        Err(error) => error.message(),
    }
}

#[test]
fn image_dimensions_have_an_independent_pixel_limit() {
    assert!(validate_image_dimensions(4096, 4096).is_ok());
    assert!(validate_image_dimensions(4096, 4097).is_err());
    assert!(validate_image_dimensions(MAX_IMAGE_DIMENSION + 1, 1).is_err());
}

#[test]
fn refused_dimensions_are_named() {
    assert_eq!(
        message_of(validate_image_dimensions(4096, 4097)),
        "clipboard backend error: image dimensions exceed decode limits: width=4096 height=4097 \
         pixels=16781312 max_dimension=16384 max_pixels=16777216"
    );
    assert!(validate_image_dimensions(0, 7).is_err());
    assert!(validate_image_dimensions(u32::MAX, u32::MAX).is_err());
}

#[test]
fn oversized_encoded_image_is_scaled_to_the_item_limit() {
    let rgba = rgba_from_fn(128, 128, |x, y| {
        [
            (x.wrapping_mul(17) ^ y.wrapping_mul(31)) as u8,
            (x.wrapping_mul(7) ^ y.wrapping_mul(13)) as u8,
            (x.wrapping_mul(3) ^ y.wrapping_mul(5)) as u8,
            255,
        ]
    });

    let png_bytes = png_bytes_of(encode_image_payload(rgba, 1024).unwrap());

    assert!(png_bytes.len() as u64 <= 1024);
    assert!(decode_image_with_limits(&png_bytes, ImageKind::Png, "test png").is_ok());
}

#[test]
fn bmp_and_dib_conversion_round_trips_without_losing_payload() {
    let rgba = rgba_from_fn(2, 2, |_, _| [1, 2, 3, 255]);
    let bmp_bytes = bmp_of(&rgba);

    let dib_bytes = bmp_bytes_to_dib_bytes(&bmp_bytes).unwrap();
    let rebuilt_bmp = dib_to_bmp_bytes(&dib_bytes).unwrap();

    assert_eq!(bmp_bytes_to_dib_bytes(&rebuilt_bmp).unwrap(), dib_bytes);
    assert!(decode_image_with_limits(&rebuilt_bmp, ImageKind::Bmp, "test bmp").is_ok());
}

#[test]
fn bitmap_source_size_is_independent_from_final_transfer_size() {
    let rgba = rgba_from_fn(64, 64, |x, y| {
        [
            x.wrapping_mul(11) as u8,
            y.wrapping_mul(13) as u8,
            (x ^ y).wrapping_mul(17) as u8,
            255,
        ]
    });
    let bmp_bytes = bmp_of(&rgba);
    assert!(bmp_bytes.len() as u64 > 2048);

    let decoded = decode_image_with_limits(&bmp_bytes, ImageKind::Bmp, "test bitmap").unwrap();
    let png_bytes = png_bytes_of(encode_image_payload(decoded, 2048).unwrap());

    assert!(png_bytes.len() as u64 <= 2048);
}

#[test]
fn malformed_dib_palette_cannot_overflow_pixel_offset() {
    let mut dib = vec![0u8; 40];
    dib[0..4].copy_from_slice(&40u32.to_le_bytes());
    dib[14..16].copy_from_slice(&8u16.to_le_bytes());
    dib[32..36].copy_from_slice(&u32::MAX.to_le_bytes());

    assert!(dib_to_bmp_bytes(&dib).is_err());
}

#[test]
fn windows_image_write_treats_png_as_best_effort_after_dib() {
    let writes = RefCell::new(Vec::new());
    let result = write_windows_image_formats(
        || {
            writes.borrow_mut().push("dib");
            Ok(())
        },
        || {
            writes.borrow_mut().push("png");
            Err("png failed")
        },
    );

    assert_eq!(result, Ok(()));
    assert_eq!(*writes.borrow(), ["dib", "png"]);
}

#[test]
fn windows_image_write_requires_dib_before_attempting_png() {
    let png_attempted = Cell::new(false);
    let result = write_windows_image_formats(
        || Err("dib failed"),
        || {
            png_attempted.set(true);
            Ok(())
        },
    );

    assert_eq!(result, Err("dib failed"));
    assert!(!png_attempted.get());
}

#[test]
fn the_png_follows_the_bitmap() {
    assert_eq!(next_image_format::<&str>(&Ok(())), ImageFormatStep::WritePng);
    assert_eq!(next_image_format(&Err("dib failed")), ImageFormatStep::Stop);
    let order = std::cell::RefCell::new(Vec::new());
    let result = write_windows_image_formats(
        || {
            order.borrow_mut().push("dib");
            Ok::<(), &str>(())
        },
        || {
            order.borrow_mut().push("png");
            Ok(())
        },
    );
    assert_eq!(result, Ok(()));
    assert_eq!(order.into_inner(), ["dib", "png"]);
}

#[test]
fn image_that_fits_is_encoded_once() {
    let rgba = rgba_from_fn(3, 2, |x, y| [x as u8, y as u8, 9, 255]);
    let pixels = rgba.pixels.clone();
    let png_bytes = png_bytes_of(encode_image_payload(rgba, 1_000_000).unwrap());

    let decoded = decode_clipboard_png(&png_bytes, 1_000_000).unwrap();
    assert_eq!((decoded.width, decoded.height), (3, 2));
    assert_eq!(decoded.pixels, pixels);
}

#[test]
fn image_steps_shrink_until_one_pixel() {
    let encoded = Ok(vec![0u8; 100]);
    assert!(matches!(next_image_step(100, 10, encoded, 99), ImageStep::Shrink(85, 8)));
    assert!(matches!(next_image_step(2, 1, Ok(vec![0u8; 2]), 1), ImageStep::Shrink(1, 1)));
    assert!(matches!(
        next_image_step(1, 1, Ok(vec![0u8; 2]), 1),
        ImageStep::Failed(ClipboardError::TooLarge { size_bytes: 2, limit_bytes: 1 })
    ));
    assert!(matches!(next_image_step(9, 9, Ok(vec![0u8; 2]), 2), ImageStep::Done(png) if png.len() == 2));
    assert!(matches!(
        next_image_step(9, 9, Err("broken".to_string()), 2),
        ImageStep::Failed(ClipboardError::Backend(text)) if text == "broken"
    ));
}

#[test]
fn image_that_cannot_fit_is_too_large() {
    let rgba = rgba_from_fn(4, 4, |_, _| [1, 2, 3, 4]);
    assert!(matches!(
        encode_image_payload(rgba, 1),
        Err(ClipboardError::TooLarge { limit_bytes: 1, .. })
    ));
}

#[test]
fn headers_decide_before_decoding() {
    assert!(accept_image_header(10, Ok((100, 100)), "ctx").is_ok());
    assert!(accept_image_header(10, Ok((0, 100)), "ctx").is_err());
    assert_eq!(
        message_of(accept_image_header(10, Err("bad magic".to_string()), "ctx")),
        "clipboard backend error: ctx: bad magic"
    );
    assert_eq!(
        message_of(ensure_image_source_size(83_886_081, "windows dib")),
        "clipboard backend error: windows dib exceeds image decode source limit: \
         size_bytes=83886081 limit_bytes=83886080"
    );
    assert!(ensure_image_source_size(83_886_080, "windows dib").is_ok());
    assert!(decode_image_with_limits(b"not a png", ImageKind::Png, "decode").is_err());
}

#[test]
fn small_png_stays_as_it_is() {
    let rgba = rgba_from_fn(5, 5, |x, y| [x as u8, y as u8, 1, 255]);
    let png = png_bytes_of(encode_image_payload(rgba, 100_000).unwrap());
    let kept = png_bytes_of(encode_existing_png_payload(png.clone(), 100_000).unwrap());
    assert_eq!(kept, png);
    assert!(encode_existing_png_payload(vec![1, 2, 3], 100_000).is_err());
}

#[test]
fn oversized_png_is_made_smaller() {
    let rgba = rgba_from_fn(64, 64, |x, y| [(x * 37) as u8, (y * 91) as u8, (x * y) as u8, 255]);
    let png = png_bytes_of(encode_image_payload(rgba, 1_000_000).unwrap());
    let limit = png.len() as u64 / 2;
    let smaller = png_bytes_of(encode_existing_png_payload(png, limit).unwrap());
    assert!(smaller.len() as u64 <= limit);
}

#[test]
fn bitmaps_become_images() {
    let rgba = rgba_from_fn(4, 3, |x, y| [x as u8 * 10, y as u8 * 20, 7, 255]);
    let pixels = rgba.pixels.clone();
    let bmp = bmp_of(&rgba);
    let dib = bmp_bytes_to_dib_bytes(&bmp).unwrap();

    assert!(encode_dib_payload(&[], 1_000).unwrap().is_none());
    assert!(encode_bitmap_payload(&[], 1_000).unwrap().is_none());
    let from_dib = png_bytes_of(encode_dib_payload(&dib, 1_000_000).unwrap().unwrap());
    let from_bitmap = png_bytes_of(encode_bitmap_payload(&bmp, 1_000_000).unwrap().unwrap());
    assert_eq!(from_dib, from_bitmap);
    assert_eq!(decode_clipboard_png(&from_dib, 1_000_000).unwrap().pixels, pixels);
    assert_eq!(png_to_dib_bytes(&from_dib).unwrap(), dib);
    assert!(encode_dib_payload(&[1, 2, 3], 1_000).is_err());
}

#[test]
fn bitmap_headers_are_checked() {
    assert_eq!(
        message_of(bmp_bytes_to_dib_bytes(&[0u8; 14])),
        "clipboard backend error: encoded windows bmp is missing file header"
    );
    assert_eq!(
        message_of(bmp_bytes_to_dib_bytes(&[0u8; 15])),
        "clipboard backend error: encoded windows bmp has invalid signature"
    );
    assert_eq!(
        message_of(dib_to_bmp_bytes(&[0u8; 39])),
        "clipboard backend error: windows dib too short"
    );
    let mut dib = vec![0u8; 44];
    dib[0] = 45;
    assert_eq!(
        message_of(dib_to_bmp_bytes(&dib)),
        "clipboard backend error: invalid dib header size: 45"
    );
    dib[0] = 40;
    dib[14] = 24;
    dib[32] = 2;
    assert_eq!(
        message_of(dib_to_bmp_bytes(&dib)),
        "clipboard backend error: windows dib has invalid pixel offset or file size: \
         pixel_offset=62 file_size=58"
    );
    dib[32] = 1;
    let bmp = dib_to_bmp_bytes(&dib).unwrap();
    assert_eq!(&bmp[..14], &[0x42, 0x4d, 58, 0, 0, 0, 0, 0, 0, 0, 58, 0, 0, 0]);
    assert_eq!(&bmp[14..], &dib[..]);
    dib[32] = 0;
    dib[16] = 3;
    assert!(dib_to_bmp_bytes(&dib).is_err());
    dib.extend_from_slice(&[0u8; 8]);
    assert_eq!(dib_to_bmp_bytes(&dib).unwrap()[10], 66);
}

#[test]
fn top_level_names_reject_paths_and_case_collisions() {
    assert!(validate_top_level_names(&vec!["../secret".to_string()]).is_err());
    assert!(validate_top_level_names(&vec!["a\\b".to_string()]).is_err());
    assert!(validate_top_level_names(&vec!["A.txt".to_string(), "a.txt".to_string()]).is_err());
    assert!(validate_top_level_names(&vec!["safe.txt".to_string()]).is_ok());
    assert!(validate_top_level_names(&vec!["report:secret.txt".to_string()]).is_err());
    assert!(validate_top_level_names(&vec!["CON.txt".to_string()]).is_err());
    assert!(validate_top_level_names(&vec!["CON .txt".to_string()]).is_err());
    assert!(validate_top_level_names(&vec!["COM¹.log".to_string()]).is_err());
    assert!(validate_top_level_names(&vec!["LPT³".to_string()]).is_err());
    assert!(validate_top_level_names(&vec!["trailing. ".to_string()]).is_err());
}

#[test]
fn archive_paths_must_be_relative_and_shallow() {
    assert!(validate_archive_path("folder/file.txt").is_ok());
    assert!(validate_archive_path("../file.txt").is_err());
    assert!(validate_archive_path("/tmp/file.txt").is_err());
    assert!(validate_archive_path("folder\\file.txt").is_err());
    assert!(validate_archive_path("folder/NUL.txt").is_err());
    assert!(validate_archive_path("folder/data:stream").is_err());
}

#[test]
fn path_refusals_are_named() {
    let prefix = "clipboard backend error: ";
    let expect = |path: &str, text: &str| {
        assert_eq!(message_of(validate_archive_path(path)), format!("{prefix}{text}"));
    };
    expect("", "invalid archive entry path length");
    expect(&"a/".repeat(2049), "invalid archive entry path length");
    expect("a/../b", "archive entry path traversal rejected");
    expect("./a", "archive entry path traversal rejected");
    expect(&"a/".repeat(33), "archive entry depth exceeds limit");
    expect("a/b?", "archive path contains a non-portable component");
    expect("a/lpt9", "archive path uses a reserved Windows device name");
    assert!(validate_archive_path(&"a/".repeat(32)).is_ok());
    assert!(validate_archive_path("a//b/./c").is_ok());
    assert!(validate_portable_component("COM0").is_ok());
    assert!(validate_portable_component("com10").is_ok());
    assert!(validate_portable_component(&"x".repeat(255)).is_ok());
    assert!(validate_portable_component(&"x".repeat(256)).is_err());
    assert_eq!(
        message_of(validate_top_level_names(&Vec::new())),
        "clipboard backend error: invalid top-level entry count"
    );
    assert_eq!(
        message_of(validate_top_level_names(&vec!["ÄB".to_string(), "äb".to_string()])),
        "clipboard backend error: duplicate top-level entry name"
    );
}

#[test]
fn active_receive_directories_are_not_removed_by_retention_cleanup() {
    let entries: Vec<ReceivedEntry> = (0..(MAX_RETAINED_BUNDLES + 2))
        .map(|index| ReceivedEntry {
            path: format!("bundle-{index}"),
            is_directory: true,
            modified_ns: 0,
        })
        .collect();
    let active: Vec<String> = entries.iter().map(|entry| entry.path.clone()).collect();
    assert!(stale_bundles(&entries, &active, u64::MAX).is_empty());
}

#[test]
fn idle_bundles_are_removed_by_count_and_age() {
    let entries: Vec<ReceivedEntry> = (0..11)
        .map(|index| ReceivedEntry {
            path: format!("bundle-{index}"),
            is_directory: true,
            modified_ns: index,
        })
        .collect();
    let active = vec!["bundle-0".to_string()];
    let removed = stale_bundles(&entries, &active, BUNDLE_TTL_NS);
    let names: Vec<&str> = removed.iter().map(|entry| entry.path.as_str()).collect();
    assert_eq!(names, ["bundle-2", "bundle-1"]);
    let removed = stale_bundles(&entries, &active, BUNDLE_TTL_NS + 4);
    let names: Vec<&str> = removed.iter().map(|entry| entry.path.as_str()).collect();
    assert_eq!(names, ["bundle-3", "bundle-2", "bundle-1"]);
}

#[test]
fn managed_bundles_are_recognised() {
    let id = "550e8400-e29b-41d4-a716-446655440000";
    assert!(inspect_managed_bundle_path(true, true, Some(id), EntryKind::Directory).is_ok());
    assert!(inspect_managed_bundle_path(true, true, Some(id), EntryKind::Missing).is_ok());
    assert!(inspect_managed_bundle_path(false, true, Some(id), EntryKind::Directory).is_err());
    assert!(inspect_managed_bundle_path(true, false, Some(id), EntryKind::Directory).is_err());
    assert!(inspect_managed_bundle_path(true, true, Some("x"), EntryKind::Directory).is_err());
    assert!(inspect_managed_bundle_path(true, true, None, EntryKind::Directory).is_err());
    assert!(inspect_managed_bundle_path(true, true, Some(id), EntryKind::SymbolicLink).is_err());
    assert!(matches!(bundle_removal(EntryKind::Missing), Ok(false)));
    assert!(matches!(bundle_removal(EntryKind::Directory), Ok(true)));
    assert!(bundle_removal(EntryKind::File).is_err());
}

#[test]
fn new_bundles_get_a_name_of_their_own() {
    let name = next_bundle_name(0).expect("name");
    assert_ne!(name, next_bundle_name(7).expect("name"));
    assert!(inspect_managed_bundle_path(true, true, Some(&name), EntryKind::Directory).is_ok());
    assert!(message_of(next_bundle_name(8)).contains("failed to allocate"));
}

#[test]
fn restored_paths_stay_inside() {
    let parts = |path: &str| path.split('/').map(|p| p.as_bytes().to_vec()).collect::<Vec<_>>();
    let root = parts("var/received");
    assert!(path_lies_in(&parts("var/received/a"), &root));
    assert!(!path_lies_in(&parts("var/received2/a"), &root));
    assert!(check_restored_path(&parts("var/received/a"), &root).is_ok());
    assert!(check_restored_path(&root, &root).is_err());
    assert!(check_restored_path(&parts("var/other/a"), &root).is_err());
    assert!(is_internal_path(&Some(parts("var/received/a")), &Some(root.clone())));
    assert!(!is_internal_path(&None, &Some(root.clone())));
    assert!(!is_internal_path(&Some(root), &None));
}

#[test]
fn unpack_rejects_symlinks_and_oversized_entries() {
    let mut link_archive = Vec::new();
    {
        let mut builder = tar::Builder::new(&mut link_archive);
        let mut header = tar::Header::new_gnu();
        header.set_entry_type(tar::EntryType::Symlink);
        header.set_size(0);
        header.set_mode(0o777);
        header.set_cksum();
        builder.append_link(&mut header, "link", "target").expect("append symlink");
        builder.finish().expect("finish symlink archive");
    }
    assert!(unpack_archive(link_archive, &["link"], 1024).is_err());

    let mut archive = Vec::new();
    {
        let bytes = [0u8; 32];
        let mut builder = tar::Builder::new(&mut archive);
        let mut header = tar::Header::new_gnu();
        header.set_size(bytes.len() as u64);
        header.set_mode(0o7777);
        header.set_cksum();
        builder
            .append_data(&mut header, "large.bin", Cursor::new(bytes))
            .expect("append test file");
        builder.finish().expect("finish test archive");
    }
    assert!(matches!(
        unpack_archive(archive, &["large.bin"], 16),
        Err(ClipboardError::TooLarge { .. })
    ));
}

fn unpack_archive(archive: Vec<u8>, names: &[&str], limit: u64) -> Result<(), ClipboardError> {
    let names: Vec<String> = names.iter().map(|name| name.to_string()).collect();
    let mut unpack = ArchiveUnpack::new(&names, limit)?;
    let mut archive = tar::Archive::new(Cursor::new(archive));
    for entry in archive.entries().unwrap() {
        let entry = entry.unwrap();
        let kind = match entry.header().entry_type() {
            tar::EntryType::Regular => EntryKind::File,
            tar::EntryType::Directory => EntryKind::Directory,
            tar::EntryType::Symlink => EntryKind::SymbolicLink,
            _ => EntryKind::Other,
        };
        let path = entry.path().unwrap().to_str().unwrap().to_string();
        unpack.next_entry(&path, kind, entry.size())?;
    }
    unpack.finish()
}

#[test]
fn archives_must_hold_what_was_announced() {
    let names = vec!["a".to_string(), "b.txt".to_string()];
    let mut unpack = ArchiveUnpack::new(&names, 100).unwrap();
    unpack.next_entry("a", EntryKind::Directory, 0).unwrap();
    unpack.next_entry("a/x", EntryKind::File, 60).unwrap();
    assert!(message_of(unpack.next_entry("A/X", EntryKind::File, 1)).contains("duplicate"));
    assert!(message_of(unpack.next_entry("c", EntryKind::File, 1)).contains("undeclared"));
    assert!(message_of(unpack.next_entry("a/y", EntryKind::Other, 1)).contains("links"));
    assert!(unpack.next_entry("a/../z", EntryKind::File, 1).is_err());
    assert!(message_of(unpack.finish()).contains("missing"));
    assert!(matches!(
        unpack.next_entry("b.txt", EntryKind::File, u64::MAX),
        Err(ClipboardError::TooLarge { size_bytes: u64::MAX, limit_bytes: 100 })
    ));
    unpack.next_entry("b.txt", EntryKind::File, 40).unwrap();
    assert_eq!(unpack.extracted_bytes, 100);
    assert!(unpack.finish().is_ok());
    assert!(ArchiveUnpack::new(&vec!["..".to_string()], 100).is_err());
}

#[test]
fn archive_size_is_the_length_of_the_archive() {
    for name in ["short.txt".to_string(), format!("{}.txt", "a".repeat(120)), "b".repeat(100)] {
        let content = b"content";
        let mut estimate = ArchiveEstimate::new();
        estimate.add_entry(&name, EntryKind::File, content.len() as u64).unwrap();
        estimate.add_entry("dir", EntryKind::Directory, 77).unwrap();

        let mut archive = Vec::new();
        let mut builder = tar::Builder::new(&mut archive);
        let mut header = tar::Header::new_gnu();
        header.set_size(content.len() as u64);
        header.set_cksum();
        builder.append_data(&mut header, &name, Cursor::new(content)).unwrap();
        let mut header = tar::Header::new_gnu();
        header.set_entry_type(tar::EntryType::Directory);
        header.set_size(0);
        header.set_cksum();
        builder.append_data(&mut header, "dir", std::io::empty()).unwrap();
        builder.finish().unwrap();
        drop(builder);
        assert_eq!(archive.len() as u64, estimate.total);
        assert_eq!(estimate.entry_count, 2);
    }
}

#[test]
fn header_names_are_measured_without_needless_parts() {
    let long = format!("{}//./{}", "a".repeat(50), "b".repeat(49));
    let mut estimate = ArchiveEstimate::new();
    estimate.add_entry(&long, EntryKind::File, 0).unwrap();
    assert_eq!(estimate.total, 1024 + 512);
    let longer = format!("{}/{}", "a".repeat(50), "b".repeat(50));
    estimate.add_entry(&longer, EntryKind::File, 1).unwrap();
    assert_eq!(estimate.total, 1024 + 512 + 512 + 512 + 512 + 512);
}

#[test]
fn archive_estimates_are_checked() {
    let mut estimate = ArchiveEstimate::new();
    assert!(estimate.add_entry("a/..", EntryKind::File, 1).is_err());
    assert_eq!(estimate.entry_count, 1);
    assert_eq!(estimate.total, 1024);
    assert_eq!(
        message_of(estimate.add_entry("a", EntryKind::File, u64::MAX)),
        "clipboard backend error: archive size overflow"
    );
    assert!(check_archive_traversal(32, 19_999).is_ok());
    assert!(check_archive_traversal(33, 0).is_err());
    assert!(check_archive_traversal(1, 20_000).is_err());
    assert!(check_source_kind(EntryKind::File).is_ok());
    assert!(check_source_kind(EntryKind::Other).is_err());
    assert_eq!(join_portable_archive_path("a/b", "c").unwrap(), "a/b/c");
    assert!(join_portable_archive_path("a", "..").is_err());
}

#[test]
fn copied_files_make_a_list() {
    let payload =
        encode_file_bundle_payload(vec!["/x/a".to_string()], vec!["a".to_string()], 10, 10)
            .unwrap();
    assert!(matches!(
        &payload,
        ClipboardPayload::FileList { estimated_archive_bytes: 10, paths, .. } if paths.len() == 1
    ));
    assert!(is_internal_file_payload(&payload, &vec![true]));
    assert!(!is_internal_file_payload(&payload, &vec![false]));
    assert!(!is_internal_file_payload(&payload, &Vec::new()));
    assert!(received_bundle(&payload).is_none());
    assert!(matches!(
        encode_file_bundle_payload(vec!["/x/a".to_string()], vec!["a".to_string()], 11, 10),
        Err(ClipboardError::TooLarge { size_bytes: 11, limit_bytes: 10 })
    ));
    assert!(encode_file_bundle_payload(Vec::new(), Vec::new(), 1, 10).is_err());
    let text = ClipboardPayload::Text { text: "x".to_string() };
    assert!(!is_internal_file_payload(&text, &vec![true]));
    let bundle = ClipboardPayload::FileBundleDir {
        bundle_dir: "/r/b".to_string(),
        top_level_names: vec!["a".to_string()],
    };
    assert_eq!(received_bundle(&bundle).as_deref(), Some("/r/b"));
    assert!(check_bundle_is_managed(true).is_ok());
    assert!(check_bundle_is_managed(false).is_err());
}

#[test]
fn files_are_read_to_their_length() {
    let mut file = ExactFile::new(10);
    assert_eq!(file.next_read(4), 4);
    assert!(file.note_read(b"abcd").is_ok());
    assert_eq!(file.next_read(100), 6);
    assert!(file.note_read(b"").is_err());
    assert!(file.note_read(b"efghij").is_ok());
    assert_eq!(file.next_read(100), 0);
    assert_eq!(file.finish().expect("whole file").finish(), hex_hash(b"abcdefghij"));
    let mut short = ExactFile::new(10);
    short.note_read(b"abcd").expect("part");
    assert!(short.finish().is_err());
}

#[test]
fn changed_files_are_noticed() {
    let opened = FileState {
        kind: EntryKind::File,
        identity: (1, 2),
        length: 3,
        modified: (4, 5),
        changed: (6, 7),
    };
    assert!(verify_still_at(&opened, &opened, "p").is_ok());
    assert!(verify_unchanged_at(&opened, &opened, &opened, "p").is_ok());
    let moved = FileState { identity: (1, 3), ..opened };
    assert_eq!(
        message_of(verify_still_at(&opened, &moved, "p")),
        changed_path_error("p").message()
    );
    assert_eq!(
        changed_path_error("p").message(),
        "clipboard backend error: clipboard path changed while preparing transfer: p"
    );
    let longer = FileState { length: 4, ..opened };
    assert!(verify_still_at(&opened, &longer, "p").is_ok());
    assert!(verify_unchanged_at(&opened, &longer, &opened, "p").is_err());
    assert!(verify_unchanged_at(&opened, &opened, &longer, "p").is_err());
    let link = FileState { kind: EntryKind::SymbolicLink, ..opened };
    assert!(message_of(verify_still_at(&opened, &link, "p")).contains("symbolic links"));
    assert!(message_of(verified_kind(EntryKind::Other)).contains("special filesystem"));
    assert!(verified_kind(EntryKind::Directory).is_ok());
}

fn hash_of_reader(mut reader: &[u8]) -> String {
    let mut content = ContentHash::new();
    let mut buffer = [0u8; FILE_HASH_BUFFER_BYTES];
    loop {
        let read = reader.read(&mut buffer).expect("read");
        if read == 0 {
            return content.finish();
        }
        content.push(&buffer[..read]);
    }
}

fn content(bytes: &[u8]) -> ContentHash {
    let mut content = ContentHash::new();
    content.push(bytes);
    content
}

#[test]
fn full_reader_hash_detects_changes_after_the_old_sample_boundary() {
    let mut original = vec![b'a'; FILE_HASH_BUFFER_BYTES + 1];
    let mut changed = original.clone();
    changed[FILE_HASH_BUFFER_BYTES] = b'b';

    let original_hash = hash_of_reader(&original);
    let changed_hash = hash_of_reader(&changed);

    assert_ne!(original_hash, changed_hash);

    original[FILE_HASH_BUFFER_BYTES] = b'b';
    let matching_hash = hash_of_reader(&original);
    assert_eq!(matching_hash, changed_hash);
    assert_eq!(matching_hash, hex_hash(&original));
}

/// Writes an archive as a program does that reads files in parts; returns it with its hash.
fn stream_archive(entries: &[(&str, EntryKind, &[u8])]) -> (Vec<u8>, String) {
    let mut archive = ArchiveWriter::new();
    let mut encoded = Vec::new();
    for (path, kind, content) in entries {
        encoded.extend(archive.add_entry(path, *kind, content.len() as u64).expect("entry"));
        if *kind == EntryKind::File {
            let mut rest = *content;
            loop {
                let limit = archive.next_read(4);
                if limit == 0 {
                    break;
                }
                archive.note_read(&rest[..limit]).expect("part");
                encoded.extend_from_slice(&rest[..limit]);
                rest = &rest[limit..];
            }
            encoded.extend(archive.end_file().expect("end of file"));
        }
    }
    let (end, hash) = archive.finish();
    encoded.extend(end);
    (encoded, hash)
}

#[test]
fn archive_size_estimate_includes_gnu_long_name_records() {
    let long_name = format!("{}.txt", "a".repeat(120));
    let mut estimate = ArchiveEstimate::new();
    estimate.add_entry(&long_name, EntryKind::File, 7).expect("estimate");
    let (encoded, _) = stream_archive(&[(&long_name, EntryKind::File, b"content")]);

    assert_eq!(encoded.len() as u64, estimate.total);
}

#[test]
fn streamed_archive_uses_minimal_portable_metadata() {
    let (encoded, _) = stream_archive(&[
        ("payload", EntryKind::Directory, b""),
        ("payload/item.txt", EntryKind::File, b"content"),
    ]);
    let mut archive = tar::Archive::new(Cursor::new(encoded));
    let mut entries = archive.entries().expect("archive entries");

    let directory_entry = entries.next().expect("directory entry").expect("directory");
    assert!(directory_entry.header().entry_type().is_dir());
    assert_eq!(directory_entry.header().mode().unwrap(), 0o755);
    assert_eq!(directory_entry.header().uid().unwrap(), 0);
    assert_eq!(directory_entry.header().gid().unwrap(), 0);
    assert_eq!(directory_entry.header().mtime().unwrap(), 0);

    let mut file_entry = entries.next().expect("file entry").expect("file");
    assert!(file_entry.header().entry_type().is_file());
    assert_eq!(file_entry.header().mode().unwrap(), 0o644);
    assert_eq!(file_entry.header().uid().unwrap(), 0);
    assert_eq!(file_entry.header().gid().unwrap(), 0);
    assert_eq!(file_entry.header().mtime().unwrap(), 0);
    assert_eq!(file_entry.path().unwrap().to_str(), Some("payload/item.txt"));
    let mut content = String::new();
    file_entry.read_to_string(&mut content).expect("content");
    assert_eq!(content, "content");
    drop(file_entry);
    assert!(entries.next().is_none());
    assert_eq!((extracted_mode(true), extracted_mode(false)), (0o700, 0o600));
}

#[test]
fn streamed_archive_reports_the_exact_logical_file_tree_hash() {
    let mut tree = FileTreeHash::new();
    tree.push_directory("payload");
    tree.push_file("payload/item.txt", 8, content(b"original"));
    let captured_hash = tree.finalize();
    let (_, streamed_hash) = stream_archive(&[
        ("payload", EntryKind::Directory, b""),
        ("payload/item.txt", EntryKind::File, b"original"),
    ]);
    assert_eq!(streamed_hash, captured_hash);

    let (_, changed_stream_hash) = stream_archive(&[
        ("payload", EntryKind::Directory, b""),
        ("payload/item.txt", EntryKind::File, b"modified"),
    ]);
    assert_ne!(changed_stream_hash, captured_hash);
}

#[test]
fn archives_are_written_block_by_block() {
    let long_name = format!("{}.txt", "b".repeat(120));
    let big = vec![7u8; 1300];
    let (encoded, _) = stream_archive(&[
        ("dir", EntryKind::Directory, b""),
        (&long_name, EntryKind::File, &big),
        ("empty", EntryKind::File, b""),
    ]);
    let mut expected = Vec::new();
    let mut builder = tar::Builder::new(&mut expected);
    for (path, kind, content) in [
        ("dir", EntryKind::Directory, &b""[..]),
        (&long_name, EntryKind::File, &big[..]),
        ("empty", EntryKind::File, &b""[..]),
    ] {
        let entry = portable_entry(kind, content.len() as u64);
        let mut header = tar::Header::new_gnu();
        header.set_entry_type(tar::EntryType::new(entry.type_flag));
        header.set_mode(entry.mode);
        header.set_uid(entry.uid);
        header.set_gid(entry.gid);
        header.set_mtime(entry.mtime);
        header.set_size(entry.size_bytes);
        builder.append_data(&mut header, path, content).expect("append");
    }
    builder.finish().expect("finish");
    drop(builder);
    assert_eq!(encoded, expected);

    let mut archive = ArchiveWriter::new();
    assert!(message_of(archive.add_entry("a", EntryKind::Other, 0)).contains("special filesystem"));
    archive.add_entry("b", EntryKind::File, 5).expect("entry");
    archive.note_read(b"abc").expect("part");
    assert!(message_of(archive.end_file()).contains("changed while it was being archived"));
    assert!(archive.note_read(b"").is_err());
    assert_eq!(archive.entry_count, 2);
}

#[test]
fn contents_have_known_hashes() {
    let hash = "ba7816bf8f01cfea414140de5dae2223b00361a396177a9cb410ff61f20015ad";
    assert_eq!(hex_hash(b"abc"), hash);
    let text = ClipboardPayload::Text { text: "abc".to_string() };
    let image = ClipboardPayload::ImagePng { png_bytes: b"abc".to_vec() };
    assert_eq!(payload_content_hash(&text).as_deref(), Some(hash));
    assert_eq!(payload_content_hash(&image).as_deref(), Some(hash));
    let files = ClipboardPayload::FileList {
        paths: Vec::new(),
        top_level_names: Vec::new(),
        estimated_archive_bytes: 0,
    };
    assert!(payload_content_hash(&files).is_none());
}

#[test]
fn tree_hash_does_not_depend_on_the_order_of_reading() {
    let mut first = FileTreeHash::new();
    first.push_directory("a");
    first.push_file("a/x", 3, content(b"abc"));
    first.push_file("a/y", 1, content(b"z"));
    let mut second = FileTreeHash::new();
    second.push_file("a/y", 1, content(b"z"));
    second.push_file("a/x", 3, content(b"abc"));
    second.push_directory("a");
    let hash = first.finalize();
    assert_eq!(hash, second.finalize());
    let mut record = Vec::new();
    record.extend_from_slice(b"dir\0a\0");
    record.extend_from_slice(&0u64.to_le_bytes());
    record.extend_from_slice(b"\0\xff");
    for (path, size, content) in [("a/x", 3u64, &b"abc"[..]), ("a/y", 1, &b"z"[..])] {
        record.extend_from_slice(b"file\0");
        record.extend_from_slice(path.as_bytes());
        record.push(0);
        record.extend_from_slice(&size.to_le_bytes());
        record.push(0);
        record.extend_from_slice(hex_hash(content).as_bytes());
        record.push(0xff);
    }
    assert_eq!(hash, hex_hash(&record));
    let mut other = FileTreeHash::new();
    other.push_directory("b");
    assert_ne!(other.finalize(), hash);
}

#[test]
fn tree_paths_are_joined_by_slashes() {
    let parts: Vec<String> = ["a", "b", "c"].iter().map(|s| s.to_string()).collect();
    assert_eq!(normalize_hash_path(&parts), "a/b/c");
    assert_eq!(normalize_hash_path(&Vec::new()), "");
    assert!(check_hash_traversal(32, 19_999).is_ok());
    assert!(check_hash_traversal(33, 0).is_err());
    assert!(check_hash_traversal(0, 20_000).is_err());
}

#[test]
fn cf_html_offsets_use_utf8_byte_positions() {
    let fragment = "<p>你好，LAN Clipboard 🌍</p>";
    let cf_html = build_windows_cf_html(fragment).unwrap();
    let header = &cf_html[..cf_html.len().min(CF_HTML_HEADER_SCAN_BYTES)];
    let start_html = parse_cf_html_offset(header, "StartHTML:").unwrap();
    let end_html = parse_cf_html_offset(header, "EndHTML:").unwrap();
    let start_fragment = parse_cf_html_offset(header, "StartFragment:").unwrap();
    let end_fragment = parse_cf_html_offset(header, "EndFragment:").unwrap();

    assert_eq!(&cf_html.as_bytes()[start_fragment..end_fragment], fragment.as_bytes());
    assert_eq!(&cf_html.as_bytes()[start_html..start_html + 6], b"<html>");
    assert_eq!(end_html, cf_html.len());

    let normalized = normalize_windows_cf_html(cf_html.as_bytes()).unwrap();
    assert!(normalized.starts_with("<html>"));
    assert!(normalized.contains(fragment));
    assert!(!normalized.starts_with("Version:"));
}

#[test]
fn cf_html_builder_extracts_existing_document_or_fragment_context() {
    let fragment = "<p>stable fragment</p>";
    let document = format!("<html><head></head><body>{fragment}</body></html>");
    let first = build_windows_cf_html(&document).unwrap();
    let normalized = normalize_windows_cf_html(first.as_bytes()).unwrap();
    let second = build_windows_cf_html(&normalized).unwrap();

    let second_header = &second[..second.len().min(CF_HTML_HEADER_SCAN_BYTES)];
    let start = parse_cf_html_offset(second_header, "StartFragment:").unwrap();
    let end = parse_cf_html_offset(second_header, "EndFragment:").unwrap();
    assert_eq!(&second[start..end], fragment);
}

#[test]
fn stored_html_has_one_exact_form() {
    assert_eq!(
        build_windows_cf_html("ab").unwrap(),
        "Version:1.0\r\nStartHTML:0000000105\r\nEndHTML:0000000171\r\nStartFragment:0000000137\r\n\
         EndFragment:0000000139\r\n<html><body><!--StartFragment-->ab<!--EndFragment--></body></html>"
    );
}

#[test]
fn long_stored_html_is_read_back() {
    let fragment = format!("x{}", "世".repeat(3000));
    let stored = build_windows_cf_html(&fragment).unwrap();
    let document = normalize_windows_cf_html(stored.as_bytes()).unwrap();
    assert_eq!(extract_html_fragment(&document), fragment);
}

#[test]
fn fragments_are_found() {
    assert_eq!(extract_html_fragment("plain"), "plain");
    assert_eq!(extract_html_fragment("<BODY class=x>in</Body>"), "in");
    assert_eq!(extract_html_fragment("<body>no end"), "<body>no end");
    assert_eq!(
        extract_html_fragment("a<!--StartFragment-->b<!--EndFragment-->c"),
        "b"
    );
}

#[test]
fn stored_html_falls_back_to_fragment_and_bytes() {
    let raw = b"StartFragment: 41 \nEndFragment:+44\n......abc";
    assert_eq!(normalize_windows_cf_html(raw).unwrap(), "abc");
    assert_eq!(normalize_windows_cf_html(b"just text").unwrap(), "just text");
    assert!(normalize_windows_cf_html(b"").is_err());
    assert!(message_of(normalize_windows_cf_html(b"\xff\xfe"))
        .starts_with("clipboard backend error: decode windows html payload: invalid utf-8"));
    assert_eq!(read_document(b"0123456", "StartHTML:2\r\nEndHTML:4\r\n").unwrap(), "23");
    assert_eq!(read_document(b"0123456", "StartHTML:4\nEndHTML:2\n").unwrap(), "0123456");
    assert_eq!(parse_cf_html_offset("a\nKey: 12 \r\nKey:3", "Key:"), Some(12));
    assert_eq!(parse_cf_html_offset("Key:x\nKey:3", "Key:"), None);
    assert_eq!(parse_cf_html_offset("Key:99999999999999999999", "Key:"), None);
    assert!(windows_html_payload(b"", 5).unwrap().is_none());
    assert!(matches!(
        windows_html_payload(b"abcdef", 5),
        Err(ClipboardError::TooLarge { size_bytes: 6, limit_bytes: 5 })
    ));
    assert!(matches!(
        windows_html_payload(b"abcde", 5),
        Ok(Some(ClipboardPayload::Html { html })) if html == "abcde"
    ));
}

#[test]
fn html_plain_fallback_is_local_and_omits_active_or_attribute_content() {
    let html = "<h1>Hello&nbsp;&amp;</h1>\
                <script>fetch('https://attacker.invalid/script')</script>\
                <style>body{background:url(https://attacker.invalid/image)}</style>\
                <p data-source='https://attacker.invalid/attribute'>世界 &#x1F30D;</p>";

    let plain = html_to_plain_bounded(html, MAX_PLAIN_FALLBACK_BYTES);

    assert_eq!(plain, "Hello &\n世界 🌍");
    assert!(!plain.contains("attacker.invalid"));
    assert!(!plain.contains("fetch"));
}

#[test]
fn html_plain_fallback_decodes_entities_and_preserves_text_comparison() {
    let plain = html_to_plain_bounded(
        "<div>&lt;safe&gt; &quot;quoted&quot; &#39;</div><p>2 < 3</p>",
        MAX_PLAIN_FALLBACK_BYTES,
    );

    assert_eq!(plain, "<safe> \"quoted\" '\n2 < 3");
}

#[test]
fn html_plain_fallback_never_splits_utf8_at_the_output_limit() {
    let plain = html_to_plain_bounded("世界🌍仍然有效", 7);

    assert_eq!(plain, "世界");
    assert!(plain.len() <= 7);
    assert!(std::str::from_utf8(plain.as_bytes()).is_ok());
}

#[test]
fn less_room_gives_a_start_of_the_plain_text() {
    let html = "<p> one\u{a0}&nbsp; two</p><p>dr\u{e9}i &amp; vier</p><br><br>x  ";
    let whole = html_to_plain_bounded(html, 1_000);
    assert_eq!(whole, "one two\ndr\u{e9}i & vier\nx");
    for limit in 0..=whole.len() {
        let part = html_to_plain_bounded(html, limit);
        assert!(part.len() <= limit && whole.starts_with(&part));
        assert_eq!(part.trim(), part);
    }
    assert_eq!(html_to_plain_bounded(html, 9), "one two\nd");
    assert_eq!(html_to_plain_bounded(html, 8), "one two");
}

#[test]
fn plain_text_follows_the_markup() {
    let plain = |html: &str| html_to_plain_bounded(html, 1000);
    assert_eq!(plain("words"), "words");
    assert_eq!(plain(" a \n b "), "a b");
    assert_eq!(plain("a<!-- x -->b"), "ab");
    assert_eq!(plain("a<!-- x"), "a");
    assert_eq!(plain("<!DOCTYPE html>a<?pi >b"), "ab");
    assert_eq!(plain("a<b title='>'>c</b>"), "ac");
    assert_eq!(plain("a<span title=\"x"), "a");
    assert_eq!(plain("a<br>b<BR/>c"), "a\nb\nc");
    assert_eq!(plain("a<script>x</scripty></SCRIPT >b"), "a\nb");
    assert_eq!(plain("a<style>never closed"), "a");
    assert_eq!(plain("&#65;&#X42;&#+67;&#xD800;&bogus;&amp"), "ABC&#xD800;&bogus;&amp");
    assert_eq!(plain("&#99999999999;"), "&#99999999999;");
    assert_eq!(html_to_plain_bounded("abc", 0), "");
    assert_eq!(html_to_plain_bounded("ab<p>c", 2), "ab");
    assert_eq!(html_to_plain_bounded("ab c", 3), "ab");
}

#[test]
fn helper_output_is_read() {
    assert!(matches!(
        parse_rich_text_output(b"rtf\r\ne1xydGZ9\r\n", 100),
        Ok(Some(ClipboardPayload::Rtf { rtf })) if rtf == "{\\rtf}"
    ));
    assert!(matches!(
        parse_rich_text_output(b" html \nYWI=", 100),
        Ok(Some(ClipboardPayload::Html { html })) if html == "ab"
    ));
    assert!(matches!(parse_rich_text_output(b"", 100), Ok(None)));
    assert!(matches!(parse_rich_text_output(b"html\n \n", 100), Ok(None)));
    assert!(matches!(parse_rich_text_output(b"other\nYWI=", 100), Ok(None)));
    assert!(parse_rich_text_output(b"html\n!!", 100).is_err());
    assert!(matches!(
        parse_rich_text_output(b"html\nYWI=", 1),
        Err(ClipboardError::TooLarge { size_bytes: 2, limit_bytes: 1 })
    ));
    assert!(payload_of_output("html", Ok(vec![0xff]), 9).is_err());
    assert!(payload_of_output("html", Err("bad".to_string()), 9).is_err());
}

#[test]
fn helper_input_is_encoded() {
    assert_eq!(helper_input("rtf", "{\\rtf}").unwrap(), "e1xydGZ9");
    let html = helper_input("html", "ab").unwrap();
    let stdout = format!("html\n{html}\n");
    assert!(matches!(
        parse_rich_text_output(stdout.as_bytes(), 1000),
        Ok(Some(ClipboardPayload::Html { html })) if html == build_windows_cf_html("ab").unwrap()
    ));
    assert!(matches!(helper_input("png", "x"), Err(ClipboardError::Unsupported)));
}

#[test]
fn offered_bytes_make_formatted_text() {
    assert!(matches!(
        offered_rich_text(Some(b"<b>".to_vec()), Some(b"{}".to_vec()), 10),
        Ok(Some(ClipboardPayload::Html { html })) if html == "<b>"
    ));
    assert!(matches!(
        offered_rich_text(Some(Vec::new()), Some(b"{}".to_vec()), 10),
        Ok(Some(ClipboardPayload::Rtf { rtf })) if rtf == "{}"
    ));
    assert!(matches!(offered_rich_text(None, None, 10), Ok(None)));
    assert!(offered_rich_text(Some(b"abc".to_vec()), None, 2).is_err());
}

#[test]
fn helper_output_is_bounded() {
    let mut output = BoundedOutput::new(5);
    output.push(b"abc");
    output.push(b"de");
    assert_eq!(output.finish().unwrap(), b"abcde");
    let mut output = BoundedOutput::new(5);
    output.push(b"abc");
    output.push(b"def");
    assert_eq!(output.output, b"abcde");
    assert_eq!(output.finish().unwrap_err(), "clipboard helper output exceeds 5 bytes");
    assert_eq!(helper_payload_output_limit(3), 4 + 4096);
    assert_eq!(helper_payload_output_limit(4), 8 + 4096);
    assert_eq!(helper_payload_output_limit(u64::MAX), usize::MAX);
}

fn no_offer() -> ClipboardOffer {
    ClipboardOffer {
        files: Ok(None),
        native_image: Ok(None),
        opened: Ok(()),
        image: None,
        rich_text: Ok(None),
        text: None,
    }
}

#[test]
fn snapshots_take_the_first_form() {
    assert!(matches!(read_snapshot(no_offer(), 10), Err(ClipboardError::Unsupported)));
    let mut offer = no_offer();
    offer.text = Some("hello".to_string());
    assert!(matches!(
        read_snapshot(offer, 10),
        Ok(ClipboardPayload::Text { text }) if text == "hello"
    ));
    let mut offer = no_offer();
    offer.text = Some("hello".to_string());
    assert!(matches!(
        read_snapshot(offer, 4),
        Err(ClipboardError::TooLarge { size_bytes: 5, limit_bytes: 4 })
    ));
    let mut offer = no_offer();
    offer.text = Some("hello".to_string());
    offer.rich_text = Ok(Some(ClipboardPayload::Html { html: "<b>".to_string() }));
    assert!(matches!(read_snapshot(offer, 10), Ok(ClipboardPayload::Html { .. })));
    let mut offer = no_offer();
    offer.image = Some(rgba_from_fn(2, 2, |_, _| [1, 2, 3, 4]));
    offer.rich_text = Ok(Some(ClipboardPayload::Html { html: "<b>".to_string() }));
    assert!(matches!(read_snapshot(offer, 10_000), Ok(ClipboardPayload::ImagePng { .. })));
    let mut offer = no_offer();
    offer.image = Some(RgbaImage { width: 2, height: 2, pixels: vec![0; 15] });
    assert!(message_of(read_snapshot(offer, 10_000)).contains("invalid image buffer"));
    let mut offer = no_offer();
    offer.image = Some(RgbaImage { width: 1, height: 2, pixels: (1..=20).collect() });
    let png_bytes = png_bytes_of(read_snapshot(offer, 10_000).expect("image"));
    let decoded = decode_clipboard_png(&png_bytes, 10_000).expect("png");
    assert_eq!((decoded.width, decoded.height), (1, 2));
    assert_eq!(decoded.pixels, (1..=8).collect::<Vec<u8>>());
    let mut offer = no_offer();
    offer.native_image = Ok(Some(ClipboardPayload::ImagePng { png_bytes: vec![1] }));
    offer.opened = Err(ClipboardError::Backend("closed".to_string()));
    assert!(matches!(read_snapshot(offer, 10), Ok(ClipboardPayload::ImagePng { .. })));
    let mut offer = no_offer();
    offer.native_image = Ok(Some(ClipboardPayload::ImagePng { png_bytes: vec![1; 11] }));
    assert!(matches!(
        read_snapshot(offer, 10),
        Err(ClipboardError::TooLarge { size_bytes: 11, limit_bytes: 10 })
    ));
    let mut offer = no_offer();
    offer.rich_text = Ok(Some(ClipboardPayload::FileBundleDir {
        bundle_dir: "/b".to_string(),
        top_level_names: vec!["a".to_string()],
    }));
    assert!(matches!(read_snapshot(offer, 10), Err(ClipboardError::Unsupported)));
    let mut offer = no_offer();
    offer.opened = Err(ClipboardError::Backend("closed".to_string()));
    offer.text = Some("hello".to_string());
    assert!(message_of(read_snapshot(offer, 10)).contains("closed"));
    let mut offer = no_offer();
    offer.files = Ok(Some(OfferedFiles {
        paths: vec!["/x/a".to_string()],
        top_level_names: vec!["a".to_string()],
        archive_bytes: 9,
    }));
    offer.text = Some("hello".to_string());
    assert!(matches!(read_snapshot(offer, 10), Ok(ClipboardPayload::FileList { .. })));
    let mut offer = no_offer();
    offer.files = Err(ClipboardError::Backend("clipboard is occupied".to_string()));
    assert!(read_snapshot(offer, 10).is_err());
}

fn item(payload: ClipboardPayload, size_bytes: u64) -> ClipboardItem {
    ClipboardItem {
        id: "i".to_string(),
        content_hash: "h".to_string(),
        created_at_us: 1,
        source_device_id: "d".to_string(),
        size_bytes,
        payload,
    }
}

#[test]
fn items_are_written_by_kind() {
    let text = item(ClipboardPayload::Text { text: "t".to_string() }, 1);
    assert!(matches!(write_item(&text, 1), Ok(ClipboardWrite::Text(t)) if t == "t"));
    assert!(matches!(
        write_item(&text, 0),
        Err(ClipboardError::TooLarge { size_bytes: 1, limit_bytes: 0 })
    ));
    let rtf = item(ClipboardPayload::Rtf { rtf: "r".to_string() }, 1);
    assert!(matches!(write_item(&rtf, 1), Ok(ClipboardWrite::Rtf(t)) if t == "r"));
    let bundle = item(
        ClipboardPayload::FileBundleDir {
            bundle_dir: "d".to_string(),
            top_level_names: vec!["n".to_string()],
        },
        1,
    );
    assert!(matches!(
        write_item(&bundle, 1),
        Ok(ClipboardWrite::Bundle { bundle_dir, .. }) if bundle_dir == "d"
    ));
    let files = item(
        ClipboardPayload::FileList {
            paths: vec!["p".to_string()],
            top_level_names: vec!["n".to_string()],
            estimated_archive_bytes: 1,
        },
        1,
    );
    assert!(matches!(write_item(&files, 1), Err(ClipboardError::Unsupported)));
}

#[test]
fn only_a_failing_clipboard_is_tried_again() {
    let failed = || -> Result<(), ClipboardError> { Err(ClipboardError::Backend("x".to_string())) };
    assert!(matches!(retry_clipboard_io(0, failed()), RetryStep::Again(40)));
    assert!(matches!(retry_clipboard_io(8, failed()), RetryStep::Again(40)));
    assert!(matches!(retry_clipboard_io(9, failed()), RetryStep::Done(Err(_))));
    assert!(matches!(retry_clipboard_io(0, Ok(5)), RetryStep::Done(Ok(5))));
    let unsupported: Result<(), ClipboardError> = Err(ClipboardError::Unsupported);
    assert!(matches!(retry_clipboard_io(0, unsupported), RetryStep::Done(Err(_))));
}

#[test]
fn errors_have_words() {
    assert_eq!(
        message_of(check_size(6, 5)),
        "payload too large: size_bytes=6 limit_bytes=5"
    );
    assert!(check_size(5, 5).is_ok());
    assert_eq!(ClipboardError::Unsupported.message(), "unsupported clipboard content");
}

#[test]
fn pasteboards_get_the_text_and_a_plain_one() {
    let unused = || Err("no importer".to_string());
    let html = pasteboard_item("html", "<p>a</p><p>b</p>", unused()).expect("html");
    assert!(html.is_html);
    assert_eq!(html.data, b"<p>a</p><p>b</p>");
    assert_eq!(html.plain, "a\nb");
    let rtf = pasteboard_item("rtf", "{\\rtf a}", Ok("a".to_string())).expect("rtf");
    assert!(!rtf.is_html);
    assert_eq!(rtf.plain, "a");
    assert!(matches!(
        pasteboard_item("rtf", "{\\rtf a}", unused()),
        Err(ClipboardError::Backend(message)) if message.ends_with(": no importer")
    ));
    assert!(matches!(pasteboard_item("png", "", unused()), Err(ClipboardError::Unsupported)));
}

#[test]
fn pasteboards_are_written_last() {
    let mut steps = vec![PasteboardStep::MakeItem];
    while let Some(step) = next_pasteboard_step(steps[steps.len() - 1], true).expect("step") {
        steps.push(step);
    }
    assert_eq!(steps.len(), 4);
    assert_eq!(steps[3], PasteboardStep::WriteItem);
    for step in steps {
        assert!(next_pasteboard_step(step, false).is_err());
    }
}

#[test]
fn helpers_say_why_they_failed() {
    assert!(helper_outcome(true, b"noise").is_ok());
    assert!(matches!(
        helper_outcome(false, b" denied\r\n"),
        Err(ClipboardError::Backend(message)) if message == "denied"
    ));
}
