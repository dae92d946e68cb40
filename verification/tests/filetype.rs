use lc::filetype::{category_of, getfiletype, is_text, SNIFF_LEN};

#[test]
fn content_without_a_signature_is_text() {
    assert_eq!(getfiletype(b"just some words\nand more\n"), "text");
    assert_eq!(getfiletype(b"{\"key\": [1, 2, 3]}\n"), "text");
    assert_eq!(getfiletype(b"key: value\n"), "text");
}

#[test]
fn empty_content_is_text() {
    assert_eq!(getfiletype(b""), "text");
}

#[test]
fn png_signature_is_an_image() {
    assert_eq!(getfiletype(b"\x89PNG\r\n\x1a\n\0\0\0\rIHDR"), "image");
}

#[test]
fn jpeg_signature_is_an_image() {
    assert_eq!(getfiletype(&[0xff, 0xd8, 0xff, 0xaa]), "image");
}

#[test]
fn mp3_signature_is_audio() {
    assert_eq!(getfiletype(b"ID3\x03\0\0\0\0\0\0"), "audio");
}

#[test]
fn flv_signature_is_video() {
    assert_eq!(getfiletype(b"FLV\x01\x05\0\0\0\x09"), "video");
}

#[test]
fn zip_signature_is_an_application() {
    assert_eq!(getfiletype(b"PK\x03\x04\x14\0\0\0"), "application");
}

#[test]
fn gzip_signature_is_an_application() {
    assert_eq!(getfiletype(&[0x1f, 0x8b, 0x08, 0x00]), "application");
}

#[test]
fn markup_with_a_known_opening_is_text() {
    assert_eq!(getfiletype(b"<html><body></body></html>"), "text");
    assert_eq!(getfiletype(b"<?xml version=\"1.0\"?><a/>"), "text");
    assert_eq!(getfiletype(b"#!/bin/sh\necho hello\n"), "text");
}

#[test]
fn only_the_start_of_the_content_is_looked_at() {
    // A skippable frame that fills the inspected part, and the frame that
    // would make this a compressed stream right behind it.
    let mut content: Vec<u8> = vec![0x50, 0x2a, 0x4d, 0x18, 0x00, 0x20, 0x00, 0x00];
    content.extend(std::iter::repeat(b'a').take(SNIFF_LEN));
    content.extend([0x28, 0xb5, 0x2f, 0xfd]);
    assert_eq!(getfiletype(&content), "text");

    // The same with a frame short enough to leave the next one in sight.
    let mut short: Vec<u8> = vec![0x50, 0x2a, 0x4d, 0x18, 0x10, 0x00, 0x00, 0x00];
    short.extend(std::iter::repeat(b'a').take(16));
    short.extend([0x28, 0xb5, 0x2f, 0xfd]);
    assert_eq!(getfiletype(&short), "application");
}

#[test]
fn a_signature_at_the_start_of_long_content_is_found() {
    let mut content: Vec<u8> = b"\x89PNG\r\n\x1a\n".to_vec();
    content.extend(std::iter::repeat(b'\n').take(3 * SNIFF_LEN));
    assert_eq!(getfiletype(&content), "image");
}

#[test]
fn category_is_the_first_part_of_the_media_type() {
    assert_eq!(category_of(Some("video/mp4")), "video");
    assert_eq!(category_of(Some("application/x-tar")), "application");
    assert_eq!(category_of(Some("text/html")), "text");
    assert_eq!(category_of(Some("audio")), "audio");
}

#[test]
fn category_without_a_media_type_is_text() {
    assert_eq!(category_of(None), "text");
}

#[test]
fn is_text_accepts_only_the_text_category() {
    assert!(is_text("text"));
    assert!(!is_text("image"));
    assert!(!is_text("texts"));
    assert!(!is_text("tex"));
    assert!(!is_text("Text"));
    assert!(!is_text("téxt"));
    assert!(!is_text(""));
}
