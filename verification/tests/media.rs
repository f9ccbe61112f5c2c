use syncweb_core::media::{media_response, ByteRange, MediaResponse};
use std::collections::HashMap;

use syncweb_core::media::{content_range, detect_mime, detect_mime_from_magic, parse_range_header};

fn mime_of(params: &HashMap<String, String>) -> Option<&str> {
    params.get("mime").map(String::as_str)
}

#[test]
fn test_mime_from_query() {
    let mut params = HashMap::new();
    params.insert("mime".to_string(), "video/mp4".to_string());
    assert_eq!(detect_mime(mime_of(&params), b""), "video/mp4");
}

#[test]
fn test_default_when_no_query() {
    let params = HashMap::new();
    assert_eq!(detect_mime(mime_of(&params), b""), "application/octet-stream");
}

#[test]
fn test_webm_detection() {
    let data = [0x1A, 0x45, 0xDF, 0xA3, 0x00, 0x00, 0x00, 0x00];
    assert_eq!(detect_mime(mime_of(&HashMap::new()), &data), "video/webm");
}

#[test]
fn test_mp4_detection() {
    let mut data = vec![0x00, 0x00, 0x00, 0x00, 0x66, 0x74, 0x79, 0x70];
    data.extend_from_slice(b"mp42");
    assert_eq!(detect_mime(mime_of(&HashMap::new()), &data), "video/mp4");
}

#[test]
fn test_png_detection() {
    let data = [0x89, 0x50, 0x4E, 0x47, 0x0D, 0x0A, 0x1A, 0x0A];
    assert_eq!(detect_mime(mime_of(&HashMap::new()), &data), "image/png");
}

#[test]
fn test_jpeg_detection() {
    let data = [0xFF, 0xD8, 0xFF, 0xE0, 0x00, 0x10];
    assert_eq!(detect_mime(mime_of(&HashMap::new()), &data), "image/jpeg");
}

#[test]
fn test_query_overrides_magic() {
    let mut params = HashMap::new();
    params.insert("mime".to_string(), "audio/mpeg".to_string());
    let data = [0x89, 0x50, 0x4E, 0x47];
    assert_eq!(detect_mime(mime_of(&params), &data), "audio/mpeg");
}

#[test]
fn riff_containers_and_empty_parameter() {
    let wav = *b"RIFF\0\0\0\0WAVE";
    let avi = *b"RIFF\0\0\0\0AVI ";
    let webp = *b"RIFF\0\0\0\0WEBP";
    let other = *b"RIFF\0\0\0\0JUNK";
    assert_eq!(detect_mime_from_magic(&wav), "audio/wav");
    assert_eq!(detect_mime_from_magic(&avi), "video/avi");
    assert_eq!(detect_mime_from_magic(&webp), "image/webp");
    assert_eq!(detect_mime_from_magic(&other), "application/octet-stream");
    assert_eq!(detect_mime(Some(""), b"%PDF-1.7"), "application/pdf");
    assert_eq!(detect_mime_from_magic(b"ID3\x04"), "audio/mpeg");
}

#[test]
fn test_simple_range() {
    let r = parse_range_header(Some("bytes=0-1023"), 5000);
    assert!(r.is_some());
    let r_val = r.unwrap();
    assert_eq!(r_val.start, 0);
    assert_eq!(r_val.end, 1023);
}

#[test]
fn test_open_ended_range() {
    let r = parse_range_header(Some("bytes=2000-"), 5000);
    assert!(r.is_some());
    let r_val = r.unwrap();
    assert_eq!(r_val.start, 2000);
    assert_eq!(r_val.end, 4999);
}

#[test]
fn test_no_range_header() {
    assert!(parse_range_header(None, 1000).is_none());
}

#[test]
fn test_malformed_header() {
    assert!(parse_range_header(Some("not-bytes=0-100"), 1000).is_none());
}

#[test]
fn ranges_are_clamped_and_checked() {
    let r = parse_range_header(Some("bytes=10-99999"), 100).unwrap();
    assert_eq!((r.start, r.end), (10, 99));
    assert!(parse_range_header(Some("bytes=100-"), 100).is_none());
    assert!(parse_range_header(Some("bytes=50-10"), 100).is_none());
    assert!(parse_range_header(Some("bytes=-10"), 100).is_none());
}

#[test]
fn test_content_range_format() {
    assert_eq!(content_range(0, 1023, 5000), "bytes 0-1023/5000");
}

#[test]
fn media_requests_are_answered_by_size_type_and_range() {
    assert!(matches!(media_response(None, None, b"", None), MediaResponse::Missing));
    assert!(matches!(media_response(Some(0), None, b"", None), MediaResponse::Empty));
    match media_response(Some(100), Some("video/mp4"), b"", None) {
        MediaResponse::Full { mime, length } => assert_eq!((mime.as_str(), length), ("video/mp4", 100)),
        other => panic!("unexpected {other:?}"),
    }
    match media_response(Some(100), None, b"", Some("bytes=10-19")) {
        MediaResponse::Partial { mime, range, length, content_range } => {
            assert_eq!(mime, "application/octet-stream");
            assert_eq!(range, ByteRange { start: 10, end: 19 });
            assert_eq!(length, 10);
            assert_eq!(content_range, "bytes 10-19/100");
        },
        other => panic!("unexpected {other:?}"),
    }
}
