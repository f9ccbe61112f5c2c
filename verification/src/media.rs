//! Media type detection from magic bytes, and HTTP byte ranges.
use vstd::prelude::*;

use crate::text::{
    chars_of, concat_chars, decimal, decimal_chars, parse_u64, parse_u64_spec, split_once,
    split_once_chars, string_of, strip_prefix, strip_prefix_chars,
};

verus! {

/// `data` begins with `prefix`.
pub open spec fn bytes_start_with(data: Seq<u8>, prefix: Seq<u8>) -> bool {
    data.len() >= prefix.len() && data.subrange(0, prefix.len() as int) == prefix
}

/// `data[from..from + p.len()]` equals `p`.
pub open spec fn bytes_at(data: Seq<u8>, from: int, p: Seq<u8>) -> bool {
    data.len() >= from + p.len() && data.subrange(from, from + p.len()) == p
}

/// The media type that the leading bytes of a file identify.
pub open spec fn magic_mime(data: Seq<u8>) -> Seq<char> {
    if data.len() < 4 {
        "application/octet-stream"@
    } else if bytes_start_with(data, seq![0x1Au8, 0x45, 0xDF, 0xA3]) {
        "video/webm"@
    } else if bytes_at(data, 4, seq![0x66u8, 0x74, 0x79, 0x70]) {
        "video/mp4"@
    } else if bytes_start_with(data, seq![0x66u8, 0x4C, 0x61, 0x43]) {
        "audio/flac"@
    } else if bytes_start_with(data, seq![0xFFu8, 0xFB, 0x90, 0x4C]) {
        "audio/mpeg"@
    } else if bytes_start_with(data, seq![0x49u8, 0x44, 0x33]) {
        "audio/mpeg"@
    } else if bytes_start_with(data, seq![0x4Fu8, 0x67, 0x67, 0x53]) {
        "audio/ogg"@
    } else if bytes_start_with(data, seq![0x52u8, 0x49, 0x46, 0x46]) {
        if bytes_at(data, 8, seq![0x57u8, 0x41, 0x56, 0x45]) {
            "audio/wav"@
        } else if bytes_at(data, 8, seq![0x41u8, 0x56, 0x49, 0x20]) {
            "video/avi"@
        } else if bytes_at(data, 8, seq![0x57u8, 0x45, 0x42, 0x50]) {
            "image/webp"@
        } else {
            "application/octet-stream"@
        }
    } else if bytes_start_with(data, seq![0x47u8, 0x40, 0x00]) {
        "video/mp2t"@
    } else if bytes_start_with(data, seq![0x89u8, 0x50, 0x4E, 0x47]) {
        "image/png"@
    } else if bytes_start_with(data, seq![0xFFu8, 0xD8]) {
        "image/jpeg"@
    } else if bytes_start_with(data, seq![0x25u8, 0x50, 0x44, 0x46]) {
        "application/pdf"@
    } else {
        "application/octet-stream"@
    }
}

/// The media type to serve: the `mime` query parameter when it is given
/// and non-empty, else the one the magic bytes identify.
pub open spec fn mime_spec(mime_param: Option<Seq<char>>, data: Seq<u8>) -> Seq<char> {
    match mime_param {
        Some(m) => if m.len() > 0 {
            m
        } else {
            magic_mime(data)
        },
        None => magic_mime(data),
    }
}

/// Whether `data` starts with `prefix`.
pub fn starts_with(data: &[u8], prefix: &[u8]) -> (b: bool)
    ensures
        b == bytes_start_with(data@, prefix@),
{
    bytes_match_at(data, 0, prefix)
}

fn bytes_match_at(data: &[u8], from: usize, p: &[u8]) -> (b: bool)
    requires
        from <= 16,
    ensures
        b == bytes_at(data@, from as int, p@),
{
    if data.len() < from || data.len() - from < p.len() {
        return false;
    }
    let mut i: usize = 0;
    while i < p.len()
        invariant
            i <= p.len(),
            from + p.len() <= data.len(),
            forall|k: int| 0 <= k < i ==> data@[from + k] == p@[k],
        decreases p.len() - i,
    {
        if data[from + i] != p[i] {
            assert(data@.subrange(from as int, from + p@.len())[i as int] != p@[i as int]);
            return false;
        }
        i += 1;
    }
    assert(data@.subrange(from as int, from + p@.len()) =~= p@);
    true
}

/// The media type that the leading bytes of a file identify.
pub fn detect_mime_from_magic(data: &[u8]) -> (s: &'static str)
    ensures
        s@ == magic_mime(data@),
{
    if data.len() < 4 {
        return "application/octet-stream";
    }
    if starts_with(data, &[0x1A, 0x45, 0xDF, 0xA3]) {
        return "video/webm";
    }
    if bytes_match_at(data, 4, &[0x66, 0x74, 0x79, 0x70]) {
        return "video/mp4";
    }
    if starts_with(data, &[0x66, 0x4C, 0x61, 0x43]) {
        return "audio/flac";
    }
    if starts_with(data, &[0xFF, 0xFB, 0x90, 0x4C]) {
        return "audio/mpeg";
    }
    if starts_with(data, &[0x49, 0x44, 0x33]) {
        return "audio/mpeg";
    }
    if starts_with(data, &[0x4F, 0x67, 0x67, 0x53]) {
        return "audio/ogg";
    }
    if starts_with(data, &[0x52, 0x49, 0x46, 0x46]) {
        if bytes_match_at(data, 8, &[0x57, 0x41, 0x56, 0x45]) {
            return "audio/wav";
        }
        if bytes_match_at(data, 8, &[0x41, 0x56, 0x49, 0x20]) {
            return "video/avi";
        }
        if bytes_match_at(data, 8, &[0x57, 0x45, 0x42, 0x50]) {
            return "image/webp";
        }
        return "application/octet-stream";
    }
    if starts_with(data, &[0x47, 0x40, 0x00]) {
        return "video/mp2t";
    }
    if starts_with(data, &[0x89, 0x50, 0x4E, 0x47]) {
        return "image/png";
    }
    if starts_with(data, &[0xFF, 0xD8]) {
        return "image/jpeg";
    }
    if starts_with(data, &[0x25, 0x50, 0x44, 0x46]) {
        return "application/pdf";
    }
    "application/octet-stream"
}

/// The media type to serve for a request: the `mime` query parameter when
/// present and non-empty, else the type the file's magic bytes identify.
pub fn detect_mime(mime_param: Option<&str>, magic_bytes: &[u8]) -> (s: String)
    ensures
        s@ == mime_spec(
            match mime_param {
                Some(m) => Some(m@),
                None => None,
            },
            magic_bytes@,
        ),
{
    if let Some(m) = mime_param {
        if m.unicode_len() > 0 {
            return m.to_string();
        }
    }
    detect_mime_from_magic(magic_bytes).to_string()
}

/// An inclusive byte range of a resource.
#[derive(Clone, Copy, Debug, PartialEq, Eq, Structural)]
pub struct ByteRange {
    pub start: u64,
    pub end: u64,
}

/// The range a `Range` header value asks for, clamped to the resource's
/// last byte; `None` when it is malformed or starts past the end.
pub open spec fn range_spec(header: Seq<char>, total_size: u64) -> Option<ByteRange> {
    match strip_prefix(header, "bytes="@) {
        None => None,
        Some(rem) => match split_once(rem, '-') {
            None => None,
            Some((a, b)) => {
                let last: u64 = if total_size == 0 {
                    0
                } else {
                    (total_size - 1) as u64
                };
                match parse_u64_spec(a) {
                    None => None,
                    Some(start) => {
                        let end_opt = if b.len() == 0 {
                            Some(last)
                        } else {
                            parse_u64_spec(b)
                        };
                        match end_opt {
                            None => None,
                            Some(end) => if start > end || start >= total_size {
                                None
                            } else {
                                Some(
                                    ByteRange {
                                        start,
                                        end: if end <= last {
                                            end
                                        } else {
                                            last
                                        },
                                    },
                                )
                            },
                        }
                    },
                }
            },
        },
    }
}

/// Parse the value of a `Range` header (`bytes=START-END` or
/// `bytes=START-`) against a resource of `total_size` bytes.
pub fn parse_range_header(header: Option<&str>, total_size: u64) -> (r: Option<ByteRange>)
    ensures
        r == match header {
            Some(h) => range_spec(h@, total_size),
            None => None,
        },
{
    let h = match header {
        Some(h) => chars_of(h),
        None => return None,
    };
    let remainder = match strip_prefix_chars(&h, &chars_of("bytes=")) {
        Some(r) => r,
        None => return None,
    };
    let (start_str, end_str) = match split_once_chars(&remainder, '-') {
        Some(p) => p,
        None => return None,
    };
    let start = match parse_u64(&start_str) {
        Some(s) => s,
        None => return None,
    };
    let last = total_size.saturating_sub(1);
    let end = if end_str.len() == 0 {
        last
    } else {
        match parse_u64(&end_str) {
            Some(e) => e,
            None => return None,
        }
    };
    if start > end || start >= total_size {
        return None;
    }
    Some(ByteRange { start, end: if end <= last { end } else { last } })
}

/// The `Content-Range` value `bytes START-END/TOTAL`.
pub open spec fn content_range_text(start: u64, end: u64, total_size: u64) -> Seq<char> {
    "bytes "@ + decimal(start as nat) + "-"@ + decimal(end as nat) + "/"@ + decimal(
        total_size as nat,
    )
}

/// Format a `Content-Range` header value.
pub fn content_range(start: u64, end: u64, total_size: u64) -> (s: String)
    ensures
        s@ == content_range_text(start, end, total_size),
{
    let r = concat_chars(&chars_of("bytes "), &decimal_chars(start));
    let r = concat_chars(&r, &chars_of("-"));
    let r = concat_chars(&r, &decimal_chars(end));
    let r = concat_chars(&r, &chars_of("/"));
    let r = concat_chars(&r, &decimal_chars(total_size));
    string_of(&r)
}

/// What a media request is answered with.
#[derive(Debug)]
pub enum MediaResponse {
    /// 404: the store does not have the blob.
    Missing,
    /// 404: the blob has zero size.
    Empty,
    /// 200: the whole blob, of `length` bytes, as `mime`.
    Full { mime: String, length: u64 },
    /// 206: the bytes of `range`, `length` of them, as `mime`, with the
    /// `Content-Range` value `content_range`.
    Partial { mime: String, range: ByteRange, length: u64, content_range: String },
}

/// The answer to a media request for a blob of size `found` (`None` when
/// the store does not have it): not found without a blob or with an empty
/// one; otherwise the media type `mime_spec` gives, and the requested range
/// when the `Range` header names one, else the whole blob.
pub open spec fn media_response_holds(
    r: MediaResponse,
    found: Option<u64>,
    mime_param: Option<Seq<char>>,
    magic: Seq<u8>,
    range: Option<Seq<char>>,
) -> bool {
    match found {
        None => r is Missing,
        Some(n) => if n == 0 {
            r is Empty
        } else {
            let mime = mime_spec(mime_param, magic);
            let asked = match range {
                Some(h) => range_spec(h, n),
                None => None,
            };
            match asked {
                None => r matches MediaResponse::Full { mime: m, length } && m@ == mime && length == n,
                Some(br) => r matches MediaResponse::Partial { mime: m, range: g, length, content_range } && m@ == mime
                    && g == br && length == br.end - br.start + 1 && content_range@ == content_range_text(
                    br.start,
                    br.end,
                    n,
                ),
            }
        },
    }
}

/// Decide the answer to a media request: `found` is the blob's size in the
/// store, `mime_param` the `mime` query parameter, `magic` the blob's first
/// bytes and `range` the `Range` header.
pub fn media_response(found: Option<u64>, mime_param: Option<&str>, magic: &[u8], range: Option<&str>) -> (r:
    MediaResponse)
    ensures
        media_response_holds(
            r,
            found,
            match mime_param {
                Some(m) => Some(m@),
                None => None,
            },
            magic@,
            match range {
                Some(h) => Some(h@),
                None => None,
            },
        ),
{
    let n = match found {
        None => return MediaResponse::Missing,
        Some(n) => n,
    };
    if n == 0 {
        return MediaResponse::Empty;
    }
    let mime = detect_mime(mime_param, magic);
    match parse_range_header(range, n) {
        None => MediaResponse::Full { mime, length: n },
        Some(br) => {
            let length = br.end - br.start + 1;
            let content_range = content_range(br.start, br.end, n);
            MediaResponse::Partial { mime, range: br, length, content_range }
        },
    }
}

} // verus!
