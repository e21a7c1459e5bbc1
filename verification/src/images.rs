//! Pasted images: the data that arrives from the clipboard, and how a stored
//! image is requested and labelled.
use vstd::prelude::*;
use base64::Engine;
use crate::chunker::{extension, extension_of, file_name};
use crate::text::{chars_of, eq_str, find, find_chars, push_str, slice_chars, string_from_chars,
    utf8_lossy};

verus! {

/// What the standard base64 engine (RFC 4648 alphabet, canonical padding)
/// decodes a text to; `None` when it refuses the text.
pub uninterp spec fn base64_standard(text: Seq<char>) -> Option<Seq<u8>>;

/// `base64::engine::general_purpose::STANDARD.decode` (base64 crate): the
/// decoded bytes, or the decoder's error message. The result depends on the
/// text alone; which message an invalid text gets is not stated.
#[verifier::external_body]
fn decode_base64(text: &str) -> (r: Result<Vec<u8>, String>)
    ensures
        match r {
            Ok(b) => base64_standard(text@) == Some(b@),
            Err(_) => base64_standard(text@) is None,
        },
{
    base64::engine::general_purpose::STANDARD.decode(text).map_err(|e| e.to_string())
}

/// The base64 text of pasted image data: what follows the first comma (the
/// end of a `data:image/png;base64,` prefix), or the whole text without one.
pub open spec fn base64_part(data: Seq<char>) -> Seq<char> {
    match find(data, seq![',']) {
        Some(k) => data.skip(k + 1),
        None => data,
    }
}

/// The image bytes of pasted data: its base64 part decoded. A refused text
/// gives `Invalid base64: ` and the decoder's message.
pub fn image_bytes(data: &str) -> (r: Result<Vec<u8>, String>)
    ensures
        match r {
            Ok(b) => base64_standard(base64_part(data@)) == Some(b@),
            Err(m) => base64_standard(base64_part(data@)) is None && has_message_prefix(m@),
        },
{
    let d = chars_of(data);
    let n = d.len();
    let comma = vec![','];
    assert(comma@ =~= seq![',']);
    let part = match find_chars(&d, &comma) {
        Some(k) => {
            proof {
                crate::text::lemma_find_from(d@, comma@, 0);
            }
            assert(k < n);
            slice_chars(&d, k + 1, n)
        },
        None => slice_chars(&d, 0, d.len()),
    };
    assert(part@ =~= base64_part(data@));
    let text = string_from_chars(&part);
    let ts = text.as_str();
    assert(ts@ == base64_part(data@));
    match decode_base64(ts) {
        Ok(b) => {
            assert(base64_standard(ts@) == Some(b@));
            Ok(b)
        },
        Err(e) => {
            let mut m: Vec<char> = Vec::new();
            push_str(&mut m, "Invalid base64: ");
            push_str(&mut m, e.as_str());
            let ghost lit = "Invalid base64: "@;
            assert(m@.take(lit.len() as int) =~= lit);
            let ms = string_from_chars(&m);
            assert(has_message_prefix(ms@));
            Err(ms)
        },
    }
}

/// Whether an error message starts with `Invalid base64: `.
pub open spec fn has_message_prefix(m: Seq<char>) -> bool {
    crate::text::has_prefix(m, "Invalid base64: "@)
}

/// The value of an ASCII hexadecimal digit byte.
pub open spec fn hex_value(b: u8) -> Option<u8> {
    if 0x30 <= b <= 0x39 {
        Some((b - 0x30) as u8)
    } else if 0x41 <= b <= 0x46 {
        Some((b - 0x41 + 10) as u8)
    } else if 0x61 <= b <= 0x66 {
        Some((b - 0x61 + 10) as u8)
    } else {
        None
    }
}

/// Percent-decoding: every `%` followed by two hexadecimal digits becomes the
/// byte they spell; every other byte stays.
pub open spec fn percent_decoded(s: Seq<u8>) -> Seq<u8>
    decreases s.len(),
{
    if s.len() == 0 {
        seq![]
    } else if s[0] == 0x25u8 && s.len() >= 3 && hex_value(s[1]) is Some && hex_value(s[2]) is Some {
        seq![(hex_value(s[1]).unwrap() * 16 + hex_value(s[2]).unwrap()) as u8] + percent_decoded(
            s.skip(3),
        )
    } else {
        seq![s[0]] + percent_decoded(s.skip(1))
    }
}

/// `percent_encoding::percent_decode_str(..).decode_utf8_lossy()`: the text
/// percent-decoded, then read as UTF-8 with invalid sequences replaced.
#[verifier::external_body]
fn percent_decode_lossy(s: &str) -> (r: String)
    ensures
        r@ == utf8_lossy(percent_decoded(vstd::utf8::encode_utf8(s@))),
{
    percent_encoding::percent_decode_str(s).decode_utf8_lossy().to_string()
}

/// The file path an image request names: the request path percent-decoded,
/// without one leading `/`.
pub open spec fn requested_image_path(uri_path: Seq<char>) -> Seq<char> {
    let decoded = utf8_lossy(percent_decoded(vstd::utf8::encode_utf8(uri_path)));
    if decoded.len() > 0 && decoded[0] == '/' {
        decoded.skip(1)
    } else {
        decoded
    }
}

/// The file path an image request names (see [`requested_image_path`]).
pub fn image_request_path(uri_path: &str) -> (r: String)
    ensures
        r@ == requested_image_path(uri_path@),
{
    let decoded = percent_decode_lossy(uri_path);
    let d = chars_of(decoded.as_str());
    if d.len() > 0 && d[0] == '/' {
        string_from_chars(&slice_chars(&d, 1, d.len()))
    } else {
        decoded
    }
}

/// The content type served for an image file, by its extension.
pub open spec fn image_content_type_of(path: Seq<char>) -> Seq<char> {
    let ext = match file_name(path) {
        Some(n) => extension(n),
        None => None,
    };
    match ext {
        Some(e) => if e == "png"@ {
            "image/png"@
        } else if e == "jpg"@ || e == "jpeg"@ {
            "image/jpeg"@
        } else if e == "gif"@ {
            "image/gif"@
        } else if e == "webp"@ {
            "image/webp"@
        } else {
            "application/octet-stream"@
        },
        None => "application/octet-stream"@,
    }
}

/// The content type served for an image file (see [`image_content_type_of`]).
pub fn image_content_type(path: &str) -> (r: &'static str)
    ensures
        r@ == image_content_type_of(path@),
{
    let p = chars_of(path);
    let ext = match crate::chunker::file_name_of(&p) {
        Some(n) => extension_of(&n),
        None => None,
    };
    match ext {
        Some(e) => if eq_str(&e, "png") {
            "image/png"
        } else if eq_str(&e, "jpg") || eq_str(&e, "jpeg") {
            "image/jpeg"
        } else if eq_str(&e, "gif") {
            "image/gif"
        } else if eq_str(&e, "webp") {
            "image/webp"
        } else {
            "application/octet-stream"
        },
        None => "application/octet-stream",
    }
}

} // verus!
