//! Turning a response body as the browser reports it (plain text, or base64)
//! into what is shown: decoded UTF-8 text for text-like media types, the
//! base64 text otherwise, truncated to a character limit.
use base64::Engine;
use vstd::prelude::*;
use vstd::string::StringExecFns;
use vstd::utf8::{decode_utf8, encode_utf8, valid_utf8};
use crate::text::{opt_view, chars_of, contains_seq, starts_with_seq, str_contains, str_starts_with, string_from_chars};

verus! {

/// The error of a failed base64 decoding.
#[verifier::external_type_specification]
#[verifier::external_body]
pub struct ExDecodeError(base64::DecodeError);

/// What the standard base64 engine (RFC 4648 alphabet, padding required)
/// decodes `input` to, or `None` when it rejects the input.
pub uninterp spec fn base64_standard_decode(input: Seq<u8>) -> Option<Seq<u8>>;

/// `base64::engine::general_purpose::STANDARD.decode`: the result is what the
/// standard engine makes of the input bytes; nothing more of base64 is stated.
#[verifier::external_body]
fn base64_decode(input: &[u8]) -> (r: Result<Vec<u8>, base64::DecodeError>)
    ensures
        match r {
            Ok(bytes) => base64_standard_decode(input@) == Some(bytes@),
            Err(_) => base64_standard_decode(input@) is None,
        },
{
    base64::engine::general_purpose::STANDARD.decode(input)
}

/// `String::from_utf8`: succeeds exactly on valid UTF-8, with the decoded characters.
#[verifier::external_body]
fn string_from_utf8(bytes: Vec<u8>) -> (r: Option<String>)
    ensures
        match r {
            Some(s) => valid_utf8(bytes@) && s@ == decode_utf8(bytes@),
            None => !valid_utf8(bytes@),
        },
{
    String::from_utf8(bytes).ok()
}

/// Whether a media type denotes text that is worth decoding.
pub open spec fn text_like_mime(mime_type: Option<Seq<char>>) -> bool {
    match mime_type {
        Some(m) => {
            ||| starts_with_seq(m, "text/"@)
            ||| contains_seq(m, "json"@)
            ||| contains_seq(m, "xml"@)
            ||| contains_seq(m, "javascript"@)
            ||| contains_seq(m, "svg"@)
            ||| contains_seq(m, "x-www-form-urlencoded"@)
        },
        None => false,
    }
}

/// Whether the media type is text-like: "text/..." or naming json, xml,
/// javascript, svg or form-urlencoded data.
pub fn is_text_like_mime(mime_type: Option<&str>) -> (b: bool)
    ensures
        b == text_like_mime(opt_view(mime_type)),
{
    let Some(m) = mime_type else {
        return false;
    };
    str_starts_with(m, "text/") || str_contains(m, "json") || str_contains(m, "xml")
        || str_contains(m, "javascript") || str_contains(m, "svg") || str_contains(
        m,
        "x-www-form-urlencoded",
    )
}

/// Whether `text` is cut at `limit` characters (a limit of 0 means none).
pub open spec fn is_truncated(text: Seq<char>, limit: nat) -> bool {
    limit != 0 && text.len() > limit
}

/// `text` cut to at most `limit` characters (a limit of 0 means no limit).
pub open spec fn truncated(text: Seq<char>, limit: nat) -> Seq<char> {
    if is_truncated(text, limit) {
        text.take(limit as int)
    } else {
        text
    }
}

/// What truncation shows is always the beginning of the text, at most
/// `limit` characters long when a limit is set, and the whole text exactly
/// when nothing was cut.
pub proof fn lemma_truncated_prefix(text: Seq<char>, limit: nat)
    ensures
        truncated(text, limit) == text.take(truncated(text, limit).len() as int),
        limit != 0 ==> truncated(text, limit).len() <= limit,
        (truncated(text, limit) == text) == !is_truncated(text, limit),
{
    assert(text.take(text.len() as int) =~= text);
    if is_truncated(text, limit) {
        assert(truncated(text, limit).len() != text.len());
    }
}

/// Cuts `text` to its first `limit` characters (no cut when `limit` is 0),
/// and says whether anything was cut off.
pub fn truncate_text(text: &str, limit: usize) -> (r: (String, bool))
    ensures
        r.0@ == truncated(text@, limit as nat),
        r.1 == is_truncated(text@, limit as nat),
{
    let v = chars_of(text);
    if limit == 0 || v.len() <= limit {
        return (string_from_chars(v.as_slice()), false);
    }
    let mut out: Vec<char> = Vec::new();
    let mut i: usize = 0;
    while i < limit
        invariant
            limit < v@.len(),
            i <= limit,
            out@ == v@.take(i as int),
        decreases limit - i,
    {
        out.push(v[i]);
        i = i + 1;
        assert(out@ =~= v@.take(i as int));
    }
    (string_from_chars(out.as_slice()), true)
}

/// A response body as it is shown.
#[derive(Debug)]
pub struct NetworkBodyOutput {
    pub content: String,
    pub encoding: String,
    pub was_base64_encoded: bool,
    pub truncated: bool,
    pub original_length: usize,
    pub decoded_byte_length: Option<usize>,
}

/// `o` shows `text` cut to `limit`, with the given encoding label, base64
/// flag, full length in characters and decoded byte length.
pub open spec fn shows(
    o: NetworkBodyOutput,
    text: Seq<char>,
    encoding: Seq<char>,
    was_base64: bool,
    limit: nat,
    decoded_len: Option<nat>,
) -> bool {
    &&& o.content@ == truncated(text, limit)
    &&& o.truncated == is_truncated(text, limit)
    &&& o.encoding@ == encoding
    &&& o.was_base64_encoded == was_base64
    &&& o.original_length == text.len()
    &&& match decoded_len {
        Some(n) => o.decoded_byte_length matches Some(k) && k == n,
        None => o.decoded_byte_length is None,
    }
}

/// What is shown of a base64 body, given what it decodes to: decoded UTF-8
/// text when the media type is text-like and the bytes are valid UTF-8,
/// otherwise the base64 text itself, with the decoded byte count when the
/// decoding succeeded and was not rejected as text.
pub open spec fn shows_base64_body(
    o: NetworkBodyOutput,
    body: Seq<char>,
    mime_type: Option<Seq<char>>,
    limit: nat,
    decoded: Option<Seq<u8>>,
) -> bool {
    match decoded {
        Some(bytes) => if text_like_mime(mime_type) {
            if valid_utf8(bytes) {
                shows(o, decode_utf8(bytes), "utf8"@, true, limit, Some(bytes.len()))
            } else {
                shows(o, body, "base64"@, true, limit, None)
            }
        } else {
            shows(o, body, "base64"@, true, limit, Some(bytes.len()))
        },
        None => shows(o, body, "base64"@, true, limit, None),
    }
}

/// Whatever body is shown, it is the beginning of the shown text: the whole
/// text when the limit is 0 or the text is no longer than the limit, and
/// otherwise exactly its first `limit` characters, flagged as truncated;
/// the reported length is that of the whole text.
pub proof fn lemma_shown_text_respects_limit(
    o: NetworkBodyOutput,
    text: Seq<char>,
    encoding: Seq<char>,
    was_base64: bool,
    limit: nat,
    decoded_len: Option<nat>,
)
    requires
        shows(o, text, encoding, was_base64, limit, decoded_len),
    ensures
        o.truncated == (limit != 0 && text.len() > limit),
        o.original_length == text.len(),
        limit != 0 ==> o.content@.len() <= limit,
        o.truncated ==> o.content@ == text.subrange(0, limit as int),
        !o.truncated ==> o.content@ == text,
{
}

/// A base64 body of a text-like type that decodes to valid UTF-8 is shown as
/// that text, under the same limit as any other body; in every other case
/// the base64 text itself is shown under that limit. In both cases the
/// content is cut to at most `limit` characters (when a limit is set) and is
/// flagged as truncated exactly when the shown text is longer.
pub proof fn lemma_base64_body_respects_limit(
    o: NetworkBodyOutput,
    body: Seq<char>,
    mime_type: Option<Seq<char>>,
    limit: nat,
    decoded: Option<Seq<u8>>,
)
    requires
        shows_base64_body(o, body, mime_type, limit, decoded),
    ensures
        o.was_base64_encoded,
        ({
            let utf8 = decoded is Some && text_like_mime(mime_type) && valid_utf8(decoded->0);
            let text = if utf8 {
                decode_utf8(decoded->0)
            } else {
                body
            };
            &&& o.encoding@ == (if utf8 {
                "utf8"@
            } else {
                "base64"@
            })
            &&& o.original_length == text.len()
            &&& o.truncated == (limit != 0 && text.len() > limit)
            &&& limit != 0 ==> o.content@.len() <= limit
            &&& o.truncated ==> o.content@ == text.subrange(0, limit as int)
            &&& !o.truncated ==> o.content@ == text
        }),
{
}

fn body_output(
    text: &str,
    encoding: &str,
    was_base64: bool,
    limit: usize,
    decoded_len: Option<usize>,
) -> (o: NetworkBodyOutput)
    ensures
        shows(
            o,
            text@,
            encoding@,
            was_base64,
            limit as nat,
            match decoded_len {
                Some(n) => Some(n as nat),
                None => None,
            },
        ),
{
    let (content, truncated) = truncate_text(text, limit);
    NetworkBodyOutput {
        content,
        encoding: String::from_str(encoding),
        was_base64_encoded: was_base64,
        truncated,
        original_length: chars_of(text).len(),
        decoded_byte_length: decoded_len,
    }
}

/// What is shown of a base64-encoded `body` whose decoding gave `decoded`
/// (`None` when the decoder rejected it).
pub fn decoded_body_output(
    body: &str,
    mime_type: Option<&str>,
    limit: usize,
    decoded: Option<Vec<u8>>,
) -> (o: NetworkBodyOutput)
    ensures
        shows_base64_body(
            o,
            body@,
            opt_view(mime_type),
            limit as nat,
            match decoded {
                Some(b) => Some(b@),
                None => None,
            },
        ),
{
    match decoded {
        Some(bytes) => {
            let n = bytes.len();
            if is_text_like_mime(mime_type) {
                match string_from_utf8(bytes) {
                    Some(text) => body_output(text.as_str(), "utf8", true, limit, Some(n)),
                    None => body_output(body, "base64", true, limit, None),
                }
            } else {
                body_output(body, "base64", true, limit, Some(n))
            }
        },
        None => body_output(body, "base64", true, limit, None),
    }
}

/// What is shown of a response body: a plain body is shown as it is; a
/// base64 body as `decoded_body_output` says, given what the standard base64
/// engine makes of it.
pub fn decode_network_body(
    body: &str,
    base64_encoded: bool,
    mime_type: Option<&str>,
    limit: usize,
) -> (o: NetworkBodyOutput)
    ensures
        !base64_encoded ==> shows(
            o,
            body@,
            "plain"@,
            false,
            limit as nat,
            Some((encode_utf8(body@).len() as usize) as nat),
        ),
        base64_encoded ==> shows_base64_body(
            o,
            body@,
            opt_view(mime_type),
            limit as nat,
            base64_standard_decode(encode_utf8(body@)),
        ),
{
    if !base64_encoded {
        return body_output(body, "plain", false, limit, Some(body.len()));
    }
    let decoded = match base64_decode(body.as_bytes()) {
        Ok(bytes) => Some(bytes),
        Err(_) => None,
    };
    decoded_body_output(body, mime_type, limit, decoded)
}

/// The bytes of a screenshot, which the browser sends as base64 text.
pub fn decode_screenshot(data: &str) -> (r: Result<Vec<u8>, base64::DecodeError>)
    ensures
        match r {
            Ok(b) => base64_standard_decode(encode_utf8(data@)) == Some(b@),
            Err(_) => base64_standard_decode(encode_utf8(data@)) is None,
        },
{
    base64_decode(data.as_bytes())
}

} // verus!
