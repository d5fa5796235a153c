use base64::Engine;
use chromium_bridge::body::{decode_network_body, decode_screenshot, decoded_body_output, is_text_like_mime, truncate_text};

#[test]
fn decode_network_body_decodes_utf8_from_base64() {
    let encoded = base64::engine::general_purpose::STANDARD.encode("{\"ok\":true}");
    let body = decode_network_body(&encoded, true, Some("application/json"), 4000);
    assert_eq!(body.content, "{\"ok\":true}");
    assert_eq!(body.encoding, "utf8");
    assert!(body.was_base64_encoded);
    assert!(!body.truncated);
}

#[test]
fn plain_bodies_are_truncated_by_characters() {
    let body = decode_network_body("héllo wörld", false, None, 4);
    assert_eq!(body.content, "héll");
    assert!(body.truncated);
    assert_eq!(body.encoding, "plain");
    assert!(!body.was_base64_encoded);
    assert_eq!(body.original_length, 11);
    assert_eq!(body.decoded_byte_length, Some(13));
    let full = decode_network_body("abc", false, None, 0);
    assert_eq!(full.content, "abc");
    assert!(!full.truncated);
}

#[test]
fn binary_and_broken_base64_stay_encoded() {
    let encoded = base64::engine::general_purpose::STANDARD.encode([0u8, 159, 146, 150]);
    let bin = decode_network_body(&encoded, true, Some("image/png"), 0);
    assert_eq!(bin.encoding, "base64");
    assert_eq!(bin.content, encoded);
    assert_eq!(bin.decoded_byte_length, Some(4));

    let not_utf8 = decode_network_body(&encoded, true, Some("text/plain"), 0);
    assert_eq!(not_utf8.encoding, "base64");
    assert_eq!(not_utf8.decoded_byte_length, None);

    let broken = decode_network_body("!!not base64!!", true, Some("text/plain"), 3);
    assert_eq!(broken.encoding, "base64");
    assert_eq!(broken.content, "!!n");
    assert!(broken.truncated);
    assert_eq!(broken.original_length, 14);
    assert_eq!(broken.decoded_byte_length, None);
}

#[test]
fn decoded_body_output_takes_the_decoding() {
    let out = decoded_body_output("aGk=", Some("text/html"), 10, Some(b"hi".to_vec()));
    assert_eq!(out.content, "hi");
    assert_eq!(out.encoding, "utf8");
    assert_eq!(out.decoded_byte_length, Some(2));
    let out = decoded_body_output("aGk=", Some("text/html"), 10, None);
    assert_eq!(out.content, "aGk=");
    assert_eq!(out.encoding, "base64");
}

#[test]
fn text_like_mime_types() {
    assert!(is_text_like_mime(Some("text/html")));
    assert!(is_text_like_mime(Some("application/json; charset=utf-8")));
    assert!(is_text_like_mime(Some("application/xhtml+xml")));
    assert!(is_text_like_mime(Some("application/javascript")));
    assert!(is_text_like_mime(Some("image/svg+xml")));
    assert!(is_text_like_mime(Some("application/x-www-form-urlencoded")));
    assert!(!is_text_like_mime(Some("image/png")));
    assert!(!is_text_like_mime(Some("application/text/plain")));
    assert!(!is_text_like_mime(None));
}

#[test]
fn truncate_text_edges() {
    assert_eq!(truncate_text("abc", 3), ("abc".to_string(), false));
    assert_eq!(truncate_text("abcd", 3), ("abc".to_string(), true));
    assert_eq!(truncate_text("", 3), (String::new(), false));
    assert_eq!(truncate_text("日本語", 2), ("日本".to_string(), true));
    assert_eq!(truncate_text("abc", 0), ("abc".to_string(), false));
}

#[test]
fn screenshots_decode_to_raw_bytes() {
    let png_head = [0x89u8, b'P', b'N', b'G', 13, 10, 26, 10];
    assert_eq!(decode_screenshot("iVBORw0KGgo=").unwrap(), png_head.to_vec());
    assert_eq!(decode_screenshot("").unwrap(), Vec::<u8>::new());
    assert!(decode_screenshot("not base64!").is_err());
    assert!(decode_screenshot("iVBORw0KGgo").is_err());
}
