use response_compression::body::{CompressionBody, CompressState};
use response_compression::future::{apply, decide, EligibilityDecision};
use response_compression::headers::HeaderMap;
use response_compression::Codec;

fn make_headers(pairs: &[(&str, &str)]) -> HeaderMap {
    let mut h = HeaderMap::new();
    for (name, value) in pairs {
        h.append(name.as_bytes().to_vec(), value.as_bytes().to_vec());
    }
    h
}

fn decide_and_apply(h: &mut HeaderMap, codec: Option<Codec>, min_size: usize) -> EligibilityDecision {
    let d = decide(h, codec, min_size);
    apply(&d, h);
    d
}

fn get<'a>(h: &'a HeaderMap, name: &str) -> Option<&'a Vec<u8>> {
    h.get(name.as_bytes())
}

#[test]
fn test_compress_when_accept_encoding_present() {
    let mut h = make_headers(&[]);
    let d = decide_and_apply(&mut h, Some(Codec::Gzip), 0);
    assert!(d.compress);

    // The body built from this decision starts in the Reading state.
    let body: CompressionBody<&str> = CompressionBody::compressed("hello world", Codec::Gzip, d.always_flush);
    match body {
        CompressionBody::Compressed { state, .. } => {
            assert_eq!(state.state(), CompressState::Reading);
        }
        _ => panic!("Expected compressed body"),
    }

    // Should have Content-Encoding header
    assert_eq!(get(&h, "content-encoding").unwrap().as_slice(), b"gzip");
}

#[test]
fn test_no_compress_when_no_accept_encoding() {
    let mut h = make_headers(&[]);
    let d = decide_and_apply(&mut h, None, 0);
    assert!(!d.compress);

    // Should NOT have Content-Encoding header
    assert!(get(&h, "content-encoding").is_none());
}

#[test]
fn test_no_compress_when_content_encoding_present() {
    let mut h = make_headers(&[("content-encoding", "identity")]);
    let d = decide_and_apply(&mut h, Some(Codec::Gzip), 0);
    assert!(!d.compress, "Expected passthrough body");
    assert_eq!(get(&h, "content-encoding").unwrap().as_slice(), b"identity");
}

#[test]
fn test_no_compress_image_png() {
    let mut h = make_headers(&[("content-type", "image/png")]);
    let d = decide_and_apply(&mut h, Some(Codec::Gzip), 0);
    assert!(!d.compress, "Expected passthrough body for image/png");
}

#[test]
fn test_no_compress_image_jpeg() {
    let mut h = make_headers(&[("content-type", "image/jpeg")]);
    let d = decide_and_apply(&mut h, Some(Codec::Gzip), 0);
    assert!(!d.compress, "Expected passthrough body for image/jpeg");
}

#[test]
fn test_no_compress_image_gif() {
    let mut h = make_headers(&[("content-type", "image/gif")]);
    let d = decide_and_apply(&mut h, Some(Codec::Gzip), 0);
    assert!(!d.compress, "Expected passthrough body for image/gif");
}

#[test]
fn test_no_compress_image_webp() {
    let mut h = make_headers(&[("content-type", "image/webp")]);
    let d = decide_and_apply(&mut h, Some(Codec::Gzip), 0);
    assert!(!d.compress, "Expected passthrough body for image/webp");
}

#[test]
fn test_compress_image_svg() {
    let mut h = make_headers(&[("content-type", "image/svg+xml")]);
    let d = decide_and_apply(&mut h, Some(Codec::Gzip), 0);
    assert!(d.compress, "Expected compressed body for image/svg+xml");
}

#[test]
fn test_compress_image_svg_with_charset() {
    let mut h = make_headers(&[("content-type", "image/svg+xml; charset=utf-8")]);
    let d = decide_and_apply(&mut h, Some(Codec::Gzip), 0);
    assert!(d.compress, "Expected compressed body for image/svg+xml with charset");
}

#[test]
fn test_compress_text_html() {
    let mut h = make_headers(&[("content-type", "text/html")]);
    let d = decide_and_apply(&mut h, Some(Codec::Gzip), 0);
    assert!(d.compress, "Expected compressed body for text/html");
}

#[test]
fn test_no_compress_below_min_size() {
    let mut h = make_headers(&[("content-length", "5")]);
    let d = decide_and_apply(&mut h, Some(Codec::Gzip), 100);
    assert!(!d.compress, "Expected passthrough body below min size");
}

#[test]
fn test_compress_above_min_size() {
    let mut h = make_headers(&[("content-length", "200")]);
    let d = decide_and_apply(&mut h, Some(Codec::Gzip), 100);
    assert!(d.compress, "Expected compressed body above min size");

    // Content-Length should be removed
    assert!(get(&h, "content-length").is_none());
}

#[test]
fn test_compress_unknown_size() {
    // No Content-Length header means unknown size, should compress
    let mut h = make_headers(&[]);
    let d = decide_and_apply(&mut h, Some(Codec::Gzip), 100);
    assert!(d.compress, "Expected compressed body for unknown size");
}

#[test]
fn test_always_flush_when_x_accel_buffering_no() {
    let mut h = make_headers(&[("x-accel-buffering", "no")]);
    let d = decide_and_apply(&mut h, Some(Codec::Gzip), 0);
    assert!(d.compress, "Expected compressed body");
    assert!(d.always_flush);
}

#[test]
fn test_no_always_flush_by_default() {
    let mut h = make_headers(&[]);
    let d = decide_and_apply(&mut h, Some(Codec::Gzip), 0);
    assert!(d.compress, "Expected compressed body");
    assert!(!d.always_flush);
}

#[test]
fn test_x_accel_buffering_case_insensitive() {
    let mut h = make_headers(&[("x-accel-buffering", "NO")]);
    let d = decide_and_apply(&mut h, Some(Codec::Gzip), 0);
    assert!(d.compress, "Expected compressed body");
    assert!(d.always_flush);
}

#[test]
fn test_brotli_content_encoding() {
    let mut h = make_headers(&[]);
    let d = decide_and_apply(&mut h, Some(Codec::Brotli), 0);
    assert!(d.compress);
    assert_eq!(get(&h, "content-encoding").unwrap().as_slice(), b"br");
}

#[test]
fn test_zstd_content_encoding() {
    let mut h = make_headers(&[]);
    let d = decide_and_apply(&mut h, Some(Codec::Zstd), 0);
    assert!(d.compress);
    assert_eq!(get(&h, "content-encoding").unwrap().as_slice(), b"zstd");
}

#[test]
fn test_no_compress_application_grpc() {
    let mut h = make_headers(&[("content-type", "application/grpc")]);
    let d = decide_and_apply(&mut h, Some(Codec::Gzip), 0);
    assert!(!d.compress, "Expected passthrough body for application/grpc");
}

#[test]
fn test_no_compress_application_grpc_with_suffix() {
    let mut h = make_headers(&[("content-type", "application/grpc+proto")]);
    let d = decide_and_apply(&mut h, Some(Codec::Gzip), 0);
    assert!(!d.compress, "Expected passthrough body for application/grpc+proto");
}

#[test]
fn test_compress_application_grpc_web() {
    let mut h = make_headers(&[("content-type", "application/grpc-web")]);
    let d = decide_and_apply(&mut h, Some(Codec::Gzip), 0);
    assert!(d.compress, "Expected compressed body");
    assert!(d.always_flush);
}

#[test]
fn test_compress_application_grpc_web_proto() {
    let mut h = make_headers(&[("content-type", "application/grpc-web+proto")]);
    let d = decide_and_apply(&mut h, Some(Codec::Gzip), 0);
    assert!(d.compress, "Expected compressed body");
    assert!(d.always_flush);
}

#[test]
fn test_always_flush_text_event_stream() {
    let mut h = make_headers(&[("content-type", "text/event-stream")]);
    let d = decide_and_apply(&mut h, Some(Codec::Gzip), 0);
    assert!(d.compress, "Expected compressed body");
    assert!(d.always_flush);
}

#[test]
fn test_always_flush_text_event_stream_with_charset() {
    let mut h = make_headers(&[("content-type", "text/event-stream; charset=utf-8")]);
    let d = decide_and_apply(&mut h, Some(Codec::Gzip), 0);
    assert!(d.compress, "Expected compressed body");
    assert!(d.always_flush);
}

#[test]
fn test_no_compress_range_response() {
    let mut h = make_headers(&[("content-range", "bytes 0-99/200")]);
    let d = decide_and_apply(&mut h, Some(Codec::Gzip), 0);
    assert!(!d.compress, "Expected passthrough body for range response");
}

#[test]
fn test_vary_header_added() {
    let mut h = make_headers(&[]);
    decide_and_apply(&mut h, Some(Codec::Gzip), 0);
    assert_eq!(get(&h, "vary").unwrap().as_slice(), b"accept-encoding");
}

#[test]
fn test_vary_header_appended() {
    let mut h = make_headers(&[("vary", "origin")]);
    decide_and_apply(&mut h, Some(Codec::Gzip), 0);

    // With append, there will be two Vary headers
    let vary_values = h.values("vary".as_bytes());
    assert_eq!(vary_values.len(), 2);
    assert_eq!(vary_values[0].as_slice(), b"origin");
    assert_eq!(vary_values[1].as_slice(), b"accept-encoding");
}

#[test]
fn test_vary_header_not_duplicated() {
    let mut h = make_headers(&[("vary", "accept-encoding")]);
    decide_and_apply(&mut h, Some(Codec::Gzip), 0);
    let vary_values = h.values("vary".as_bytes());
    assert_eq!(vary_values.len(), 1);
    assert_eq!(get(&h, "vary").unwrap().as_slice(), b"accept-encoding");
}

#[test]
fn test_vary_header_star_not_modified() {
    let mut h = make_headers(&[("vary", "*")]);
    decide_and_apply(&mut h, Some(Codec::Gzip), 0);
    let vary_values = h.values("vary".as_bytes());
    assert_eq!(vary_values.len(), 1);
    assert_eq!(get(&h, "vary").unwrap().as_slice(), b"*");
}

#[test]
fn test_accept_ranges_removed() {
    let mut h = make_headers(&[("accept-ranges", "bytes")]);
    decide_and_apply(&mut h, Some(Codec::Gzip), 0);

    // Accept-Ranges should be removed when compressing
    assert!(get(&h, "accept-ranges").is_none());
}

#[test]
fn test_accept_ranges_kept_when_not_compressing() {
    let mut h = make_headers(&[("accept-ranges", "bytes")]);
    decide_and_apply(&mut h, None, 0);

    // Accept-Ranges should be kept when not compressing
    assert_eq!(get(&h, "accept-ranges").unwrap().as_slice(), b"bytes");
}

#[test]
fn test_vary_merge_is_idempotent_in_effect() {
    let mut h = make_headers(&[("vary", "origin")]);
    let d = decide(&h, Some(Codec::Gzip), 0);
    apply(&d, &mut h);
    let once = h.values("vary".as_bytes());
    apply(&d, &mut h);
    let twice = h.values("vary".as_bytes());
    assert_eq!(once.len(), 2);
    assert_eq!(once, twice);
}

#[test]
fn test_decide_is_deterministic() {
    let h1 = make_headers(&[("content-type", "text/html"), ("content-length", "500")]);
    let h2 = make_headers(&[("content-type", "text/html"), ("content-length", "500")]);
    let d1 = decide(&h1, Some(Codec::Brotli), 100);
    let d2 = decide(&h2, Some(Codec::Brotli), 100);
    assert_eq!(d1, d2);
}

#[test]
fn test_content_length_equal_to_min_size_compresses() {
    let mut h = make_headers(&[("content-length", "100")]);
    let d = decide_and_apply(&mut h, Some(Codec::Gzip), 100);
    assert!(d.compress);
}

#[test]
fn test_unparseable_content_length_compresses() {
    let mut h = make_headers(&[("content-length", "many")]);
    let d = decide_and_apply(&mut h, Some(Codec::Gzip), 100);
    assert!(d.compress);
}
