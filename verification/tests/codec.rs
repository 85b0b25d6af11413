use response_compression::Codec;

#[test]
fn test_content_encoding() {
    assert_eq!(Codec::Zstd.content_encoding(), "zstd");
    assert_eq!(Codec::Brotli.content_encoding(), "br");
    assert_eq!(Codec::Gzip.content_encoding(), "gzip");
    assert_eq!(Codec::Deflate.content_encoding(), "deflate");
}

#[test]
fn test_from_accept_encoding_simple() {
    assert_eq!(Codec::from_accept_encoding("zstd"), Some(Codec::Zstd));
    assert_eq!(Codec::from_accept_encoding("br"), Some(Codec::Brotli));
    assert_eq!(Codec::from_accept_encoding("gzip"), Some(Codec::Gzip));
    assert_eq!(Codec::from_accept_encoding("deflate"), Some(Codec::Deflate));
}

#[test]
fn test_from_accept_encoding_multiple() {
    // With equal quality, prefer zstd
    assert_eq!(
        Codec::from_accept_encoding("gzip, br, zstd"),
        Some(Codec::Zstd)
    );
}

#[test]
fn test_from_accept_encoding_with_quality() {
    assert_eq!(
        Codec::from_accept_encoding("gzip;q=1.0, br;q=0.5"),
        Some(Codec::Gzip)
    );
    assert_eq!(
        Codec::from_accept_encoding("gzip;q=0.5, br;q=1.0"),
        Some(Codec::Brotli)
    );
}

#[test]
fn test_from_accept_encoding_unsupported() {
    assert_eq!(Codec::from_accept_encoding("identity"), None);
    assert_eq!(Codec::from_accept_encoding("compress"), None);
}

#[test]
fn test_from_accept_encoding_quality_zero() {
    assert_eq!(Codec::from_accept_encoding("gzip;q=0"), None);
    assert_eq!(
        Codec::from_accept_encoding("gzip;q=0, br"),
        Some(Codec::Brotli)
    );
}

#[test]
fn test_from_accept_encoding_aliases() {
    assert_eq!(Codec::from_accept_encoding("brotli"), Some(Codec::Brotli));
    assert_eq!(Codec::from_accept_encoding("x-gzip"), Some(Codec::Gzip));
}

#[test]
fn test_from_accept_encoding_whitespace_and_case() {
    assert_eq!(
        Codec::from_accept_encoding("  gzip ; q=0.5 , br "),
        Some(Codec::Brotli)
    );
    assert_eq!(Codec::from_accept_encoding("gzip;Q=0"), None);
}

#[test]
fn test_from_accept_encoding_malformed_quality_defaults_to_one() {
    // An unparseable quality counts as 1.0, so gzip ties with br at full
    // quality and loses only to the higher-priority codec.
    assert_eq!(
        Codec::from_accept_encoding("gzip;q=abc, br;q=0.9"),
        Some(Codec::Gzip)
    );
    // A parameter that is not q= at all also defaults to 1.0.
    assert_eq!(
        Codec::from_accept_encoding("gzip;level=9"),
        Some(Codec::Gzip)
    );
}

#[test]
fn test_from_accept_encoding_fractional_forms() {
    assert_eq!(
        Codec::from_accept_encoding("gzip;q=.5, br;q=0.4"),
        Some(Codec::Gzip)
    );
    assert_eq!(
        Codec::from_accept_encoding("gzip;q=1., br;q=0.999"),
        Some(Codec::Gzip)
    );
    assert_eq!(Codec::from_accept_encoding("gzip;q=0.000"), None);
    assert_eq!(
        Codec::from_accept_encoding("gzip;q=0.001, br;q=0"),
        Some(Codec::Gzip)
    );
}

#[test]
fn test_from_accept_encoding_empty_and_garbage() {
    assert_eq!(Codec::from_accept_encoding(""), None);
    assert_eq!(Codec::from_accept_encoding(",,,"), None);
    assert_eq!(Codec::from_accept_encoding(";;q=1.0"), None);
    assert_eq!(Codec::from_accept_encoding("*"), None);
}

#[test]
fn test_from_accept_encoding_priority_order() {
    assert_eq!(
        Codec::from_accept_encoding("deflate, gzip"),
        Some(Codec::Gzip)
    );
    assert_eq!(
        Codec::from_accept_encoding("deflate, gzip, br"),
        Some(Codec::Brotli)
    );
    // First entry wins only through priority, not position.
    assert_eq!(
        Codec::from_accept_encoding("zstd;q=0.8, br;q=0.9"),
        Some(Codec::Brotli)
    );
}
