use response_compression::body::{
    passthrough_frame, BodyEvent, CompressState, CompressedBody, CompressionBody, Frame,
    PollOutcome,
};
use response_compression::headers::HeaderMap;
use response_compression::Codec;

/// Drives a compressed body over a fixed frame sequence, the way a caller
/// polls it, and collects everything it produces.
fn drive(
    state: &mut CompressedBody,
    frames: Vec<Frame>,
) -> (Vec<Vec<u8>>, Option<HeaderMap>) {
    let mut events: std::collections::VecDeque<Frame> = frames.into();
    let mut data_frames: Vec<Vec<u8>> = Vec::new();
    let mut trailer_frame: Option<HeaderMap> = None;
    loop {
        let event = if state.state() == CompressState::Reading {
            match events.pop_front() {
                Some(f) => Some(BodyEvent::Frame(f)),
                None => Some(BodyEvent::End),
            }
        } else {
            None
        };
        match state.poll_compressed(event).expect("no encoder error") {
            PollOutcome::NeedFrame => continue,
            PollOutcome::NoOutput => continue,
            PollOutcome::Data(d) => data_frames.push(d),
            PollOutcome::TrailerFrame(t) => trailer_frame = Some(t),
            PollOutcome::Exhausted => break,
        }
    }
    (data_frames, trailer_frame)
}

fn trailers_with_checksum() -> HeaderMap {
    let mut t = HeaderMap::new();
    t.append(b"x-checksum".to_vec(), b"abc123".to_vec());
    t
}

#[test]
fn test_passthrough_data() {
    let body: CompressionBody<&str> = CompressionBody::passthrough("hello world");
    match body {
        CompressionBody::Passthrough { inner } => assert_eq!(inner, "hello world"),
        _ => panic!("Expected passthrough body"),
    }

    // The passthrough path forwards a data frame unchanged.
    let frame = passthrough_frame(Frame::Data(b"hello world".to_vec()));
    match frame {
        Frame::Data(d) => assert_eq!(d, b"hello world".to_vec()),
        _ => panic!("Expected data frame"),
    }
}

#[test]
fn test_passthrough_trailers() {
    let frames = vec![
        Frame::Data(b"data".to_vec()),
        Frame::Trailers(trailers_with_checksum()),
    ];
    let mut seen_data = false;
    let mut seen_trailers = false;
    for f in frames {
        match passthrough_frame(f) {
            Frame::Data(d) => {
                assert_eq!(d, b"data".to_vec());
                seen_data = true;
            }
            Frame::Trailers(t) => {
                assert_eq!(t.get(b"x-checksum").unwrap().as_slice(), b"abc123");
                seen_trailers = true;
            }
        }
    }
    assert!(seen_data);
    assert!(seen_trailers);
}

#[test]
fn test_compressed_produces_output() {
    let mut state = CompressedBody::new(Codec::Gzip, false);
    let (data_frames, trailers) = drive(
        &mut state,
        vec![Frame::Data(b"hello world".to_vec())],
    );
    assert!(!data_frames.is_empty());
    // Compressed output should exist (gzip header starts with 0x1f 0x8b)
    assert_eq!(data_frames[0][0], 0x1f);
    assert_eq!(data_frames[0][1], 0x8b);
    assert!(trailers.is_none());
    assert_eq!(state.state(), CompressState::Done);
}

#[test]
fn test_compressed_with_trailers() {
    let mut state = CompressedBody::new(Codec::Gzip, false);
    let (data_frames, trailer_frame) = drive(
        &mut state,
        vec![
            Frame::Data(b"hello world".to_vec()),
            Frame::Trailers(trailers_with_checksum()),
        ],
    );

    // Should have received at least one data frame
    assert!(data_frames.len() >= 1);

    // Should have received trailers
    let trailers = trailer_frame.expect("Expected trailers frame");
    assert_eq!(trailers.get(b"x-checksum").unwrap().as_slice(), b"abc123");
}

#[test]
fn test_each_codec_compresses_and_finishes() {
    for codec in [Codec::Zstd, Codec::Brotli, Codec::Gzip, Codec::Deflate] {
        let mut state = CompressedBody::new(codec, false);
        let payload = b"the quick brown fox jumps over the lazy dog".repeat(50);
        let (data_frames, trailers) = drive(&mut state, vec![Frame::Data(payload)]);
        let total: usize = data_frames.iter().map(|d| d.len()).sum();
        assert!(total > 0, "{:?} produced no output", codec);
        assert!(trailers.is_none());
        assert_eq!(state.state(), CompressState::Done);
    }
}

#[test]
fn test_always_flush_emits_output_per_chunk() {
    let mut state = CompressedBody::new(Codec::Gzip, true);
    assert!(state.always_flush());
    // With always-flush on, a single data chunk must come back as a data
    // frame from the very poll that carried it: the flush forces the
    // encoder to emit a decodable boundary.
    let out = state
        .poll_compressed(Some(BodyEvent::Frame(Frame::Data(b"event: data\n\n".to_vec()))))
        .expect("no encoder error");
    match out {
        PollOutcome::Data(d) => assert!(!d.is_empty()),
        other => panic!("expected a data frame, got {:?}", discriminant_name(&other)),
    }
    assert_eq!(state.state(), CompressState::Reading);
}

#[test]
fn test_always_flush_all_codecs() {
    // Each codec's flush path must force buffered input out as a data
    // frame within the poll that carried the chunk.
    for codec in [Codec::Zstd, Codec::Brotli, Codec::Gzip, Codec::Deflate] {
        let mut state = CompressedBody::new(codec, true);
        let out = state
            .poll_compressed(Some(BodyEvent::Frame(Frame::Data(
                b"a small streaming chunk".to_vec(),
            ))))
            .expect("no encoder error");
        match out {
            PollOutcome::Data(d) => assert!(!d.is_empty(), "{:?} flushed nothing", codec),
            other => panic!(
                "{:?}: expected a data frame, got {}",
                codec,
                discriminant_name(&other)
            ),
        }
    }
}

fn discriminant_name(p: &PollOutcome) -> &'static str {
    match p {
        PollOutcome::NeedFrame => "NeedFrame",
        PollOutcome::NoOutput => "NoOutput",
        PollOutcome::Data(_) => "Data",
        PollOutcome::TrailerFrame(_) => "TrailerFrame",
        PollOutcome::Exhausted => "Exhausted",
    }
}

#[test]
fn test_done_is_idempotent() {
    let mut state = CompressedBody::new(Codec::Deflate, false);
    let (_, _) = drive(&mut state, vec![Frame::Data(b"abc".to_vec())]);
    assert_eq!(state.state(), CompressState::Done);
    // Once Done, every further poll reports exhaustion.
    for _ in 0..3 {
        match state.poll_compressed(None).expect("no encoder error") {
            PollOutcome::Exhausted => {}
            _ => panic!("expected exhaustion after Done"),
        }
        assert_eq!(state.state(), CompressState::Done);
    }
}

#[test]
fn test_reading_without_event_needs_frame() {
    let mut state = CompressedBody::new(Codec::Zstd, false);
    match state.poll_compressed(None).expect("no encoder error") {
        PollOutcome::NeedFrame => {}
        _ => panic!("expected NeedFrame while Reading with no event"),
    }
    assert_eq!(state.state(), CompressState::Reading);
}

#[test]
fn test_trailers_only_body() {
    // A body whose only frame is a trailer set still finishes the encoder
    // first and emits the trailers as the final frame.
    let mut state = CompressedBody::new(Codec::Gzip, false);
    let (data_frames, trailer_frame) = drive(
        &mut state,
        vec![Frame::Trailers(trailers_with_checksum())],
    );
    // The gzip tail (header + empty deflate stream + footer) still appears.
    let total: usize = data_frames.iter().map(|d| d.len()).sum();
    assert!(total > 0);
    assert!(trailer_frame.is_some());
    assert_eq!(state.state(), CompressState::Done);
}

#[test]
fn test_empty_body_compresses_to_valid_tail() {
    let mut state = CompressedBody::new(Codec::Gzip, false);
    let (data_frames, trailers) = drive(&mut state, vec![]);
    let total: usize = data_frames.iter().map(|d| d.len()).sum();
    assert!(total > 0);
    assert!(trailers.is_none());
    assert_eq!(state.state(), CompressState::Done);
}

#[test]
fn test_compressed_body_constructor_state() {
    let body: CompressionBody<Vec<u8>> =
        CompressionBody::compressed(Vec::new(), Codec::Brotli, true);
    match body {
        CompressionBody::Compressed { state, .. } => {
            assert_eq!(state.state(), CompressState::Reading);
            assert!(state.always_flush());
        }
        _ => panic!("Expected compressed body"),
    }
}

#[test]
fn test_large_payload_spans_multiple_buffers() {
    // A payload much larger than the reusable output buffer forces several
    // encode and finish rounds.
    let mut state = CompressedBody::new(Codec::Deflate, false);
    // Pseudo-random bytes compress poorly, so the compressed stream is
    // larger than one 8 KiB buffer and needs several rounds.
    let mut x: u64 = 0x243f_6a88_85a3_08d3;
    let payload: Vec<u8> = (0..100_000u32)
        .map(|_| {
            x ^= x << 13;
            x ^= x >> 7;
            x ^= x << 17;
            (x & 0xff) as u8
        })
        .collect();
    let (data_frames, _) = drive(&mut state, vec![Frame::Data(payload)]);
    let total: usize = data_frames.iter().map(|d| d.len()).sum();
    assert!(total > 8192);
    assert_eq!(state.state(), CompressState::Done);
}
