//! Per-response eligibility policy and the deferred response wrapper.
//!
//! Given a response's headers, a negotiated codec and a size threshold, the
//! policy decides whether to compress, whether to flush after every chunk,
//! and how the headers change when compression is chosen.

use crate::ascii::{
    eq_ignore_case, is_visible, parse_u64, spec_eq_ignore_case, spec_is_prefix, spec_is_visible,
    spec_parse_u64, spec_trim, starts_with, trim,
};
use crate::codec::{spec_segments, spec_wire_name, Codec};
use crate::headers::{
    spec_get, spec_has_name, spec_insert, spec_name_matches, spec_remove, HeaderMap,
};
use vstd::prelude::*;
use vstd::slice::slice_to_vec;
use vstd::string::StringSliceAdditionalSpecFns;

verus! {

/// Name of the Content-Encoding header.
pub open spec fn spec_content_encoding_name() -> Seq<u8> {
    "content-encoding".spec_bytes()
}

/// Name of the Content-Range header.
pub open spec fn spec_content_range_name() -> Seq<u8> {
    "content-range".spec_bytes()
}

/// Name of the Content-Type header.
pub open spec fn spec_content_type_name() -> Seq<u8> {
    "content-type".spec_bytes()
}

/// Name of the Content-Length header.
pub open spec fn spec_content_length_name() -> Seq<u8> {
    "content-length".spec_bytes()
}

/// Name of the Accept-Ranges header.
pub open spec fn spec_accept_ranges_name() -> Seq<u8> {
    "accept-ranges".spec_bytes()
}

/// Name of the Vary header.
pub open spec fn spec_vary_name() -> Seq<u8> {
    "vary".spec_bytes()
}

/// Name of the X-Accel-Buffering header.
pub open spec fn spec_x_accel_buffering_name() -> Seq<u8> {
    "x-accel-buffering".spec_bytes()
}

/// The bytes of the `accept-encoding` Vary token.
pub open spec fn spec_accept_encoding_token() -> Seq<u8> {
    seq![97u8, 99u8, 99u8, 101u8, 112u8, 116u8, 45u8, 101u8, 110u8, 99u8, 111u8, 100u8, 105u8, 110u8, 103u8]
}

/// The bytes of the `*` Vary token.
pub open spec fn spec_star_token() -> Seq<u8> {
    seq![42u8]
}

/// Builds the `accept-encoding` token.
fn accept_encoding_token() -> (v: Vec<u8>)
    ensures
        v@ == spec_accept_encoding_token(),
{
    let mut v: Vec<u8> = Vec::new();
    v.push(97);
    v.push(99);
    v.push(99);
    v.push(101);
    v.push(112);
    v.push(116);
    v.push(45);
    v.push(101);
    v.push(110);
    v.push(99);
    v.push(111);
    v.push(100);
    v.push(105);
    v.push(110);
    v.push(103);
    proof {
        assert(v@ =~= spec_accept_encoding_token());
    }
    v
}

/// Builds the `*` token.
fn star_token() -> (v: Vec<u8>)
    ensures
        v@ == spec_star_token(),
{
    let mut v: Vec<u8> = Vec::new();
    v.push(42);
    proof {
        assert(v@ =~= spec_star_token());
    }
    v
}

/// Whether one comma-separated Vary token already covers accept-encoding:
/// it equals `*` or `accept-encoding` up to case, after trimming.
pub open spec fn spec_covering_token(t: Seq<u8>) -> bool {
    spec_eq_ignore_case(spec_trim(t), spec_star_token()) || spec_eq_ignore_case(
        spec_trim(t),
        spec_accept_encoding_token(),
    )
}

/// Whether any token of a segment list covers accept-encoding.
pub open spec fn spec_tokens_cover(segs: Seq<Seq<u8>>) -> bool
    decreases segs.len(),
{
    if segs.len() == 0 {
        false
    } else {
        spec_covering_token(segs[0]) || spec_tokens_cover(segs.drop_first())
    }
}

/// Whether one Vary header value already covers accept-encoding.
pub open spec fn spec_value_covers_ae(v: Seq<u8>) -> bool {
    spec_tokens_cover(spec_segments(v))
}

/// Whether some Vary field of the map is readable text and already covers
/// accept-encoding.
pub open spec fn spec_vary_covered(h: Seq<(Seq<u8>, Seq<u8>)>) -> bool
    decreases h.len(),
{
    if h.len() == 0 {
        false
    } else {
        (spec_name_matches(h[0].0, spec_vary_name()) && spec_is_visible(h[0].1)
            && spec_value_covers_ae(h[0].1)) || spec_vary_covered(h.drop_first())
    }
}

/// The Vary merge: the map unchanged when accept-encoding is already
/// covered, else with one `Vary: accept-encoding` field appended.
pub open spec fn spec_add_vary(h: Seq<(Seq<u8>, Seq<u8>)>) -> Seq<(Seq<u8>, Seq<u8>)> {
    if spec_vary_covered(h) {
        h
    } else {
        h.push((spec_vary_name(), spec_accept_encoding_token()))
    }
}

fn value_covers_ae(v: &[u8]) -> (r: bool)
    ensures
        r == spec_value_covers_ae(v@),
{
    let star = star_token();
    let ae = accept_encoding_token();
    let n = v.len();
    let mut i: usize = 0;
    proof {
        assert(v@.skip(0) =~= v@);
    }
    loop
        invariant
            i <= n,
            n == v@.len(),
            star@ == spec_star_token(),
            ae@ == spec_accept_encoding_token(),
            spec_value_covers_ae(v@) == spec_tokens_cover(spec_segments(v@.skip(i as int))),
        decreases n - i,
    {
        let j = crate::ascii::find_byte(v, i, crate::ascii::COMMA);
        let seg = crate::ascii::sub_vec(v, i, j);
        let ghost rem = v@.skip(i as int);
        proof {
            assert(seg@ =~= rem.take(j - i));
            assert(crate::ascii::spec_find(rem, crate::ascii::COMMA) == j - i);
        }
        let t = trim(seg.as_slice());
        if eq_ignore_case(t.as_slice(), star.as_slice()) || eq_ignore_case(
            t.as_slice(),
            ae.as_slice(),
        ) {
            proof {
                if j == n {
                    assert(spec_segments(rem) =~= seq![seg@]);
                } else {
                    assert(spec_segments(rem) =~= seq![seg@] + spec_segments(rem.skip(j - i + 1)));
                }
                assert(spec_segments(rem)[0] == seg@);
            }
            return true;
        }
        if j == n {
            proof {
                assert(spec_segments(rem) =~= seq![seg@]);
                assert(spec_segments(rem)[0] == seg@);
                assert(spec_segments(rem).drop_first().len() == 0);
                assert(!spec_tokens_cover(spec_segments(rem).drop_first()));
            }
            return false;
        }
        proof {
            assert(rem.skip(j - i + 1) =~= v@.skip(j + 1));
            assert(spec_segments(rem) =~= seq![seg@] + spec_segments(v@.skip(j + 1)));
            assert(spec_segments(rem)[0] == seg@);
            assert(spec_segments(rem).drop_first() =~= spec_segments(v@.skip(j + 1)));
        }
        i = j + 1;
    }
}

/// Adds `accept-encoding` to the Vary fields unless some existing Vary
/// token (`*` included) already covers it.
pub fn add_vary_accept_encoding(h: &mut HeaderMap)
    ensures
        final(h)@ == spec_add_vary(old(h)@),
{
    let n = h.len();
    let ghost h0 = h@;
    proof {
        assert(h0.skip(0) =~= h0);
    }
    for i in 0..n
        invariant
            n == h0.len(),
            h@ == h0,
            spec_vary_covered(h0) == spec_vary_covered(h0.skip(i as int)),
    {
        proof {
            let rest = h0.skip(i as int);
            assert(rest[0] == h0[i as int]);
            assert(rest.drop_first() =~= h0.skip(i + 1));
        }
        let (name, value) = h.entry_at(i);
        if eq_ignore_case(name.as_slice(), "vary".as_bytes()) {
            let visible = is_visible(value.as_slice());
            if visible {
                let value_copy = crate::headers::clone_bytes(value);
                if value_covers_ae(value_copy.as_slice()) {
                    return;
                }
            }
        }
    }
    proof {
        assert(h0.skip(n as int) =~= Seq::<(Seq<u8>, Seq<u8>)>::empty());
    }
    h.append(slice_to_vec("vary".as_bytes()), accept_encoding_token());
}

/// Whether a Content-Encoding header is already present.
pub fn has_content_encoding(h: &HeaderMap) -> (r: bool)
    ensures
        r == spec_has_name(h@, spec_content_encoding_name()),
{
    h.contains_name("content-encoding".as_bytes())
}

/// Whether a Content-Range header is present (a range response).
pub fn has_content_range(h: &HeaderMap) -> (r: bool)
    ensures
        r == spec_has_name(h@, spec_content_range_name()),
{
    h.contains_name("content-range".as_bytes())
}

/// The Content-Type value, when present and readable as text.
pub open spec fn spec_content_type(h: Seq<(Seq<u8>, Seq<u8>)>) -> Option<Seq<u8>> {
    match spec_get(h, spec_content_type_name()) {
        Some(v) => if spec_is_visible(v) {
            Some(v)
        } else {
            None
        },
        None => None,
    }
}

/// Whether the Content-Type disqualifies the response from compression:
/// images except SVG, and gRPC except gRPC-Web.
pub open spec fn spec_uncompressible_ct(h: Seq<(Seq<u8>, Seq<u8>)>) -> bool {
    match spec_content_type(h) {
        None => false,
        Some(ct) => if spec_is_prefix("image/".spec_bytes(), ct) {
            !spec_is_prefix("image/svg+xml".spec_bytes(), ct)
        } else if spec_is_prefix("application/grpc".spec_bytes(), ct) {
            !spec_is_prefix("application/grpc-web".spec_bytes(), ct)
        } else {
            false
        },
    }
}

/// Whether the Content-Type calls for a flush after every chunk.
pub open spec fn spec_streaming_ct(h: Seq<(Seq<u8>, Seq<u8>)>) -> bool {
    match spec_content_type(h) {
        None => false,
        Some(ct) => spec_is_prefix("text/event-stream".spec_bytes(), ct) || spec_is_prefix(
            "application/grpc-web".spec_bytes(),
            ct,
        ),
    }
}

fn content_type<'a>(h: &'a HeaderMap) -> (r: Option<&'a Vec<u8>>)
    ensures
        match r {
            Some(v) => spec_content_type(h@) == Some(v@),
            None => spec_content_type(h@) is None,
        },
{
    match h.get("content-type".as_bytes()) {
        Some(v) => {
            if is_visible(v.as_slice()) {
                Some(v)
            } else {
                None
            }
        },
        None => None,
    }
}

/// Whether the content type should not be compressed.
pub fn is_uncompressible_content_type(h: &HeaderMap) -> (r: bool)
    ensures
        r == spec_uncompressible_ct(h@),
{
    match content_type(h) {
        None => false,
        Some(ct) => {
            if starts_with(ct.as_slice(), "image/".as_bytes()) {
                !starts_with(ct.as_slice(), "image/svg+xml".as_bytes())
            } else if starts_with(ct.as_slice(), "application/grpc".as_bytes()) {
                !starts_with(ct.as_slice(), "application/grpc-web".as_bytes())
            } else {
                false
            }
        },
    }
}

/// Whether the content type requires always flushing (e.g., streaming).
pub fn is_streaming_content_type(h: &HeaderMap) -> (r: bool)
    ensures
        r == spec_streaming_ct(h@),
{
    match content_type(h) {
        None => false,
        Some(ct) => {
            starts_with(ct.as_slice(), "text/event-stream".as_bytes()) || starts_with(
                ct.as_slice(),
                "application/grpc-web".as_bytes(),
            )
        },
    }
}

/// Whether X-Accel-Buffering is set to `no` (up to case).
pub open spec fn spec_buffering_off(h: Seq<(Seq<u8>, Seq<u8>)>) -> bool {
    match spec_get(h, spec_x_accel_buffering_name()) {
        Some(v) => spec_is_visible(v) && spec_eq_ignore_case(v, "no".spec_bytes()),
        None => false,
    }
}

/// Whether the encoder must flush after every chunk for this response.
pub open spec fn spec_always_flush(h: Seq<(Seq<u8>, Seq<u8>)>) -> bool {
    spec_buffering_off(h) || spec_streaming_ct(h)
}

/// Whether a parseable Content-Length is strictly below the threshold.
pub open spec fn spec_below_min_size(h: Seq<(Seq<u8>, Seq<u8>)>, min_size: usize) -> bool {
    match spec_get(h, spec_content_length_name()) {
        Some(v) => spec_is_visible(v) && match spec_parse_u64(v) {
            Some(l) => l < min_size as u64,
            None => false,
        },
        None => false,
    }
}

/// Whether Content-Length is present, readable and below the minimum size.
pub fn is_below_min_size(h: &HeaderMap, min_size: usize) -> (r: bool)
    ensures
        r == spec_below_min_size(h@, min_size),
{
    match h.get("content-length".as_bytes()) {
        Some(v) => {
            if is_visible(v.as_slice()) {
                match parse_u64(v.as_slice()) {
                    Some(l) => l < min_size as u64,
                    None => false,
                }
            } else {
                false
            }
        },
        None => false,
    }
}

/// The per-response outcome of the eligibility policy.
#[derive(Debug, Clone, Copy, PartialEq, Eq, Structural)]
pub struct EligibilityDecision {
    /// Whether the body is compressed.
    pub compress: bool,
    /// The codec to compress with; present exactly when compressing.
    pub codec: Option<Codec>,
    /// Whether the encoder flushes after every chunk.
    pub always_flush: bool,
}

/// All conditions for compressing: a codec was negotiated, the response
/// carries no Content-Encoding and no Content-Range, its Content-Type does
/// not disqualify it, and a known Content-Length is not below the
/// threshold (an unknown size never disqualifies).
pub open spec fn spec_compress_eligible(
    h: Seq<(Seq<u8>, Seq<u8>)>,
    codec: Option<Codec>,
    min_size: usize,
) -> bool {
    codec is Some && !spec_has_name(h, spec_content_encoding_name()) && !spec_has_name(
        h,
        spec_content_range_name(),
    ) && !spec_uncompressible_ct(h) && !spec_below_min_size(h, min_size)
}

/// The decision for a response: compress exactly when eligible, keep the
/// negotiated codec only then, and flush always exactly when the response
/// is a streaming one.
pub open spec fn spec_decide(
    h: Seq<(Seq<u8>, Seq<u8>)>,
    codec: Option<Codec>,
    min_size: usize,
) -> EligibilityDecision {
    EligibilityDecision {
        compress: spec_compress_eligible(h, codec, min_size),
        codec: if spec_compress_eligible(h, codec, min_size) {
            codec
        } else {
            None
        },
        always_flush: spec_always_flush(h),
    }
}

/// Decides whether and how to compress a response with these headers.
pub fn decide(h: &HeaderMap, codec: Option<Codec>, min_size: usize) -> (d: EligibilityDecision)
    ensures
        d == spec_decide(h@, codec, min_size),
{
    let eligible = codec.is_some() && !has_content_encoding(h) && !has_content_range(h)
        && !is_uncompressible_content_type(h) && !is_below_min_size(h, min_size);
    let always_flush = {
        let buffering_off = match h.get("x-accel-buffering".as_bytes()) {
            Some(v) => is_visible(v.as_slice()) && eq_ignore_case(v.as_slice(), "no".as_bytes()),
            None => false,
        };
        buffering_off || is_streaming_content_type(h)
    };
    EligibilityDecision {
        compress: eligible,
        codec: if eligible {
            codec
        } else {
            None
        },
        always_flush,
    }
}

/// The header mutation performed when compressing with codec `c`:
/// Content-Encoding set to the codec's wire name, Content-Length and
/// Accept-Ranges removed, and the Vary merge applied.
pub open spec fn spec_apply(h: Seq<(Seq<u8>, Seq<u8>)>, c: Codec) -> Seq<(Seq<u8>, Seq<u8>)> {
    spec_add_vary(
        spec_remove(
            spec_remove(
                spec_insert(h, spec_content_encoding_name(), spec_wire_name(c)),
                spec_content_length_name(),
            ),
            spec_accept_ranges_name(),
        ),
    )
}

/// Mutates the response headers according to the decision. Nothing changes
/// on the passthrough path.
pub fn apply(d: &EligibilityDecision, h: &mut HeaderMap)
    ensures
        match d.codec {
            Some(c) => if d.compress {
                final(h)@ == spec_apply(old(h)@, c)
            } else {
                final(h)@ == old(h)@
            },
            None => final(h)@ == old(h)@,
        },
{
    if d.compress {
        if let Some(c) = d.codec {
            h.insert(
                slice_to_vec("content-encoding".as_bytes()),
                slice_to_vec(c.content_encoding().as_bytes()),
            );
            h.remove("content-length".as_bytes());
            h.remove("accept-ranges".as_bytes());
            add_vary_accept_encoding(h);
        }
    }
}

/// Identical inputs always yield the identical decision: eligibility is a
/// pure function of the headers, the negotiated codec and the threshold.
pub proof fn lemma_decide_deterministic(
    h1: Seq<(Seq<u8>, Seq<u8>)>,
    h2: Seq<(Seq<u8>, Seq<u8>)>,
    codec: Option<Codec>,
    min_size: usize,
)
    requires
        h1 == h2,
    ensures
        spec_decide(h1, codec, min_size) == spec_decide(h2, codec, min_size),
{
}

proof fn lemma_vary_covered_push(h: Seq<(Seq<u8>, Seq<u8>)>, e: (Seq<u8>, Seq<u8>))
    ensures
        spec_vary_covered(h.push(e)) == (spec_vary_covered(h) || (spec_name_matches(
            e.0,
            spec_vary_name(),
        ) && spec_is_visible(e.1) && spec_value_covers_ae(e.1))),
    decreases h.len(),
{
    if h.len() == 0 {
        assert(h.push(e)[0] == e);
        assert(h.push(e).drop_first().len() == 0);
        assert(!spec_vary_covered(h.push(e).drop_first()));
        assert(!spec_vary_covered(h));
    } else {
        assert(h.push(e)[0] == h[0]);
        assert(h.push(e).drop_first() =~= h.drop_first().push(e));
        lemma_vary_covered_push(h.drop_first(), e);
        assert(spec_vary_covered(h.push(e)) == ((spec_name_matches(
            h[0].0,
            spec_vary_name(),
        ) && spec_is_visible(h[0].1) && spec_value_covers_ae(h[0].1)) || spec_vary_covered(
            h.drop_first().push(e),
        )));
    }
}

proof fn lemma_ae_token_covers()
    ensures
        spec_is_visible(spec_accept_encoding_token()),
        spec_value_covers_ae(spec_accept_encoding_token()),
{
    let ae = spec_accept_encoding_token();
    assert forall|i: int| 0 <= i < ae.len() implies (32 <= #[trigger] ae[i] && ae[i] < 127)
        || ae[i] == 9 by {}
    assert forall|k: int| 0 <= k < ae.len() implies ae[k] != crate::ascii::COMMA by {}
    crate::ascii::lemma_find_at(ae, crate::ascii::COMMA, ae.len() as int);
    assert(spec_segments(ae) =~= seq![ae]);
    assert(spec_trim(ae) == ae) by {
        assert(!crate::ascii::spec_is_ws(ae[0]));
        assert(!crate::ascii::spec_is_ws(ae[ae.len() - 1]));
        crate::ascii::lemma_trim_of_clean(ae);
    }
    assert(spec_covering_token(ae));
    assert(spec_segments(ae)[0] == ae);
}

/// The Vary merge is idempotent: applying it twice never adds a second
/// `accept-encoding` token, and a map already covered (an existing `*`
/// included) is left untouched.
pub proof fn lemma_add_vary_idempotent(h: Seq<(Seq<u8>, Seq<u8>)>)
    ensures
        spec_add_vary(spec_add_vary(h)) == spec_add_vary(h),
        spec_vary_covered(h) ==> spec_add_vary(h) == h,
{
    if !spec_vary_covered(h) {
        let e = (spec_vary_name(), spec_accept_encoding_token());
        lemma_vary_covered_push(h, e);
        lemma_ae_token_covers();
    }
}

/// A deferred response: the state carried while the inner handler's
/// response is still being produced.
pub struct ResponseFuture<F> {
    /// The inner pending response.
    pub inner: F,
    /// The codec negotiated from the request, if any.
    pub accepted_codec: Option<Codec>,
    /// The minimum body size for compression.
    pub min_size: usize,
}

impl<F> ResponseFuture<F> {
    /// Wraps a pending response with the negotiated codec and threshold.
    pub fn new(inner: F, accepted_codec: Option<Codec>, min_size: usize) -> (r: ResponseFuture<F>)
        ensures
            r.inner == inner,
            r.accepted_codec == accepted_codec,
            r.min_size == min_size,
    {
        ResponseFuture { inner, accepted_codec, min_size }
    }
}

} // verus!
