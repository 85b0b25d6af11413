//! Supported compression codecs and content negotiation.
//!
//! Negotiation parses an advertised-encodings header (comma-separated
//! `token[;q=value]` segments) and selects the recognized token with the
//! highest quality, breaking ties by a fixed codec preference.

use crate::ascii::{
    bytes_eq, find_byte, spec_all_digits, spec_find, spec_is_digit, spec_trim, sub_vec, trim,
    COMMA, DOT, EQUALS, LOWER_Q, SEMICOLON, UPPER_Q,
};
use vstd::prelude::*;
use vstd::string::StringSliceAdditionalSpecFns;

verus! {

/// Supported compression codecs, ordered by preference.
#[derive(Debug, Clone, Copy, PartialEq, Eq, Structural)]
pub enum Codec {
    /// Zstd compression.
    Zstd,
    /// Brotli compression.
    Brotli,
    /// Gzip compression.
    Gzip,
    /// Deflate compression.
    Deflate,
}

/// Preference rank of a codec: lower is preferred.
pub open spec fn spec_priority(c: Codec) -> u8 {
    match c {
        Codec::Zstd => 0,
        Codec::Brotli => 1,
        Codec::Gzip => 2,
        Codec::Deflate => 3,
    }
}

/// Returns the priority of a codec (lower is better).
pub fn priority(c: &Codec) -> (r: u8)
    ensures
        r == spec_priority(*c),
{
    match c {
        Codec::Zstd => 0,
        Codec::Brotli => 1,
        Codec::Gzip => 2,
        Codec::Deflate => 3,
    }
}

/// The canonical wire name of a codec, as a byte sequence.
pub open spec fn spec_wire_name(c: Codec) -> Seq<u8> {
    match c {
        Codec::Zstd => "zstd".spec_bytes(),
        Codec::Brotli => "br".spec_bytes(),
        Codec::Gzip => "gzip".spec_bytes(),
        Codec::Deflate => "deflate".spec_bytes(),
    }
}

/// The codec a token of the advertised-encodings header stands for, if any.
pub open spec fn spec_token_codec(t: Seq<u8>) -> Option<Codec> {
    if t == "zstd".spec_bytes() {
        Some(Codec::Zstd)
    } else if t == "br".spec_bytes() || t == "brotli".spec_bytes() {
        Some(Codec::Brotli)
    } else if t == "gzip".spec_bytes() || t == "x-gzip".spec_bytes() {
        Some(Codec::Gzip)
    } else if t == "deflate".spec_bytes() {
        Some(Codec::Deflate)
    } else {
        None
    }
}

fn token_codec(t: &[u8]) -> (r: Option<Codec>)
    ensures
        r == spec_token_codec(t@),
{
    if bytes_eq(t, "zstd".as_bytes()) {
        Some(Codec::Zstd)
    } else if bytes_eq(t, "br".as_bytes()) || bytes_eq(t, "brotli".as_bytes()) {
        Some(Codec::Brotli)
    } else if bytes_eq(t, "gzip".as_bytes()) || bytes_eq(t, "x-gzip".as_bytes()) {
        Some(Codec::Gzip)
    } else if bytes_eq(t, "deflate".as_bytes()) {
        Some(Codec::Deflate)
    } else {
        None
    }
}

/// Ceiling for the integer part of a parsed quality, in whole units.
/// Values this large are far outside the meaningful quality range of zero
/// to one; saturating keeps the arithmetic exact without changing which
/// entry wins for any quality in range.
pub open spec fn spec_q_unit_cap() -> int {
    10000
}

/// Value of the whole-units digits of a quality, saturated at the cap.
pub open spec fn spec_q_int(s: Seq<u8>) -> int
    decreases s.len(),
{
    if s.len() == 0 {
        0
    } else {
        let p = spec_q_int(s.drop_last());
        if p >= spec_q_unit_cap() {
            spec_q_unit_cap()
        } else {
            p * 10 + (s.last() - 48)
        }
    }
}

/// Value of the first three fractional digits, in thousandths.
pub open spec fn spec_frac3(s: Seq<u8>) -> int {
    let d0: int = if s.len() > 0 {
        s[0] - 48
    } else {
        0
    };
    let d1: int = if s.len() > 1 {
        s[1] - 48
    } else {
        0
    };
    let d2: int = if s.len() > 2 {
        s[2] - 48
    } else {
        0
    };
    d0 * 100 + d1 * 10 + d2
}

/// Quality in thousandths parsed from the text after `q=`: digits with an
/// optional decimal point, in the shape accepted for quality values.
/// `None` when the text is not of that shape.
pub open spec fn spec_quality(s: Seq<u8>) -> Option<u64> {
    let dot = spec_find(s, DOT);
    if dot == s.len() {
        if s.len() > 0 && spec_all_digits(s) {
            Some((spec_q_int(s) * 1000) as u64)
        } else {
            None
        }
    } else {
        let ip = s.take(dot);
        let fp = s.skip(dot + 1);
        if ip.len() + fp.len() > 0 && spec_all_digits(ip) && spec_all_digits(fp) {
            Some((spec_q_int(ip) * 1000 + spec_frac3(fp)) as u64)
        } else {
            None
        }
    }
}

proof fn lemma_q_int_bounds(s: Seq<u8>)
    requires
        spec_all_digits(s),
    ensures
        0 <= spec_q_int(s) <= spec_q_unit_cap() * 10,
    decreases s.len(),
{
    if s.len() > 0 {
        assert(spec_all_digits(s.drop_last())) by {
            assert(forall|i: int|
                0 <= i < s.len() - 1 ==> spec_is_digit(#[trigger] s.drop_last()[i]));
        }
        lemma_q_int_bounds(s.drop_last());
    }
}

/// Parses the digits of the whole-units part, saturating at the cap.
fn q_int_val(s: &[u8]) -> (r: Option<u64>)
    ensures
        match r {
            Some(v) => spec_all_digits(s@) && v == spec_q_int(s@),
            None => !spec_all_digits(s@),
        },
{
    let n = s.len();
    let mut acc: u64 = 0;
    for i in 0..n
        invariant
            n == s@.len(),
            forall|k: int| 0 <= k < i ==> spec_is_digit(#[trigger] s@[k]),
            acc == spec_q_int(s@.subrange(0, i as int)),
            acc <= 100000,
    {
        let b = s[i];
        if !(48 <= b && b <= 57) {
            assert(!spec_all_digits(s@));
            return None;
        }
        proof {
            assert(s@.subrange(0, i + 1).drop_last() =~= s@.subrange(0, i as int));
        }
        if acc >= 10000 {
            acc = 10000;
        } else {
            acc = acc * 10 + ((b - 48) as u64);
        }
    }
    proof {
        assert(s@.subrange(0, n as int) =~= s@);
    }
    Some(acc)
}

/// Parses the fractional digits into thousandths.
fn frac3_val(s: &[u8]) -> (r: Option<u64>)
    ensures
        match r {
            Some(v) => spec_all_digits(s@) && v == spec_frac3(s@),
            None => !spec_all_digits(s@),
        },
{
    let n = s.len();
    for i in 0..n
        invariant
            n == s@.len(),
            forall|k: int| 0 <= k < i ==> spec_is_digit(#[trigger] s@[k]),
    {
        let b = s[i];
        if !(48 <= b && b <= 57) {
            assert(!spec_all_digits(s@));
            return None;
        }
    }
    let d0: u64 = if n > 0 {
        (s[0] - 48) as u64
    } else {
        0
    };
    let d1: u64 = if n > 1 {
        (s[1] - 48) as u64
    } else {
        0
    };
    let d2: u64 = if n > 2 {
        (s[2] - 48) as u64
    } else {
        0
    };
    Some(d0 * 100 + d1 * 10 + d2)
}

/// Parses the text after `q=` into thousandths of a quality unit.
fn quality_millis(s: &[u8]) -> (r: Option<u64>)
    ensures
        r == spec_quality(s@),
{
    let n = s.len();
    let dot = find_byte(s, 0, DOT);
    proof {
        assert(s@.skip(0) =~= s@);
    }
    if dot == n {
        if n == 0 {
            return None;
        }
        match q_int_val(s) {
            Some(v) => {
                proof {
                    lemma_q_int_bounds(s@);
                }
                Some(v * 1000)
            },
            None => None,
        }
    } else {
        let ip = sub_vec(s, 0, dot);
        let fp = sub_vec(s, dot + 1, n);
        proof {
            assert(ip@ =~= s@.take(dot as int));
            assert(fp@ =~= s@.skip(dot + 1));
        }
        if ip.len() + fp.len() == 0 {
            return None;
        }
        match q_int_val(ip.as_slice()) {
            Some(v) => {
                match frac3_val(fp.as_slice()) {
                    Some(f) => {
                        proof {
                            lemma_q_int_bounds(ip@);
                        }
                        Some(v * 1000 + f)
                    },
                    None => None,
                }
            },
            None => None,
        }
    }
}

/// The token of one (already comma-split) segment: the trimmed text before
/// the first semicolon.
pub open spec fn spec_segment_token(seg: Seq<u8>) -> Seq<u8> {
    let t = spec_trim(seg);
    spec_trim(t.take(spec_find(t, SEMICOLON)))
}

/// The quality of one segment, in thousandths: the value of a trailing
/// `q=` (or `Q=`) parameter, defaulting to one whole unit when missing or
/// malformed.
pub open spec fn spec_segment_quality(seg: Seq<u8>) -> u64 {
    let t = spec_trim(seg);
    let i = spec_find(t, SEMICOLON);
    if i == t.len() {
        1000
    } else {
        let qp = spec_trim(t.skip(i + 1));
        if qp.len() >= 2 && (qp[0] == LOWER_Q || qp[0] == UPPER_Q) && qp[1] == EQUALS {
            match spec_quality(qp.skip(2)) {
                Some(m) => m,
                None => 1000,
            }
        } else {
            1000
        }
    }
}

/// Parses one segment into its encoding token and quality in thousandths.
pub fn parse_encoding_with_quality(seg: &[u8]) -> (r: (Vec<u8>, u64))
    ensures
        r.0@ == spec_segment_token(seg@),
        r.1 == spec_segment_quality(seg@),
{
    let t = trim(seg);
    let n = t.len();
    let i = find_byte(t.as_slice(), 0, SEMICOLON);
    proof {
        assert(t@.skip(0) =~= t@);
    }
    let before = sub_vec(t.as_slice(), 0, i);
    proof {
        assert(before@ =~= t@.take(i as int));
    }
    let token = trim(before.as_slice());
    if i == n {
        (token, 1000)
    } else {
        let after = sub_vec(t.as_slice(), i + 1, n);
        proof {
            assert(after@ =~= t@.skip(i + 1));
        }
        let qp = trim(after.as_slice());
        let q: u64 = if qp.len() >= 2 && (qp[0] == LOWER_Q || qp[0] == UPPER_Q) && qp[1] == EQUALS {
            let qtext = sub_vec(qp.as_slice(), 2, qp.len());
            proof {
                assert(qtext@ =~= qp@.skip(2));
            }
            match quality_millis(qtext.as_slice()) {
                Some(m) => m,
                None => 1000,
            }
        } else {
            1000
        };
        (token, q)
    }
}

/// The candidate a segment contributes: its codec and quality, or nothing
/// when the token is unrecognized or the quality is exactly zero.
pub open spec fn spec_entry(seg: Seq<u8>) -> Option<(Codec, u64)> {
    let q = spec_segment_quality(seg);
    if q == 0 {
        None
    } else {
        match spec_token_codec(spec_segment_token(seg)) {
            Some(c) => Some((c, q)),
            None => None,
        }
    }
}

/// The comma-separated segments of the header.
pub open spec fn spec_segments(s: Seq<u8>) -> Seq<Seq<u8>>
    decreases s.len(),
{
    let i = spec_find(s, COMMA);
    if 0 <= i && i < s.len() {
        seq![s.take(i)] + spec_segments(s.skip(i + 1))
    } else {
        seq![s]
    }
}

/// The candidates contributed by a sequence of segments, in order.
pub open spec fn spec_entries_of(segs: Seq<Seq<u8>>) -> Seq<(Codec, u64)>
    decreases segs.len(),
{
    if segs.len() == 0 {
        Seq::empty()
    } else {
        match spec_entry(segs[0]) {
            Some(e) => seq![e] + spec_entries_of(segs.drop_first()),
            None => spec_entries_of(segs.drop_first()),
        }
    }
}

/// All candidates of the header, in header order.
pub open spec fn spec_entries(s: Seq<u8>) -> Seq<(Codec, u64)> {
    spec_entries_of(spec_segments(s))
}

/// Whether candidate `e` beats candidate `b`: strictly higher quality, or
/// equal quality and strictly better (lower) priority.
pub open spec fn spec_better(e: (Codec, u64), b: (Codec, u64)) -> bool {
    e.1 > b.1 || (e.1 == b.1 && spec_priority(e.0) < spec_priority(b.0))
}

/// One selection step: a candidate replaces the current best only when it
/// strictly beats it.
pub open spec fn spec_step(acc: Option<(Codec, u64)>, e: (Codec, u64)) -> Option<(Codec, u64)> {
    match acc {
        None => Some(e),
        Some(b) => if spec_better(e, b) {
            Some(e)
        } else {
            Some(b)
        },
    }
}

/// Folds the selection step over a candidate sequence.
pub open spec fn spec_best_from(acc: Option<(Codec, u64)>, es: Seq<(Codec, u64)>) -> Option<
    (Codec, u64),
>
    decreases es.len(),
{
    if es.len() == 0 {
        acc
    } else {
        spec_best_from(spec_step(acc, es[0]), es.drop_first())
    }
}

/// The winning candidate of a header, with its quality.
pub open spec fn spec_selected_entry(s: Seq<u8>) -> Option<(Codec, u64)> {
    spec_best_from(None, spec_entries(s))
}

/// Folding over the candidates of a segment list starting with `seg` is one
/// selection step on `seg`'s candidate, then the fold over the rest.
proof fn lemma_best_from_cons(
    acc: Option<(Codec, u64)>,
    seg: Seq<u8>,
    rest: Seq<Seq<u8>>,
)
    ensures
        spec_best_from(acc, spec_entries_of(seq![seg] + rest)) == spec_best_from(
            match spec_entry(seg) {
                Some(e0) => spec_step(acc, e0),
                None => acc,
            },
            spec_entries_of(rest),
        ),
{
    let segs = seq![seg] + rest;
    assert(segs[0] == seg);
    assert(segs.drop_first() =~= rest);
    match spec_entry(seg) {
        Some(e0) => {
            let es = seq![e0] + spec_entries_of(rest);
            assert(spec_entries_of(segs) == es);
            assert(es[0] == e0);
            assert(es.drop_first() =~= spec_entries_of(rest));
        },
        None => {
            assert(spec_entries_of(segs) == spec_entries_of(rest));
        },
    }
}

/// The codec negotiation selects for a header, if any.
pub open spec fn spec_select(s: Seq<u8>) -> Option<Codec> {
    match spec_selected_entry(s) {
        Some(e) => Some(e.0),
        None => None,
    }
}

proof fn lemma_best_from_props(acc: Option<(Codec, u64)>, es: Seq<(Codec, u64)>)
    ensures
        spec_best_from(acc, es) is None <==> (acc is None && es.len() == 0),
        spec_best_from(acc, es) matches Some(w) ==> (acc == Some(w) || es.contains(w)),
        spec_best_from(acc, es) matches Some(w) ==> forall|k: int|
            0 <= k < es.len() ==> !spec_better(#[trigger] es[k], w),
        spec_best_from(acc, es) matches Some(w) ==> match acc {
            Some(a) => !spec_better(a, w),
            None => true,
        },
    decreases es.len(),
{
    if es.len() > 0 {
        let acc1 = spec_step(acc, es[0]);
        lemma_best_from_props(acc1, es.drop_first());
        match spec_best_from(acc, es) {
            Some(w) => {
                if es.drop_first().contains(w) {
                    let k = choose|k: int|
                        0 <= k < es.drop_first().len() && es.drop_first()[k] == w;
                    assert(es[k + 1] == w);
                }
                assert forall|k: int| 0 <= k < es.len() implies !spec_better(
                    #[trigger] es[k],
                    w,
                ) by {
                    if k > 0 {
                        assert(es.drop_first()[k - 1] == es[k]);
                    }
                }
            },
            None => {},
        }
    }
}

proof fn lemma_entries_of_nonzero(segs: Seq<Seq<u8>>)
    ensures
        forall|k: int| 0 <= k < spec_entries_of(segs).len() ==> (#[trigger] spec_entries_of(
            segs,
        )[k]).1 > 0,
    decreases segs.len(),
{
    if segs.len() > 0 {
        lemma_entries_of_nonzero(segs.drop_first());
        let rest = spec_entries_of(segs.drop_first());
        if spec_entry(segs[0]) matches Some(e) {
            assert forall|k: int| 0 <= k < spec_entries_of(segs).len() implies (
            #[trigger] spec_entries_of(segs)[k]).1 > 0 by {
                if k > 0 {
                    assert(spec_entries_of(segs)[k] == rest[k - 1]);
                }
            }
        }
    }
}

/// For two distinct candidates one always strictly beats the other: the
/// quality totally orders them, and at equal quality the priority rank
/// does, since the rank determines the codec.
proof fn lemma_better_total(a: (Codec, u64), b: (Codec, u64))
    requires
        a != b,
    ensures
        spec_better(a, b) || spec_better(b, a),
{
    if a.1 == b.1 && spec_priority(a.0) == spec_priority(b.0) {
        assert(a.0 == b.0);
    }
}

/// Negotiation is independent of header order: two headers whose
/// candidate entries form the same multiset select the same codec, with
/// the same quality.
pub proof fn lemma_select_order_independent(s1: Seq<u8>, s2: Seq<u8>)
    requires
        spec_entries(s1).to_multiset() == spec_entries(s2).to_multiset(),
    ensures
        spec_selected_entry(s1) == spec_selected_entry(s2),
        spec_select(s1) == spec_select(s2),
{
    broadcast use vstd::seq_lib::group_to_multiset_ensures;

    lemma_best_from_props(None, spec_entries(s1));
    lemma_best_from_props(None, spec_entries(s2));
    match (spec_selected_entry(s1), spec_selected_entry(s2)) {
        (Some(w1), Some(w2)) => {
            if w1 != w2 {
                assert(spec_entries(s1).contains(w1));
                assert(spec_entries(s2).to_multiset().count(w1) > 0);
                assert(spec_entries(s2).contains(w1));
                let k1 = choose|k: int|
                    0 <= k < spec_entries(s2).len() && spec_entries(s2)[k] == w1;
                assert(!spec_better(spec_entries(s2)[k1], w2));
                assert(spec_entries(s2).contains(w2));
                assert(spec_entries(s1).to_multiset().count(w2) > 0);
                assert(spec_entries(s1).contains(w2));
                let k2 = choose|k: int|
                    0 <= k < spec_entries(s1).len() && spec_entries(s1)[k] == w2;
                assert(!spec_better(spec_entries(s1)[k2], w1));
                lemma_better_total(w1, w2);
            }
        },
        (Some(w1), None) => {
            assert(spec_entries(s1).contains(w1));
            assert(spec_entries(s2).to_multiset().count(w1) > 0);
            assert(spec_entries(s2).contains(w1));
        },
        (None, Some(w2)) => {
            assert(spec_entries(s2).contains(w2));
            assert(spec_entries(s1).to_multiset().count(w2) > 0);
            assert(spec_entries(s1).contains(w2));
        },
        (None, None) => {},
    }
}

/// The negotiation engine selects the candidate with strictly highest
/// quality among the recognized, nonzero-quality entries of the header,
/// breaking quality ties by the fixed codec priority (lower rank wins).
/// Unrecognized tokens and zero-quality entries contribute no candidate,
/// so they never affect the result; with no candidate at all, nothing is
/// selected.
pub proof fn lemma_select_optimal(s: Seq<u8>)
    ensures
        spec_selected_entry(s) is None <==> spec_entries(s).len() == 0,
        spec_selected_entry(s) matches Some(w) ==> spec_entries(s).contains(w),
        spec_selected_entry(s) matches Some(w) ==> forall|k: int|
            0 <= k < spec_entries(s).len() ==> !spec_better(#[trigger] spec_entries(s)[k], w),
        forall|k: int| 0 <= k < spec_entries(s).len() ==> (#[trigger] spec_entries(s)[k]).1 > 0,
{
    lemma_best_from_props(None, spec_entries(s));
    lemma_entries_of_nonzero(spec_segments(s));
}

impl Codec {
    /// Returns the Content-Encoding header value for this codec.
    pub fn content_encoding(&self) -> (r: &'static str)
        ensures
            r.spec_bytes() == spec_wire_name(*self),
    {
        match self {
            Codec::Zstd => "zstd",
            Codec::Brotli => "br",
            Codec::Gzip => "gzip",
            Codec::Deflate => "deflate",
        }
    }

    /// Parses the Accept-Encoding header and returns the best supported codec.
    ///
    /// The header value is expected to be comma-separated encodings with
    /// optional quality values (e.g., "gzip, br;q=1.0, zstd;q=0.8").
    pub fn from_accept_encoding(header: &str) -> (r: Option<Codec>)
        ensures
            r == spec_select(header.spec_bytes()),
    {
        let s: &[u8] = header.as_bytes();
        let n = s.len();
        let ghost full: Seq<u8> = s@;
        let mut best: Option<(Codec, u64)> = None;
        let mut i: usize = 0;
        proof {
            assert(full.skip(0) =~= full);
        }
        loop
            invariant_except_break
                i <= n,
                n == s@.len(),
                s@ == full,
                spec_best_from(best, spec_entries_of(spec_segments(full.skip(i as int))))
                    == spec_selected_entry(full),
            ensures
                best == spec_selected_entry(full),
            decreases n - i,
        {
            let j = find_byte(s, i, COMMA);
            let seg = sub_vec(s, i, j);
            let (token, q) = parse_encoding_with_quality(seg.as_slice());
            let cand = token_codec(token.as_slice());
            let ghost rem = full.skip(i as int);
            let ghost acc0 = best;
            proof {
                assert(seg@ =~= rem.take(j - i));
                assert(spec_find(rem, COMMA) == j - i);
            }
            if q > 0 {
                if let Some(c) = cand {
                    best = match best {
                        None => Some((c, q)),
                        Some((bc, bq)) => if q > bq || (q == bq && priority(&c) < priority(&bc)) {
                            Some((c, q))
                        } else {
                            Some((bc, bq))
                        },
                    };
                }
            }
            proof {
                assert(best == match spec_entry(seg@) {
                    Some(e0) => spec_step(acc0, e0),
                    None => acc0,
                });
            }
            if j == n {
                proof {
                    assert(spec_segments(rem) =~= seq![seg@] + Seq::<Seq<u8>>::empty());
                    lemma_best_from_cons(acc0, seg@, Seq::empty());
                }
                break;
            }
            proof {
                assert(rem.skip(j - i + 1) =~= full.skip(j + 1));
                assert(spec_segments(rem) =~= seq![seg@] + spec_segments(full.skip(j + 1)));
                lemma_best_from_cons(acc0, seg@, spec_segments(full.skip(j + 1)));
            }
            i = j + 1;
        }
        match best {
            Some((c, _)) => Some(c),
            None => None,
        }
    }
}

#[verifier::external_type_specification]
#[verifier::external_body]
pub struct ExZstdEncoder(compression_codecs::ZstdEncoder);

#[verifier::external_type_specification]
#[verifier::external_body]
pub struct ExBrotliEncoder(compression_codecs::BrotliEncoder);

#[verifier::external_type_specification]
#[verifier::external_body]
pub struct ExGzipEncoder(compression_codecs::GzipEncoder);

#[verifier::external_type_specification]
#[verifier::external_body]
pub struct ExDeflateEncoder(compression_codecs::DeflateEncoder);

#[verifier::external_type_specification]
#[verifier::external_body]
pub struct ExIoError(std::io::Error);

/// One stateful encoder instance, of whichever codec was negotiated.
pub enum Encoder {
    /// A zstd encoder.
    Zstd(compression_codecs::ZstdEncoder),
    /// A brotli encoder.
    Brotli(compression_codecs::BrotliEncoder),
    /// A gzip encoder.
    Gzip(compression_codecs::GzipEncoder),
    /// A deflate encoder.
    Deflate(compression_codecs::DeflateEncoder),
}

/// The codec an encoder instance belongs to.
pub open spec fn spec_encoder_codec(e: Encoder) -> Codec {
    match e {
        Encoder::Zstd(_) => Codec::Zstd,
        Encoder::Brotli(_) => Codec::Brotli,
        Encoder::Gzip(_) => Codec::Gzip,
        Encoder::Deflate(_) => Codec::Deflate,
    }
}

/// Relies on compression-codecs' ZstdEncoder::new; 3 is a valid zstd
/// level, for which construction does not fail.
#[verifier::external_body]
fn new_zstd_encoder() -> compression_codecs::ZstdEncoder {
    compression_codecs::ZstdEncoder::new(3)
}

/// Relies on compression-codecs' BrotliEncoder::new with default parameters.
#[verifier::external_body]
fn new_brotli_encoder() -> compression_codecs::BrotliEncoder {
    compression_codecs::BrotliEncoder::new(compression_codecs::brotli::params::EncoderParams::default())
}

/// Relies on compression-codecs' GzipEncoder::new at the default level.
#[verifier::external_body]
fn new_gzip_encoder() -> compression_codecs::GzipEncoder {
    compression_codecs::GzipEncoder::new(compression_core::Level::Default.into())
}

/// Relies on compression-codecs' DeflateEncoder::new at the default level.
#[verifier::external_body]
fn new_deflate_encoder() -> compression_codecs::DeflateEncoder {
    compression_codecs::DeflateEncoder::new(compression_core::Level::Default.into())
}

/// Relies on EncodeV2::encode for ZstdEncoder: it advances the input
/// cursor by at most the input length and the output cursor by at most the
/// buffer capacity, and writes within the given buffer, whose length is
/// unchanged. Returns (bytes consumed, bytes produced).
#[verifier::external_body]
fn zstd_encode(e: &mut compression_codecs::ZstdEncoder, input: &[u8], scratch: &mut Vec<u8>) -> (r:
    Result<(usize, usize), std::io::Error>)
    ensures
        final(scratch)@.len() == old(scratch)@.len(),
        r matches Ok(p) ==> p.0 <= input@.len() && p.1 <= old(scratch)@.len(),
{
    let mut inp = compression_core::util::PartialBuffer::new(input);
    let mut out = compression_core::util::WriteBuffer::new_initialized(scratch.as_mut_slice());
    match compression_codecs::EncodeV2::encode(e, &mut inp, &mut out) {
        Ok(()) => Ok((inp.written_len(), out.written_len())),
        Err(err) => Err(err),
    }
}

/// Relies on EncodeV2::encode for BrotliEncoder, as for zstd.
#[verifier::external_body]
fn brotli_encode(
    e: &mut compression_codecs::BrotliEncoder,
    input: &[u8],
    scratch: &mut Vec<u8>,
) -> (r: Result<(usize, usize), std::io::Error>)
    ensures
        final(scratch)@.len() == old(scratch)@.len(),
        r matches Ok(p) ==> p.0 <= input@.len() && p.1 <= old(scratch)@.len(),
{
    let mut inp = compression_core::util::PartialBuffer::new(input);
    let mut out = compression_core::util::WriteBuffer::new_initialized(scratch.as_mut_slice());
    match compression_codecs::EncodeV2::encode(e, &mut inp, &mut out) {
        Ok(()) => Ok((inp.written_len(), out.written_len())),
        Err(err) => Err(err),
    }
}

/// Relies on EncodeV2::encode for GzipEncoder, as for zstd.
#[verifier::external_body]
fn gzip_encode(e: &mut compression_codecs::GzipEncoder, input: &[u8], scratch: &mut Vec<u8>) -> (r:
    Result<(usize, usize), std::io::Error>)
    ensures
        final(scratch)@.len() == old(scratch)@.len(),
        r matches Ok(p) ==> p.0 <= input@.len() && p.1 <= old(scratch)@.len(),
{
    let mut inp = compression_core::util::PartialBuffer::new(input);
    let mut out = compression_core::util::WriteBuffer::new_initialized(scratch.as_mut_slice());
    match compression_codecs::EncodeV2::encode(e, &mut inp, &mut out) {
        Ok(()) => Ok((inp.written_len(), out.written_len())),
        Err(err) => Err(err),
    }
}

/// Relies on EncodeV2::encode for DeflateEncoder, as for zstd.
#[verifier::external_body]
fn deflate_encode(
    e: &mut compression_codecs::DeflateEncoder,
    input: &[u8],
    scratch: &mut Vec<u8>,
) -> (r: Result<(usize, usize), std::io::Error>)
    ensures
        final(scratch)@.len() == old(scratch)@.len(),
        r matches Ok(p) ==> p.0 <= input@.len() && p.1 <= old(scratch)@.len(),
{
    let mut inp = compression_core::util::PartialBuffer::new(input);
    let mut out = compression_core::util::WriteBuffer::new_initialized(scratch.as_mut_slice());
    match compression_codecs::EncodeV2::encode(e, &mut inp, &mut out) {
        Ok(()) => Ok((inp.written_len(), out.written_len())),
        Err(err) => Err(err),
    }
}

/// Relies on EncodeV2::flush for ZstdEncoder: it writes within the given
/// buffer, whose length is unchanged, and reports whether flushing is
/// complete. Returns (flush complete, bytes produced).
#[verifier::external_body]
fn zstd_flush(e: &mut compression_codecs::ZstdEncoder, scratch: &mut Vec<u8>) -> (r: Result<
    (bool, usize),
    std::io::Error,
>)
    ensures
        final(scratch)@.len() == old(scratch)@.len(),
        r matches Ok(p) ==> p.1 <= old(scratch)@.len(),
{
    let mut out = compression_core::util::WriteBuffer::new_initialized(scratch.as_mut_slice());
    match compression_codecs::EncodeV2::flush(e, &mut out) {
        Ok(done) => Ok((done, out.written_len())),
        Err(err) => Err(err),
    }
}

/// Relies on EncodeV2::flush for BrotliEncoder, as for zstd.
#[verifier::external_body]
fn brotli_flush(e: &mut compression_codecs::BrotliEncoder, scratch: &mut Vec<u8>) -> (r: Result<
    (bool, usize),
    std::io::Error,
>)
    ensures
        final(scratch)@.len() == old(scratch)@.len(),
        r matches Ok(p) ==> p.1 <= old(scratch)@.len(),
{
    let mut out = compression_core::util::WriteBuffer::new_initialized(scratch.as_mut_slice());
    match compression_codecs::EncodeV2::flush(e, &mut out) {
        Ok(done) => Ok((done, out.written_len())),
        Err(err) => Err(err),
    }
}

/// Relies on EncodeV2::flush for GzipEncoder, as for zstd.
#[verifier::external_body]
fn gzip_flush(e: &mut compression_codecs::GzipEncoder, scratch: &mut Vec<u8>) -> (r: Result<
    (bool, usize),
    std::io::Error,
>)
    ensures
        final(scratch)@.len() == old(scratch)@.len(),
        r matches Ok(p) ==> p.1 <= old(scratch)@.len(),
{
    let mut out = compression_core::util::WriteBuffer::new_initialized(scratch.as_mut_slice());
    match compression_codecs::EncodeV2::flush(e, &mut out) {
        Ok(done) => Ok((done, out.written_len())),
        Err(err) => Err(err),
    }
}

/// Relies on EncodeV2::flush for DeflateEncoder, as for zstd.
#[verifier::external_body]
fn deflate_flush(e: &mut compression_codecs::DeflateEncoder, scratch: &mut Vec<u8>) -> (r: Result<
    (bool, usize),
    std::io::Error,
>)
    ensures
        final(scratch)@.len() == old(scratch)@.len(),
        r matches Ok(p) ==> p.1 <= old(scratch)@.len(),
{
    let mut out = compression_core::util::WriteBuffer::new_initialized(scratch.as_mut_slice());
    match compression_codecs::EncodeV2::flush(e, &mut out) {
        Ok(done) => Ok((done, out.written_len())),
        Err(err) => Err(err),
    }
}

/// Relies on EncodeV2::finish for ZstdEncoder: it writes within the given
/// buffer, whose length is unchanged, and reports whether the stream end
/// (footer and checksum included) has been fully written. Returns
/// (finish complete, bytes produced).
#[verifier::external_body]
fn zstd_finish(e: &mut compression_codecs::ZstdEncoder, scratch: &mut Vec<u8>) -> (r: Result<
    (bool, usize),
    std::io::Error,
>)
    ensures
        final(scratch)@.len() == old(scratch)@.len(),
        r matches Ok(p) ==> p.1 <= old(scratch)@.len(),
{
    let mut out = compression_core::util::WriteBuffer::new_initialized(scratch.as_mut_slice());
    match compression_codecs::EncodeV2::finish(e, &mut out) {
        Ok(done) => Ok((done, out.written_len())),
        Err(err) => Err(err),
    }
}

/// Relies on EncodeV2::finish for BrotliEncoder, as for zstd.
#[verifier::external_body]
fn brotli_finish(e: &mut compression_codecs::BrotliEncoder, scratch: &mut Vec<u8>) -> (r: Result<
    (bool, usize),
    std::io::Error,
>)
    ensures
        final(scratch)@.len() == old(scratch)@.len(),
        r matches Ok(p) ==> p.1 <= old(scratch)@.len(),
{
    let mut out = compression_core::util::WriteBuffer::new_initialized(scratch.as_mut_slice());
    match compression_codecs::EncodeV2::finish(e, &mut out) {
        Ok(done) => Ok((done, out.written_len())),
        Err(err) => Err(err),
    }
}

/// Relies on EncodeV2::finish for GzipEncoder, as for zstd.
#[verifier::external_body]
fn gzip_finish(e: &mut compression_codecs::GzipEncoder, scratch: &mut Vec<u8>) -> (r: Result<
    (bool, usize),
    std::io::Error,
>)
    ensures
        final(scratch)@.len() == old(scratch)@.len(),
        r matches Ok(p) ==> p.1 <= old(scratch)@.len(),
{
    let mut out = compression_core::util::WriteBuffer::new_initialized(scratch.as_mut_slice());
    match compression_codecs::EncodeV2::finish(e, &mut out) {
        Ok(done) => Ok((done, out.written_len())),
        Err(err) => Err(err),
    }
}

/// Relies on EncodeV2::finish for DeflateEncoder, as for zstd.
#[verifier::external_body]
fn deflate_finish(e: &mut compression_codecs::DeflateEncoder, scratch: &mut Vec<u8>) -> (r: Result<
    (bool, usize),
    std::io::Error,
>)
    ensures
        final(scratch)@.len() == old(scratch)@.len(),
        r matches Ok(p) ==> p.1 <= old(scratch)@.len(),
{
    let mut out = compression_core::util::WriteBuffer::new_initialized(scratch.as_mut_slice());
    match compression_codecs::EncodeV2::finish(e, &mut out) {
        Ok(done) => Ok((done, out.written_len())),
        Err(err) => Err(err),
    }
}

impl Encoder {
    /// Feeds a chunk of input to the encoder, writing compressed bytes
    /// into the scratch buffer. Returns (bytes consumed, bytes produced).
    pub fn encode(&mut self, input: &[u8], scratch: &mut Vec<u8>) -> (r: Result<
        (usize, usize),
        std::io::Error,
    >)
        ensures
            spec_encoder_codec(*final(self)) == spec_encoder_codec(*old(self)),
            final(scratch)@.len() == old(scratch)@.len(),
            r matches Ok(p) ==> p.0 <= input@.len() && p.1 <= old(scratch)@.len(),
    {
        match self {
            Encoder::Zstd(e) => zstd_encode(e, input, scratch),
            Encoder::Brotli(e) => brotli_encode(e, input, scratch),
            Encoder::Gzip(e) => gzip_encode(e, input, scratch),
            Encoder::Deflate(e) => deflate_encode(e, input, scratch),
        }
    }

    /// Drives one flush step, writing pending compressed bytes into the
    /// scratch buffer. Returns (flush complete, bytes produced).
    pub fn flush(&mut self, scratch: &mut Vec<u8>) -> (r: Result<(bool, usize), std::io::Error>)
        ensures
            spec_encoder_codec(*final(self)) == spec_encoder_codec(*old(self)),
            final(scratch)@.len() == old(scratch)@.len(),
            r matches Ok(p) ==> p.1 <= old(scratch)@.len(),
    {
        match self {
            Encoder::Zstd(e) => zstd_flush(e, scratch),
            Encoder::Brotli(e) => brotli_flush(e, scratch),
            Encoder::Gzip(e) => gzip_flush(e, scratch),
            Encoder::Deflate(e) => deflate_flush(e, scratch),
        }
    }

    /// Drives one finish step, writing trailing compressed bytes into the
    /// scratch buffer. Returns (finish complete, bytes produced).
    pub fn finish(&mut self, scratch: &mut Vec<u8>) -> (r: Result<(bool, usize), std::io::Error>)
        ensures
            spec_encoder_codec(*final(self)) == spec_encoder_codec(*old(self)),
            final(scratch)@.len() == old(scratch)@.len(),
            r matches Ok(p) ==> p.1 <= old(scratch)@.len(),
    {
        match self {
            Encoder::Zstd(e) => zstd_finish(e, scratch),
            Encoder::Brotli(e) => brotli_finish(e, scratch),
            Encoder::Gzip(e) => gzip_finish(e, scratch),
            Encoder::Deflate(e) => deflate_finish(e, scratch),
        }
    }
}

impl Codec {
    /// Creates a new encoder for this codec.
    pub fn encoder(&self) -> (r: Encoder)
        ensures
            spec_encoder_codec(r) == *self,
    {
        match self {
            Codec::Zstd => Encoder::Zstd(new_zstd_encoder()),
            Codec::Brotli => Encoder::Brotli(new_brotli_encoder()),
            Codec::Gzip => Encoder::Gzip(new_gzip_encoder()),
            Codec::Deflate => Encoder::Deflate(new_deflate_encoder()),
        }
    }
}

} // verus!
