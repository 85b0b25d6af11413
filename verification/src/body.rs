//! The compressing body state machine and the passthrough path.
//!
//! A compressed body owns one encoder, a fixed reusable output buffer and
//! an explicit, forward-only state: Reading pulls frames from the inner
//! body, Finishing drains the encoder's tail, Trailers emits at most one
//! deferred trailer set, Done reports exhaustion forever. The caller's
//! driver polls the inner body while the state is Reading and hands each
//! frame (or the end of the stream) to [`CompressedBody::poll_compressed`].

use crate::codec::{spec_encoder_codec, Codec, Encoder};
use crate::headers::HeaderMap;
use vstd::prelude::*;
use vstd::slice::slice_subrange;

verus! {

/// Size of the reusable output buffer each compressed body owns.
pub const OUTPUT_BUFFER_SIZE: usize = 8192;

/// Defensive bound on consecutive encoder calls that make no progress,
/// guarding the synchronous loops against a stagnating encoder.
pub const STALL_LIMIT: usize = 8192;

/// State machine for compression. Strictly forward-progressing:
/// Reading, then Finishing, then (possibly) Trailers, then Done.
#[derive(Debug, Clone, Copy, PartialEq, Eq, Structural)]
pub enum CompressState {
    /// Reading data from the inner body and compressing it.
    Reading,
    /// Finishing compression after the inner body is done.
    Finishing,
    /// Emitting the buffered trailers.
    Trailers,
    /// Compression is complete.
    Done,
}

/// Position of a state in the forward-only progression.
pub open spec fn spec_state_rank(s: CompressState) -> int {
    match s {
        CompressState::Reading => 0,
        CompressState::Finishing => 1,
        CompressState::Trailers => 2,
        CompressState::Done => 3,
    }
}

/// One frame of a streaming body: a chunk of data, or the terminal set of
/// trailing metadata.
pub enum Frame {
    /// A chunk of body bytes.
    Data(Vec<u8>),
    /// The trailing metadata; at most one, and only as the last frame.
    Trailers(HeaderMap),
}

/// What the driver observed from the inner body while Reading.
pub enum BodyEvent {
    /// The inner body produced a frame.
    Frame(Frame),
    /// The inner body is exhausted.
    End,
}

/// What one poll of the compressing body produced.
pub enum PollOutcome {
    /// The state machine is Reading and was handed no event: the driver
    /// must poll the inner body first.
    NeedFrame,
    /// A data chunk was consumed but no compressed bytes are ready yet;
    /// the driver reports "not yet ready" to its caller.
    NoOutput,
    /// A frame of compressed bytes.
    Data(Vec<u8>),
    /// The deferred trailer set, emitted after compression finished.
    TrailerFrame(HeaderMap),
    /// The stream is exhausted; polling again reports the same.
    Exhausted,
}

/// The deferred trailers after a Reading state takes in `event`.
pub open spec fn spec_pending_after_intake(b: CompressedBody, event: Option<BodyEvent>) -> Option<
    Seq<(Seq<u8>, Seq<u8>)>,
> {
    if b.spec_state() is Reading {
        match event {
            Some(BodyEvent::Frame(Frame::Trailers(t))) => Some(t@),
            _ => b.spec_pending_trailers(),
        }
    } else {
        b.spec_pending_trailers()
    }
}

/// Relies on std::io::Error::other to build the error reported when the
/// encoder stagnates: repeated calls make no progress at all.
#[verifier::external_body]
fn encoder_stalled_error() -> std::io::Error {
    std::io::Error::other("compression encoder made no progress")
}

/// Appends the first `n` written bytes of the scratch buffer to `acc`,
/// never reading past the written length.
fn extend_from_scratch(acc: &mut Vec<u8>, scratch: &Vec<u8>, n: usize)
    requires
        n <= scratch@.len(),
    ensures
        final(acc)@ == old(acc)@ + scratch@.subrange(0, n as int),
{
    let mut k: usize = 0;
    while k < n
        invariant
            k <= n <= scratch@.len(),
            acc@ == old(acc)@ + scratch@.subrange(0, k as int),
        decreases n - k,
    {
        acc.push(scratch[k]);
        proof {
            assert(old(acc)@ + scratch@.subrange(0, k + 1) =~= (old(acc)@ + scratch@.subrange(
                0,
                k as int,
            )).push(scratch@[k as int]));
        }
        k += 1;
    }
}

/// State and buffers for an actively compressed body.
pub struct CompressedBody {
    encoder: Encoder,
    output_buffer: Vec<u8>,
    always_flush: bool,
    state: CompressState,
    pending_trailers: Option<HeaderMap>,
    bytes_in: Ghost<nat>,
    bytes_fed: Ghost<nat>,
    stalled: Ghost<bool>,
}

impl CompressedBody {
    /// The current state.
    pub closed spec fn spec_state(&self) -> CompressState {
        self.state
    }

    /// Whether the encoder is flushed after every chunk.
    pub closed spec fn spec_always_flush(&self) -> bool {
        self.always_flush
    }

    /// The codec this body compresses with.
    pub closed spec fn spec_codec(&self) -> Codec {
        spec_encoder_codec(self.encoder)
    }

    /// The deferred trailer set, if one is buffered.
    pub closed spec fn spec_pending_trailers(&self) -> Option<Seq<(Seq<u8>, Seq<u8>)>> {
        match self.pending_trailers {
            Some(t) => Some(t@),
            None => None,
        }
    }

    /// The length of the reusable output buffer.
    pub closed spec fn spec_buffer_len(&self) -> nat {
        self.output_buffer@.len()
    }

    /// Total bytes of data frames taken in while Reading.
    pub closed spec fn spec_bytes_in(&self) -> nat {
        self.bytes_in@
    }

    /// Total bytes fed to (consumed by) the encoder.
    pub closed spec fn spec_bytes_fed(&self) -> nat {
        self.bytes_fed@
    }

    /// Whether fed bytes ever fell behind input bytes: set exactly when
    /// the zero-progress guard cut a chunk short or an encoder call
    /// failed mid-chunk, the only ways a byte deficit can arise.
    pub closed spec fn spec_stalled(&self) -> bool {
        self.stalled@
    }

    /// Well-formedness: the reusable buffer keeps its fixed size, a body
    /// never reaches Done while a trailer set is still unread, and every
    /// byte taken in has been fed to the encoder unless the defensive
    /// stall guard fired.
    pub open spec fn wf(&self) -> bool {
        &&& self.spec_buffer_len() == OUTPUT_BUFFER_SIZE
        &&& self.spec_state() is Done ==> self.spec_pending_trailers() is None
        &&& self.spec_bytes_fed() <= self.spec_bytes_in()
        &&& !self.spec_stalled() ==> self.spec_bytes_fed() == self.spec_bytes_in()
    }

    /// Creates a new compressed body state with the given codec.
    pub fn new(codec: Codec, always_flush: bool) -> (r: CompressedBody)
        ensures
            r.wf(),
            r.spec_state() is Reading,
            r.spec_always_flush() == always_flush,
            r.spec_codec() == codec,
            r.spec_pending_trailers() is None,
            r.spec_bytes_in() == 0,
            r.spec_bytes_fed() == 0,
            !r.spec_stalled(),
    {
        CompressedBody {
            encoder: codec.encoder(),
            output_buffer: vec![0u8; OUTPUT_BUFFER_SIZE],
            always_flush,
            state: CompressState::Reading,
            pending_trailers: None,
            bytes_in: Ghost(0),
            bytes_fed: Ghost(0),
            stalled: Ghost(false),
        }
    }

    /// Returns the current compression state.
    pub fn state(&self) -> (s: CompressState)
        ensures
            s == self.spec_state(),
    {
        self.state
    }

    /// Returns whether always flush is enabled.
    pub fn always_flush(&self) -> (b: bool)
        ensures
            b == self.spec_always_flush(),
    {
        self.always_flush
    }

    /// Compresses one chunk of input data, accumulating everything the
    /// encoder emits (flushing too, when always-flush is on) into one
    /// growable result. Every input byte is fed to the encoder unless a
    /// call makes no progress at all, the defensive guard against
    /// stagnation; a flush that never reports completion within the
    /// stall limit is surfaced as an error.
    pub fn compress_chunk(&mut self, input: &[u8]) -> (r: Result<Vec<u8>, std::io::Error>)
        requires
            old(self).wf(),
            old(self).spec_state() is Reading,
        ensures
            final(self).wf(),
            final(self).spec_state() is Reading,
            final(self).spec_always_flush() == old(self).spec_always_flush(),
            final(self).spec_codec() == old(self).spec_codec(),
            final(self).spec_pending_trailers() == old(self).spec_pending_trailers(),
            final(self).spec_bytes_in() == old(self).spec_bytes_in() + input@.len(),
            final(self).spec_bytes_fed() >= old(self).spec_bytes_fed(),
            old(self).spec_stalled() ==> final(self).spec_stalled(),
            !final(self).spec_stalled() ==> final(self).spec_bytes_fed()
                == final(self).spec_bytes_in(),
            input@.len() == 0 && !old(self).spec_stalled() && !old(self).spec_always_flush()
                ==> r is Ok && !final(self).spec_stalled(),
            final(self).spec_stalled() == (old(self).spec_stalled() || final(self).spec_bytes_fed()
                < final(self).spec_bytes_in()),
    {
        let ghost fed0 = self.bytes_fed@;
        proof {
            assert(input@.len() >= 0);
        }
        self.bytes_in = Ghost(self.bytes_in@ + input@.len());
        let n = input.len();
        let mut consumed: usize = 0;
        let mut streak: usize = 0;
        let mut acc: Vec<u8> = Vec::new();
        let mut cut_short = false;
        while consumed < n
            invariant_except_break
                streak < STALL_LIMIT,
                !cut_short,
            invariant
                old(self).wf(),
                fed0 == old(self).spec_bytes_fed(),
                n == input@.len(),
                consumed <= n,
                self.spec_buffer_len() == OUTPUT_BUFFER_SIZE,
                self.spec_state() == old(self).spec_state(),
                self.spec_state() is Reading,
                self.spec_always_flush() == old(self).spec_always_flush(),
                self.spec_codec() == old(self).spec_codec(),
                self.spec_pending_trailers() == old(self).spec_pending_trailers(),
                self.spec_bytes_in() == old(self).spec_bytes_in() + input@.len(),
                self.spec_bytes_fed() == fed0 + consumed,
                self.spec_stalled() == old(self).spec_stalled(),
            ensures
                consumed <= n,
                cut_short <==> consumed < n,
                self.spec_buffer_len() == OUTPUT_BUFFER_SIZE,
                self.spec_state() is Reading,
                self.spec_always_flush() == old(self).spec_always_flush(),
                self.spec_codec() == old(self).spec_codec(),
                self.spec_pending_trailers() == old(self).spec_pending_trailers(),
                self.spec_bytes_in() == old(self).spec_bytes_in() + input@.len(),
                self.spec_bytes_fed() == fed0 + consumed,
                self.spec_stalled() == old(self).spec_stalled(),
            decreases n - consumed, STALL_LIMIT - streak,
        {
            let remaining = slice_subrange(input, consumed, n);
            match self.encoder.encode(remaining, &mut self.output_buffer) {
                Err(e) => {
                    self.stalled = Ghost(true);
                    return Err(e);
                },
                Ok((c, p)) => {
                    extend_from_scratch(&mut acc, &self.output_buffer, p);
                    if c == 0 && p == 0 {
                        cut_short = true;
                        break;
                    }
                    consumed += c;
                    self.bytes_fed = Ghost(self.bytes_fed@ + c as nat);
                    if c == 0 {
                        streak += 1;
                        if streak == STALL_LIMIT {
                            cut_short = true;
                            break;
                        }
                    } else {
                        streak = 0;
                    }
                },
            }
        }
        if cut_short {
            self.stalled = Ghost(true);
        }
        if self.always_flush {
            let mut rounds: usize = 0;
            loop
                invariant_except_break
                    old(self).wf(),
                    fed0 == old(self).spec_bytes_fed(),
                    n == input@.len(),
                    consumed <= n,
                    cut_short <==> consumed < n,
                    old(self).spec_always_flush(),
                    rounds < STALL_LIMIT,
                    self.spec_buffer_len() == OUTPUT_BUFFER_SIZE,
                    self.spec_state() is Reading,
                    self.spec_always_flush() == old(self).spec_always_flush(),
                    self.spec_codec() == old(self).spec_codec(),
                    self.spec_pending_trailers() == old(self).spec_pending_trailers(),
                    self.spec_bytes_in() == old(self).spec_bytes_in() + input@.len(),
                    self.spec_bytes_fed() == fed0 + consumed,
                    self.spec_stalled() == (old(self).spec_stalled() || cut_short),
                ensures
                    self.spec_buffer_len() == OUTPUT_BUFFER_SIZE,
                    self.spec_state() is Reading,
                    self.spec_always_flush() == old(self).spec_always_flush(),
                    self.spec_codec() == old(self).spec_codec(),
                    self.spec_pending_trailers() == old(self).spec_pending_trailers(),
                    self.spec_bytes_in() == old(self).spec_bytes_in() + input@.len(),
                    self.spec_bytes_fed() == fed0 + consumed,
                    self.spec_stalled() == (old(self).spec_stalled() || cut_short),
                decreases STALL_LIMIT - rounds,
            {
                match self.encoder.flush(&mut self.output_buffer) {
                    Err(e) => {
                        return Err(e);
                    },
                    Ok((done, p)) => {
                        extend_from_scratch(&mut acc, &self.output_buffer, p);
                        if done {
                            break;
                        }
                        rounds += 1;
                        if rounds == STALL_LIMIT {
                            return Err(encoder_stalled_error());
                        }
                    },
                }
            }
        }
        Ok(acc)
    }

    /// Advances the state machine by one poll. While Reading, the driver
    /// polls the inner body and passes what it saw as `event`; in every
    /// other state `event` is ignored. Once Done, every further poll
    /// reports exhaustion and changes nothing. A trailer frame is emitted
    /// exactly once if and only if the inner body supplied one, only as
    /// the final frame before Done: a supplied set is held in the pending
    /// slot until the poll that returns it, a Trailers-state poll with a
    /// pending set must return that set, and exhaustion can only be
    /// reported with the slot empty. The state only ever moves forward,
    /// and once the inner body has ended, every poll either surfaces an
    /// error, emits a non-empty frame, or reaches Done; how many polls
    /// that takes rests on when the encoder reports completion.
    pub fn poll_compressed(&mut self, event: Option<BodyEvent>) -> (r: Result<
        PollOutcome,
        std::io::Error,
    >)
        requires
            old(self).wf(),
        ensures
            final(self).wf(),
            final(self).spec_always_flush() == old(self).spec_always_flush(),
            final(self).spec_codec() == old(self).spec_codec(),
            spec_state_rank(final(self).spec_state()) >= spec_state_rank(old(self).spec_state()),
            old(self).spec_state() is Done ==> r == Ok::<PollOutcome, std::io::Error>(
                PollOutcome::Exhausted,
            ) && *final(self) == *old(self),
            (r == Ok::<PollOutcome, std::io::Error>(PollOutcome::NeedFrame)) <==> (old(
                self,
            ).spec_state() is Reading && event is None),
            r == Ok::<PollOutcome, std::io::Error>(PollOutcome::NeedFrame) ==> *final(self)
                == *old(self),
            r matches Ok(PollOutcome::TrailerFrame(t)) ==> final(self).spec_state() is Done
                && final(self).spec_pending_trailers() is None && Some(t@)
                == spec_pending_after_intake(*old(self), event),
            r == Ok::<PollOutcome, std::io::Error>(PollOutcome::Exhausted)
                ==> final(self).spec_state() is Done,
            r == Ok::<PollOutcome, std::io::Error>(PollOutcome::NoOutput)
                ==> final(self).spec_state() is Reading,
            r matches Ok(PollOutcome::Data(d)) ==> d@.len() > 0,
            old(self).spec_state() is Trailers ==> r is Ok && final(self).spec_state() is Done,
            old(self).spec_state() is Trailers ==> (old(self).spec_pending_trailers()
                matches Some(t) ==> (r matches Ok(PollOutcome::TrailerFrame(tr)) && tr@ == t)),
            (old(self).spec_state() is Reading && event matches Some(
                BodyEvent::Frame(Frame::Data(_)),
            )) ==> (final(self).spec_state() is Reading && (r matches Ok(PollOutcome::Data(_))
                || r == Ok::<PollOutcome, std::io::Error>(PollOutcome::NoOutput) || r is Err)),
            final(self).spec_pending_trailers() == spec_pending_after_intake(*old(self), event)
                || (r matches Ok(PollOutcome::TrailerFrame(_))
                && final(self).spec_pending_trailers() is None),
            r == Ok::<PollOutcome, std::io::Error>(PollOutcome::Exhausted)
                ==> spec_pending_after_intake(*old(self), event) is None,
            (old(self).spec_state() is Finishing || old(self).spec_state() is Trailers || (old(
                self,
            ).spec_state() is Reading && (event matches Some(BodyEvent::End) || event matches Some(
                BodyEvent::Frame(Frame::Trailers(_)),
            )))) ==> (r is Err || r matches Ok(PollOutcome::Data(_))
                || final(self).spec_state() is Done),
            final(self).spec_bytes_in() == if old(self).spec_state() is Reading && (event matches
                Some(BodyEvent::Frame(Frame::Data(d)))) {
                old(self).spec_bytes_in() + (event->Some_0->Frame_0->Data_0)@.len()
            } else {
                old(self).spec_bytes_in()
            },
            final(self).spec_bytes_fed() >= old(self).spec_bytes_fed(),
            old(self).spec_stalled() ==> final(self).spec_stalled(),
    {
        match self.state {
            CompressState::Reading => {
                match event {
                    None => {
                        return Ok(PollOutcome::NeedFrame);
                    },
                    Some(BodyEvent::Frame(Frame::Data(d))) => {
                        match self.compress_chunk(d.as_slice()) {
                            Err(e) => {
                                return Err(e);
                            },
                            Ok(out) => {
                                if out.len() == 0 {
                                    return Ok(PollOutcome::NoOutput);
                                }
                                return Ok(PollOutcome::Data(out));
                            },
                        }
                    },
                    Some(BodyEvent::Frame(Frame::Trailers(t))) => {
                        self.pending_trailers = Some(t);
                        self.state = CompressState::Finishing;
                    },
                    Some(BodyEvent::End) => {
                        self.state = CompressState::Finishing;
                    },
                }
            },
            _ => {},
        }
        let ghost pending_in = spec_pending_after_intake(*old(self), event);
        let mut fuel: usize = STALL_LIMIT;
        loop
            invariant_except_break
                fuel >= 1,
                self.wf(),
                !(self.spec_state() is Reading),
                !(old(self).spec_state() is Reading && event is None),
                !(old(self).spec_state() is Reading && event matches Some(
                    BodyEvent::Frame(Frame::Data(_)),
                )),
                old(self).spec_state() is Done ==> self == old(self),
                pending_in == spec_pending_after_intake(*old(self), event),
                self.spec_always_flush() == old(self).spec_always_flush(),
                self.spec_codec() == old(self).spec_codec(),
                spec_state_rank(self.spec_state()) >= spec_state_rank(old(self).spec_state()),
                self.spec_pending_trailers() == pending_in,
                self.spec_state() is Done ==> self.spec_pending_trailers() is None,
                self.spec_bytes_in() == old(self).spec_bytes_in(),
                self.spec_bytes_fed() >= old(self).spec_bytes_fed(),
                old(self).spec_stalled() ==> self.spec_stalled(),
            decreases 3 - spec_state_rank(self.spec_state()), fuel,
        {
            match self.state {
                CompressState::Done => {
                    return Ok(PollOutcome::Exhausted);
                },
                CompressState::Trailers => {
                    let taken = self.pending_trailers.take();
                    self.state = CompressState::Done;
                    match taken {
                        Some(t) => {
                            return Ok(PollOutcome::TrailerFrame(t));
                        },
                        None => {
                            return Ok(PollOutcome::Exhausted);
                        },
                    }
                },
                CompressState::Finishing => {
                    match self.encoder.finish(&mut self.output_buffer) {
                        Err(e) => {
                            return Err(e);
                        },
                        Ok((done, p)) => {
                            if p > 0 {
                                let mut data: Vec<u8> = Vec::new();
                                extend_from_scratch(&mut data, &self.output_buffer, p);
                                if done {
                                    self.state = if self.pending_trailers.is_some() {
                                        CompressState::Trailers
                                    } else {
                                        CompressState::Done
                                    };
                                }
                                return Ok(PollOutcome::Data(data));
                            } else if done {
                                self.state = if self.pending_trailers.is_some() {
                                    CompressState::Trailers
                                } else {
                                    CompressState::Done
                                };
                            } else {
                                fuel -= 1;
                                if fuel == 0 {
                                    return Err(encoder_stalled_error());
                                }
                            }
                        },
                    }
                },
                CompressState::Reading => {
                    proof {
                        assert(false);
                    }
                    return Ok(PollOutcome::NeedFrame);
                },
            }
        }
    }
}

/// No silent drops: in every reachable state of a compressed body, the
/// total bytes fed to the encoder equal the total bytes of the data
/// frames taken in, as long as the defensive zero-progress guard never
/// fired and no encoder call failed (only those set the stalled flag).
pub proof fn lemma_no_silent_drops(b: CompressedBody)
    requires
        b.wf(),
        !b.spec_stalled(),
    ensures
        b.spec_bytes_fed() == b.spec_bytes_in(),
{
}

/// A response body that may be compressed.
///
/// This type wraps an inner body and either compresses it using the
/// specified codec or passes it through unchanged.
pub enum CompressionBody<B> {
    /// Compressed body with encoder state.
    Compressed {
        /// The inner body.
        inner: B,
        /// The compression state machine.
        state: CompressedBody,
    },
    /// Passthrough body without compression.
    Passthrough {
        /// The inner body.
        inner: B,
    },
}

impl<B> CompressionBody<B> {
    /// Creates a compressed body with the given codec.
    pub fn compressed(inner: B, codec: Codec, always_flush: bool) -> (r: CompressionBody<B>)
        ensures
            r matches CompressionBody::Compressed { inner: i, state } && i == inner && state.wf()
                && state.spec_state() is Reading && state.spec_codec() == codec
                && state.spec_always_flush() == always_flush && state.spec_pending_trailers()
                is None && state.spec_bytes_in() == 0 && !state.spec_stalled(),
    {
        CompressionBody::Compressed { inner, state: CompressedBody::new(codec, always_flush) }
    }

    /// Creates a passthrough body without compression.
    pub fn passthrough(inner: B) -> (r: CompressionBody<B>)
        ensures
            r matches CompressionBody::Passthrough { inner: i } && i == inner,
    {
        CompressionBody::Passthrough { inner }
    }
}

/// The passthrough path forwards each frame unchanged: the identity
/// transform on the frame sequence and its byte content.
pub fn passthrough_frame(f: Frame) -> (r: Frame)
    ensures
        r == f,
{
    f
}

} // verus!
