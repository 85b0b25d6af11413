//! Streaming response-compression middleware core.
//!
//! The crate negotiates a compression codec from a client's advertised
//! encodings, decides per response whether the body may be compressed, and
//! drives a stateful encoder over the body's frames through an explicit,
//! forward-only state machine with a fixed reusable output buffer.
//!
//! A response is left uncompressed when no advertised encoding is
//! supported, when it already carries a Content-Encoding, when it is a
//! range response (Content-Range), when its Content-Type is an image
//! other than SVG or gRPC other than gRPC-Web, or when a known
//! Content-Length falls below the configured minimum size. When
//! compression is chosen, Content-Encoding is set to the codec's wire
//! name, Content-Length and Accept-Ranges are removed, and the Vary
//! fields gain `accept-encoding` unless a token already covers it.
//! The encoder is flushed after every chunk for streaming responses
//! (`X-Accel-Buffering: no`, `text/event-stream`, gRPC-Web).

pub mod ascii;
pub mod body;
pub mod codec;
pub mod future;
pub mod headers;
pub mod layer;
pub mod service;

pub use body::CompressionBody;
pub use codec::Codec;
pub use future::ResponseFuture;
pub use layer::CompressionLayer;
pub use service::CompressionService;
