//! The configuration layer that wraps services in response compression.

use vstd::prelude::*;

verus! {

/// Default minimum body size for compression (approximately one MTU).
pub const DEFAULT_MIN_SIZE: usize = 860;

/// A layer that equips a service with response-body compression.
///
/// Its only tunable is the minimum body size below which a response with a
/// known Content-Length is left uncompressed.
#[derive(Debug, Clone)]
pub struct CompressionLayer {
    /// The minimum body size for compression, in bytes.
    pub min_size: usize,
}

impl CompressionLayer {
    /// Creates a new compression layer with default settings.
    ///
    /// The default minimum size for compression is 860 bytes.
    pub fn new() -> (r: CompressionLayer)
        ensures
            r.min_size == DEFAULT_MIN_SIZE,
    {
        CompressionLayer { min_size: DEFAULT_MIN_SIZE }
    }

    /// Sets the minimum body size required for compression.
    ///
    /// Responses with a known Content-Length smaller than this value
    /// will not be compressed.
    pub fn min_size(self, size: usize) -> (r: CompressionLayer)
        ensures
            r.min_size == size,
    {
        CompressionLayer { min_size: size }
    }
}

impl Default for CompressionLayer {
    /// The layer with the default minimum size.
    fn default() -> (r: CompressionLayer)
        ensures
            r.min_size == DEFAULT_MIN_SIZE,
    {
        CompressionLayer::new()
    }
}

} // verus!
