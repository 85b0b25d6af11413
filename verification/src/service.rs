//! The service wrapper that carries the compression configuration.

use vstd::prelude::*;

verus! {

/// A service wrapper that compresses the responses of its inner service.
#[derive(Debug, Clone)]
pub struct CompressionService<S> {
    /// The wrapped inner service.
    pub inner: S,
    /// The minimum body size for compression, in bytes.
    pub min_size: usize,
}

impl<S> CompressionService<S> {
    /// Creates a new compression service wrapping the given inner service.
    pub fn new(inner: S, min_size: usize) -> (r: CompressionService<S>)
        ensures
            r.inner == inner,
            r.min_size == min_size,
    {
        CompressionService { inner, min_size }
    }

    /// Returns a reference to the inner service.
    pub fn inner(&self) -> (r: &S)
        ensures
            r == &self.inner,
    {
        &self.inner
    }

    /// Returns a mutable reference to the inner service.
    pub fn inner_mut(&mut self) -> (r: &mut S)
        ensures
            *r == old(self).inner,
            final(self).inner == *final(r),
            final(self).min_size == old(self).min_size,
    {
        &mut self.inner
    }

    /// Consumes this service, returning the inner service.
    pub fn into_inner(self) -> (r: S)
        ensures
            r == self.inner,
    {
        self.inner
    }
}

} // verus!
