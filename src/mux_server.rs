//! Server side of the multiplexed transport: the detagging layer that lets
//! an ordinary call/response service answer tagged requests.
use vstd::prelude::*;

verus! {

/// Wraps a backend service that never sees tags: a tagged request reaches it
/// as its bare payload, and its answer goes back in an envelope bearing the
/// request's tag (see `Response::new`).
pub struct Detagger<S> {
    inner: S,
}

impl<S> Detagger<S> {
    /// The wrapped backend service.
    pub closed spec fn service(&self) -> S {
        self.inner
    }

    /// Wraps `inner`.
    pub fn new(inner: S) -> (r: Self)
        ensures
            r.service() == inner,
    {
        Self { inner }
    }

    /// The wrapped backend service, to forward a bare payload to.
    pub fn service_mut(&mut self) -> (r: &mut S)
        ensures
            *r == old(self).service(),
            final(self).service() == *final(r),
    {
        &mut self.inner
    }
}

} // verus!
