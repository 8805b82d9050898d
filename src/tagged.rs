//! The correlation envelope carried over a multiplexed connection.
use vstd::prelude::*;

verus! {

/// A request payload together with the tag that correlates it with its reply.
#[derive(Debug, Clone)]
pub struct Request<T> {
    pub(crate) inner: T,
    tag: usize,
}

impl<T> Request<T> {
    /// The payload carried by this envelope.
    pub closed spec fn payload(&self) -> T {
        self.inner
    }

    /// The tag this envelope bears.
    pub closed spec fn tag_of(&self) -> usize {
        self.tag
    }

    /// The tag an envelope bears before a registry assigns it one.
    pub open spec fn unset_tag() -> usize {
        0
    }

    /// Wraps a bare payload; the tag stays at its unset value until assigned.
    pub fn new(request: T) -> (r: Self)
        ensures
            r.payload() == request,
            r.tag_of() == Self::unset_tag(),
    {
        Self { inner: request, tag: 0 }
    }

    /// Overwrites the tag in place, keeping the payload.
    pub fn set_tag(&mut self, tag: usize)
        ensures
            final(self).tag_of() == tag,
            final(self).payload() == old(self).payload(),
    {
        self.tag = tag;
    }

    /// The tag this envelope bears.
    pub fn tag(&self) -> (r: usize)
        ensures
            r == self.tag_of(),
    {
        self.tag
    }

    /// Extracts the payload.
    pub fn inner(self) -> (r: T)
        ensures
            r == self.payload(),
    {
        self.inner
    }

    /// Clones the payload, leaving the envelope as it is.
    pub fn clone_inner(&self) -> (r: T) where T: Clone
        ensures
            cloned(self.payload(), r),
    {
        self.inner.clone()
    }
}

/// A response payload together with the tag copied from the request it answers.
#[derive(Debug)]
pub struct Response<T> {
    pub(crate) inner: T,
    tag: usize,
}

impl<T> Response<T> {
    /// The payload carried by this envelope.
    pub closed spec fn payload(&self) -> T {
        self.inner
    }

    /// The tag this envelope bears.
    pub closed spec fn tag_of(&self) -> usize {
        self.tag
    }

    /// The tag this response bears.
    pub fn tag(&self) -> (r: usize)
        ensures
            r == self.tag_of(),
    {
        self.tag
    }

    /// Pairs a response payload with the tag of the request it answers.
    pub fn new<R>(request: Request<R>, response: T) -> (r: Self)
        ensures
            r.payload() == response,
            r.tag_of() == request.tag_of(),
    {
        Self { inner: response, tag: request.tag }
    }

    /// Extracts the payload.
    pub fn inner(self) -> (r: T)
        ensures
            r == self.payload(),
    {
        self.inner
    }
}

/// Strips the envelope off a response, keeping only its payload.
pub fn map_response<Resp>(response: Response<Resp>) -> (r: Resp)
    ensures
        r == response.payload(),
{
    response.inner()
}

} // verus!
