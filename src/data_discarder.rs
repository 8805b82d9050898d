//! An example backend: it takes a payload of bytes, waits a while that
//! depends on its variant, and answers with the payload's size.
use vstd::prelude::*;

use crate::resource_filter::Describable;

verus! {

/// How fast a data discarder answers.
#[derive(Debug, PartialEq, Eq, Clone, Copy, Structural)]
pub enum DataDiscarderVariant {
    Fast,
    Medium,
    Slow,
}

/// A request: a payload of some size, to stress the transport a bit.
#[derive(Debug, Clone)]
pub struct Action {
    pub payload: Vec<u8>,
}

/// The answer: the number of bytes in the request's payload.
#[derive(Debug)]
pub struct Response {
    pub payload_size: usize,
}

/// The delay, in milliseconds, of each variant.
pub open spec fn slowness_of(variant: DataDiscarderVariant) -> usize {
    match variant {
        DataDiscarderVariant::Fast => 5,
        DataDiscarderVariant::Medium => 25,
        DataDiscarderVariant::Slow => 100,
    }
}

/// A backend that discards what it is sent, after a delay.
#[derive(Debug)]
pub struct DataDiscarder {
    pub variant: DataDiscarderVariant,
    pub slowness_ms: usize,
}

impl DataDiscarder {
    /// A discarder of the given variant, with that variant's delay.
    pub fn new(variant: DataDiscarderVariant) -> (r: Self)
        ensures
            r.variant == variant,
            r.slowness_ms == slowness_of(variant),
    {
        Self {
            variant,
            slowness_ms: match variant {
                DataDiscarderVariant::Fast => 5,
                DataDiscarderVariant::Medium => 25,
                DataDiscarderVariant::Slow => 100,
            },
        }
    }

    /// The answer to `request`, to be given after `slowness_ms`.
    pub fn respond(&self, request: Action) -> (r: Response)
        ensures
            r.payload_size == request.payload@.len(),
    {
        let Action { payload } = request;
        Response { payload_size: payload.len() }
    }
}

impl Describable<DataDiscarderVariant> for DataDiscarder {
    fn describe(&self) -> DataDiscarderVariant {
        self.variant
    }
}

} // verus!
