//! An envelope that carries the ID of the span that a unit of work belongs to.

use vstd::prelude::*;

verus! {

#[verifier::external_type_specification]
#[verifier::external_body]
pub struct ExId(tracing::Id);

/// Relies on the derived `Clone` of `tracing::Id`, a wrapper of a `NonZeroU64`:
/// the clone is the same ID.
pub assume_specification[ <tracing::Id as Clone>::clone ](id: &tracing::Id) -> (r: tracing::Id)
    ensures
        r == *id,
;

/// A unit of work with the ID of its span.
#[derive(Debug)]
pub struct ChannelMessage<T> {
    span_id: Option<tracing::Id>,
    body: T,
}

impl<T> ChannelMessage<T> {
    /// The payload.
    pub closed spec fn body(&self) -> T {
        self.body
    }

    /// The ID of the span, if any.
    pub closed spec fn id(&self) -> Option<tracing::Id> {
        self.span_id
    }

    pub fn new(span_id: Option<tracing::Id>, body: T) -> (r: Self)
        ensures
            r.body() == body,
            r.id() == span_id,
    {
        Self { body, span_id }
    }

    /// The payload.
    pub fn unwrap(&self) -> (r: &T)
        ensures
            *r == self.body(),
    {
        &self.body
    }

    /// The ID of the span, if any.
    pub fn span_id(&self) -> (r: Option<tracing::Id>)
        ensures
            r == self.id(),
    {
        match &self.span_id {
            Some(id) => Some(id.clone()),
            None => None,
        }
    }
}

} // verus!
