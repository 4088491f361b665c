//! The error that the library reports.

use vstd::prelude::*;

verus! {

/// Error reported by every fallible operation of the library; it carries a
/// human-readable reason.
#[derive(Debug)]
pub struct GgError(pub String);

/// What a fallible operation of the library returns.
pub type GgResult<T = ()> = Result<T, GgError>;

impl GgError {
    /// The reason carried by the error, as a sequence of characters.
    pub open spec fn reason(self) -> Seq<char> {
        self.0@
    }

    /// Builds an error from a reason.
    pub fn new(reason: &str) -> (e: GgError)
        ensures
            e.reason() == reason@,
    {
        GgError(reason.to_owned())
    }

    /// The error of a transport whose peer or underlying connection is gone.
    pub fn channel_closed() -> (e: GgError)
        ensures
            e.reason() == "channel closed"@,
    {
        GgError::new("channel closed")
    }

    /// The error of a registry that has no free slot left.
    pub fn server_full() -> (e: GgError)
        ensures
            e.reason() == "server is full"@,
    {
        GgError::new("server is full")
    }

    /// The error of a store that has given out its last id.
    pub fn out_of_entity_ids() -> (e: GgError)
        ensures
            e.reason() == "out of entity ids"@,
    {
        GgError::new("out of entity ids")
    }

    /// The error of a store that is asked about an entity it does not hold.
    pub fn entity_not_found() -> (e: GgError)
        ensures
            e.reason() == "Entity not found"@,
    {
        GgError::new("Entity not found")
    }

    /// The reason as an owned string.
    pub fn to_string(&self) -> (s: String)
        ensures
            s@ == self.reason(),
    {
        self.0.clone()
    }
}

} // verus!
