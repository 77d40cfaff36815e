//! Why one engine contributed nothing to a search.

use vstd::prelude::*;

verus! {

/// An engine-level failure. None of these reaches the caller of a search: each
/// turns into an empty contribution from that engine.
#[derive(Clone, Debug)]
pub enum SearchError {
    /// The backend could not be reached, or the transfer failed.
    RequestError(String),
    /// The backend answered with something other than the expected structure.
    ParsingError(String),
    /// The engine was not admitted by the local rate limiter.
    RateLimited,
}

} // verus!
