//! Minimal HTTP abstraction so network sources can be exercised without a
//! network.

use vstd::prelude::*;

use crate::error::Result;

verus! {

/// Outcome of a GET request. 404 is reported separately because it is a
/// normal "not yet archived" answer from the Arch Archive, not a failure.
#[derive(Debug, Clone, PartialEq, Eq)]
pub enum FetchOutcome {
    Body(String),
    NotFound,
}

/// A blocking HTTP client: the body of a successful GET, `NotFound` on 404,
/// an error otherwise. `answered(url, reply)` is the implementation's own
/// account of a request: a GET of `url` may give `reply`. The default says
/// nothing; code generic over the client knows of `answered` only that each
/// call of `get` satisfies it.
pub trait HttpClient {
    open spec fn answered(&self, url: Seq<char>, reply: Result<FetchOutcome>) -> bool {
        true
    }

    fn get(&self, url: &str) -> (r: Result<FetchOutcome>)
        ensures
            self.answered(url@, r),
    ;
}

} // verus!
