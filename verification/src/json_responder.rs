//! The uniform response envelope of the query endpoints.

use vstd::prelude::*;

verus! {

/// Whether a response carries a result or an error.
#[derive(Clone, Copy, Debug, PartialEq, Eq, Structural)]
pub enum Status {
    Success,
    Error,
}

/// A response envelope: a status, and either a result or an error text.
pub struct Response<T> {
    pub status: Status,
    pub result: Option<T>,
    pub error: Option<String>,
}

impl<T> Response<T> {
    /// A success envelope around the given result.
    pub fn ok(result: T) -> (r: Response<T>)
        ensures
            r.status == Status::Success,
            r.result == Some(result),
            r.error is None,
    {
        Response { status: Status::Success, result: Some(result), error: None }
    }

    /// An error envelope around the given message.
    pub fn error(error: &str) -> (r: Response<T>)
        ensures
            r.status == Status::Error,
            r.result is None,
            r.error matches Some(e) && e@ == error@,
    {
        Response { status: Status::Error, result: None, error: Some(error.to_owned()) }
    }
}

} // verus!
