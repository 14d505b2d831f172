//! The envelope in which every answer of the service travels.

use vstd::prelude::*;

verus! {

/// An answer: whether the operation succeeded, a message for people, and either
/// the data or the error.
#[derive(Debug)]
pub struct ApiResponse<'a, T> {
    pub success: bool,
    pub message: &'a str,
    pub data: Option<T>,
    pub error: Option<T>,
}

impl<'a, T> ApiResponse<'a, T> {
    pub fn success(message: &'a str, data: T) -> (r: Self)
        ensures
            r.success,
            r.message == message,
            r.data == Some(data),
            r.error is None,
    {
        ApiResponse { success: true, message, data: Some(data), error: None }
    }

    pub fn error(message: &'a str, error: T) -> (r: Self)
        ensures
            !r.success,
            r.message == message,
            r.data is None,
            r.error == Some(error),
    {
        ApiResponse { success: false, message, data: None, error: Some(error) }
    }
}

} // verus!
