//! Three-valued response envelope: success with a payload, or a
//! classified failure carrying a message, optional reasons, and the
//! status code the boundary layer should answer with.

use vstd::prelude::*;

verus! {

/// Envelope for a successful operation; carries the payload and the
/// status code the boundary layer should answer with.
pub struct SuccessResponse<T> {
    pub data: T,
    pub http_status: u16,
}

impl<T> SuccessResponse<T> {
    pub fn new(data: T) -> (r: SuccessResponse<T>)
        ensures
            r.data == data,
            r.http_status == 200u16,
    {
        SuccessResponse { data, http_status: 200 }
    }

    pub fn get_data(&self) -> (r: &T)
        ensures
            r == &self.data,
    {
        &self.data
    }
}

/// Distinguishes a client-visible failure from an unexpected error.
pub enum ErrorType {
    Fail,
    Error,
}

/// Envelope for a failed operation.
pub struct ErrorResponse {
    pub status: ErrorType,
    pub message: String,
    pub reasons: Option<Vec<String>>,
    pub http_status: u16,
}

impl ErrorResponse {
    pub fn error(message: String, http_status: u16) -> (r: ErrorResponse)
        ensures
            r.status is Error,
            r.message == message,
            r.reasons is None,
            r.http_status == http_status,
    {
        ErrorResponse { status: ErrorType::Error, message, reasons: None, http_status }
    }

    pub fn fail(message: String, http_status: u16) -> (r: ErrorResponse)
        ensures
            r.status is Fail,
            r.message == message,
            r.reasons is None,
            r.http_status == http_status,
    {
        ErrorResponse { status: ErrorType::Fail, message, reasons: None, http_status }
    }

    pub fn fail_with_reasons(message: String, reasons: Vec<String>, http_status: u16) -> (r:
        ErrorResponse)
        ensures
            r.status is Fail,
            r.message == message,
            r.reasons == Some(reasons),
            r.http_status == http_status,
    {
        ErrorResponse { status: ErrorType::Fail, message, reasons: Some(reasons), http_status }
    }
}

} // verus!
