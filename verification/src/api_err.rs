use vstd::prelude::*;

use crate::structs::ErrorResponse;

verus! {

/// An error raised while answering a routing request.
#[derive(Debug)]
pub enum ApiError {
    /// The caller asked for something that cannot be served.
    BadRequest(String),
    /// Something went wrong on the server's side.
    Internal(String),
}

/// HTTP status code of a bad request.
pub const STATUS_BAD_REQUEST: u16 = 400;

/// HTTP status code of an internal server error.
pub const STATUS_INTERNAL_SERVER_ERROR: u16 = 500;

/// The status code and body with which an error is answered.
pub open spec fn spec_response(err: ApiError) -> (u16, ErrorResponse) {
    match err {
        ApiError::BadRequest(message) => (STATUS_BAD_REQUEST, ErrorResponse { error: message }),
        ApiError::Internal(message) => (STATUS_INTERNAL_SERVER_ERROR, ErrorResponse { error: message }),
    }
}

/// The reply made of a status code and an error body carrying `message`.
pub open spec fn reply_with(status: u16, message: Seq<char>, reply: (u16, ErrorResponse)) -> bool {
    reply.0 == status && reply.1.error@ == message
}

/// `err` is an internal error carrying `message`.
pub open spec fn is_internal_with(err: ApiError, message: Seq<char>) -> bool {
    err matches ApiError::Internal(m) && m@ == message
}

/// `err` is a bad-request error carrying `message`.
pub open spec fn is_bad_request_with(err: ApiError, message: Seq<char>) -> bool {
    err matches ApiError::BadRequest(m) && m@ == message
}

impl ApiError {
    /// Makes a bad-request error.
    pub fn bad_request(message: String) -> (err: Self)
        ensures
            err == ApiError::BadRequest(message),
    {
        ApiError::BadRequest(message)
    }

    /// Makes an internal error.
    pub fn internal(message: String) -> (err: Self)
        ensures
            err == ApiError::Internal(message),
    {
        ApiError::Internal(message)
    }

    /// The status code and error body that answer this error:
    /// 400 for a bad request, 500 for an internal error, with the message as body.
    pub fn into_response(self) -> (reply: (u16, ErrorResponse))
        ensures
            reply == spec_response(self),
    {
        match self {
            ApiError::BadRequest(message) => (STATUS_BAD_REQUEST, ErrorResponse { error: message }),
            ApiError::Internal(message) => (STATUS_INTERNAL_SERVER_ERROR, ErrorResponse { error: message }),
        }
    }
}


/// A bad request is answered with status 400 and an internal error with
/// status 500, each with its message as the error body.
pub proof fn lemma_error_replies(message: String)
    ensures
        spec_response(ApiError::BadRequest(message)).0 == 400,
        spec_response(ApiError::BadRequest(message)).1.error == message,
        spec_response(ApiError::Internal(message)).0 == 500,
        spec_response(ApiError::Internal(message)).1.error == message,
        forall|status: u16, text: Seq<char>, reply: (u16, ErrorResponse)|
            #[trigger] reply_with(status, text, reply) <==> (reply.0 == status && reply.1.error@ == text),
{
}

} // verus!
