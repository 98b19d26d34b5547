//! The errors the API answers with: an HTTP status and a message, sent
//! either as `{"error": message}` or as plain text.

use vstd::prelude::*;

verus! {

/// `404 Not Found`.
pub const STATUS_NOT_FOUND: u16 = 404;

/// `422 Unprocessable Entity`: the request was understood but its content is
/// refused (blank names, malformed JSON fields).
pub const STATUS_UNPROCESSABLE: u16 = 422;

/// `500 Internal Server Error`.
pub const STATUS_INTERNAL: u16 = 500;

/// An error response.
pub struct ApiError {
    pub status: u16,
    pub message: String,
    /// Whether the body is the JSON object `{"error": message}`; otherwise it
    /// is the message as plain text.
    pub json: bool,
}

pub struct ApiErrorView {
    pub status: u16,
    pub message: Seq<char>,
    pub json: bool,
}

impl DeepView for ApiError {
    type V = ApiErrorView;

    open spec fn deep_view(&self) -> ApiErrorView {
        ApiErrorView { status: self.status, message: self.message@, json: self.json }
    }
}

/// An error answered with the JSON body `{"error": message}`.
pub open spec fn api_error(status: u16, message: Seq<char>) -> ApiErrorView {
    ApiErrorView { status, message, json: true }
}

/// An error answered with the message as plain text.
pub open spec fn plain_error(status: u16, message: Seq<char>) -> ApiErrorView {
    ApiErrorView { status, message, json: false }
}

/// `"not found"`.
pub open spec fn not_found_text() -> Seq<char> {
    seq!['n', 'o', 't', ' ', 'f', 'o', 'u', 'n', 'd']
}

impl ApiError {
    /// A client error with the given status and message, as JSON.
    pub fn client(status: u16, message: String) -> (e: ApiError)
        ensures
            e.deep_view() == api_error(status, message@),
    {
        ApiError { status, message, json: true }
    }

    /// An error with the given status and the message as plain text.
    pub fn plain(status: u16, message: String) -> (e: ApiError)
        ensures
            e.deep_view() == plain_error(status, message@),
    {
        ApiError { status, message, json: false }
    }

    /// An internal error: reported as 500 with the error's text, as JSON.
    pub fn internal(message: String) -> (e: ApiError)
        ensures
            e.deep_view() == api_error(STATUS_INTERNAL, message@),
    {
        ApiError { status: STATUS_INTERNAL, message, json: true }
    }

    /// `404 not found`, as plain text.
    pub fn not_found() -> (e: ApiError)
        ensures
            e.deep_view() == plain_error(STATUS_NOT_FOUND, not_found_text()),
    {
        let message = "not found".to_owned();
        proof {
            reveal_strlit("not found");
            assert(message@ =~= not_found_text());
        }
        ApiError { status: STATUS_NOT_FOUND, message, json: false }
    }
}

} // verus!
