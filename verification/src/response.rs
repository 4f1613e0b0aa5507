//! The body and status code of the answers of the HTTP interface.
use vstd::prelude::*;

verus! {

/// The HTTP status code of a successful answer.
pub const STATUS_OK: u16 = 200;

/// The HTTP status code of a malformed request.
pub const STATUS_BAD_REQUEST: u16 = 400;

/// The HTTP status code of a request for something that does not exist.
pub const STATUS_NOT_FOUND: u16 = 404;

/// The HTTP status code of a failure inside the server.
pub const STATUS_INTERNAL_SERVER_ERROR: u16 = 500;

/// The body of an answer: whether the request succeeded, the error if it
/// did not, and the data asked for.
pub struct ApiResponse<T> {
    pub success: bool,
    pub error: Option<String>,
    pub data: Option<T>,
}

/// A failed answer whose error reads `message`.
pub open spec fn failed_with<T>(r: ApiResponse<T>, message: Seq<char>) -> bool {
    &&& !r.success
    &&& r.error matches Some(e) && e@ == message
    &&& r.data is None
}

impl<T> ApiResponse<T> {
    /// A failure inside the server, told to the client without details.
    pub fn internal_server_error() -> (r: (u16, ApiResponse<T>))
        ensures
            r.0 == STATUS_INTERNAL_SERVER_ERROR,
            failed_with(r.1, "internal server error"@),
    {
        (
            STATUS_INTERNAL_SERVER_ERROR,
            ApiResponse { success: false, error: Some(String::from_str("internal server error")), data: None },
        )
    }

    /// `data` when there is some, else that `name` was not found.
    pub fn option(data: Option<T>, name: &str) -> (r: (u16, ApiResponse<T>))
        ensures
            match data {
                Some(x) => r.0 == STATUS_OK && r.1.success && r.1.error is None && r.1.data == Some(x),
                None => r.0 == STATUS_NOT_FOUND && failed_with(r.1, name@ + " not found"@),
            },
    {
        match data {
            Some(x) => ApiResponse::ok(Some(x)),
            None => ApiResponse::not_found(name),
        }
    }

    /// A successful answer carrying `data`.
    pub fn ok(data: Option<T>) -> (r: (u16, ApiResponse<T>))
        ensures
            r.0 == STATUS_OK,
            r.1.success,
            r.1.error is None,
            r.1.data == data,
    {
        (STATUS_OK, ApiResponse { success: true, error: None, data })
    }

    /// That `name` was not found.
    pub fn not_found(name: &str) -> (r: (u16, ApiResponse<T>))
        ensures
            r.0 == STATUS_NOT_FOUND,
            failed_with(r.1, name@ + " not found"@),
    {
        let message = String::from_str(name).concat(" not found");
        (STATUS_NOT_FOUND, ApiResponse { success: false, error: Some(message), data: None })
    }

    /// That the request was malformed, for the reason `err`.
    pub fn bad_req(err: String) -> (r: (u16, ApiResponse<T>))
        ensures
            r.0 == STATUS_BAD_REQUEST,
            failed_with(r.1, err@),
    {
        (STATUS_BAD_REQUEST, ApiResponse { success: false, error: Some(err), data: None })
    }

    /// A failure inside the server while doing something; the client is
    /// told no details.
    pub fn err() -> (r: (u16, ApiResponse<T>))
        ensures
            r.0 == STATUS_INTERNAL_SERVER_ERROR,
            failed_with(r.1, "internal server error"@),
    {
        (
            STATUS_INTERNAL_SERVER_ERROR,
            ApiResponse { success: false, data: None, error: Some(String::from_str("internal server error")) },
        )
    }
}

/// The board name that the documentation page puts in its examples.
pub open spec fn placeholder_board_id() -> Seq<char> {
    "{boardId}"@
}

/// Refuses the placeholder board name of the documentation page: for it,
/// a malformed-request answer; for any other name, nothing.
pub fn check_board_id<T>(id: &str) -> (r: Option<(u16, ApiResponse<T>)>)
    ensures
        id@ == placeholder_board_id() <==> r is Some,
        r matches Some(a) ==> a.0 == STATUS_BAD_REQUEST && failed_with(a.1, "Skipping {boardId} board"@),
{
    let given = String::from_str(id);
    let placeholder = String::from_str("{boardId}");
    if given == placeholder {
        Some(ApiResponse::bad_req(String::from_str("Skipping {boardId} board")))
    } else {
        None
    }
}

} // verus!
