//! The envelope in which command handlers answer the interactive
//! application.

use vstd::prelude::*;

verus! {

/// A command outcome: a success flag, a status code, a human-readable
/// message, and the payload when there is one.
pub struct CommandResponse<T> {
    pub success: bool,
    pub code: u16,
    pub message: String,
    pub data: Option<T>,
}

/// A successful response carrying `data`.
pub fn ok_response<T>(message: String, data: Option<T>) -> (r: CommandResponse<T>)
    ensures
        r.success,
        r.code == 200,
        r.message == message,
        r.data == data,
{
    CommandResponse { success: true, code: 200, message, data }
}

/// A failed response with no payload.
pub fn error_response<T>(message: String) -> (r: CommandResponse<T>)
    ensures
        !r.success,
        r.code == 500,
        r.message == message,
        r.data is None,
{
    CommandResponse { success: false, code: 500, message, data: None }
}

} // verus!
