//! What is made of the answer of another service, once it has come back.

use crate::common::errors::{get_error_code, ActorResult, CommonError, ErrorInfo};
use crate::text::{decimal_text, push_decimal};
use vstd::prelude::*;

verus! {

/// The error that a call to another service is reported as, where the
/// service or the network rejected the call: the code and the message of the
/// rejection, kept as they came.
pub fn call_rejected(code: u32, message: String) -> (error: CommonError)
    ensures
        error == CommonError::RemoteError(ErrorInfo { code, message }),
{
    CommonError::RemoteError(ErrorInfo { code, message })
}

/// What a caller gets of a call to a service that answers with a result of
/// its own: that result, or the report of the failure of the call.
pub fn call_canister_as_actor_result<T>(result: Result<ActorResult<T>, CommonError>) -> (answer:
    ActorResult<T>)
    ensures
        match result {
            Ok(inner) => answer == inner,
            Err(error) => answer matches Err(info) && info.code == error.code_spec()
                && info.message@ == error.message_spec(),
        },
{
    match result {
        Ok(inner) => inner,
        Err(error) => Err(get_error_code(error)),
    }
}

/// What a caller gets of a call to a service that answers with a plain
/// value: that value, or the report of the failure of the call.
pub fn call_canister_as_result<T>(result: Result<T, CommonError>) -> (answer: ActorResult<T>)
    ensures
        match result {
            Ok(value) => answer == Ok::<T, ErrorInfo>(value),
            Err(error) => answer matches Err(info) && info.code == error.code_spec()
                && info.message@ == error.message_spec(),
        },
{
    match result {
        Ok(value) => Ok(value),
        Err(error) => Err(get_error_code(error)),
    }
}

/// The sentence that reports a rejected call to the management service.
pub open spec fn management_error_text(code: u8, message: Seq<char>) -> Seq<char> {
    "An error happened during the call: "@ + decimal_text(code as nat) + ": "@ + message
}

/// The sentence that reports a rejected call to the management service.
pub fn management_error(code: u8, message: &str) -> (text: String)
    ensures
        text@ == management_error_text(code, message@),
{
    let mut text = String::from_str("An error happened during the call: ");
    push_decimal(&mut text, code as u64);
    text.append(": ");
    text.append(message);
    text
}

} // verus!
