//! The calls that every service answers. What they decide is here; reading
//! the caller and the stored bytes is left to the service.

use crate::common::errors::{get_error_code, BooleanActorResponse, CommonError};
use vstd::prelude::*;

verus! {

/// Whether a state may be loaded: only in a build made for development, and
/// only by the owner of the system.
pub fn load_state_guard(dev_env: bool, caller_is_system_owner: bool) -> (allowed: Result<
    (),
    CommonError,
>)
    ensures
        !dev_env ==> allowed == Err::<(), CommonError>(CommonError::Unknown),
        dev_env && !caller_is_system_owner ==> allowed == Err::<(), CommonError>(
            CommonError::PermissionDenied,
        ),
        dev_env && caller_is_system_owner ==> allowed is Ok,
{
    if !dev_env {
        return Err(CommonError::Unknown);
    }
    if !caller_is_system_owner {
        return Err(CommonError::PermissionDenied);
    }
    Ok(())
}

/// The answer to a call that loads a state, once the stored bytes have been
/// decoded or have failed to decode.
pub fn load_state_response(decoded: bool) -> (response: BooleanActorResponse)
    ensures
        decoded ==> response == BooleanActorResponse::Success(true),
        !decoded ==> response.renders(Err(CommonError::Unknown)),
{
    if decoded {
        BooleanActorResponse::Success(true)
    } else {
        BooleanActorResponse::Failure(get_error_code(CommonError::Unknown))
    }
}

} // verus!
