use vstd::prelude::*;
use vstd::string::StringExecFns;

use crate::error::WebError;

verus! {

/// Where the visitor goes once the session was (or could not be) cleared:
/// the login form, or an error.
pub fn post(cleared: bool) -> (r: Result<&'static str, WebError>)
    ensures
        cleared ==> (r matches Ok(p) && p@ == "/login"@),
        !cleared ==> (r matches Err(WebError::BadRequest(m)) && m@ == "Failed to clear session"@),
{
    if cleared {
        Ok("/login")
    } else {
        Err(WebError::BadRequest(String::from_str("Failed to clear session")))
    }
}

} // verus!
