//! What the host platform reports about the process's permissions.

use vstd::prelude::*;

verus! {

/// Whether the application may read the user's selection.
///
/// `prompt_result` is what the platform's accessibility prompt answered, or
/// `None` on a platform that has no such prompt: there nothing needs to be
/// granted.
pub fn query_accessibility_permissions(prompt_result: Option<bool>) -> (trusted: bool)
    ensures
        trusted == match prompt_result {
            Some(answer) => answer,
            None => true,
        },
{
    match prompt_result {
        Some(answer) => answer,
        None => true,
    }
}

} // verus!
