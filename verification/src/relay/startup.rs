//! How the relay reports a startup failure: as plain text, for a container
//! log.

use vstd::prelude::*;
use crate::text::push_str;

verus! {

/// What the relay says of a step that failed as it started: the step, then
/// what went wrong.
pub fn startup(context: &str, e: &str) -> (r: String)
    ensures
        r@ == context@ + ": "@ + e@,
{
    let mut r = String::from_str(context);
    push_str(&mut r, ": ");
    push_str(&mut r, e);
    r
}

} // verus!
