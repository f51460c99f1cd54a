//! Acceptance rules for inbound contribution activities. The shell
//! parses the wire payload; the decisions live here.

use vstd::prelude::*;
use crate::support::str_eq;

verus! {

/// An inbound activity reaches the store only when it declares the
/// creation kind and carries an object payload.
pub open spec fn inbox_accepts(activity_type: Seq<char>, has_object: bool) -> bool {
    activity_type == "Create"@ && has_object
}

/// Decide whether an inbound activity is accepted: its kind must be
/// `"Create"` and it must carry an object payload.
pub fn validate_inbox_activity(activity_type: &str, has_object: bool) -> (r: bool)
    ensures
        r == inbox_accepts(activity_type@, has_object),
{
    str_eq(activity_type, "Create") && has_object
}

/// The resonance a contribution is given when the caller leaves it
/// unspecified: one half, in thousandths.
pub fn resonance_or_default(resonance: Option<u32>) -> (r: u32)
    ensures
        r == (match resonance {
            Some(v) => v,
            None => 500u32,
        }),
{
    match resonance {
        Some(v) => v,
        None => 500,
    }
}

} // verus!
