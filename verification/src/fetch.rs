//! What a background fetch hands back when a client looks for its result.

use vstd::prelude::*;

verus! {

/// The outcome of checking on a background fetch once: nothing yet, the
/// fetched value, the fetch's error message, or the fetch having stopped
/// without answering.
pub enum Delivery<T> {
    Pending,
    Arrived(T),
    Failed(String),
    Stopped,
}

/// The text of an optional string (`unwrap_or_default`).
pub open spec fn opt_text(s: Option<String>) -> Seq<char> {
    match s {
        Some(t) => t@,
        None => Seq::empty(),
    }
}

/// An owned copy of an optional string's text, or the empty string.
pub fn text_or_default(s: &Option<String>) -> (r: String)
    ensures
        r@ == opt_text(*s),
{
    match s {
        Some(t) => t.clone(),
        None => String::new(),
    }
}

} // verus!
