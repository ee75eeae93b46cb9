//! MinMind core: a verified domain model for a local-first knowledge tool.
//!
//! The library contains the plan-file parser and marker rewriter, the plan
//! sync engine that reconciles parsed files against stored actions, and the
//! article review state machine, together with the domain types they share.

pub mod article;
pub mod error;
mod external;
pub mod genius;
pub mod link;
pub mod note;
pub mod plan_parser;
pub mod room;
pub mod subprocess;
pub mod summary_config;
pub mod sync;
pub mod user_action;

use vstd::prelude::*;

verus! {

/// Truncate a string to at most `max_len` characters, appending `...` when
/// anything was cut off.
pub fn truncate_string(s: &str, max_len: usize) -> (r: String)
    requires
        max_len >= 3,
    ensures
        s@.len() <= max_len ==> r@ == s@,
        s@.len() > max_len ==> r@ == s@.subrange(0, max_len - 3) + "..."@,
{
    let n = s.unicode_len();
    if n > max_len {
        let head = s.substring_char(0, max_len - 3);
        let mut r = head.to_owned();
        r.append("...");
        r
    } else {
        s.to_owned()
    }
}

} // verus!
