//! Links: bidirectional connections between notes.

use vstd::prelude::*;

use crate::external::{new_uuid, now_millis};

verus! {

/// A connection between two notes, optionally labelled.
#[derive(Debug, Clone)]
pub struct Link {
    /// The stable opaque id.
    pub id: u128,
    /// The note the link starts from.
    pub source_id: u128,
    /// The note the link points to.
    pub target_id: u128,
    /// The label, such as `related` or `blocks`.
    pub link_type: Option<String>,
    /// When the link was created, in milliseconds since the epoch.
    pub created_at: i64,
}

impl Link {
    /// Create a new link between two notes.
    pub fn new(source_id: u128, target_id: u128) -> (r: Self)
        ensures
            r.source_id == source_id,
            r.target_id == target_id,
            r.link_type is None,
    {
        Link { id: new_uuid(), source_id, target_id, link_type: None, created_at: now_millis() }
    }

    /// Label the link.
    pub fn with_type(self, link_type: String) -> (r: Self)
        ensures
            r == (Link { link_type: Some(link_type), ..self }),
    {
        Link { link_type: Some(link_type), ..self }
    }
}

} // verus!
