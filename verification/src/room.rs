//! Rooms: conceptual spaces that organize notes, possibly nested.

use vstd::prelude::*;

use crate::error::CoreError;
use crate::external::{new_uuid, now_millis};
use crate::plan_parser::{lc, lc_char, lc_seq, str_to_chars};

verus! {

/// A conceptual space for related notes.  Rooms nest through `parent_id`.
#[derive(Debug, Clone)]
pub struct Room {
    /// The stable opaque id.
    pub id: u128,
    /// The room's name.
    pub name: String,
    /// An optional description.
    pub description: Option<String>,
    /// The enclosing room, for nesting.
    pub parent_id: Option<u128>,
    /// When the room was created, in milliseconds since the epoch.
    pub created_at: i64,
    /// When the room last changed, in milliseconds since the epoch.
    pub updated_at: i64,
}

impl Room {
    /// Create a new room with the given name.
    pub fn new(name: String) -> (r: Self)
        ensures
            r.name == name,
            r.description is None,
            r.parent_id is None,
            r.created_at == r.updated_at,
    {
        let now = now_millis();
        Room {
            id: new_uuid(),
            name,
            description: None,
            parent_id: None,
            created_at: now,
            updated_at: now,
        }
    }

    /// Set the description.
    pub fn with_description(self, description: String) -> (r: Self)
        ensures
            r == (Room { description: Some(description), ..self }),
    {
        Room { description: Some(description), ..self }
    }

    /// Set the parent room for nesting.
    pub fn with_parent(self, parent_id: u128) -> (r: Self)
        ensures
            r == (Room { parent_id: Some(parent_id), ..self }),
    {
        Room { parent_id: Some(parent_id), ..self }
    }

    /// Rename the room and record the change time.
    pub fn rename(&mut self, name: String)
        ensures
            *final(self) == (Room { name, updated_at: final(self).updated_at, ..*old(self) }),
    {
        self.name = name;
        self.updated_at = now_millis();
    }
}

/// Resolve a room by name, compared without regard to ASCII letter case; the
/// first room with that name wins.
pub fn find_room(rooms: &Vec<Room>, name: &str) -> (r: Result<usize, CoreError>)
    ensures
        r matches Ok(j) ==> 0 <= j < rooms@.len() && lc_seq(rooms@[j as int].name@) == lc_seq(name@)
            && (forall|i: int| 0 <= i < j ==> lc_seq((#[trigger] rooms@[i]).name@) != lc_seq(name@)),
        r is Err <==> (forall|i: int|
            0 <= i < rooms@.len() ==> lc_seq((#[trigger] rooms@[i]).name@) != lc_seq(name@)),
        r matches Err(e) ==> e is NotFound,
{
    let n = rooms.len();
    let mut i: usize = 0;
    while i < n
        invariant
            0 <= i <= n == rooms@.len(),
            forall|k: int| 0 <= k < i ==> lc_seq((#[trigger] rooms@[k]).name@) != lc_seq(name@),
        decreases n - i,
    {
        if eq_ignore_case(rooms[i].name.as_str(), name) {
            return Ok(i);
        }
        i = i + 1;
    }
    Err(CoreError::NotFound(String::from_str("no room has that name")))
}

/// Whether two strings are equal once ASCII case is ignored.
fn eq_ignore_case(a: &str, b: &str) -> (r: bool)
    ensures
        r == (lc_seq(a@) == lc_seq(b@)),
{
    let va = str_to_chars(a);
    let vb = str_to_chars(b);
    let n = va.len();
    if vb.len() != n {
        proof {
            assert(lc_seq(a@).len() != lc_seq(b@).len());
        }
        return false;
    }
    let mut i: usize = 0;
    while i < n
        invariant
            0 <= i <= n == a@.len() == b@.len(),
            va@ == a@,
            vb@ == b@,
            forall|k: int| 0 <= k < i ==> lc(a@[k]) == lc(b@[k]),
        decreases n - i,
    {
        if lc_char(va[i]) != lc_char(vb[i]) {
            proof {
                assert(lc_seq(a@)[i as int] != lc_seq(b@)[i as int]);
            }
            return false;
        }
        i = i + 1;
    }
    proof {
        assert(lc_seq(a@) =~= lc_seq(b@));
    }
    true
}

} // verus!
