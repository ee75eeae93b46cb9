//! Notes: the atomic unit of recorded information, kept in rooms.

use vstd::prelude::*;

use crate::external::{new_uuid, now_millis};
use crate::plan_parser::{ci_match, lc_seq, str_to_chars};

verus! {

/// The kind of a note, determining its purpose.
#[derive(Debug, Clone, Copy, PartialEq, Eq, Structural)]
pub enum NoteType {
    /// A thought to develop.
    Idea,
    /// Something to execute.
    Task,
    /// Information to recall.
    Reference,
    /// A record of what happened.
    Log,
}

/// The lowercase name of a note kind.
pub open spec fn note_type_name(t: NoteType) -> Seq<char> {
    match t {
        NoteType::Idea => "idea"@,
        NoteType::Task => "task"@,
        NoteType::Reference => "reference"@,
        NoteType::Log => "log"@,
    }
}

/// The note kind a name denotes, compared without regard to letter case.
pub open spec fn note_type_of_name(s: Seq<char>) -> Option<NoteType> {
    let l = lc_seq(s);
    if l == "idea"@ {
        Some(NoteType::Idea)
    } else if l == "task"@ {
        Some(NoteType::Task)
    } else if l == "reference"@ {
        Some(NoteType::Reference)
    } else if l == "log"@ {
        Some(NoteType::Log)
    } else {
        None
    }
}

impl NoteType {
    /// The lowercase name of this kind.
    pub fn as_str(&self) -> (r: &'static str)
        ensures
            r@ == note_type_name(*self),
    {
        match self {
            NoteType::Idea => "idea",
            NoteType::Task => "task",
            NoteType::Reference => "reference",
            NoteType::Log => "log",
        }
    }
}

/// Read a note kind from its name.
pub fn parse_note_type(s: &str) -> (r: Result<NoteType, String>)
    ensures
        note_type_of_name(s@) matches Some(t) ==> r == Ok::<NoteType, String>(t),
        note_type_of_name(s@) is None ==> (r matches Err(m) && m@ == "Unknown note type: "@ + s@),
{
    let v = str_to_chars(s);
    let n = v.len();
    proof {
        assert(v@.subrange(0, n as int) =~= s@);
    }
    if ci_match(&v, 0, n, "idea") {
        Ok(NoteType::Idea)
    } else if ci_match(&v, 0, n, "task") {
        Ok(NoteType::Task)
    } else if ci_match(&v, 0, n, "reference") {
        Ok(NoteType::Reference)
    } else if ci_match(&v, 0, n, "log") {
        Ok(NoteType::Log)
    } else {
        let mut m = String::from_str("Unknown note type: ");
        m.append(s);
        Err(m)
    }
}

impl core::str::FromStr for NoteType {
    type Err = String;

    fn from_str(s: &str) -> Result<NoteType, String> {
        parse_note_type(s)
    }
}

/// The status of an actionable note.
#[derive(Debug, Clone, Copy, PartialEq, Eq, Structural)]
pub enum Status {
    Active,
    Completed,
    Archived,
}

/// The lowercase name of a note status.
pub open spec fn note_status_name(st: Status) -> Seq<char> {
    match st {
        Status::Active => "active"@,
        Status::Completed => "completed"@,
        Status::Archived => "archived"@,
    }
}

/// The note status a name denotes, compared without regard to letter case.
pub open spec fn note_status_of_name(s: Seq<char>) -> Option<Status> {
    let l = lc_seq(s);
    if l == "active"@ {
        Some(Status::Active)
    } else if l == "completed"@ {
        Some(Status::Completed)
    } else if l == "archived"@ {
        Some(Status::Archived)
    } else {
        None
    }
}

impl Status {
    /// The lowercase name of this status.
    pub fn as_str(&self) -> (r: &'static str)
        ensures
            r@ == note_status_name(*self),
    {
        match self {
            Status::Active => "active",
            Status::Completed => "completed",
            Status::Archived => "archived",
        }
    }
}

/// Read a note status from its name.
pub fn parse_note_status(s: &str) -> (r: Result<Status, String>)
    ensures
        note_status_of_name(s@) matches Some(t) ==> r == Ok::<Status, String>(t),
        note_status_of_name(s@) is None ==> (r matches Err(m) && m@ == "Unknown status: "@ + s@),
{
    let v = str_to_chars(s);
    let n = v.len();
    proof {
        assert(v@.subrange(0, n as int) =~= s@);
    }
    if ci_match(&v, 0, n, "active") {
        Ok(Status::Active)
    } else if ci_match(&v, 0, n, "completed") {
        Ok(Status::Completed)
    } else if ci_match(&v, 0, n, "archived") {
        Ok(Status::Archived)
    } else {
        let mut m = String::from_str("Unknown status: ");
        m.append(s);
        Err(m)
    }
}

impl core::str::FromStr for Status {
    type Err = String;

    fn from_str(s: &str) -> Result<Status, String> {
        parse_note_status(s)
    }
}

/// A note in a room.
#[derive(Debug, Clone)]
pub struct Note {
    /// The stable opaque id.
    pub id: u128,
    /// The room the note lives in.
    pub room_id: u128,
    /// The note's title.
    pub title: String,
    /// The note's body.
    pub content: String,
    /// What kind of note this is.
    pub note_type: NoteType,
    /// The status, for actionable notes.
    pub status: Option<Status>,
    /// When the note was created, in milliseconds since the epoch.
    pub created_at: i64,
    /// When the note was last changed, in milliseconds since the epoch.
    pub updated_at: i64,
}

impl Note {
    /// Create a new note in a room, with an empty body.
    pub fn new(room_id: u128, title: String, note_type: NoteType) -> (r: Self)
        ensures
            r.room_id == room_id,
            r.title == title,
            r.content@ == Seq::<char>::empty(),
            r.note_type == note_type,
            r.status is None,
            r.created_at == r.updated_at,
    {
        let now = now_millis();
        Note {
            id: new_uuid(),
            room_id,
            title,
            content: String::new(),
            note_type,
            status: None,
            created_at: now,
            updated_at: now,
        }
    }

    /// Set the body of this note.
    pub fn with_content(self, content: String) -> (r: Self)
        ensures
            r == (Note { content, ..self }),
    {
        Note { content, ..self }
    }

    /// Set the status of this note.
    pub fn with_status(self, status: Status) -> (r: Self)
        ensures
            r == (Note { status: Some(status), ..self }),
    {
        Note { status: Some(status), ..self }
    }

    /// Replace the body and record the change time.
    pub fn update_content(&mut self, content: String)
        ensures
            *final(self) == (Note { content, updated_at: final(self).updated_at, ..*old(self) }),
    {
        self.content = content;
        self.updated_at = now_millis();
    }

    /// Mark an actionable note as completed.
    pub fn complete(&mut self)
        ensures
            *final(self) == (Note {
                status: Some(Status::Completed),
                updated_at: final(self).updated_at,
                ..*old(self)
            }),
    {
        self.status = Some(Status::Completed);
        self.updated_at = now_millis();
    }

    /// Archive this note.
    pub fn archive(&mut self)
        ensures
            *final(self) == (Note {
                status: Some(Status::Archived),
                updated_at: final(self).updated_at,
                ..*old(self)
            }),
    {
        self.status = Some(Status::Archived);
        self.updated_at = now_millis();
    }
}

} // verus!
