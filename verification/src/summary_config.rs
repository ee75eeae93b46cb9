//! Configuration for how articles are summarized: one global default, with
//! optional per-room overrides.

use vstd::prelude::*;

use crate::error::CoreError;
use crate::external::{new_uuid, now_millis, uuid_text, uuid_text_of};
use crate::plan_parser::str_to_chars;

verus! {

/// A named summarization prompt, either global or bound to one room.
#[derive(Debug, Clone)]
pub struct SummaryConfig {
    /// The stable opaque id.
    pub id: u128,
    /// A short name for the configuration.
    pub name: String,
    /// The system prompt handed to the summarizer.
    pub system_prompt: String,
    /// The room the configuration applies to; None means global.
    pub room_id: Option<u128>,
    /// Whether the configuration is in use.
    pub active: bool,
    /// When the configuration was created, in milliseconds since the epoch.
    pub created_at: i64,
}

impl SummaryConfig {
    /// Create a new global configuration, active from the start.
    pub fn new_global(name: String, system_prompt: String) -> (r: Self)
        ensures
            r.name == name,
            r.system_prompt == system_prompt,
            r.room_id is None,
            r.active,
    {
        SummaryConfig {
            id: new_uuid(),
            name,
            system_prompt,
            room_id: None,
            active: true,
            created_at: now_millis(),
        }
    }

    /// Create a new room-bound configuration, active from the start.
    pub fn new_for_room(name: String, system_prompt: String, room_id: u128) -> (r: Self)
        ensures
            r.name == name,
            r.system_prompt == system_prompt,
            r.room_id == Some(room_id),
            r.active,
    {
        SummaryConfig {
            id: new_uuid(),
            name,
            system_prompt,
            room_id: Some(room_id),
            active: true,
            created_at: now_millis(),
        }
    }

    /// Take the configuration out of use.
    pub fn deactivate(&mut self)
        ensures
            *final(self) == (SummaryConfig { active: false, ..*old(self) }),
    {
        self.active = false;
    }

    /// Put the configuration back in use.
    pub fn activate(&mut self)
        ensures
            *final(self) == (SummaryConfig { active: true, ..*old(self) }),
    {
        self.active = true;
    }

    /// Whether the configuration is the global one.
    pub fn is_global(&self) -> (r: bool)
        ensures
            r == (self.room_id is None),
    {
        matches!(self.room_id, None)
    }
}

/// Which configuration governs a room: the first active one bound to that
/// room wins; with none, the first active global one; with none of those,
/// nothing.
pub fn select_active_config(configs: &Vec<SummaryConfig>, room_id: Option<u128>) -> (r: Option<
    usize,
>)
    ensures
        r matches Some(j) ==> 0 <= j < configs@.len() && configs@[j as int].active && (
        configs@[j as int].room_id == room_id || (configs@[j as int].room_id is None && (forall|
            i: int,
        |
            0 <= i < configs@.len() ==> !((#[trigger] configs@[i]).active && configs@[i].room_id
                == room_id && configs@[i].room_id is Some)))),
        r is None ==> forall|i: int|
            0 <= i < configs@.len() ==> !((#[trigger] configs@[i]).active && (configs@[i].room_id
                == room_id || configs@[i].room_id is None)),
{
    let n = configs.len();
    if let Some(rid) = room_id {
        let mut i: usize = 0;
        while i < n
            invariant
                0 <= i <= n == configs@.len(),
                room_id == Some(rid),
                forall|k: int|
                    0 <= k < i ==> !((#[trigger] configs@[k]).active && configs@[k].room_id == Some(
                        rid,
                    )),
            decreases n - i,
        {
            let bound = match configs[i].room_id {
                Some(r) => r == rid,
                None => false,
            };
            if configs[i].active && bound {
                return Some(i);
            }
            i = i + 1;
        }
    }
    let mut i: usize = 0;
    while i < n
        invariant
            0 <= i <= n == configs@.len(),
            forall|k: int|
                0 <= k < i ==> !((#[trigger] configs@[k]).active && configs@[k].room_id is None),
            room_id is Some ==> forall|k: int|
                0 <= k < n ==> !((#[trigger] configs@[k]).active && configs@[k].room_id == room_id
                    && configs@[k].room_id is Some),
        decreases n - i,
    {
        let global = matches!(configs[i].room_id, None);
        if configs[i].active && global {
            return Some(i);
        }
        i = i + 1;
    }
    None
}

/// Whether a query names a configuration: the query is a prefix of the
/// configuration's hyphenated id text.
pub open spec fn config_id_matches(c: SummaryConfig, q: Seq<char>) -> bool {
    q.is_prefix_of(uuid_text_of(c.id))
}

/// Resolve a query against the configurations by id text or unique prefix.
pub fn find_summary_config(configs: &Vec<SummaryConfig>, query: &str) -> (r: Result<
    usize,
    CoreError,
>)
    ensures
        r matches Ok(j) ==> 0 <= j < configs@.len() && config_id_matches(
            configs@[j as int],
            query@,
        ) && (forall|i: int|
            0 <= i < configs@.len() && i != j ==> !config_id_matches(
                #[trigger] configs@[i],
                query@,
            )),
        (r matches Err(e) && e is NotFound) <==> (forall|i: int|
            0 <= i < configs@.len() ==> !config_id_matches(#[trigger] configs@[i], query@)),
        (r matches Err(e) && e is Ambiguous) <==> (exists|i: int, j: int|
            0 <= i < j < configs@.len() && config_id_matches(#[trigger] configs@[i], query@)
                && config_id_matches(#[trigger] configs@[j], query@)),
        r matches Err(e) ==> e is NotFound || e is Ambiguous,
{
    let q = str_to_chars(query);
    let n = configs.len();
    let mut first: Option<usize> = None;
    let mut i: usize = 0;
    while i < n
        invariant
            0 <= i <= n == configs@.len(),
            q@ == query@,
            first matches Some(a) ==> 0 <= a < i && config_id_matches(
                configs@[a as int],
                query@,
            ) && (forall|k: int|
                0 <= k < i && k != a ==> !config_id_matches(#[trigger] configs@[k], query@)),
            first is None ==> forall|k: int|
                0 <= k < i ==> !config_id_matches(#[trigger] configs@[k], query@),
        decreases n - i,
    {
        let text = uuid_text(configs[i].id);
        if crate::sync::is_prefix(&q, text.as_str()) {
            match first {
                Some(a) => {
                    return Err(
                        CoreError::Ambiguous(
                            String::from_str("more than one configuration matches that id prefix"),
                        ),
                    );
                },
                None => {
                    first = Some(i);
                },
            }
        }
        i = i + 1;
    }
    match first {
        Some(a) => Ok(a),
        None => Err(CoreError::NotFound(String::from_str("no configuration matches that id"))),
    }
}

/// The prompt used when no configuration is stored.
pub const DEFAULT_SUMMARY_PROMPT: &'static str = "Summarize this article for someone who learns by understanding the \"why\" first, then concrete examples.\n\nStructure your summary as:\n1. **Core Insight** - The fundamental idea or thesis (1-2 sentences)\n2. **Why It Matters** - Context and significance \n3. **Key Points** - Bullet points of main arguments/findings\n4. **Concrete Examples** - Specific examples or case studies mentioned\n5. **Actionable Takeaways** - What can be applied immediately\n\nKeep the tone conversational but precise. Focus on signal over noise.";

} // verus!
