//! User actions: tasks extracted from plan files or added by hand.

use vstd::prelude::*;

use crate::error::CoreError;
use crate::external::{new_uuid, now_millis};
use crate::plan_parser::{ci_match, lc_seq, str_to_chars};

verus! {

/// The status of a user action.
#[derive(Debug, Clone, Copy, PartialEq, Eq, Structural)]
pub enum ActionStatus {
    /// Not yet started.
    Pending,
    /// Currently being worked on.
    InProgress,
    /// Successfully completed.
    Completed,
    /// Intentionally skipped.
    Skipped,
}

/// Completed and Skipped are terminal: the sync engine never mutates a row
/// that reached one of them.
pub open spec fn is_terminal(st: ActionStatus) -> bool {
    st == ActionStatus::Completed || st == ActionStatus::Skipped
}

/// The lowercase name of a status, as stored and displayed.
pub open spec fn status_name(st: ActionStatus) -> Seq<char> {
    match st {
        ActionStatus::Pending => "pending"@,
        ActionStatus::InProgress => "in_progress"@,
        ActionStatus::Completed => "completed"@,
        ActionStatus::Skipped => "skipped"@,
    }
}

/// The canonical marker the rewriter emits for a status.
pub open spec fn canon_marker(st: ActionStatus) -> Seq<char> {
    match st {
        ActionStatus::Pending => "[USER]"@,
        ActionStatus::InProgress => "[USER:wip]"@,
        ActionStatus::Completed => "[USER:done]"@,
        ActionStatus::Skipped => "[USER:skip]"@,
    }
}

/// The status a name denotes, compared without regard to letter case.
pub open spec fn status_of_name(s: Seq<char>) -> Option<ActionStatus> {
    let l = lc_seq(s);
    if l == "pending"@ {
        Some(ActionStatus::Pending)
    } else if l == "in_progress"@ || l == "inprogress"@ {
        Some(ActionStatus::InProgress)
    } else if l == "completed"@ || l == "done"@ {
        Some(ActionStatus::Completed)
    } else if l == "skipped"@ || l == "skip"@ {
        Some(ActionStatus::Skipped)
    } else {
        None
    }
}

/// Read a status from its name, as `str::parse` sees it.
pub fn parse_action_status(s: &str) -> (r: Result<ActionStatus, String>)
    ensures
        status_of_name(s@) matches Some(st) ==> r == Ok::<ActionStatus, String>(st),
        status_of_name(s@) is None ==> (r matches Err(m) && m@ == "Unknown action status: "@ + s@),
{
    let v = str_to_chars(s);
    let n = v.len();
    proof {
        assert(v@.subrange(0, n as int) =~= s@);
    }
    if ci_match(&v, 0, n, "pending") {
        Ok(ActionStatus::Pending)
    } else if ci_match(&v, 0, n, "in_progress") || ci_match(&v, 0, n, "inprogress") {
        Ok(ActionStatus::InProgress)
    } else if ci_match(&v, 0, n, "completed") || ci_match(&v, 0, n, "done") {
        Ok(ActionStatus::Completed)
    } else if ci_match(&v, 0, n, "skipped") || ci_match(&v, 0, n, "skip") {
        Ok(ActionStatus::Skipped)
    } else {
        let mut m = String::from_str("Unknown action status: ");
        m.append(s);
        Err(m)
    }
}

impl core::str::FromStr for ActionStatus {
    type Err = String;

    fn from_str(s: &str) -> Result<ActionStatus, String> {
        parse_action_status(s)
    }
}

impl ActionStatus {
    /// The lowercase name of this status.
    pub fn as_str(&self) -> (r: &'static str)
        ensures
            r@ == status_name(*self),
    {
        match self {
            ActionStatus::Pending => "pending",
            ActionStatus::InProgress => "in_progress",
            ActionStatus::Completed => "completed",
            ActionStatus::Skipped => "skipped",
        }
    }

    /// The canonical markdown marker for this status.
    pub fn marker(&self) -> (r: &'static str)
        ensures
            r@ == canon_marker(*self),
    {
        match self {
            ActionStatus::Pending => "[USER]",
            ActionStatus::InProgress => "[USER:wip]",
            ActionStatus::Completed => "[USER:done]",
            ActionStatus::Skipped => "[USER:skip]",
        }
    }

    /// Whether this status is terminal for the sync engine.
    pub fn is_done(&self) -> (r: bool)
        ensures
            r == is_terminal(*self),
    {
        match self {
            ActionStatus::Completed => true,
            ActionStatus::Skipped => true,
            _ => false,
        }
    }
}

/// A task that requires human intervention, extracted from a plan file or
/// added by hand.
#[derive(Debug, Clone)]
pub struct UserAction {
    /// The stable opaque id, assigned at first ingestion.
    pub id: u128,
    /// Optional link to a plan note.
    pub plan_id: Option<u128>,
    /// The plan file the action was parsed from, if any.
    pub source_file: Option<String>,
    /// The 1-based line the action stands on in that file.
    pub line_number: Option<u32>,
    /// The action title.
    pub title: String,
    /// An optional longer description.
    pub description: Option<String>,
    /// Where the action stands.
    pub status: ActionStatus,
    /// When the action was created, in milliseconds since the epoch.
    pub created_at: i64,
    /// When the action was completed; set exactly while it is Completed.
    pub completed_at: Option<i64>,
}

impl UserAction {
    /// The invariant every action holds: the completion time is recorded
    /// exactly when the action is Completed.
    pub open spec fn wf(&self) -> bool {
        self.completed_at is Some <==> self.status == ActionStatus::Completed
    }

    /// Create a new manual action with the given title.
    pub fn new(title: String) -> (r: Self)
        ensures
            r.title == title,
            r.status == ActionStatus::Pending,
            r.plan_id is None,
            r.source_file is None,
            r.line_number is None,
            r.description is None,
            r.completed_at is None,
            r.wf(),
    {
        UserAction {
            id: new_uuid(),
            plan_id: None,
            source_file: None,
            line_number: None,
            title,
            description: None,
            status: ActionStatus::Pending,
            created_at: now_millis(),
            completed_at: None,
        }
    }

    /// Create an action anchored to a line of a plan file.
    pub fn from_plan(title: String, source_file: String, line_number: u32) -> (r: Self)
        ensures
            r.title == title,
            r.status == ActionStatus::Pending,
            r.plan_id is None,
            r.source_file == Some(source_file),
            r.line_number == Some(line_number),
            r.description is None,
            r.completed_at is None,
            r.wf(),
    {
        let mut r = UserAction::new(title);
        r.source_file = Some(source_file);
        r.line_number = Some(line_number);
        r
    }

    /// Attach the plan note this action came from.
    pub fn with_plan_id(self, plan_id: u128) -> (r: Self)
        ensures
            r == (UserAction { plan_id: Some(plan_id), ..self }),
    {
        UserAction { plan_id: Some(plan_id), ..self }
    }

    /// Attach a longer description.
    pub fn with_description(self, description: String) -> (r: Self)
        ensures
            r == (UserAction { description: Some(description), ..self }),
    {
        UserAction { description: Some(description), ..self }
    }

    /// Mark this action as in progress.  Terminal actions refuse the change
    /// and stay exactly as they are.
    pub fn start(&mut self) -> (r: Result<(), CoreError>)
        ensures
            !is_terminal(old(self).status) ==> r is Ok && *final(self) == (UserAction {
                status: ActionStatus::InProgress,
                ..*old(self)
            }),
            is_terminal(old(self).status) ==> r is Err && *final(self) == *old(self),
            old(self).wf() ==> final(self).wf(),
    {
        if self.status.is_done() {
            Err(CoreError::InvalidTransition(transition_refused_message()))
        } else {
            self.status = ActionStatus::InProgress;
            Ok(())
        }
    }

    /// Mark this action as completed and record the completion time.  A
    /// completed action may be completed again (the time is taken anew), but
    /// a skipped one refuses the change.
    pub fn complete(&mut self) -> (r: Result<(), CoreError>)
        ensures
            old(self).status != ActionStatus::Skipped ==> r is Ok && final(self).status
                == ActionStatus::Completed && final(self).completed_at is Some && *final(self)
                == (UserAction {
                status: ActionStatus::Completed,
                completed_at: final(self).completed_at,
                ..*old(self)
            }),
            old(self).status == ActionStatus::Skipped ==> r is Err && *final(self) == *old(self),
            old(self).wf() ==> final(self).wf(),
    {
        if matches!(self.status, ActionStatus::Skipped) {
            Err(CoreError::InvalidTransition(transition_refused_message()))
        } else {
            self.status = ActionStatus::Completed;
            self.completed_at = Some(now_millis());
            Ok(())
        }
    }

    /// Mark this action as skipped.  A completed action refuses the change.
    pub fn skip(&mut self) -> (r: Result<(), CoreError>)
        ensures
            old(self).status != ActionStatus::Completed ==> r is Ok && *final(self) == (UserAction {
                status: ActionStatus::Skipped,
                ..*old(self)
            }),
            old(self).status == ActionStatus::Completed ==> r is Err && *final(self) == *old(self),
            old(self).wf() ==> final(self).wf(),
    {
        if matches!(self.status, ActionStatus::Completed) {
            Err(CoreError::InvalidTransition(transition_refused_message()))
        } else {
            self.status = ActionStatus::Skipped;
            Ok(())
        }
    }

    /// Whether this action is done (completed or skipped).
    pub fn is_done(&self) -> (r: bool)
        ensures
            r == is_terminal(self.status),
    {
        self.status.is_done()
    }

    /// Whether this action is still pending.
    pub fn is_pending(&self) -> (r: bool)
        ensures
            r == (self.status == ActionStatus::Pending),
    {
        matches!(self.status, ActionStatus::Pending)
    }

    /// The markdown marker for this action's status.
    pub fn marker(&self) -> (r: &'static str)
        ensures
            r@ == canon_marker(self.status),
    {
        self.status.marker()
    }
}

/// Build the action the `add` verb stores: a manual action with the given
/// title, optionally associated with a plan file (without touching the
/// file).  An empty title is rejected as invalid input.
pub fn new_manual_action(title: String, plan: Option<String>) -> (r: Result<UserAction, CoreError>)
    ensures
        title@.len() > 0 ==> (r matches Ok(a) && a.title == title && a.source_file == plan
            && a.status == ActionStatus::Pending && a.line_number is None && a.wf()),
        title@.len() == 0 ==> (r matches Err(e) && e is InvalidInput),
{
    if title.as_str().is_empty() {
        Err(CoreError::InvalidInput(String::from_str("a manual action needs a non-empty title")))
    } else {
        let mut a = UserAction::new(title);
        a.source_file = plan;
        Ok(a)
    }
}

/// The message carried by every refused status change.
fn transition_refused_message() -> String {
    String::from_str("transition refused: the action is already terminal")
}

impl Default for ActionStatus {
    /// A fresh action starts out pending.
    fn default() -> (r: Self)
        ensures
            r == ActionStatus::Pending,
    {
        ActionStatus::Pending
    }
}

} // verus!
