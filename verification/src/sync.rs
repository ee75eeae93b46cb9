//! The plan sync engine.
//!
//! `reconcile_file` compares one parsed plan file against the stored actions
//! for that file and decides which rows to create and which to update; the
//! caller persists the decisions.  Stored actions are keyed by their line
//! number; rows whose line no longer appears in the file are left alone, and
//! rows that reached a terminal status are never touched.

use vstd::prelude::*;

use crate::error::CoreError;
use crate::external::{now_millis, uuid_text, uuid_text_of};
use crate::plan_parser::{str_to_chars, ParseResult, ParsedAction};
use crate::user_action::{is_terminal, ActionStatus, UserAction};

verus! {

// ---------------------------------------------------------------------------
// Looking actions up by line
// ---------------------------------------------------------------------------

/// Whether some stored action is anchored to line `ln`.
pub open spec fn has_line(es: Seq<UserAction>, ln: u32) -> bool {
    exists|i: int| 0 <= i < es.len() && es[i].line_number == Some(ln)
}

/// The index of the action anchored to line `ln` (unique when line numbers
/// are unique).
pub open spec fn idx_of_line(es: Seq<UserAction>, ln: u32) -> int {
    choose|i: int| 0 <= i < es.len() && es[i].line_number == Some(ln)
}

/// No two stored actions share a line number: the logical key is unique.
pub open spec fn unique_lines(es: Seq<UserAction>) -> bool {
    forall|i: int, j: int|
        0 <= i < j < es.len() && (#[trigger] es[i]).line_number is Some ==> es[i].line_number != (
        #[trigger] es[j]).line_number
}

/// Every stored action holds its own invariant.
pub open spec fn all_wf(es: Seq<UserAction>) -> bool {
    forall|i: int| 0 <= i < es.len() ==> (#[trigger] es[i]).wf()
}

/// With unique lines, the index found for a line is the only one.
pub proof fn lemma_line_lookup(es: Seq<UserAction>, ln: u32, j: int)
    requires
        unique_lines(es),
        0 <= j < es.len(),
        es[j].line_number == Some(ln),
    ensures
        has_line(es, ln),
        idx_of_line(es, ln) == j,
{
    let i = idx_of_line(es, ln);
    if i != j {
        if i < j {
            assert(es[i].line_number != es[j].line_number);
        } else {
            assert(es[j].line_number != es[i].line_number);
        }
    }
}

fn find_by_line(existing: &Vec<UserAction>, ln: u32) -> (r: Option<usize>)
    ensures
        r is Some <==> has_line(existing@, ln),
        r matches Some(j) ==> 0 <= j < existing@.len() && existing@[j as int].line_number == Some(
            ln,
        ),
{
    let n = existing.len();
    let mut i: usize = 0;
    while i < n
        invariant
            0 <= i <= n == existing@.len(),
            forall|k: int| 0 <= k < i ==> (#[trigger] existing@[k]).line_number != Some(ln),
        decreases n - i,
    {
        let found = match existing[i].line_number {
            Some(l) => l == ln,
            None => false,
        };
        if found {
            return Some(i);
        }
        i = i + 1;
    }
    proof {
        assert(!has_line(existing@, ln));
    }
    None
}

// ---------------------------------------------------------------------------
// Reconciliation decisions
// ---------------------------------------------------------------------------

/// A parsed action is new when no stored action sits on its line.
pub open spec fn is_new(p: ParsedAction, es: Seq<UserAction>) -> bool {
    !has_line(es, p.line_number)
}

/// A parsed action updates its matched row when that row is not terminal and
/// the file disagrees with it on the title or the status.
pub open spec fn is_update(p: ParsedAction, es: Seq<UserAction>) -> bool {
    &&& has_line(es, p.line_number)
    &&& !is_terminal(es[idx_of_line(es, p.line_number)].status)
    &&& (es[idx_of_line(es, p.line_number)].title@ != p.title@ || es[idx_of_line(
        es,
        p.line_number,
    )].status != p.status)
}

/// The parsed actions that become fresh rows, in file order.
pub open spec fn creations(ps: Seq<ParsedAction>, es: Seq<UserAction>) -> Seq<ParsedAction>
    decreases ps.len(),
{
    if ps.len() == 0 {
        Seq::empty()
    } else {
        creations(ps.drop_last(), es) + (if is_new(ps.last(), es) {
            seq![ps.last()]
        } else {
            Seq::empty()
        })
    }
}

/// The (stored row, parsed action) pairs that become updates, in file order.
pub open spec fn updated_pairs(ps: Seq<ParsedAction>, es: Seq<UserAction>) -> Seq<
    (UserAction, ParsedAction),
>
    decreases ps.len(),
{
    if ps.len() == 0 {
        Seq::empty()
    } else {
        updated_pairs(ps.drop_last(), es) + (if !is_new(ps.last(), es) && is_update(
            ps.last(),
            es,
        ) {
            seq![(es[idx_of_line(es, ps.last().line_number)], ps.last())]
        } else {
            Seq::empty()
        })
    }
}

/// What a freshly created row must look like: the parsed action's title,
/// line and status under the file's path, everything else blank, and the
/// completion time recorded exactly for a completed status.  The id and the
/// timestamps are the only data the caller cannot predict.
pub open spec fn creation_matches(u: UserAction, p: ParsedAction, src: Seq<char>) -> bool {
    &&& u.title@ == p.title@
    &&& u.source_file matches Some(f) && f@ == src
    &&& u.line_number == Some(p.line_number)
    &&& u.status == p.status
    &&& u.plan_id is None
    &&& u.description is None
    &&& u.wf()
}

/// What an updated row must look like: the stored row with the file's title
/// and status written in, identity and history untouched, invariant kept.
pub open spec fn update_matches(u: UserAction, e: UserAction, p: ParsedAction) -> bool {
    &&& u.id == e.id
    &&& u.plan_id == e.plan_id
    &&& u.source_file == e.source_file
    &&& u.line_number == e.line_number
    &&& u.title@ == p.title@
    &&& u.description == e.description
    &&& u.status == p.status
    &&& u.created_at == e.created_at
    &&& u.wf()
}

/// Every parsed action is examined once and decides at most one write.
proof fn lemma_decision_counts(ps: Seq<ParsedAction>, es: Seq<UserAction>)
    ensures
        creations(ps, es).len() + updated_pairs(ps, es).len() <= ps.len(),
    decreases ps.len(),
{
    if ps.len() > 0 {
        lemma_decision_counts(ps.drop_last(), es);
    }
}

/// What one reconciliation run wants to write.
pub struct FileReconciliation {
    /// Fresh rows for parsed actions that matched nothing.
    pub to_create: Vec<UserAction>,
    /// Replacement rows for matched, non-terminal rows the file disagrees
    /// with.
    pub to_update: Vec<UserAction>,
}

/// Clone a stored action field by field.
fn clone_action(e: &UserAction) -> (r: UserAction)
    ensures
        r == *e,
{
    UserAction {
        id: e.id,
        plan_id: e.plan_id,
        source_file: match &e.source_file {
            Some(s) => Some(s.clone()),
            None => None,
        },
        line_number: e.line_number,
        title: e.title.clone(),
        description: match &e.description {
            Some(s) => Some(s.clone()),
            None => None,
        },
        status: e.status,
        created_at: e.created_at,
        completed_at: e.completed_at,
    }
}

/// Reconcile one parsed plan file against the stored actions of that file.
///
/// For each parsed action: a row on the same line that is terminal is left
/// alone; one that disagrees on title or status is rewritten from the file;
/// a line with no row gets a fresh one.  Rows on lines the file no longer
/// names are not touched, and nothing is ever deleted.
pub fn reconcile_file(parsed: &ParseResult, existing: &Vec<UserAction>) -> (r: FileReconciliation)
    requires
        unique_lines(existing@),
        all_wf(existing@),
    ensures
        r.to_create@.len() == creations(parsed.actions@, existing@).len(),
        forall|i: int|
            0 <= i < r.to_create@.len() ==> creation_matches(
                #[trigger] r.to_create@[i],
                creations(parsed.actions@, existing@)[i],
                parsed.source_file@,
            ),
        r.to_update@.len() == updated_pairs(parsed.actions@, existing@).len(),
        forall|i: int|
            0 <= i < r.to_update@.len() ==> update_matches(
                #[trigger] r.to_update@[i],
                updated_pairs(parsed.actions@, existing@)[i].0,
                updated_pairs(parsed.actions@, existing@)[i].1,
            ),
        r.to_create@.len() + r.to_update@.len() <= parsed.actions@.len(),
        reconciliation_matches(
            parsed.actions@,
            existing@,
            parsed.source_file@,
            r.to_create@,
            r.to_update@,
        ),
{
    let ghost ps = parsed.actions@;
    let ghost es = existing@;
    let mut to_create: Vec<UserAction> = Vec::new();
    let mut to_update: Vec<UserAction> = Vec::new();
    let n = parsed.actions.len();
    let mut i: usize = 0;
    while i < n
        invariant
            0 <= i <= n == ps.len(),
            ps == parsed.actions@,
            es == existing@,
            unique_lines(es),
            all_wf(es),
            to_create@.len() == creations(ps.take(i as int), es).len(),
            forall|k: int|
                0 <= k < to_create@.len() ==> creation_matches(
                    #[trigger] to_create@[k],
                    creations(ps.take(i as int), es)[k],
                    parsed.source_file@,
                ),
            to_update@.len() == updated_pairs(ps.take(i as int), es).len(),
            forall|k: int|
                0 <= k < to_update@.len() ==> update_matches(
                    #[trigger] to_update@[k],
                    updated_pairs(ps.take(i as int), es)[k].0,
                    updated_pairs(ps.take(i as int), es)[k].1,
                ),
        decreases n - i,
    {
        proof {
            assert(ps.take(i + 1 as int).drop_last() =~= ps.take(i as int));
            assert(ps.take(i + 1 as int).last() == ps[i as int]);
        }
        let p = &parsed.actions[i];
        match find_by_line(existing, p.line_number) {
            Some(j) => {
                proof {
                    lemma_line_lookup(es, p.line_number, j as int);
                }
                let e = &existing[j];
                if !e.is_done() && (!string_eq(&e.title, &p.title) || !status_eq(
                    e.status,
                    p.status,
                )) {
                    let mut u = clone_action(e);
                    u.title = p.title.clone();
                    u.status = p.status;
                    u.completed_at = if matches!(p.status, ActionStatus::Completed) {
                        Some(now_millis())
                    } else {
                        None
                    };
                    to_update.push(u);
                    proof {
                        assert(updated_pairs(ps.take(i + 1 as int), es) =~= updated_pairs(
                            ps.take(i as int),
                            es,
                        ) + seq![(es[idx_of_line(es, ps[i as int].line_number)], ps[i as int])]);
                        assert(creations(ps.take(i + 1 as int), es) =~= creations(
                            ps.take(i as int),
                            es,
                        ));
                    }
                } else {
                    proof {
                        assert(!is_new(ps[i as int], es));
                        assert(!is_update(ps[i as int], es));
                        assert(updated_pairs(ps.take(i + 1 as int), es) =~= updated_pairs(
                            ps.take(i as int),
                            es,
                        ));
                        assert(creations(ps.take(i + 1 as int), es) =~= creations(
                            ps.take(i as int),
                            es,
                        ));
                    }
                }
            },
            None => {
                let mut u = UserAction::from_plan(
                    p.title.clone(),
                    parsed.source_file.clone(),
                    p.line_number,
                );
                u.status = p.status;
                u.completed_at = if matches!(p.status, ActionStatus::Completed) {
                    Some(now_millis())
                } else {
                    None
                };
                to_create.push(u);
                proof {
                    assert(is_new(ps[i as int], es));
                    assert(creations(ps.take(i + 1 as int), es) =~= creations(ps.take(i as int), es)
                        + seq![ps[i as int]]);
                    assert(updated_pairs(ps.take(i + 1 as int), es) =~= updated_pairs(
                        ps.take(i as int),
                        es,
                    ));
                }
            },
        }
        i = i + 1;
    }
    proof {
        assert(ps.take(n as int) =~= ps);
        lemma_decision_counts(ps, es);
    }
    FileReconciliation { to_create, to_update }
}

// ---------------------------------------------------------------------------
// The store, as the sync engine changes it
// ---------------------------------------------------------------------------

/// One stored row after the writes: replaced by the update that names its
/// line, if any, and kept otherwise.
pub open spec fn applied_row(e: UserAction, updates: Seq<UserAction>) -> UserAction {
    match e.line_number {
        Some(ln) => if has_line(updates, ln) {
            updates[idx_of_line(updates, ln)]
        } else {
            e
        },
        None => e,
    }
}

/// The stored actions of one file after a reconciliation's writes: every row
/// stays (possibly rewritten), and the fresh rows are added.
pub open spec fn apply_file_sync(
    es: Seq<UserAction>,
    creates: Seq<UserAction>,
    updates: Seq<UserAction>,
) -> Seq<UserAction> {
    es.map_values(|e: UserAction| applied_row(e, updates)) + creates
}

/// The bond between a reconciliation's output and its inputs, exactly as
/// `reconcile_file` promises it.
pub open spec fn reconciliation_matches(
    ps: Seq<ParsedAction>,
    es: Seq<UserAction>,
    src: Seq<char>,
    creates: Seq<UserAction>,
    updates: Seq<UserAction>,
) -> bool {
    &&& creates.len() == creations(ps, es).len()
    &&& forall|i: int|
        0 <= i < creates.len() ==> creation_matches(#[trigger] creates[i], creations(ps, es)[i], src)
    &&& updates.len() == updated_pairs(ps, es).len()
    &&& forall|i: int|
        0 <= i < updates.len() ==> update_matches(
            #[trigger] updates[i],
            updated_pairs(ps, es)[i].0,
            updated_pairs(ps, es)[i].1,
        )
}

/// Every planned creation comes from a parsed action that matched no row.
proof fn lemma_creations_elem(ps: Seq<ParsedAction>, es: Seq<UserAction>, k: int)
    requires
        0 <= k < creations(ps, es).len(),
    ensures
        exists|p: int|
            0 <= p < ps.len() && is_new(#[trigger] ps[p], es) && creations(ps, es)[k] == ps[p],
    decreases ps.len(),
{
    if ps.len() > 0 {
        let pre = creations(ps.drop_last(), es);
        if k < pre.len() {
            lemma_creations_elem(ps.drop_last(), es, k);
            let p = choose|p: int|
                0 <= p < ps.drop_last().len() && is_new(#[trigger] ps.drop_last()[p], es)
                    && pre[k] == ps.drop_last()[p];
            assert(ps.drop_last()[p] == ps[p]);
            assert(is_new(ps[p], es) && creations(ps, es)[k] == ps[p]);
        } else {
            assert(is_new(ps[ps.len() - 1], es) && creations(ps, es)[k] == ps[ps.len() - 1]);
        }
    }
}

/// Every parsed action that matched no row is planned as a creation.
proof fn lemma_creations_complete(ps: Seq<ParsedAction>, es: Seq<UserAction>, p: int)
    requires
        0 <= p < ps.len(),
        is_new(ps[p], es),
    ensures
        exists|k: int| 0 <= k < creations(ps, es).len() && #[trigger] creations(ps, es)[k] == ps[p],
    decreases ps.len(),
{
    if p == ps.len() - 1 {
        assert(creations(ps, es)[creations(ps, es).len() - 1] == ps[p]);
    } else {
        assert(ps.drop_last()[p] == ps[p]);
        lemma_creations_complete(ps.drop_last(), es, p);
        let k = choose|k: int|
            0 <= k < creations(ps.drop_last(), es).len() && #[trigger] creations(
                ps.drop_last(),
                es,
            )[k] == ps[p];
        assert(creations(ps, es)[k] == ps[p]);
    }
}

/// Every planned update comes from a parsed action that matched a live row
/// it disagrees with.
proof fn lemma_updated_pairs_elem(ps: Seq<ParsedAction>, es: Seq<UserAction>, k: int)
    requires
        0 <= k < updated_pairs(ps, es).len(),
    ensures
        exists|p: int|
            0 <= p < ps.len() && is_update(#[trigger] ps[p], es) && updated_pairs(ps, es)[k] == (
            es[idx_of_line(es, ps[p].line_number)],
            ps[p],
            ),
    decreases ps.len(),
{
    if ps.len() > 0 {
        let pre = updated_pairs(ps.drop_last(), es);
        if k < pre.len() {
            lemma_updated_pairs_elem(ps.drop_last(), es, k);
            let p = choose|p: int|
                0 <= p < ps.drop_last().len() && is_update(#[trigger] ps.drop_last()[p], es)
                    && pre[k] == (es[idx_of_line(es, ps.drop_last()[p].line_number)], ps.drop_last()[p]);
            assert(ps.drop_last()[p] == ps[p]);
            assert(is_update(ps[p], es) && updated_pairs(ps, es)[k] == (
                es[idx_of_line(es, ps[p].line_number)],
                ps[p],
            ));
        } else {
            let p = ps.len() - 1;
            assert(is_update(ps[p], es) && updated_pairs(ps, es)[k] == (
                es[idx_of_line(es, ps[p].line_number)],
                ps[p],
            ));
        }
    }
}

/// Every parsed action that matched a live row it disagrees with is planned
/// as an update.
proof fn lemma_updated_pairs_complete(ps: Seq<ParsedAction>, es: Seq<UserAction>, p: int)
    requires
        0 <= p < ps.len(),
        is_update(ps[p], es),
    ensures
        exists|k: int|
            0 <= k < updated_pairs(ps, es).len() && #[trigger] updated_pairs(ps, es)[k] == (
            es[idx_of_line(es, ps[p].line_number)],
            ps[p],
            ),
    decreases ps.len(),
{
    if p == ps.len() - 1 {
        let n = updated_pairs(ps, es).len();
        assert(updated_pairs(ps, es)[n - 1] == (es[idx_of_line(es, ps[p].line_number)], ps[p]));
    } else {
        assert(ps.drop_last()[p] == ps[p]);
        lemma_updated_pairs_complete(ps.drop_last(), es, p);
        let k = choose|k: int|
            0 <= k < updated_pairs(ps.drop_last(), es).len() && #[trigger] updated_pairs(
                ps.drop_last(),
                es,
            )[k] == (es[idx_of_line(es, ps[p].line_number)], ps[p]);
        assert(updated_pairs(ps, es)[k] == (es[idx_of_line(es, ps[p].line_number)], ps[p]));
    }
}

/// Terminal rows are never touched by a sync: whatever the file says, a row
/// whose status is Completed or Skipped comes out of the writes unchanged.
pub proof fn lemma_terminal_stickiness(
    ps: Seq<ParsedAction>,
    es: Seq<UserAction>,
    src: Seq<char>,
    creates: Seq<UserAction>,
    updates: Seq<UserAction>,
    j: int,
)
    requires
        unique_lines(es),
        reconciliation_matches(ps, es, src, creates, updates),
        0 <= j < es.len(),
        is_terminal(es[j].status),
    ensures
        apply_file_sync(es, creates, updates)[j] == es[j],
{
    match es[j].line_number {
        Option::None => {},
        Option::Some(ln) => if has_line(updates, ln) {
            let k = idx_of_line(updates, ln);
            assert(0 <= k < updates.len() && updates[k].line_number == Some(ln));
            lemma_updated_pairs_elem(ps, es, k);
            let p = choose|p: int|
                0 <= p < ps.len() && is_update(#[trigger] ps[p], es) && updated_pairs(ps, es)[k]
                    == (es[idx_of_line(es, ps[p].line_number)], ps[p]);
            assert(updates[k].line_number == updated_pairs(ps, es)[k].0.line_number);
            assert(es[idx_of_line(es, ps[p].line_number)].line_number == Some(ps[p].line_number));
            assert(ps[p].line_number == ln);
            lemma_line_lookup(es, ln, j);
            assert(!is_terminal(es[j].status));
        }
    }
}

/// Rows whose line the file no longer names are preserved by a sync exactly
/// as they were: nothing is deleted and nothing stale is rewritten.
pub proof fn lemma_no_orphan_deletion(
    ps: Seq<ParsedAction>,
    es: Seq<UserAction>,
    src: Seq<char>,
    creates: Seq<UserAction>,
    updates: Seq<UserAction>,
    j: int,
)
    requires
        unique_lines(es),
        reconciliation_matches(ps, es, src, creates, updates),
        0 <= j < es.len(),
        forall|p: int|
            0 <= p < ps.len() ==> Some((#[trigger] ps[p]).line_number) != es[j].line_number,
    ensures
        apply_file_sync(es, creates, updates).len() == es.len() + creates.len(),
        apply_file_sync(es, creates, updates)[j] == es[j],
{
    match es[j].line_number {
        Option::None => {},
        Option::Some(ln) => if has_line(updates, ln) {
            let k = idx_of_line(updates, ln);
            assert(0 <= k < updates.len() && updates[k].line_number == Some(ln));
            lemma_updated_pairs_elem(ps, es, k);
            let p = choose|p: int|
                0 <= p < ps.len() && is_update(#[trigger] ps[p], es) && updated_pairs(ps, es)[k]
                    == (es[idx_of_line(es, ps[p].line_number)], ps[p]);
            assert(es[idx_of_line(es, ps[p].line_number)].line_number == Some(ps[p].line_number));
            assert(Some(ps[p].line_number) == es[j].line_number);
        }
    }
}

/// Applying updates never moves a row to another line.
proof fn lemma_applied_row_line(e: UserAction, updates: Seq<UserAction>)
    ensures
        applied_row(e, updates).line_number == e.line_number,
{
    match e.line_number {
        Option::None => {},
        Option::Some(ln) => {
            if has_line(updates, ln) {
                let k = idx_of_line(updates, ln);
                assert(0 <= k < updates.len() && updates[k].line_number == Some(ln));
            }
        },
    }
}

/// A parse none of whose actions is new or disagreeing decides nothing.
proof fn lemma_no_decisions(ps: Seq<ParsedAction>, es: Seq<UserAction>)
    requires
        forall|p: int| 0 <= p < ps.len() ==> !is_new(#[trigger] ps[p], es) && !is_update(ps[p], es),
    ensures
        creations(ps, es).len() == 0,
        updated_pairs(ps, es).len() == 0,
    decreases ps.len(),
{
    if ps.len() > 0 {
        assert(ps.drop_last().len() == ps.len() - 1);
        assert(forall|p: int| 0 <= p < ps.len() - 1 ==> #[trigger] ps.drop_last()[p] == ps[p]);
        lemma_no_decisions(ps.drop_last(), es);
        assert(ps.last() == ps[ps.len() - 1]);
    }
}

/// Syncing the same parse twice changes nothing the second time: once a
/// reconciliation's writes are stored, reconciling the unchanged file again
/// plans zero creations and zero updates.
pub proof fn lemma_sync_idempotent(
    ps: Seq<ParsedAction>,
    es: Seq<UserAction>,
    src: Seq<char>,
    creates: Seq<UserAction>,
    updates: Seq<UserAction>,
)
    requires
        unique_lines(es),
        all_wf(es),
        forall|p: int, q: int|
            0 <= p < q < ps.len() ==> (#[trigger] ps[p]).line_number != (
            #[trigger] ps[q]).line_number,
        reconciliation_matches(ps, es, src, creates, updates),
    ensures
        creations(ps, apply_file_sync(es, creates, updates)).len() == 0,
        updated_pairs(ps, apply_file_sync(es, creates, updates)).len() == 0,
{
    let es2 = apply_file_sync(es, creates, updates);
    assert(es2.len() == es.len() + creates.len());
    assert(forall|j: int|
        0 <= j < es.len() ==> #[trigger] es2[j] == applied_row(es[j], updates));
    assert forall|p: int| 0 <= p < ps.len() implies !is_new(#[trigger] ps[p], es2) && !is_update(
        ps[p],
        es2,
    ) by {
        let ln = ps[p].line_number;
        // the line is present in the stored rows after the writes
        if is_new(ps[p], es) {
            lemma_creations_complete(ps, es, p);
            let k = choose|k: int|
                0 <= k < creations(ps, es).len() && #[trigger] creations(ps, es)[k] == ps[p];
            assert(creates[k].line_number == Some(ln));
            assert(es2[es.len() + k] == creates[k]);
            assert(has_line(es2, ln));
        } else {
            let j = idx_of_line(es, ln);
            assert(0 <= j < es.len() && es[j].line_number == Some(ln));
            lemma_applied_row_line(es[j], updates);
            assert(es2[j].line_number == Some(ln));
            assert(has_line(es2, ln));
        }
        // and every stored row on that line now agrees with the file or is
        // terminal, so nothing further is planned
        assert forall|i: int| 0 <= i < es2.len() && (#[trigger] es2[i]).line_number == Some(ln)
            implies (is_terminal(es2[i].status) || (es2[i].title@ == ps[p].title@ && es2[i].status
            == ps[p].status)) by {
            if i < es.len() {
                lemma_applied_row_line(es[i], updates);
                assert(es[i].line_number == Some(ln));
                lemma_line_lookup(es, ln, i);
                if has_line(updates, ln) {
                    let k = idx_of_line(updates, ln);
                    assert(0 <= k < updates.len() && updates[k].line_number == Some(ln));
                    lemma_updated_pairs_elem(ps, es, k);
                    let q = choose|q: int|
                        0 <= q < ps.len() && is_update(#[trigger] ps[q], es) && updated_pairs(
                            ps,
                            es,
                        )[k] == (es[idx_of_line(es, ps[q].line_number)], ps[q]);
                    assert(es[idx_of_line(es, ps[q].line_number)].line_number == Some(
                        ps[q].line_number,
                    ));
                    assert(updates[k].line_number == Some(ps[q].line_number));
                    assert(ps[q].line_number == ln);
                    if p != q {
                        if p < q {
                            assert(ps[p].line_number != ps[q].line_number);
                        } else {
                            assert(ps[q].line_number != ps[p].line_number);
                        }
                    }
                    assert(q == p);
                    lemma_line_lookup(es, ln, i);
                    assert(updated_pairs(ps, es)[k].0 == es[i]);
                    assert(update_matches(updates[k], es[i], ps[p]));
                    assert(es2[i] == updates[k]);
                    assert(es2[i].title@ == ps[p].title@ && es2[i].status == ps[p].status);
                } else {
                    assert(es2[i] == es[i]);
                    if !is_terminal(es[i].status) {
                        // the row was matched and left alone, so it already agreed
                        if is_update(ps[p], es) {
                            lemma_updated_pairs_complete(ps, es, p);
                            let k = choose|k: int|
                                0 <= k < updated_pairs(ps, es).len() && #[trigger] updated_pairs(
                                    ps,
                                    es,
                                )[k] == (es[idx_of_line(es, ps[p].line_number)], ps[p]);
                            assert(updates[k].line_number == es[idx_of_line(
                                es,
                                ps[p].line_number,
                            )].line_number);
                            assert(updates[k].line_number == Some(ln));
                            assert(has_line(updates, ln));
                        }
                        assert(!is_update(ps[p], es));
                        assert(idx_of_line(es, ln) == i);
                        assert(es[i].title@ == ps[p].title@ && es[i].status == ps[p].status);
                    }
                }
            } else {
                let k = i - es.len();
                assert(es2[i] == creates[k]);
                lemma_creations_elem(ps, es, k);
                let q = choose|q: int|
                    0 <= q < ps.len() && is_new(#[trigger] ps[q], es) && creations(ps, es)[k]
                        == ps[q];
                assert(creates[k].line_number == Some(ps[q].line_number));
                assert(ps[q].line_number == ln);
                if p != q {
                    if p < q {
                        assert(ps[p].line_number != ps[q].line_number);
                    } else {
                        assert(ps[q].line_number != ps[p].line_number);
                    }
                }
                assert(q == p);
                assert(es2[i].title@ == ps[p].title@ && es2[i].status == ps[p].status);
            }
        }
        assert(!is_new(ps[p], es2));
        if is_update(ps[p], es2) {
            let i = idx_of_line(es2, ln);
            assert(0 <= i < es2.len() && es2[i].line_number == Some(ln));
        }
    }
    lemma_no_decisions(ps, es2);
}

/// Carry out a reconciliation's writes against an in-memory row set: the
/// mirror of what the caller's store performs row by row.
pub fn apply_reconciliation(existing: &Vec<UserAction>, r: &FileReconciliation) -> (out: Vec<
    UserAction,
>)
    requires
        unique_lines(r.to_update@),
    ensures
        out@ == apply_file_sync(existing@, r.to_create@, r.to_update@),
{
    let ghost target = apply_file_sync(existing@, r.to_create@, r.to_update@);
    let mut out: Vec<UserAction> = Vec::new();
    let n = existing.len();
    let mut j: usize = 0;
    while j < n
        invariant
            0 <= j <= n == existing@.len(),
            unique_lines(r.to_update@),
            target == apply_file_sync(existing@, r.to_create@, r.to_update@),
            out@.len() == j,
            forall|i: int| 0 <= i < j ==> #[trigger] out@[i] == target[i],
        decreases n - j,
    {
        let e = &existing[j];
        let replacement = match e.line_number {
            Some(ln) => find_by_line(&r.to_update, ln),
            None => None,
        };
        match replacement {
            Some(k) => {
                proof {
                    let ln = existing@[j as int].line_number.unwrap();
                    lemma_line_lookup(r.to_update@, ln, k as int);
                }
                out.push(clone_action(&r.to_update[k]));
            },
            None => {
                out.push(clone_action(e));
            },
        }
        proof {
            assert(out@[j as int] == target[j as int]);
        }
        j = j + 1;
    }
    let m = r.to_create.len();
    let mut k: usize = 0;
    while k < m
        invariant
            0 <= k <= m == r.to_create@.len(),
            n == existing@.len(),
            target == apply_file_sync(existing@, r.to_create@, r.to_update@),
            out@.len() == n + k,
            forall|i: int| 0 <= i < n + k ==> #[trigger] out@[i] == target[i],
        decreases m - k,
    {
        out.push(clone_action(&r.to_create[k]));
        k = k + 1;
    }
    proof {
        assert(out@ =~= target);
    }
    out
}

// ---------------------------------------------------------------------------
// Resolving an action by id or id prefix
// ---------------------------------------------------------------------------

/// Whether a query names an action: the query is a prefix of the action's
/// hyphenated id text (the full text is its own prefix).
pub open spec fn id_matches(e: UserAction, q: Seq<char>) -> bool {
    q.is_prefix_of(uuid_text_of(e.id))
}

/// Whether the first sequence starts the second.
pub(crate) fn is_prefix(q: &Vec<char>, s: &str) -> (r: bool)
    ensures
        r == q@.is_prefix_of(s@),
{
    let n = s.unicode_len();
    let ql = q.len();
    if ql > n {
        return false;
    }
    let mut i: usize = 0;
    while i < ql
        invariant
            0 <= i <= ql == q@.len() <= n == s@.len(),
            forall|k: int| 0 <= k < i ==> q@[k] == s@[k],
        decreases ql - i,
    {
        if q[i] != s.get_char(i) {
            proof {
                assert(s@.subrange(0, ql as int)[i as int] == s@[i as int]);
            }
            return false;
        }
        i = i + 1;
    }
    proof {
        assert(s@.subrange(0, ql as int) =~= q@);
    }
    true
}

/// Resolve a query against a list of actions: the query must be the full id
/// text or a prefix of it that names exactly one action.  No match is
/// NotFound; more than one is Ambiguous.
pub fn find_user_action(actions: &Vec<UserAction>, query: &str) -> (r: Result<usize, CoreError>)
    ensures
        r matches Ok(j) ==> 0 <= j < actions@.len() && id_matches(actions@[j as int], query@)
            && (forall|i: int|
            0 <= i < actions@.len() && i != j ==> !id_matches(#[trigger] actions@[i], query@)),
        (r matches Err(e) && e is NotFound) <==> (forall|i: int|
            0 <= i < actions@.len() ==> !id_matches(#[trigger] actions@[i], query@)),
        (r matches Err(e) && e is Ambiguous) <==> (exists|i: int, j: int|
            0 <= i < j < actions@.len() && id_matches(#[trigger] actions@[i], query@)
                && id_matches(#[trigger] actions@[j], query@)),
        r matches Err(e) ==> e is NotFound || e is Ambiguous,
{
    let q = str_to_chars(query);
    let n = actions.len();
    let mut first: Option<usize> = None;
    let mut i: usize = 0;
    while i < n
        invariant
            0 <= i <= n == actions@.len(),
            q@ == query@,
            first matches Some(a) ==> 0 <= a < i && id_matches(actions@[a as int], query@) && (
            forall|k: int|
                0 <= k < i && k != a ==> !id_matches(#[trigger] actions@[k], query@)),
            first is None ==> forall|k: int|
                0 <= k < i ==> !id_matches(#[trigger] actions@[k], query@),
        decreases n - i,
    {
        let text = uuid_text(actions[i].id);
        if is_prefix(&q, text.as_str()) {
            match first {
                Some(a) => {
                    return Err(
                        CoreError::Ambiguous(
                            String::from_str("more than one action matches that id prefix"),
                        ),
                    );
                },
                None => {
                    first = Some(i);
                },
            }
        }
        i = i + 1;
    }
    match first {
        Some(a) => Ok(a),
        None => Err(CoreError::NotFound(String::from_str("no action matches that id"))),
    }
}

/// String equality by contents.
fn string_eq(a: &String, b: &String) -> (r: bool)
    ensures
        r == (a@ == b@),
{
    a.eq(b)
}

/// Status equality.
fn status_eq(a: ActionStatus, b: ActionStatus) -> (r: bool)
    ensures
        r == (a == b),
{
    a == b
}

} // verus!

