use minmind::error::CoreError;
use minmind::plan_parser::{parse_plan_content, update_plan_markers};
use minmind::sync::{apply_reconciliation, find_user_action, reconcile_file};
use minmind::user_action::{ActionStatus, UserAction};

fn sample_file() -> &'static str {
    "# Plan\n- [ ] AI does this\n- [USER] Configure API keys\n- [USER:done] Review design\n- [USER]\n"
}

#[test]
fn first_sync_creates_rows() {
    let parsed = parse_plan_content(sample_file(), "plans/001.md");
    let existing: Vec<UserAction> = Vec::new();
    let rec = reconcile_file(&parsed, &existing);

    // counts: {found: 2, new: 2, updated: 0}
    assert_eq!(parsed.actions.len(), 2);
    assert_eq!(rec.to_create.len(), 2);
    assert_eq!(rec.to_update.len(), 0);

    let a = &rec.to_create[0];
    assert_eq!(a.title, "Configure API keys");
    assert_eq!(a.status, ActionStatus::Pending);
    assert_eq!(a.source_file.as_deref(), Some("plans/001.md"));
    assert_eq!(a.line_number, Some(3));
    assert!(a.completed_at.is_none());

    let b = &rec.to_create[1];
    assert_eq!(b.title, "Review design");
    assert_eq!(b.status, ActionStatus::Completed);
    assert_eq!(b.line_number, Some(4));
    assert!(b.completed_at.is_some());
}

#[test]
fn second_sync_changes_nothing() {
    let parsed = parse_plan_content(sample_file(), "plans/001.md");
    let rec = reconcile_file(&parsed, &Vec::new());
    let stored = apply_reconciliation(&Vec::new(), &rec);

    let again = reconcile_file(&parsed, &stored);
    assert_eq!(again.to_create.len(), 0);
    assert_eq!(again.to_update.len(), 0);
}

#[test]
fn resync_after_title_edit_updates_one_row() {
    let parsed = parse_plan_content(sample_file(), "plans/001.md");
    let rec = reconcile_file(&parsed, &Vec::new());
    let stored = apply_reconciliation(&Vec::new(), &rec);

    let edited = sample_file().replace(
        "- [USER] Configure API keys",
        "- [USER] Configure API keys and tokens",
    );
    let reparsed = parse_plan_content(&edited, "plans/001.md");
    assert_eq!(reparsed.actions.len(), 2);

    let rec2 = reconcile_file(&reparsed, &stored);
    assert_eq!(rec2.to_create.len(), 0);
    assert_eq!(rec2.to_update.len(), 1);
    let u = &rec2.to_update[0];
    assert_eq!(u.title, "Configure API keys and tokens");
    assert_eq!(u.status, ActionStatus::Pending);
    assert_eq!(u.line_number, Some(3));
    // the completed row at line 4 is untouched
    let stored2 = apply_reconciliation(&stored, &rec2);
    let done = stored2.iter().find(|a| a.line_number == Some(4)).unwrap();
    assert_eq!(done.status, ActionStatus::Completed);
    assert_eq!(done.title, "Review design");
}

#[test]
fn terminal_rows_are_sticky() {
    let parsed = parse_plan_content(sample_file(), "plans/001.md");
    let rec = reconcile_file(&parsed, &Vec::new());
    let stored = apply_reconciliation(&Vec::new(), &rec);

    // the user edits the completed line 4 back to a pending marker
    let edited = sample_file().replace("- [USER:done] Review design", "- [USER] Review design");
    let reparsed = parse_plan_content(&edited, "plans/001.md");
    assert_eq!(reparsed.actions.len(), 2);

    let rec2 = reconcile_file(&reparsed, &stored);
    // counts: {found: 2, new: 0, updated: 0}
    assert_eq!(rec2.to_create.len(), 0);
    assert_eq!(rec2.to_update.len(), 0);
    let stored2 = apply_reconciliation(&stored, &rec2);
    let done = stored2.iter().find(|a| a.line_number == Some(4)).unwrap();
    assert_eq!(done.status, ActionStatus::Completed);
    assert!(done.completed_at.is_some());
}

#[test]
fn rows_for_vanished_lines_are_kept() {
    let parsed = parse_plan_content(sample_file(), "plans/001.md");
    let rec = reconcile_file(&parsed, &Vec::new());
    let stored = apply_reconciliation(&Vec::new(), &rec);

    // the file shrinks to a single marker on line 1
    let reparsed = parse_plan_content("- [USER] Only survivor\n", "plans/001.md");
    let rec2 = reconcile_file(&reparsed, &stored);
    let stored2 = apply_reconciliation(&stored, &rec2);

    // nothing was deleted: the two old rows are still there, unchanged
    assert_eq!(stored2.len(), 3);
    assert!(stored2.iter().any(|a| a.line_number == Some(3) && a.title == "Configure API keys"));
    assert!(stored2.iter().any(|a| a.line_number == Some(4) && a.title == "Review design"));
}

#[test]
fn file_may_promote_a_row_to_done() {
    let parsed = parse_plan_content("- [USER] Ship release\n", "p.md");
    let rec = reconcile_file(&parsed, &Vec::new());
    let stored = apply_reconciliation(&Vec::new(), &rec);
    assert_eq!(stored[0].status, ActionStatus::Pending);

    let reparsed = parse_plan_content("- [USER:done] Ship release\n", "p.md");
    let rec2 = reconcile_file(&reparsed, &stored);
    assert_eq!(rec2.to_update.len(), 1);
    assert_eq!(rec2.to_update[0].status, ActionStatus::Completed);
    assert!(rec2.to_update[0].completed_at.is_some());
    assert_eq!(rec2.to_update[0].id, stored[0].id);
}

#[test]
fn new_and_updated_never_exceed_found() {
    let parsed = parse_plan_content(
        "- [USER] a\n- [USER:wip] b\n- [USER:done] c\n- [USER:skip] d\n",
        "p.md",
    );
    let rec = reconcile_file(&parsed, &Vec::new());
    assert!(rec.to_create.len() + rec.to_update.len() <= parsed.actions.len());
    let stored = apply_reconciliation(&Vec::new(), &rec);
    let rec2 = reconcile_file(&parsed, &stored);
    assert!(rec2.to_create.len() + rec2.to_update.len() <= parsed.actions.len());
    assert_eq!(rec2.to_create.len() + rec2.to_update.len(), 0);
}

#[test]
fn complete_propagates_to_the_file() {
    let content = sample_file();
    let parsed = parse_plan_content(content, "plans/001.md");
    let rec = reconcile_file(&parsed, &Vec::new());
    let mut stored = apply_reconciliation(&Vec::new(), &rec);

    let idx = stored.iter().position(|a| a.line_number == Some(3)).unwrap();
    stored[idx].complete().unwrap();
    assert_eq!(stored[idx].status, ActionStatus::Completed);
    assert!(stored[idx].completed_at.is_some());

    let updated = update_plan_markers(content, &vec![(3, ActionStatus::Completed)]);
    assert_eq!(
        updated,
        "# Plan\n- [ ] AI does this\n- [USER:done] Configure API keys\n- [USER:done] Review design\n- [USER]\n"
    );
}

#[test]
fn manual_rows_are_ignored_by_sync() {
    let manual = UserAction::new("manual chore".to_string());
    let existing = vec![manual];
    let parsed = parse_plan_content("- [USER] tracked\n", "p.md");
    let rec = reconcile_file(&parsed, &existing);
    assert_eq!(rec.to_create.len(), 1);
    assert_eq!(rec.to_update.len(), 0);
    let stored = apply_reconciliation(&existing, &rec);
    assert_eq!(stored.len(), 2);
    assert_eq!(stored[0].title, "manual chore");
    assert_eq!(stored[0].status, ActionStatus::Pending);
}

#[test]
fn id_resolution_by_full_id_and_prefix() {
    let a = UserAction::new("first".to_string());
    let b = UserAction::new("second".to_string());
    let full_a = uuid::Uuid::from_u128(a.id).to_string();
    let actions = vec![a, b];

    // the full id resolves
    let j = find_user_action(&actions, &full_a).unwrap();
    assert_eq!(actions[j].title, "first");

    // a short unique prefix resolves to the same row
    let j2 = find_user_action(&actions, &full_a[..8]).unwrap();
    assert_eq!(j2, j);

    // no row matches a query that is no prefix of either id
    let miss = find_user_action(&actions, "zzzzzzzzzz");
    assert!(matches!(miss, Err(CoreError::NotFound(_))));

    // every id starts with the empty prefix, so it is ambiguous
    let ambiguous = find_user_action(&actions, "");
    assert!(matches!(ambiguous, Err(CoreError::Ambiguous(_))));
}
