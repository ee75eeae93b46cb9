use minmind::plan_parser::{
    parse_plan_content, parse_user_marker, update_line_marker, update_plan_markers,
};
use minmind::truncate_string;
use minmind::user_action::ActionStatus;

#[test]
fn test_parse_user_marker() {
    let cases = vec![
        ("- [USER] Configure API keys", Some((ActionStatus::Pending, "Configure API keys"))),
        ("- [USER:wip] Working on it", Some((ActionStatus::InProgress, "Working on it"))),
        ("- [USER:done] Completed task", Some((ActionStatus::Completed, "Completed task"))),
        ("- [USER:skip] Not needed", Some((ActionStatus::Skipped, "Not needed"))),
        ("- [ ] Regular checkbox", None),
        ("- [x] Checked item", None),
        ("Some regular text", None),
        ("  - [USER] Indented action", Some((ActionStatus::Pending, "Indented action"))),
    ];

    for (line, expected) in cases {
        let result = parse_user_marker(line, 1);
        match expected {
            Some((status, title)) => {
                let parsed = result.expect(&format!("Expected to parse: {}", line));
                assert_eq!(parsed.status, status, "Status mismatch for: {}", line);
                assert_eq!(parsed.title, title, "Title mismatch for: {}", line);
            }
            None => {
                assert!(result.is_none(), "Should not parse: {}", line);
            }
        }
    }
}

#[test]
fn test_parse_plan_content() {
    let content = r#"# Plan 001

## Overview
Some description

## Implementation Steps
- [ ] AI does this
- [USER] Configure API keys
- [ ] More AI work
- [USER:done] Review the design
- [USER] Approve deployment
"#;

    let result = parse_plan_content(content, "plans/001-test.md");
    assert_eq!(result.source_file, "plans/001-test.md");
    assert_eq!(result.actions.len(), 3);

    assert_eq!(result.actions[0].title, "Configure API keys");
    assert_eq!(result.actions[0].status, ActionStatus::Pending);
    assert_eq!(result.actions[0].line_number, 8);

    assert_eq!(result.actions[1].title, "Review the design");
    assert_eq!(result.actions[1].status, ActionStatus::Completed);

    assert_eq!(result.actions[2].title, "Approve deployment");
    assert_eq!(result.actions[2].status, ActionStatus::Pending);
}

#[test]
fn test_update_plan_markers() {
    let content = "- [USER] Task one\n- [USER] Task two\n- [USER:wip] Task three";

    let updates = vec![(1, ActionStatus::Completed), (3, ActionStatus::Skipped)];

    let updated = update_plan_markers(content, &updates);

    assert!(updated.contains("[USER:done] Task one"));
    assert!(updated.contains("[USER] Task two")); // Unchanged
    assert!(updated.contains("[USER:skip] Task three"));
}

#[test]
fn test_into_user_actions() {
    let content = "- [USER] Test action";
    let result = parse_plan_content(content, "test.md");
    let actions = result.into_user_actions();

    assert_eq!(actions.len(), 1);
    assert_eq!(actions[0].title, "Test action");
    assert_eq!(actions[0].source_file.as_deref(), Some("test.md"));
    assert_eq!(actions[0].line_number, Some(1));
}

#[test]
fn rewrite_with_no_updates_is_byte_identical() {
    let contents = [
        "",
        "plain text, no markers",
        "- [USER] one\n- [USER:done] two\n",
        "crlf line\r\nsecond\r\n",
        "mixed\r\nlf only\nlast without terminator",
        "trailing spaces kept   \n\t indented\n",
    ];
    for content in contents {
        let rewritten = update_plan_markers(content, &vec![]);
        assert_eq!(rewritten, content, "changed: {:?}", content);
    }
}

#[test]
fn rewrite_is_idempotent() {
    let content = "# Plan\r\n- [user:wip] Alpha\r\n- [USER] Beta\nplain\n- [USER:skip] Gamma";
    let updates = vec![
        (2, ActionStatus::Completed),
        (3, ActionStatus::InProgress),
        (5, ActionStatus::Pending),
    ];
    let once = update_plan_markers(content, &updates);
    let twice = update_plan_markers(&once, &updates);
    assert_eq!(twice, once);
}

#[test]
fn parse_rewrite_roundtrip_preserves_parse() {
    let content = "# Plan\r\n- [User:Done] Review\r\n- [USER] Configure\n  - [user:skip] Drop it\nno marker here\n";
    let parsed = parse_plan_content(content, "p.md");
    let updates: Vec<(u32, ActionStatus)> =
        parsed.actions.iter().map(|a| (a.line_number, a.status)).collect();
    let rewritten = update_plan_markers(content, &updates);
    let reparsed = parse_plan_content(&rewritten, "p.md");
    assert_eq!(reparsed.actions.len(), parsed.actions.len());
    for (a, b) in parsed.actions.iter().zip(reparsed.actions.iter()) {
        assert_eq!(a.title, b.title);
        assert_eq!(a.line_number, b.line_number);
        assert_eq!(a.status, b.status);
    }
    // the rewritten markers are canonical
    assert!(rewritten.contains("- [USER:done] Review\r\n"));
    assert!(rewritten.contains("- [USER] Configure\n"));
    assert!(rewritten.contains("  - [USER:skip] Drop it\n"));
}

#[test]
fn non_marker_lines_survive_rewrites() {
    let content = "# Heading\nplain prose line\n- [ ] checkbox\n- [USER] real marker\n";
    let updates = vec![
        (1, ActionStatus::Completed),
        (2, ActionStatus::Completed),
        (3, ActionStatus::Completed),
        (4, ActionStatus::Completed),
    ];
    let rewritten = update_plan_markers(content, &updates);
    assert!(rewritten.starts_with("# Heading\nplain prose line\n- [ ] checkbox\n"));
    assert!(rewritten.contains("- [USER:done] real marker\n"));
}

#[test]
fn parse_is_case_insensitive() {
    let a = parse_user_marker("- [USER:DONE] Ship it", 7).unwrap();
    let b = parse_user_marker("- [user:done] Ship it", 7).unwrap();
    let c = parse_user_marker("- [User:Done] Ship it", 7).unwrap();
    assert_eq!(a.status, ActionStatus::Completed);
    assert_eq!(b.status, ActionStatus::Completed);
    assert_eq!(c.status, ActionStatus::Completed);
    assert_eq!(a.title, "Ship it");
    assert_eq!(b.title, "Ship it");
    assert_eq!(c.title, "Ship it");
    assert_eq!(a.line_number, 7);
    assert_eq!(b.line_number, 7);
    assert_eq!(c.line_number, 7);
}

#[test]
fn parse_mixed_file_example() {
    let content = "# Plan\n- [ ] AI does this\n- [USER] Configure API keys\n- [USER:done] Review design\n- [USER]\n";
    let result = parse_plan_content(content, "plan.md");
    assert_eq!(result.actions.len(), 2);
    assert_eq!(result.actions[0].title, "Configure API keys");
    assert_eq!(result.actions[0].status, ActionStatus::Pending);
    assert_eq!(result.actions[0].line_number, 3);
    assert_eq!(result.actions[1].title, "Review design");
    assert_eq!(result.actions[1].status, ActionStatus::Completed);
    assert_eq!(result.actions[1].line_number, 4);
}

#[test]
fn unknown_user_token_falls_back_to_pending() {
    let parsed = parse_user_marker("- [USER:someday] Maybe later", 1).unwrap();
    assert_eq!(parsed.status, ActionStatus::Pending);
    assert_eq!(parsed.title, "Maybe later");
}

#[test]
fn marker_without_close_or_title_is_ignored() {
    assert!(parse_user_marker("- [USER no close bracket", 1).is_none());
    assert!(parse_user_marker("- [USER]   ", 1).is_none());
    assert!(parse_user_marker("", 1).is_none());
}

#[test]
fn update_line_marker_keeps_surrounding_bytes() {
    let line = "  - [user:wip] Fix the hinge   ";
    let updated = update_line_marker(line, ActionStatus::Completed);
    assert_eq!(updated, "  - [USER:done] Fix the hinge   ");
    // a line without a closed marker is returned unchanged
    assert_eq!(update_line_marker("nothing here", ActionStatus::Completed), "nothing here");
}

#[test]
fn whitespace_beyond_ascii_is_trimmed() {
    // a no-break space indents the marker and pads the title
    let parsed = parse_user_marker("\u{00A0}- [USER] keep me\u{00A0}\u{2009}", 1).unwrap();
    assert_eq!(parsed.title, "keep me");
    assert_eq!(parsed.status, ActionStatus::Pending);

    // a title that is nothing but such whitespace is no title at all
    assert!(parse_user_marker("- [USER] \u{00A0}\u{000B}", 1).is_none());
}

#[test]
fn later_update_for_the_same_line_wins() {
    let content = "- [USER] Task one";
    let updates = vec![(1, ActionStatus::Completed), (1, ActionStatus::Skipped)];
    let updated = update_plan_markers(content, &updates);
    assert_eq!(updated, "- [USER:skip] Task one");
}

#[test]
fn truncate_string_behaviour() {
    assert_eq!(truncate_string("short", 10), "short");
    assert_eq!(truncate_string("exactly10!", 10), "exactly10!");
    assert_eq!(truncate_string("a much longer sentence", 10), "a much ...");
}
