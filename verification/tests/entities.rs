use minmind::article::{Article, ArticleStatus};
use minmind::error::CoreError;
use minmind::genius::{Genius, Provider};
use minmind::link::Link;
use minmind::note::{Note, NoteType, Status};
use minmind::room::{find_room, Room};
use minmind::summary_config::{select_active_config, SummaryConfig, DEFAULT_SUMMARY_PROMPT};
use minmind::user_action::{new_manual_action, ActionStatus, UserAction};

#[test]
fn test_new_user_action() {
    let action = UserAction::new("Configure API keys".to_string());
    assert_eq!(action.title, "Configure API keys");
    assert_eq!(action.status, ActionStatus::Pending);
    assert!(action.is_pending());
    assert!(!action.is_done());
}

#[test]
fn test_from_plan() {
    let action = UserAction::from_plan(
        "Review design".to_string(),
        "plans/001-foundation.md".to_string(),
        42,
    );
    assert_eq!(action.source_file.as_deref(), Some("plans/001-foundation.md"));
    assert_eq!(action.line_number, Some(42));
}

#[test]
fn test_complete_action() {
    let mut action = UserAction::new("Do something".to_string());
    assert!(action.completed_at.is_none());

    action.complete().unwrap();

    assert_eq!(action.status, ActionStatus::Completed);
    assert!(action.completed_at.is_some());
    assert!(action.is_done());
}

#[test]
fn test_action_status_display() {
    assert_eq!(ActionStatus::Pending.as_str(), "pending");
    assert_eq!(ActionStatus::InProgress.as_str(), "in_progress");
    assert_eq!(ActionStatus::Completed.as_str(), "completed");
    assert_eq!(ActionStatus::Skipped.as_str(), "skipped");
}

#[test]
fn test_action_status_parse() {
    assert_eq!("pending".parse::<ActionStatus>().unwrap(), ActionStatus::Pending);
    assert_eq!("in_progress".parse::<ActionStatus>().unwrap(), ActionStatus::InProgress);
    assert_eq!("done".parse::<ActionStatus>().unwrap(), ActionStatus::Completed);
    assert_eq!("skip".parse::<ActionStatus>().unwrap(), ActionStatus::Skipped);
}

#[test]
fn test_marker() {
    let mut action = UserAction::new("Test".to_string());
    assert_eq!(action.marker(), "[USER]");

    action.start().unwrap();
    assert_eq!(action.marker(), "[USER:wip]");

    action.complete().unwrap();
    assert_eq!(action.marker(), "[USER:done]");
}

#[test]
fn action_transitions_guard_terminal_states() {
    let mut done = UserAction::new("finished".to_string());
    done.complete().unwrap();
    assert!(matches!(done.start(), Err(CoreError::InvalidTransition(_))));
    assert!(matches!(done.skip(), Err(CoreError::InvalidTransition(_))));
    assert_eq!(done.status, ActionStatus::Completed);

    let mut skipped = UserAction::new("not needed".to_string());
    skipped.skip().unwrap();
    assert!(matches!(skipped.complete(), Err(CoreError::InvalidTransition(_))));
    assert!(matches!(skipped.start(), Err(CoreError::InvalidTransition(_))));
    assert_eq!(skipped.status, ActionStatus::Skipped);
    assert!(skipped.completed_at.is_none());
}

#[test]
fn manual_add_rejects_empty_titles() {
    let ok = new_manual_action("water the plants".to_string(), Some("plans/x.md".to_string()))
        .unwrap();
    assert_eq!(ok.title, "water the plants");
    assert_eq!(ok.source_file.as_deref(), Some("plans/x.md"));
    assert_eq!(ok.line_number, None);

    let err = new_manual_action("".to_string(), None);
    assert!(matches!(err, Err(CoreError::InvalidInput(_))));
}

#[test]
fn status_parse_ignores_case_and_rejects_junk() {
    assert_eq!("PENDING".parse::<ActionStatus>().unwrap(), ActionStatus::Pending);
    assert_eq!("InProgress".parse::<ActionStatus>().unwrap(), ActionStatus::InProgress);
    let err = "paused".parse::<ActionStatus>().unwrap_err();
    assert_eq!(err, "Unknown action status: paused");
}

#[test]
fn test_new_article() {
    let article = Article::new(
        "https://example.com/article".to_string(),
        "Test Article".to_string(),
        "Article content here".to_string(),
    );
    assert_eq!(article.status, ArticleStatus::Pending);
    assert!(article.summary.is_none());
    assert_eq!(article.created_at, article.updated_at);
}

#[test]
fn test_article_summarization() {
    let mut article = Article::new(
        "https://example.com/article".to_string(),
        "Test Article".to_string(),
        "Article content here".to_string(),
    );
    article.set_summary("This is a summary".to_string()).unwrap();
    assert_eq!(article.status, ArticleStatus::Summarized);
    assert_eq!(article.summary.as_deref(), Some("This is a summary"));
}

#[test]
fn article_terminal_states_refuse_changes() {
    let mut article = Article::new("u".to_string(), "t".to_string(), "c".to_string());
    article.mark_reviewed().unwrap();
    assert_eq!(article.status, ArticleStatus::Reviewed);
    assert!(matches!(
        article.set_summary("late".to_string()),
        Err(CoreError::InvalidTransition(_))
    ));
    assert!(matches!(article.mark_reviewed(), Err(CoreError::InvalidTransition(_))));
    // archive is allowed from any state
    article.archive();
    assert_eq!(article.status, ArticleStatus::Archived);
}

#[test]
fn article_status_names_round_trip() {
    assert_eq!(ArticleStatus::Summarized.as_str(), "summarized");
    assert_eq!("reviewed".parse::<ArticleStatus>().unwrap(), ArticleStatus::Reviewed);
    assert_eq!("Archived".parse::<ArticleStatus>().unwrap(), ArticleStatus::Archived);
    let err = "draft".parse::<ArticleStatus>().unwrap_err();
    assert_eq!(err, "Unknown article status: draft");
}

#[test]
fn test_new_room() {
    let room = Room::new("Work".to_string());
    assert_eq!(room.name, "Work");
    assert!(room.description.is_none());
    assert!(room.parent_id.is_none());
    assert_eq!(room.created_at, room.updated_at);
}

#[test]
fn test_room_with_description() {
    let room = Room::new("Learning".to_string())
        .with_description("A place for learning new things".to_string());
    assert_eq!(room.description.as_deref(), Some("A place for learning new things"));
}

#[test]
fn rooms_resolve_by_name_ignoring_case() {
    let rooms = vec![Room::new("Work".to_string()), Room::new("Reading".to_string())];
    assert_eq!(find_room(&rooms, "reading").unwrap(), 1);
    assert_eq!(find_room(&rooms, "WORK").unwrap(), 0);
    assert!(matches!(find_room(&rooms, "garage"), Err(CoreError::NotFound(_))));
}

#[test]
fn test_new_link() {
    let source = uuid::Uuid::new_v4().as_u128();
    let target = uuid::Uuid::new_v4().as_u128();
    let link = Link::new(source, target);

    assert_eq!(link.source_id, source);
    assert_eq!(link.target_id, target);
    assert!(link.link_type.is_none());
}

#[test]
fn test_link_with_type() {
    let source = uuid::Uuid::new_v4().as_u128();
    let target = uuid::Uuid::new_v4().as_u128();
    let link = Link::new(source, target).with_type("blocks".to_string());

    assert_eq!(link.link_type.as_deref(), Some("blocks"));
}

#[test]
fn test_new_note() {
    let room_id = uuid::Uuid::new_v4().as_u128();
    let note = Note::new(room_id, "My Idea".to_string(), NoteType::Idea);
    assert_eq!(note.title, "My Idea");
    assert_eq!(note.note_type, NoteType::Idea);
    assert!(note.content.is_empty());
    assert_eq!(note.created_at, note.updated_at);
}

#[test]
fn test_task_completion() {
    let room_id = uuid::Uuid::new_v4().as_u128();
    let mut note =
        Note::new(room_id, "Do something".to_string(), NoteType::Task).with_status(Status::Active);

    assert_eq!(note.status, Some(Status::Active));
    note.complete();
    assert_eq!(note.status, Some(Status::Completed));
}

#[test]
fn test_global_config() {
    let config = SummaryConfig::new_global("Default".to_string(), DEFAULT_SUMMARY_PROMPT.to_string());
    assert!(config.is_global());
    assert!(config.active);
}

#[test]
fn test_room_config() {
    let room_id = uuid::Uuid::new_v4().as_u128();
    let config = SummaryConfig::new_for_room(
        "Technical".to_string(),
        "Summarize technically".to_string(),
        room_id,
    );
    assert!(!config.is_global());
    assert_eq!(config.room_id, Some(room_id));
}

#[test]
fn room_config_overrides_global() {
    let room_id = 77u128;
    let global = SummaryConfig::new_global("Default".to_string(), "global prompt".to_string());
    let mut bound = SummaryConfig::new_for_room(
        "Technical".to_string(),
        "room prompt".to_string(),
        room_id,
    );
    let configs = vec![global, bound.clone()];

    let picked = select_active_config(&configs, Some(room_id)).unwrap();
    assert_eq!(configs[picked].system_prompt, "room prompt");

    // with the room config inactive, the global one applies
    bound.deactivate();
    let configs2 = vec![configs[0].clone(), bound];
    let picked2 = select_active_config(&configs2, Some(room_id)).unwrap();
    assert_eq!(configs2[picked2].system_prompt, "global prompt");

    // for an unknown room, the global one applies as well
    let picked3 = select_active_config(&configs2, Some(1234u128)).unwrap();
    assert_eq!(configs2[picked3].system_prompt, "global prompt");

    assert!(select_active_config(&Vec::new(), None).is_none());
}

#[test]
fn test_new_genius() {
    let genius = Genius::new(
        "Sage".to_string(),
        Provider::Anthropic,
        "large-context-model".to_string(),
    );
    assert_eq!(genius.name, "Sage");
    assert_eq!(genius.provider, Provider::Anthropic);
    assert_eq!(genius.model, "large-context-model");
}

#[test]
fn test_genius_with_system_prompt() {
    let genius = Genius::new("Helper".to_string(), Provider::OpenAI, "gpt-4".to_string())
        .with_system_prompt("You are a helpful assistant.".to_string());

    assert_eq!(genius.system_prompt.as_deref(), Some("You are a helpful assistant."));
}
