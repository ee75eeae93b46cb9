use minmind::article::{
    approve_article, approve_target_room, find_article, render_note_body, Article, ArticleStatus,
};
use minmind::error::CoreError;
use minmind::note::NoteType;
use minmind::subprocess::{
    interpret_subprocess_output, parse_extraction_response, parse_summary_response,
};

#[test]
fn approve_creates_reference_note_and_reviews_article() {
    let mut article = Article::new("U".to_string(), "Test Article".to_string(), "C".to_string());
    article.set_summary("S".to_string()).unwrap();
    let room = 42u128;

    let (note, reviewed) = approve_article(&article, room).unwrap();

    assert_eq!(note.note_type, NoteType::Reference);
    assert_eq!(note.room_id, room);
    assert_eq!(note.title, "Test Article");
    assert!(note
        .content
        .starts_with("## Summary\n\nS\n\n## Source\n\nU\n\n## Full Content\n\nC"));
    assert_eq!(reviewed.status, ArticleStatus::Reviewed);
    assert_eq!(reviewed.id, article.id);
    assert_eq!(reviewed.summary.as_deref(), Some("S"));
}

#[test]
fn approve_without_summary_uses_plain_template() {
    let article = Article::new("U".to_string(), "T".to_string(), "C".to_string());
    let body = render_note_body(&article);
    assert_eq!(body, "## Source\n\nU\n\n## Content\n\nC");

    let (note, reviewed) = approve_article(&article, 7u128).unwrap();
    assert_eq!(note.content, "## Source\n\nU\n\n## Content\n\nC");
    assert_eq!(reviewed.status, ArticleStatus::Reviewed);
}

#[test]
fn approve_refuses_terminal_articles() {
    let mut article = Article::new("u".to_string(), "t".to_string(), "c".to_string());
    article.archive();
    assert!(matches!(approve_article(&article, 1u128), Err(CoreError::InvalidTransition(_))));
}

#[test]
fn approve_target_room_prefers_the_explicit_room() {
    assert_eq!(approve_target_room(Some(1), Some(2)).unwrap(), 1);
    assert_eq!(approve_target_room(None, Some(2)).unwrap(), 2);
    assert!(matches!(approve_target_room(None, None), Err(CoreError::InvalidInput(_))));
}

#[test]
fn articles_resolve_by_id_prefix() {
    let a = Article::new("https://a".to_string(), "A".to_string(), "".to_string());
    let full = uuid::Uuid::from_u128(a.id).to_string();
    let b = Article::new("https://b".to_string(), "B".to_string(), "".to_string());
    let articles = vec![a, b];

    let j = find_article(&articles, &full[..12]).unwrap();
    assert_eq!(articles[j].title, "A");
    assert!(matches!(find_article(&articles, "not-a-uuid"), Err(CoreError::NotFound(_))));
    assert!(matches!(find_article(&articles, ""), Err(CoreError::Ambiguous(_))));
}

#[test]
fn failed_subprocesses_surface_their_stderr() {
    let err = interpret_subprocess_output(false, b"ignored".to_vec(), "boom".to_string());
    match err {
        Err(CoreError::SubprocessFailure(m)) => assert_eq!(m, "boom"),
        other => panic!("unexpected: {:?}", other.is_ok()),
    }
    let ok = interpret_subprocess_output(true, b"payload".to_vec(), "".to_string()).unwrap();
    assert_eq!(ok, b"payload".to_vec());
}

#[test]
fn extraction_responses_are_decoded() {
    let body = br#"{"title": "A Title", "content": "Body text", "metadata": {"author": "Ann", "site_name": "Every", "description": "d"}}"#;
    let e = parse_extraction_response(&body.to_vec()).unwrap();
    assert_eq!(e.title, "A Title");
    assert_eq!(e.content, "Body text");
    assert_eq!(e.author.as_deref(), Some("Ann"));
    assert_eq!(e.site_name.as_deref(), Some("Every"));
    assert_eq!(e.description.as_deref(), Some("d"));
    assert_eq!(e.image_url, None);
}

#[test]
fn extraction_defaults_apply_when_fields_are_missing() {
    let e = parse_extraction_response(&b"{}".to_vec()).unwrap();
    assert_eq!(e.title, "Untitled");
    assert_eq!(e.content, "");
    assert_eq!(e.author, None);

    let bad = parse_extraction_response(&b"not json at all".to_vec());
    assert!(matches!(bad, Err(CoreError::SubprocessFailure(_))));
}

#[test]
fn summary_responses_are_decoded() {
    let s = parse_summary_response(&br#"{"summary": "short and sweet"}"#.to_vec()).unwrap();
    assert_eq!(s, "short and sweet");
    let empty = parse_summary_response(&b"{}".to_vec()).unwrap();
    assert_eq!(empty, "");
    let bad = parse_summary_response(&b"{oops".to_vec());
    assert!(matches!(bad, Err(CoreError::SubprocessFailure(_))));
}
