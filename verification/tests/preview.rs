use hacker_news::item::{Comment, FetchError, StoryItem, StoryPageData};
use hacker_news::preview::{PreviewSession, StoryPreviewState};

fn page(id: i64, title: &str) -> StoryPageData {
    StoryPageData {
        item: StoryItem {
            id,
            title: String::from(title),
            url: None,
            text: Some(String::from("body")),
            by: String::from("author"),
            descendants: 1,
            score: 3,
            kids: vec![id * 10],
            kind: String::from("story"),
            time: 1_650_000_000,
        },
        comments: vec![Comment {
            id: (id * 10) as u64,
            by: String::from("reader"),
            text: String::from("first"),
            time: 1_650_000_060,
            kids: vec![],
            sub_comments: vec![],
            kind: String::from("comment"),
        }],
    }
}

fn is_unset(session: &PreviewSession) -> bool {
    matches!(session.state(), StoryPreviewState::Unset)
}

fn is_loading(session: &PreviewSession) -> bool {
    matches!(session.state(), StoryPreviewState::Loading)
}

fn loaded(session: &PreviewSession) -> Option<StoryPageData> {
    match session.state() {
        StoryPreviewState::Loaded(data) => Some(data.clone()),
        _ => None,
    }
}

#[test]
fn session_starts_unset() {
    let session = PreviewSession::new();
    assert!(is_unset(&session));
}

#[test]
fn selection_of_an_unseen_story_loads_then_shows_it() {
    let mut session = PreviewSession::new();
    assert!(session.select_story(7));
    assert!(is_loading(&session));
    session.story_resolved(7, Ok(page(7, "seven")));
    assert_eq!(loaded(&session), Some(page(7, "seven")));
}

#[test]
fn failed_resolution_resets_the_preview() {
    let mut session = PreviewSession::new();
    assert!(session.select_story(7));
    assert!(is_loading(&session));
    session.story_resolved(7, Err(FetchError::Transport));
    assert!(is_unset(&session));
    assert!(session.select_story(7));
    session.story_resolved(7, Err(FetchError::Decode));
    assert!(is_unset(&session));
}

#[test]
fn second_selection_is_served_from_the_cache() {
    let mut session = PreviewSession::new();
    let mut fetches = 0;
    for _ in 0..2 {
        if session.select_story(7) {
            fetches += 1;
            session.story_resolved(7, Ok(page(7, "seven")));
        }
        assert_eq!(loaded(&session), Some(page(7, "seven")));
    }
    assert_eq!(fetches, 1);
}

#[test]
fn failure_is_not_cached() {
    let mut session = PreviewSession::new();
    assert!(session.select_story(7));
    session.story_resolved(7, Err(FetchError::Transport));
    assert!(session.select_story(7));
    assert!(is_loading(&session));
}

#[test]
fn cache_holds_each_story_under_its_own_id() {
    let mut session = PreviewSession::new();
    assert!(session.select_story(1));
    session.story_resolved(1, Ok(page(1, "one")));
    assert!(session.select_story(2));
    assert!(is_loading(&session));
    session.story_resolved(2, Ok(page(2, "two")));
    assert!(!session.select_story(1));
    assert_eq!(loaded(&session), Some(page(1, "one")));
    assert!(!session.select_story(2));
    assert_eq!(loaded(&session), Some(page(2, "two")));
    assert!(session.select_story(3));
    assert!(is_loading(&session));
}

#[test]
fn cache_entry_is_written_once() {
    let mut session = PreviewSession::new();
    assert!(session.select_story(1));
    session.story_resolved(1, Ok(page(1, "first answer")));
    session.story_resolved(1, Ok(page(1, "second answer")));
    assert_eq!(loaded(&session), Some(page(1, "second answer")));
    assert!(!session.select_story(1));
    assert_eq!(loaded(&session), Some(page(1, "first answer")));
}

#[test]
fn failure_leaves_the_cache_as_it_was() {
    let mut session = PreviewSession::new();
    assert!(session.select_story(1));
    session.story_resolved(1, Ok(page(1, "one")));
    session.story_resolved(1, Err(FetchError::Transport));
    assert!(is_unset(&session));
    assert!(!session.select_story(1));
    assert_eq!(loaded(&session), Some(page(1, "one")));
}

#[test]
fn late_report_overwrites_the_preview() {
    let mut session = PreviewSession::new();
    assert!(session.select_story(1));
    assert!(session.select_story(2));
    session.story_resolved(2, Ok(page(2, "two")));
    assert_eq!(loaded(&session), Some(page(2, "two")));
    session.story_resolved(1, Ok(page(1, "one")));
    assert_eq!(loaded(&session), Some(page(1, "one")));
    assert!(!session.select_story(2));
    assert_eq!(loaded(&session), Some(page(2, "two")));
}

#[test]
fn selection_from_loaded_goes_back_to_loading_on_a_miss() {
    let mut session = PreviewSession::new();
    assert!(session.select_story(1));
    session.story_resolved(1, Ok(page(1, "one")));
    assert!(session.select_story(5));
    assert!(is_loading(&session));
}
