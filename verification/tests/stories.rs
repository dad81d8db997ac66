use hacker_news::comment::MAX_COMMENT_DEPTH;
use hacker_news::item::{copy_comments, Comment, FetchError, StoryItem, StoryPageData};
use hacker_news::story::{get_stories, get_story, story_previews};

fn story(id: i64, kids: &[i64]) -> StoryItem {
    StoryItem {
        id,
        title: format!("story {}", id),
        url: Some(format!("https://example.org/{}", id)),
        text: None,
        by: String::from("author"),
        descendants: kids.len() as i64,
        score: 10 + id,
        kids: kids.to_vec(),
        kind: String::from("story"),
        time: 1_600_000_000,
    }
}

fn comment(id: u64, kids: &[i64]) -> Comment {
    Comment {
        id,
        by: String::from("someone"),
        text: format!("comment {}", id),
        time: 1_600_000_100,
        kids: kids.to_vec(),
        sub_comments: vec![],
        kind: String::from("comment"),
    }
}

fn longest_path(c: &Comment) -> usize {
    c.sub_comments.iter().map(|r| 1 + longest_path(r)).max().unwrap_or(0)
}

#[test]
fn listing_takes_the_first_five_of_eleven() {
    let ids: Vec<i64> = (1..=11).collect();
    assert_eq!(get_stories(5, Ok(ids)), Ok(vec![1, 2, 3, 4, 5]));
}

#[test]
fn listing_keeps_the_ranked_order() {
    assert_eq!(get_stories(3, Ok(vec![40, 7, 19, 3, 88])), Ok(vec![40, 7, 19]));
}

#[test]
fn listing_of_a_short_list_takes_all_of_it() {
    assert_eq!(get_stories(5, Ok(vec![9, 8, 7])), Ok(vec![9, 8, 7]));
    assert_eq!(get_stories(3, Ok(vec![9, 8, 7])), Ok(vec![9, 8, 7]));
    assert_eq!(get_stories(5, Ok(vec![])), Ok(vec![]));
}

#[test]
fn listing_of_no_story_asks_for_nothing() {
    assert_eq!(get_stories(0, Ok(vec![1, 2, 3])), Ok(vec![]));
}

#[test]
fn listing_fails_when_the_id_list_fails() {
    assert_eq!(get_stories(5, Err(FetchError::Transport)), Err(FetchError::Transport));
    assert_eq!(get_stories(5, Err(FetchError::Decode)), Err(FetchError::Decode));
    assert_eq!(get_stories(0, Err(FetchError::Decode)), Err(FetchError::Decode));
}

#[test]
fn previews_drop_failed_fetches_and_keep_order() {
    let previews = story_previews(vec![
        Ok(story(1, &[])),
        Err(FetchError::Transport),
        Ok(story(3, &[30])),
        Err(FetchError::Decode),
        Ok(story(5, &[])),
    ]);
    assert_eq!(previews, vec![story(1, &[]), story(3, &[30]), story(5, &[])]);
}

#[test]
fn previews_of_failed_fetches_only_are_empty() {
    let previews = story_previews(vec![Err(FetchError::Transport), Err(FetchError::Decode)]);
    assert!(previews.is_empty());
    assert!(story_previews(vec![]).is_empty());
}

#[test]
fn previews_without_failure_keep_every_story() {
    let previews = story_previews(vec![Ok(story(2, &[])), Ok(story(1, &[]))]);
    assert_eq!(previews, vec![story(2, &[]), story(1, &[])]);
}

#[test]
fn listing_never_exceeds_the_count() {
    for count in 0..8 {
        let chosen = get_stories(count, Ok((1..=6).collect())).unwrap();
        assert!(chosen.len() <= count);
        let outcomes = chosen
            .iter()
            .map(|&id| if id % 2 == 0 { Err(FetchError::Transport) } else { Ok(story(id, &[])) })
            .collect();
        let previews = story_previews(outcomes);
        assert!(previews.len() <= count);
        assert_eq!(previews.len(), (chosen.len() + 1) / 2);
    }
}

#[test]
fn failed_story_fails_with_the_same_error() {
    match get_story(Err(FetchError::Decode)) {
        Err(e) => assert_eq!(e, FetchError::Decode),
        Ok(_) => panic!("a failed story must not resolve"),
    }
    match get_story(Err(FetchError::Transport)) {
        Err(e) => assert_eq!(e, FetchError::Transport),
        Ok(_) => panic!("a failed story must not resolve"),
    }
}

#[test]
fn story_without_kids_has_no_comments() {
    let page = StoryPageData { item: story(1, &[]), comments: vec![] };
    let resolver = get_story(Ok(page)).unwrap();
    assert!(resolver.pending().is_empty());
    let resolved = resolver.story();
    assert_eq!(resolved.item, story(1, &[]));
    assert!(resolved.comments.is_empty());
}

#[test]
fn story_comments_follow_kids_and_drop_failures() {
    let page = StoryPageData { item: story(1, &[10, 20, 30]), comments: vec![] };
    let mut resolver = get_story(Ok(page)).unwrap();
    assert_eq!(resolver.pending(), vec![10, 20, 30]);
    assert!(resolver.supply(vec![
        Ok(comment(10, &[11])),
        Err(FetchError::Transport),
        Ok(comment(30, &[])),
    ]));
    assert_eq!(resolver.pending(), vec![11]);
    assert!(resolver.supply(vec![Ok(comment(11, &[]))]));
    assert!(resolver.pending().is_empty());
    let resolved = resolver.story();
    assert_eq!(resolved.item, story(1, &[10, 20, 30]));
    assert_eq!(resolved.comments.len(), 2);
    assert_eq!(resolved.comments[0].id, 10);
    assert_eq!(resolved.comments[0].sub_comments, vec![comment(11, &[])]);
    assert_eq!(resolved.comments[1], comment(30, &[]));
}

#[test]
fn story_with_all_comments_failing_still_resolves() {
    let page = StoryPageData { item: story(1, &[10, 20]), comments: vec![] };
    let mut resolver = get_story(Ok(page)).unwrap();
    assert!(resolver.supply(vec![Err(FetchError::Transport), Err(FetchError::Decode)]));
    assert!(resolver.pending().is_empty());
    assert!(resolver.story().comments.is_empty());
}

#[test]
fn story_does_not_keep_comments_of_the_fetched_value() {
    let page = StoryPageData { item: story(1, &[]), comments: vec![comment(99, &[])] };
    let resolver = get_story(Ok(page)).unwrap();
    assert!(resolver.story().comments.is_empty());
}

#[test]
fn story_comments_stop_at_the_maximum_depth() {
    let page = StoryPageData { item: story(1, &[100]), comments: vec![] };
    let mut resolver = get_story(Ok(page)).unwrap();
    let mut rounds = 0;
    loop {
        let ids = resolver.pending();
        if ids.is_empty() {
            break;
        }
        let outcomes = ids.iter().map(|&id| Ok(comment(id as u64, &[id + 1]))).collect();
        assert!(resolver.supply(outcomes));
        rounds += 1;
    }
    assert_eq!(rounds, MAX_COMMENT_DEPTH + 1);
    let resolved = resolver.story();
    assert_eq!(resolved.comments.len(), 1);
    assert_eq!(longest_path(&resolved.comments[0]), MAX_COMMENT_DEPTH);
}

#[test]
fn story_supply_rejects_a_round_of_the_wrong_length() {
    let page = StoryPageData { item: story(1, &[10, 20]), comments: vec![] };
    let mut resolver = get_story(Ok(page)).unwrap();
    assert!(!resolver.supply(vec![Ok(comment(10, &[]))]));
    assert_eq!(resolver.pending(), vec![10, 20]);
}

#[test]
fn story_clone_is_deep() {
    let mut first = comment(10, &[11]);
    first.sub_comments = vec![comment(11, &[])];
    let page = StoryPageData { item: story(1, &[10]), comments: vec![first] };
    let copy = page.clone();
    assert_eq!(copy, page);
    assert_eq!(copy.item.url, Some(String::from("https://example.org/1")));
    assert_eq!(copy.item.text, None);
    assert_eq!(copy_comments(&page.comments), page.comments);
}
