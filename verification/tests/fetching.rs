use shortcut_release_helper::repo_commits::RepoToCommits;
use shortcut_release_helper::shortcut::labels::StoryLabelFilter;
use shortcut_release_helper::shortcut::records::{has_label, Epic, EpicStats, Story};
use shortcut_release_helper::shortcut::release::{
    epic_ids, FetchAction, FetchError, FetchEvent, FetchState, API_CALLS_PER_MINUTE,
};
use shortcut_release_helper::shortcut::round::{
    collect_round, FetchFailure, Identified, RoundError,
};
use shortcut_release_helper::shortcut::{parse_commits, Release, ShortcutClient, StoryId};
use shortcut_release_helper::types::{RepositoryName, ShortcutApiKey, UnreleasedCommit};

fn story(id: i64, epic_id: Option<i64>, labels: &[&str]) -> Story {
    Story {
        id,
        epic_id,
        labels: labels.iter().map(|l| l.to_string()).collect(),
        story_type: "feature".to_string(),
    }
}

fn epic(id: i64) -> Epic {
    Epic {
        id,
        stats: EpicStats { num_stories_total: 3, num_stories_done: 1 },
        labels: Vec::new(),
    }
}

fn failure(id: i64, cause: &str) -> FetchFailure {
    FetchFailure { id, cause: cause.to_string() }
}

fn filter(excluded: &[&str], included: &[&str]) -> StoryLabelFilter {
    StoryLabelFilter {
        excluded: excluded.iter().map(|l| l.to_string()).collect(),
        included: included.iter().map(|l| l.to_string()).collect(),
    }
}

fn client() -> ShortcutClient {
    ShortcutClient::new(&ShortcutApiKey::new("secret".to_string()))
}

#[test]
fn one_failure_among_five_fails_the_round() {
    let outcomes = vec![
        Ok(story(11, None, &[])),
        Ok(story(12, None, &[])),
        Err(failure(13, "404 Not Found")),
        Ok(story(14, None, &[])),
        Ok(story(15, None, &[])),
    ];
    let result = collect_round(outcomes);
    assert_eq!(result, Err(RoundError { failures: vec![failure(13, "404 Not Found")] }));
}

#[test]
fn every_failure_is_reported_in_order() {
    let outcomes = vec![
        Err(failure(9, "timeout")),
        Ok(epic(2)),
        Err(failure(4, "500")),
        Err(failure(9, "timeout again")),
    ];
    assert_eq!(
        collect_round(outcomes),
        Err(RoundError {
            failures: vec![failure(9, "timeout"), failure(4, "500"), failure(9, "timeout again")]
        })
    );
}

#[test]
fn records_come_back_ascending_by_identifier() {
    let outcomes = vec![
        Ok(story(30, None, &[])),
        Ok(story(-5, None, &[])),
        Ok(story(12, Some(1), &["a"])),
        Ok(story(i64::MAX, None, &[])),
        Ok(story(0, None, &[])),
        Ok(story(i64::MIN, None, &[])),
    ];
    let records = collect_round(outcomes).unwrap();
    let ids: Vec<i64> = records.iter().map(|s| s.id()).collect();
    assert_eq!(ids, vec![i64::MIN, -5, 0, 12, 30, i64::MAX]);
    assert_eq!(records[3], story(12, Some(1), &["a"]));
}

#[test]
fn repeated_round_gives_the_same_order() {
    let first = collect_round(vec![Ok(epic(3)), Ok(epic(1)), Ok(epic(2))]).unwrap();
    let second = collect_round(vec![Ok(epic(2)), Ok(epic(3)), Ok(epic(1))]).unwrap();
    assert_eq!(first, vec![epic(1), epic(2), epic(3)]);
    assert_eq!(first, second);
}

#[test]
fn one_record_is_kept_for_each_identifier() {
    let outcomes = vec![
        Ok(story(7, None, &["first"])),
        Ok(story(3, None, &[])),
        Ok(story(7, None, &["second"])),
        Ok(story(3, Some(1), &[])),
    ];
    let records = collect_round(outcomes).unwrap();
    assert_eq!(records, vec![story(3, None, &[]), story(7, None, &["first"])]);
}

#[test]
fn round_without_lookups_is_empty() {
    let stories: Vec<Result<Story, FetchFailure>> = Vec::new();
    assert_eq!(collect_round(stories), Ok(Vec::new()));
}

#[test]
fn excluded_label_rejects_whatever_is_included() {
    let labelled = story(1, None, &["urgent", "beta"]);
    assert!(!filter(&["beta"], &[]).retains(&labelled));
    assert!(!filter(&["beta"], &["urgent"]).retains(&labelled));
    assert!(!filter(&["beta"], &["urgent", "beta"]).retains(&labelled));
    assert!(!filter(&["alpha", "urgent"], &["beta"]).retains(&labelled));
}

#[test]
fn empty_filter_retains_story_without_labels() {
    let empty = StoryLabelFilter::new();
    assert!(empty.is_empty());
    assert!(empty.retains(&story(1, None, &[])));
    assert!(empty.retains(&story(2, None, &["urgent", "beta"])));
    assert!(!filter(&["x"], &[]).is_empty());
    assert!(!filter(&[], &["x"]).is_empty());
}

#[test]
fn every_included_label_is_required() {
    let labelled = story(1, None, &["urgent", "beta"]);
    assert!(filter(&[], &["urgent"]).retains(&labelled));
    assert!(filter(&[], &["beta", "urgent"]).retains(&labelled));
    assert!(!filter(&[], &["urgent", "gamma"]).retains(&labelled));
    assert!(filter(&["gamma"], &["beta"]).retains(&labelled));
    assert!(!filter(&[], &["urgent"]).retains(&story(2, None, &[])));
    assert!(filter(&["urgent"], &[]).retains(&story(2, None, &[])));
    assert!(!filter(&[], &["Urgent"]).retains(&labelled));
}

#[test]
fn filter_keeps_the_order_of_what_it_retains() {
    let stories = vec![
        story(1, None, &["keep"]),
        story(2, None, &["keep", "drop"]),
        story(3, None, &[]),
        story(4, None, &["keep"]),
    ];
    let kept = filter(&["drop"], &["keep"]).apply(stories);
    assert_eq!(kept, vec![story(1, None, &["keep"]), story(4, None, &["keep"])]);
    let all = StoryLabelFilter::new().apply(vec![story(9, None, &["drop"]), story(8, None, &[])]);
    assert_eq!(all, vec![story(9, None, &["drop"]), story(8, None, &[])]);
}

#[test]
fn label_is_found_by_its_text() {
    let labels = vec!["urgent".to_string(), "beta".to_string()];
    assert!(has_label(&labels, &"beta".to_string()));
    assert!(!has_label(&labels, &"bet".to_string()));
    assert!(!has_label(&Vec::new(), &"beta".to_string()));
}

#[test]
fn epics_are_asked_for_once_each() {
    let stories = vec![
        story(1, Some(50), &[]),
        story(2, None, &[]),
        story(3, Some(40), &[]),
        story(4, Some(50), &[]),
        story(5, Some(40), &[]),
    ];
    assert_eq!(epic_ids(&stories), vec![50, 40]);
    assert!(epic_ids(&vec![story(2, None, &[])]).is_empty());
    assert!(epic_ids(&Vec::new()).is_empty());
}

fn commit(hex: &str, message: &str) -> UnreleasedCommit {
    UnreleasedCommit { id: git2::Oid::from_str(hex).unwrap(), message: Some(message.to_string()) }
}

fn linked() -> shortcut_release_helper::shortcut::Commits {
    let dev = RepositoryName::new("dev".to_string());
    let mut input = RepoToCommits::new();
    input.push(&dev, commit("01", "[sc-20] twenty"));
    input.push(&dev, commit("02", "tidy up"));
    input.push(&dev, commit("03", "[sc-10] ten"));
    input.push(&dev, commit("04", "[sc-20] twenty again"));
    parse_commits(input, &Vec::new()).unwrap()
}

fn unparsed() -> RepoToCommits {
    let mut expected = RepoToCommits::new();
    expected.push(&RepositoryName::new("dev".to_string()), commit("02", "tidy up"));
    expected
}

#[test]
fn client_keeps_to_the_quota() {
    let client = client();
    assert_eq!(client.calls_per_minute, 200);
    assert_eq!(API_CALLS_PER_MINUTE, 200);
    assert_eq!(client.api_key.as_ref(), "secret");
}

#[test]
fn release_is_fetched_in_two_rounds() {
    let client = client();
    let (state, action) = client.get_release(linked(), filter(&["internal"], &[]));
    assert_eq!(action, FetchAction::FetchStories(vec![StoryId::new(20), StoryId::new(10)]));
    assert_eq!(
        state,
        FetchState::AwaitingStories {
            filter: filter(&["internal"], &[]),
            unparsed_commits: unparsed()
        }
    );

    let stories = vec![Ok(story(20, Some(7), &[])), Ok(story(10, Some(3), &["internal"]))];
    let (state, action) = client.step(state, FetchEvent::Stories(stories));
    assert_eq!(action, FetchAction::FetchEpics(vec![7]));
    assert_eq!(
        state,
        FetchState::AwaitingEpics {
            stories: vec![story(20, Some(7), &[])],
            unparsed_commits: unparsed()
        }
    );

    let (state, action) = client.step(state, FetchEvent::Epics(vec![Ok(epic(7))]));
    assert_eq!(state, FetchState::Finished);
    assert_eq!(
        action,
        FetchAction::Deliver(Release {
            stories: vec![story(20, Some(7), &[])],
            epics: vec![epic(7)],
            unparsed_commits: unparsed(),
        })
    );
}

#[test]
fn stories_and_epics_are_delivered_ascending() {
    let client = client();
    let (state, _) = client.get_release(linked(), StoryLabelFilter::new());
    let stories = vec![Ok(story(20, Some(9), &[])), Ok(story(10, Some(4), &[]))];
    let (state, action) = client.step(state, FetchEvent::Stories(stories));
    assert_eq!(action, FetchAction::FetchEpics(vec![4, 9]));
    let (_, action) = client.step(state, FetchEvent::Epics(vec![Ok(epic(9)), Ok(epic(4))]));
    match action {
        FetchAction::Deliver(release) => {
            assert_eq!(release.stories, vec![story(10, Some(4), &[]), story(20, Some(9), &[])]);
            assert_eq!(release.epics, vec![epic(4), epic(9)]);
        }
        _ => panic!("the release was not delivered"),
    }
}

#[test]
fn failed_story_fails_the_release() {
    let client = client();
    let (state, _) = client.get_release(linked(), StoryLabelFilter::new());
    let stories = vec![Ok(story(20, None, &[])), Err(failure(10, "403 Forbidden"))];
    let (state, action) = client.step(state, FetchEvent::Stories(stories));
    assert_eq!(state, FetchState::Finished);
    assert_eq!(
        action,
        FetchAction::Fail(FetchError::Stories(RoundError {
            failures: vec![failure(10, "403 Forbidden")]
        }))
    );
}

#[test]
fn one_failed_story_among_five_leaves_no_partial_release() {
    let dev = RepositoryName::new("dev".to_string());
    let mut input = RepoToCommits::new();
    for (hex, message) in
        [("01", "[sc-1]"), ("02", "[sc-2]"), ("03", "[sc-3]"), ("04", "[sc-4]"), ("05", "[sc-5]")]
    {
        input.push(&dev, commit(hex, message));
    }
    let client = client();
    let five = parse_commits(input, &Vec::new()).unwrap();
    let (state, action) = client.get_release(five, StoryLabelFilter::new());
    assert_eq!(
        action,
        FetchAction::FetchStories(vec![
            StoryId::new(1),
            StoryId::new(2),
            StoryId::new(3),
            StoryId::new(4),
            StoryId::new(5),
        ])
    );
    let stories = vec![
        Ok(story(5, None, &[])),
        Ok(story(1, None, &[])),
        Err(failure(3, "500 Internal Server Error")),
        Ok(story(4, None, &[])),
        Ok(story(2, None, &[])),
    ];
    let (state, action) = client.step(state, FetchEvent::Stories(stories));
    assert_eq!(state, FetchState::Finished);
    assert_eq!(
        action,
        FetchAction::Fail(FetchError::Stories(RoundError {
            failures: vec![failure(3, "500 Internal Server Error")]
        }))
    );
}

#[test]
fn failed_epic_fails_the_release() {
    let client = client();
    let (state, _) = client.get_release(linked(), StoryLabelFilter::new());
    let stories = vec![Ok(story(20, Some(1), &[])), Ok(story(10, Some(2), &[]))];
    let (state, _) = client.step(state, FetchEvent::Stories(stories));
    let epics = vec![Err(failure(2, "gone")), Ok(epic(1))];
    let (state, action) = client.step(state, FetchEvent::Epics(epics));
    assert_eq!(state, FetchState::Finished);
    assert_eq!(
        action,
        FetchAction::Fail(FetchError::Epics(RoundError { failures: vec![failure(2, "gone")] }))
    );
}

#[test]
fn release_without_linked_commits_is_empty() {
    let client = client();
    let nothing = parse_commits(RepoToCommits::new(), &Vec::new()).unwrap();
    let (state, action) = client.get_release(nothing, StoryLabelFilter::new());
    assert_eq!(action, FetchAction::FetchStories(Vec::new()));
    let (state, action) = client.step(state, FetchEvent::Stories(Vec::new()));
    assert_eq!(action, FetchAction::FetchEpics(Vec::new()));
    let (_, action) = client.step(state, FetchEvent::Epics(Vec::new()));
    assert_eq!(
        action,
        FetchAction::Deliver(Release {
            stories: Vec::new(),
            epics: Vec::new(),
            unparsed_commits: RepoToCommits::new(),
        })
    );
}

#[test]
fn answer_out_of_turn_is_rejected() {
    let client = client();
    let (state, _) = client.get_release(linked(), StoryLabelFilter::new());
    let (state, action) = client.step(state, FetchEvent::Epics(vec![Ok(epic(1))]));
    assert_eq!(action, FetchAction::Reject);
    assert_eq!(
        state,
        FetchState::AwaitingStories {
            filter: StoryLabelFilter::new(),
            unparsed_commits: unparsed()
        }
    );
    let (state, action) = client.step(FetchState::Finished, FetchEvent::Stories(Vec::new()));
    assert_eq!(action, FetchAction::Reject);
    assert_eq!(state, FetchState::Finished);
}
