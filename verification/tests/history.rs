use shortcut_release_helper::git::{
    fallback, GitErrorClass, GitErrorCode, GitFailure, HistoryAction, HistoryError, HistoryEvent,
    HistoryState, Repository, WalkedCommit,
};
use shortcut_release_helper::repo_commits::RepoToCommits;
use shortcut_release_helper::shortcut::{parse_commits, StoryId};
use shortcut_release_helper::types::{
    RepositoryConfiguration, RepositoryLocation, RepositoryName, RepositoryReference,
    UnreleasedCommit,
};
use std::path::PathBuf;

fn oid(hex: &str) -> git2::Oid {
    git2::Oid::from_str(hex).unwrap()
}

fn reference(text: &str) -> RepositoryReference {
    RepositoryReference::new(text.to_string())
}

fn configuration(release: &str, next: &str) -> RepositoryConfiguration {
    RepositoryConfiguration {
        location: RepositoryLocation::new(PathBuf::from("../project")),
        release_branch: reference(release),
        next_branch: reference(next),
    }
}

fn failure(class: GitErrorClass, code: GitErrorCode) -> GitFailure {
    GitFailure { class, code, message: "it failed".to_string() }
}

fn missing() -> GitFailure {
    failure(GitErrorClass::Reference, GitErrorCode::NotFound)
}

fn walked(hex: &str, parents: usize, message: Option<&str>) -> WalkedCommit {
    WalkedCommit { id: oid(hex), parents, message: message.map(|m| m.to_string()) }
}

fn opened(release: &str, next: &str) -> Repository {
    let (repository, action) = Repository::new(&configuration(release, next));
    assert_eq!(action, HistoryAction::Open);
    let (repository, action) = repository.step(HistoryEvent::Opened);
    assert_eq!(action, HistoryAction::LookupShortName { reference: reference(release) });
    repository
}

#[test]
fn search_runs_from_open_to_delivery() {
    let repository = opened("master", "next");
    let (repository, action) = repository.step(HistoryEvent::Found { id: oid("a0") });
    assert_eq!(action, HistoryAction::LookupShortName { reference: reference("next") });
    let (repository, action) = repository.step(HistoryEvent::Found { id: oid("b0") });
    assert_eq!(action, HistoryAction::FindMergeBase { release: oid("a0"), next: oid("b0") });
    let (repository, action) = repository.step(HistoryEvent::MergeBase { id: oid("c0") });
    assert_eq!(action, HistoryAction::Walk { base: oid("c0"), head: oid("b0") });
    assert_eq!(repository.state, HistoryState::Walking { base: oid("c0"), next: oid("b0") });
    let walk = vec![walked("b0", 1, Some("second")), walked("b1", 1, None)];
    let (repository, action) = repository.step(HistoryEvent::Walked { commits: walk });
    assert_eq!(repository.state, HistoryState::Finished);
    assert_eq!(
        action,
        HistoryAction::Deliver {
            commits: vec![
                UnreleasedCommit { id: oid("b0"), message: Some("second".to_string()) },
                UnreleasedCommit { id: oid("b1"), message: None },
            ]
        }
    );
}

#[test]
fn merge_commits_are_left_out() {
    let walk = vec![
        walked("01", 1, Some("plain")),
        walked("02", 2, Some("Merge branch 'topic'")),
        walked("03", 0, Some("root")),
        walked("04", 3, None),
        walked("05", 1, None),
    ];
    let commits = Repository::find_unreleased_commits(walk);
    let ids: Vec<git2::Oid> = commits.iter().map(|c| c.id).collect();
    assert_eq!(ids, vec![oid("01"), oid("03"), oid("05")]);
    assert_eq!(commits[0].message, Some("plain".to_string()));
    assert_eq!(commits[2].message, None);
    assert!(Repository::find_unreleased_commits(Vec::new()).is_empty());
}

#[test]
fn missing_name_is_tried_as_hash() {
    let repository = opened("0123abcDEF", "next");
    let (repository, action) = repository.step(HistoryEvent::LookupFailed { cause: missing() });
    assert_eq!(action, HistoryAction::LookupCommit { reference: reference("0123abcDEF") });
    let (repository, action) = repository.step(HistoryEvent::Found { id: oid("0123abcdef") });
    assert_eq!(action, HistoryAction::LookupShortName { reference: reference("next") });
    let (repository, action) =
        repository.step(HistoryEvent::LookupFailed { cause: missing() });
    assert_eq!(repository.state, HistoryState::Finished);
    assert_eq!(
        action,
        HistoryAction::Fail {
            error: HistoryError::ReferenceNotFound { reference: reference("next"), lookup: None }
        }
    );
}

#[test]
fn hash_without_commit_is_no_reference() {
    let repository = opened("master", "ffff");
    let (repository, _) = repository.step(HistoryEvent::Found { id: oid("a0") });
    let (repository, action) = repository.step(HistoryEvent::LookupFailed { cause: missing() });
    assert_eq!(action, HistoryAction::LookupCommit { reference: reference("ffff") });
    let cause = failure(GitErrorClass::Other, GitErrorCode::NotFound);
    let (repository, action) = repository.step(HistoryEvent::LookupFailed { cause });
    assert_eq!(repository.state, HistoryState::Finished);
    assert_eq!(
        action,
        HistoryAction::Fail {
            error: HistoryError::ReferenceNotFound {
                reference: reference("ffff"),
                lookup: Some(failure(GitErrorClass::Other, GitErrorCode::NotFound)),
            }
        }
    );
}

#[test]
fn fallback_reads_hexadecimal_only() {
    assert_eq!(fallback(reference("a"), missing()), Ok(()));
    assert_eq!(fallback(reference("0aF9"), missing()), Ok(()));
    let forty = "0123456789abcdef0123456789abcdef01234567";
    assert_eq!(fallback(reference(forty), missing()), Ok(()));
    let longer = "0123456789abcdef0123456789abcdef012345678";
    for text in ["", "main", "12g4", "release/1.0", longer] {
        assert_eq!(
            fallback(reference(text), missing()),
            Err(HistoryError::ReferenceNotFound { reference: reference(text), lookup: None })
        );
    }
}

#[test]
fn other_lookup_failure_ends_the_search() {
    for cause in [
        failure(GitErrorClass::Other, GitErrorCode::NotFound),
        failure(GitErrorClass::Reference, GitErrorCode::Other),
        failure(GitErrorClass::Other, GitErrorCode::Other),
    ] {
        let expected = GitFailure {
            class: cause.class,
            code: cause.code,
            message: cause.message.clone(),
        };
        assert_eq!(
            fallback(reference("abc"), cause),
            Err(HistoryError::Git { cause: expected })
        );
    }
    let repository = opened("master", "next");
    let cause = failure(GitErrorClass::Other, GitErrorCode::Other);
    let (repository, action) = repository.step(HistoryEvent::PeelFailed { cause });
    assert_eq!(repository.state, HistoryState::Finished);
    assert_eq!(
        action,
        HistoryAction::Fail {
            error: HistoryError::Git {
                cause: failure(GitErrorClass::Other, GitErrorCode::Other)
            }
        }
    );
}

#[test]
fn repository_that_does_not_open_fails() {
    let (repository, _) = Repository::new(&configuration("master", "next"));
    let cause = failure(GitErrorClass::Other, GitErrorCode::NotFound);
    let (repository, action) = repository.step(HistoryEvent::OpenFailed { cause });
    assert_eq!(repository.state, HistoryState::Finished);
    assert_eq!(
        action,
        HistoryAction::Fail {
            error: HistoryError::RepositoryOpen {
                cause: failure(GitErrorClass::Other, GitErrorCode::NotFound)
            }
        }
    );
}

fn at_merge_base() -> Repository {
    let repository = opened("master", "next");
    let (repository, _) = repository.step(HistoryEvent::Found { id: oid("a0") });
    let (repository, _) = repository.step(HistoryEvent::Found { id: oid("b0") });
    repository
}

#[test]
fn unrelated_histories_have_no_common_ancestor() {
    let cause = failure(GitErrorClass::Other, GitErrorCode::NotFound);
    let (repository, action) = at_merge_base().step(HistoryEvent::MergeBaseFailed { cause });
    assert_eq!(repository.state, HistoryState::Finished);
    assert_eq!(
        action,
        HistoryAction::Fail {
            error: HistoryError::NoCommonAncestor { release: oid("a0"), next: oid("b0") }
        }
    );
    let cause = failure(GitErrorClass::Other, GitErrorCode::Other);
    let (_, action) = at_merge_base().step(HistoryEvent::MergeBaseFailed { cause });
    assert_eq!(
        action,
        HistoryAction::Fail {
            error: HistoryError::Git {
                cause: failure(GitErrorClass::Other, GitErrorCode::Other)
            }
        }
    );
}

#[test]
fn failed_walk_ends_the_search() {
    let (repository, _) = at_merge_base().step(HistoryEvent::MergeBase { id: oid("c0") });
    let cause = failure(GitErrorClass::Other, GitErrorCode::Other);
    let (repository, action) = repository.step(HistoryEvent::WalkFailed { cause });
    assert_eq!(repository.state, HistoryState::Finished);
    assert_eq!(
        action,
        HistoryAction::Fail {
            error: HistoryError::Git {
                cause: failure(GitErrorClass::Other, GitErrorCode::Other)
            }
        }
    );
}

#[test]
fn event_out_of_turn_is_rejected() {
    let repository = opened("master", "next");
    let (repository, action) = repository.step(HistoryEvent::MergeBase { id: oid("c0") });
    assert_eq!(action, HistoryAction::Reject);
    assert_eq!(
        repository.state,
        HistoryState::ResolvingRelease {
            stage: shortcut_release_helper::git::LookupStage::ShortName,
            release_branch: reference("master"),
            next_branch: reference("next"),
        }
    );
    let finished = Repository { state: HistoryState::Finished };
    let (finished, action) = finished.step(HistoryEvent::Opened);
    assert_eq!(action, HistoryAction::Reject);
    assert_eq!(finished.state, HistoryState::Finished);
}

#[test]
fn failure_kinds_are_told_apart() {
    assert!(missing().is_missing_reference());
    assert!(missing().is_not_found());
    assert!(!failure(GitErrorClass::Other, GitErrorCode::NotFound).is_missing_reference());
    assert!(!failure(GitErrorClass::Reference, GitErrorCode::Other).is_missing_reference());
    assert!(!failure(GitErrorClass::Reference, GitErrorCode::Other).is_not_found());
}

fn unreleased(
    release: &str,
    next: &str,
    base: &str,
    walk: Vec<WalkedCommit>,
) -> Vec<UnreleasedCommit> {
    let repository = opened("release", "next");
    let (repository, _) = repository.step(HistoryEvent::Found { id: oid(release) });
    let (repository, _) = repository.step(HistoryEvent::Found { id: oid(next) });
    let (repository, _) = repository.step(HistoryEvent::MergeBase { id: oid(base) });
    match repository.step(HistoryEvent::Walked { commits: walk }).1 {
        HistoryAction::Deliver { commits } => commits,
        _ => panic!("the walk was not delivered"),
    }
}

#[test]
fn two_projects_with_one_linear_commit_and_one_merge() {
    let first = unreleased(
        "a0",
        "b0",
        "a0",
        vec![
            walked("b0", 2, Some("Merge branch 'feature' into next")),
            walked("c0", 1, Some("[sc-5] add feature")),
        ],
    );
    let c = UnreleasedCommit { id: oid("c0"), message: Some("[sc-5] add feature".to_string()) };
    assert_eq!(first, vec![UnreleasedCommit { id: oid("c0"), message: c.message.clone() }]);
    let second = unreleased("d0", "d0", "d0", Vec::new());
    assert!(second.is_empty());

    let project = RepositoryName::new("project".to_string());
    let mut commits = RepoToCommits::new();
    commits.insert(RepositoryName::new("project".to_string()), first);
    commits.insert(RepositoryName::new("other".to_string()), second);
    let linked = parse_commits(commits, &Vec::new()).unwrap();
    assert_eq!(linked.as_stories().len(), 1);
    let story = &linked.as_stories()[0];
    assert_eq!(story.story_id, StoryId::new(5));
    assert_eq!(story.commits.len(), 1);
    assert_eq!(story.commits.get(&project).unwrap(), &vec![c]);
    assert!(linked.as_unparsed().is_empty());
}
