//! The two rounds that turn linked commits into the content of a release:
//! the stories are fetched first, then the epics they belong to.

use crate::repo_commits::RepoToCommits;
use crate::shortcut::labels::{retained, StoryLabelFilter};
use crate::shortcut::records::{Epic, Story};
use crate::shortcut::round::{collect_round, round_result, FetchFailure, RoundError};
use crate::shortcut::{story_ids, Commits, StoryId};
use crate::types::ShortcutApiKey;
use vstd::prelude::*;

verus! {

/// How many calls a minute the tracker accepts from one key.
pub const API_CALLS_PER_MINUTE: u32 = 200;

/// The content of a release: the stories and epics in ascending order of
/// their identifiers, and the commits that refer to no story.
#[derive(Debug, PartialEq, Eq)]
pub struct Release {
    pub stories: Vec<Story>,
    pub epics: Vec<Epic>,
    pub unparsed_commits: RepoToCommits,
}

/// A round that failed, with every lookup that failed in it.
#[derive(Debug, PartialEq, Eq)]
pub enum FetchError {
    /// One story or more could not be fetched.
    Stories(RoundError),
    /// One epic or more could not be fetched.
    Epics(RoundError),
}

/// How far the fetching of a release has come.
#[derive(Debug, PartialEq, Eq)]
pub enum FetchState {
    /// The stories were asked for.
    AwaitingStories { filter: StoryLabelFilter, unparsed_commits: RepoToCommits },
    /// The stories are here and their epics were asked for.
    AwaitingEpics { stories: Vec<Story>, unparsed_commits: RepoToCommits },
    /// The release was delivered or a round failed.
    Finished,
}

/// What came back from the tracker: one outcome for each lookup of a round.
#[derive(Debug, PartialEq, Eq)]
pub enum FetchEvent {
    Stories(Vec<Result<Story, FetchFailure>>),
    Epics(Vec<Result<Epic, FetchFailure>>),
}

/// What is to be done next.
#[derive(Debug, PartialEq, Eq)]
pub enum FetchAction {
    /// Look up each of these stories, then report the outcomes.
    FetchStories(Vec<StoryId>),
    /// Look up each of these epics, then report the outcomes.
    FetchEpics(Vec<i64>),
    /// The release is complete.
    Deliver(Release),
    /// A round failed: there is no release.
    Fail(FetchError),
    /// The event does not answer what was asked for; nothing changed.
    Reject,
}

/// The epics that `stories` belong to, each once, in the order in which
/// they first occur.
pub open spec fn epics_of(stories: Seq<Story>) -> Seq<i64>
    decreases stories.len(),
{
    if stories.len() == 0 {
        Seq::empty()
    } else {
        let earlier = epics_of(stories.drop_last());
        match stories.last().epic_id {
            Some(id) => if earlier.contains(id) {
                earlier
            } else {
                earlier.push(id)
            },
            None => earlier,
        }
    }
}

/// Whether one of `stories` belongs to epic `id`.
pub open spec fn belongs_to_epic(stories: Seq<Story>, id: i64) -> bool {
    exists|j: int| 0 <= j < stories.len() && (#[trigger] stories[j]).epic_id == Some(id)
}

/// The epics of some stories are distinct, and they are the epics that one of
/// the stories belongs to: no more and no fewer.
pub proof fn lemma_epics_of(stories: Seq<Story>)
    ensures
        epics_of(stories).no_duplicates(),
        forall|id: i64| epics_of(stories).contains(id) <==> belongs_to_epic(stories, id),
    decreases stories.len(),
{
    if stories.len() > 0 {
        let rest = stories.drop_last();
        let last = stories.last();
        let earlier = epics_of(rest);
        let ids = epics_of(stories);
        lemma_epics_of(rest);
        assert forall|id: i64| ids.contains(id) <==> belongs_to_epic(stories, id) by {
            if ids.contains(id) {
                let m = choose|m: int| 0 <= m < ids.len() && ids[m] == id;
                if m < earlier.len() {
                    assert(earlier[m] == id);
                    assert(belongs_to_epic(rest, id));
                    let j = choose|j: int|
                        0 <= j < rest.len() && (#[trigger] rest[j]).epic_id == Some(id);
                    assert(stories[j].epic_id == Some(id));
                } else {
                    assert(stories[stories.len() - 1].epic_id == Some(id));
                }
            }
            if belongs_to_epic(stories, id) {
                let j = choose|j: int|
                    0 <= j < stories.len() && (#[trigger] stories[j]).epic_id == Some(id);
                if j < rest.len() {
                    assert(rest[j].epic_id == Some(id));
                    assert(belongs_to_epic(rest, id));
                    let m = choose|m: int| 0 <= m < earlier.len() && earlier[m] == id;
                    assert(ids[m] == id);
                } else {
                    if !earlier.contains(id) {
                        assert(ids[earlier.len() as int] == id);
                    } else {
                        let m = choose|m: int| 0 <= m < earlier.len() && earlier[m] == id;
                        assert(ids[m] == id);
                    }
                }
            }
        }
        assert forall|a: int, b: int|
            0 <= a < ids.len() && 0 <= b < ids.len() && a != b implies ids[a] != ids[b] by {
            if a < earlier.len() && b < earlier.len() {
                assert(ids[a] == earlier[a] && ids[b] == earlier[b]);
            } else if a < earlier.len() {
                assert(earlier[a] == ids[a]);
            } else if b < earlier.len() {
                assert(earlier[b] == ids[b]);
            }
        }
    }
}

/// Whether `ids` hold `id`.
fn holds(ids: &Vec<i64>, id: i64) -> (r: bool)
    ensures
        r == ids@.contains(id),
{
    let mut k: usize = 0;
    while k < ids.len()
        invariant
            k <= ids@.len(),
            forall|m: int| 0 <= m < k ==> ids@[m] != id,
        decreases ids@.len() - k,
    {
        if ids[k] == id {
            return true;
        }
        k += 1;
    }
    false
}

/// The epics that `stories` belong to, each once, in the order in which they
/// first occur.
pub fn epic_ids(stories: &Vec<Story>) -> (r: Vec<i64>)
    ensures
        r@ == epics_of(stories@),
{
    let mut ids: Vec<i64> = Vec::new();
    let mut i: usize = 0;
    proof {
        assert(stories@.take(0) =~= Seq::<Story>::empty());
    }
    while i < stories.len()
        invariant
            i <= stories@.len(),
            ids@ == epics_of(stories@.take(i as int)),
        decreases stories@.len() - i,
    {
        proof {
            assert(stories@.take(i + 1).drop_last() =~= stories@.take(i as int));
            assert(stories@.take(i + 1).last() == stories@[i as int]);
        }
        match stories[i].epic_id {
            Some(id) => {
                if !holds(&ids, id) {
                    ids.push(id);
                }
            },
            None => {},
        }
        i += 1;
    }
    proof {
        assert(stories@.take(stories@.len() as int) =~= stories@);
    }
    ids
}

/// What answers `event` in `state`: the state that follows and what is to be
/// done next.
pub open spec fn answers(
    state: FetchState,
    event: FetchEvent,
    next: FetchState,
    action: FetchAction,
) -> bool {
    match (state, event) {
        (
            FetchState::AwaitingStories { filter, unparsed_commits },
            FetchEvent::Stories(outcomes),
        ) => {
            exists|fetched: Result<Vec<Story>, RoundError>| #[trigger]
                round_result(outcomes@, fetched) && match fetched {
                    Ok(stories) => {
                        &&& next matches FetchState::AwaitingEpics {
                            stories: kept,
                            unparsed_commits: carried,
                        }
                        &&& kept@ == retained(stories@, filter)
                        &&& carried == unparsed_commits
                        &&& action matches FetchAction::FetchEpics(ids)
                        &&& ids@ == epics_of(kept@)
                    },
                    Err(error) => {
                        &&& next is Finished
                        &&& action == FetchAction::Fail(FetchError::Stories(error))
                    },
                }
        },
        (FetchState::AwaitingEpics { stories, unparsed_commits }, FetchEvent::Epics(outcomes)) => {
            exists|fetched: Result<Vec<Epic>, RoundError>| #[trigger]
                round_result(outcomes@, fetched) && match fetched {
                    Ok(epics) => {
                        &&& next is Finished
                        &&& action == FetchAction::Deliver(
                            Release { stories, epics, unparsed_commits },
                        )
                    },
                    Err(error) => {
                        &&& next is Finished
                        &&& action == FetchAction::Fail(FetchError::Epics(error))
                    },
                }
        },
        _ => next == state && action is Reject,
    }
}

/// Client of the tracker: the key it calls with and the rate it keeps to.
#[derive(Debug, PartialEq, Eq)]
pub struct ShortcutClient {
    pub api_key: ShortcutApiKey,
    /// No more calls than this are made in one minute. Never zero.
    pub calls_per_minute: u32,
}

impl ShortcutClient {
    pub fn new(api_key: &ShortcutApiKey) -> (r: Self)
        ensures
            r.api_key == *api_key,
            r.calls_per_minute == API_CALLS_PER_MINUTE,
            r.calls_per_minute > 0,
    {
        ShortcutClient { api_key: api_key.clone(), calls_per_minute: API_CALLS_PER_MINUTE }
    }

    /// Starts the fetching of a release: the story of every linked commit is
    /// asked for, each once. The commits that refer to no story are carried
    /// along unchanged.
    pub fn get_release(&self, commits: Commits, filter: StoryLabelFilter) -> (r: (
        FetchState,
        FetchAction,
    ))
        ensures
            r.0 == (FetchState::AwaitingStories {
                filter,
                unparsed_commits: commits.unparsed(),
            }),
            r.1 matches FetchAction::FetchStories(ids) && ids@ == story_ids(commits.stories()),
    {
        let mut ids: Vec<StoryId> = Vec::new();
        let stories = commits.as_stories();
        let mut i: usize = 0;
        while i < stories.len()
            invariant
                i <= stories@.len(),
                ids@ == story_ids(stories@).take(i as int),
            decreases stories@.len() - i,
        {
            ids.push(stories[i].story_id);
            proof {
                assert(story_ids(stories@).take(i + 1) =~= story_ids(stories@).take(i as int).push(
                    stories@[i as int].story_id,
                ));
            }
            i += 1;
        }
        proof {
            assert(story_ids(stories@).take(stories@.len() as int) =~= story_ids(stories@));
        }
        let state = FetchState::AwaitingStories {
            filter,
            unparsed_commits: commits.into_unparsed(),
        };
        (state, FetchAction::FetchStories(ids))
    }

    /// Takes the outcomes of the round that was asked for. Stories: with a
    /// failure the release fails; else the stories that the filter retains are
    /// kept and their epics asked for. Epics: with a failure the release
    /// fails; else it is delivered. An event that was not asked for is
    /// rejected and changes nothing.
    pub fn step(&self, state: FetchState, event: FetchEvent) -> (r: (FetchState, FetchAction))
        ensures
            answers(state, event, r.0, r.1),
    {
        match (state, event) {
            (
                FetchState::AwaitingStories { filter, unparsed_commits },
                FetchEvent::Stories(outcomes),
            ) => {
                let fetched = collect_round(outcomes);
                match fetched {
                    Ok(stories) => {
                        let kept = filter.apply(stories);
                        let ids = epic_ids(&kept);
                        let next = FetchState::AwaitingEpics { stories: kept, unparsed_commits };
                        let action = FetchAction::FetchEpics(ids);
                        proof {
                            assert(round_result(outcomes@, fetched));
                        }
                        (next, action)
                    },
                    Err(error) => {
                        proof {
                            assert(round_result(outcomes@, fetched));
                        }
                        (FetchState::Finished, FetchAction::Fail(FetchError::Stories(error)))
                    },
                }
            },
            (
                FetchState::AwaitingEpics { stories, unparsed_commits },
                FetchEvent::Epics(outcomes),
            ) => {
                let fetched = collect_round(outcomes);
                match fetched {
                    Ok(epics) => {
                        proof {
                            assert(round_result(outcomes@, fetched));
                        }
                        (
                            FetchState::Finished,
                            FetchAction::Deliver(Release { stories, epics, unparsed_commits }),
                        )
                    },
                    Err(error) => {
                        proof {
                            assert(round_result(outcomes@, fetched));
                        }
                        (FetchState::Finished, FetchAction::Fail(FetchError::Epics(error)))
                    },
                }
            },
            (state, _) => (state, FetchAction::Reject),
        }
    }
}

} // verus!
