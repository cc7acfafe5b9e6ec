//! What a release is, as the template sees it, and what is said of it at a
//! glance.

use crate::repo_commits::{RepoCommits, RepoToCommits};
use crate::shortcut::records::{Epic, Story};
use crate::types::RepositoryName;
use vstd::prelude::*;

verus! {

/// A release: what it is called, and what it holds.
#[derive(Debug, PartialEq, Eq)]
pub struct Release {
    pub name: Option<String>,
    pub version: Option<String>,
    pub description: Option<String>,
    pub stories: Vec<Story>,
    pub epics: Vec<Epic>,
    pub unparsed_commits: RepoToCommits,
}

impl Release {
    /// Names the content of a release. The content is carried over unchanged.
    pub fn new(
        name: Option<String>,
        version: Option<String>,
        description: Option<String>,
        content: crate::shortcut::release::Release,
    ) -> (r: Self)
        ensures
            r.name == name,
            r.version == version,
            r.description == description,
            r.stories == content.stories,
            r.epics == content.epics,
            r.unparsed_commits == content.unparsed_commits,
    {
        Release {
            name,
            version,
            description,
            stories: content.stories,
            epics: content.epics,
            unparsed_commits: content.unparsed_commits,
        }
    }
}

/// How many commits of one repository refer to no story.
#[derive(Debug, PartialEq, Eq)]
pub struct UnparsedCount {
    pub name: RepositoryName,
    pub commits: usize,
}

/// The numbers of a release.
#[derive(Debug, PartialEq, Eq)]
pub struct ReleaseSummary {
    pub stories: usize,
    pub epics: usize,
    /// One count for each repository with a commit that refers to no story.
    pub unparsed: Vec<UnparsedCount>,
}

/// The counts of the entries that hold a commit, in their order.
pub open spec fn unparsed_counts(entries: Seq<RepoCommits>) -> Seq<UnparsedCount>
    decreases entries.len(),
{
    if entries.len() == 0 {
        Seq::empty()
    } else if entries.last().commits@.len() > 0 {
        unparsed_counts(entries.drop_last()).push(
            UnparsedCount { name: entries.last().name, commits: entries.last().commits.len() },
        )
    } else {
        unparsed_counts(entries.drop_last())
    }
}

/// Counts the stories, the epics and, for each repository that has any, the
/// commits that refer to no story.
pub fn summarize(release: &crate::shortcut::release::Release) -> (r: ReleaseSummary)
    ensures
        r.stories == release.stories@.len(),
        r.epics == release.epics@.len(),
        r.unparsed@ == unparsed_counts(release.unparsed_commits.entries()),
{
    let entries = release.unparsed_commits.as_entries();
    let mut unparsed: Vec<UnparsedCount> = Vec::new();
    let mut i: usize = 0;
    proof {
        assert(entries@.take(0) =~= Seq::<RepoCommits>::empty());
    }
    while i < entries.len()
        invariant
            i <= entries@.len(),
            unparsed@ == unparsed_counts(entries@.take(i as int)),
        decreases entries@.len() - i,
    {
        proof {
            assert(entries@.take(i + 1).drop_last() =~= entries@.take(i as int));
            assert(entries@.take(i + 1).last() == entries@[i as int]);
        }
        if entries[i].commits.len() > 0 {
            unparsed.push(
                UnparsedCount { name: entries[i].name.clone(), commits: entries[i].commits.len() },
            );
        }
        i += 1;
    }
    proof {
        assert(entries@.take(entries@.len() as int) =~= entries@);
    }
    ReleaseSummary { stories: release.stories.len(), epics: release.epics.len(), unparsed }
}

} // verus!
