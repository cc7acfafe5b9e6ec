//! Finding the commits of a repository that are not released yet.
//!
//! Reading the repository is left to the caller. What is decided here: in
//! which order the repository is asked, when a reference is tried again as a
//! hash, which commits of the walk count, and which error ends the search.

use crate::types::{RepositoryConfiguration, RepositoryReference, UnreleasedCommit};
use vstd::prelude::*;

verus! {

/// What kind of thing a failure of the repository is about.
#[derive(Debug, PartialEq, Eq, Clone, Copy, Structural)]
pub enum GitErrorClass {
    /// A reference.
    Reference,
    /// Anything else.
    Other,
}

/// What went wrong in a failure of the repository.
#[derive(Debug, PartialEq, Eq, Clone, Copy, Structural)]
pub enum GitErrorCode {
    /// What was asked for is not there.
    NotFound,
    /// Anything else.
    Other,
}

/// A failure that the repository reported.
#[derive(Debug, PartialEq, Eq)]
pub struct GitFailure {
    pub class: GitErrorClass,
    pub code: GitErrorCode,
    pub message: String,
}

impl GitFailure {
    /// Whether the failure says that no reference of the name exists.
    pub open spec fn spec_is_missing_reference(&self) -> bool {
        self.class == GitErrorClass::Reference && self.code == GitErrorCode::NotFound
    }

    /// Whether the failure says that no reference of the name exists.
    pub fn is_missing_reference(&self) -> (r: bool)
        ensures
            r == self.spec_is_missing_reference(),
    {
        let of_reference = match self.class {
            GitErrorClass::Reference => true,
            GitErrorClass::Other => false,
        };
        of_reference && self.is_not_found()
    }

    /// Whether the failure says that what was asked for is not there.
    pub fn is_not_found(&self) -> (r: bool)
        ensures
            r == (self.code == GitErrorCode::NotFound),
    {
        match self.code {
            GitErrorCode::NotFound => true,
            GitErrorCode::Other => false,
        }
    }
}

/// Why the unreleased commits of a repository could not be found.
#[derive(Debug, PartialEq, Eq)]
pub enum HistoryError {
    /// The repository could not be opened.
    RepositoryOpen { cause: GitFailure },
    /// The reference is no branch or tag, and no commit has it as its hash:
    /// it does not read as a hash, or the lookup of the hash failed.
    ReferenceNotFound { reference: RepositoryReference, lookup: Option<GitFailure> },
    /// The released commit and the next one have no ancestor in common.
    NoCommonAncestor { release: git2::Oid, next: git2::Oid },
    /// Any other failure of the repository.
    Git { cause: GitFailure },
}

/// A commit that the walk came by.
#[derive(Debug, PartialEq, Eq)]
pub struct WalkedCommit {
    pub id: git2::Oid,
    /// How many parents the commit has.
    pub parents: usize,
    pub message: Option<String>,
}

impl WalkedCommit {
    /// Whether the commit merges two lines of history or more.
    pub open spec fn is_merge(&self) -> bool {
        self.parents > 1
    }

    /// The commit without the count of its parents.
    pub open spec fn unreleased(&self) -> UnreleasedCommit {
        UnreleasedCommit { id: self.id, message: self.message }
    }
}

/// The commits of `walk` that count as unreleased: all but the merges, in the
/// order of the walk.
pub open spec fn unreleased_of(walk: Seq<WalkedCommit>) -> Seq<UnreleasedCommit> {
    walk.filter(|commit: WalkedCommit| !commit.is_merge()).map_values(
        |commit: WalkedCommit| commit.unreleased(),
    )
}

/// One more commit of the walk counts unless it is a merge.
pub proof fn lemma_unreleased_push(walk: Seq<WalkedCommit>, commit: WalkedCommit)
    ensures
        unreleased_of(walk.push(commit)) == if commit.is_merge() {
            unreleased_of(walk)
        } else {
            unreleased_of(walk).push(commit.unreleased())
        },
        unreleased_of(Seq::empty()) == Seq::<UnreleasedCommit>::empty(),
{
    reveal(Seq::filter);
    assert(walk.push(commit).drop_last() =~= walk);
    let kept = walk.filter(|commit: WalkedCommit| !commit.is_merge());
    if !commit.is_merge() {
        assert(kept.push(commit).map_values(|commit: WalkedCommit| commit.unreleased())
            =~= unreleased_of(walk).push(commit.unreleased()));
    }
    assert(unreleased_of(Seq::empty()) =~= Seq::<UnreleasedCommit>::empty());
}

/// Whether `commit` came out of a commit of `walk` that is no merge.
pub open spec fn from_plain_commit(walk: Seq<WalkedCommit>, commit: UnreleasedCommit) -> bool {
    exists|j: int|
        0 <= j < walk.len() && !(#[trigger] walk[j]).is_merge() && walk[j].unreleased() == commit
}

/// No merge is among the unreleased commits, and every other commit of the
/// walk is.
pub proof fn lemma_merges_excluded(walk: Seq<WalkedCommit>)
    ensures
        forall|i: int|
            0 <= i < walk.len() && !(#[trigger] walk[i]).is_merge() ==> unreleased_of(
                walk,
            ).contains(walk[i].unreleased()),
        forall|k: int|
            0 <= k < unreleased_of(walk).len() ==> from_plain_commit(
                walk,
                #[trigger] unreleased_of(walk)[k],
            ),
    decreases walk.len(),
{
    if walk.len() == 0 {
        lemma_unreleased_push(walk, arbitrary());
        assert(walk =~= Seq::<WalkedCommit>::empty());
    } else {
        let rest = walk.drop_last();
        let last = walk.last();
        let kept = unreleased_of(walk);
        let kept_rest = unreleased_of(rest);
        lemma_merges_excluded(rest);
        lemma_unreleased_push(rest, last);
        assert(rest.push(last) =~= walk);
        assert forall|i: int|
            0 <= i < walk.len() && !(#[trigger] walk[i]).is_merge() implies kept.contains(
            walk[i].unreleased(),
        ) by {
            if i < rest.len() {
                assert(rest[i] == walk[i]);
                assert(kept_rest.contains(rest[i].unreleased()));
                let m = choose|m: int|
                    0 <= m < kept_rest.len() && kept_rest[m] == rest[i].unreleased();
                assert(kept[m] == kept_rest[m]);
            } else {
                assert(kept[kept.len() - 1] == last.unreleased());
            }
        }
        assert forall|k: int| 0 <= k < kept.len() implies from_plain_commit(
            walk,
            #[trigger] kept[k],
        ) by {
            if k < kept_rest.len() {
                assert(kept[k] == kept_rest[k]);
                assert(from_plain_commit(rest, kept_rest[k]));
                let j = choose|j: int|
                    0 <= j < rest.len() && !(#[trigger] rest[j]).is_merge() && rest[j].unreleased()
                        == kept_rest[k];
                assert(walk[j] == rest[j]);
            } else {
                assert(kept[k] == last.unreleased());
                assert(walk[walk.len() - 1] == last);
            }
        }
    }
}

/// Whether `c` is a hexadecimal digit.
pub open spec fn is_hex_digit(c: char) -> bool {
    ('0' <= c <= '9') || ('a' <= c <= 'f') || ('A' <= c <= 'F')
}

/// Whether `text` can be read as the hash of a commit, whole or abbreviated:
/// one to forty hexadecimal digits.
pub open spec fn is_hash_text(text: Seq<char>) -> bool {
    0 < text.len() <= 40 && forall|i: int| 0 <= i < text.len() ==> is_hex_digit(#[trigger] text[i])
}

/// Whether `git2::Oid::from_str` reads `text` as a hash.
///
/// Trusted: as the crate documents, the text is refused exactly when it is
/// empty, longer than forty characters, or holds a character that is no
/// hexadecimal digit.
#[verifier::external_body]
fn reads_as_hash(text: &str) -> (r: bool)
    ensures
        r == is_hash_text(text@),
{
    git2::Oid::from_str(text).is_ok()
}

/// What the repository is asked to do next.
#[derive(Debug, PartialEq, Eq)]
pub enum HistoryAction {
    /// Open the repository at the configured location.
    Open,
    /// Look the reference up as the short name of a branch or tag, and find
    /// the commit it leads to.
    LookupShortName { reference: RepositoryReference },
    /// Read the reference as a hash and look up the commit that has it.
    LookupCommit { reference: RepositoryReference },
    /// Find the merge base of the two commits.
    FindMergeBase { release: git2::Oid, next: git2::Oid },
    /// Walk the ancestors of `head` that are no ancestors of `base`, `base`
    /// itself left out.
    Walk { base: git2::Oid, head: git2::Oid },
    /// The search is over: these are the unreleased commits.
    Deliver { commits: Vec<UnreleasedCommit> },
    /// The search is over: it failed.
    Fail { error: HistoryError },
    /// The event does not answer what was asked for; nothing changed.
    Reject,
}

/// What the repository answered.
#[derive(Debug, PartialEq, Eq)]
pub enum HistoryEvent {
    /// The repository is open.
    Opened,
    /// The repository could not be opened.
    OpenFailed { cause: GitFailure },
    /// The lookup led to this commit.
    Found { id: git2::Oid },
    /// The lookup of the name or of the hash failed.
    LookupFailed { cause: GitFailure },
    /// The short name exists but does not lead to a commit.
    PeelFailed { cause: GitFailure },
    /// The merge base of the two commits.
    MergeBase { id: git2::Oid },
    /// No merge base came back.
    MergeBaseFailed { cause: GitFailure },
    /// The commits of the walk, in its order.
    Walked { commits: Vec<WalkedCommit> },
    /// The walk failed.
    WalkFailed { cause: GitFailure },
}

/// How a reference is being looked up.
#[derive(Debug, PartialEq, Eq, Clone, Copy, Structural)]
pub enum LookupStage {
    /// As the short name of a branch or tag.
    ShortName,
    /// As the hash of a commit.
    Hash,
}

/// How far the search for the unreleased commits has come.
#[derive(Debug, PartialEq, Eq)]
pub enum HistoryState {
    Opening { release_branch: RepositoryReference, next_branch: RepositoryReference },
    ResolvingRelease {
        stage: LookupStage,
        release_branch: RepositoryReference,
        next_branch: RepositoryReference,
    },
    ResolvingNext { stage: LookupStage, release: git2::Oid, next_branch: RepositoryReference },
    FindingMergeBase { release: git2::Oid, next: git2::Oid },
    Walking { base: git2::Oid, next: git2::Oid },
    Finished,
}

/// What follows when the lookup of `reference` as a short name has failed
/// with `cause`. Where the name is missing and the reference reads as a hash,
/// the search goes on with the hash; where it does not read as one, no such
/// reference is found; any other failure ends the search as it is.
pub open spec fn fallback_of(reference: RepositoryReference, cause: GitFailure) -> Result<
    (),
    HistoryError,
> {
    if !cause.spec_is_missing_reference() {
        Err(HistoryError::Git { cause })
    } else if is_hash_text(reference@) {
        Ok(())
    } else {
        Err(HistoryError::ReferenceNotFound { reference, lookup: None })
    }
}

/// Decides what follows when the lookup of `reference` as a short name has
/// failed with `cause`: `Ok` to go on with the reference as a hash, or the
/// error that ends the search.
pub fn fallback(reference: RepositoryReference, cause: GitFailure) -> (r: Result<(), HistoryError>)
    ensures
        r == fallback_of(reference, cause),
{
    if !cause.is_missing_reference() {
        return Err(HistoryError::Git { cause });
    }
    if reads_as_hash(reference.as_ref().as_str()) {
        Ok(())
    } else {
        Err(HistoryError::ReferenceNotFound { reference, lookup: None })
    }
}

/// What follows when no merge base came back for the two commits.
pub open spec fn merge_base_error(
    release: git2::Oid,
    next: git2::Oid,
    cause: GitFailure,
) -> HistoryError {
    if cause.code == GitErrorCode::NotFound {
        HistoryError::NoCommonAncestor { release, next }
    } else {
        HistoryError::Git { cause }
    }
}

/// Whether `next` and `action` answer `event` in `state`.
pub open spec fn follows(
    state: HistoryState,
    event: HistoryEvent,
    next: HistoryState,
    action: HistoryAction,
) -> bool {
    match (state, event) {
        (HistoryState::Opening { release_branch, next_branch }, HistoryEvent::Opened) => {
            &&& next == (HistoryState::ResolvingRelease {
                stage: LookupStage::ShortName,
                release_branch,
                next_branch,
            })
            &&& action == (HistoryAction::LookupShortName { reference: release_branch })
        },
        (HistoryState::Opening { .. }, HistoryEvent::OpenFailed { cause }) => {
            &&& next is Finished
            &&& action == (HistoryAction::Fail { error: HistoryError::RepositoryOpen { cause } })
        },
        (
            HistoryState::ResolvingRelease { stage, release_branch, next_branch },
            HistoryEvent::Found { id },
        ) => {
            &&& next == (HistoryState::ResolvingNext {
                stage: LookupStage::ShortName,
                release: id,
                next_branch,
            })
            &&& action == (HistoryAction::LookupShortName { reference: next_branch })
        },
        (
            HistoryState::ResolvingRelease {
                stage: LookupStage::ShortName,
                release_branch,
                next_branch,
            },
            HistoryEvent::LookupFailed { cause },
        ) => {
            match fallback_of(release_branch, cause) {
                Ok(_) => {
                    &&& next == (HistoryState::ResolvingRelease {
                        stage: LookupStage::Hash,
                        release_branch,
                        next_branch,
                    })
                    &&& action == (HistoryAction::LookupCommit { reference: release_branch })
                },
                Err(error) => next is Finished && action == (HistoryAction::Fail { error }),
            }
        },
        (
            HistoryState::ResolvingRelease {
                stage: LookupStage::Hash,
                release_branch,
                next_branch,
            },
            HistoryEvent::LookupFailed { cause },
        ) => {
            &&& next is Finished
            &&& action == (HistoryAction::Fail {
                error: HistoryError::ReferenceNotFound {
                    reference: release_branch,
                    lookup: Some(cause),
                },
            })
        },
        (
            HistoryState::ResolvingRelease { stage: LookupStage::ShortName, .. },
            HistoryEvent::PeelFailed { cause },
        ) => {
            &&& next is Finished
            &&& action == (HistoryAction::Fail { error: HistoryError::Git { cause } })
        },
        (
            HistoryState::ResolvingNext { stage, release, next_branch },
            HistoryEvent::Found { id },
        ) => {
            &&& next == (HistoryState::FindingMergeBase { release, next: id })
            &&& action == (HistoryAction::FindMergeBase { release, next: id })
        },
        (
            HistoryState::ResolvingNext { stage: LookupStage::ShortName, release, next_branch },
            HistoryEvent::LookupFailed { cause },
        ) => {
            match fallback_of(next_branch, cause) {
                Ok(_) => {
                    &&& next == (HistoryState::ResolvingNext {
                        stage: LookupStage::Hash,
                        release,
                        next_branch,
                    })
                    &&& action == (HistoryAction::LookupCommit { reference: next_branch })
                },
                Err(error) => next is Finished && action == (HistoryAction::Fail { error }),
            }
        },
        (
            HistoryState::ResolvingNext { stage: LookupStage::Hash, release, next_branch },
            HistoryEvent::LookupFailed { cause },
        ) => {
            &&& next is Finished
            &&& action == (HistoryAction::Fail {
                error: HistoryError::ReferenceNotFound {
                    reference: next_branch,
                    lookup: Some(cause),
                },
            })
        },
        (
            HistoryState::ResolvingNext { stage: LookupStage::ShortName, .. },
            HistoryEvent::PeelFailed { cause },
        ) => {
            &&& next is Finished
            &&& action == (HistoryAction::Fail { error: HistoryError::Git { cause } })
        },
        (
            HistoryState::FindingMergeBase { release, next: head },
            HistoryEvent::MergeBase { id },
        ) => {
            &&& next == (HistoryState::Walking { base: id, next: head })
            &&& action == (HistoryAction::Walk { base: id, head })
        },
        (
            HistoryState::FindingMergeBase { release, next: head },
            HistoryEvent::MergeBaseFailed { cause },
        ) => {
            &&& next is Finished
            &&& action == (HistoryAction::Fail { error: merge_base_error(release, head, cause) })
        },
        (HistoryState::Walking { .. }, HistoryEvent::Walked { commits }) => {
            &&& next is Finished
            &&& action matches HistoryAction::Deliver { commits: unreleased }
            &&& unreleased@ == unreleased_of(commits@)
        },
        (HistoryState::Walking { .. }, HistoryEvent::WalkFailed { cause }) => {
            &&& next is Finished
            &&& action == (HistoryAction::Fail { error: HistoryError::Git { cause } })
        },
        _ => next == state && action is Reject,
    }
}

/// The search for the unreleased commits of one repository.
#[derive(Debug, PartialEq, Eq)]
pub struct Repository {
    pub state: HistoryState,
}

impl Repository {
    /// Starts the search: the repository is to be opened.
    pub fn new(configuration: &RepositoryConfiguration) -> (r: (Self, HistoryAction))
        ensures
            r.0.state == (HistoryState::Opening {
                release_branch: configuration.release_branch,
                next_branch: configuration.next_branch,
            }),
            r.1 is Open,
    {
        let state = HistoryState::Opening {
            release_branch: configuration.release_branch.clone(),
            next_branch: configuration.next_branch.clone(),
        };
        (Repository { state }, HistoryAction::Open)
    }

    /// The commits of a walk that count as unreleased: every commit but the
    /// merges, in the order of the walk.
    pub fn find_unreleased_commits(walk: Vec<WalkedCommit>) -> (r: Vec<UnreleasedCommit>)
        ensures
            r@ == unreleased_of(walk@),
    {
        let ghost all = walk@;
        let mut commits: Vec<UnreleasedCommit> = Vec::new();
        proof {
            lemma_unreleased_push(Seq::empty(), arbitrary());
            assert(all.take(0) =~= Seq::<WalkedCommit>::empty());
        }
        for walked in it: walk
            invariant
                it.seq() == all,
                commits@ == unreleased_of(all.take(it.index() as int)),
        {
            proof {
                let j = it.index() as int;
                assert(all.take(j + 1) =~= all.take(j).push(walked));
                lemma_unreleased_push(all.take(j), walked);
            }
            if walked.parents <= 1 {
                commits.push(UnreleasedCommit { id: walked.id, message: walked.message });
            }
        }
        proof {
            assert(all.take(all.len() as int) =~= all);
        }
        commits
    }

    /// Takes the answer of the repository and decides what is asked next.
    ///
    /// Both references are resolved, the released one first: each as a short
    /// name, then as a hash where no such name exists. The merge base of the
    /// two commits bounds the walk, whose commits are delivered without the
    /// merges. An event that was not asked for is rejected.
    pub fn step(self, event: HistoryEvent) -> (r: (Self, HistoryAction))
        ensures
            follows(self.state, event, r.0.state, r.1),
    {
        let done = Repository { state: HistoryState::Finished };
        match (self.state, event) {
            (HistoryState::Opening { release_branch, next_branch }, HistoryEvent::Opened) => {
                let reference = release_branch.clone();
                (
                    Repository {
                        state: HistoryState::ResolvingRelease {
                            stage: LookupStage::ShortName,
                            release_branch,
                            next_branch,
                        },
                    },
                    HistoryAction::LookupShortName { reference },
                )
            },
            (HistoryState::Opening { .. }, HistoryEvent::OpenFailed { cause }) => (
                done,
                HistoryAction::Fail { error: HistoryError::RepositoryOpen { cause } },
            ),
            (
                HistoryState::ResolvingRelease { stage, release_branch, next_branch },
                HistoryEvent::Found { id },
            ) => {
                let reference = next_branch.clone();
                (
                    Repository {
                        state: HistoryState::ResolvingNext {
                            stage: LookupStage::ShortName,
                            release: id,
                            next_branch,
                        },
                    },
                    HistoryAction::LookupShortName { reference },
                )
            },
            (
                HistoryState::ResolvingRelease {
                    stage: LookupStage::ShortName,
                    release_branch,
                    next_branch,
                },
                HistoryEvent::LookupFailed { cause },
            ) => {
                match fallback(release_branch.clone(), cause) {
                    Ok(_) => {
                        let reference = release_branch.clone();
                        (
                            Repository {
                                state: HistoryState::ResolvingRelease {
                                    stage: LookupStage::Hash,
                                    release_branch,
                                    next_branch,
                                },
                            },
                            HistoryAction::LookupCommit { reference },
                        )
                    },
                    Err(error) => (done, HistoryAction::Fail { error }),
                }
            },
            (
                HistoryState::ResolvingRelease {
                    stage: LookupStage::Hash,
                    release_branch,
                    next_branch,
                },
                HistoryEvent::LookupFailed { cause },
            ) => (
                done,
                HistoryAction::Fail {
                    error: HistoryError::ReferenceNotFound {
                        reference: release_branch,
                        lookup: Some(cause),
                    },
                },
            ),
            (
                HistoryState::ResolvingRelease { stage: LookupStage::ShortName, .. },
                HistoryEvent::PeelFailed { cause },
            ) => (done, HistoryAction::Fail { error: HistoryError::Git { cause } }),
            (
                HistoryState::ResolvingNext { stage, release, next_branch },
                HistoryEvent::Found { id },
            ) => (
                Repository { state: HistoryState::FindingMergeBase { release, next: id } },
                HistoryAction::FindMergeBase { release, next: id },
            ),
            (
                HistoryState::ResolvingNext { stage: LookupStage::ShortName, release, next_branch },
                HistoryEvent::LookupFailed { cause },
            ) => {
                match fallback(next_branch.clone(), cause) {
                    Ok(_) => {
                        let reference = next_branch.clone();
                        (
                            Repository {
                                state: HistoryState::ResolvingNext {
                                    stage: LookupStage::Hash,
                                    release,
                                    next_branch,
                                },
                            },
                            HistoryAction::LookupCommit { reference },
                        )
                    },
                    Err(error) => (done, HistoryAction::Fail { error }),
                }
            },
            (
                HistoryState::ResolvingNext { stage: LookupStage::Hash, release, next_branch },
                HistoryEvent::LookupFailed { cause },
            ) => (
                done,
                HistoryAction::Fail {
                    error: HistoryError::ReferenceNotFound {
                        reference: next_branch,
                        lookup: Some(cause),
                    },
                },
            ),
            (
                HistoryState::ResolvingNext { stage: LookupStage::ShortName, .. },
                HistoryEvent::PeelFailed { cause },
            ) => (done, HistoryAction::Fail { error: HistoryError::Git { cause } }),
            (
                HistoryState::FindingMergeBase { release, next },
                HistoryEvent::MergeBase { id },
            ) => (
                Repository { state: HistoryState::Walking { base: id, next } },
                HistoryAction::Walk { base: id, head: next },
            ),
            (
                HistoryState::FindingMergeBase { release, next },
                HistoryEvent::MergeBaseFailed { cause },
            ) => {
                let error = if cause.is_not_found() {
                    HistoryError::NoCommonAncestor { release, next }
                } else {
                    HistoryError::Git { cause }
                };
                (done, HistoryAction::Fail { error })
            },
            (HistoryState::Walking { .. }, HistoryEvent::Walked { commits }) => (
                done,
                HistoryAction::Deliver { commits: Repository::find_unreleased_commits(commits) },
            ),
            (HistoryState::Walking { .. }, HistoryEvent::WalkFailed { cause }) => (
                done,
                HistoryAction::Fail { error: HistoryError::Git { cause } },
            ),
            (state, _) => (Repository { state }, HistoryAction::Reject),
        }
    }
}

} // verus!
