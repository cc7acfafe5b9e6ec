//! Linking commits to tracker stories.

pub mod labels;
pub mod records;
pub mod release;
pub mod round;

pub use crate::shortcut::release::{Release, ShortcutClient};

use crate::pattern::{first_group, regex_accepts, regex_first_group, text_of};
use crate::repo_commits::{
    commits_under, entry_map, entry_names, entry_total, lemma_entry_lookup, lemma_map_push,
    lemma_total_push, RepoCommits, RepoToCommits,
};
use crate::types::{RepositoryName, UnreleasedCommit};
use vstd::prelude::*;

verus! {

/// The forms in which a commit message names a story: `sc-` and digits, `ch`
/// and digits, or `story/` and digits. A reference may stand anywhere in the
/// message, in brackets, behind a slash or on its own, but it starts a word:
/// `aarch64` names no story. Group 1 holds the digits.
pub const STORY_PATTERN: &'static str = "\\b(?:sc-|ch|story/)([0-9]+)";

/// Identifier of a story in the tracker: a positive number.
#[derive(Debug, PartialEq, Eq, Hash, Clone, Copy, Structural)]
pub struct StoryId(pub u32);

/// Whether `c` is one of the decimal digits `0` to `9`.
pub open spec fn is_digit(c: char) -> bool {
    '0' <= c <= '9'
}

/// Whether `text` is one decimal digit or more, and nothing else.
pub open spec fn is_decimal(text: Seq<char>) -> bool {
    text.len() > 0 && forall|i: int| 0 <= i < text.len() ==> is_digit(#[trigger] text[i])
}

/// The number that the decimal digits of `text` spell.
pub open spec fn decimal_value(text: Seq<char>) -> nat
    decreases text.len(),
{
    if text.len() == 0 {
        0
    } else {
        (10 * decimal_value(text.drop_last()) + (text.last() as u32 - '0' as u32)) as nat
    }
}

/// The identifier that `text` spells: it is all decimal digits and its value
/// is positive and fits 32 bits.
pub open spec fn story_id_of_digits(text: Seq<char>) -> Option<StoryId> {
    if is_decimal(text) && 0 < decimal_value(text) <= u32::MAX {
        Some(StoryId(decimal_value(text) as u32))
    } else {
        None
    }
}

/// A longer run of digits spells no smaller a number than its beginning.
pub proof fn lemma_decimal_value_grows(text: Seq<char>, n: int)
    requires
        0 <= n <= text.len(),
        forall|i: int| 0 <= i < text.len() ==> is_digit(#[trigger] text[i]),
    ensures
        decimal_value(text.take(n)) <= decimal_value(text),
    decreases text.len() - n,
{
    if n == text.len() {
        assert(text.take(n) =~= text);
    } else {
        lemma_decimal_value_grows(text, n + 1);
        assert(text.take(n + 1).drop_last() =~= text.take(n));
        assert(is_digit(text[n]));
        assert(text.take(n + 1).last() == text[n]);
    }
}

impl StoryId {
    pub fn new(id: u32) -> (r: Self)
        ensures
            r == StoryId(id),
    {
        StoryId(id)
    }

    /// The number of the story.
    pub fn as_ref(&self) -> (r: &u32)
        ensures
            *r == self.0,
    {
        &self.0
    }

    /// Reads an identifier written in decimal digits. Zero is no identifier.
    pub fn from_str(text: &str) -> (r: Option<StoryId>)
        ensures
            r == story_id_of_digits(text@),
    {
        if !text.is_ascii() {
            proof {
                if is_decimal(text@) {
                    assert forall|i: int| 0 <= i < text@.len() implies '\0' <= #[trigger] text@[i]
                        <= '\u{7f}' by {
                        assert(is_digit(text@[i]));
                    }
                }
            }
            return None;
        }
        let n = text.unicode_len();
        if n == 0 {
            return None;
        }
        let mut value: u32 = 0;
        let mut i: usize = 0;
        while i < n
            invariant
                text.is_ascii(),
                n == text@.len(),
                i <= n,
                forall|j: int| 0 <= j < i ==> is_digit(#[trigger] text@[j]),
                value == decimal_value(text@.take(i as int)),
            decreases n - i,
        {
            let b = text.get_ascii(i);
            if b < 48 || b > 57 {
                assert(!is_digit(text@[i as int]));
                return None;
            }
            let d: u32 = (b - 48) as u32;
            proof {
                assert(text@.take(i + 1).drop_last() =~= text@.take(i as int));
                assert(text@.take(i + 1).last() == text@[i as int]);
                assert(is_digit(text@[i as int]));
                assert(decimal_value(text@.take(i + 1)) == 10 * value + d);
            }
            if value > (u32::MAX - d) / 10 {
                proof {
                    if is_decimal(text@) {
                        lemma_decimal_value_grows(text@, i + 1);
                    }
                }
                return None;
            }
            value = value * 10 + d;
            i += 1;
        }
        proof {
            assert(text@.take(n as int) =~= text@);
        }
        if value == 0 {
            return None;
        }
        Some(StoryId(value))
    }
}


/// The commits of every repository that refer to one story.
#[derive(Debug, PartialEq, Eq)]
pub struct StoryCommits {
    pub story_id: StoryId,
    pub commits: RepoToCommits,
}

/// The identifiers of `stories`, in order.
pub open spec fn story_ids(stories: Seq<StoryCommits>) -> Seq<StoryId> {
    stories.map_values(|s: StoryCommits| s.story_id)
}

/// How many commits `stories` hold in all.
pub open spec fn story_total(stories: Seq<StoryCommits>) -> nat
    decreases stories.len(),
{
    if stories.len() == 0 {
        0
    } else {
        story_total(stories.drop_last()) + stories.last().commits.total()
    }
}

/// The mapping that `stories` stand for: each identifier to the commits of the
/// entry that carries it, by repository.
pub open spec fn story_map(stories: Seq<StoryCommits>) -> Map<
    StoryId,
    Map<Seq<char>, Seq<UnreleasedCommit>>,
> {
    Map::new(
        |id: StoryId| story_ids(stories).contains(id),
        |id: StoryId| stories[story_ids(stories).index_of(id)].commits@,
    )
}

/// The commits by repository filed under `id`, none where the identifier is
/// unknown.
pub open spec fn repos_under(
    map: Map<StoryId, Map<Seq<char>, Seq<UnreleasedCommit>>>,
    id: StoryId,
) -> Map<Seq<char>, Seq<UnreleasedCommit>> {
    if map.contains_key(id) {
        map[id]
    } else {
        Map::empty()
    }
}

/// With distinct identifiers, the entry found for one is the one that carries it.
pub proof fn lemma_story_lookup(stories: Seq<StoryCommits>, i: int)
    requires
        story_ids(stories).no_duplicates(),
        0 <= i < stories.len(),
    ensures
        story_ids(stories).contains(stories[i].story_id),
        story_ids(stories).index_of(stories[i].story_id) == i,
        story_map(stories).contains_key(stories[i].story_id),
        story_map(stories)[stories[i].story_id] == stories[i].commits@,
{
    let ids = story_ids(stories);
    assert(ids[i] == stories[i].story_id);
    let k = ids.index_of(stories[i].story_id);
    assert(0 <= k < ids.len() && ids[k] == stories[i].story_id);
}

/// Appending an entry adds its commits to the total.
pub proof fn lemma_story_total_push(stories: Seq<StoryCommits>, story: StoryCommits)
    ensures
        story_total(stories.push(story)) == story_total(stories) + story.commits.total(),
{
    assert(stories.push(story).drop_last() =~= stories);
}

/// Replacing one entry changes the total by the difference of the two totals.
pub proof fn lemma_story_total_update(stories: Seq<StoryCommits>, i: int, story: StoryCommits)
    requires
        0 <= i < stories.len(),
    ensures
        story_total(stories.update(i, story)) + stories[i].commits.total() == story_total(stories)
            + story.commits.total(),
    decreases stories.len(),
{
    let updated = stories.update(i, story);
    if i == stories.len() - 1 {
        assert(updated.drop_last() =~= stories.drop_last());
    } else {
        lemma_story_total_update(stories.drop_last(), i, story);
        assert(updated.drop_last() =~= stories.drop_last().update(i, story));
    }
}

/// Appending an entry under a new identifier keeps the identifiers distinct and
/// files its commits under that identifier.
pub proof fn lemma_story_map_push(stories: Seq<StoryCommits>, story: StoryCommits)
    requires
        story_ids(stories).no_duplicates(),
        !story_ids(stories).contains(story.story_id),
    ensures
        story_ids(stories.push(story)).no_duplicates(),
        story_map(stories.push(story)) == story_map(stories).insert(
            story.story_id,
            story.commits@,
        ),
{
    let after = stories.push(story);
    let ids = story_ids(stories);
    let ids_after = story_ids(after);
    let target = story_map(stories).insert(story.story_id, story.commits@);
    assert(ids_after =~= ids.push(story.story_id));
    assert forall|a: int, b: int|
        0 <= a < ids_after.len() && 0 <= b < ids_after.len() && a != b implies ids_after[a]
        != ids_after[b] by {
        if a < ids.len() {
            assert(ids[a] == ids_after[a]);
        }
        if b < ids.len() {
            assert(ids[b] == ids_after[b]);
        }
    }
    assert forall|id: StoryId| #[trigger] story_map(after).contains_key(id) implies
        target.contains_key(id) && story_map(after)[id] == target[id] by {
        let k = ids_after.index_of(id);
        assert(0 <= k < ids_after.len() && ids_after[k] == id);
        if k < ids.len() {
            assert(ids[k] == id);
            lemma_story_lookup(stories, k);
            assert(after[k] == stories[k]);
        }
    }
    assert forall|id: StoryId| #[trigger] target.contains_key(id) implies story_map(
        after,
    ).contains_key(id) by {
        if id == story.story_id {
            assert(ids_after[ids.len() as int] == id);
        } else {
            let k = ids.index_of(id);
            assert(0 <= k < ids.len() && ids[k] == id);
            assert(ids_after[k] == id);
        }
    }
    assert(story_map(after) =~= target);
}

/// Replacing the commits of one entry files the new commits under its
/// identifier and leaves the others.
pub proof fn lemma_story_map_update(stories: Seq<StoryCommits>, i: int, story: StoryCommits)
    requires
        story_ids(stories).no_duplicates(),
        0 <= i < stories.len(),
        story.story_id == stories[i].story_id,
    ensures
        story_ids(stories.update(i, story)) == story_ids(stories),
        story_map(stories.update(i, story)) == story_map(stories).insert(
            story.story_id,
            story.commits@,
        ),
{
    let after = stories.update(i, story);
    let target = story_map(stories).insert(story.story_id, story.commits@);
    assert(story_ids(after) =~= story_ids(stories));
    lemma_story_lookup(stories, i);
    lemma_story_lookup(after, i);
    assert forall|id: StoryId| #[trigger] story_map(after).contains_key(id) implies story_map(
        after,
    )[id] == target[id] by {
        let k = story_ids(after).index_of(id);
        assert(0 <= k < after.len() && story_ids(after)[k] == id);
        if id != story.story_id {
            assert(after[k] == stories[k]);
        }
    }
    assert(story_map(after) =~= target);
}

/// Commits sorted by the story they refer to, and those that refer to none.
#[derive(Debug, PartialEq, Eq)]
pub struct Commits {
    story_commits: Vec<StoryCommits>,
    unparsed_commits: RepoToCommits,
}

impl Commits {
    /// The story entries in the order their identifiers first came in.
    pub closed spec fn stories(&self) -> Seq<StoryCommits> {
        self.story_commits@
    }

    /// The commits that refer to no story.
    pub closed spec fn unparsed(&self) -> RepoToCommits {
        self.unparsed_commits
    }

    /// No identifier is carried by two entries, and no repository name twice
    /// within one mapping.
    pub open spec fn wf(&self) -> bool {
        &&& story_ids(self.stories()).no_duplicates()
        &&& forall|i: int|
            0 <= i < self.stories().len() ==> (#[trigger] self.stories()[i]).commits.wf()
        &&& self.unparsed().wf()
    }

    /// The mapping from story to commits by repository.
    pub open spec fn story_commits(&self) -> Map<StoryId, Map<Seq<char>, Seq<UnreleasedCommit>>> {
        story_map(self.stories())
    }

    /// The mapping from repository to the commits that refer to no story.
    pub open spec fn unparsed_commits(&self) -> Map<Seq<char>, Seq<UnreleasedCommit>> {
        self.unparsed()@
    }

    /// How many commits are held in all.
    pub open spec fn total(&self) -> nat {
        story_total(self.stories()) + self.unparsed().total()
    }

    pub fn new() -> (r: Self)
        ensures
            r.wf(),
            r.stories() == Seq::<StoryCommits>::empty(),
            r.story_commits() == Map::<StoryId, Map<Seq<char>, Seq<UnreleasedCommit>>>::empty(),
            r.unparsed_commits() == Map::<Seq<char>, Seq<UnreleasedCommit>>::empty(),
            r.total() == 0,
    {
        let r = Commits { story_commits: Vec::new(), unparsed_commits: RepoToCommits::new() };
        assert(r.story_commits() =~= Map::<
            StoryId,
            Map<Seq<char>, Seq<UnreleasedCommit>>,
        >::empty());
        r
    }

    /// The story entries, for reading.
    pub fn as_stories(&self) -> (r: &Vec<StoryCommits>)
        ensures
            r@ == self.stories(),
    {
        &self.story_commits
    }

    /// The commits that refer to no story, for reading.
    pub fn as_unparsed(&self) -> (r: &RepoToCommits)
        ensures
            *r == self.unparsed(),
    {
        &self.unparsed_commits
    }

    /// Gives up the commits that refer to no story.
    pub fn into_unparsed(self) -> (r: RepoToCommits)
        ensures
            r == self.unparsed(),
    {
        self.unparsed_commits
    }

    /// Where the entry of story `id` stands, if there is one.
    pub fn position(&self, id: StoryId) -> (r: Option<usize>)
        ensures
            match r {
                Some(i) => i < self.stories().len() && self.stories()[i as int].story_id == id,
                None => !story_ids(self.stories()).contains(id),
            },
    {
        let mut i: usize = 0;
        while i < self.story_commits.len()
            invariant
                i <= self.story_commits@.len(),
                forall|j: int| 0 <= j < i ==> self.story_commits@[j].story_id != id,
            decreases self.story_commits@.len() - i,
        {
            if self.story_commits[i].story_id.0 == id.0 {
                return Some(i);
            }
            i += 1;
        }
        None
    }

    /// Files `commit` of repository `name` among those that refer to no story.
    pub fn push_unparsed(&mut self, name: &RepositoryName, commit: UnreleasedCommit)
        requires
            old(self).wf(),
        ensures
            final(self).wf(),
            final(self).story_commits() == old(self).story_commits(),
            final(self).unparsed_commits() == old(self).unparsed_commits().insert(
                name@,
                commits_under(old(self).unparsed_commits(), name@).push(commit),
            ),
            final(self).total() == old(self).total() + 1,
    {
        self.unparsed_commits.push(name, commit);
    }

    /// Files `commit` of repository `name` under story `id`.
    pub fn push_story(&mut self, id: StoryId, name: &RepositoryName, commit: UnreleasedCommit)
        requires
            old(self).wf(),
        ensures
            final(self).wf(),
            final(self).unparsed_commits() == old(self).unparsed_commits(),
            final(self).story_commits() == old(self).story_commits().insert(
                id,
                repos_under(old(self).story_commits(), id).insert(
                    name@,
                    commits_under(repos_under(old(self).story_commits(), id), name@).push(commit),
                ),
            ),
            final(self).total() == old(self).total() + 1,
    {
        let ghost before = self.story_commits@;
        match self.position(id) {
            Some(i) => {
                proof {
                    lemma_story_lookup(before, i as int);
                }
                self.story_commits[i].commits.push(name, commit);
                proof {
                    let after = self.story_commits@;
                    let story = after[i as int];
                    assert(after =~= before.update(i as int, story));
                    lemma_story_total_update(before, i as int, story);
                    lemma_story_map_update(before, i as int, story);
                    assert forall|j: int| 0 <= j < after.len() implies (
                    #[trigger] after[j]).commits.wf() by {
                        if j != i {
                            assert(after[j] == before[j]);
                        }
                    }
                }
            },
            None => {
                let mut commits = RepoToCommits::new();
                commits.push(name, commit);
                let story = StoryCommits { story_id: id, commits };
                proof {
                    lemma_story_total_push(before, story);
                    lemma_story_map_push(before, story);
                }
                self.story_commits.push(story);
                proof {
                    let after = self.story_commits@;
                    assert forall|j: int| 0 <= j < after.len() implies (
                    #[trigger] after[j]).commits.wf() by {
                        if j < before.len() {
                            assert(after[j] == before[j]);
                        }
                    }
                }
            },
        }
    }
}


/// A story pattern that the `regex` crate refuses.
#[derive(Debug)]
pub struct PatternError {
    pub cause: regex::Error,
}

/// The story that a message refers to, going by the digits captured in it: the
/// digits spell an identifier and `excluded` does not hold it.
pub open spec fn story_of_capture(capture: Option<Seq<char>>, excluded: Seq<StoryId>) -> Option<
    StoryId,
> {
    match capture {
        Some(digits) => match story_id_of_digits(digits) {
            Some(id) => if excluded.contains(id) {
                None
            } else {
                Some(id)
            },
            None => None,
        },
        None => None,
    }
}

/// The story that a commit with this message is linked to, if any.
pub open spec fn story_of_message(message: Option<Seq<char>>, excluded: Seq<StoryId>) -> Option<
    StoryId,
> {
    match message {
        Some(text) => story_of_capture(regex_first_group(STORY_PATTERN@, text), excluded),
        None => None,
    }
}

/// Where `commit` belongs: under a story, or with `None` among the unparsed.
pub open spec fn bucket_of(commit: UnreleasedCommit, excluded: Seq<StoryId>) -> Option<StoryId> {
    story_of_message(commit.text(), excluded)
}

/// Those of `commits` that belong to `bucket`, in their order.
pub open spec fn selected(
    commits: Seq<UnreleasedCommit>,
    excluded: Seq<StoryId>,
    bucket: Option<StoryId>,
) -> Seq<UnreleasedCommit> {
    commits.filter(|c: UnreleasedCommit| bucket_of(c, excluded) == bucket)
}

/// What `bucket` holds of `input`: for each repository with a commit that
/// belongs there, those commits in their order.
pub open spec fn bucket_map(
    input: Map<Seq<char>, Seq<UnreleasedCommit>>,
    excluded: Seq<StoryId>,
    bucket: Option<StoryId>,
) -> Map<Seq<char>, Seq<UnreleasedCommit>> {
    Map::new(
        |name: Seq<char>|
            input.contains_key(name) && selected(input[name], excluded, bucket).len() > 0,
        |name: Seq<char>| selected(input[name], excluded, bucket),
    )
}

/// The stories that `input` is linked to: each story that a commit refers to,
/// with what its bucket holds.
pub open spec fn linked_stories(
    input: Map<Seq<char>, Seq<UnreleasedCommit>>,
    excluded: Seq<StoryId>,
) -> Map<StoryId, Map<Seq<char>, Seq<UnreleasedCommit>>> {
    Map::new(
        |id: StoryId|
            exists|name: Seq<char>| #[trigger]
                bucket_map(input, excluded, Some(id)).contains_key(name),
        |id: StoryId| bucket_map(input, excluded, Some(id)),
    )
}

/// Whether `linked` is `input` sorted by story: the unparsed commits are what
/// the bucket without story holds, and each story that a commit refers to has
/// what its bucket holds.
pub open spec fn is_linking_of(
    linked: Commits,
    input: Map<Seq<char>, Seq<UnreleasedCommit>>,
    excluded: Seq<StoryId>,
) -> bool {
    &&& linked.unparsed_commits() == bucket_map(input, excluded, None)
    &&& linked.story_commits() == linked_stories(input, excluded)
}

/// How often `commit` occurs in `commits`.
pub open spec fn occurrences(commits: Seq<UnreleasedCommit>, commit: UnreleasedCommit) -> nat
    decreases commits.len(),
{
    if commits.len() == 0 {
        0
    } else {
        occurrences(commits.drop_last(), commit) + if commits.last() == commit {
            1nat
        } else {
            0nat
        }
    }
}

/// One more commit joins the selection of its own bucket and no other.
pub proof fn lemma_selected_push(
    commits: Seq<UnreleasedCommit>,
    commit: UnreleasedCommit,
    excluded: Seq<StoryId>,
    bucket: Option<StoryId>,
)
    ensures
        selected(commits.push(commit), excluded, bucket) == if bucket_of(commit, excluded)
            == bucket {
            selected(commits, excluded, bucket).push(commit)
        } else {
            selected(commits, excluded, bucket)
        },
        selected(Seq::empty(), excluded, bucket) == Seq::<UnreleasedCommit>::empty(),
{
    reveal(Seq::filter);
    assert(commits.push(commit).drop_last() =~= commits);
}

/// A repository without commits adds nothing to a bucket.
proof fn lemma_bucket_fresh(
    done: Map<Seq<char>, Seq<UnreleasedCommit>>,
    name: Seq<char>,
    excluded: Seq<StoryId>,
    bucket: Option<StoryId>,
)
    requires
        !done.contains_key(name),
    ensures
        bucket_map(done.insert(name, Seq::empty()), excluded, bucket) == bucket_map(
            done,
            excluded,
            bucket,
        ),
{
    lemma_selected_push(Seq::empty(), arbitrary(), excluded, bucket);
    assert(bucket_map(done.insert(name, Seq::empty()), excluded, bucket) =~= bucket_map(
        done,
        excluded,
        bucket,
    ));
}

/// A repository without commits adds no story.
proof fn lemma_stories_fresh(
    done: Map<Seq<char>, Seq<UnreleasedCommit>>,
    name: Seq<char>,
    excluded: Seq<StoryId>,
)
    requires
        !done.contains_key(name),
    ensures
        linked_stories(done.insert(name, Seq::empty()), excluded) == linked_stories(done, excluded),
{
    let with_name = done.insert(name, Seq::empty());
    assert forall|id: StoryId|
        linked_stories(with_name, excluded).contains_key(id) == linked_stories(
            done,
            excluded,
        ).contains_key(id) && bucket_map(with_name, excluded, Some(id)) == bucket_map(
            done,
            excluded,
            Some(id),
        ) by {
        lemma_bucket_fresh(done, name, excluded, Some(id));
    }
    assert(linked_stories(with_name, excluded) =~= linked_stories(done, excluded));
}

/// What one more commit of repository `name` does to a bucket.
proof fn lemma_bucket_step(
    cur: Map<Seq<char>, Seq<UnreleasedCommit>>,
    name: Seq<char>,
    commit: UnreleasedCommit,
    excluded: Seq<StoryId>,
    bucket: Option<StoryId>,
)
    requires
        cur.contains_key(name),
    ensures
        bucket_map(cur.insert(name, cur[name].push(commit)), excluded, bucket) == if bucket_of(
            commit,
            excluded,
        ) == bucket {
            bucket_map(cur, excluded, bucket).insert(
                name,
                commits_under(bucket_map(cur, excluded, bucket), name).push(commit),
            )
        } else {
            bucket_map(cur, excluded, bucket)
        },
{
    let next = cur.insert(name, cur[name].push(commit));
    let before = bucket_map(cur, excluded, bucket);
    lemma_selected_push(cur[name], commit, excluded, bucket);
    if bucket_of(commit, excluded) == bucket {
        let target = before.insert(name, commits_under(before, name).push(commit));
        assert(commits_under(before, name) =~= selected(cur[name], excluded, bucket));
        assert(bucket_map(next, excluded, bucket) =~= target);
    } else {
        assert(bucket_map(next, excluded, bucket) =~= before);
    }
}

/// What one more commit of repository `name` does to the linked stories.
proof fn lemma_stories_step(
    cur: Map<Seq<char>, Seq<UnreleasedCommit>>,
    name: Seq<char>,
    commit: UnreleasedCommit,
    excluded: Seq<StoryId>,
)
    requires
        cur.contains_key(name),
    ensures
        linked_stories(cur.insert(name, cur[name].push(commit)), excluded) == match bucket_of(
            commit,
            excluded,
        ) {
            Some(id) => linked_stories(cur, excluded).insert(
                id,
                repos_under(linked_stories(cur, excluded), id).insert(
                    name,
                    commits_under(repos_under(linked_stories(cur, excluded), id), name).push(
                        commit,
                    ),
                ),
            ),
            None => linked_stories(cur, excluded),
        },
{
    let next = cur.insert(name, cur[name].push(commit));
    let before = linked_stories(cur, excluded);
    let after = linked_stories(next, excluded);
    assert forall|id: StoryId|
        #[trigger] bucket_map(next, excluded, Some(id)) == if bucket_of(commit, excluded) == Some(
            id,
        ) {
            bucket_map(cur, excluded, Some(id)).insert(
                name,
                commits_under(bucket_map(cur, excluded, Some(id)), name).push(commit),
            )
        } else {
            bucket_map(cur, excluded, Some(id))
        } by {
        lemma_bucket_step(cur, name, commit, excluded, Some(id));
    }
    match bucket_of(commit, excluded) {
        Some(id) => {
            let under = repos_under(before, id);
            let target = before.insert(
                id,
                under.insert(name, commits_under(under, name).push(commit)),
            );
            assert(under =~= bucket_map(cur, excluded, Some(id)));
            assert(bucket_map(next, excluded, Some(id)).contains_key(name));
            assert forall|other: StoryId| #[trigger] after.contains_key(other) implies
                target.contains_key(other) by {
                if other != id {
                    assert(bucket_map(next, excluded, Some(other)) == bucket_map(
                        cur,
                        excluded,
                        Some(other),
                    ));
                }
            }
            assert forall|other: StoryId| #[trigger] target.contains_key(other) implies
                after.contains_key(other) by {
                if other != id {
                    assert(bucket_map(next, excluded, Some(other)) == bucket_map(
                        cur,
                        excluded,
                        Some(other),
                    ));
                }
            }
            assert(after =~= target);
        },
        None => {
            assert forall|other: StoryId| after.contains_key(other) == before.contains_key(
                other,
            ) by {
                assert(bucket_map(next, excluded, Some(other)) == bucket_map(
                    cur,
                    excluded,
                    Some(other),
                ));
            }
            assert(after =~= before);
        },
    }
}

/// A selection holds a commit as often as the commits it was made from where
/// the commit belongs to the bucket, and not at all where it does not.
pub proof fn lemma_selected_occurrences(
    commits: Seq<UnreleasedCommit>,
    excluded: Seq<StoryId>,
    bucket: Option<StoryId>,
    commit: UnreleasedCommit,
)
    ensures
        occurrences(selected(commits, excluded, bucket), commit) == if bucket_of(commit, excluded)
            == bucket {
            occurrences(commits, commit)
        } else {
            0
        },
    decreases commits.len(),
{
    if commits.len() == 0 {
        lemma_selected_push(commits, commit, excluded, bucket);
        assert(commits =~= Seq::<UnreleasedCommit>::empty());
    } else {
        let rest = commits.drop_last();
        let last = commits.last();
        lemma_selected_occurrences(rest, excluded, bucket, commit);
        lemma_selected_push(rest, last, excluded, bucket);
        assert(rest.push(last) =~= commits);
        if bucket_of(last, excluded) == bucket {
            assert(selected(rest, excluded, bucket).push(last).drop_last() =~= selected(
                rest,
                excluded,
                bucket,
            ));
        }
    }
}

/// The linking is a partition. Under each repository a commit stands as often
/// as in the input in the one place where it belongs, and nowhere else: among
/// the unparsed where it is linked to no story, else under its story alone.
pub proof fn lemma_link_partitions(
    linked: Commits,
    input: Map<Seq<char>, Seq<UnreleasedCommit>>,
    excluded: Seq<StoryId>,
    name: Seq<char>,
    commit: UnreleasedCommit,
)
    requires
        is_linking_of(linked, input, excluded),
    ensures
        occurrences(commits_under(linked.unparsed_commits(), name), commit) == if bucket_of(
            commit,
            excluded,
        ) is None {
            occurrences(commits_under(input, name), commit)
        } else {
            0
        },
        forall|id: StoryId|
            occurrences(
                commits_under(#[trigger] repos_under(linked.story_commits(), id), name),
                commit,
            ) == if bucket_of(commit, excluded) == Some(id) {
                occurrences(commits_under(input, name), commit)
            } else {
                0
            },
{
    lemma_bucket_occurrences(input, excluded, None, name, commit);
    assert forall|id: StoryId|
        occurrences(
            commits_under(#[trigger] repos_under(linked.story_commits(), id), name),
            commit,
        ) == if bucket_of(commit, excluded) == Some(id) {
            occurrences(commits_under(input, name), commit)
        } else {
            0
        } by {
        lemma_bucket_occurrences(input, excluded, Some(id), name, commit);
        let bucket = bucket_map(input, excluded, Some(id));
        if !linked.story_commits().contains_key(id) {
            assert(!bucket.contains_key(name));
        }
    }
}

/// What a bucket holds of a commit under one repository.
proof fn lemma_bucket_occurrences(
    input: Map<Seq<char>, Seq<UnreleasedCommit>>,
    excluded: Seq<StoryId>,
    bucket: Option<StoryId>,
    name: Seq<char>,
    commit: UnreleasedCommit,
)
    ensures
        occurrences(commits_under(bucket_map(input, excluded, bucket), name), commit)
            == if bucket_of(commit, excluded) == bucket {
            occurrences(commits_under(input, name), commit)
        } else {
            0
        },
{
    if input.contains_key(name) {
        lemma_selected_occurrences(input[name], excluded, bucket, commit);
        if selected(input[name], excluded, bucket).len() == 0 {
            assert(selected(input[name], excluded, bucket) =~= Seq::<UnreleasedCommit>::empty());
        }
    }
}

/// Linking the same input with the same exclusions gives the same result.
pub proof fn lemma_link_deterministic(
    first: Commits,
    second: Commits,
    input: Map<Seq<char>, Seq<UnreleasedCommit>>,
    excluded: Seq<StoryId>,
)
    requires
        is_linking_of(first, input, excluded),
        is_linking_of(second, input, excluded),
    ensures
        first.unparsed_commits() == second.unparsed_commits(),
        first.story_commits() == second.story_commits(),
{
}

/// Whether `exclude` holds `id`.
pub fn is_excluded(id: StoryId, exclude: &Vec<StoryId>) -> (r: bool)
    ensures
        r == exclude@.contains(id),
{
    let mut i: usize = 0;
    while i < exclude.len()
        invariant
            i <= exclude@.len(),
            forall|j: int| 0 <= j < i ==> exclude@[j] != id,
        decreases exclude@.len() - i,
    {
        if exclude[i].0 == id.0 {
            return true;
        }
        i += 1;
    }
    false
}

/// The story that a message is linked to, given what the story pattern
/// captured in it.
pub fn story_from_capture(capture: &Option<String>, exclude: &Vec<StoryId>) -> (r: Option<StoryId>)
    ensures
        r == story_of_capture(text_of(*capture), exclude@),
{
    match capture {
        Some(digits) => match StoryId::from_str(digits.as_str()) {
            Some(id) => if is_excluded(id, exclude) {
                None
            } else {
                Some(id)
            },
            None => None,
        },
        None => None,
    }
}

/// The story that `commit` is linked to: the first reference in its message
/// that the story pattern finds, unless `exclude` holds it.
pub fn story_of_commit(commit: &UnreleasedCommit, exclude: &Vec<StoryId>) -> (r: Result<
    Option<StoryId>,
    PatternError,
>)
    ensures
        r is Ok <==> commit.message is None || regex_accepts(STORY_PATTERN@),
        r matches Ok(story) ==> story == bucket_of(*commit, exclude@),
{
    match &commit.message {
        Some(message) => match first_group(STORY_PATTERN, message.as_str()) {
            Ok(capture) => Ok(story_from_capture(&capture, exclude)),
            Err(cause) => Err(PatternError { cause }),
        },
        None => Ok(None),
    }
}

/// Links the commits of one repository, which `linked` has not seen yet.
fn link_repository(
    linked: &mut Commits,
    name: &RepositoryName,
    commits: Vec<UnreleasedCommit>,
    exclude: &Vec<StoryId>,
    Ghost(done): Ghost<Map<Seq<char>, Seq<UnreleasedCommit>>>,
)
    requires
        old(linked).wf(),
        regex_accepts(STORY_PATTERN@),
        !done.contains_key(name@),
        old(linked).unparsed_commits() == bucket_map(done, exclude@, None),
        old(linked).story_commits() == linked_stories(done, exclude@),
    ensures
        final(linked).wf(),
        final(linked).unparsed_commits() == bucket_map(
            done.insert(name@, commits@),
            exclude@,
            None,
        ),
        final(linked).story_commits() == linked_stories(done.insert(name@, commits@), exclude@),
        final(linked).total() == old(linked).total() + commits@.len(),
{
    let ghost all = commits@;
    let ghost start = linked.total();
    proof {
        lemma_bucket_fresh(done, name@, exclude@, None);
        lemma_stories_fresh(done, name@, exclude@);
        assert(all.take(0) =~= Seq::<UnreleasedCommit>::empty());
    }
    for commit in it: commits
        invariant
            it.seq() == all,
            linked.wf(),
            regex_accepts(STORY_PATTERN@),
            linked.unparsed_commits() == bucket_map(
                done.insert(name@, all.take(it.index() as int)),
                exclude@,
                None,
            ),
            linked.story_commits() == linked_stories(
                done.insert(name@, all.take(it.index() as int)),
                exclude@,
            ),
            linked.total() == start + it.index(),
    {
        let ghost j = it.index() as int;
        let ghost cur = done.insert(name@, all.take(j));
        proof {
            assert(all.take(j + 1) =~= all.take(j).push(commit));
            assert(cur.insert(name@, cur[name@].push(commit)) =~= done.insert(
                name@,
                all.take(j + 1),
            ));
            lemma_bucket_step(cur, name@, commit, exclude@, None);
            lemma_stories_step(cur, name@, commit, exclude@);
        }
        match story_of_commit(&commit, exclude) {
            Ok(Some(id)) => linked.push_story(id, name, commit),
            Ok(None) => linked.push_unparsed(name, commit),
            Err(_) => {
                assert(false);
            },
        }
    }
    proof {
        assert(all.take(all.len() as int) =~= all);
    }
}

/// Sorts the commits of every repository by the story that their message
/// refers to, and keeps apart those that refer to none or to a story in
/// `exclude`.
pub fn parse_commits(commits: RepoToCommits, exclude: &Vec<StoryId>) -> (r: Result<
    Commits,
    PatternError,
>)
    requires
        commits.wf(),
    ensures
        r is Ok <==> regex_accepts(STORY_PATTERN@),
        r matches Ok(linked) ==> linked.wf() && is_linking_of(linked, commits@, exclude@)
            && linked.total() == commits.total(),
{
    match first_group(STORY_PATTERN, "") {
        Ok(_) => {},
        Err(cause) => {
            return Err(PatternError { cause });
        },
    }
    let ghost input = commits.entries();
    let entries = commits.into_entries();
    let mut linked = Commits::new();
    proof {
        assert(input.take(0) =~= Seq::<RepoCommits>::empty());
        assert(entry_map(input.take(0)) =~= Map::<Seq<char>, Seq<UnreleasedCommit>>::empty());
        assert(bucket_map(entry_map(input.take(0)), exclude@, None) =~= Map::<
            Seq<char>,
            Seq<UnreleasedCommit>,
        >::empty());
        assert(linked_stories(entry_map(input.take(0)), exclude@) =~= Map::<
            StoryId,
            Map<Seq<char>, Seq<UnreleasedCommit>>,
        >::empty());
    }
    for entry in it: entries
        invariant
            it.seq() == input,
            entry_names(input).no_duplicates(),
            regex_accepts(STORY_PATTERN@),
            linked.wf(),
            linked.unparsed_commits() == bucket_map(
                entry_map(input.take(it.index() as int)),
                exclude@,
                None,
            ),
            linked.story_commits() == linked_stories(
                entry_map(input.take(it.index() as int)),
                exclude@,
            ),
            linked.total() == entry_total(input.take(it.index() as int)),
    {
        let ghost i = it.index() as int;
        let ghost seen = input.take(i);
        let ghost done = entry_map(seen);
        proof {
            assert(input.take(i + 1) =~= seen.push(entry));
            assert(entry_names(seen) =~= entry_names(input).take(i));
            assert(entry_names(input)[i] == entry.name@);
            assert(entry_names(seen).no_duplicates());
            if entry_names(seen).contains(entry.name@) {
                let k = choose|k: int|
                    0 <= k < entry_names(seen).len() && entry_names(seen)[k] == entry.name@;
                assert(entry_names(input)[k] == entry_names(input)[i]);
            }
            lemma_map_push(seen, entry);
            lemma_total_push(seen, entry);
        }
        let RepoCommits { name, commits } = entry;
        link_repository(&mut linked, &name, commits, exclude, Ghost(done));
    }
    proof {
        assert(input.take(input.len() as int) =~= input);
    }
    Ok(linked)
}

} // verus!
