//! Commits grouped by the repository they were found in.

use crate::types::{RepositoryName, UnreleasedCommit};
use vstd::prelude::*;

verus! {

/// The commits of one repository, in the order they were added.
#[derive(Debug, PartialEq, Eq)]
pub struct RepoCommits {
    pub name: RepositoryName,
    pub commits: Vec<UnreleasedCommit>,
}

/// The repository names of `entries`, in order.
pub open spec fn entry_names(entries: Seq<RepoCommits>) -> Seq<Seq<char>> {
    entries.map_values(|e: RepoCommits| e.name@)
}

/// How many commits `entries` hold in all.
pub open spec fn entry_total(entries: Seq<RepoCommits>) -> nat
    decreases entries.len(),
{
    if entries.len() == 0 {
        0
    } else {
        entry_total(entries.drop_last()) + entries.last().commits@.len()
    }
}

/// The mapping that `entries` stand for: each name to the commits of the entry
/// that carries it.
pub open spec fn entry_map(entries: Seq<RepoCommits>) -> Map<Seq<char>, Seq<UnreleasedCommit>> {
    Map::new(
        |name: Seq<char>| entry_names(entries).contains(name),
        |name: Seq<char>| entries[entry_names(entries).index_of(name)].commits@,
    )
}

/// The commits filed under `name`, none where the name is unknown.
pub open spec fn commits_under(
    map: Map<Seq<char>, Seq<UnreleasedCommit>>,
    name: Seq<char>,
) -> Seq<UnreleasedCommit> {
    if map.contains_key(name) {
        map[name]
    } else {
        Seq::empty()
    }
}

/// With distinct names, the entry found for a name is the one that carries it.
pub proof fn lemma_entry_lookup(entries: Seq<RepoCommits>, i: int)
    requires
        entry_names(entries).no_duplicates(),
        0 <= i < entries.len(),
    ensures
        entry_names(entries).contains(entries[i].name@),
        entry_names(entries).index_of(entries[i].name@) == i,
        entry_map(entries).contains_key(entries[i].name@),
        entry_map(entries)[entries[i].name@] == entries[i].commits@,
{
    let names = entry_names(entries);
    assert(names[i] == entries[i].name@);
    let k = names.index_of(entries[i].name@);
    assert(0 <= k < names.len() && names[k] == entries[i].name@);
}

/// Appending an entry adds its commits to the total.
pub proof fn lemma_total_push(entries: Seq<RepoCommits>, entry: RepoCommits)
    ensures
        entry_total(entries.push(entry)) == entry_total(entries) + entry.commits@.len(),
{
    assert(entries.push(entry).drop_last() =~= entries);
}

/// Replacing one entry changes the total by the difference of the two lengths.
pub proof fn lemma_total_update(entries: Seq<RepoCommits>, i: int, entry: RepoCommits)
    requires
        0 <= i < entries.len(),
    ensures
        entry_total(entries.update(i, entry)) + entries[i].commits@.len() == entry_total(entries)
            + entry.commits@.len(),
    decreases entries.len(),
{
    let updated = entries.update(i, entry);
    if i == entries.len() - 1 {
        assert(updated.drop_last() =~= entries.drop_last());
    } else {
        lemma_total_update(entries.drop_last(), i, entry);
        assert(updated.drop_last() =~= entries.drop_last().update(i, entry));
    }
}

/// Replacing the commits of one entry files the new commits under its name
/// and leaves the rest.
pub proof fn lemma_map_update(entries: Seq<RepoCommits>, i: int, entry: RepoCommits)
    requires
        entry_names(entries).no_duplicates(),
        0 <= i < entries.len(),
        entry.name@ == entries[i].name@,
    ensures
        entry_names(entries.update(i, entry)) == entry_names(entries),
        entry_map(entries.update(i, entry)) == entry_map(entries).insert(
            entry.name@,
            entry.commits@,
        ),
{
    let after = entries.update(i, entry);
    let target = entry_map(entries).insert(entry.name@, entry.commits@);
    assert(entry_names(after) =~= entry_names(entries));
    lemma_entry_lookup(entries, i);
    lemma_entry_lookup(after, i);
    assert forall|n: Seq<char>| #[trigger] entry_map(after).contains_key(n) implies entry_map(
        after,
    )[n] == target[n] by {
        let k = entry_names(after).index_of(n);
        assert(0 <= k < after.len() && entry_names(after)[k] == n);
        if n != entry.name@ {
            assert(after[k] == entries[k]);
        }
    }
    assert(entry_map(after) =~= target);
}

/// A repository name -> unreleased commits mapping
#[derive(Debug, PartialEq, Eq)]
pub struct RepoToCommits {
    entries: Vec<RepoCommits>,
}

impl RepoToCommits {
    /// The entries in the order their names first came in.
    pub closed spec fn entries(&self) -> Seq<RepoCommits> {
        self.entries@
    }

    /// No name is carried by two entries.
    pub open spec fn wf(&self) -> bool {
        entry_names(self.entries()).no_duplicates()
    }

    /// The mapping from name to commits.
    pub open spec fn view(&self) -> Map<Seq<char>, Seq<UnreleasedCommit>> {
        entry_map(self.entries())
    }

    /// How many commits the mapping holds in all.
    pub open spec fn total(&self) -> nat {
        entry_total(self.entries())
    }

    pub fn new() -> (r: Self)
        ensures
            r.wf(),
            r.entries() == Seq::<RepoCommits>::empty(),
            r@ == Map::<Seq<char>, Seq<UnreleasedCommit>>::empty(),
            r.total() == 0,
    {
        let r = RepoToCommits { entries: Vec::new() };
        assert(r@ =~= Map::<Seq<char>, Seq<UnreleasedCommit>>::empty());
        r
    }

    /// How many repositories have an entry.
    pub fn len(&self) -> (r: usize)
        ensures
            r == self.entries().len(),
    {
        self.entries.len()
    }

    pub fn is_empty(&self) -> (r: bool)
        ensures
            r == (self.entries().len() == 0),
    {
        self.entries.len() == 0
    }

    /// The entries, for reading.
    pub fn as_entries(&self) -> (r: &Vec<RepoCommits>)
        ensures
            r@ == self.entries(),
    {
        &self.entries
    }

    /// Gives the entries up.
    pub fn into_entries(self) -> (r: Vec<RepoCommits>)
        ensures
            r@ == self.entries(),
    {
        self.entries
    }

    /// Where the entry of `name` stands, if there is one.
    pub fn position(&self, name: &RepositoryName) -> (r: Option<usize>)
        ensures
            match r {
                Some(i) => i < self.entries().len() && self.entries()[i as int].name@ == name@,
                None => !entry_names(self.entries()).contains(name@),
            },
    {
        let mut i: usize = 0;
        while i < self.entries.len()
            invariant
                i <= self.entries@.len(),
                forall|j: int| 0 <= j < i ==> self.entries@[j].name@ != name@,
            decreases self.entries@.len() - i,
        {
            if self.entries[i].name.same_as(name) {
                return Some(i);
            }
            i += 1;
        }
        None
    }

    /// The commits filed under `name`.
    pub fn get(&self, name: &RepositoryName) -> (r: Option<&Vec<UnreleasedCommit>>)
        requires
            self.wf(),
        ensures
            match r {
                Some(commits) => self@.contains_key(name@) && self@[name@] == commits@,
                None => !self@.contains_key(name@),
            },
    {
        match self.position(name) {
            Some(i) => {
                proof {
                    lemma_entry_lookup(self.entries(), i as int);
                }
                Some(&self.entries[i].commits)
            },
            None => None,
        }
    }

    /// Files `commits` under `name`, in place of what was filed there before.
    pub fn insert(&mut self, name: RepositoryName, commits: Vec<UnreleasedCommit>)
        requires
            old(self).wf(),
        ensures
            final(self).wf(),
            final(self)@ == old(self)@.insert(name@, commits@),
            final(self).total() + commits_under(old(self)@, name@).len() == old(self).total()
                + commits@.len(),
    {
        let ghost before = self.entries@;
        match self.position(&name) {
            Some(i) => {
                let entry = RepoCommits { name, commits };
                proof {
                    lemma_entry_lookup(before, i as int);
                    lemma_total_update(before, i as int, entry);
                    lemma_map_update(before, i as int, entry);
                }
                self.entries[i] = entry;
            },
            None => {
                let entry = RepoCommits { name, commits };
                proof {
                    lemma_total_push(before, entry);
                    lemma_map_push(before, entry);
                }
                self.entries.push(entry);
            },
        }
    }

    /// Appends `commit` to the commits filed under `name`, which gets an entry
    /// if it had none.
    pub fn push(&mut self, name: &RepositoryName, commit: UnreleasedCommit)
        requires
            old(self).wf(),
        ensures
            final(self).wf(),
            final(self)@ == old(self)@.insert(
                name@,
                commits_under(old(self)@, name@).push(commit),
            ),
            final(self).total() == old(self).total() + 1,
    {
        let ghost before = self.entries@;
        match self.position(name) {
            Some(i) => {
                proof {
                    lemma_entry_lookup(before, i as int);
                }
                self.entries[i].commits.push(commit);
                proof {
                    let after = self.entries@;
                    let entry = after[i as int];
                    assert(after =~= before.update(i as int, entry));
                    lemma_total_update(before, i as int, entry);
                    lemma_map_update(before, i as int, entry);
                }
            },
            None => {
                let mut commits: Vec<UnreleasedCommit> = Vec::new();
                commits.push(commit);
                let entry = RepoCommits { name: name.clone(), commits };
                proof {
                    assert(entry.commits@ =~= Seq::<UnreleasedCommit>::empty().push(commit));
                    lemma_total_push(before, entry);
                    lemma_map_push(before, entry);
                }
                self.entries.push(entry);
            },
        }
    }
}

/// Appending an entry under a new name keeps the names distinct and files its
/// commits under that name.
pub proof fn lemma_map_push(entries: Seq<RepoCommits>, entry: RepoCommits)
    requires
        entry_names(entries).no_duplicates(),
        !entry_names(entries).contains(entry.name@),
    ensures
        entry_names(entries.push(entry)).no_duplicates(),
        entry_map(entries.push(entry)) == entry_map(entries).insert(entry.name@, entry.commits@),
{
    let after = entries.push(entry);
    let names = entry_names(entries);
    let names_after = entry_names(after);
    let target = entry_map(entries).insert(entry.name@, entry.commits@);
    assert(names_after =~= names.push(entry.name@));
    assert forall|a: int, b: int|
        0 <= a < names_after.len() && 0 <= b < names_after.len() && a != b implies names_after[a]
        != names_after[b] by {
        if a < names.len() {
            assert(names[a] == names_after[a]);
        }
        if b < names.len() {
            assert(names[b] == names_after[b]);
        }
    }
    assert forall|n: Seq<char>| #[trigger] entry_map(after).contains_key(n) implies
        target.contains_key(n) && entry_map(after)[n] == target[n] by {
        let k = names_after.index_of(n);
        assert(0 <= k < names_after.len() && names_after[k] == n);
        if k < names.len() {
            assert(names[k] == n);
            lemma_entry_lookup(entries, k);
            assert(after[k] == entries[k]);
        }
    }
    assert forall|n: Seq<char>| #[trigger] target.contains_key(n) implies entry_map(
        after,
    ).contains_key(n) by {
        if n == entry.name@ {
            assert(names_after[names.len() as int] == n);
        } else {
            let k = names.index_of(n);
            assert(0 <= k < names.len() && names[k] == n);
            assert(names_after[k] == n);
        }
    }
    assert(entry_map(after) =~= target);
}

} // verus!
