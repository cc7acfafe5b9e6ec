//! Plain data shared by every stage of a release computation.

use std::path::PathBuf;
use vstd::prelude::*;

verus! {

/// `git2::Oid`, the content hash of a commit. Verified code only carries it.
#[verifier::external_type_specification]
#[verifier::external_body]
pub struct ExOid(git2::Oid);

/// `std::path::PathBuf`. Verified code only carries it.
#[verifier::external_type_specification]
#[verifier::external_body]
pub struct ExPathBuf(std::path::PathBuf);

/// Key that authenticates calls to the tracker.
#[derive(Debug, PartialEq, Eq, Hash)]
pub struct ShortcutApiKey(String);

impl ShortcutApiKey {
    pub fn new(key: String) -> (r: Self)
        ensures
            r@ == key@,
    {
        ShortcutApiKey(key)
    }

    /// The key's text.
    pub fn as_ref(&self) -> (r: &String)
        ensures
            r@ == self@,
    {
        &self.0
    }
}

impl View for ShortcutApiKey {
    type V = Seq<char>;

    closed spec fn view(&self) -> Seq<char> {
        self.0@
    }
}

impl Clone for ShortcutApiKey {
    fn clone(&self) -> (r: Self)
        ensures
            r == *self,
    {
        ShortcutApiKey(self.0.clone())
    }
}

/// Name of the repository, must be unique
#[derive(Debug, PartialEq, Eq, Hash)]
pub struct RepositoryName(String);

impl RepositoryName {
    pub fn new(name: String) -> (r: Self)
        ensures
            r@ == name@,
    {
        RepositoryName(name)
    }

    /// The name's text.
    pub fn as_ref(&self) -> (r: &String)
        ensures
            r@ == self@,
    {
        &self.0
    }

    /// Whether two names spell the same text.
    pub fn same_as(&self, other: &RepositoryName) -> (r: bool)
        ensures
            r == (self@ == other@),
    {
        self.0 == other.0
    }
}

impl View for RepositoryName {
    type V = Seq<char>;

    closed spec fn view(&self) -> Seq<char> {
        self.0@
    }
}

impl Clone for RepositoryName {
    fn clone(&self) -> (r: Self)
        ensures
            r == *self,
    {
        RepositoryName(self.0.clone())
    }
}

/// Newtype for the physical location of the repository
#[derive(Debug, PartialEq, Eq)]
pub struct RepositoryLocation(PathBuf);

impl RepositoryLocation {
    pub fn new(path: PathBuf) -> (r: Self)
        ensures
            r.path() == path,
    {
        RepositoryLocation(path)
    }

    /// The path this location was made from.
    pub closed spec fn path(&self) -> PathBuf {
        self.0
    }

    pub fn as_ref(&self) -> (r: &PathBuf)
        ensures
            *r == self.path(),
    {
        &self.0
    }
}

/// Newtype for a branch or commit name
#[derive(Debug, PartialEq, Eq, Hash)]
pub struct RepositoryReference(String);

impl RepositoryReference {
    pub fn new(reference: String) -> (r: Self)
        ensures
            r@ == reference@,
    {
        RepositoryReference(reference)
    }

    /// The reference's text.
    pub fn as_ref(&self) -> (r: &String)
        ensures
            r@ == self@,
    {
        &self.0
    }
}

impl View for RepositoryReference {
    type V = Seq<char>;

    closed spec fn view(&self) -> Seq<char> {
        self.0@
    }
}

impl Clone for RepositoryReference {
    fn clone(&self) -> (r: Self)
        ensures
            r == *self,
    {
        RepositoryReference(self.0.clone())
    }
}

/// Configuration of the repository
#[derive(Debug, PartialEq, Eq)]
pub struct RepositoryConfiguration {
    /// Path to the location of the repository on disk
    pub location: RepositoryLocation,
    /// Branch or commit name which has been released
    pub release_branch: RepositoryReference,
    /// Branch or commit name which has not been released
    pub next_branch: RepositoryReference,
}

/// Commit only present in `next_branch`.
#[derive(Debug, PartialEq, Eq)]
pub struct UnreleasedCommit {
    pub id: git2::Oid,
    pub message: Option<String>,
}

impl UnreleasedCommit {
    /// The message as text, where the commit has one.
    pub open spec fn text(&self) -> Option<Seq<char>> {
        match self.message {
            Some(message) => Some(message@),
            None => None,
        }
    }
}

impl Clone for UnreleasedCommit {
    fn clone(&self) -> (r: Self)
        ensures
            r == *self,
    {
        let message = match &self.message {
            Some(text) => Some(text.clone()),
            None => None,
        };
        UnreleasedCommit { id: self.id, message }
    }
}

} // verus!
