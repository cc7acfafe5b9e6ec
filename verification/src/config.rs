//! What the application is configured with.

use crate::types::{RepositoryConfiguration, RepositoryName, ShortcutApiKey};
use std::path::PathBuf;
use vstd::prelude::*;

verus! {

/// A repository and the name it goes by.
#[derive(Debug, PartialEq, Eq)]
pub struct NamedRepository {
    pub name: RepositoryName,
    pub configuration: RepositoryConfiguration,
}

/// The names of `repositories`, in order.
pub open spec fn repository_names(repositories: Seq<NamedRepository>) -> Seq<Seq<char>> {
    repositories.map_values(|r: NamedRepository| r.name@)
}

/// The configuration of the application. No two repositories share a name.
#[derive(Debug, PartialEq, Eq)]
pub struct AppConfig {
    pub api_key: ShortcutApiKey,
    pub template_file: PathBuf,
    pub repositories: Vec<NamedRepository>,
}

/// Why a configuration was refused.
#[derive(Debug, PartialEq, Eq)]
pub enum ConfigError {
    /// Two repositories go by this name.
    DuplicateRepository { name: RepositoryName },
}

/// Whether `name` is the first name of `names` that repeats an earlier one.
pub open spec fn first_repeated(names: Seq<Seq<char>>, name: Seq<char>) -> bool {
    exists|j: int|
        0 <= j < names.len() && #[trigger] names[j] == name && names.take(j).no_duplicates()
            && names.take(j).contains(name)
}

impl AppConfig {
    /// Whether no two repositories share a name.
    pub open spec fn wf(&self) -> bool {
        repository_names(self.repositories@).no_duplicates()
    }

    /// Puts a configuration together, unless two repositories share a name.
    pub fn new(
        api_key: ShortcutApiKey,
        template_file: PathBuf,
        repositories: Vec<NamedRepository>,
    ) -> (r: Result<Self, ConfigError>)
        ensures
            r is Ok <==> repository_names(repositories@).no_duplicates(),
            r matches Ok(config) ==> config.api_key == api_key && config.template_file
                == template_file && config.repositories == repositories,
            r matches Err(ConfigError::DuplicateRepository { name }) ==> first_repeated(
                repository_names(repositories@),
                name@,
            ),
    {
        let ghost names = repository_names(repositories@);
        let mut j: usize = 0;
        proof {
            assert(names.take(0) =~= Seq::<Seq<char>>::empty());
        }
        while j < repositories.len()
            invariant
                j <= repositories@.len(),
                names == repository_names(repositories@),
                names.take(j as int).no_duplicates(),
            decreases repositories@.len() - j,
        {
            let mut i: usize = 0;
            while i < j
                invariant
                    i <= j < repositories@.len(),
                    names == repository_names(repositories@),
                    names.take(j as int).no_duplicates(),
                    forall|k: int| 0 <= k < i ==> names[k] != names[j as int],
                decreases j - i,
            {
                if repositories[i].name.same_as(&repositories[j].name) {
                    proof {
                        assert(names[i as int] == names[j as int]);
                        assert(names.take(j as int)[i as int] == names[j as int]);
                        assert(names.take(j as int).contains(names[j as int]));
                    }
                    return Err(
                        ConfigError::DuplicateRepository { name: repositories[j].name.clone() },
                    );
                }
                i += 1;
            }
            proof {
                let grown = names.take(j + 1);
                assert forall|a: int, b: int|
                    0 <= a < grown.len() && 0 <= b < grown.len() && a != b implies grown[a]
                    != grown[b] by {
                    if a < j && b < j {
                        assert(names.take(j as int)[a] == grown[a]);
                        assert(names.take(j as int)[b] == grown[b]);
                    }
                }
            }
            j += 1;
        }
        proof {
            assert(names.take(names.len() as int) =~= names);
        }
        Ok(AppConfig { api_key, template_file, repositories })
    }
}

} // verus!
