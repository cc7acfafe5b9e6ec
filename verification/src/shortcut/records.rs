//! What the library reads of the tracker's records.

use crate::shortcut::round::Identified;
use vstd::prelude::*;

verus! {

/// A story of the tracker.
#[derive(Debug, PartialEq, Eq)]
pub struct Story {
    pub id: i64,
    /// The epic that the story belongs to, if any.
    pub epic_id: Option<i64>,
    /// The names of the story's labels.
    pub labels: Vec<String>,
    pub story_type: String,
}

impl Identified for Story {
    open spec fn spec_id(&self) -> i64 {
        self.id
    }

    fn id(&self) -> (r: i64) {
        self.id
    }
}

/// How far the stories of an epic have come.
#[derive(Debug, PartialEq, Eq, Clone, Copy, Structural)]
pub struct EpicStats {
    pub num_stories_total: i64,
    pub num_stories_done: i64,
}

/// An epic of the tracker, the parent of stories.
#[derive(Debug, PartialEq, Eq)]
pub struct Epic {
    pub id: i64,
    pub stats: EpicStats,
    /// The names of the epic's labels.
    pub labels: Vec<String>,
}

impl Identified for Epic {
    open spec fn spec_id(&self) -> i64 {
        self.id
    }

    fn id(&self) -> (r: i64) {
        self.id
    }
}

/// The texts of `labels`, in order.
pub open spec fn label_texts(labels: Seq<String>) -> Seq<Seq<char>> {
    labels.map_values(|label: String| label@)
}

/// Whether one of `labels` spells `label`.
pub fn has_label(labels: &Vec<String>, label: &String) -> (r: bool)
    ensures
        r == label_texts(labels@).contains(label@),
{
    let mut i: usize = 0;
    while i < labels.len()
        invariant
            i <= labels@.len(),
            forall|j: int| 0 <= j < i ==> label_texts(labels@)[j] != label@,
        decreases labels@.len() - i,
    {
        if labels[i] == *label {
            assert(label_texts(labels@)[i as int] == label@);
            return true;
        }
        i += 1;
    }
    false
}

} // verus!
