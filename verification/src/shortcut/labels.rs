//! Keeping or dropping fetched stories by their labels.

use crate::shortcut::records::{has_label, label_texts, Story};
use crate::shortcut::round::{ascending, Identified};
use vstd::prelude::*;

verus! {

/// Which stories make it into the release, by label.
#[derive(Debug, PartialEq, Eq)]
pub struct StoryLabelFilter {
    /// A story with one of these labels is dropped.
    pub excluded: Vec<String>,
    /// A story without one of these labels is dropped.
    pub included: Vec<String>,
}

/// Whether `labels` pass: none of them is in `excluded` and each of `included`
/// is among them.
pub open spec fn labels_pass(
    labels: Seq<Seq<char>>,
    excluded: Seq<Seq<char>>,
    included: Seq<Seq<char>>,
) -> bool {
    &&& forall|i: int| 0 <= i < labels.len() ==> !excluded.contains(#[trigger] labels[i])
    &&& forall|i: int| 0 <= i < included.len() ==> labels.contains(#[trigger] included[i])
}

/// The stories of `stories` that `filter` retains, in their order.
pub open spec fn retained(stories: Seq<Story>, filter: StoryLabelFilter) -> Seq<Story> {
    stories.filter(|story: Story| filter.spec_retains(story))
}

impl StoryLabelFilter {
    /// The filter that retains every story.
    pub fn new() -> (r: Self)
        ensures
            r.excluded@.len() == 0,
            r.included@.len() == 0,
    {
        StoryLabelFilter { excluded: Vec::new(), included: Vec::new() }
    }

    /// Whether the filter names no label at all.
    pub fn is_empty(&self) -> (r: bool)
        ensures
            r == (self.excluded@.len() == 0 && self.included@.len() == 0),
    {
        self.excluded.len() == 0 && self.included.len() == 0
    }

    /// Whether the filter retains `story`.
    pub open spec fn spec_retains(&self, story: Story) -> bool {
        labels_pass(
            label_texts(story.labels@),
            label_texts(self.excluded@),
            label_texts(self.included@),
        )
    }

    /// Whether the filter retains `story`: none of its labels is excluded and
    /// every included label is on it.
    pub fn retains(&self, story: &Story) -> (r: bool)
        ensures
            r == self.spec_retains(*story),
    {
        let ghost labels = label_texts(story.labels@);
        let ghost excluded = label_texts(self.excluded@);
        let ghost included = label_texts(self.included@);
        let mut i: usize = 0;
        while i < story.labels.len()
            invariant
                i <= story.labels@.len(),
                labels == label_texts(story.labels@),
                excluded == label_texts(self.excluded@),
                forall|j: int| 0 <= j < i ==> !excluded.contains(#[trigger] labels[j]),
            decreases story.labels@.len() - i,
        {
            if has_label(&self.excluded, &story.labels[i]) {
                assert(excluded.contains(labels[i as int]));
                return false;
            }
            i += 1;
        }
        let mut k: usize = 0;
        while k < self.included.len()
            invariant
                k <= self.included@.len(),
                labels == label_texts(story.labels@),
                included == label_texts(self.included@),
                forall|j: int| 0 <= j < k ==> labels.contains(#[trigger] included[j]),
            decreases self.included@.len() - k,
        {
            if !has_label(&story.labels, &self.included[k]) {
                assert(!labels.contains(included[k as int]));
                return false;
            }
            k += 1;
        }
        true
    }

    /// The stories that the filter retains, in their order. A filter that
    /// names no label hands the stories back as they are.
    pub fn apply(&self, stories: Vec<Story>) -> (r: Vec<Story>)
        ensures
            r@ == retained(stories@, *self),
    {
        if self.is_empty() {
            proof {
                lemma_empty_filter_keeps_all(*self, stories@);
            }
            return stories;
        }
        let ghost all = stories@;
        let mut kept: Vec<Story> = Vec::new();
        proof {
            reveal(Seq::filter);
            assert(all.take(0) =~= Seq::<Story>::empty());
        }
        for story in it: stories
            invariant
                it.seq() == all,
                kept@ == retained(all.take(it.index() as int), *self),
        {
            proof {
                reveal(Seq::filter);
                let j = it.index() as int;
                assert(all.take(j + 1).drop_last() =~= all.take(j));
                assert(all.take(j + 1).last() == story);
            }
            if self.retains(&story) {
                kept.push(story);
            }
        }
        proof {
            assert(all.take(all.len() as int) =~= all);
        }
        kept
    }
}

/// A story with an excluded label is rejected, whatever labels are included.
pub proof fn lemma_excluded_label_rejects(filter: StoryLabelFilter, story: Story, label: Seq<char>)
    requires
        label_texts(story.labels@).contains(label),
        label_texts(filter.excluded@).contains(label),
    ensures
        !filter.spec_retains(story),
{
    let labels = label_texts(story.labels@);
    let i = choose|i: int| 0 <= i < labels.len() && labels[i] == label;
    assert(label_texts(filter.excluded@).contains(labels[i]));
}

/// A filter that names no label retains every story, with or without labels.
pub proof fn lemma_empty_filter_retains(filter: StoryLabelFilter, story: Story)
    requires
        filter.excluded@.len() == 0,
        filter.included@.len() == 0,
    ensures
        filter.spec_retains(story),
{
}

/// A filter that names no label keeps a sequence of stories whole.
pub proof fn lemma_empty_filter_keeps_all(filter: StoryLabelFilter, stories: Seq<Story>)
    requires
        filter.excluded@.len() == 0,
        filter.included@.len() == 0,
    ensures
        retained(stories, filter) == stories,
    decreases stories.len(),
{
    reveal(Seq::filter);
    if stories.len() > 0 {
        lemma_empty_filter_keeps_all(filter, stories.drop_last());
        lemma_empty_filter_retains(filter, stories.last());
        assert(stories.drop_last().push(stories.last()) =~= stories);
    } else {
        assert(retained(stories, filter) =~= stories);
    }
}

/// Every retained story is one of the stories, and retained ones keep their
/// order: with identifiers that rise, the retained identifiers rise too.
pub proof fn lemma_retained_ascending(stories: Seq<Story>, filter: StoryLabelFilter)
    requires
        ascending(stories),
    ensures
        ascending(retained(stories, filter)),
        forall|k: int|
            0 <= k < retained(stories, filter).len() ==> stories.contains(
                #[trigger] retained(stories, filter)[k],
            ),
    decreases stories.len(),
{
    reveal(Seq::filter);
    let kept = retained(stories, filter);
    if stories.len() > 0 {
        let rest = stories.drop_last();
        let last = stories.last();
        assert forall|a: int, b: int| 0 <= a < b < rest.len() implies (#[trigger] rest[a]).spec_id()
            < (#[trigger] rest[b]).spec_id() by {
            assert(rest[a] == stories[a] && rest[b] == stories[b]);
        }
        lemma_retained_ascending(rest, filter);
        let kept_rest = retained(rest, filter);
        assert forall|k: int| 0 <= k < kept.len() implies stories.contains(#[trigger] kept[k]) by {
            if k < kept_rest.len() {
                assert(kept[k] == kept_rest[k]);
                assert(rest.contains(kept_rest[k]));
                let m = choose|m: int| 0 <= m < rest.len() && rest[m] == kept_rest[k];
                assert(stories[m] == kept[k]);
            } else {
                assert(kept[k] == last);
                assert(stories[stories.len() - 1] == last);
            }
        }
        assert forall|a: int, b: int| 0 <= a < b < kept.len() implies (#[trigger] kept[a]).spec_id()
            < (#[trigger] kept[b]).spec_id() by {
            if b < kept_rest.len() {
                assert(kept[a] == kept_rest[a] && kept[b] == kept_rest[b]);
            } else {
                assert(kept[b] == last);
                assert(kept[a] == kept_rest[a]);
                assert(rest.contains(kept_rest[a]));
                let m = choose|m: int| 0 <= m < rest.len() && rest[m] == kept_rest[a];
                assert(stories[m].spec_id() < stories[stories.len() - 1].spec_id());
            }
        }
    }
}

} // verus!
