//! Resolving stories: the list of top story previews, and one story with
//! its whole discussion.
//!
//! As everywhere in this crate the caller fetches and hands the outcomes
//! in. A failed fetch of what was asked for by name, the list of top story
//! ids or the story itself, fails the operation with the error of that
//! fetch. A failed fetch of one entry among many is dropped without a trace.
use vstd::prelude::*;
use crate::item::{
    Comment, FetchError, StoryItem, StoryItemView, StoryPageData, StoryPageView, all_within_depth,
    story_views,
};
use crate::forest::{CommentForest, Fetched, ForestView, round_view};
use crate::comment::MAX_COMMENT_DEPTH;
use crate::resolution::{follows, forest, lemma_rounds_resolve};

verus! {

/// The first `count` ids of the list, or all of them where it has fewer.
pub open spec fn first_ids(ids: Seq<i64>, count: nat) -> Seq<i64> {
    if count <= ids.len() {
        ids.take(count as int)
    } else {
        ids
    }
}

/// Chooses the stories to preview, from the outcome of fetching the ranked
/// list of top story ids.
///
/// A failed fetch of the list fails the listing with the same error.
/// Otherwise the previews to fetch are the first `count` ids of the list, in
/// its order; the rest of the list is never fetched.
pub fn get_stories(count: usize, fetched: Result<Vec<i64>, FetchError>) -> (chosen: Result<
    Vec<i64>,
    FetchError,
>)
    ensures
        match fetched {
            Ok(ids) => chosen is Ok && chosen->Ok_0@ == first_ids(ids@, count as nat),
            Err(e) => chosen == Err::<Vec<i64>, FetchError>(e),
        },
        chosen is Ok ==> chosen->Ok_0.len() <= count,
{
    match fetched {
        Ok(ids) => {
            let mut ids = ids;
            ids.truncate(count);
            Ok(ids)
        },
        Err(e) => Err(e),
    }
}

/// The view of the outcome of fetching one story preview.
pub open spec fn preview_view(outcome: Result<StoryItem, FetchError>) -> Result<
    StoryItemView,
    FetchError,
> {
    match outcome {
        Ok(s) => Ok(s@),
        Err(e) => Err(e),
    }
}

/// The views of the outcomes of fetching the previews, in order.
pub open spec fn preview_views(outcomes: Seq<Result<StoryItem, FetchError>>) -> Seq<
    Result<StoryItemView, FetchError>,
> {
    Seq::new(outcomes.len(), |i: int| preview_view(outcomes[i]))
}

/// The stories that were fetched, in the order of the outcomes; failed
/// fetches are left out.
pub open spec fn fetched_stories(outcomes: Seq<Result<StoryItemView, FetchError>>) -> Seq<
    StoryItemView,
>
    decreases outcomes.len(),
{
    if outcomes.len() == 0 {
        Seq::empty()
    } else {
        let before = fetched_stories(outcomes.drop_last());
        match outcomes.last() {
            Ok(s) => before.push(s),
            Err(_) => before,
        }
    }
}

/// Collects the previews that were fetched. Failed fetches are dropped, the
/// others keep their order; the listing itself never fails on them.
pub fn story_previews(outcomes: Vec<Result<StoryItem, FetchError>>) -> (stories: Vec<StoryItem>)
    ensures
        story_views(stories@) == fetched_stories(preview_views(outcomes@)),
        stories.len() <= outcomes.len(),
{
    let ghost all = preview_views(outcomes@);
    let mut stories: Vec<StoryItem> = Vec::new();
    for outcome in it: outcomes
        invariant
            it.seq() == outcomes@,
            all == preview_views(outcomes@),
            stories.len() <= it.index(),
            story_views(stories@) == fetched_stories(all.take(it.index())),
    {
        let ghost before = story_views(stories@);
        assert(all.take(it.index() + 1).drop_last() == all.take(it.index()));
        match outcome {
            Ok(story) => {
                stories.push(story);
                assert(story_views(stories@) =~= before.push(story@));
            },
            Err(_) => {},
        }
    }
    assert(all.take(all.len() as int) == all);
    stories
}

/// The stories of two runs of outcomes, one after the other, are the
/// stories of the first run followed by those of the second: whether one
/// preview is kept does not depend on the others, and the order is kept.
pub proof fn lemma_fetched_stories_concat(
    first: Seq<Result<StoryItemView, FetchError>>,
    second: Seq<Result<StoryItemView, FetchError>>,
)
    ensures
        fetched_stories(first + second) == fetched_stories(first) + fetched_stories(second),
    decreases second.len(),
{
    if second.len() == 0 {
        assert(first + second == first);
    } else {
        assert((first + second).drop_last() == first + second.drop_last());
        assert((first + second).last() == second.last());
        lemma_fetched_stories_concat(first, second.drop_last());
    }
}

/// A preview whose fetch failed is absent from the listing, and the listing
/// is what it would have been without that preview.
pub proof fn lemma_failed_preview_dropped(
    outcomes: Seq<Result<StoryItemView, FetchError>>,
    i: int,
)
    requires
        0 <= i < outcomes.len(),
        outcomes[i] is Err,
    ensures
        fetched_stories(outcomes) == fetched_stories(outcomes.remove(i)),
{
    let head = outcomes.take(i);
    let one = seq![outcomes[i]];
    let tail = outcomes.skip(i + 1);
    assert(outcomes == head + one + tail);
    assert(outcomes.remove(i) == head + tail);
    lemma_fetched_stories_concat(head + one, tail);
    lemma_fetched_stories_concat(head, one);
    lemma_fetched_stories_concat(head, tail);
    assert(one.drop_last() == Seq::<Result<StoryItemView, FetchError>>::empty());
    assert(one.last() == outcomes[i]);
    assert(fetched_stories(one.drop_last()) == Seq::<StoryItemView>::empty());
    assert(fetched_stories(one) == Seq::<StoryItemView>::empty());
    assert(fetched_stories(head) + Seq::<StoryItemView>::empty() == fetched_stories(head));
}

/// A listing has at most as many stories as previews were fetched, and as
/// many exactly when no fetch failed.
pub proof fn lemma_fetched_stories_len(outcomes: Seq<Result<StoryItemView, FetchError>>)
    ensures
        fetched_stories(outcomes).len() <= outcomes.len(),
        fetched_stories(outcomes).len() == outcomes.len() <==> forall|i: int|
            0 <= i < outcomes.len() ==> #[trigger] outcomes[i] is Ok,
    decreases outcomes.len(),
{
    if outcomes.len() > 0 {
        let front = outcomes.drop_last();
        lemma_fetched_stories_len(front);
        assert forall|i: int| 0 <= i < front.len() implies front[i] == outcomes[i] by {}
        if fetched_stories(outcomes).len() == outcomes.len() {
            assert forall|i: int| 0 <= i < outcomes.len() implies #[trigger] outcomes[i] is Ok by {
                if i < front.len() {
                    assert(front[i] is Ok);
                }
            }
        }
        if forall|i: int| 0 <= i < outcomes.len() ==> #[trigger] outcomes[i] is Ok {
            assert(outcomes.last() is Ok);
            assert forall|i: int| 0 <= i < front.len() implies #[trigger] front[i] is Ok by {
                assert(outcomes[i] is Ok);
            }
        }
    }
}

/// A listing for `count` stories never holds more than `count` of them,
/// however long the list of top stories is and whichever fetches fail.
pub proof fn lemma_listing_bounded(
    ids: Seq<i64>,
    count: nat,
    outcomes: Seq<Result<StoryItemView, FetchError>>,
)
    requires
        outcomes.len() == first_ids(ids, count).len(),
    ensures
        fetched_stories(outcomes).len() <= count,
{
    lemma_fetched_stories_len(outcomes);
}

/// A story in the course of being resolved: the story as it was fetched, and
/// the forest of its discussion.
pub struct StoryResolver {
    item: StoryItem,
    comments: CommentForest,
}

/// The mathematical value of a [`StoryResolver`].
pub struct StoryResolverView {
    /// The story as it was fetched.
    pub item: StoryItemView,
    /// The forest of the discussion, whose roots are the story's `kids`.
    pub comments: ForestView,
}

impl StoryResolverView {
    /// The resolver of a story that was just fetched: its `kids` are the
    /// roots of the discussion, each to be resolved as a comment of its own,
    /// and none of them has been fetched.
    pub open spec fn started(item: StoryItemView) -> StoryResolverView {
        StoryResolverView {
            item,
            comments: ForestView {
                roots: item.kids,
                levels: (MAX_COMMENT_DEPTH + 1) as nat,
                rounds: Seq::empty(),
            },
        }
    }

    /// The story with the discussion resolved so far.
    pub open spec fn story(self) -> StoryPageView {
        StoryPageView { item: self.item, comments: self.comments.trees() }
    }
}

impl View for StoryResolver {
    type V = StoryResolverView;

    closed spec fn view(&self) -> StoryResolverView {
        StoryResolverView { item: self.item@, comments: self.comments@ }
    }
}

/// Starts the resolution of a story with its discussion, from the outcome
/// of fetching the story itself.
///
/// A failed fetch of the story fails the resolution with the same error.
/// Comments that the fetched value may carry are not kept: the discussion
/// is resolved from the story's `kids`.
pub fn get_story(fetched: Result<StoryPageData, FetchError>) -> (started: Result<
    StoryResolver,
    FetchError,
>)
    ensures
        match fetched {
            Ok(page) => started is Ok && started->Ok_0@ == StoryResolverView::started(page@.item),
            Err(e) => started == Err::<StoryResolver, FetchError>(e),
        },
        started is Ok ==> started->Ok_0@.comments.well_formed(),
{
    match fetched {
        Ok(page) => {
            let item = page.item;
            let comments = CommentForest::new(item.kids.clone(), MAX_COMMENT_DEPTH + 1);
            assert(comments@.roots =~= item@.kids);
            Ok(StoryResolver { item, comments })
        },
        Err(e) => Err(e),
    }
}

impl StoryResolver {
    /// The ids of the comments to fetch next, all of them at once. Empty when
    /// the discussion is resolved.
    pub fn pending(&self) -> (ids: Vec<i64>)
        ensures
            ids@ == self@.comments.pending(),
            self@.comments.well_formed(),
    {
        self.comments.pending()
    }

    /// Takes the outcomes of fetching the pending ids, in their order.
    ///
    /// The round is accepted when something was pending and there is one
    /// outcome for each pending id. Otherwise the resolver is left as it was.
    pub fn supply(&mut self, outcomes: Vec<Result<Comment, FetchError>>) -> (accepted: bool)
        ensures
            accepted == (old(self)@.comments.pending().len() > 0 && outcomes.len() == old(
                self,
            )@.comments.pending().len()),
            accepted ==> final(self)@ == (StoryResolverView {
                item: old(self)@.item,
                comments: old(self)@.comments.supplied(round_view(outcomes@)),
            }),
            !accepted ==> final(self)@ == old(self)@,
            final(self)@.comments.well_formed(),
    {
        self.comments.supply(outcomes)
    }

    /// The story with the discussion resolved so far: one tree for each of
    /// the story's `kids` that was fetched, in their order, none deeper than
    /// [`MAX_COMMENT_DEPTH`].
    pub fn story(&self) -> (out: StoryPageData)
        ensures
            out@ == self@.story(),
            self@.comments.levels > 0 ==> all_within_depth(
                out@.comments,
                (self@.comments.levels - 1) as nat,
            ),
            self@.comments.well_formed(),
    {
        let comments = self.comments.trees();
        StoryPageData { item: self.item.clone(), comments }
    }
}

/// A resolver that was started with a fetched story, was supplied with the
/// gateway's answers round by round, and has nothing left to fetch, holds
/// for each of the story's `kids` that the gateway resolves the tree of that
/// comment to the depth of [`MAX_COMMENT_DEPTH`], in the order of `kids`.
pub proof fn lemma_story_resolved(v: StoryResolverView, gateway: spec_fn(i64) -> Fetched)
    requires
        v.comments.roots == v.item.kids,
        v.comments.well_formed(),
        follows(v.comments, gateway),
        v.comments.pending().len() == 0,
    ensures
        v.story().comments == forest(gateway, v.item.kids, v.comments.levels),
{
    lemma_rounds_resolve(v.comments, gateway);
}

} // verus!
