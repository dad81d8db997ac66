//! Resolving one comment with its replies to a bounded depth.
//!
//! The caller fetches; the resolver decides. It is started with the outcome
//! of fetching the comment itself, then asks round by round for the replies
//! of one more level, until the depth is reached or no reply is named.
use vstd::prelude::*;
use crate::item::{Comment, CommentView, FetchError, with_replies, within_depth};
use crate::forest::{CommentForest, Fetched, ForestView, lemma_trees_depth, round_view};
use crate::resolution::{follows, lemma_rounds_resolve, tree};

verus! {

/// How many levels of replies are fetched below a comment that is resolved
/// through [`get_comment`].
pub const MAX_COMMENT_DEPTH: usize = 4;

/// A comment in the course of being resolved: the comment as it was fetched,
/// and the forest of its replies.
pub struct CommentResolver {
    root: Comment,
    replies: CommentForest,
}

/// The mathematical value of a [`CommentResolver`].
pub struct CommentResolverView {
    /// The comment as it was fetched.
    pub root: CommentView,
    /// The forest of its replies; its levels are the depth asked for.
    pub replies: ForestView,
}

impl CommentResolverView {
    /// The resolver of a comment that was just fetched: its `kids` are the
    /// roots of the replies, and none of them has been fetched.
    pub open spec fn started(root: CommentView, depth: nat) -> CommentResolverView {
        CommentResolverView {
            root,
            replies: ForestView { roots: root.kids, levels: depth, rounds: Seq::empty() },
        }
    }

    /// The comment with the replies resolved so far.
    pub open spec fn comment(self) -> CommentView {
        with_replies(self.root, self.replies.trees())
    }
}

impl View for CommentResolver {
    type V = CommentResolverView;

    closed spec fn view(&self) -> CommentResolverView {
        CommentResolverView { root: self.root@, replies: self.replies@ }
    }
}

/// Starts the resolution of a comment to `depth` levels of replies, from the
/// outcome of fetching the comment itself.
///
/// A failed fetch of the comment fails the resolution with the same error.
/// With depth 0 no reply is ever asked for.
pub fn get_comment_with_depth(fetched: Result<Comment, FetchError>, depth: usize) -> (started: Result<
    CommentResolver,
    FetchError,
>)
    ensures
        match fetched {
            Ok(c) => started is Ok && started->Ok_0@ == CommentResolverView::started(
                c@,
                depth as nat,
            ),
            Err(e) => started == Err::<CommentResolver, FetchError>(e),
        },
        started is Ok ==> started->Ok_0@.replies.well_formed(),
{
    match fetched {
        Ok(root) => {
            let replies = CommentForest::new(root.kids.clone(), depth);
            assert(replies@.roots =~= root@.kids);
            Ok(CommentResolver { root, replies })
        },
        Err(e) => Err(e),
    }
}

/// Starts the resolution of a comment to [`MAX_COMMENT_DEPTH`] levels of
/// replies, from the outcome of fetching the comment itself.
pub fn get_comment(fetched: Result<Comment, FetchError>) -> (started: Result<
    CommentResolver,
    FetchError,
>)
    ensures
        match fetched {
            Ok(c) => started is Ok && started->Ok_0@ == CommentResolverView::started(
                c@,
                MAX_COMMENT_DEPTH as nat,
            ),
            Err(e) => started == Err::<CommentResolver, FetchError>(e),
        },
        started is Ok ==> started->Ok_0@.replies.well_formed(),
{
    get_comment_with_depth(fetched, MAX_COMMENT_DEPTH)
}

impl CommentResolver {
    /// The ids of the replies to fetch next, all of them at once. Empty when
    /// the comment is resolved.
    pub fn pending(&self) -> (ids: Vec<i64>)
        ensures
            ids@ == self@.replies.pending(),
            self@.replies.well_formed(),
    {
        self.replies.pending()
    }

    /// Takes the outcomes of fetching the pending ids, in their order.
    ///
    /// The round is accepted when something was pending and there is one
    /// outcome for each pending id. Otherwise the resolver is left as it was.
    pub fn supply(&mut self, outcomes: Vec<Result<Comment, FetchError>>) -> (accepted: bool)
        ensures
            accepted == (old(self)@.replies.pending().len() > 0 && outcomes.len() == old(
                self,
            )@.replies.pending().len()),
            accepted ==> final(self)@ == (CommentResolverView {
                root: old(self)@.root,
                replies: old(self)@.replies.supplied(round_view(outcomes@)),
            }),
            !accepted ==> final(self)@ == old(self)@,
            final(self)@.replies.well_formed(),
    {
        self.replies.supply(outcomes)
    }

    /// The comment with the replies resolved so far. Failed replies are left
    /// out, the others keep the order of `kids`, and no path from the comment
    /// down is longer than the depth asked for.
    pub fn comment(&self) -> (out: Comment)
        ensures
            out@ == self@.comment(),
            within_depth(out@, self@.replies.levels),
            self@.replies.well_formed(),
    {
        let replies = self.replies.trees();
        proof {
            lemma_resolved_depth(self@);
        }
        self.root.with_replies(replies)
    }
}

/// Whatever the fetches came to, the comment of a resolver has no path
/// longer than the depth asked for; at depth 0 it has no replies.
pub proof fn lemma_resolved_depth(v: CommentResolverView)
    requires
        v.replies.well_formed(),
    ensures
        within_depth(v.comment(), v.replies.levels),
        v.replies.levels == 0 ==> v.comment().sub_comments.len() == 0,
{
    lemma_trees_depth(v.replies);
    let c = v.comment();
    if v.replies.levels > 0 {
        assert forall|i: int| 0 <= i < c.sub_comments.len() implies within_depth(
            #[trigger] c.sub_comments[i],
            (v.replies.levels - 1) as nat,
        ) by {
            assert(within_depth(v.replies.trees()[i], (v.replies.levels - 1) as nat));
        }
    }
}

/// A resolver that was started with the gateway's answer for `id`, was
/// supplied with the gateway's answers round by round, and has nothing left
/// to fetch, holds the tree of `id` to the depth asked for.
pub proof fn lemma_comment_resolved(
    v: CommentResolverView,
    gateway: spec_fn(i64) -> Fetched,
    id: i64,
)
    requires
        gateway(id) == Ok::<CommentView, FetchError>(v.root),
        v.replies.roots == v.root.kids,
        v.replies.well_formed(),
        follows(v.replies, gateway),
        v.replies.pending().len() == 0,
    ensures
        tree(gateway, id, v.replies.levels) == Ok::<CommentView, FetchError>(v.comment()),
{
    lemma_rounds_resolve(v.replies, gateway);
}

} // verus!
