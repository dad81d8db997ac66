//! The records of the news feed: stories, comments and fetch outcomes.
//!
//! Every record has a view, a mathematical value in which strings are
//! sequences of characters and lists are sequences. Contracts across the
//! crate are stated over these views.
use vstd::prelude::*;

verus! {

/// Why a fetch produced no record.
#[derive(Clone, Copy, Debug, PartialEq, Eq, Structural)]
pub enum FetchError {
    /// The request did not complete at the network or HTTP layer.
    Transport,
    /// The response body did not have the expected shape.
    Decode,
}

/// A node of a discussion thread.
///
/// `kids` names the replies as the feed lists them; `sub_comments` holds the
/// replies that were resolved, and is filled by the resolver only.
#[derive(Debug, PartialEq)]
pub struct Comment {
    pub id: u64,
    pub by: String,
    pub text: String,
    pub time: i64,
    pub kids: Vec<i64>,
    pub sub_comments: Vec<Comment>,
    pub kind: String,
}

/// The mathematical value of a [`Comment`].
pub struct CommentView {
    pub id: u64,
    pub by: Seq<char>,
    pub text: Seq<char>,
    pub time: i64,
    pub kids: Seq<i64>,
    pub sub_comments: Seq<CommentView>,
    pub kind: Seq<char>,
}

/// The view of a comment: its own fields, and below them the views of the
/// replies that were resolved.
pub open spec fn comment_view(c: Comment) -> CommentView
    decreases c,
{
    CommentView {
        id: c.id,
        by: c.by@,
        text: c.text@,
        time: c.time,
        kids: c.kids@,
        sub_comments: Seq::new(
            c.sub_comments.len() as nat,
            |i: int|
                if 0 <= i < c.sub_comments.len() {
                    comment_view(c.sub_comments[i])
                } else {
                    arbitrary()
                },
        ),
        kind: c.kind@,
    }
}

impl View for Comment {
    type V = CommentView;

    open spec fn view(&self) -> CommentView {
        comment_view(*self)
    }
}

/// The views of a list of comments, in order.
pub open spec fn comment_views(comments: Seq<Comment>) -> Seq<CommentView> {
    Seq::new(comments.len(), |i: int| comments[i]@)
}

impl Clone for Comment {
    /// A deep copy: the whole tree below the comment is copied.
    fn clone(&self) -> (out: Self)
        ensures
            out@ == self@,
        decreases self,
    {
        let mut subs: Vec<Comment> = Vec::new();
        let mut i: usize = 0;
        while i < self.sub_comments.len()
            invariant
                i <= self.sub_comments.len(),
                subs.len() == i,
                forall|j: int| 0 <= j < i ==> subs[j]@ == self.sub_comments[j]@,
            decreases self.sub_comments.len() - i,
        {
            subs.push(self.sub_comments[i].clone());
            i += 1;
        }
        let out = Comment {
            id: self.id,
            by: self.by.clone(),
            text: self.text.clone(),
            time: self.time,
            kids: self.kids.clone(),
            sub_comments: subs,
            kind: self.kind.clone(),
        };
        assert(out@.sub_comments =~= self@.sub_comments);
        assert(out@.kids =~= self@.kids);
        out
    }
}

/// A comment as it was fetched, with `replies` as its resolved replies.
pub open spec fn with_replies(c: CommentView, replies: Seq<CommentView>) -> CommentView {
    CommentView {
        id: c.id,
        by: c.by,
        text: c.text,
        time: c.time,
        kids: c.kids,
        sub_comments: replies,
        kind: c.kind,
    }
}

impl Comment {
    /// A copy of the comment's own fields with `replies` below it. What the
    /// comment held as replies before is not carried over.
    pub fn with_replies(&self, replies: Vec<Comment>) -> (out: Comment)
        ensures
            out@ == with_replies(self@, comment_views(replies@)),
    {
        let out = Comment {
            id: self.id,
            by: self.by.clone(),
            text: self.text.clone(),
            time: self.time,
            kids: self.kids.clone(),
            sub_comments: replies,
            kind: self.kind.clone(),
        };
        assert(out@.sub_comments =~= comment_views(replies@));
        assert(out@.kids =~= self@.kids);
        out
    }
}

/// No path from the comment down through its replies has more than `depth`
/// edges.
pub open spec fn within_depth(c: CommentView, depth: nat) -> bool
    decreases depth,
{
    if depth == 0 {
        c.sub_comments.len() == 0
    } else {
        forall|i: int|
            0 <= i < c.sub_comments.len() ==> within_depth(
                #[trigger] c.sub_comments[i],
                (depth - 1) as nat,
            )
    }
}

/// Every tree of the list is within `depth`.
pub open spec fn all_within_depth(trees: Seq<CommentView>, depth: nat) -> bool {
    forall|i: int| 0 <= i < trees.len() ==> within_depth(#[trigger] trees[i], depth)
}

/// A tree within some depth is within every greater depth.
pub proof fn lemma_within_deeper(c: CommentView, depth: nat, deeper: nat)
    requires
        within_depth(c, depth),
        depth <= deeper,
    ensures
        within_depth(c, deeper),
    decreases depth,
{
    if depth == 0 {
    } else {
        assert forall|i: int| 0 <= i < c.sub_comments.len() implies within_depth(
            #[trigger] c.sub_comments[i],
            (deeper - 1) as nat,
        ) by {
            lemma_within_deeper(c.sub_comments[i], (depth - 1) as nat, (deeper - 1) as nat);
        }
    }
}

/// A submitted story as the feed lists it.
#[derive(Debug, PartialEq)]
pub struct StoryItem {
    pub id: i64,
    pub title: String,
    pub url: Option<String>,
    pub text: Option<String>,
    pub by: String,
    pub descendants: i64,
    pub score: i64,
    pub kids: Vec<i64>,
    pub kind: String,
    pub time: i64,
}

/// The mathematical value of a [`StoryItem`].
pub struct StoryItemView {
    pub id: i64,
    pub title: Seq<char>,
    pub url: Option<Seq<char>>,
    pub text: Option<Seq<char>>,
    pub by: Seq<char>,
    pub descendants: i64,
    pub score: i64,
    pub kids: Seq<i64>,
    pub kind: Seq<char>,
    pub time: i64,
}

/// The view of an optional string.
pub open spec fn text_view(text: Option<String>) -> Option<Seq<char>> {
    match text {
        Some(t) => Some(t@),
        None => None,
    }
}

impl View for StoryItem {
    type V = StoryItemView;

    open spec fn view(&self) -> StoryItemView {
        StoryItemView {
            id: self.id,
            title: self.title@,
            url: text_view(self.url),
            text: text_view(self.text),
            by: self.by@,
            descendants: self.descendants,
            score: self.score,
            kids: self.kids@,
            kind: self.kind@,
            time: self.time,
        }
    }
}

/// The views of a list of stories, in order.
pub open spec fn story_views(stories: Seq<StoryItem>) -> Seq<StoryItemView> {
    Seq::new(stories.len(), |i: int| stories[i]@)
}

fn copy_text(text: &Option<String>) -> (out: Option<String>)
    ensures
        text_view(out) == text_view(*text),
{
    match text {
        Some(t) => Some(t.clone()),
        None => None,
    }
}

impl Clone for StoryItem {
    fn clone(&self) -> (out: Self)
        ensures
            out@ == self@,
    {
        let out = StoryItem {
            id: self.id,
            title: self.title.clone(),
            url: copy_text(&self.url),
            text: copy_text(&self.text),
            by: self.by.clone(),
            descendants: self.descendants,
            score: self.score,
            kids: self.kids.clone(),
            kind: self.kind.clone(),
            time: self.time,
        };
        assert(out@.kids =~= self@.kids);
        out
    }
}

/// A story together with its discussion: one resolved tree for each entry
/// of the story's `kids` that could be fetched, in the order of `kids`.
#[derive(Debug, PartialEq)]
pub struct StoryPageData {
    pub item: StoryItem,
    pub comments: Vec<Comment>,
}

/// The mathematical value of a [`StoryPageData`].
pub struct StoryPageView {
    pub item: StoryItemView,
    pub comments: Seq<CommentView>,
}

impl View for StoryPageData {
    type V = StoryPageView;

    open spec fn view(&self) -> StoryPageView {
        StoryPageView { item: self.item@, comments: comment_views(self.comments@) }
    }
}

/// A deep copy of a list of comment trees.
pub fn copy_comments(comments: &Vec<Comment>) -> (out: Vec<Comment>)
    ensures
        comment_views(out@) == comment_views(comments@),
{
    let mut out: Vec<Comment> = Vec::new();
    let mut i: usize = 0;
    while i < comments.len()
        invariant
            i <= comments.len(),
            out.len() == i,
            forall|j: int| 0 <= j < i ==> out[j]@ == comments[j]@,
        decreases comments.len() - i,
    {
        out.push(comments[i].clone());
        i += 1;
    }
    assert(comment_views(out@) =~= comment_views(comments@));
    out
}

impl Clone for StoryPageData {
    fn clone(&self) -> (out: Self)
        ensures
            out@ == self@,
    {
        StoryPageData { item: self.item.clone(), comments: copy_comments(&self.comments) }
    }
}

} // verus!
