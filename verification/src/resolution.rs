//! What resolving a thread means, stated over the answers of a gateway, and
//! the laws that hold of it.
//!
//! A gateway is taken here as a function from an id to the outcome of
//! fetching it. The definitions below say which trees a resolution then
//! yields; the laws say that a forest resolved round by round yields the
//! same trees, that no tree is deeper than asked for, and that a failed
//! fetch removes its own tree and no other.
use vstd::prelude::*;
use crate::item::{CommentView, all_within_depth, with_replies, within_depth};
use crate::forest::{Fetched, ForestView, grown, kids_of, lemma_kids_stretch};

verus! {

/// The trees of `ids` through `levels` levels of comments.
///
/// An id whose fetch fails has no tree. An id that is fetched has the
/// comment as its tree, with the trees of the comment's `kids` through one
/// level less as replies. With no level left nothing is fetched.
pub open spec fn forest(gateway: spec_fn(i64) -> Fetched, ids: Seq<i64>, levels: nat) -> Seq<
    CommentView,
>
    decreases levels, ids.len(),
{
    if levels == 0 || ids.len() == 0 {
        Seq::empty()
    } else {
        let before = forest(gateway, ids.drop_last(), levels);
        match gateway(ids.last()) {
            Err(_) => before,
            Ok(c) => before.push(with_replies(c, forest(gateway, c.kids, (levels - 1) as nat))),
        }
    }
}

/// The tree of one comment with replies down to `depth` levels below it, or
/// the error of its own fetch.
pub open spec fn tree(gateway: spec_fn(i64) -> Fetched, id: i64, depth: nat) -> Fetched {
    match gateway(id) {
        Err(e) => Err(e),
        Ok(c) => Ok(with_replies(c, forest(gateway, c.kids, depth))),
    }
}

/// The trees of a forest resolved through `levels` levels have at most
/// `levels - 1` edges on any path; with no level there is no tree.
pub proof fn lemma_forest_depth(gateway: spec_fn(i64) -> Fetched, ids: Seq<i64>, levels: nat)
    ensures
        levels == 0 ==> forest(gateway, ids, levels).len() == 0,
        levels > 0 ==> all_within_depth(forest(gateway, ids, levels), (levels - 1) as nat),
    decreases levels, ids.len(),
{
    if levels > 0 && ids.len() > 0 {
        lemma_forest_depth(gateway, ids.drop_last(), levels);
        match gateway(ids.last()) {
            Err(_) => {},
            Ok(c) => {
                lemma_forest_depth(gateway, c.kids, (levels - 1) as nat);
            },
        }
    }
}

/// A comment resolved to `depth` has at most `depth` edges on any path from
/// it down; at depth 0 it has no replies, whatever its `kids` name.
pub proof fn lemma_tree_depth(gateway: spec_fn(i64) -> Fetched, id: i64, depth: nat)
    ensures
        tree(gateway, id, depth) matches Ok(t) ==> within_depth(t, depth),
        depth == 0 ==> (tree(gateway, id, depth) matches Ok(t) ==> t.sub_comments.len() == 0),
{
    match gateway(id) {
        Err(_) => {},
        Ok(c) => {
            lemma_forest_depth(gateway, c.kids, depth);
        },
    }
}

/// The trees of two lists of ids, one after the other, are the trees of the
/// first list followed by those of the second: what one id resolves to does
/// not depend on its siblings, and the order of the ids is kept.
pub proof fn lemma_forest_concat(
    gateway: spec_fn(i64) -> Fetched,
    first: Seq<i64>,
    second: Seq<i64>,
    levels: nat,
)
    ensures
        forest(gateway, first + second, levels) == forest(gateway, first, levels) + forest(
            gateway,
            second,
            levels,
        ),
    decreases second.len(),
{
    if levels == 0 {
    } else if second.len() == 0 {
        assert(first + second == first);
    } else {
        assert((first + second).drop_last() == first + second.drop_last());
        assert((first + second).last() == second.last());
        lemma_forest_concat(gateway, first, second.drop_last(), levels);
    }
}

/// One id alone resolves to its own tree, or to nothing if its fetch fails.
pub proof fn lemma_forest_single(gateway: spec_fn(i64) -> Fetched, id: i64, levels: nat)
    requires
        levels > 0,
    ensures
        forest(gateway, seq![id], levels) == match tree(gateway, id, (levels - 1) as nat) {
            Ok(t) => seq![t],
            Err(_) => Seq::empty(),
        },
{
    let ids = seq![id];
    assert(ids.drop_last() == Seq::<i64>::empty());
    assert(ids.last() == id);
    assert(forest(gateway, ids.drop_last(), levels) == Seq::<CommentView>::empty());
}

/// An id whose fetch fails is absent from the result, and the result is what
/// it would have been had the id not been listed: its siblings keep their
/// trees and their order.
pub proof fn lemma_failed_id_dropped(
    gateway: spec_fn(i64) -> Fetched,
    ids: Seq<i64>,
    i: int,
    levels: nat,
)
    requires
        0 <= i < ids.len(),
        gateway(ids[i]) is Err,
    ensures
        forest(gateway, ids, levels) == forest(gateway, ids.remove(i), levels),
{
    if levels > 0 {
        let head = ids.take(i);
        let tail = ids.skip(i + 1);
        assert(ids == head + seq![ids[i]] + tail);
        assert(ids.remove(i) == head + tail);
        lemma_forest_concat(gateway, head + seq![ids[i]], tail, levels);
        lemma_forest_concat(gateway, head, seq![ids[i]], levels);
        lemma_forest_single(gateway, ids[i], levels);
        lemma_forest_concat(gateway, head, tail, levels);
        assert(forest(gateway, head, levels) + Seq::<CommentView>::empty() == forest(
            gateway,
            head,
            levels,
        ));
    }
}

/// The outcomes are what the gateway answers for the ids, one for one.
pub open spec fn answers(gateway: spec_fn(i64) -> Fetched, ids: Seq<i64>, outcomes: Seq<Fetched>) -> bool {
    &&& outcomes.len() == ids.len()
    &&& forall|i: int| 0 <= i < ids.len() ==> #[trigger] outcomes[i] == gateway(ids[i])
}

/// Every round of the forest holds what the gateway answers for the ids
/// that were asked of that round.
pub open spec fn follows(v: ForestView, gateway: spec_fn(i64) -> Fetched) -> bool {
    forall|l: int| 0 <= l < v.rounds.len() ==> answers(gateway, v.asked(l), #[trigger] v.rounds[l])
}

/// In a forest that follows a gateway and has nothing pending, the trees
/// that grow from a stretch of a round are the trees of the ids that were
/// asked of that stretch, through the levels that were left at that round.
pub proof fn lemma_grown_is_forest(
    v: ForestView,
    gateway: spec_fn(i64) -> Fetched,
    level: nat,
    start: int,
    count: nat,
)
    requires
        v.well_formed(),
        follows(v, gateway),
        v.pending().len() == 0,
        level <= v.rounds.len(),
        0 <= start,
        start + count <= v.asked(level as int).len(),
    ensures
        grown(v.rounds, level, start, count) == forest(
            gateway,
            v.asked(level as int).subrange(start, start + count),
            (v.levels - level) as nat,
        ),
    decreases v.rounds.len() - level, count,
{
    let ids = v.asked(level as int);
    let stretch = ids.subrange(start, start + count);
    if level == v.rounds.len() {
        assert(v.levels == level || ids.len() == 0);
    } else if count == 0 {
    } else {
        let j = start + count - 1;
        let round = v.rounds[level as int];
        assert(answers(gateway, ids, round));
        assert(stretch.drop_last() == ids.subrange(start, start + count - 1));
        assert(stretch.last() == ids[j]);
        assert(round[j] == gateway(ids[j]));
        lemma_grown_is_forest(v, gateway, level, start, (count - 1) as nat);
        match round[j] {
            Err(_) => {},
            Ok(c) => {
                lemma_kids_stretch(round, j);
                let below = kids_of(round.take(j)).len() as int;
                assert(v.asked(level as int + 1) == kids_of(round));
                lemma_grown_is_forest(v, gateway, level + 1, below, c.kids.len());
            },
        }
    }
}

/// A forest that was resolved round by round against a gateway, and has
/// nothing left to fetch, holds the trees of its roots as the recursive
/// definition gives them.
pub proof fn lemma_rounds_resolve(v: ForestView, gateway: spec_fn(i64) -> Fetched)
    requires
        v.well_formed(),
        follows(v, gateway),
        v.pending().len() == 0,
    ensures
        v.trees() == forest(gateway, v.roots, v.levels),
{
    lemma_grown_is_forest(v, gateway, 0, 0, v.roots.len());
    assert(v.roots.subrange(0, v.roots.len() as int) == v.roots);
}

} // verus!
