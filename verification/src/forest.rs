//! Resolving a forest of comments round by round.
//!
//! A [`CommentForest`] never performs a fetch. It names the ids that have to
//! be fetched next, all of them at once, and takes the outcomes of those
//! fetches back in the same order. One round is one level of the forest, so
//! the number of rounds is bounded by the number of levels asked for, however
//! many comments a level holds.
use vstd::prelude::*;
use crate::item::{
    Comment, CommentView, FetchError, all_within_depth, comment_views, lemma_within_deeper,
    with_replies, within_depth,
};

verus! {

/// What one fetch of a comment came to, as a mathematical value.
pub type Fetched = Result<CommentView, FetchError>;

/// The view of the outcome of one fetch.
pub open spec fn outcome_view(outcome: Result<Comment, FetchError>) -> Fetched {
    match outcome {
        Ok(c) => Ok(c@),
        Err(e) => Err(e),
    }
}

/// The views of the outcomes of one round, in order.
pub open spec fn round_view(outcomes: Seq<Result<Comment, FetchError>>) -> Seq<Fetched> {
    Seq::new(outcomes.len(), |i: int| outcome_view(outcomes[i]))
}

/// The ids that one outcome asks to have fetched in the next round: the
/// `kids` of a fetched comment, nothing for a failed fetch.
pub open spec fn replies_named(outcome: Fetched) -> Seq<i64> {
    match outcome {
        Ok(c) => c.kids,
        Err(_) => Seq::empty(),
    }
}

/// The ids that a round of outcomes asks to have fetched next: the `kids` of
/// every fetched comment of the round, in the order of the round.
pub open spec fn kids_of(round: Seq<Fetched>) -> Seq<i64>
    decreases round.len(),
{
    if round.len() == 0 {
        Seq::empty()
    } else {
        kids_of(round.drop_last()) + replies_named(round.last())
    }
}

/// The trees that grow from `count` entries of round `level`, from entry
/// `start` on.
///
/// A failed entry grows no tree. A fetched entry grows one tree: the comment
/// itself, and as its replies the trees that grow from its own stretch of the
/// next round. That stretch begins after the kids of all entries before it,
/// and is as long as its `kids`. Below the last round no replies are known,
/// and the comment has none.
pub open spec fn grown(rounds: Seq<Seq<Fetched>>, level: nat, start: int, count: nat) -> Seq<
    CommentView,
>
    decreases rounds.len() - level, count,
{
    if level >= rounds.len() || count == 0 {
        Seq::empty()
    } else {
        let j = start + count - 1;
        let before = grown(rounds, level, start, (count - 1) as nat);
        match rounds[level as int][j] {
            Err(_) => before,
            Ok(c) => before.push(
                with_replies(
                    c,
                    grown(
                        rounds,
                        level + 1,
                        kids_of(rounds[level as int].take(j)).len() as int,
                        c.kids.len(),
                    ),
                ),
            ),
        }
    }
}

/// The tree that grows from entry `j` of round `level`, if the entry was
/// fetched.
pub open spec fn tree_at(rounds: Seq<Seq<Fetched>>, level: nat, j: int) -> Option<CommentView> {
    match rounds[level as int][j] {
        Err(_) => None,
        Ok(c) => Some(
            with_replies(
                c,
                grown(
                    rounds,
                    level + 1,
                    kids_of(rounds[level as int].take(j)).len() as int,
                    c.kids.len(),
                ),
            ),
        ),
    }
}

/// The values that `count` slots hold, from slot `start` on, empty slots left
/// out.
spec fn kept(slots: Seq<Option<CommentView>>, start: int, count: nat) -> Seq<CommentView>
    decreases count,
{
    if count == 0 {
        Seq::empty()
    } else {
        let before = kept(slots, start, (count - 1) as nat);
        match slots[start + count - 1] {
            None => before,
            Some(c) => before.push(c),
        }
    }
}

/// The kids named by one more entry are appended to those of the entries
/// before it.
pub proof fn lemma_kids_step(round: Seq<Fetched>, j: int)
    requires
        0 <= j < round.len(),
    ensures
        kids_of(round.take(j + 1)) == kids_of(round.take(j)) + replies_named(round[j]),
{
    assert(round.take(j + 1).drop_last() == round.take(j));
}

/// The kids named by a prefix of a round are a prefix of the kids named by
/// the round.
pub proof fn lemma_kids_of_prefix(round: Seq<Fetched>, j: int)
    requires
        0 <= j <= round.len(),
    ensures
        kids_of(round.take(j)).len() <= kids_of(round).len(),
        kids_of(round).take(kids_of(round.take(j)).len() as int) == kids_of(round.take(j)),
    decreases round.len() - j,
{
    if j == round.len() {
        assert(round.take(j) == round);
    } else {
        lemma_kids_step(round, j);
        lemma_kids_of_prefix(round, j + 1);
        let longer = kids_of(round.take(j + 1));
        let shorter = kids_of(round.take(j));
        assert(longer.take(shorter.len() as int) == shorter);
        assert(kids_of(round).take(longer.len() as int).take(shorter.len() as int) == kids_of(
            round,
        ).take(shorter.len() as int));
    }
}

/// The stretch of the next round that belongs to entry `j` holds the ids
/// that the entry names.
pub proof fn lemma_kids_stretch(round: Seq<Fetched>, j: int)
    requires
        0 <= j < round.len(),
    ensures
        kids_of(round.take(j)).len() + replies_named(round[j]).len() <= kids_of(round).len(),
        kids_of(round).subrange(
            kids_of(round.take(j)).len() as int,
            (kids_of(round.take(j)).len() + replies_named(round[j]).len()) as int,
        ) == replies_named(round[j]),
{
    lemma_kids_step(round, j);
    lemma_kids_of_prefix(round, j + 1);
    let upto = kids_of(round.take(j + 1));
    let before = kids_of(round.take(j));
    assert(upto.subrange(before.len() as int, upto.len() as int) == replies_named(round[j]));
    assert(kids_of(round).take(upto.len() as int).subrange(
        before.len() as int,
        upto.len() as int,
    ) == kids_of(round).subrange(before.len() as int, upto.len() as int));
}

/// One entry of a round grows its own tree, or nothing if its fetch failed.
pub proof fn lemma_grown_one(rounds: Seq<Seq<Fetched>>, level: nat, j: int)
    requires
        level < rounds.len(),
    ensures
        grown(rounds, level, j, 1) == match tree_at(rounds, level, j) {
            Some(t) => seq![t],
            None => Seq::empty(),
        },
{
    assert(grown(rounds, level, j, 0) == Seq::<CommentView>::empty());
    match rounds[level as int][j] {
        Err(_) => {},
        Ok(c) => {
            assert(Seq::<CommentView>::empty().push(tree_at(rounds, level, j)->Some_0) == seq![
                tree_at(rounds, level, j)->Some_0,
            ]);
        },
    }
}

/// The trees that grow from a stretch of a round are the trees of its first
/// part followed by those of the rest: an entry grows the same tree whatever
/// became of the entries beside it, and the order of the entries is kept.
pub proof fn lemma_grown_split(
    rounds: Seq<Seq<Fetched>>,
    level: nat,
    start: int,
    first: nat,
    count: nat,
)
    requires
        first <= count,
    ensures
        grown(rounds, level, start, count) == grown(rounds, level, start, first) + grown(
            rounds,
            level,
            start + first,
            (count - first) as nat,
        ),
    decreases count,
{
    if level >= rounds.len() {
    } else if first == count {
        assert(grown(rounds, level, start + first, 0) == Seq::<CommentView>::empty());
        assert(grown(rounds, level, start, first) + Seq::<CommentView>::empty() == grown(
            rounds,
            level,
            start,
            first,
        ));
    } else {
        lemma_grown_split(rounds, level, start, first, (count - 1) as nat);
        let head = grown(rounds, level, start, first);
        let rest = grown(rounds, level, start + first, (count - 1 - first) as nat);
        match tree_at(rounds, level, start + count - 1) {
            None => {},
            Some(t) => {
                assert((head + rest).push(t) == head + rest.push(t));
            },
        }
    }
}

/// Slots that hold the trees of a round's entries keep exactly the trees
/// that grow from those entries.
proof fn lemma_kept_is_grown(
    rounds: Seq<Seq<Fetched>>,
    level: nat,
    slots: Seq<Option<CommentView>>,
    start: int,
    count: nat,
)
    requires
        level < rounds.len(),
        forall|i: int| start <= i < start + count ==> slots[i] == tree_at(rounds, level, i),
    ensures
        kept(slots, start, count) == grown(rounds, level, start, count),
    decreases count,
{
    if count > 0 {
        lemma_kept_is_grown(rounds, level, slots, start, (count - 1) as nat);
    }
}

/// The mathematical value of a [`CommentForest`].
pub struct ForestView {
    /// The ids whose trees are asked for.
    pub roots: Seq<i64>,
    /// How many levels of comments are fetched, the roots being the first.
    pub levels: nat,
    /// The outcomes supplied so far, one round for each level reached.
    pub rounds: Seq<Seq<Fetched>>,
}

impl ForestView {
    /// The ids that round `level` has to fetch.
    pub open spec fn asked(self, level: int) -> Seq<i64> {
        if level == 0 {
            self.roots
        } else {
            kids_of(self.rounds[level - 1])
        }
    }

    /// Every round answers exactly the ids that were asked of it, and no
    /// more rounds were run than there are levels.
    pub open spec fn well_formed(self) -> bool {
        &&& self.rounds.len() <= self.levels
        &&& forall|l: int|
            0 <= l < self.rounds.len() ==> (#[trigger] self.rounds[l]).len() == self.asked(l).len()
    }

    /// The ids to fetch next, in the order in which the outcomes are wanted.
    /// Empty once every level was fetched, and when the last round named no
    /// replies.
    pub open spec fn pending(self) -> Seq<i64> {
        if self.rounds.len() >= self.levels {
            Seq::empty()
        } else {
            self.asked(self.rounds.len() as int)
        }
    }

    /// The forest after one more round of outcomes.
    pub open spec fn supplied(self, outcomes: Seq<Fetched>) -> ForestView {
        ForestView { roots: self.roots, levels: self.levels, rounds: self.rounds.push(outcomes) }
    }

    /// The trees resolved so far, one for each root that was fetched, in the
    /// order of the roots.
    pub open spec fn trees(self) -> Seq<CommentView> {
        grown(self.rounds, 0, 0, self.roots.len())
    }
}

/// The trees that grow from a round have no path longer than the rounds
/// below that round.
pub proof fn lemma_grown_depth(rounds: Seq<Seq<Fetched>>, level: nat, start: int, count: nat)
    requires
        level < rounds.len(),
    ensures
        all_within_depth(grown(rounds, level, start, count), (rounds.len() - level - 1) as nat),
    decreases rounds.len() - level, count,
{
    if count > 0 {
        let j = start + count - 1;
        let depth = (rounds.len() - level - 1) as nat;
        let before = grown(rounds, level, start, (count - 1) as nat);
        lemma_grown_depth(rounds, level, start, (count - 1) as nat);
        match rounds[level as int][j] {
            Err(_) => {},
            Ok(c) => {
                let below = kids_of(rounds[level as int].take(j)).len() as int;
                let replies = grown(rounds, level + 1, below, c.kids.len());
                let node = with_replies(c, replies);
                if level + 1 < rounds.len() {
                    lemma_grown_depth(rounds, level + 1, below, c.kids.len());
                    assert forall|i: int| 0 <= i < node.sub_comments.len() implies within_depth(
                        #[trigger] node.sub_comments[i],
                        (depth - 1) as nat,
                    ) by {
                        assert(within_depth(replies[i], (depth - 1) as nat));
                    }
                }
                assert(within_depth(node, depth));
                let all = before.push(node);
                assert forall|i: int| 0 <= i < all.len() implies within_depth(
                    #[trigger] all[i],
                    depth,
                ) by {
                    if i < before.len() {
                        assert(all[i] == before[i]);
                    }
                }
            },
        }
    }
}

/// Whatever the fetches came to, the trees of a forest have fewer levels
/// than the forest was asked to resolve.
pub proof fn lemma_trees_depth(v: ForestView)
    requires
        v.well_formed(),
    ensures
        v.levels == 0 ==> v.trees().len() == 0,
        v.levels > 0 ==> all_within_depth(v.trees(), (v.levels - 1) as nat),
{
    if v.rounds.len() > 0 {
        lemma_grown_depth(v.rounds, 0, 0, v.roots.len());
        let trees = v.trees();
        assert forall|i: int| 0 <= i < trees.len() implies within_depth(
            #[trigger] trees[i],
            (v.levels - 1) as nat,
        ) by {
            lemma_within_deeper(trees[i], (v.rounds.len() - 1) as nat, (v.levels - 1) as nat);
        }
    }
}

/// A round that answers what was pending takes the forest one level
/// further and leaves it well formed: a forest asked for `levels` levels is
/// resolved after at most `levels` rounds.
pub proof fn lemma_supplied(v: ForestView, outcomes: Seq<Fetched>)
    requires
        v.well_formed(),
        v.pending().len() > 0,
        outcomes.len() == v.pending().len(),
    ensures
        v.supplied(outcomes).well_formed(),
        v.supplied(outcomes).rounds.len() == v.rounds.len() + 1,
        v.supplied(outcomes).rounds.len() <= v.levels,
{
    let after = v.supplied(outcomes);
    assert forall|l: int| 0 <= l < after.rounds.len() implies (#[trigger] after.rounds[l]).len()
        == after.asked(l).len() by {
        if l < v.rounds.len() {
            assert(after.rounds[l] == v.rounds[l]);
            assert(v.asked(l) == after.asked(l));
        }
    }
}

/// A forest of comments in the course of being resolved.
pub struct CommentForest {
    roots: Vec<i64>,
    levels: usize,
    rounds: Vec<Vec<Result<Comment, FetchError>>>,
}

impl View for CommentForest {
    type V = ForestView;

    closed spec fn view(&self) -> ForestView {
        ForestView {
            roots: self.roots@,
            levels: self.levels as nat,
            rounds: Seq::new(self.rounds.len() as nat, |l: int| round_view(self.rounds[l]@)),
        }
    }
}

/// Appends `more` to `ids`.
fn push_all(ids: &mut Vec<i64>, more: &Vec<i64>)
    ensures
        final(ids)@ == old(ids)@ + more@,
{
    let mut i: usize = 0;
    while i < more.len()
        invariant
            i <= more.len(),
            ids@ == old(ids)@ + more@.take(i as int),
        decreases more.len() - i,
    {
        ids.push(more[i]);
        i += 1;
        assert(more@.take(i as int) == more@.take(i - 1).push(more@[i - 1]));
    }
}

/// The kids that a round of outcomes names, in order.
fn named_by(round: &Vec<Result<Comment, FetchError>>) -> (ids: Vec<i64>)
    ensures
        ids@ == kids_of(round_view(round@)),
{
    let mut ids: Vec<i64> = Vec::new();
    let mut j: usize = 0;
    while j < round.len()
        invariant
            j <= round.len(),
            ids@ == kids_of(round_view(round@).take(j as int)),
        decreases round.len() - j,
    {
        let ghost prefix = round_view(round@).take(j + 1);
        assert(prefix.drop_last() == round_view(round@).take(j as int));
        assert(prefix.last() == outcome_view(round[j as int]));
        match &round[j] {
            Ok(c) => {
                push_all(&mut ids, &c.kids);
            },
            Err(_) => {},
        }
        j += 1;
    }
    assert(round_view(round@).take(round.len() as int) == round_view(round@));
    ids
}

/// A resolved tree, or nothing where the fetch failed.
spec fn slot_view(slot: Option<Comment>) -> Option<CommentView> {
    match slot {
        Some(c) => Some(c@),
        None => None,
    }
}

/// The views of a list of slots, in order.
spec fn slot_views(slots: Seq<Option<Comment>>) -> Seq<Option<CommentView>> {
    Seq::new(slots.len(), |i: int| slot_view(slots[i]))
}

/// Moves the trees out of `count` slots, from slot `from` on, in order.
fn gather(slots: &mut Vec<Option<Comment>>, from: usize, count: usize) -> (out: Vec<Comment>)
    requires
        from + count <= old(slots).len(),
    ensures
        comment_views(out@) == kept(slot_views(old(slots)@), from as int, count as nat),
        final(slots).len() == old(slots).len(),
        forall|i: int|
            0 <= i < from || from + count <= i < old(slots).len() ==> final(slots)[i] == old(
                slots,
            )[i],
{
    let mut out: Vec<Comment> = Vec::new();
    let mut t: usize = 0;
    while t < count
        invariant
            t <= count,
            from + count <= slots.len(),
            slots.len() == old(slots).len(),
            comment_views(out@) == kept(slot_views(old(slots)@), from as int, t as nat),
            forall|i: int|
                0 <= i < from || from + t <= i < slots.len() ==> slots[i] == old(slots)[i],
        decreases count - t,
    {
        let ghost before = comment_views(out@);
        let taken = slots[from + t].take();
        match taken {
            Some(c) => {
                out.push(c);
                assert(comment_views(out@) =~= before.push(c@));
            },
            None => {},
        }
        t += 1;
    }
    out
}

/// Builds the trees of one round from the trees of the round below it.
fn build_round(
    round: &Vec<Result<Comment, FetchError>>,
    below: Vec<Option<Comment>>,
    has_below: bool,
    Ghost(rounds): Ghost<Seq<Seq<Fetched>>>,
    Ghost(level): Ghost<nat>,
) -> (built: Vec<Option<Comment>>)
    requires
        level < rounds.len(),
        rounds[level as int] == round_view(round@),
        has_below == (level + 1 < rounds.len()),
        has_below ==> below.len() == kids_of(rounds[level as int]).len(),
        has_below ==> forall|i: int|
            0 <= i < below.len() ==> slot_view(#[trigger] below[i]) == tree_at(
                rounds,
                level + 1,
                i,
            ),
    ensures
        built.len() == round.len(),
        forall|j: int|
            0 <= j < built.len() ==> slot_view(#[trigger] built[j]) == tree_at(rounds, level, j),
{
    let mut below = below;
    let mut built: Vec<Option<Comment>> = Vec::new();
    let mut cursor: usize = 0;
    let mut j: usize = 0;
    while j < round.len()
        invariant
            j <= round.len(),
            built.len() == j,
            level < rounds.len(),
            rounds[level as int] == round_view(round@),
            has_below == (level + 1 < rounds.len()),
            has_below ==> below.len() == kids_of(rounds[level as int]).len(),
            has_below ==> cursor == kids_of(rounds[level as int].take(j as int)).len(),
            has_below ==> forall|i: int|
                cursor <= i < below.len() ==> slot_view(#[trigger] below[i]) == tree_at(
                    rounds,
                    level + 1,
                    i,
                ),
            forall|i: int|
                0 <= i < j ==> slot_view(#[trigger] built[i]) == tree_at(rounds, level, i),
        decreases round.len() - j,
    {
        proof {
            lemma_kids_step(rounds[level as int], j as int);
            lemma_kids_of_prefix(rounds[level as int], j + 1);
        }
        match &round[j] {
            Err(_) => {
                built.push(None);
            },
            Ok(c) => {
                let replies = if has_below {
                    let ghost slots = slot_views(below@);
                    let replies = gather(&mut below, cursor, c.kids.len());
                    proof {
                        lemma_kept_is_grown(
                            rounds,
                            level + 1,
                            slots,
                            cursor as int,
                            c.kids.len() as nat,
                        );
                    }
                    cursor = cursor + c.kids.len();
                    replies
                } else {
                    Vec::new()
                };
                assert(comment_views(replies@) == grown(
                    rounds,
                    level + 1,
                    kids_of(rounds[level as int].take(j as int)).len() as int,
                    c@.kids.len(),
                ));
                built.push(Some(c.with_replies(replies)));
            },
        }
        j += 1;
    }
    built
}

impl CommentForest {
    #[verifier::type_invariant]
    spec fn inv(&self) -> bool {
        self@.well_formed()
    }

    /// A forest that will resolve `roots` through `levels` levels of comments.
    /// Nothing has been fetched yet.
    pub fn new(roots: Vec<i64>, levels: usize) -> (forest: Self)
        ensures
            forest@ == (ForestView { roots: roots@, levels: levels as nat, rounds: Seq::empty() }),
            forest@.well_formed(),
    {
        let forest = CommentForest { roots, levels, rounds: Vec::new() };
        assert(forest@.rounds =~= Seq::empty());
        forest
    }

    /// The ids to fetch next. The caller fetches all of them and hands the
    /// outcomes to [`CommentForest::supply`] in this order. An empty list
    /// says that the forest is resolved.
    pub fn pending(&self) -> (ids: Vec<i64>)
        ensures
            ids@ == self@.pending(),
            self@.well_formed(),
    {
        proof {
            use_type_invariant(self);
        }
        let done = self.rounds.len();
        if done >= self.levels {
            Vec::new()
        } else if done == 0 {
            self.roots.clone()
        } else {
            named_by(&self.rounds[done - 1])
        }
    }

    /// Takes the outcomes of one round of fetches.
    ///
    /// The round is accepted when something was pending and there is one
    /// outcome for each pending id; the forest is then one level further.
    /// Otherwise the forest is left as it was.
    pub fn supply(&mut self, outcomes: Vec<Result<Comment, FetchError>>) -> (accepted: bool)
        ensures
            accepted == (old(self)@.pending().len() > 0 && outcomes.len() == old(
                self,
            )@.pending().len()),
            accepted ==> final(self)@ == old(self)@.supplied(round_view(outcomes@)),
            !accepted ==> final(self)@ == old(self)@,
            final(self)@.well_formed(),
    {
        proof {
            use_type_invariant(&*self);
        }
        let ids = self.pending();
        if ids.len() > 0 && outcomes.len() == ids.len() {
            let ghost before = self@;
            let mut rounds: Vec<Vec<Result<Comment, FetchError>>> = Vec::new();
            core::mem::swap(&mut self.rounds, &mut rounds);
            rounds.push(outcomes);
            proof {
                let after = before.supplied(round_view(outcomes@));
                lemma_supplied(before, round_view(outcomes@));
                assert(Seq::new(rounds.len() as nat, |l: int| round_view(rounds[l]@))
                    =~= after.rounds);
            }
            core::mem::swap(&mut self.rounds, &mut rounds);
            true
        } else {
            false
        }
    }

    /// The trees resolved so far: one for each root that was fetched, in the
    /// order of the roots, each with the replies that were fetched level by
    /// level. A comment of the last level that was fetched has no replies,
    /// so no tree has more levels than the forest was asked to resolve.
    pub fn trees(&self) -> (out: Vec<Comment>)
        ensures
            comment_views(out@) == self@.trees(),
            self@.levels > 0 ==> all_within_depth(comment_views(out@), (self@.levels - 1) as nat),
            self@.levels == 0 ==> out.len() == 0,
            self@.well_formed(),
    {
        proof {
            use_type_invariant(self);
            lemma_trees_depth(self@);
        }
        let n = self.rounds.len();
        let mut below: Vec<Option<Comment>> = Vec::new();
        let mut level: usize = n;
        while level > 0
            invariant
                level <= n,
                n == self.rounds.len(),
                self@.well_formed(),
                level < n ==> below.len() == self@.rounds[level as int].len(),
                level < n ==> forall|i: int|
                    0 <= i < below.len() ==> slot_view(#[trigger] below[i]) == tree_at(
                        self@.rounds,
                        level as nat,
                        i,
                    ),
            decreases level,
        {
            level -= 1;
            assert(level + 1 < n ==> self@.asked(level + 1) == kids_of(self@.rounds[level as int]));
            below =
            build_round(
                &self.rounds[level],
                below,
                level + 1 < n,
                Ghost(self@.rounds),
                Ghost(level as nat),
            );
        }
        if n == 0 {
            Vec::new()
        } else {
            let ghost slots = slot_views(below@);
            let count = below.len();
            let out = gather(&mut below, 0, count);
            proof {
                lemma_kept_is_grown(self@.rounds, 0, slots, 0, count as nat);
                assert(self@.asked(0) == self@.roots);
            }
            out
        }
    }
}

} // verus!
