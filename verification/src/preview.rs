//! The preview of the selected story, and the cache of resolved stories.
//!
//! A session holds what is shown for the story that was selected last, and
//! every story that was resolved since the session began. Selecting a story
//! that the cache holds shows it at once; selecting another asks the caller
//! to resolve it and to report how that went.
use std::collections::HashMap;
use vstd::prelude::*;
use crate::item::{FetchError, StoryPageData, StoryPageView};

verus! {

/// What the preview shows.
#[derive(Debug)]
pub enum StoryPreviewState {
    /// Nothing was selected yet, or the last resolution failed.
    Unset,
    /// The selected story is being resolved.
    Loading,
    /// The selected story, resolved.
    Loaded(StoryPageData),
}

/// The mathematical value of a [`StoryPreviewState`].
pub enum PreviewView {
    Unset,
    Loading,
    Loaded(StoryPageView),
}

impl View for StoryPreviewState {
    type V = PreviewView;

    open spec fn view(&self) -> PreviewView {
        match self {
            StoryPreviewState::Unset => PreviewView::Unset,
            StoryPreviewState::Loading => PreviewView::Loading,
            StoryPreviewState::Loaded(page) => PreviewView::Loaded(page@),
        }
    }
}

/// The mathematical value of a [`PreviewSession`].
pub struct SessionView {
    /// What the preview shows.
    pub state: PreviewView,
    /// The stories resolved so far, by id.
    pub cache: Map<i64, StoryPageView>,
}

/// The view of the outcome of resolving a story.
pub open spec fn resolution_view(outcome: Result<StoryPageData, FetchError>) -> Result<
    StoryPageView,
    FetchError,
> {
    match outcome {
        Ok(page) => Ok(page@),
        Err(e) => Err(e),
    }
}

impl SessionView {
    /// A session in which nothing was selected and nothing resolved.
    pub open spec fn fresh() -> SessionView {
        SessionView { state: PreviewView::Unset, cache: Map::empty() }
    }

    /// Selecting `id` calls for a resolution when the cache does not hold it.
    pub open spec fn must_fetch(self, id: i64) -> bool {
        !self.cache.contains_key(id)
    }

    /// The session after `id` was selected: the cached story is shown where
    /// there is one, else the preview is loading. The cache is as before.
    pub open spec fn selected(self, id: i64) -> SessionView {
        SessionView {
            state: if self.cache.contains_key(id) {
                PreviewView::Loaded(self.cache[id])
            } else {
                PreviewView::Loading
            },
            cache: self.cache,
        }
    }

    /// The session after the resolution of `id` was reported. A resolved
    /// story is shown, and cached unless the cache holds that id already; a
    /// failure resets the preview and leaves the cache as it was.
    pub open spec fn resolved(self, id: i64, outcome: Result<StoryPageView, FetchError>) -> SessionView {
        match outcome {
            Ok(page) => SessionView {
                state: PreviewView::Loaded(page),
                cache: if self.cache.contains_key(id) {
                    self.cache
                } else {
                    self.cache.insert(id, page)
                },
            },
            Err(_) => SessionView { state: PreviewView::Unset, cache: self.cache },
        }
    }
}

/// The preview and the cache of one session.
pub struct PreviewSession {
    state: StoryPreviewState,
    cache: HashMap<i64, StoryPageData>,
}

impl View for PreviewSession {
    type V = SessionView;

    closed spec fn view(&self) -> SessionView {
        SessionView {
            state: self.state@,
            cache: self.cache@.map_values(|page: StoryPageData| page@),
        }
    }
}

impl PreviewSession {
    /// A session in which nothing was selected and nothing resolved.
    pub fn new() -> (session: Self)
        ensures
            session@ == SessionView::fresh(),
    {
        let session = PreviewSession { state: StoryPreviewState::Unset, cache: HashMap::new() };
        assert(session@.cache =~= Map::empty());
        session
    }

    /// What the preview shows now.
    pub fn state(&self) -> (state: &StoryPreviewState)
        ensures
            state@ == self@.state,
    {
        &self.state
    }

    /// Selects the story `id` for the preview.
    ///
    /// Returns whether the caller has to resolve the story. Where the cache
    /// holds it, the story is shown at once and nothing is to be fetched.
    /// Otherwise the preview is loading, and the caller resolves the story
    /// and reports the outcome to [`PreviewSession::story_resolved`].
    pub fn select_story(&mut self, id: i64) -> (fetch: bool)
        ensures
            fetch == old(self)@.must_fetch(id),
            final(self)@ == old(self)@.selected(id),
    {
        broadcast use vstd::std_specs::hash::group_hash_axioms;

        match self.cache.get(&id) {
            Some(page) => {
                self.state = StoryPreviewState::Loaded(page.clone());
                false
            },
            None => {
                self.state = StoryPreviewState::Loading;
                true
            },
        }
    }

    /// Reports how the resolution of the story `id` went.
    ///
    /// A resolved story is shown, and cached unless the cache holds that id
    /// already: an entry of the cache is written once. A failure resets the
    /// preview to unset and keeps no trace of the error. The report is
    /// applied whatever was selected in between: the last report wins.
    pub fn story_resolved(&mut self, id: i64, outcome: Result<StoryPageData, FetchError>)
        ensures
            final(self)@ == old(self)@.resolved(id, resolution_view(outcome)),
    {
        broadcast use vstd::std_specs::hash::group_hash_axioms;

        match outcome {
            Ok(page) => {
                if !self.cache.contains_key(&id) {
                    self.cache.insert(id, page.clone());
                    assert(self@.cache =~= old(self)@.cache.insert(id, page@));
                }
                self.state = StoryPreviewState::Loaded(page);
            },
            Err(_) => {
                self.state = StoryPreviewState::Unset;
            },
        }
    }
}

/// A story is resolved once in a session. After a selection whose resolution
/// succeeded, selecting the same story again calls for no fetch and shows
/// the story as it was resolved then, whatever was selected or reported in
/// between.
pub proof fn lemma_cache_idempotent(
    session: SessionView,
    id: i64,
    page: StoryPageView,
)
    requires
        session.must_fetch(id),
    ensures
        !session.selected(id).resolved(id, Ok(page)).must_fetch(id),
        session.selected(id).resolved(id, Ok(page)).selected(id).state == PreviewView::Loaded(page),
        session.selected(id).resolved(id, Ok(page)).selected(id).cache == session.selected(
            id,
        ).resolved(id, Ok(page)).cache,
{
}

/// An entry of the cache is never overwritten nor removed, by a selection
/// or by a report.
pub proof fn lemma_cache_write_once(
    session: SessionView,
    id: i64,
    other: i64,
    outcome: Result<StoryPageView, FetchError>,
)
    requires
        session.cache.contains_key(id),
    ensures
        session.selected(other).cache.contains_key(id),
        session.selected(other).cache[id] == session.cache[id],
        session.resolved(other, outcome).cache.contains_key(id),
        session.resolved(other, outcome).cache[id] == session.cache[id],
{
}

/// The transitions of a selection. Selecting a story that was never
/// resolved sets the preview to loading and calls for a fetch; the report of
/// that resolution then sets it to loaded with the resolved story, or to
/// unset on failure. Selecting a cached story calls for no fetch and shows
/// it. No selection and no report leads anywhere else.
pub proof fn lemma_selection_transitions(
    session: SessionView,
    id: i64,
    outcome: Result<StoryPageView, FetchError>,
)
    ensures
        session.must_fetch(id) ==> session.selected(id).state == PreviewView::Loading,
        !session.must_fetch(id) ==> session.selected(id).state == PreviewView::Loaded(
            session.cache[id],
        ),
        outcome matches Ok(page) ==> session.selected(id).resolved(id, outcome).state
            == PreviewView::Loaded(page),
        outcome is Err ==> session.selected(id).resolved(id, outcome).state == PreviewView::Unset,
        outcome is Err ==> session.selected(id).resolved(id, outcome).cache == session.cache,
{
}

} // verus!
