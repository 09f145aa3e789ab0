//! The Home view's state: the fetched video list, the selection, and the
//! outcome of the one-shot catalog fetch. Every transition is a function from
//! state and event to the next state; the surrounding shell only performs the
//! fetch and hands its outcome in as an event.

use vstd::prelude::*;
use crate::catalog::{clean_video, lemma_catalog_round_trip, parse_videos, spec_parse_videos,
    videos_json};
use crate::video::{Video, VideoView, views_of};

verus! {

/// Why the catalog did not load.
#[derive(Clone, Copy, PartialEq, Eq, Structural, Debug)]
pub enum LoadError {
    /// The network request did not succeed.
    FetchFailed,
    /// The response body does not parse into a sequence of video records.
    MalformedRecord,
}

/// Where the one-shot fetch stands.
#[derive(Clone, Copy, PartialEq, Eq, Structural, Debug)]
pub enum LoadStatus {
    /// The fetch has not completed yet; the list is still empty.
    Pending,
    /// The fetch completed and the list was replaced wholesale.
    Loaded,
    /// The fetch failed; the list was left as it was.
    Failed(LoadError),
}

/// What came back from the fetch: a response body on success, or nothing.
pub enum FetchEvent {
    Response(String),
    NetworkFailure,
}

/// Mathematical model of the Home view's state.
pub struct HomeStateView {
    pub videos: Seq<VideoView>,
    pub selected: Option<VideoView>,
    pub status: LoadStatus,
}

/// The Home view's state: the video list in server order, the selection held
/// by value, and the load status.
pub struct HomeState {
    pub videos: Vec<Video>,
    pub selected: Option<Video>,
    pub status: LoadStatus,
}

impl View for HomeState {
    type V = HomeStateView;

    open spec fn view(&self) -> HomeStateView {
        HomeStateView {
            videos: views_of(self.videos@),
            selected: match self.selected {
                Some(v) => Some(v@),
                None => None,
            },
            status: self.status,
        }
    }
}

/// Selecting replaces the selection with the given video and touches nothing
/// else.
pub open spec fn spec_select(st: HomeStateView, v: VideoView) -> HomeStateView {
    HomeStateView { selected: Some(v), ..st }
}

/// The outcome of a completed fetch applied to the state: on success the list
/// is replaced wholesale and the selection is kept; on failure the list is
/// left as it was and the error is recorded.
pub open spec fn spec_apply_fetch(
    st: HomeStateView,
    outcome: Result<Seq<VideoView>, LoadError>,
) -> HomeStateView {
    match outcome {
        Ok(vs) => HomeStateView { videos: vs, status: LoadStatus::Loaded, ..st },
        Err(e) => HomeStateView { status: LoadStatus::Failed(e), ..st },
    }
}

/// What the Data Loader makes of a fetch event: the parsed catalog, or the
/// error to record.
pub open spec fn spec_loader_outcome(e: Seq<char>, network_ok: bool) -> Result<
    Seq<VideoView>,
    LoadError,
> {
    if !network_ok {
        Err(LoadError::FetchFailed)
    } else {
        match spec_parse_videos(e) {
            Some(vs) => Ok(vs),
            None => Err(LoadError::MalformedRecord),
        }
    }
}

impl HomeState {
    /// A freshly mounted Home view: empty list, nothing selected, fetch
    /// outstanding.
    pub fn new() -> (st: Self)
        ensures
            st@.videos =~= Seq::<VideoView>::empty(),
            st@.selected is None,
            st@.status == LoadStatus::Pending,
    {
        let st = HomeState { videos: Vec::new(), selected: None, status: LoadStatus::Pending };
        proof {
            assert(views_of(st.videos@) =~= Seq::<VideoView>::empty());
        }
        st
    }

    /// Replaces the selection with `v`, unconditionally.
    pub fn select(&mut self, v: Video)
        ensures
            final(self)@ == spec_select(old(self)@, v@),
    {
        self.selected = Some(v);
    }

    /// Selects the video of the clicked row: the one at `i` in the current
    /// list.
    pub fn select_index(&mut self, i: usize)
        requires
            i < old(self)@.videos.len(),
        ensures
            final(self)@ == spec_select(old(self)@, old(self)@.videos[i as int]),
    {
        let v = self.videos[i].clone();
        self.selected = Some(v);
    }

    /// Applies a completed fetch to the state.
    pub fn apply_fetch(&mut self, outcome: Result<Vec<Video>, LoadError>)
        ensures
            final(self)@ == spec_apply_fetch(
                old(self)@,
                match outcome {
                    Ok(vs) => Ok(views_of(vs@)),
                    Err(e) => Err(e),
                },
            ),
    {
        match outcome {
            Ok(vs) => {
                self.videos = vs;
                self.status = LoadStatus::Loaded;
            },
            Err(e) => {
                self.status = LoadStatus::Failed(e);
            },
        }
    }

    /// Consumes one fetch event: parses the body on success, records the
    /// failure otherwise. Never panics, whatever came back.
    pub fn complete_fetch(&mut self, event: FetchEvent)
        ensures
            final(self)@ == spec_apply_fetch(
                old(self)@,
                match event {
                    FetchEvent::Response(b) => spec_loader_outcome(b@, true),
                    FetchEvent::NetworkFailure => spec_loader_outcome(Seq::empty(), false),
                },
            ),
    {
        match event {
            FetchEvent::Response(body) => match parse_videos(body.as_str()) {
                Some(vs) => self.apply_fetch(Ok(vs)),
                None => self.apply_fetch(Err(LoadError::MalformedRecord)),
            },
            FetchEvent::NetworkFailure => self.apply_fetch(Err(LoadError::FetchFailed)),
        }
    }
}

/// A catalog that parses as `N` records in a given order loads as exactly
/// those `N` records in that order, whatever the state held before.
pub proof fn lemma_loader_success(s: Seq<char>, vs: Seq<VideoView>, st: HomeStateView)
    requires
        spec_parse_videos(s) == Some(vs),
    ensures
        spec_apply_fetch(st, spec_loader_outcome(s, true)).videos == vs,
        spec_apply_fetch(st, spec_loader_outcome(s, true)).videos.len() == vs.len(),
        forall|i: int|
            0 <= i < vs.len() ==> spec_apply_fetch(st, spec_loader_outcome(s, true)).videos[i]
                == vs[i],
{
}

/// For any records whose text fields carry no quote, backslash or control
/// character: a fetch that answers with their canonical catalog text loads
/// exactly those records, as many as there are and in the same order,
/// whatever the state held before.
pub proof fn lemma_loader_round_trip(vs: Seq<VideoView>, st: HomeStateView)
    requires
        forall|j: int| 0 <= j < vs.len() ==> clean_video(vs[j]),
    ensures
        spec_apply_fetch(st, spec_loader_outcome(videos_json(vs), true)).videos == vs,
{
    lemma_catalog_round_trip(vs);
}

/// A failed fetch leaves the list as it was and records the error; a fresh
/// Home view then still shows an empty list.
pub proof fn lemma_loader_failure(st: HomeStateView, e: LoadError)
    ensures
        spec_apply_fetch(st, Err(e)).videos == st.videos,
        spec_apply_fetch(st, Err(e)).selected == st.selected,
        spec_apply_fetch(st, Err(e)).status == LoadStatus::Failed(e),
{
}

/// Selecting sets the selection to a value structurally equal to the chosen
/// video and keeps the list; of two selections in a row, the second one
/// stands.
pub proof fn lemma_select_twice(st: HomeStateView, a: VideoView, b: VideoView)
    ensures
        spec_select(st, a).selected == Some(a),
        spec_select(st, a).videos == st.videos,
        spec_select(spec_select(st, a), b).selected == Some(b),
        spec_select(spec_select(st, a), b).videos == st.videos,
{
}

} // verus!
