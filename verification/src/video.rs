//! The video record fetched from the backend: a pure data shape with
//! structural equality and cloning, modelled by a mathematical view.

use vstd::prelude::*;

verus! {

/// Mathematical model of a video record.
pub struct VideoView {
    pub id: u64,
    pub title: Seq<char>,
    pub speaker: Seq<char>,
    pub url: Seq<char>,
}

/// One conference video: a stable identity and three text fields.
/// Immutable once fetched; equality is structural.
#[derive(Debug)]
pub struct Video {
    pub id: u64,
    pub title: String,
    pub speaker: String,
    pub url: String,
}

impl View for Video {
    type V = VideoView;

    open spec fn view(&self) -> VideoView {
        VideoView {
            id: self.id,
            title: self.title@,
            speaker: self.speaker@,
            url: self.url@,
        }
    }
}

impl Clone for Video {
    fn clone(&self) -> (r: Self)
        ensures
            r@ == self@,
    {
        Video {
            id: self.id,
            title: self.title.clone(),
            speaker: self.speaker.clone(),
            url: self.url.clone(),
        }
    }
}

impl PartialEq for Video {
    fn eq(&self, other: &Self) -> (r: bool) {
        self.id == other.id && self.title == other.title && self.speaker == other.speaker
            && self.url == other.url
    }
}

impl vstd::std_specs::cmp::PartialEqSpecImpl for Video {
    open spec fn obeys_eq_spec() -> bool {
        true
    }

    open spec fn eq_spec(&self, other: &Self) -> bool {
        self@ == other@
    }
}

/// The views of a sequence of videos, in order.
pub open spec fn views_of(vs: Seq<Video>) -> Seq<VideoView> {
    vs.map_values(|v: Video| v@)
}

} // verus!
