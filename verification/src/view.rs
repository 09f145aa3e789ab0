//! Pure view composition: from route and state to the rendered models — the
//! dispatch of the top-level view, the navigation bar, the list rows, the
//! details pane and the inline notices. Rendering proper (DOM) sits outside;
//! everything here is a function of its arguments.

use vstd::prelude::*;
use crate::digits::{dec_digits, u64_to_dec};
use crate::route::{Route, RouteError, spec_route_path, route_path};
use crate::state::{HomeState, LoadError, LoadStatus};
use crate::video::{Video, VideoView};

verus! {

/// The top-level view that one route renders: exactly one per route, with an
/// explicit fallback for a path that names no route.
#[derive(Clone, Copy, PartialEq, Eq, Structural, Debug)]
pub enum ViewKind {
    HomeView,
    AboutView,
    PostView { id: u64 },
    NotFound,
}

/// The dispatch: which top-level view the current route renders.
pub open spec fn spec_switch(r: Result<Route, RouteError>) -> ViewKind {
    match r {
        Ok(Route::Home) => ViewKind::HomeView,
        Ok(Route::About) => ViewKind::AboutView,
        Ok(Route::Post { id }) => ViewKind::PostView { id },
        Err(_) => ViewKind::NotFound,
    }
}

/// Selects the one top-level view for the current route. A pure function;
/// an unmatched path renders the explicit fallback, never a blank screen.
pub fn switch(r: &Result<Route, RouteError>) -> (v: ViewKind)
    ensures
        v == spec_switch(*r),
{
    match r {
        Ok(Route::Home) => ViewKind::HomeView,
        Ok(Route::About) => ViewKind::AboutView,
        Ok(Route::Post { id }) => ViewKind::PostView { id: *id },
        Err(_) => ViewKind::NotFound,
    }
}

/// The dispatch is a pure mapping: the same route twice renders the same
/// view both times.
pub proof fn lemma_switch_deterministic(
    r: Result<Route, RouteError>,
    v1: ViewKind,
    v2: ViewKind,
)
    requires
        v1 == spec_switch(r),
        v2 == spec_switch(r),
    ensures
        v1 == v2,
{
}

/// Body line of the post view.
pub fn post_text(id: u64) -> (t: String)
    ensures
        t@ == "You are looking at Post "@ + dec_digits(id as int),
{
    proof {
        reveal_strlit("You are looking at Post ");
    }
    let mut t = String::from_str("You are looking at Post ");
    let d = u64_to_dec(id);
    t.append(d.as_str());
    t
}

/// Heading of the about view.
pub fn about_heading() -> (t: String)
    ensures
        t@ == "About RustConf Explorer"@,
{
    String::from_str("About RustConf Explorer")
}

/// Body line of the about view.
pub fn about_body() -> (t: String)
    ensures
        t@ == "This is a web application built using Yew for exploring RustConf videos."@,
{
    String::from_str("This is a web application built using Yew for exploring RustConf videos.")
}

/// Body line of the fallback view: never blank.
pub fn not_found_text() -> (t: String)
    ensures
        t@ == "Page not found"@,
        t@.len() > 0,
{
    proof {
        reveal_strlit("Page not found");
    }
    String::from_str("Page not found")
}

/// One in-page navigation link.
pub struct NavLink {
    pub target: Route,
    pub label: String,
    pub href: String,
}

/// The navigation bar: three fixed links and the decorative clock sampled at
/// render time.
pub struct NavModel {
    pub links: Vec<NavLink>,
    pub clock: String,
}

/// Builds the navigation bar. Each link's address is the rendered path of its
/// target, so following a link parses back to that target.
pub fn nav(clock: String) -> (nv: NavModel)
    ensures
        nv.links@.len() == 3,
        nv.links@[0].target == Route::Home,
        nv.links@[0].label@ == "Home"@,
        nv.links@[0].href@ == spec_route_path(Route::Home),
        nv.links@[1].target == Route::About,
        nv.links@[1].label@ == "About"@,
        nv.links@[1].href@ == spec_route_path(Route::About),
        nv.links@[2].target == (Route::Post { id: 3 }),
        nv.links@[2].label@ == "Post 3"@,
        nv.links@[2].href@ == spec_route_path(Route::Post { id: 3 }),
        nv.clock@ == clock@,
{
    let mut links: Vec<NavLink> = Vec::new();
    let home = Route::Home;
    links.push(NavLink {
        target: home,
        label: String::from_str("Home"),
        href: route_path(&home),
    });
    let about = Route::About;
    links.push(NavLink {
        target: about,
        label: String::from_str("About"),
        href: route_path(&about),
    });
    let post3 = Route::Post { id: 3 };
    links.push(NavLink {
        target: post3,
        label: String::from_str("Post 3"),
        href: route_path(&post3),
    });
    NavModel { links, clock }
}

/// One interactive row of the video list.
pub struct ListRow {
    pub id: u64,
    pub label: String,
}

/// The text of a row: speaker, then title.
pub open spec fn spec_row_label(v: VideoView) -> Seq<char> {
    v.speaker + ": "@ + v.title + " is this here?"@
}

/// One row per video, in list order; the row at `i` stands for the video at
/// `i`, so clicking it selects exactly that video.
pub fn list_rows(videos: &Vec<Video>) -> (rows: Vec<ListRow>)
    ensures
        rows@.len() == videos@.len(),
        forall|i: int|
            0 <= i < videos@.len() ==> rows@[i].id == videos@[i]@.id && rows@[i].label@
                == spec_row_label(videos@[i]@),
{
    let mut rows: Vec<ListRow> = Vec::new();
    let mut idx: usize = 0;
    while idx < videos.len()
        invariant
            idx <= videos@.len(),
            rows@.len() == idx,
            forall|i: int|
                0 <= i < idx ==> rows@[i].id == videos@[i]@.id && rows@[i].label@
                    == spec_row_label(videos@[i]@),
        decreases videos@.len() - idx,
    {
        let v = &videos[idx];
        let mut label = v.speaker.clone();
        label.append(": ");
        label.append(v.title.as_str());
        label.append(" is this here?");
        rows.push(ListRow { id: v.id, label });
        idx = idx + 1;
    }
    rows
}

/// The details pane: title, speaker, and the fixed placeholder image that is
/// not tied to any one video.
pub struct DetailsPane {
    pub title: String,
    pub speaker: String,
    pub image_url: String,
}

/// Address of the fixed placeholder image.
pub open spec fn placeholder_image() -> Seq<char> {
    "https://ik.imagekit.io/refaktor/user.webp"@
}

/// The details pane renders exactly when a video is selected, and shows the
/// selected video's title and speaker.
pub fn details_pane(selected: &Option<Video>) -> (d: Option<DetailsPane>)
    ensures
        d is Some <==> selected is Some,
        match (d, selected) {
            (Some(p), Some(v)) => {
                &&& p.title@ == v@.title
                &&& p.speaker@ == v@.speaker
                &&& p.image_url@ == placeholder_image()
            },
            _ => true,
        },
{
    match selected {
        Some(v) => Some(
            DetailsPane {
                title: v.title.clone(),
                speaker: v.speaker.clone(),
                image_url: String::from_str("https://ik.imagekit.io/refaktor/user.webp"),
            },
        ),
        None => None,
    }
}

/// The text of the inline notice for a failed load.
pub open spec fn spec_notice_text(e: LoadError) -> Seq<char> {
    match e {
        LoadError::FetchFailed => "The video list could not be loaded."@,
        LoadError::MalformedRecord => "The video list could not be read."@,
    }
}

/// The rendered Home view: headings, the rows of the current list, the
/// optional details pane, and the inline notice when the load failed.
pub struct HomeModel {
    pub nav: NavModel,
    pub heading: String,
    pub list_heading: String,
    pub rows: Vec<ListRow>,
    pub details: Option<DetailsPane>,
    pub notice: Option<String>,
}

/// Composes the Home view from the current state: rows in list order, the
/// details pane exactly when a video is selected, the notice exactly when the
/// load failed. Re-run whenever the state changes.
pub fn home_model(st: &HomeState, clock: String) -> (m: HomeModel)
    ensures
        m.heading@ == "RustConf Explorer"@,
        m.list_heading@ == "Videos to watch"@,
        m.rows@.len() == st@.videos.len(),
        forall|i: int|
            0 <= i < st@.videos.len() ==> m.rows@[i].id == st@.videos[i].id && m.rows@[i].label@
                == spec_row_label(st@.videos[i]),
        m.details is Some <==> st@.selected is Some,
        match (m.details, st.selected) {
            (Some(p), Some(v)) => {
                &&& p.title@ == v@.title
                &&& p.speaker@ == v@.speaker
                &&& p.image_url@ == placeholder_image()
            },
            _ => true,
        },
        match st.status {
            LoadStatus::Failed(e) => m.notice matches Some(t) && t@ == spec_notice_text(e),
            _ => m.notice is None,
        },
        m.nav.clock@ == clock@,
        m.nav.links@.len() == 3,
        m.nav.links@[0].target == Route::Home,
        m.nav.links@[0].label@ == "Home"@,
        m.nav.links@[0].href@ == spec_route_path(Route::Home),
        m.nav.links@[1].target == Route::About,
        m.nav.links@[1].label@ == "About"@,
        m.nav.links@[1].href@ == spec_route_path(Route::About),
        m.nav.links@[2].target == (Route::Post { id: 3 }),
        m.nav.links@[2].label@ == "Post 3"@,
        m.nav.links@[2].href@ == spec_route_path(Route::Post { id: 3 }),
{
    let rows = list_rows(&st.videos);
    let details = details_pane(&st.selected);
    let notice = match st.status {
        LoadStatus::Failed(LoadError::FetchFailed) => Some(
            String::from_str("The video list could not be loaded."),
        ),
        LoadStatus::Failed(LoadError::MalformedRecord) => Some(
            String::from_str("The video list could not be read."),
        ),
        _ => None,
    };
    HomeModel {
        nav: nav(clock),
        heading: String::from_str("RustConf Explorer"),
        list_heading: String::from_str("Videos to watch"),
        rows,
        details,
        notice,
    }
}

} // verus!
