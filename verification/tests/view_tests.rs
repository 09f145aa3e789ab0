use rustconf_explorer::route::{parse_path, Route, RouteError};
use rustconf_explorer::state::{FetchEvent, HomeState};
use rustconf_explorer::video::Video;
use rustconf_explorer::view::{
    details_pane, home_model, list_rows, nav, not_found_text, post_text, switch, ViewKind,
};

const TWO: &str = r#"[{"id":1,"title":"Intro","speaker":"A","url":"u1"},{"id":2,"title":"Deep Dive","speaker":"B","url":"u2"}]"#;

#[test]
fn switch_renders_exactly_one_view_per_route() {
    assert_eq!(switch(&Ok(Route::Home)), ViewKind::HomeView);
    assert_eq!(switch(&Ok(Route::About)), ViewKind::AboutView);
    assert_eq!(switch(&Ok(Route::Post { id: 3 })), ViewKind::PostView { id: 3 });
    assert_eq!(switch(&Err(RouteError::RouteNotFound)), ViewKind::NotFound);
    assert_eq!(switch(&Err(RouteError::InvalidRouteParameter)), ViewKind::NotFound);
}

#[test]
fn unknown_path_renders_a_non_blank_fallback() {
    let v = switch(&parse_path("/unknown/path"));
    assert_eq!(v, ViewKind::NotFound);
    assert!(!not_found_text().is_empty());
}

#[test]
fn post_text_names_the_post() {
    assert_eq!(post_text(3), "You are looking at Post 3");
    assert_eq!(post_text(0), "You are looking at Post 0");
}

#[test]
fn nav_holds_the_three_links_and_the_clock() {
    let nv = nav("12:00:00".to_string());
    assert_eq!(nv.links.len(), 3);
    assert_eq!(nv.links[0].label, "Home");
    assert_eq!(nv.links[0].href, "/");
    assert_eq!(nv.links[1].label, "About");
    assert_eq!(nv.links[1].href, "/about");
    assert_eq!(nv.links[2].label, "Post 3");
    assert_eq!(nv.links[2].href, "/post/3");
    assert_eq!(nv.clock, "12:00:00");
}

#[test]
fn rows_carry_the_row_text_in_list_order() {
    let videos = vec![
        Video {
            id: 1,
            title: "Intro".to_string(),
            speaker: "A".to_string(),
            url: "u1".to_string(),
        },
        Video {
            id: 2,
            title: "Deep Dive".to_string(),
            speaker: "B".to_string(),
            url: "u2".to_string(),
        },
    ];
    let rows = list_rows(&videos);
    assert_eq!(rows.len(), 2);
    assert_eq!(rows[0].id, 1);
    assert_eq!(rows[0].label, "A: Intro is this here?");
    assert_eq!(rows[1].id, 2);
    assert_eq!(rows[1].label, "B: Deep Dive is this here?");
}

#[test]
fn details_show_only_a_selected_video() {
    assert!(details_pane(&None).is_none());
    let v = Video {
        id: 2,
        title: "Deep Dive".to_string(),
        speaker: "B".to_string(),
        url: "u2".to_string(),
    };
    let d = details_pane(&Some(v)).expect("selected");
    assert_eq!(d.title, "Deep Dive");
    assert_eq!(d.speaker, "B");
    assert_eq!(d.image_url, "https://ik.imagekit.io/refaktor/user.webp");
}

#[test]
fn mounting_home_and_clicking_a_row_shows_its_details() {
    let mut st = HomeState::new();
    st.complete_fetch(FetchEvent::Response(TWO.to_string()));
    let m = home_model(&st, "now".to_string());
    assert_eq!(m.rows.len(), 2);
    assert_eq!(m.rows[0].label, "A: Intro is this here?");
    assert_eq!(m.rows[1].label, "B: Deep Dive is this here?");
    assert!(m.details.is_none());
    assert!(m.notice.is_none());
    st.select_index(1);
    let m = home_model(&st, "now".to_string());
    let d = m.details.expect("a row was clicked");
    assert_eq!(d.title, "Deep Dive");
    assert_eq!(d.speaker, "B");
}

#[test]
fn failed_fetch_renders_an_empty_list_and_a_notice() {
    let mut st = HomeState::new();
    st.complete_fetch(FetchEvent::NetworkFailure);
    let m = home_model(&st, "now".to_string());
    assert_eq!(m.rows.len(), 0);
    let notice = m.notice.expect("a notice is rendered");
    assert!(!notice.is_empty());
    assert_eq!(m.heading, "RustConf Explorer");
}
