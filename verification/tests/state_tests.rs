use rustconf_explorer::state::{FetchEvent, HomeState, LoadError, LoadStatus};
use rustconf_explorer::video::Video;

fn video(id: u64, title: &str, speaker: &str, url: &str) -> Video {
    Video {
        id,
        title: title.to_string(),
        speaker: speaker.to_string(),
        url: url.to_string(),
    }
}

const TWO: &str = r#"[{"id":1,"title":"Intro","speaker":"A","url":"u1"},{"id":2,"title":"Deep Dive","speaker":"B","url":"u2"}]"#;

#[test]
fn fresh_state_is_empty_and_pending() {
    let st = HomeState::new();
    assert_eq!(st.videos.len(), 0);
    assert!(st.selected.is_none());
    assert_eq!(st.status, LoadStatus::Pending);
}

#[test]
fn successful_fetch_replaces_the_list_wholesale() {
    let mut st = HomeState::new();
    st.complete_fetch(FetchEvent::Response(TWO.to_string()));
    assert_eq!(st.status, LoadStatus::Loaded);
    assert_eq!(st.videos.len(), 2);
    assert_eq!(st.videos[0].title, "Intro");
    assert_eq!(st.videos[1].title, "Deep Dive");
}

#[test]
fn selecting_sets_a_structurally_equal_copy() {
    let mut st = HomeState::new();
    st.complete_fetch(FetchEvent::Response(TWO.to_string()));
    let wanted = st.videos[0].clone();
    st.select(wanted.clone());
    assert_eq!(st.selected.as_ref().unwrap(), &wanted);
    assert_eq!(st.videos.len(), 2);
}

#[test]
fn second_selection_wins() {
    let mut st = HomeState::new();
    let a = video(1, "One", "A", "u1");
    let b = video(2, "Two", "B", "u2");
    st.select(a);
    st.select(b.clone());
    assert_eq!(st.selected.as_ref().unwrap(), &b);
}

#[test]
fn selecting_by_index_picks_that_row() {
    let mut st = HomeState::new();
    st.complete_fetch(FetchEvent::Response(TWO.to_string()));
    st.select_index(1);
    assert_eq!(st.selected.as_ref().unwrap().id, 2);
    assert_eq!(st.selected.as_ref().unwrap().title, "Deep Dive");
}

#[test]
fn network_failure_keeps_the_list_and_records_the_error() {
    let mut st = HomeState::new();
    st.complete_fetch(FetchEvent::NetworkFailure);
    assert_eq!(st.videos.len(), 0);
    assert_eq!(st.status, LoadStatus::Failed(LoadError::FetchFailed));
}

#[test]
fn malformed_body_keeps_the_list_and_records_the_error() {
    let mut st = HomeState::new();
    st.complete_fetch(FetchEvent::Response("not json".to_string()));
    assert_eq!(st.videos.len(), 0);
    assert_eq!(st.status, LoadStatus::Failed(LoadError::MalformedRecord));
}

#[test]
fn selection_survives_a_list_replacement() {
    let mut st = HomeState::new();
    st.complete_fetch(FetchEvent::Response(TWO.to_string()));
    st.select_index(0);
    let kept = st.selected.clone();
    st.complete_fetch(FetchEvent::Response("[]".to_string()));
    assert_eq!(st.videos.len(), 0);
    assert_eq!(st.selected, kept);
}
