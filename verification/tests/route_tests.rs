use rustconf_explorer::route::{parse_path, route_path, Route, RouteError};

#[test]
fn root_maps_to_home() {
    assert_eq!(parse_path("/"), Ok(Route::Home));
}

#[test]
fn about_maps_to_about() {
    assert_eq!(parse_path("/about"), Ok(Route::About));
}

#[test]
fn post_3_maps_to_post() {
    assert_eq!(parse_path("/post/3"), Ok(Route::Post { id: 3 }));
}

#[test]
fn post_abc_is_invalid_parameter() {
    assert_eq!(parse_path("/post/abc"), Err(RouteError::InvalidRouteParameter));
}

#[test]
fn unknown_path_is_not_found() {
    assert_eq!(parse_path("/unknown/path"), Err(RouteError::RouteNotFound));
}

#[test]
fn empty_post_segment_is_invalid_parameter() {
    assert_eq!(parse_path("/post/"), Err(RouteError::InvalidRouteParameter));
}

#[test]
fn deeper_post_path_is_not_found() {
    assert_eq!(parse_path("/post/3/comments"), Err(RouteError::RouteNotFound));
}

#[test]
fn mixed_post_segment_is_invalid_parameter() {
    assert_eq!(parse_path("/post/12a"), Err(RouteError::InvalidRouteParameter));
}

#[test]
fn leading_zeros_still_parse() {
    assert_eq!(parse_path("/post/007"), Ok(Route::Post { id: 7 }));
}

#[test]
fn largest_id_parses() {
    assert_eq!(
        parse_path("/post/18446744073709551615"),
        Ok(Route::Post { id: u64::MAX })
    );
}

#[test]
fn overflowing_id_is_invalid_parameter() {
    assert_eq!(
        parse_path("/post/18446744073709551616"),
        Err(RouteError::InvalidRouteParameter)
    );
}

#[test]
fn about_with_suffix_is_not_found() {
    assert_eq!(parse_path("/about/x"), Err(RouteError::RouteNotFound));
    assert_eq!(parse_path("/aboutx"), Err(RouteError::RouteNotFound));
}

#[test]
fn empty_path_is_not_found() {
    assert_eq!(parse_path(""), Err(RouteError::RouteNotFound));
}

#[test]
fn parsing_twice_gives_the_same_route() {
    for p in ["/", "/about", "/post/41", "/post/x", "/nope"] {
        assert_eq!(parse_path(p), parse_path(p));
    }
}

#[test]
fn routes_render_to_their_paths() {
    assert_eq!(route_path(&Route::Home), "/");
    assert_eq!(route_path(&Route::About), "/about");
    assert_eq!(route_path(&Route::Post { id: 3 }), "/post/3");
    assert_eq!(route_path(&Route::Post { id: 12034 }), "/post/12034");
}

#[test]
fn rendered_paths_parse_back() {
    for r in [Route::Home, Route::About, Route::Post { id: 0 }, Route::Post { id: 909 }] {
        assert_eq!(parse_path(&route_path(&r)), Ok(r));
    }
}
