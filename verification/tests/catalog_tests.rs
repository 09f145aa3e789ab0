use rustconf_explorer::catalog::parse_videos;

const TWO: &str = r#"[{"id":1,"title":"Intro","speaker":"A","url":"u1"},{"id":2,"title":"Deep Dive","speaker":"B","url":"u2"}]"#;

#[test]
fn empty_array_parses_to_no_videos() {
    let vs = parse_videos("[]").expect("well-formed");
    assert_eq!(vs.len(), 0);
    let vs = parse_videos("  [ ]  ").expect("well-formed");
    assert_eq!(vs.len(), 0);
}

#[test]
fn two_records_parse_in_order() {
    let vs = parse_videos(TWO).expect("well-formed");
    assert_eq!(vs.len(), 2);
    assert_eq!(vs[0].id, 1);
    assert_eq!(vs[0].title, "Intro");
    assert_eq!(vs[0].speaker, "A");
    assert_eq!(vs[0].url, "u1");
    assert_eq!(vs[1].id, 2);
    assert_eq!(vs[1].title, "Deep Dive");
    assert_eq!(vs[1].speaker, "B");
    assert_eq!(vs[1].url, "u2");
}

#[test]
fn whitespace_and_field_order_do_not_matter() {
    let body = " [ { \"url\" : \"u\" ,\n\t\"speaker\": \"S\", \"id\": 7, \"title\": \"T\" } ] ";
    let vs = parse_videos(body).expect("well-formed");
    assert_eq!(vs.len(), 1);
    assert_eq!(vs[0].id, 7);
    assert_eq!(vs[0].title, "T");
    assert_eq!(vs[0].speaker, "S");
    assert_eq!(vs[0].url, "u");
}

#[test]
fn order_of_records_is_kept() {
    let body = r#"[{"id":9,"title":"c","speaker":"x","url":"1"},
                   {"id":4,"title":"b","speaker":"y","url":"2"},
                   {"id":6,"title":"a","speaker":"z","url":"3"}]"#;
    let vs = parse_videos(body).expect("well-formed");
    let ids: Vec<u64> = vs.iter().map(|v| v.id).collect();
    assert_eq!(ids, vec![9, 4, 6]);
}

#[test]
fn missing_field_is_malformed() {
    assert!(parse_videos(r#"[{"id":1,"title":"t","speaker":"s"}]"#).is_none());
}

#[test]
fn duplicate_field_is_malformed() {
    assert!(parse_videos(r#"[{"id":1,"id":2,"title":"t","speaker":"s","url":"u"}]"#).is_none());
}

#[test]
fn unknown_members_are_skipped() {
    let vs = parse_videos(r#"[{"id":1,"title":"t","speaker":"s","url":"u","extra":"x"}]"#)
        .expect("well-formed");
    assert_eq!(vs[0].id, 1);
    let body = r#"[{"views":-1.5e-3,"id":2,"live":true,"notes":null,"tags":[1,[],{"a":"b"}],
                    "title":"t","meta":{"k":[false,"z"]},"speaker":"s","url":"u"}]"#;
    let vs = parse_videos(body).expect("well-formed");
    assert_eq!(vs.len(), 1);
    assert_eq!(vs[0].id, 2);
    assert_eq!(vs[0].title, "t");
}

#[test]
fn malformed_unknown_values_are_refused() {
    assert!(parse_videos(r#"[{"id":1,"title":"t","speaker":"s","url":"u","x":tru}]"#).is_none());
    assert!(parse_videos(r#"[{"id":1,"title":"t","speaker":"s","url":"u","x":01}]"#).is_none());
    assert!(parse_videos(r#"[{"id":1,"title":"t","speaker":"s","url":"u","x":[1,]}]"#).is_none());
    assert!(parse_videos(r#"[{"id":1,"title":"t","speaker":"s","url":"u","x":{"a"}}]"#).is_none());
}

#[test]
fn mistyped_id_is_malformed() {
    assert!(parse_videos(r#"[{"id":"1","title":"t","speaker":"s","url":"u"}]"#).is_none());
    assert!(parse_videos(r#"[{"id":-1,"title":"t","speaker":"s","url":"u"}]"#).is_none());
    assert!(parse_videos(r#"[{"id":01,"title":"t","speaker":"s","url":"u"}]"#).is_none());
}

#[test]
fn mistyped_title_is_malformed() {
    assert!(parse_videos(r#"[{"id":1,"title":2,"speaker":"s","url":"u"}]"#).is_none());
}

#[test]
fn largest_id_fits() {
    let vs = parse_videos(
        r#"[{"id":18446744073709551615,"title":"t","speaker":"s","url":"u"}]"#,
    )
    .expect("well-formed");
    assert_eq!(vs[0].id, u64::MAX);
}

#[test]
fn overflowing_id_is_malformed() {
    assert!(parse_videos(
        r#"[{"id":18446744073709551616,"title":"t","speaker":"s","url":"u"}]"#
    )
    .is_none());
}

#[test]
fn trailing_text_is_malformed() {
    assert!(parse_videos("[] x").is_none());
    assert!(parse_videos(r#"[{"id":1,"title":"t","speaker":"s","url":"u"}],"#).is_none());
}

#[test]
fn non_array_is_malformed() {
    assert!(parse_videos("").is_none());
    assert!(parse_videos("{}").is_none());
    assert!(parse_videos("null").is_none());
    assert!(parse_videos(r#"{"id":1,"title":"t","speaker":"s","url":"u"}"#).is_none());
}

#[test]
fn unterminated_pieces_are_malformed() {
    assert!(parse_videos("[").is_none());
    assert!(parse_videos(r#"[{"id":1,"title":"t","speaker":"s","url":"u"}"#).is_none());
    assert!(parse_videos(r#"[{"id":1,"title":"t,"speaker":"s","url":"u"}]"#).is_none());
}

#[test]
fn simple_escapes_decode() {
    let body = r#"[{"id":1,"title":"say \"hi\"","speaker":"a\\b","url":"u\/v\n\t\r\b\f"}]"#;
    let vs = parse_videos(body).expect("well-formed");
    assert_eq!(vs[0].title, "say \"hi\"");
    assert_eq!(vs[0].speaker, "a\\b");
    assert_eq!(vs[0].url, "u/v\n\t\r\u{0008}\u{000C}");
}

#[test]
fn unicode_escapes_decode() {
    let body = r#"[{"id":1,"title":"A\u0041\u00e9","speaker":"\ud834\udd1e","url":"u"}]"#;
    let vs = parse_videos(body).expect("well-formed");
    assert_eq!(vs[0].title, "AA\u{e9}");
    assert_eq!(vs[0].speaker, "\u{1D11E}");
}

#[test]
fn bad_escapes_and_control_characters_are_malformed() {
    assert!(parse_videos("[{\"id\":1,\"title\":\"a\\xb\",\"speaker\":\"s\",\"url\":\"u\"}]").is_none());
    assert!(parse_videos("[{\"id\":1,\"title\":\"a\nb\",\"speaker\":\"s\",\"url\":\"u\"}]").is_none());
    assert!(parse_videos(r#"[{"id":1,"title":"\uD834","speaker":"s","url":"u"}]"#).is_none());
    assert!(parse_videos(r#"[{"id":1,"title":"\uDD1E","speaker":"s","url":"u"}]"#).is_none());
    assert!(parse_videos(r#"[{"id":1,"title":"\u12","speaker":"s","url":"u"}]"#).is_none());
}

#[test]
fn missing_comma_between_records_is_malformed() {
    assert!(parse_videos(
        r#"[{"id":1,"title":"t","speaker":"s","url":"u"}{"id":2,"title":"t","speaker":"s","url":"u"}]"#
    )
    .is_none());
}
