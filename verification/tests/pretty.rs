use ulottie_compiler::backend::pretty::{json, markup, markup_plain, split_tags, Json};

fn q(s: &str) -> String {
    format!("'{s}'")
}

#[test]
fn markup_nests_by_element_depth() {
    let m = r#"<svg a="1"><g b="2"><rect c="3"/></g></svg>"#;
    assert_eq!(
        markup(m, q),
        "  '<svg a=\"1\">' +\n    '<g b=\"2\">' +\n      '<rect c=\"3\"/>' +\n    '</g>' +\n  '</svg>'\n"
    );
}

#[test]
fn concatenating_the_parts_reproduces_the_markup() {
    let m = r#"<svg viewBox="0 0 2 2"><path d="M0,0L1,1Z"/><g/></svg>"#;
    let joined: String = split_tags(m).concat();
    assert_eq!(joined, m);
}

#[test]
fn a_quoted_angle_bracket_does_not_split_a_tag() {
    let m = r#"<svg t="a>b"><g/></svg>"#;
    assert_eq!(split_tags(m), vec![r#"<svg t="a>b">"#, "<g/>", "</svg>"]);
}

#[test]
fn the_plain_document_nests_the_same_way() {
    let m = r#"<svg a="1"><g b="2"><rect c="3"/></g></svg>"#;
    assert_eq!(
        markup_plain(m),
        "<svg a=\"1\">\n  <g b=\"2\">\n    <rect c=\"3\"/>\n  </g>\n</svg>\n"
    );
}

#[test]
fn a_stray_close_does_not_indent_below_zero() {
    assert_eq!(markup_plain("</g><g/>"), "</g>\n<g/>\n");
}

fn num(t: &str) -> Json {
    Json::Number(t.to_string())
}

fn text_of(v: &serde_json::Value) -> Json {
    match v {
        serde_json::Value::Number(_) => Json::Number(v.to_string()),
        serde_json::Value::Array(items) => Json::Array(items.iter().map(text_of).collect()),
        serde_json::Value::Object(map) => Json::Object(
            map.iter()
                .map(|(k, x)| (k.clone(), serde_json::Value::String(k.clone()).to_string(), text_of(x)))
                .collect(),
        ),
        _ => Json::Scalar(v.to_string()),
    }
}

#[test]
fn small_containers_stay_inline() {
    let v: serde_json::Value = serde_json::from_str(r#"{"t":[0,10],"v":[1,2]}"#).unwrap();
    assert_eq!(json(&text_of(&v), 0), r#"{"t":[0,10],"v":[1,2]}"#);
}

#[test]
fn wide_containers_break_one_entry_per_line() {
    let v: serde_json::Value = serde_json::from_str(
        r#"{"b":[[0,1,"aaaaaaaaaaaaaaaaaaaaaaaaaaaaaaaaaaaa"],[1,2,"bbbbbbbbbbbbbbbbbbbbbbbbbbbbbbbbbbbb"]]}"#,
    )
    .unwrap();
    let s = json(&text_of(&v), 0);
    assert!(s.contains("\n"), "expected a multi-line rendering, got {s}");
    // Inner arrays still fit, so they stay on one line each.
    assert!(s.contains(r#"[0,1,"aaaaaaaaaaaaaaaaaaaaaaaaaaaaaaaaaaaa"]"#), "{s}");
}

#[test]
fn a_wide_object_puts_each_entry_on_its_own_line() {
    let v: serde_json::Value = serde_json::from_str(
        r#"{"b":[[0,1,"aaaaaaaaaaaaaaaaaaaaaaaaaaaaaaaaaaaa"],[1,2,"bbbbbbbbbbbbbbbbbbbbbbbbbbbbbbbbbbbb"]]}"#,
    )
    .unwrap();
    assert_eq!(
        json(&text_of(&v), 0),
        "{\n  \"b\": [[0,1,\"aaaaaaaaaaaaaaaaaaaaaaaaaaaaaaaaaaaa\"],[1,2,\"bbbbbbbbbbbbbbbbbbbbbbbbbbbbbbbbbbbb\"]]\n}"
    );
}

#[test]
fn numbers_wrap_like_prose_with_no_trailing_space() {
    let v = Json::Array((0..30).map(|_| num("1000")).collect());
    assert_eq!(
        json(&v, 0),
        "[\n  1000, 1000, 1000, 1000, 1000, 1000, 1000, 1000, 1000, 1000, 1000, 1000, 1000, 1000, 1000, 1000,\n  1000, 1000, 1000, 1000, 1000, 1000, 1000, 1000, 1000, 1000, 1000, 1000, 1000, 1000\n]"
    );
}

#[test]
fn a_number_longer_than_the_line_still_starts_one_and_the_rest_wrap_after_it() {
    let mut items = vec![num("123456789012345678901234567890123456789012345678901234567890")];
    for i in 1..=25 {
        items.push(num(&i.to_string()));
    }
    let v = Json::Object(vec![("k".to_string(), "\"k\"".to_string(), Json::Array(items))]);
    assert_eq!(
        json(&v, 0),
        "{\n  \"k\": [\n    123456789012345678901234567890123456789012345678901234567890, 1, 2, 3, 4, 5, 6, 7, 8, 9, 10,\n    11, 12, 13, 14, 15, 16, 17, 18, 19, 20, 21, 22, 23, 24, 25\n  ]\n}"
    );
}

#[test]
fn scalars_are_their_compact_text_whatever_the_indent() {
    assert_eq!(json(&Json::Scalar("\"x\"".to_string()), 200), "\"x\"");
    assert_eq!(json(&num("1.5"), 0), "1.5");
    assert_eq!(json(&Json::Array(vec![]), 0), "[]");
}

#[test]
fn laying_out_changes_only_whitespace() {
    let v: serde_json::Value = serde_json::from_str(
        r#"{"layers":[{"name":"a b","k":[1,2,3,4,5,6,7,8,9,10,11,12,13,14,15,16,17,18,19,20,21,22,23,24,25,26,27,28,29,30,31,32,33,34,35]},{"name":"c","k":[]}],"w":512}"#,
    )
    .unwrap();
    let laid = json(&text_of(&v), 0);
    assert!(laid.contains('\n'));
    let strip = |s: &str| s.chars().filter(|c| *c != ' ' && *c != '\n').collect::<String>();
    assert_eq!(strip(&laid), strip(&v.to_string()));
}

#[test]
fn markup_quoted_as_itself_is_the_plain_document_one_level_deeper() {
    let m = r#"<svg a="1"><g b="2"><rect c="3"/></g></svg>"#;
    let plain = markup_plain(m);
    let quoted = markup(m, |s: &str| s.to_string());
    let p: Vec<&str> = plain.lines().collect();
    let q: Vec<&str> = quoted.lines().collect();
    assert_eq!(p.len(), q.len());
    for (i, (a, b)) in p.iter().zip(q.iter()).enumerate() {
        let tail = if i + 1 < p.len() { " +" } else { "" };
        assert_eq!(*b, format!("  {a}{tail}"));
    }
    assert_eq!(plain, "<svg a=\"1\">\n  <g b=\"2\">\n    <rect c=\"3\"/>\n  </g>\n</svg>\n");
}
