use ulottie_compiler::backend::rn::tree::{static_props, tree_js, unmark};
use ulottie_compiler::backend::rn::{assign_slots, parse_markup, transform_array};

fn canon(list: &[&str]) -> Vec<String> {
    list.iter().map(|s| s.to_string()).collect()
}

#[test]
fn baked_props_keep_strings_unless_a_numeric_prop_is_spelled_as_a_number() {
    let node = parse_markup(
        r#"<rect xmlns="http://www.w3.org/2000/svg" x="1" opacity="0.5" fill-opacity="50%" style="display:none;overflow:hidden" transform="matrix(1,0,0,1,2,3)" id="a--u"/>"#,
    )
    .unwrap();
    let props = static_props(&node, &canon(&["0.5", "1"])).unwrap();
    assert_eq!(
        props,
        vec![
            "x: '1'".to_string(),
            "opacity: 0.5".to_string(),
            "fillOpacity: '50%'".to_string(),
            "display: 'none'".to_string(),
            format!("transform: {}", transform_array("matrix(1,0,0,1,2,3)").unwrap()),
            "id: 'a'".to_string(),
        ]
    );
    // The same value not known to be a number's own spelling stays a string.
    let props = static_props(&node, &canon(&[])).unwrap();
    assert_eq!(props[1], "opacity: '0.5'");
}

#[test]
fn a_namespaced_attribute_or_an_unknown_style_is_refused() {
    let node = parse_markup(r#"<use xlink:href="x"/>"#).unwrap();
    assert_eq!(static_props(&node, &canon(&[])).unwrap_err(), "namespaced attribute `xlink:href` in <use>");
    let node = parse_markup(r#"<g style="mix-blend-mode:multiply"/>"#).unwrap();
    assert_eq!(
        static_props(&node, &canon(&[])).unwrap_err(),
        "unsupported style `mix-blend-mode:multiply` in the reanimated-aot target (blend modes and filters are refused up front)"
    );
}

#[test]
fn id_markers_are_taken_out_left_to_right() {
    assert_eq!(unmark("a--ub--u"), "ab");
    assert_eq!(unmark("---u"), "-");
    assert_eq!(unmark("--"), "--");
}

#[test]
fn the_descriptor_nests_children_and_writes_only_bound_slots() {
    let mut root = parse_markup(r#"<svg viewBox="0 0 10 10"><g><rect width="2"/></g><circle r="1"/></svg>"#).unwrap();
    let mut next = 0;
    assign_slots(&mut root, true, &mut next);
    let mut out = String::new();
    tree_js(&root, true, &vec![1, 0 + 7], 0, &mut out, &canon(&[])).unwrap();
    assert_eq!(
        out,
        "{ type: 'Svg', staticProps: { viewBox: '0 0 10 10' }, children: [\n  { type: 'G', staticProps: {  }, children: [\n    { type: 'Rect', slot: 1, staticProps: { width: '2' } }\n  ] },\n  { type: 'Circle', staticProps: { r: '1' } }\n] }"
    );
}

#[test]
fn an_element_with_no_component_stops_the_descriptor() {
    let root = parse_markup(r#"<svg><text/></svg>"#).unwrap();
    let mut out = String::new();
    assert_eq!(
        tree_js(&root, true, &vec![], 0, &mut out, &canon(&[])).unwrap_err(),
        "the reanimated-aot target has no react-native-svg component for <text>"
    );
}
