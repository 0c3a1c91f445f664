use ulottie_compiler::backend::emit::Mod;
use ulottie_compiler::backend::rn::{
    assign_slots, camel, component, declarations_with, flatten_nested_svgs, lower_invert_filters,
    numeric_prop, parse_markup, supported, transform_array, workletize, Node,
};
use ulottie_compiler::caps;

#[test]
fn worklet_lands_after_the_body_brace_not_in_the_comment() {
    let text = "// says { things } in a comment\nfunction put(el, v) {\n  el.p = v;\n}\n";
    let out = workletize("put", text);
    assert!(
        out.starts_with("// says { things } in a comment\nfunction put(el, v) { 'worklet';"),
        "{out}"
    );
    let arrow = "const kzero = () => 0;\n";
    assert_eq!(workletize("kzero", arrow), arrow);
}

#[test]
fn a_longer_name_is_not_the_function_asked_for() {
    let text = "function putAll(x) {\n}\nfunction put (x) {\n}\n";
    assert_eq!(workletize("put", text), "function putAll(x) {\n}\nfunction put (x) { 'worklet';\n}\n");
}

#[test]
fn transforms_become_matrix_arrays_never_strings() {
    assert_eq!(transform_array("matrix(.5,0,0,.5,10,-2.5)").unwrap(), "[.5, 0, 0, .5, 10, -2.5]");
    assert_eq!(transform_array("translate(4,-8)").unwrap(), "[1, 0, 0, 1, 4, -8]");
    assert!(transform_array("rotate(45)").is_err());
}

#[test]
fn a_transform_with_the_wrong_arity_is_refused_by_name() {
    assert_eq!(transform_array("matrix(1,2)").unwrap_err(), "matrix() with 2 arguments");
    assert_eq!(transform_array("translate(1)").unwrap_err(), "translate() with 1 arguments");
    assert_eq!(
        transform_array("skewX(3)").unwrap_err(),
        "unsupported transform `skewX(3)` in the reanimated-aot target"
    );
}

#[test]
fn attrs_map_to_react_native_svg_props() {
    assert_eq!(camel("fill-opacity"), "fillOpacity");
    assert_eq!(camel("stroke-dasharray"), "strokeDasharray");
    assert_eq!(camel("mask-type"), "maskType");
    assert_eq!(camel("viewBox"), "viewBox");
}

#[test]
fn every_emitted_tag_has_a_component_and_others_are_refused() {
    assert_eq!(component("svg").unwrap(), "Svg");
    assert_eq!(component("clipPath").unwrap(), "ClipPath");
    assert_eq!(component("feColorMatrix").unwrap(), "FeColorMatrix");
    assert_eq!(
        component("text").unwrap_err(),
        "the reanimated-aot target has no react-native-svg component for <text>"
    );
    assert!(numeric_prop("fillOpacity"));
    assert!(!numeric_prop("fill"));
    assert_eq!(supported() & caps::GRADIENT, 0);
    assert_ne!(supported() & caps::TRIM, 0);
}

#[test]
fn the_parser_reads_the_compilers_own_markup_shape() {
    let node = parse_markup(
        r#"<svg viewBox="0 0 10 10"><g transform="translate(1,2)"><path d="M0 0"/></g></svg>"#,
    )
    .unwrap();
    assert_eq!(node.tag, "svg");
    assert_eq!(node.children.len(), 1);
    assert_eq!(node.children[0].children[0].tag, "path");
    assert!(parse_markup("<svg>text</svg>").is_err());
}

#[test]
fn malformed_markup_is_refused_with_a_reason() {
    assert_eq!(parse_markup("<svg><g></svg>").unwrap_err(), "mismatched close tag for <g>");
    assert_eq!(parse_markup("<svg a=1/>").unwrap_err(), "attribute `a` in <svg> is not double-quoted");
    assert_eq!(parse_markup("<svg/> x").unwrap_err(), "trailing content after the root element");
    assert_eq!(parse_markup("<svg").unwrap_err(), "unterminated element <svg>");
    assert_eq!(parse_markup("x").unwrap_err(), "expected '<' at byte 0");
    assert_eq!(parse_markup("< svg/>").unwrap_err(), "empty tag name at byte 1");
    assert!(parse_markup("<svg/>\n").is_ok());
}

#[test]
fn positions_in_messages_count_bytes() {
    assert_eq!(parse_markup("<svg a=\"\u{e9}\">< g/></svg>").unwrap_err(), "empty tag name at byte 13");
    assert_eq!(parse_markup("\u{e9}").unwrap_err(), "expected '<' at byte 0");
    assert_eq!(parse_markup("<svg a=\"\u{20ac}\">< g/></svg>").unwrap_err(), "empty tag name at byte 14");
    assert_eq!(parse_markup("<svg a=\"\u{1f600}\">< g/></svg>").unwrap_err(), "empty tag name at byte 15");
}

fn slots(n: &Node, out: &mut Vec<(String, Option<usize>)>) {
    out.push((n.tag.clone(), n.slot));
    for c in &n.children {
        slots(c, out);
    }
}

#[test]
fn slots_number_descendants_in_document_order_root_excluded() {
    let mut node =
        parse_markup(r#"<svg><g><path d="M0 0"/></g><rect width="1" height="1"/></svg>"#).unwrap();
    let mut count = 0;
    assign_slots(&mut node, true, &mut count);
    assert_eq!(count, 3);
    let mut seen = Vec::new();
    slots(&node, &mut seen);
    assert_eq!(
        seen,
        [
            ("svg".to_string(), None),
            ("g".to_string(), Some(0)),
            ("path".to_string(), Some(1)),
            ("rect".to_string(), Some(2))
        ]
    );
}

#[test]
fn nested_svgs_flatten_to_viewport_clipped_groups() {
    let mut root = parse_markup(
        r#"<svg viewBox="0 0 10 10"><svg width="10" height="10" opacity="0"><svg width="5" height="5"><rect fill="url(#g0)"/></svg><svg width="10" height="10"/></svg><defs><linearGradient id="g0"/></defs></svg>"#,
    )
    .unwrap();
    let mut count = 0;
    assign_slots(&mut root, true, &mut count);
    flatten_nested_svgs(&mut root).unwrap();
    let outer = &root.children[1];
    assert_eq!(outer.tag, "g");
    assert_eq!(outer.slot, Some(0));
    assert!(
        outer.attrs.contains(&("opacity".to_string(), "0".to_string())),
        "carried props survive: {:?}",
        outer.attrs
    );
    assert!(outer.attrs.contains(&("clip-path".to_string(), "url(#vp0)".to_string())));
    assert!(outer.children[0].attrs.contains(&("clip-path".to_string(), "url(#vp1)".to_string())));
    assert!(outer.children[1].attrs.contains(&("clip-path".to_string(), "url(#vp0)".to_string())));
    let defs = &root.children[0];
    assert_eq!(defs.tag, "defs");
    let vps: Vec<&str> = defs
        .children
        .iter()
        .filter(|c| c.tag == "clipPath")
        .map(|c| c.attrs[0].1.as_str())
        .collect();
    assert_eq!(vps, ["vp0", "vp1"]);
    assert_eq!(defs.children[1].children[0].tag, "rect");
    assert_eq!(defs.children[1].children[0].attrs[0].1, "5");
    fn any_svg(n: &Node) -> bool {
        n.children.iter().any(|c| c.tag == "svg" || any_svg(c))
    }
    assert!(!any_svg(&root));
}

#[test]
fn a_nested_svg_attribute_a_group_cannot_carry_is_refused() {
    let mut root = parse_markup(
        r#"<svg><svg width="10" height="10" viewBox="0 0 5 5"><rect width="1" height="1"/></svg></svg>"#,
    )
    .unwrap();
    let err = flatten_nested_svgs(&mut root).unwrap_err();
    assert!(err.contains("viewBox"), "{err}");
}

#[test]
fn a_nested_svg_with_its_own_clip_wraps_its_children() {
    let mut root = parse_markup(
        r#"<svg><svg width="4" height="4" clip-path="url(#c)"><rect/></svg></svg>"#,
    )
    .unwrap();
    flatten_nested_svgs(&mut root).unwrap();
    let g = &root.children[1];
    assert_eq!(g.attrs, [("clip-path".to_string(), "url(#c)".to_string())]);
    assert_eq!(g.children.len(), 1);
    assert_eq!(g.children[0].tag, "g");
    assert_eq!(g.children[0].slot, None);
    assert_eq!(g.children[0].attrs, [("clip-path".to_string(), "url(#vp0)".to_string())]);
    assert_eq!(g.children[0].children[0].tag, "rect");
}

#[test]
fn invert_tables_lower_to_color_matrices() {
    let mut alpha = parse_markup(
        r#"<svg><filter><feComponentTransfer><feFuncA type="table" tableValues="1 0"/></feComponentTransfer></filter></svg>"#,
    )
    .unwrap();
    lower_invert_filters(&mut alpha).unwrap();
    let m = &alpha.children[0].children[0];
    assert_eq!(m.tag, "feColorMatrix");
    assert_eq!(
        m.attrs,
        [
            ("type".to_string(), "matrix".to_string()),
            ("values".to_string(), "1 0 0 0 0 0 1 0 0 0 0 0 1 0 0 0 0 0 -1 1".to_string())
        ]
    );
    let mut luma = parse_markup(
        r#"<svg><feComponentTransfer><feFuncR type="table" tableValues="1 0"/><feFuncG type="table" tableValues="1 0"/><feFuncB tableValues="1 0" type="table"/></feComponentTransfer></svg>"#,
    )
    .unwrap();
    lower_invert_filters(&mut luma).unwrap();
    assert_eq!(luma.children[0].attrs[1].1, "-1 0 0 0 1 0 -1 0 0 1 0 0 -1 0 1 0 0 0 1 0");
    assert!(luma.children[0].children.is_empty());
}

#[test]
fn other_transfers_are_refused() {
    let mut gamma = parse_markup(
        r#"<svg><feComponentTransfer><feFuncA type="gamma"/></feComponentTransfer></svg>"#,
    )
    .unwrap();
    assert_eq!(
        lower_invert_filters(&mut gamma).unwrap_err(),
        "the reanimated-aot target only lowers the invert-table <feFuncA>"
    );
    let mut two = parse_markup(
        r#"<svg><feComponentTransfer><feFuncR type="table" tableValues="1 0"/><feFuncA type="table" tableValues="1 0"/></feComponentTransfer></svg>"#,
    )
    .unwrap();
    assert_eq!(
        lower_invert_filters(&mut two).unwrap_err(),
        "unrecognized <feComponentTransfer> channel set {\"feFuncA\", \"feFuncR\"}"
    );
}

#[test]
fn overrides_replace_in_place_and_additions_append() {
    let web = [
        Mod { name: "a.js", src: "function put(x) {\n  return 1;\n}\nfunction keep() {\n}\n".to_string() },
    ];
    let rn = [Mod { name: "rn/a.js", src: "function put(x) {\n  return 2;\n}\nfunction mountRn() {\n}\n".to_string() }];
    let d = declarations_with(&web, &rn);
    let names: Vec<&str> = d.iter().map(|x| x.name.as_str()).collect();
    assert_eq!(names, ["put", "keep", "mountRn"]);
    assert!(d[0].text.contains("return 2;"));
}

#[test]
fn a_successful_lowering_leaves_no_transfer_anywhere() {
    let mut tree = parse_markup(
        r#"<svg><g><filter><feComponentTransfer><feFuncA type="table" tableValues="1 0"/></feComponentTransfer></filter></g><mask><g><filter><feComponentTransfer><feFuncB type="table" tableValues="1 0"/><feFuncR type="table" tableValues="1 0"/><feFuncG type="table" tableValues="1 0"/></feComponentTransfer></filter></g></mask></svg>"#,
    )
    .unwrap();
    lower_invert_filters(&mut tree).unwrap();
    fn any_transfer(n: &Node) -> bool {
        n.children.iter().any(|c| c.tag == "feComponentTransfer" || any_transfer(c))
    }
    assert!(!any_transfer(&tree));
    assert_eq!(tree.children[1].children[0].children[0].children[0].tag, "feColorMatrix");
}

#[test]
fn slots_continue_from_the_counter_and_include_a_non_root_start() {
    let mut node = parse_markup(r#"<g><rect/><g><path/></g></g>"#).unwrap();
    let mut count = 5;
    assign_slots(&mut node, false, &mut count);
    assert_eq!(count, 9);
    let mut seen = Vec::new();
    slots(&node, &mut seen);
    let got: Vec<Option<usize>> = seen.into_iter().map(|(_, s)| s).collect();
    assert_eq!(got, [Some(5), Some(6), Some(7), Some(8)]);
}
