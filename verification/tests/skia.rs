use ulottie_compiler::backend::rn::transform_array;
use ulottie_compiler::backend::rn::parse_markup;
use ulottie_compiler::backend::skia::lower::dl_from_markup;
use ulottie_compiler::backend::skia::{attr, blend_mode, fill_rule_eo, is_float, num, supported, transform9};
use ulottie_compiler::caps;

#[test]
fn transforms_become_row_major_matrices() {
    assert_eq!(transform9("matrix(.5,0,0,.5,10,-2.5)").unwrap(), "[.5, 0, 10, 0, .5, -2.5, 0, 0, 1]");
    assert_eq!(transform9("translate(4,-8)").unwrap(), "[1, 0, 4, 0, 1, -8, 0, 0, 1]");
    assert!(transform9("rotate(45)").is_err());
}

#[test]
fn numbers_are_what_the_float_parser_accepts() {
    for ok in ["0", ".406", "1.", "-2.5", "+3", "1e3", "1E-3", "2.5e+10", "inf", "-Infinity", "NaN"] {
        assert!(is_float(ok), "{ok}");
        assert_eq!(ok.parse::<f64>().is_ok(), true, "{ok}");
    }
    for bad in ["", ".", "-", "1e", "e3", "1.2.3", " 1", "1 ", "0x10", "1,5", "infinit"] {
        assert!(!is_float(bad), "{bad}");
        assert!(bad.parse::<f64>().is_err(), "{bad}");
    }
    assert_eq!(num(".5", "x").unwrap(), ".5");
    assert_eq!(num("5%", "opacity").unwrap_err(), "non-numeric `opacity` value `5%` in the skia-aot target");
}

#[test]
fn blend_modes_and_fill_rules_map_to_skia() {
    assert_eq!(blend_mode("multiply").unwrap(), 24);
    assert_eq!(blend_mode("screen").unwrap(), 14);
    assert_eq!(blend_mode("luminosity").unwrap(), 28);
    assert_eq!(blend_mode("normal").unwrap_err(), "unsupported mix-blend-mode `normal`");
    assert_eq!(fill_rule_eo("evenodd").unwrap(), true);
    assert_eq!(fill_rule_eo("nonzero").unwrap(), false);
    assert_eq!(fill_rule_eo("odd").unwrap_err(), "unsupported fill rule `odd`");
}

#[test]
fn attributes_are_read_by_first_name() {
    let n = parse_markup(r#"<rect width="1" height="2" width="3"/>"#).unwrap();
    assert_eq!(attr(&n, "width"), Some("1"));
    assert_eq!(attr(&n, "height"), Some("2"));
    assert_eq!(attr(&n, "x"), None);
    assert_ne!(supported() & caps::RAMP, 0);
}

#[test]
fn the_lowering_resolves_refs_inline() {
    let markup = r##"<svg viewBox="0 0 10 10" width="100%" height="100%" preserveAspectRatio="xMidYMid meet"><defs><clipPath id="c0"><rect width="10" height="10"/></clipPath><radialGradient id="g0" gradientUnits="userSpaceOnUse" cx="1" cy="2" r="3"><stop offset="0" stop-color="#fff"/><stop offset="1" stop-color="#000"/></radialGradient></defs><g clip-path="url(#c0)"><path d="M0 0L1 1" fill="url(#g0)" stroke="#f00" stroke-width="2" paint-order="stroke"/></g></svg>"##;
    // Slots number every descendant in document order, defs included:
    // defs 0, clipPath 1, rect 2, gradient 3, stops 4/5, g 6, path 7.
    let (dl, count) = dl_from_markup(markup, &vec![7usize]).unwrap();
    assert_eq!(count, 8);
    assert!(dl.contains("clip: { r: [0, 0, 10, 10] }"), "{dl}");
    assert!(dl.contains("rad: 1, cx: 1, cy: 2, r: 3"), "{dl}");
    assert!(dl.contains("st: [[0, '#fff'], [1, '#000']]"), "{dl}");
    assert!(dl.contains("po: 1"), "{dl}");
    assert!(dl.contains("s: 7"), "{dl}");
    // No url() survives lowering.
    assert!(!dl.contains("url("), "{dl}");
}

#[test]
fn unmapped_constructs_bail_with_named_findings() {
    let circle = r#"<svg viewBox="0 0 10 10"><circle cx="1" cy="1" r="1"/></svg>"#;
    let err = dl_from_markup(circle, &vec![]).unwrap_err().to_string();
    assert!(err.contains("<circle>"), "{err}");

    let bound_in_defs = r#"<svg viewBox="0 0 10 10"><defs><clipPath id="c0"><rect width="1" height="1"/></clipPath></defs><g clip-path="url(#c0)"><path d="M0 0"/></g></svg>"#;
    // Slot 1 is the clipPath — not a drawable node.
    let err = dl_from_markup(bound_in_defs, &vec![1usize]).unwrap_err().to_string();
    assert!(err.contains("not a drawable"), "{err}");
}

#[test]
fn a_shape_without_fill_paints_svg_default_black() {
    let markup = r##"<svg viewBox="0 0 10 10"><path d="M0 0"/><rect x="1" y="1" width="2" height="2" fill="none" stroke="#00f"/></svg>"##;
    let (dl, _) = dl_from_markup(markup, &vec![]).unwrap();
    assert!(dl.contains("paint: { f: '#000' }"), "{dl}");
    assert!(dl.contains("paint: { sc: '#00f' }"), "{dl}");
}

#[test]
fn a_whole_display_list_reads_exactly() {
    let markup = r##"<svg viewBox="0 0 4 4"><g opacity=".5" style="mix-blend-mode:multiply"><rect width="2" height="2" rx="1" fill="#0f0"/><ellipse cx="1" cy="1" rx="1" ry="2" fill-rule="evenodd"/></g><g/></svg>"##;
    let (dl, count) = dl_from_markup(markup, &vec![0usize]).unwrap();
    assert_eq!(count, 4);
    assert_eq!(
        dl,
        "{ k: 0, c: [\n  { k: 0, s: 0, o: .5, bm: 24, c: [\n    { k: 2, h: 2, rx: 1, w: 2, x: 0, y: 0, paint: { f: '#0f0' } },\n    { k: 3, eo: 1, cx: 1, cy: 1, rx: 1, ry: 2, paint: { f: '#000' } }\n  ] },\n  { k: 0, c: [] }\n] }"
    );
}

#[test]
fn masks_filters_and_images_lower_inline() {
    let markup = r##"<svg viewBox="0 0 4 4"><defs><mask id="m0" mask-type="alpha"><path d="M0 0"/></mask><filter id="f0" filterUnits="userSpaceOnUse" x="0" y="0" width="4" height="4"><feColorMatrix type="matrix" values="1 0 0 0 0 0 1 0 0 0 0 0 1 0 0 0 0 0 -1 1"/></filter><filter id="f1"><feGaussianBlur stdDeviation="1 2" edgeMode="wrap"/></filter></defs><g mask="url(#m0)" filter="url(#f0)"><image width="4" height="4" href="data:image/png;base64,AAAA"/></g><g filter="url(#f1)"/></svg>"##;
    let (dl, _) = dl_from_markup(markup, &vec![]).unwrap();
    assert!(dl.contains("mask: { c: [\n    { k: 1, d: 'M0 0', paint: { f: '#000' } }\n  ] }"), "{dl}");
    assert!(dl.contains("cf: { m: [1, 0, 0, 0, 0, 0, 1, 0, 0, 0, 0, 0, 1, 0, 0, 0, 0, 0, -1, 1], r: [0, 0, 4, 4] }"), "{dl}");
    assert!(dl.contains("{ k: 4, w: 4, h: 4, u: 'AAAA' }"), "{dl}");
    assert!(dl.contains("fx: [[{ bl: 1, sx: 1, sy: 2, tm: 1 }]]"), "{dl}");
}

#[test]
fn lowering_refusals_name_the_construct() {
    let cases = [
        (r#"<g/>"#, "the document root is <g>"),
        (r#"<svg viewBox="1 0 4 4"/>"#, "viewBox `1 0 4 4` does not start at the origin"),
        (r#"<svg><g mask="url(#nope)"/></svg>"#, "unresolved reference `url(#nope)`"),
        (r##"<svg><g mask="#x"/></svg>"##, "unsupported mask value `#x`"),
        (r#"<svg><image width="1" height="1" href="https://x/y.png"/></svg>"#, "the skia-aot target cannot draw a non-embedded image source"),
        (r#"<svg><path stroke-linecap="odd"/></svg>"#, "unsupported stroke-linecap `odd`"),
        (r#"<svg><rect width="a"/></svg>"#, "non-numeric `width` value `a` in the skia-aot target"),
        (r#"<svg><g foo="1"/></svg>"#, "the skia-aot target cannot lower <g foo>"),
        (r#"<svg><defs><mask id="m"><g mask="url(#m)"/></mask></defs><g mask="url(#m)"/></svg>"#, "mask references form a cycle in the skia-aot target"),
    ];
    for (markup, want) in cases {
        assert_eq!(dl_from_markup(markup, &vec![]).unwrap_err(), want, "{markup}");
    }
}

#[test]
fn both_targets_read_a_transform_as_the_same_matrix() {
    for v in ["matrix(.5,0,0,.5,10,-2.5)", "translate(4,-8)", "rotate(45)", "matrix(1,2,3)", "translate(1)"] {
        assert_eq!(transform9(v).is_ok(), transform_array(v).is_ok(), "{v}");
    }
    let flat = transform_array("matrix(a,b,c,d,e,f)").unwrap();
    assert_eq!(flat, "[a, b, c, d, e, f]");
    assert_eq!(transform9("matrix(a,b,c,d,e,f)").unwrap(), "[a, c, e, b, d, f, 0, 0, 1]");
    assert_eq!(transform_array("translate(4,-8)").unwrap(), "[1, 0, 0, 1, 4, -8]");
}
