use ulottie_compiler::backend::emit_expressions::{bare_helpers, emit_one, vocabulary};
use ulottie_compiler::backend::layers::{agree, emit_table, verify, Handle, Plan, Sel, Site, Surface, Table, Target};
use ulottie_compiler::caps;

#[test]
fn the_property_surface_does_not_trip_the_verifier() {
    assert!(!verify(
        "$bm_rt = createPath(thisProperty.points(), 0, 0, thisProperty.isClosed());"
    ));
    assert!(!verify("$bm_rt = nearestKey(time).index;"));
    assert!(!verify("$bm_rt = 1.5;"));
}

#[test]
fn a_surviving_layer_member_is_caught_whatever_the_walk_believed() {
    assert!(verify("$bm_rt = x.position;"));
    assert!(verify("$bm_rt = x.toComp(p);"));
    assert!(verify("$bm_rt = thisComp.layer('wire');"));
    assert!(!verify("$bm_rt = x.pathData;"));
    assert!(!verify("$bm_rt = x.contentType;"));
}

#[test]
fn a_binding_only_the_fallback_supplies_is_caught() {
    assert!(verify("$bm_rt = effect('x')(0, 1);"));
    assert!(verify("var e = effect('x'); $bm_rt = e(0);"));
    assert!(verify("$bm_rt = thisComp.width;"));
    assert!(verify("$bm_rt = thisComp.layer('wire');"));
    assert!(!verify("$bm_rt = lyEffect(thisLayer, 0, 0, frame);"));
    assert!(!verify("$bm_rt = div(frameDuration, 10);"));
    assert!(!verify("$bm_rt = effects_total;"));
    assert!(!verify("$bm_rt = myEffect;"));
}

fn site(table: Table, owner: u32) -> Site {
    Site { table, owner, scope: 0, surface: Surface::Keyed }
}

#[test]
fn uses_that_agree_on_a_slot_get_an_absolute_handle() {
    let uses = [
        (site(Table::Doc, 1), Target::Rec(8)),
        (site(Table::Doc, 4), Target::Rec(8)),
    ];
    assert_eq!(agree(&uses), Some(Handle::At(8)));
    assert_eq!(Handle::At(8).emit(), "lyAt(thisLayer, 8)");
    assert_eq!(Handle::At(8).helper(), "lyAt");
}

#[test]
fn uses_that_agree_on_an_offset_get_a_relative_handle() {
    let uses = [
        (site(Table::Doc, 10), Target::Rec(7)),
        (site(Table::Doc, 30), Target::Rec(27)),
    ];
    assert_eq!(agree(&uses), Some(Handle::Rel(-3)));
    assert_eq!(Handle::Rel(-3).emit(), "lyRel(thisLayer, -3)");
    assert_eq!(Handle::Rel(2).emit(), "lyRel(thisLayer, 2)");
    assert_eq!(Handle::Rel(2).helper(), "lyRel");
    // One slot, but two tables: the delta is the only spelling left.
    let crossing = [
        (site(Table::Doc, 2), Target::Rec(5)),
        (site(Table::Asset(1), 2), Target::Rec(5)),
    ];
    assert_eq!(agree(&crossing), Some(Handle::Rel(3)));
}

#[test]
fn a_reference_to_nothing_or_a_disagreement_is_refused() {
    assert_eq!(agree(&[]), None);
    assert_eq!(
        agree(&[(site(Table::Doc, 1), Target::Rec(2)), (site(Table::Doc, 1), Target::NoLayer)]),
        None
    );
    assert_eq!(agree(&[(site(Table::Doc, 1), Target::NoEffect)]), None);
    assert_eq!(
        agree(&[(site(Table::Doc, 1), Target::Rec(2)), (site(Table::Doc, 5), Target::Rec(3))]),
        None
    );
}

#[test]
fn only_the_path_surface_lacks_the_key_api() {
    assert!(Surface::Keyed.has_keys());
    assert!(Surface::Stub.has_keys());
    assert!(!Surface::Path.has_keys());
}

fn resolved() -> Plan {
    Plan { body: String::new(), helpers: Vec::new(), frame_duration: false, surface: Some(Surface::Keyed) }
}

fn emit_with(body: &str, surface: Option<Surface>) -> String {
    let mut out = String::new();
    emit_one(&mut out, body, &Plan { surface, ..resolved() });
    out
}

fn emit(body: &str) -> String {
    let mut s = String::new();
    emit_one(&mut s, body, &resolved());
    s
}

#[test]
fn the_property_surface_folds_to_what_the_uses_agree_on() {
    let body = "$bm_rt = key(nearestKey(time).index);";
    let keyed = emit_with(body, Some(Surface::Keyed));
    assert!(keyed.contains("const key = thisProperty.key;"), "{keyed}");
    assert!(!keyed.contains("||"), "{keyed}");
    let path = emit_with(body, Some(Surface::Path));
    assert!(path.contains("const key = (n) => ({ time: 0, value: 0, index: n });"), "{path}");
    assert!(!path.contains("thisProperty.key"), "{path}");
    let mixed = emit_with(body, None);
    assert!(mixed.contains("const key = thisProperty.key || ((n) =>"), "{mixed}");
}

#[test]
fn num_keys_folds_to_a_literal_off_the_keyed_surface() {
    let body = "$bm_rt = numKeys;";
    assert!(emit_with(body, Some(Surface::Keyed)).contains("const numKeys = thisProperty.numKeys;"));
    assert!(emit_with(body, Some(Surface::Stub)).contains("const numKeys = 0;"));
    assert!(emit_with(body, Some(Surface::Path)).contains("const numKeys = 0;"));
    assert!(emit_with(body, None).contains("const numKeys = thisProperty.numKeys;"));
}

#[test]
fn the_preamble_neither_probes_nor_binds() {
    let body = "$bm_rt = loopOut('cycle') + valueAtTime(0) + velocityAtTime(0) + numKeys;";
    for surface in [Some(Surface::Keyed), Some(Surface::Stub), Some(Surface::Path), None] {
        let out = emit_with(body, surface);
        assert!(!out.contains(".bind("), "{surface:?}: {out}");
        assert!(!out.contains("thisProperty?."), "{surface:?}: {out}");
    }
}

#[test]
fn a_body_calls_utils_by_bare_name_not_via_ctx() {
    let out = emit("$bm_rt = clamp(value, 0, 100);");
    assert!(out.contains("clamp(value, 0, 100)"), "{out}");
    assert!(!out.contains("ctx."), "{out}");
}

#[test]
fn a_member_call_does_not_pull_in_the_free_binding() {
    let out = emit("$bm_rt = p.pointOnPath(0.5);");
    assert!(out.contains("p.pointOnPath(0.5)"), "{out}");
    assert!(!out.contains("= ctx;"), "{out}");
}

#[test]
fn words_inside_string_literals_are_not_references() {
    let out = emit("$bm_rt = thisLayer.effect('Pseudo/Trace time key')('x');");
    assert!(!out.contains("const time"), "{out}");
    assert!(!out.contains("const key"), "{out}");
}

#[test]
fn the_property_surface_is_bound_when_used() {
    let out = emit("$bm_rt = loopOut('cycle');");
    assert!(out.contains("const loopOut"), "{out}");
    assert!(!out.contains("const numKeys"), "{out}");
    assert!(out.contains("const thisProperty = thisPropertyFor(ctx, $p);"), "{out}");
}

#[test]
fn a_body_that_declares_its_own_result_slot_gets_no_second_one() {
    let out = emit("var $bm_rt;\n$bm_rt = 1;");
    assert_eq!(out.matches("var $bm_rt;").count(), 1, "{out}");
}

#[test]
fn a_resolved_body_gets_no_lookup_preamble() {
    let out = emit("$bm_rt = lyPos(lyAt(thisLayer, 8), frame);");
    assert!(!out.contains("thisComp"), "{out}");
}

#[test]
fn frame_duration_is_a_division_not_a_baked_decimal() {
    let mut s = String::new();
    emit_one(&mut s, "$bm_rt = frameDuration;", &Plan { frame_duration: true, ..resolved() });
    assert!(s.contains("const frameDuration = 1 / ctx.frameRate;"), "{s}");
}

#[test]
fn an_emitted_body_is_a_whole_function() {
    let mut s = String::new();
    let bound = emit_one(&mut s, "$bm_rt = time;", &resolved());
    assert!(!bound);
    assert_eq!(
        s,
        "  function(value, thisLayer, $p, frame, ctx) {\n    const time = frame / ctx.frameRate;\n    var $bm_rt;\n    $bm_rt = time;\n    return $bm_rt;\n  },\n"
    );
}

#[test]
fn bare_helpers_are_found_once_each_in_order() {
    let bodies = vec![
        "$bm_rt = clamp(sum(a, b), 0, 1);".to_string(),
        "$bm_rt = p.pointOnPath(0.5) + clamp(x, 0, 1) + 'div';".to_string(),
        "$bm_rt = createPath(points);".to_string(),
    ];
    assert_eq!(bare_helpers(&bodies), ["clamp", "sum", "createPath"]);
}

#[test]
fn the_vocabulary_counts_every_mention() {
    assert_eq!(vocabulary(&["$bm_rt = value;".to_string()]), caps::NONE);
    assert_eq!(vocabulary(&["$bm_rt = loopOut('cycle');".to_string()]), caps::EXPR_PROPERTY);
    assert_eq!(
        vocabulary(&["$bm_rt = toComp(p);".to_string(), "$bm_rt = p.pointOnPath(0);".to_string()]),
        caps::EXPR_COMP | caps::EXPR_PATH
    );
}

#[test]
fn the_table_collects_bodies_and_helpers() {
    let plans = vec![
        Plan { body: "$bm_rt = loopOut('cycle');".to_string(), helpers: vec!["lyAt"], ..resolved() },
        Plan { body: "$bm_rt = clamp(value, 0, 1);".to_string(), ..resolved() },
    ];
    let e = emit_table(&plans);
    assert!(e.src.starts_with("const E = [\n  function(value, thisLayer, $p, frame, ctx) {\n"));
    assert!(e.src.ends_with("  },\n];\n"));
    assert_eq!(e.bodies, ["$bm_rt = loopOut('cycle');", "$bm_rt = clamp(value, 0, 1);"]);
    assert_eq!(e.helpers, ["clamp", "lyAt", "thisPropertyFor"]);
}

#[test]
fn a_selector_finds_its_item_and_refuses_an_ambiguous_name() {
    let names = [(Some("Slider"), None), (None, Some("ADBE Fill")), (Some("Dup"), Some("Dup"))];
    assert_eq!(Sel::Idx(1).find(&names), Some(Some(1)));
    assert_eq!(Sel::Idx(3).find(&names), Some(None));
    assert_eq!(Sel::Name("ADBE Fill".to_string()).find(&names), Some(Some(1)));
    assert_eq!(Sel::Name("Dup".to_string()).find(&names), Some(Some(2)));
    assert_eq!(Sel::Name("nope".to_string()).find(&names), Some(None));
    let twice = [(Some("A"), None), (None, Some("A"))];
    assert_eq!(Sel::Name("A".to_string()).find(&twice), None);
}

#[test]
fn agreement_prefers_an_absolute_slot_and_falls_back_to_a_delta() {
    let site = |owner| Site {
        table: Table::Doc,
        owner,
        scope: 0,
        surface: Surface::Stub,
    };
    let rec = |o: u32| (site(o), Target::Rec(8));
    let lights: Vec<_> = [0, 4, 5, 6, 7].iter().map(|o| rec(*o)).collect();
    assert_eq!(agree(&lights), Some(Handle::At(8)));
    let ripple: Vec<_> = [2u32, 7, 12]
        .iter()
        .map(|o| (site(*o), Target::Rec(o + 3)))
        .collect();
    assert_eq!(agree(&ripple), Some(Handle::Rel(3)));
    assert_eq!(
        agree(&[(site(0), Target::Rec(8)), (site(1), Target::Rec(20))]),
        None
    );
    assert_eq!(
        agree(&[(site(0), Target::Rec(8)), (site(4), Target::NoLayer)]),
        None
    );
    assert_eq!(
        agree(&[(site(0), Target::NoLayer), (site(4), Target::NoLayer)]),
        None
    );
    assert_eq!(
        agree(&[(site(0), Target::NoEffect), (site(4), Target::NoLayer)]),
        None
    );
    assert_eq!(
        agree(&[(site(0), Target::NoEffect), (site(4), Target::NoEffect)]),
        None
    );
}
