use ulottie_compiler::backend::layers::index::{Index, RecordKeys, Records};
use ulottie_compiler::backend::layers::rewrite::{plan_body, LayerEffect, LayerFx, LayerParam, SceneLayers};
use ulottie_compiler::backend::layers::{plan_bodies, table, Plan, Site, Surface, Table};

fn param(name: &str, ty: u32, value: Option<u32>) -> LayerParam {
    LayerParam { name: Some(name.to_string()), match_name: None, ty, value }
}

fn effect(name: &str, params: Vec<LayerParam>) -> LayerEffect {
    LayerEffect { name: Some(name.to_string()), match_name: None, params }
}

/// Ten records in one composition, record `i` with composition index
/// `i + 1`. Record 8 is `wire`, record 6 `orange`, record 2 `traceNull`.
/// Every record carries a slider, and two layer controls naming composition
/// indices 4 and 3 (records 3 and 2).
fn lights() -> (Index, SceneLayers) {
    let names = vec!["wire".to_string(), "orange".to_string(), "traceNull".to_string()];
    let name_of = |i: u32| match i {
        8 => Some(0),
        6 => Some(1),
        2 => Some(2),
        _ => None,
    };
    let keys: Vec<RecordKeys> = (0..10u32).map(|i| RecordKeys { ind: i + 1, name: name_of(i) }).collect();
    let doc = Records { keys, scopes: vec![0; 10] };
    let index = Index::build(&doc, &Vec::new(), &names);
    let fx = |i: u32| LayerFx {
        parent: if i > 0 { Some(i - 1) } else { None },
        effects: vec![
            effect("Slider", vec![param("Slider", 0, None)]),
            effect("Ctrl A", vec![param("Layer", 10, Some(4))]),
            effect("Ctrl B", vec![param("Layer", 10, Some(3))]),
            effect("Trace Path", vec![param("Progress", 0, None)]),
        ],
    };
    let layers = SceneLayers { doc: (0..10u32).map(fx).collect(), assets: Vec::new() };
    (index, layers)
}

fn site(owner: u32, scope: u32) -> Site {
    Site { table: Table::Doc, owner, scope, surface: Surface::Keyed }
}

fn plan(body: &str) -> Option<Plan> {
    let (index, layers) = lights();
    plan_body(body, &[site(0, 0), site(4, 0)], &index, &layers)
}

fn flat(p: &Plan) -> String {
    p.body.split_whitespace().collect::<Vec<_>>().join(" ")
}

#[test]
fn a_name_lookup_and_a_drill_chain_collapse_to_one_slot() {
    let p = plan(
        "var $bm_rt;\nvar pathLayer = thisComp.layer('wire');\nvar progress = div(effect(0)(0), 100);\n\
         var pathToTrace = pathLayer.content('Path 1');\n\
         $bm_rt = pathLayer.toComp(pathToTrace.pointOnPath(progress));",
    )
    .unwrap();
    assert_eq!(
        flat(&p),
        "var $bm_rt; var pathLayer = lyAt(thisLayer, 8); var progress = div(lyEffect(thisLayer, 0, 0, frame), 100); \
         var pathToTrace = pathLayer; \
         $bm_rt = toComp(pathLayer, pointOnPath(lyPath(pathToTrace, frame), progress), frame);"
    );
    assert_eq!(p.helpers, ["lyAt", "lyEffect", "lyPath", "pointOnPath", "toComp"]);
    assert!(!p.frame_duration);
    assert_eq!(p.surface, Some(Surface::Keyed));
}

#[test]
fn a_geometry_read_off_a_layer_is_its_path_not_the_layer() {
    let p = plan("$bm_rt = thisComp.layer('wire').content('Path 1').path;").unwrap();
    assert_eq!(p.body, "$bm_rt = lyPath(lyAt(thisLayer, 8), frame);");
}

#[test]
fn an_inlined_precomp_resolves_by_offset() {
    // Two copies of one precomp: each has its own `bar`, three records past
    // the owner, so only the offset is shared.
    let names = vec!["bar".to_string()];
    let keys: Vec<RecordKeys> =
        (0..12u32).map(|i| RecordKeys { ind: 1, name: if i == 5 || i == 10 { Some(0) } else { None } }).collect();
    let scopes: Vec<u32> = (0..12u32).map(|i| if i < 7 { 2 } else { 3 }).collect();
    let index = Index::build(&Records { keys, scopes }, &Vec::new(), &names);
    let layers = SceneLayers { doc: Vec::new(), assets: Vec::new() };
    let uses = [site(2, 2), site(7, 3)];
    let p = plan_body("var $bm_rt;\n$bm_rt = thisComp.layer('bar').position;", &uses, &index, &layers).unwrap();
    assert_eq!(flat(&p), "var $bm_rt; $bm_rt = lyPos(lyRel(thisLayer, 3), frame);");
    assert_eq!(p.helpers, ["lyPos", "lyRel"]);
    // One use alone: the absolute slot is valid.
    let p = plan_body("$bm_rt = thisComp.layer('bar').position;", &uses[..1], &index, &layers).unwrap();
    assert_eq!(p.body, "$bm_rt = lyPos(lyAt(thisLayer, 5), frame);");
}

#[test]
fn a_layer_control_table_becomes_a_literal_list_of_slots() {
    let p = plan(
        "var nullLayerNames = [1, 2];\nvar getNullLayers = [];\n\
         for (var i = 0; i < nullLayerNames.length; i++) {\n    getNullLayers.push(effect(nullLayerNames[i])(0));\n}\n\
         $bm_rt = lyAnchorOf(getNullLayers[0]);",
    )
    .unwrap();
    let body = flat(&p);
    assert!(body.contains("var nullLayerNames = [lyAt(thisLayer, 3), lyAt(thisLayer, 2)];"), "{body}");
    assert!(body.contains("getNullLayers.push(nullLayerNames[i]);"), "{body}");
    assert_eq!(p.helpers, ["lyAt"]);
}

#[test]
fn the_property_surface_is_not_mistaken_for_a_layer() {
    let p = plan(
        "var origPath = thisProperty;\nvar origPoints = origPath.points();\nvar l = thisComp.layer('wire');\n\
         $bm_rt = [l.points(), origPath.isClosed(), nearestKey(time).index, l.index];",
    )
    .unwrap();
    let body = flat(&p);
    assert!(body.contains("var origPoints = origPath.points();"), "{body}");
    assert!(body.contains("origPath.isClosed()"), "{body}");
    assert!(body.contains("nearestKey(time).index"), "{body}");
    assert!(body.contains("lyPoints(l, frame)"), "{body}");
    assert!(body.contains("l.i]"), "{body}");
}

#[test]
fn a_bare_free_call_is_spelled_out_rather_than_shimmed() {
    let p = plan("$bm_rt = fromCompToSurface(thisComp.layer('wire').toComp([0, 0]));").unwrap();
    assert_eq!(
        p.body,
        "$bm_rt = fromCompToSurface(toComp(lyAt(thisLayer, 8), [0, 0], frame), thisLayer, frame);"
    );
}

#[test]
fn thiscomp_frame_duration_becomes_a_preamble_binding() {
    let p = plan("$bm_rt = div(thisComp.frameDuration, 10);").unwrap();
    assert!(p.frame_duration);
    assert!(!p.body.contains("thisComp"));
    assert_eq!(p.body, "$bm_rt = div(frameDuration, 10);");
}

#[test]
fn an_effect_read_on_another_layer_resolves_to_slots() {
    let p = plan("var $bm_rt;\n$bm_rt = thisComp.layer('traceNull').effect('Trace Path')('Progress');").unwrap();
    assert_eq!(flat(&p), "var $bm_rt; $bm_rt = lyEffect(lyAt(thisLayer, 2), 3, 0, frame);");
}

#[test]
fn a_body_that_reaches_no_layer_is_left_exactly_as_it_was() {
    let body = "var $bm_rt;\n$bm_rt = loopOut('cycle');";
    let p = plan(body).unwrap();
    assert_eq!(p.body, body);
    assert!(p.helpers.is_empty());
}

#[test]
fn a_parent_and_an_unknown_member() {
    let p = plan("$bm_rt = thisLayer.parentLayer.opacity;").unwrap();
    assert_eq!(p.body, "$bm_rt = lyOpacity(lyParent(thisLayer), frame);");
    assert!(plan("$bm_rt = thisComp.layer('wire').getLocalTransform;").is_none());
}

#[test]
fn a_layer_the_walk_cannot_type_is_refused() {
    let p = plan("var l = c ? thisComp.layer('wire') : thisComp.layer('orange');\n$bm_rt = l.position;");
    assert!(p.is_none());
}

#[test]
fn a_layer_control_read_outside_the_table_form_is_refused() {
    assert!(plan("$bm_rt = thisComp.layer('wire').effect(1)(0).index;").is_none());
    assert!(plan("$bm_rt = effect(0)(0);").is_some());
}

#[test]
fn an_effect_selector_that_is_not_a_literal_is_refused() {
    assert!(plan("var k = 0;\n$bm_rt = effect(k)(0);").is_none());
}

#[test]
fn a_body_the_walk_leaves_a_bare_effect_in_is_refused() {
    assert!(plan("$bm_rt = effect('x')(0, 1);").is_none());
}

#[test]
fn a_name_two_uses_disagree_on_or_a_missing_layer_is_refused() {
    assert!(plan("$bm_rt = thisComp.layer('nobody').position;").is_none());
    assert!(plan("$bm_rt = thisComp.layer('wire'").is_none());
}

#[test]
fn every_body_is_planned_or_the_first_refusal_is_reported() {
    let (index, layers) = lights();
    let bodies = vec!["$bm_rt = thisComp.layer('wire').position;".to_string(), "  $bm_rt = x.position;\n".to_string()];
    let uses = vec![vec![Some(site(0, 0))], vec![Some(site(0, 0))]];
    let err = plan_bodies(&bodies, &uses, &index, &layers).err().unwrap();
    assert_eq!(
        err,
        "expression E[1] reaches a layer in a way the compiler cannot resolve. Set ULOTTIE_WHY=1 for the reason.\n\
         $bm_rt = x.position;"
    );
    let orphan = vec![vec![Some(site(0, 0))], vec![None]];
    let bodies = vec!["$bm_rt = 1;".to_string(), "$bm_rt = 2;".to_string()];
    assert!(plan_bodies(&bodies, &orphan, &index, &layers).err().unwrap().starts_with("expression E[1]"));
    let e = table(&bodies, &uses, &index, &layers).unwrap();
    assert!(e.src.starts_with("const E = [\n"));
    assert!(e.src.ends_with("];\n"));
    assert_eq!(e.bodies, bodies);
}
