use ulottie_compiler::backend::emit::imported_modules;
use ulottie_compiler::backend::{
    aot_report, compressed_len, describe, prefer_instanced, AssetFacts, InstanceUse, SceneFacts,
};
use ulottie_compiler::caps::{EXPRESSIONS, FILL, GRADIENT, TRANSFORM};

#[test]
fn repetition_compresses_far_below_its_raw_length() {
    let src = "const a = 1;\n".repeat(400);
    assert!(compressed_len(&src) < src.len() / 10);
}

#[test]
fn an_empty_source_costs_only_the_gzip_frame() {
    assert_eq!(compressed_len(""), 20);
}

#[test]
fn the_instanced_build_wins_only_when_smaller_compressed_and_off_instance_clocks() {
    let inlined = (0..300).map(|i| format!("let v{i} = {};\n", i * 7919 % 1000)).collect::<String>();
    let instanced = "const t = 1;\n".repeat(300);
    assert!(instanced.len() > inlined.len() / 2);
    assert!(prefer_instanced(&inlined, &instanced, false));
    assert!(!prefer_instanced(&inlined, &instanced, true));
    assert!(!prefer_instanced(&instanced, &inlined, false));
    assert!(!prefer_instanced(&inlined, &inlined, false));
}

fn scene(caps: u64, is_static: bool) -> SceneFacts {
    SceneFacts {
        caps,
        is_static,
        markup: "<svg><g></g><path/><g><rect/></g></svg>".to_string(),
        templates: 0,
        bindings: 4,
        layers: 3,
        uses: vec![],
        assets: vec![],
        generated: false,
    }
}

#[test]
fn the_report_counts_elements_by_their_opening_brackets() {
    let r = describe(&scene(TRANSFORM | FILL, true), &[], "x".to_string(), false, &[]);
    assert_eq!(r.elements, 5);
    assert_eq!(r.js, "x");
    assert_eq!(r.caps, vec!["FILL".to_string(), "TRANSFORM".to_string()]);
    assert!(r.modules.is_empty());
    assert_eq!(r.runtime_slice, 0);
    assert!(r.is_static);
    assert_eq!(r.bindings, 4);
    assert_eq!(r.records, 3);
    assert!(!r.templated);
    assert!(!r.instance_clocks);
}

#[test]
fn replays_and_asset_records_add_up_and_a_parented_use_runs_on_its_own_clock() {
    let mut s = scene(TRANSFORM, true);
    s.templates = 2;
    s.assets = vec![
        AssetFacts { bindings: 10, slots: vec![0, 0], records: 5 },
        AssetFacts { bindings: 7, slots: vec![0], records: 2 },
    ];
    s.uses = vec![
        InstanceUse { asset: 0, parent_slot: 0 },
        InstanceUse { asset: 0, parent_slot: 0 },
        InstanceUse { asset: 1, parent_slot: 0 },
    ];
    let r = describe(&s, &[], String::new(), true, &[]);
    assert_eq!(r.bindings, 4 + 10 + 10 + 7);
    assert_eq!(r.records, 3 + 5 + 2);
    assert!(r.templated);
    assert!(r.instanced);
    assert!(!r.instance_clocks);

    s.uses[2].parent_slot = 3;
    assert!(describe(&s, &[], String::new(), true, &[]).instance_clocks);
    s.uses[2].parent_slot = 0;
    s.assets[0].slots[1] = 2;
    assert!(describe(&s, &[], String::new(), true, &[]).instance_clocks);
}

#[test]
fn an_animated_scene_reports_its_modules_sorted() {
    let c = TRANSFORM | FILL | EXPRESSIONS;
    let r = describe(&scene(c, false), &[], String::new(), false, &[]);
    let mut expected = imported_modules(c);
    expected.sort_unstable();
    assert_eq!(r.modules, expected);
    assert!(r.modules.contains(&"expr.js".to_string()));
}

#[test]
fn an_ahead_of_time_target_refuses_what_it_cannot_drive() {
    let r = aot_report("reanimated-aot", TRANSFORM | FILL, TRANSFORM | GRADIENT, false, 2, String::new(), 3);
    assert_eq!(r.err().unwrap(), "the reanimated-aot target does not support: GRADIENT");
    let ok = aot_report("skia-aot", TRANSFORM | FILL | GRADIENT, FILL | TRANSFORM, false, 2, "js".to_string(), 3)
        .ok()
        .unwrap();
    assert_eq!(ok.caps, vec!["FILL".to_string(), "TRANSFORM".to_string()]);
    assert_eq!(ok.elements, 3);
    assert_eq!(ok.bindings, 2);
    assert_eq!(ok.records, 0);
    assert!(!ok.generated && !ok.instanced && ok.modules.is_empty());
}
