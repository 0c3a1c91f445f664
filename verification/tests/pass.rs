use ulottie_compiler::expr::pass::{fold_branches, resolve_refs, sweep, Consensus, Uses};
use ulottie_compiler::expr::resolve::{Branch, Ref, Span};
use ulottie_compiler::ir::{Effect, EffectParam};

fn effect(name: &str, params: &[&str]) -> Effect {
    Effect {
        name: Some(name.to_string()),
        match_name: None,
        parameters: params
            .iter()
            .map(|p| EffectParam { name: Some(p.to_string()), match_name: None })
            .collect(),
    }
}

fn direct(body: &str, name: &str, param: &str) -> Ref {
    let n = body.find(&format!("'{name}'")).unwrap();
    let p = body.find(&format!("'{param}'")).unwrap();
    Ref::Direct {
        name: Span::new(n, n + name.len() + 2),
        param: Span::new(p, p + param.len() + 2),
        name_str: name.to_string(),
        param_str: param.to_string(),
    }
}

const BODY: &str = "$bm_rt = effect('Amp')('Slider');";

#[test]
fn a_body_every_layer_agrees_on_is_rewritten() {
    let mut bodies = vec![BODY.to_string()];
    let refs = vec![vec![direct(BODY, "Amp", "Slider")]];
    let per_layer = vec![
        (vec![0], vec![effect("Other", &[]), effect("Amp", &["Slider"])]),
        (vec![0, 0], vec![effect("X", &[]), effect("Amp", &["Slider"])]),
    ];
    resolve_refs(&mut bodies, refs, &per_layer);
    assert_eq!(bodies[0], "$bm_rt = effect(1)(0);");
}

#[test]
fn a_body_its_layers_disagree_on_is_left_alone() {
    let mut bodies = vec![BODY.to_string()];
    let refs = vec![vec![direct(BODY, "Amp", "Slider")]];
    let per_layer = vec![
        (vec![0], vec![effect("Amp", &["Slider"])]),
        (vec![0], vec![effect("X", &[]), effect("Amp", &["Slider"])]),
    ];
    resolve_refs(&mut bodies, refs, &per_layer);
    assert_eq!(bodies[0], BODY);
}

#[test]
fn a_layer_that_does_not_answer_to_the_name_blocks_the_rewrite() {
    let mut bodies = vec![BODY.to_string()];
    let refs = vec![vec![direct(BODY, "Amp", "Slider")]];
    let per_layer = vec![
        (vec![0], vec![effect("Amp", &["Slider"])]),
        (vec![0], vec![effect("Amp", &["Other"])]),
    ];
    resolve_refs(&mut bodies, refs, &per_layer);
    assert_eq!(bodies[0], BODY);
}

#[test]
fn an_unused_body_and_a_body_without_references_are_kept() {
    let plain = "$bm_rt = time;";
    let mut bodies = vec![BODY.to_string(), plain.to_string()];
    let refs = vec![vec![direct(BODY, "Amp", "Slider")], vec![]];
    let per_layer = vec![(vec![1], vec![effect("Amp", &["Slider"])])];
    resolve_refs(&mut bodies, refs, &per_layer);
    assert_eq!(bodies, [BODY, plain]);
}

#[test]
fn recording_uses_tracks_agreement() {
    let refs = vec![vec![direct(BODY, "Amp", "Slider")], vec![]];
    let mut uses = Uses::new(refs);
    assert!(matches!(uses.agreed[0], Consensus::Unseen));
    uses.record(0, &[effect("Amp", &["Slider"])]);
    assert!(matches!(&uses.agreed[0], Consensus::Agreed(v) if *v == vec![vec![0, 0]]));
    uses.record(0, &[effect("Amp", &["Slider"])]);
    assert!(matches!(&uses.agreed[0], Consensus::Agreed(v) if *v == vec![vec![0, 0]]));
    uses.record(1, &[effect("Amp", &["Slider"])]);
    uses.record(7, &[effect("Amp", &["Slider"])]);
    assert!(matches!(uses.agreed[1], Consensus::Unseen));
    uses.record(0, &[effect("B", &[]), effect("Amp", &["Slider"])]);
    assert!(matches!(uses.agreed[0], Consensus::Split));
    uses.record(0, &[effect("Amp", &["Slider"])]);
    assert!(matches!(uses.agreed[0], Consensus::Split));
}

const GUARD: &str = "if (c) {\n    a();\n} else {\n    d();\n}\nz();";

fn guard() -> Branch {
    let stmt = Span::new(0, GUARD.find("\nz();").unwrap());
    let a = GUARD.find("a();").unwrap();
    let d = GUARD.find("d();").unwrap();
    Branch { stmt, test: "c".to_string(), taken: Span::new(a, a + 4), other: Some(Span::new(d, d + 4)) }
}

#[test]
fn a_guard_every_property_decides_alike_is_folded() {
    let mut bodies = vec![GUARD.to_string()];
    let found = vec![vec![guard()]];
    fold_branches(&mut bodies, &found, &vec![(0, vec![Some(false)]), (0, vec![Some(false)])]);
    assert_eq!(bodies[0], "d();\nz();");
}

#[test]
fn a_guard_properties_disagree_about_is_kept() {
    let mut bodies = vec![GUARD.to_string()];
    let found = vec![vec![guard()]];
    fold_branches(&mut bodies, &found, &vec![(0, vec![Some(true)]), (0, vec![Some(false)])]);
    assert_eq!(bodies[0], GUARD);
}

#[test]
fn an_undecided_guard_is_kept() {
    let mut bodies = vec![GUARD.to_string()];
    let found = vec![vec![guard()]];
    fold_branches(&mut bodies, &found, &vec![(0, vec![None]), (0, vec![None])]);
    assert_eq!(bodies[0], GUARD);
    fold_branches(&mut bodies, &found, &vec![]);
    assert_eq!(bodies[0], GUARD);
}

const BARE: &str = "if (c) {\n    a();\n}\nz();";

fn bare_guard() -> Branch {
    let a = BARE.find("a();").unwrap();
    Branch {
        stmt: Span::new(0, BARE.find("\nz();").unwrap()),
        test: "c".to_string(),
        taken: Span::new(a, a + 4),
        other: None,
    }
}

#[test]
fn a_false_guard_without_else_is_kept() {
    let mut bodies = vec![BARE.to_string()];
    fold_branches(&mut bodies, &vec![vec![bare_guard()]], &vec![(0, vec![Some(false)])]);
    assert_eq!(bodies[0], BARE);
    fold_branches(&mut bodies, &vec![vec![bare_guard()]], &vec![(0, vec![Some(true)])]);
    assert_eq!(bodies[0], "a();\nz();");
}

#[test]
fn the_sweep_keeps_live_and_unvisited_bodies_and_renumbers_them() {
    let bodies: Vec<String> = ["a", "b", "c", "d"].iter().map(|s| s.to_string()).collect();
    let (kept, map) = sweep(&bodies, &[1, 2, 3], &[2]);
    assert_eq!(kept, vec!["a".to_string(), "c".to_string()]);
    assert_eq!(map, vec![Some(0), None, Some(1), None]);
}

#[test]
fn a_sweep_with_nothing_folded_keeps_every_body_in_place() {
    let bodies: Vec<String> = ["x", "y"].iter().map(|s| s.to_string()).collect();
    let (kept, map) = sweep(&bodies, &[0, 1], &[0, 1]);
    assert_eq!(kept, bodies);
    assert_eq!(map, vec![Some(0), Some(1)]);
    let (kept, map) = sweep(&bodies, &[], &[]);
    assert_eq!(kept, bodies);
    assert_eq!(map, vec![Some(0), Some(1)]);
}
