use ulottie_compiler::expr::resolve::{
    branches, branches_fit, literals, mentions_word, refs, rewrite, tables, take_branches, Branch, Out, Ref, Span,
};
use ulottie_compiler::ir::{Effect, EffectParam};

#[test]
fn a_name_is_kept_only_when_a_whole_literal_matches_it() {
    let lits = literals("effect(names[i])('ADBE Layer Control-0001')");
    assert!(lits.iter().any(|l| l == "ADBE Layer Control-0001"));
    assert!(!lits.iter().any(|l| l == "ADBE Layer Control"));
}

#[test]
fn literals_are_found_whatever_quotes_them() {
    let lits = literals("var a = 'x', b = \"y\", c = `z`;");
    assert_eq!(lits.iter().map(String::as_str).collect::<Vec<_>>(), ["x", "y", "z"]);
}

#[test]
fn an_escaped_quote_does_not_end_a_literal() {
    let lits = literals(r#"var a = 'it\'s', b = 'after';"#);
    assert!(lits.iter().any(|l| l == "it's"), "got {lits:?}");
    assert!(lits.iter().any(|l| l == "after"), "got {lits:?}");
}

#[test]
fn literals_are_sorted_and_unique_and_an_open_one_runs_to_the_end() {
    let lits = literals("f('b', 'a', 'b', 'c");
    assert_eq!(lits, ["a", "b", "c"]);
}

fn effect(name: &str, params: &[&str]) -> Effect {
    Effect {
        name: Some(name.to_string()),
        match_name: None,
        parameters: params
            .iter()
            .map(|p| EffectParam { name: Some(p.to_string()), match_name: None })
            .collect(),
    }
}

fn direct(body: &str, name: &str, param: &str) -> Ref {
    let n = body.find(&format!("'{name}'")).unwrap();
    let p = body.find(&format!("'{param}'")).unwrap();
    Ref::Direct {
        name: Span::new(n, n + name.len() + 2),
        param: Span::new(p, p + param.len() + 2),
        name_str: name.to_string(),
        param_str: param.to_string(),
    }
}

#[test]
fn rewriting_replaces_both_literals() {
    let body = "var $bm_rt;\n$bm_rt = effect('Position - Overshoot')('ADBE Slider Control-0001');";
    let r = direct(body, "Position - Overshoot", "ADBE Slider Control-0001");
    let out = rewrite(body, &[(&r, vec![2, 0])]);
    assert_eq!(out, "var $bm_rt;\n$bm_rt = effect(2)(0);");
}

#[test]
fn rewriting_several_keeps_every_span_aligned() {
    let body = "var $bm_rt;\n$bm_rt = sum(effect('A')('x'), effect('B')('y'));";
    let a = direct(body, "A", "x");
    let b = direct(body, "B", "y");
    let out = rewrite(body, &[(&a, vec![0, 1]), (&b, vec![2, 3])]);
    assert_eq!(out, "var $bm_rt;\n$bm_rt = sum(effect(0)(1), effect(2)(3));");
}

const TABLE: &str = "
var $bm_rt;
var nullLayerNames = ['Shape Layer 1: Path 1 [1.0]', 'Shape Layer 1: Path 1 [1.1]'];
var out = [];
for (var i = 0; i < nullLayerNames.length; i++) {
    out.push(effect(nullLayerNames[i])('ADBE Layer Control-0001'));
}
$bm_rt = out;
";

fn table_ref() -> Ref {
    let mut found = refs(TABLE);
    assert_eq!(found.len(), 1);
    found.remove(0)
}

#[test]
fn a_table_reference_carries_the_character_spans_of_its_literals() {
    let a = TABLE.find("'Shape Layer 1: Path 1 [1.0]'").unwrap();
    let b = TABLE.find("'Shape Layer 1: Path 1 [1.1]'").unwrap();
    let p = TABLE.find("'ADBE Layer Control-0001'").unwrap();
    match table_ref() {
        Ref::Table { elems, param, param_str } => {
            assert_eq!(
                elems,
                vec![
                    (Span::new(a, a + 29), "Shape Layer 1: Path 1 [1.0]".to_string()),
                    (Span::new(b, b + 29), "Shape Layer 1: Path 1 [1.1]".to_string()),
                ]
            );
            assert_eq!(param, Span::new(p, p + 25));
            assert_eq!(param_str, "ADBE Layer Control-0001");
        }
        other => panic!("expected a table, got {other:?}"),
    }
}

#[test]
fn a_table_resolves_every_element_and_the_shared_parameter() {
    let fx = [
        effect("Shape Layer 1: Path 1 [1.0]", &["ADBE Layer Control-0001"]),
        effect("other", &["x"]),
        effect("Shape Layer 1: Path 1 [1.1]", &["ADBE Layer Control-0001"]),
    ];
    assert_eq!(table_ref().resolve(&fx), Some(vec![0, 2, 0]));
}

#[test]
fn a_table_whose_effects_disagree_about_the_parameter_slot_is_refused() {
    let fx = [
        effect("Shape Layer 1: Path 1 [1.0]", &["ADBE Layer Control-0001"]),
        effect("Shape Layer 1: Path 1 [1.1]", &["x", "ADBE Layer Control-0001"]),
    ];
    assert_eq!(table_ref().resolve(&fx), None);
}

#[test]
fn a_table_rewrites_to_indices() {
    let fx = [
        effect("Shape Layer 1: Path 1 [1.0]", &["ADBE Layer Control-0001"]),
        effect("Shape Layer 1: Path 1 [1.1]", &["ADBE Layer Control-0001"]),
    ];
    let found = refs(TABLE);
    let out = rewrite(TABLE, &[(&found[0], found[0].resolve(&fx).unwrap())]);
    assert!(out.contains("var nullLayerNames = [0, 1];"), "got {out}");
    assert!(out.contains("effect(nullLayerNames[i])(0)"), "got {out}");
}

#[test]
fn an_ambiguous_or_missing_name_does_not_resolve() {
    let body = "effect('A')('x')";
    let r = direct(body, "A", "x");
    assert_eq!(r.resolve(&[effect("A", &["x"])]), Some(vec![0, 0]));
    assert_eq!(r.resolve(&[effect("A", &["x"]), effect("A", &["x"])]), None);
    assert_eq!(r.resolve(&[effect("B", &["x"])]), None);
    assert_eq!(r.resolve(&[effect("A", &["y"])]), None);
    assert_eq!(r.resolve(&[effect("A", &["y", "x"])]), Some(vec![0, 1]));
    let by_match = Effect { name: None, match_name: Some("A".to_string()), parameters: vec![] };
    assert_eq!(r.resolve(&[effect("B", &[]), by_match]), None);
}

#[test]
fn a_decided_branch_is_replaced_by_its_arm() {
    let body = "if (c) {\n    a();\n    b();\n} else {\n    d();\n}\nz();";
    let stmt = Span::new(0, body.find("\nz();").unwrap());
    let a = body.find("a();").unwrap();
    let b_end = body.find("b();").unwrap() + 4;
    let d = body.find("d();").unwrap();
    let br = Branch { stmt, test: "c".to_string(), taken: Span::new(a, b_end), other: Some(Span::new(d, d + 4)) };
    let (s, text) = br.arm(body, true).unwrap();
    assert_eq!(s, stmt);
    assert_eq!(text, "a();\nb();");
    let out = take_branches(body, &[(s, text)]);
    assert_eq!(out, "a();\nb();\nz();");
    let (_, other) = br.arm(body, false).unwrap();
    assert_eq!(take_branches(body, &[(stmt, other)]), "d();\nz();");
}

#[test]
fn a_false_test_without_else_and_an_empty_arm() {
    let br = Branch { stmt: Span::new(0, 5), test: "c".to_string(), taken: Span::new(0, 0), other: None };
    assert!(br.arm("if(c){}", false).is_none());
    assert_eq!(br.arm("if(c){}", true), Some((Span::new(0, 5), String::new())));
}

#[test]
fn a_word_counts_only_as_a_whole_identifier() {
    assert!(mentions_word("x + 1", "x"));
    assert!(!mentions_word("xs + 1", "x"));
    assert!(!mentions_word("$x", "x"));
    assert!(!mentions_word("a_x", "x"));
    assert!(mentions_word("f(x)", "x"));
    assert!(mentions_word("éx x", "x"));
    assert!(!mentions_word("éx", "x"));
    // Occurrences are found left to right without overlap, as `match_indices` does.
    assert!(!mentions_word("aaa", "aa"));
    assert!(mentions_word("aa aa", "aa"));
    assert!(mentions_word("", ""));
    assert!(!mentions_word("ab", ""));
}

#[test]
fn an_indexed_array_becomes_one_table_unless_its_name_escapes() {
    let elems = vec![(Span::new(10, 13), "A".to_string()), (Span::new(15, 18), "B".to_string())];
    let mut out = Out::new();
    out.insert_array("names".to_string(), vec![]);
    out.insert_array("names".to_string(), elems.clone());
    out.insert_array("other".to_string(), vec![(Span::new(1, 2), "C".to_string())]);
    assert_eq!(out.arrays.len(), 2);
    out.indexed.push(("names".to_string(), Span::new(30, 33), "P".to_string()));
    out.indexed.push(("names".to_string(), Span::new(40, 43), "Q".to_string()));
    out.indexed.push(("other".to_string(), Span::new(50, 53), "R".to_string()));
    out.indexed.push(("missing".to_string(), Span::new(60, 63), "S".to_string()));
    out.idents.push(("names".to_string(), Span::new(20, 25)));
    out.accounted.push(Span::new(20, 25));
    out.idents.push(("other".to_string(), Span::new(70, 75)));
    tables(&mut out);
    assert_eq!(out.refs.len(), 1);
    match &out.refs[0] {
        Ref::Table { elems: e, param, param_str } => {
            assert_eq!(e, &elems);
            assert_eq!(*param, Span::new(30, 33));
            assert_eq!(param_str, "P");
        },
        _ => panic!("expected a table"),
    }
    assert!(out.indexed.is_empty());
    assert!(out.arrays.is_empty());
}

#[test]
fn it_finds_a_reference_to_the_owning_layer() {
    let body = "var $bm_rt;\n$bm_rt = effect('Position - Overshoot')('ADBE Slider Control-0001');";
    let r = refs(body);
    assert_eq!(r.len(), 1);
    assert!(matches!(&r[0], Ref::Direct { name_str, param_str, .. }
        if name_str == "Position - Overshoot" && param_str == "ADBE Slider Control-0001"));
}

#[test]
fn it_finds_one_through_this_layer() {
    let body = "var $bm_rt;\n$bm_rt = thisLayer.effect('Trace')('Progress');";
    assert_eq!(refs(body).len(), 1);
}

#[test]
fn it_leaves_another_layers_effects_alone() {
    let body = "var $bm_rt;\n$bm_rt = thisComp.layer('traceNull').effect('Trace Path')('Progress');";
    assert!(refs(body).is_empty());
}

#[test]
fn it_finds_references_nested_in_statements() {
    let body = r#"
var $bm_rt;
try {
    var a = div(effect('Position - Bounce')('ADBE Slider Control-0001'), 20);
    if (a > 0) { $bm_rt = effect('Position - Friction')('ADBE Slider Control-0001'); }
} catch (e) { $bm_rt = value; }
"#;
    let found = refs(body);
    let names: Vec<&str> = found
        .iter()
        .filter_map(|r| match r {
            Ref::Direct { name_str, .. } => Some(name_str.as_str()),
            _ => None,
        })
        .collect();
    assert_eq!(names, ["Position - Bounce", "Position - Friction"]);
}

#[test]
fn a_table_of_names_indexed_into_effect_is_one_reference() {
    let found = refs(TABLE);
    assert_eq!(found.len(), 1);
    assert!(matches!(&found[0], Ref::Table { elems, param_str, .. }
        if elems.len() == 2 && param_str == "ADBE Layer Control-0001"));
}

#[test]
fn a_table_whose_names_escape_is_left_alone() {
    let body = r#"
var $bm_rt;
var names = ['a', 'b'];
var label = names[0] + '!';
for (var i = 0; i < names.length; i++) { effect(names[i])('p'); }
$bm_rt = label;
"#;
    assert!(refs(body).is_empty());
}

#[test]
fn an_array_nothing_indexes_into_effect_is_not_a_reference() {
    let body = "var $bm_rt;\nvar names = ['a', 'b'];\n$bm_rt = names.length;";
    assert!(refs(body).is_empty());
}

#[test]
fn a_body_that_does_not_parse_has_no_references_or_branches() {
    let body = "$bm_rt = effect('A')('x'); if (";
    assert!(refs(body).is_empty());
    assert!(branches(body).is_empty());
}

#[test]
fn spans_count_characters_after_wider_ones() {
    let body = "var s = '\u{e9}\u{1F600}';\n$bm_rt = effect('A')('x');";
    let r = refs(body);
    assert_eq!(r.len(), 1);
    let n = body.chars().position(|c| c == 'A').unwrap() - 1;
    match &r[0] {
        Ref::Direct { name, param, .. } => {
            assert_eq!(*name, Span::new(n, n + 3));
            assert_eq!(*param, Span::new(n + 5, n + 8));
        }
        other => panic!("expected a direct reference, got {other:?}"),
    }
    let out = rewrite(body, &[(&r[0], vec![4, 2])]);
    assert_eq!(out, "var s = '\u{e9}\u{1F600}';\n$bm_rt = effect(4)(2);");
}

#[test]
fn a_call_with_a_spread_or_a_parenthesised_callee_is_no_reference() {
    assert!(refs("effect(...a)('x');").is_empty());
    assert!(refs("(effect('A'))('x');").is_empty());
    assert_eq!(refs("f((effect('A')('x')));").len(), 1);
}

#[test]
fn a_table_reached_through_a_second_array_of_the_same_name_uses_the_last() {
    let body = "var n = ['a'];\nvar n = ['b', 'c'];\neffect(n[i])('p');";
    let found = refs(body);
    assert_eq!(found.len(), 1);
    assert!(matches!(&found[0], Ref::Table { elems, .. } if elems.len() == 2 && elems[0].1 == "b"));
}

#[test]
fn top_level_ifs_over_no_local_become_branches() {
    let body = "var k = 1;\nif (effect('C')('x') == 1) {\n    a();\n    b();\n} else d();\nif (k) { e(); }\nif (z) {}";
    let bs = branches(body);
    assert_eq!(bs.len(), 2);
    let a = body.find("a();").unwrap();
    let b = body.find("b();").unwrap() + 4;
    let d = body.find("d();").unwrap();
    let first = body.find("if (effect").unwrap();
    assert_eq!(bs[0].stmt, Span::new(first, d + 4));
    assert_eq!(bs[0].test, "effect('C')('x') == 1");
    assert_eq!(bs[0].taken, Span::new(a, b));
    assert_eq!(bs[0].other, Some(Span::new(d, d + 4)));
    let last = body.find("if (z)").unwrap();
    assert_eq!(bs[1].stmt, Span::new(last, body.len()));
    assert_eq!(bs[1].test, "z");
    assert_eq!(bs[1].taken, Span::new(0, 0));
    assert_eq!(bs[1].other, None);
}

#[test]
fn a_test_naming_a_local_only_inside_a_longer_word_still_folds() {
    let body = "var k = 1;\nif (kk) { a(); }";
    assert_eq!(branches(body).len(), 1);
}

#[test]
fn taking_no_branches_leaves_the_body() {
    let body = "if (c) { a(); }\nz();";
    assert_eq!(take_branches(body, &[]), body);
}

#[test]
fn an_empty_span_inserts_its_text() {
    let body = "ab";
    assert_eq!(take_branches(body, &[(Span::new(1, 1), "X".to_string())]), "aXb");
    assert_eq!(take_branches(body, &[(Span::new(2, 2), "!".to_string())]), "ab!");
    assert_eq!(
        take_branches(body, &[(Span::new(0, 1), "A".to_string()), (Span::new(1, 1), "-".to_string())]),
        "A-b"
    );
}

#[test]
fn branches_splice_alike_in_any_order() {
    let body = "if (p) { a(); }\nif (q) { b(); }\nz();";
    let first = (Span::new(0, 15), "a();".to_string());
    let second = (Span::new(16, 31), "".to_string());
    let one = take_branches(body, &[first.clone(), second.clone()]);
    let two = take_branches(body, &[second, first]);
    assert_eq!(one, "a();\n\nz();");
    assert_eq!(one, two);
}

#[test]
fn two_splices_may_not_start_at_one_place() {
    let body = "abc";
    assert!(branches_fit(body, &[(Span::new(1, 1), "x".to_string()), (Span::new(2, 2), "y".to_string())]));
    assert!(!branches_fit(body, &[(Span::new(1, 1), "x".to_string()), (Span::new(1, 2), "y".to_string())]));
    assert!(!branches_fit(body, &[(Span::new(0, 2), "x".to_string()), (Span::new(1, 1), "y".to_string())]));
    assert!(!branches_fit(body, &[(Span::new(2, 1), "x".to_string())]));
    assert!(branches_fit(body, &[(Span::new(0, 1), "x".to_string()), (Span::new(1, 1), "y".to_string())]));
}
