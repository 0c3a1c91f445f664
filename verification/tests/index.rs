use ulottie_compiler::backend::layers::index::{Index, RecordKeys, Records};
use ulottie_compiler::backend::layers::Table;

fn rec(ind: u32, name: Option<u32>) -> RecordKeys {
    RecordKeys { ind, name }
}

fn names(list: &[&str]) -> Vec<String> {
    list.iter().map(|s| s.to_string()).collect()
}

#[test]
fn a_name_and_an_index_reach_their_one_record() {
    let doc = Records {
        keys: vec![rec(1, Some(0)), rec(2, Some(1)), rec(3, None)],
        scopes: vec![0, 0, 0],
    };
    let ix = Index::build(&doc, &vec![], &names(&["wire", "dot"]));
    assert_eq!(ix.by_name(Table::Doc, 0, "wire"), Some(0));
    assert_eq!(ix.by_name(Table::Doc, 0, "dot"), Some(1));
    assert_eq!(ix.by_name(Table::Doc, 0, "ghost"), None);
    assert_eq!(ix.by_index(Table::Doc, 0, 3), Some(2));
    assert_eq!(ix.by_index(Table::Doc, 0, 4), None);
    // Another composition does not see them.
    assert_eq!(ix.by_name(Table::Doc, 1, "wire"), None);
    assert_eq!(ix.by_index(Table::Doc, 1, 1), None);
}

#[test]
fn a_name_two_records_share_resolves_to_neither() {
    // Records 1 and 4 both answer to "Ball" in the root composition.
    let doc = Records {
        keys: vec![rec(1, None), rec(2, Some(0)), rec(3, Some(1)), rec(2, None), rec(5, Some(0))],
        scopes: vec![0, 0, 0, 0, 0],
    };
    let ix = Index::build(&doc, &vec![], &names(&["Ball", "dot"]));
    assert_eq!(ix.by_name(Table::Doc, 0, "Ball"), None);
    assert_eq!(ix.by_name(Table::Doc, 0, "dot"), Some(2));
    assert_eq!(ix.by_index(Table::Doc, 0, 2), None);
    assert_eq!(ix.by_index(Table::Doc, 0, 5), Some(4));
}

#[test]
fn equal_names_in_two_slots_are_one_name() {
    let doc = Records { keys: vec![rec(1, Some(0)), rec(2, Some(1))], scopes: vec![0, 0] };
    let ix = Index::build(&doc, &vec![], &names(&["wire", "wire"]));
    assert_eq!(ix.by_name(Table::Doc, 0, "wire"), None);
}

#[test]
fn records_past_their_scopes_sit_in_the_root() {
    let doc = Records { keys: vec![rec(1, Some(0)), rec(2, Some(1))], scopes: vec![5] };
    let ix = Index::build(&doc, &vec![], &names(&["a", "b"]));
    assert_eq!(ix.by_name(Table::Doc, 5, "a"), Some(0));
    assert_eq!(ix.by_name(Table::Doc, 0, "b"), Some(1));
    assert_eq!(ix.by_index(Table::Doc, 0, 2), Some(1));
    assert_eq!(ix.by_index(Table::Doc, 0, 1), None);
}

#[test]
fn a_name_slot_outside_the_table_answers_to_nothing() {
    let doc = Records { keys: vec![rec(1, Some(7))], scopes: vec![0] };
    let ix = Index::build(&doc, &vec![], &names(&["a"]));
    assert_eq!(ix.by_name(Table::Doc, 0, "a"), None);
    assert_eq!(ix.by_index(Table::Doc, 0, 1), Some(0));
}

#[test]
fn each_precomp_answers_from_its_own_table() {
    let doc = Records { keys: vec![rec(1, Some(0))], scopes: vec![0] };
    let assets = vec![
        Records { keys: vec![rec(1, Some(1)), rec(2, Some(0))], scopes: vec![0, 0] },
        Records { keys: vec![rec(9, Some(0))], scopes: vec![3] },
    ];
    let ix = Index::build(&doc, &assets, &names(&["wire", "dot"]));
    assert_eq!(ix.by_name(Table::Doc, 0, "wire"), Some(0));
    assert_eq!(ix.by_name(Table::Asset(0), 0, "wire"), Some(1));
    assert_eq!(ix.by_name(Table::Asset(0), 0, "dot"), Some(0));
    assert_eq!(ix.by_index(Table::Asset(1), 3, 9), Some(0));
    assert_eq!(ix.by_index(Table::Asset(1), 0, 9), None);
    assert_eq!(ix.by_index(Table::Asset(2), 0, 1), None);
}
