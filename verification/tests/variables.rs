use neo_calc::compile::compile;
use neo_calc::names::validate_var_name;
use neo_calc::program::Op;
use neo_calc::variables::{delete_variable, store_variable, try_store_variable};

fn table(entries: &[(&str, i32)]) -> Vec<(String, i32)> {
    entries.iter().map(|(n, v)| (n.to_string(), *v)).collect()
}

#[test]
fn storing_a_new_name_appends_it() {
    let mut vars = table(&[("a", 1)]);
    store_variable(&mut vars, "b".to_string(), 2);
    assert_eq!(vars, table(&[("a", 1), ("b", 2)]));
}

#[test]
fn storing_an_existing_name_replaces_its_value_in_place() {
    let mut vars = table(&[("a", 1), ("tax", 2), ("c", 3)]);
    store_variable(&mut vars, "tax".to_string(), 9);
    assert_eq!(vars, table(&[("a", 1), ("tax", 9), ("c", 3)]));
}

#[test]
fn store_then_find_gives_the_value_back() {
    let mut vars = table(&[]);
    store_variable(&mut vars, "x".to_string(), 5);
    store_variable(&mut vars, "y".to_string(), 6);
    store_variable(&mut vars, "x".to_string(), 7);
    let found = vars.iter().find(|(n, _)| n == "x").map(|(_, v)| *v);
    assert_eq!(found, Some(7));
    assert_eq!(vars.len(), 2);
}

#[test]
fn deleting_removes_only_that_name() {
    let mut vars = table(&[("a", 1), ("b", 2), ("c", 3)]);
    delete_variable(&mut vars, &"b".to_string());
    assert_eq!(vars, table(&[("a", 1), ("c", 3)]));
    delete_variable(&mut vars, &"zzz".to_string());
    assert_eq!(vars, table(&[("a", 1), ("c", 3)]));
    delete_variable(&mut vars, &"a".to_string());
    delete_variable(&mut vars, &"c".to_string());
    assert!(vars.is_empty());
}

#[test]
fn a_validated_stored_name_can_be_referenced() {
    let name = "tax";
    assert!(validate_var_name(name).is_ok());
    let mut vars: Vec<(String, i32)> = Vec::new();
    store_variable(&mut vars, name.to_string(), 33);
    let names: Vec<String> = vars.iter().map(|(n, _)| n.clone()).collect();
    let p = compile("tax * 2", &names);
    assert!(p.error.is_none());
    assert_eq!(
        p.ops,
        vec![Op::Variable { start: 0, end: 3 }, Op::Number { start: 4, end: 5 }, Op::Multiply]
    );
    delete_variable(&mut vars, &name.to_string());
    let names: Vec<String> = vars.iter().map(|(n, _)| n.clone()).collect();
    let e = compile("tax * 2", &names).error.unwrap();
    assert_eq!(e.msg, "Unbekannte Variable 'tax'");
    assert_eq!(e.pos, Some(0));
}

#[test]
fn try_store_variable_validates_then_stores() {
    let mut vars = table(&[("a", 1)]);
    assert_eq!(
        try_store_variable(&mut vars, "pi".to_string(), Some(2)),
        Err("'pi' ist reserviert".to_string())
    );
    assert_eq!(
        try_store_variable(&mut vars, "".to_string(), Some(2)),
        Err("Name darf nicht leer sein".to_string())
    );
    assert_eq!(
        try_store_variable(&mut vars, "b".to_string(), None),
        Err("No valid result to store".to_string())
    );
    assert_eq!(vars, table(&[("a", 1)]));
    assert_eq!(try_store_variable(&mut vars, "b".to_string(), Some(2)), Ok(()));
    assert_eq!(try_store_variable(&mut vars, "a".to_string(), Some(7)), Ok(()));
    assert_eq!(vars, table(&[("a", 7), ("b", 2)]));
}

#[test]
fn delete_keeps_names_distinct() {
    let mut vars = table(&[("a", 1), ("b", 2), ("c", 3)]);
    delete_variable(&mut vars, &"a".to_string());
    let names: Vec<&String> = vars.iter().map(|(n, _)| n).collect();
    assert_eq!(names, vec!["b", "c"]);
}
