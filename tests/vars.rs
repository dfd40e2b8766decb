use std::collections::HashSet;

use lambda::parser::parse_one;
use lambda::vars::Variables;

fn assert_fvs_same(expected: Vec<&str>, t: &str) {
    let found = parse_one(t).unwrap().free_variables();
    let set: HashSet<String> = found.iter().cloned().collect();
    assert_eq!(set.len(), found.len());
    assert_eq!(expected.into_iter().map(str::to_string).collect::<HashSet<_>>(), set);
}

#[test]
fn vars_test_with_variable() {
    assert_fvs_same(vec!["x"], "x");
}

#[test]
fn test_with_abstraction() {
    assert_fvs_same(vec!["y"], r"\x.x y");
}

#[test]
fn vars_test_with_application() {
    assert_fvs_same(vec!["x", "y"], "x y");
}

#[test]
fn test_with_nested_abstraction() {
    assert_fvs_same(vec!["z"], r"\x.\y.x y z");
}

#[test]
fn test_with_nested_abstraction_having_overlapping_bound_names() {
    assert_fvs_same(vec![], r"\f.\t.\f.f");
}
