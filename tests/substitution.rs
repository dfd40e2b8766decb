use lambda::parser::parse_one;
use lambda::substitution::{rewrite, Substitutable};

fn assert_substitutes_to(expected: &str, expr: &str, subs: &str, var: &str) {
    assert_eq!(
        parse_one(expected).unwrap(),
        parse_one(expr).unwrap().substitute(var, &parse_one(subs).unwrap())
    );
}

fn assert_rewrites_to(expected: &str, expr: &str, var: &str) {
    assert_eq!(parse_one(expected).unwrap(), rewrite(var, &parse_one(expr).unwrap()));
}

#[test]
fn test_variable_with_same_name() {
    assert_substitutes_to("y", "x", "y", "x");
}

#[test]
fn test_variable_with_different_name() {
    assert_substitutes_to("x", "x", "z", "y");
}

#[test]
fn test_application_with_overlapping_name() {
    assert_substitutes_to("x z", "x y", "z", "y");
}

#[test]
fn test_application_with_none_same_name() {
    assert_substitutes_to("x y", "x y", "z", "a");
}

#[test]
fn test_abstraction_with_bound_name_different() {
    assert_substitutes_to("x z", "x y", "z", "y");
}

#[test]
fn test_abstraction_with_bound_name_same() {
    assert_substitutes_to(r"\x'.y y", r"\x.x y", "y", "x");
}

#[test]
fn test_abstraction_with_bound_name_in_free_variables_of_substitute() {
    assert_substitutes_to(r"\x'.(\y.x y) y", r"\x.x y", r"\y.x y", "x");
}

#[test]
fn substitution_test_with_variable() {
    assert_rewrites_to("x", "x", "x");
}

#[test]
fn substitution_test_with_application() {
    assert_rewrites_to("x y", "x y", "x");
}

#[test]
fn test_simple_abstraction() {
    assert_rewrites_to(r"\x' . x' y", r"\x.x y", "x");
}

#[test]
fn test_nested_abstraction_with_same_bound_variable_name() {
    assert_rewrites_to(r"\x' . x' \y . y \x''.x''", r"\x.x \y.y \x.x", "x");
}
