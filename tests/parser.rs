use lambda::parser::parse_one;
use lambda::term::{a, l, v, Term};

fn assert_parses_to(code: &str, expected: Term) {
    assert_eq!(expected, parse_one(code).unwrap(), "input program: {}", code);
}

#[test]
fn test_parses_variable() {
    assert_parses_to(r"x", v("x"));
}

#[test]
fn test_parses_abstraction() {
    assert_parses_to(r"\x    . x", l("x", v("x")));
}

#[test]
fn test_parses_applications_without_parentheses_are_left_associative() {
    assert_parses_to(r"x y z", a(a(v("x"), v("y")), v("z")));
}

#[test]
fn test_parses_application_with_parentheses() {
    assert_parses_to(r"x (y z)", a(v("x"), a(v("y"), v("z"))));
}

#[test]
fn test_parses_with_correct_associativity1() {
    assert_parses_to(r"\x . \y . (x x) y", l("x", l("y", a(a(v("x"), v("x")), v("y")))));
}

#[test]
fn test_parses_with_correct_associativity2() {
    assert_parses_to(r"\x . \y . x (x y)", l("x", l("y", a(v("x"), a(v("x"), v("y"))))));
}

#[test]
fn test_parses_with_correct_associativity3() {
    assert_parses_to(r"\x . (\y . x x y) x", l("x", a(l("y", a(a(v("x"), v("x")), v("y"))), v("x"))));
}

#[test]
fn test_parses_with_correct_associativity4() {
    assert_parses_to(r"(\x . \y . x x y) x", a(l("x", l("y", a(a(v("x"), v("x")), v("y")))), v("x")));
}

#[test]
fn test_parses_with_complex_application() {
    assert_parses_to(r"(\y.y z) \z.z", a(l("y", a(v("y"), v("z"))), l("z", v("z"))));
}

#[test]
fn test_parses_with_whitespace_at_end() {
    assert_parses_to("\\x . \\y . (x x) y  \t \r  \n", l("x", l("y", a(a(v("x"), v("x")), v("y")))));
}

#[test]
fn test_parses_with_empty_lines() {
    assert_parses_to("a = b;\n\na", v("b"));
}

#[test]
fn test_parses_and_substitutes_macro() {
    assert_parses_to(r"id = \x.x; id (id y)", a(l("x", v("x")), a(l("x", v("x")), v("y"))));
}
