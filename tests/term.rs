use lambda::term::{a, l, v};

#[test]
fn parser_test_is_redex_true_for_abstraction_application() {
    assert!(a(l("x", v("x")), v("y")).is_redex());
}

#[test]
fn parser_test_is_redex_false_for_non_redex() {
    assert!(!a(v("y"), l("x", v("x"))).is_redex());
}

#[test]
fn parser_test_is_redex_true_for_nested_abstraction() {
    assert!(a(a(a(l("x", v("x")), v("a")), v("b")), v("c")).is_redex());
}

#[test]
fn mod_test_is_redex_true_for_abstraction_application() {
    assert!(a(l("x", v("x")), v("y")).is_redex());
}

#[test]
fn mod_test_is_redex_false_for_non_redex() {
    assert!(!a(v("y"), l("x", v("x"))).is_redex());
}

#[test]
fn mod_test_is_redex_true_for_nested_abstraction() {
    assert!(a(a(a(l("x", v("x")), v("a")), v("b")), v("c")).is_redex());
}
