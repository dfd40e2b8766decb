use lambda::evaluation::{CallByValue, Full, Lazy, Normal, Reduction};
use lambda::parser::parse_one;

fn assert_reduces_to<S: Reduction>(strategy: &S, expected: &str, expr: &str) {
    assert_eq!(parse_one(expected).unwrap(), strategy.reduce(parse_one(expr).unwrap()));
}

#[test]
fn call_by_value_test_does_not_reduce_variable() {
    assert_reduces_to(&CallByValue::new(), "x", "x");
}

#[test]
fn call_by_value_test_does_not_reduce_simple_abstraction() {
    assert_reduces_to(&CallByValue::new(), r"\x.x", r"\x.x");
}

#[test]
fn call_by_value_test_does_not_reduce_application_with_variable_on_left() {
    assert_reduces_to(&CallByValue::new(), r"x \y.y", r"x \y.y");
}

#[test]
fn call_by_value_test_does_not_reduce_inside_abstraction() {
    assert_reduces_to(&CallByValue::new(), r"\x.(\y.y) z", r"\x.(\y.y) z");
}

#[test]
fn call_by_value_test_reduces_simple_application() {
    assert_reduces_to(&CallByValue::new(), r"\z.z", r"(\y.y) (\z.z)");
}

#[test]
fn test_does_not_reduce_application_without_a_value_argument() {
    assert_reduces_to(&CallByValue::new(), r"(\y.y) x", r"(\y.y) x");
}

#[test]
fn call_by_value_test_reduces_application_with_lambda_argument() {
    assert_reduces_to(&CallByValue::new(), r"\z.z", r"(\y.y) \z.z");
}

#[test]
fn test_reduces_two_argument_application() {
    assert_reduces_to(&CallByValue::new(), r"\x.x", r"(\t.\f.t) (\x.x) (\y.y)");
}

#[test]
fn test_reduces_three_argument_application() {
    assert_reduces_to(&CallByValue::new(), r"\z.z", r"(\x.\y.\z. x y z) (\x.x) (\y.y) (\z.z)");
}

#[test]
fn test_reduces_with_and_tru_fls() {
    assert_reduces_to(&CallByValue::new(), r"\t.\f.f", r"(\a.\b.(a b) (\t.\f.f)) (\t.\f.t) (\t.\f.f)");
}

#[test]
fn full_test_does_not_reduce_variable() {
    assert_reduces_to(&Full::new(), "x", "x");
}

#[test]
fn full_test_does_not_reduce_simple_abstraction() {
    assert_reduces_to(&Full::new(), r"\x.x", r"\x.x");
}

#[test]
fn full_test_does_not_reduce_simple_application() {
    assert_reduces_to(&Full::new(), r"x \y.y", r"x \y.y");
}

#[test]
fn full_test_reduces_inside_abstraction() {
    assert_reduces_to(&Full::new(), r"\x.z x", r"\x.((\y.y) z) x");
}

#[test]
fn full_test_reduces_simple_application() {
    assert_reduces_to(&Full::new(), r"x", r"(\y.y) x");
}

#[test]
fn full_test_reduces_application_with_lambda_argument() {
    assert_reduces_to(&Full::new(), r"\z.z", r"(\y.y) \z.z");
}

#[test]
fn full_test_does_not_reduce_application_with_variable_on_left() {
    assert_reduces_to(&Full::new(), r"z (\x.x) (\z.z)", r"z (\x.x) (\z.z)");
}

#[test]
fn full_test_reduces_application_fully1() {
    assert_reduces_to(&Full::new(), r"z", r"(\x.x z) \z.z");
}

#[test]
fn full_test_reduces_application_fully2() {
    assert_reduces_to(&Full::new(), r"z \z.z", r"((\x.x) z) \z.z");
}

#[test]
fn lazy_test_does_not_reduce_variable() {
    assert_reduces_to(&Lazy::new(), "x", "x");
}

#[test]
fn lazy_test_does_not_reduce_simple_abstraction() {
    assert_reduces_to(&Lazy::new(), r"\x.x", r"\x.x");
}

#[test]
fn lazy_test_does_not_reduce_simple_application() {
    assert_reduces_to(&Lazy::new(), r"x \y.y", r"x \y.y");
}

#[test]
fn lazy_test_does_not_reduce_inside_abstraction() {
    assert_reduces_to(&Lazy::new(), r"\x.(\y.y) z", r"\x.(\y.y) z");
}

#[test]
fn lazy_test_reduces_simple_application() {
    assert_reduces_to(&Lazy::new(), r"x", r"(\y.y) x");
}

#[test]
fn lazy_test_reduces_application_with_lambda_argument() {
    assert_reduces_to(&Lazy::new(), r"\z.z", r"(\y.y) \z.z");
}

#[test]
fn lazy_test_does_not_reduce_application_with_variable_on_left() {
    assert_reduces_to(&Lazy::new(), r"z (\x.x) (\z.z)", r"z (\x.x) (\z.z)");
}

#[test]
fn lazy_test_reduces_application_fully1() {
    assert_reduces_to(&Lazy::new(), r"z", r"(\x.x z) \z.z");
}

#[test]
fn lazy_test_reduces_application_fully2() {
    assert_reduces_to(&Lazy::new(), r"z \z.z", r"((\x.x) z) \z.z");
}

#[test]
fn normal_test_does_not_reduce_variable() {
    assert_reduces_to(&Normal::new(), "x", "x");
}

#[test]
fn normal_test_does_not_reduce_simple_abstraction() {
    assert_reduces_to(&Normal::new(), r"\x.x", r"\x.x");
}

#[test]
fn normal_test_does_not_reduce_simple_application() {
    assert_reduces_to(&Normal::new(), r"x \y.y", r"x \y.y");
}

#[test]
fn normal_test_reduces_inside_abstraction() {
    assert_reduces_to(&Normal::new(), r"\x.z x", r"\x.((\y.y) z) x");
}

#[test]
fn normal_test_reduces_simple_application() {
    assert_reduces_to(&Normal::new(), r"x", r"(\y.y) x");
}

#[test]
fn normal_test_reduces_application_with_lambda_argument() {
    assert_reduces_to(&Normal::new(), r"\z.z", r"(\y.y) \z.z");
}

#[test]
fn normal_test_does_not_reduce_application_with_variable_on_left() {
    assert_reduces_to(&Normal::new(), r"z (\x.x) (\z.z)", r"z (\x.x) (\z.z)");
}

#[test]
fn normal_test_reduces_application_fully1() {
    assert_reduces_to(&Normal::new(), r"z", r"(\x.x z) \z.z");
}

#[test]
fn normal_test_reduces_application_fully2() {
    assert_reduces_to(&Normal::new(), r"z \z.z", r"((\x.x) z) \z.z");
}
