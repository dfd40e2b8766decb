use lambda::conversion::to_de_bruijn;
use lambda::de_bruijn::{a as da, l as dl, v as dv};
use lambda::term::{a, l, v};

#[test]
fn test_abstraction_with_bound_variables() {
    assert_eq!(
        Some(dl(dl(da(dv(1), dv(0))))),
        to_de_bruijn(&l("x", l("y", a(v("x"), v("y")))))
    );
}

#[test]
fn test_abstraction_with_free_variable() {
    assert_eq!(
        Some(dl(dl(da(da(dv(1), dv(0)), dv(2))))),
        to_de_bruijn(&l("x", l("y", a(a(v("x"), v("y")), v("z")))))
    );
}
