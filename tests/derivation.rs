use derivative::{Expr, Symbol, Term};

fn sym(name: &str) -> Expr {
    Term::new_sym(name)
}

#[test]
fn symbol_derivative() {
    let x = Symbol::new("x");
    let y = Symbol::new("y");
    assert_eq!(sym("x").derive(&x).render(), "1");
    assert_eq!(sym("x").derive(&y).render(), "0");
    assert_eq!(Symbol::new("x").derive(&x), Term::new_const(1));
    assert_eq!(Term::Symbol(Symbol::new("y")).derive(&x), Term::new_const(0));
    assert_eq!(Term::Const(9).derive(&x), Term::new_const(0));
}

#[test]
fn constant_derivative_is_zero() {
    let x = Symbol::new("x");
    assert_eq!(Term::new_const(42).derive(&x).render(), "0");
}

#[test]
fn product_rule() {
    let x = Symbol::new("x");
    let e = Expr::new_mul(vec![sym("x"), sym("y"), sym("z")]);
    assert_eq!(e.derive(&x).render(), "y * z");
}

#[test]
fn chain_rule() {
    let x = Symbol::new("x");
    let e = Expr::new_pow(sym("x"), 7);
    assert_eq!(e.derive(&x).render(), "7 * x^6");
}

#[test]
fn zeroth_power_derivative_is_zero() {
    let x = Symbol::new("x");
    let e = Expr::new_pow(sym("x"), 0);
    assert_eq!(e.derive(&x), Term::new_const(0));
}

#[test]
fn sum_is_differentiated_item_by_item() {
    let x = Symbol::new("x");
    let e = Expr::new_add(vec![Term::new_const(3), sym("x"), sym("y"), Expr::new_pow(sym("x"), 2)]);
    assert_eq!(e.derive(&x).render(), "1 + 2 * x^1");
}

#[test]
fn empty_product_derivative_is_empty_sum() {
    let x = Symbol::new("x");
    assert_eq!(Expr::new_mul(vec![]).derive(&x), Expr::Add(vec![]));
}

#[test]
fn full_scenario() {
    let x = Symbol::new("x");
    let e = Expr::new_add(vec![
        Expr::new_mul(vec![Expr::new_pow(Term::new_const(4), 7), Expr::new_pow(sym("x"), 7)]),
        Expr::new_mul(vec![Expr::new_pow(Term::new_const(4), 7), Expr::new_pow(sym("y"), 7)]),
        Expr::new_mul(vec![sym("x"), sym("y"), sym("z")]),
    ]);
    assert_eq!(e.render(), "16384 * x^7 + 16384 * y^7 + x * y * z");
    assert_eq!(e.derive(&x).render(), "114688 * x^6 + y * z");
}
