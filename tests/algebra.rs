use derivative::{Expr, Symbol, Term};

fn x() -> Expr {
    Term::new_sym("x")
}

fn y() -> Expr {
    Term::new_sym("y")
}

fn z() -> Expr {
    Term::new_sym("z")
}

#[test]
fn nested_sum_renders_as_flat_sum() {
    let nested = Expr::new_add(vec![
        Expr::new_add(vec![x(), Term::new_const(3)]),
        Expr::new_mul(vec![y(), z()]),
    ]);
    let flat = Expr::new_add(vec![x(), Term::new_const(3), Expr::new_mul(vec![y(), z()])]);
    assert_eq!(nested.render(), flat.render());
    assert_eq!(nested, flat);
    assert_eq!(flat.render(), "3 + x + y * z");
}

#[test]
fn sum_constants_merge_in_front() {
    let e = Expr::new_add(vec![Term::new_const(2), Term::new_const(3), x()]);
    assert_eq!(e.render(), "5 + x");
}

#[test]
fn sum_constants_merge_wherever_they_stand() {
    let e = Expr::new_add(vec![x(), Term::new_const(2), y(), Term::new_const(4)]);
    assert_eq!(e.render(), "6 + x + y");
}

#[test]
fn empty_sum_renders_empty() {
    assert_eq!(Expr::new_add(vec![]).render(), "");
}

#[test]
fn zero_constant_leaves_sum() {
    let e = Expr::new_add(vec![Term::new_const(0), x()]);
    assert_eq!(e.render(), "x");
    assert_eq!(e, Expr::Add(vec![x()]));
}

#[test]
fn sum_constant_saturates() {
    let e = Expr::new_add(vec![Term::new_const(usize::MAX), Term::new_const(1), x()]);
    assert_eq!(e, Expr::Add(vec![Term::new_const(usize::MAX), x()]));
}

#[test]
fn zero_factor_absorbs_product() {
    let e = Expr::new_mul(vec![x(), Term::new_const(0), y()]);
    assert_eq!(e, Expr::Term(Term::Const(0)));
    assert_eq!(e.render(), "0");
}

#[test]
fn zero_inside_nested_product_absorbs() {
    let inner = Expr::Mul(vec![y(), Term::new_const(0)]);
    let e = Expr::new_mul(vec![Term::new_const(5), x(), inner]);
    assert_eq!(e, Term::new_const(0));
}

#[test]
fn unit_factor_leaves_product() {
    let e = Expr::new_mul(vec![Term::new_const(1), x()]);
    assert_eq!(e.render(), "x");
}

#[test]
fn product_constants_merge_in_front() {
    let e = Expr::new_mul(vec![x(), Term::new_const(2), Expr::new_mul(vec![Term::new_const(3), y()])]);
    assert_eq!(e.render(), "6 * x * y");
}

#[test]
fn product_constant_saturates() {
    let e = Expr::new_mul(vec![Term::new_const(usize::MAX), Term::new_const(2), x()]);
    assert_eq!(e, Expr::Mul(vec![Term::new_const(usize::MAX), x()]));
}

#[test]
fn empty_product_renders_empty() {
    assert_eq!(Expr::new_mul(vec![]).render(), "");
}

#[test]
fn constant_power_folds() {
    assert_eq!(Expr::new_pow(Term::new_const(2), 10).render(), "1024");
    assert_eq!(Expr::new_pow(Term::new_const(7), 0), Term::new_const(1));
}

#[test]
fn constant_power_saturates() {
    assert_eq!(Expr::new_pow(Term::new_const(2), 200), Term::new_const(usize::MAX));
    assert_eq!(Expr::new_pow(Term::new_const(0), 200), Term::new_const(0));
}

#[test]
fn symbol_power_is_kept() {
    assert_eq!(Expr::new_pow(x(), 0).render(), "x^0");
    assert_eq!(Expr::new_pow(x(), 1).render(), "x^1");
}

#[test]
fn canonical_items_renormalize_to_themselves() {
    let sum = Expr::new_add(vec![Term::new_const(4), x(), Expr::new_pow(y(), 2), Term::new_const(1)]);
    let again = match sum.duplicate() {
        Expr::Add(items) => Expr::new_add(items),
        _ => panic!("not a sum"),
    };
    assert_eq!(again, sum);
    let product = Expr::new_mul(vec![x(), Term::new_const(3), y()]);
    let again = match product.duplicate() {
        Expr::Mul(items) => Expr::new_mul(items),
        _ => panic!("not a product"),
    };
    assert_eq!(again, product);
}

#[test]
fn duplicate_is_equal() {
    let e = Expr::new_add(vec![Expr::new_mul(vec![Term::new_const(2), x()]), Expr::new_pow(y(), 3)]);
    assert_eq!(e.duplicate(), e);
}

#[test]
fn leaves_render() {
    assert_eq!(Term::Const(120).render(), "120");
    assert_eq!(Term::Const(0).render(), "0");
    assert_eq!(Term::Symbol(Symbol::new("abc")).render(), "abc");
    assert_eq!(Term::new_const(usize::MAX).render(), usize::MAX.to_string());
}
