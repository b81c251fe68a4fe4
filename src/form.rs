use vstd::prelude::*;

verus! {

/// The mathematical value of an expression tree.
pub enum Form {
    Num(nat),
    Var(Seq<char>),
    Sum(Seq<Form>),
    Prod(Seq<Form>),
    Power(Box<Form>, nat),
}

/// Constant folding saturates at the largest `usize`.
pub open spec fn sat(n: nat) -> nat {
    if n > usize::MAX {
        usize::MAX as nat
    } else {
        n
    }
}

/// The items an operand contributes to a sum: a sum gives its own items.
pub open spec fn parts_add(f: Form) -> Seq<Form> {
    match f {
        Form::Sum(t) => t,
        _ => seq![f],
    }
}

/// The items an operand contributes to a product: a product gives its own items.
pub open spec fn parts_mul(f: Form) -> Seq<Form> {
    match f {
        Form::Prod(t) => t,
        _ => seq![f],
    }
}

/// Sum operands with nested sums spliced in, one level.
pub open spec fn flat_add(s: Seq<Form>) -> Seq<Form>
    decreases s.len(),
{
    if s.len() == 0 {
        Seq::empty()
    } else {
        flat_add(s.drop_last()) + parts_add(s.last())
    }
}

/// Product operands with nested products spliced in, one level.
pub open spec fn flat_mul(s: Seq<Form>) -> Seq<Form>
    decreases s.len(),
{
    if s.len() == 0 {
        Seq::empty()
    } else {
        flat_mul(s.drop_last()) + parts_mul(s.last())
    }
}

/// The sum of the constants among `s`.
pub open spec fn const_sum(s: Seq<Form>) -> nat
    decreases s.len(),
{
    if s.len() == 0 {
        0
    } else {
        const_sum(s.drop_last()) + match s.last() {
            Form::Num(n) => n,
            _ => 0,
        }
    }
}

/// The product of the constants among `s`.
pub open spec fn const_prod(s: Seq<Form>) -> nat
    decreases s.len(),
{
    if s.len() == 0 {
        1
    } else {
        const_prod(s.drop_last()) * match s.last() {
            Form::Num(n) => n,
            _ => 1,
        }
    }
}

/// The items of `s` that are not constants, in order.
pub open spec fn non_consts(s: Seq<Form>) -> Seq<Form>
    decreases s.len(),
{
    if s.len() == 0 {
        Seq::empty()
    } else if s.last() is Num {
        non_consts(s.drop_last())
    } else {
        non_consts(s.drop_last()).push(s.last())
    }
}

/// Some item of `s` is the constant zero.
pub open spec fn has_zero(s: Seq<Form>) -> bool {
    exists|i: int| 0 <= i < s.len() && s[i] == Form::Num(0)
}

/// The canonical sum of `s`: flattened, constants merged into one leading non-zero
/// constant, other items kept in order.
pub open spec fn add_form(s: Seq<Form>) -> Form {
    let f = flat_add(s);
    let c = sat(const_sum(f));
    if c == 0 {
        Form::Sum(non_consts(f))
    } else {
        Form::Sum(seq![Form::Num(c)] + non_consts(f))
    }
}

/// The canonical product of `s`: zero if any flattened item is zero; otherwise
/// flattened, constants merged into one leading constant other than one, other items
/// kept in order.
pub open spec fn mul_form(s: Seq<Form>) -> Form {
    let f = flat_mul(s);
    let c = sat(const_prod(f));
    if has_zero(f) {
        Form::Num(0)
    } else if c == 1 {
        Form::Prod(non_consts(f))
    } else {
        Form::Prod(seq![Form::Num(c)] + non_consts(f))
    }
}

/// `b` raised to `e`.
pub open spec fn power(b: nat, e: nat) -> nat
    decreases e,
{
    if e == 0 {
        1
    } else {
        power(b, (e - 1) as nat) * b
    }
}

/// The canonical power: a constant base is folded, any other base is kept.
pub open spec fn pow_form(b: Form, e: nat) -> Form {
    match b {
        Form::Num(v) => Form::Num(sat(power(v, e))),
        _ => Form::Power(Box::new(b), e),
    }
}

/// The derivative of `f` with respect to the symbol named `x`, built with the
/// canonical constructors at every step.
pub open spec fn deriv(f: Form, x: Seq<char>) -> Form
    decreases f, 0int,
{
    match f {
        Form::Num(_) => Form::Num(0),
        Form::Var(s) => if s == x {
            Form::Num(1)
        } else {
            Form::Num(0)
        },
        Form::Sum(items) => add_form(deriv_each(items, x, items.len() as int)),
        Form::Prod(items) => add_form(product_terms(items, x, items.len() as int)),
        Form::Power(b, n) => if n == 0 {
            Form::Num(0)
        } else {
            mul_form(seq![Form::Num(n), pow_form(*b, (n - 1) as nat), deriv(*b, x)])
        },
    }
}

/// The derivatives of the first `k` items of `s`.
pub open spec fn deriv_each(s: Seq<Form>, x: Seq<char>, k: int) -> Seq<Form>
    decreases s, k,
{
    if k <= 0 || k > s.len() {
        Seq::empty()
    } else {
        deriv_each(s, x, k - 1).push(deriv(s[k - 1], x))
    }
}

/// The product rule's terms for the first `k` factors of `s`: term `i` is the
/// canonical product of `s` with factor `i` replaced by its derivative.
pub open spec fn product_terms(s: Seq<Form>, x: Seq<char>, k: int) -> Seq<Form>
    decreases s, k,
{
    if k <= 0 || k > s.len() {
        Seq::empty()
    } else {
        product_terms(s, x, k - 1).push(mul_form(s.update(k - 1, deriv(s[k - 1], x))))
    }
}

/// The decimal digit `d`.
pub open spec fn digit_char(d: nat) -> char {
    if d == 0 {
        '0'
    } else if d == 1 {
        '1'
    } else if d == 2 {
        '2'
    } else if d == 3 {
        '3'
    } else if d == 4 {
        '4'
    } else if d == 5 {
        '5'
    } else if d == 6 {
        '6'
    } else if d == 7 {
        '7'
    } else if d == 8 {
        '8'
    } else {
        '9'
    }
}

/// `n` written in decimal, without leading zeros.
pub open spec fn decimal(n: nat) -> Seq<char>
    decreases n,
{
    if n < 10 {
        seq![digit_char(n)]
    } else {
        decimal(n / 10).push(digit_char(n % 10))
    }
}

/// The text of `f`: sum items joined by `" + "`, product items by `" * "`, a power as
/// base, `^` and exponent, with no parentheses.
pub open spec fn text(f: Form) -> Seq<char>
    decreases f, 0int,
{
    match f {
        Form::Num(n) => decimal(n),
        Form::Var(s) => s,
        Form::Sum(items) => joined(items, seq![' ', '+', ' '], items.len() as int),
        Form::Prod(items) => joined(items, seq![' ', '*', ' '], items.len() as int),
        Form::Power(b, e) => text(*b) + seq!['^'] + decimal(e),
    }
}

/// The texts of the first `k` items of `s`, separated by `sep`.
pub open spec fn joined(s: Seq<Form>, sep: Seq<char>, k: int) -> Seq<char>
    decreases s, k,
{
    if k <= 0 || k > s.len() {
        Seq::empty()
    } else if k == 1 {
        text(s[0])
    } else {
        joined(s, sep, k - 1) + sep + text(s[k - 1])
    }
}

/// Saturating a partial sum first does not change the saturated total.
pub proof fn lemma_sat_add(x: nat, y: nat)
    ensures
        sat(sat(x) + y) == sat(x + y),
{
}

/// Saturating a partial product first does not change the saturated total.
pub proof fn lemma_sat_mul(x: nat, y: nat)
    ensures
        sat(sat(x) * y) == sat(x * y),
{
    if x > usize::MAX && y > 0 {
        assert(usize::MAX * y >= usize::MAX) by (nonlinear_arith)
            requires
                y > 0,
        ;
        assert(x * y >= x) by (nonlinear_arith)
            requires
                y > 0,
        ;
    }
}

/// Flattening one more sum operand appends its items.
pub proof fn lemma_flat_add_step(s: Seq<Form>, i: int)
    requires
        0 <= i < s.len(),
    ensures
        flat_add(s.subrange(0, i + 1)) == flat_add(s.subrange(0, i)) + parts_add(s[i]),
{
    assert(s.subrange(0, i + 1).drop_last() =~= s.subrange(0, i));
}

/// Flattening one more product operand appends its items.
pub proof fn lemma_flat_mul_step(s: Seq<Form>, i: int)
    requires
        0 <= i < s.len(),
    ensures
        flat_mul(s.subrange(0, i + 1)) == flat_mul(s.subrange(0, i)) + parts_mul(s[i]),
{
    assert(s.subrange(0, i + 1).drop_last() =~= s.subrange(0, i));
}

/// Flattening a prefix of the operands gives a prefix of the flattened items.
pub proof fn lemma_flat_mul_prefix(s: Seq<Form>, k: int)
    requires
        0 <= k <= s.len(),
    ensures
        flat_mul(s.subrange(0, k)).len() <= flat_mul(s).len(),
        forall|x: int|
            0 <= x < flat_mul(s.subrange(0, k)).len() ==> #[trigger] flat_mul(s.subrange(0, k))[x]
                == flat_mul(s)[x],
    decreases s.len() - k,
{
    if k < s.len() {
        lemma_flat_mul_prefix(s, k + 1);
        lemma_flat_mul_step(s, k);
        let a = flat_mul(s.subrange(0, k));
        let b = flat_mul(s.subrange(0, k + 1));
        assert forall|x: int| 0 <= x < a.len() implies #[trigger] a[x] == flat_mul(s)[x] by {
            assert(b[x] == a[x]);
        }
    } else {
        assert(s.subrange(0, k) =~= s);
    }
}

} // verus!

