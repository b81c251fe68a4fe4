use vstd::prelude::*;
use crate::form::{
    add_form, const_prod, const_sum, flat_add, flat_mul, has_zero, lemma_flat_add_step,
    lemma_flat_mul_prefix, lemma_flat_mul_step, lemma_sat_add, lemma_sat_mul, mul_form, non_consts,
    parts_add, parts_mul, pow_form, power, sat, Form,
};

verus! {

/// A named symbol; two symbols are equal when their names are.
#[derive(PartialEq, Eq, Clone, Debug)]
pub struct Symbol(pub String);

/// A leaf of an expression.
#[derive(PartialEq, Eq, Clone, Debug)]
pub enum Term {
    Const(usize),
    Symbol(Symbol),
}

/// An expression tree. Build it only through the smart constructors, which keep it
/// canonical.
#[derive(PartialEq, Eq, Debug)]
pub enum Expr {
    Add(Vec<Expr>),
    Mul(Vec<Expr>),
    Pow(Box<Expr>, u32),
    Term(Term),
}

impl View for Symbol {
    type V = Seq<char>;

    open spec fn view(&self) -> Seq<char> {
        self.0@
    }
}

impl View for Term {
    type V = Form;

    open spec fn view(&self) -> Form {
        match self {
            Term::Const(c) => Form::Num(*c as nat),
            Term::Symbol(s) => Form::Var(s@),
        }
    }
}

impl View for Expr {
    type V = Form;

    open spec fn view(&self) -> Form
        decreases self,
    {
        match self {
            Expr::Add(v) => Form::Sum(views(v@)),
            Expr::Mul(v) => Form::Prod(views(v@)),
            Expr::Pow(b, n) => Form::Power(Box::new((**b).view()), *n as nat),
            Expr::Term(t) => t@,
        }
    }
}

/// The values of a sequence of expressions.
pub open spec fn views(s: Seq<Expr>) -> Seq<Form>
    decreases s,
{
    if s.len() == 0 {
        Seq::empty()
    } else {
        views(s.subrange(0, s.len() - 1)).push(s[s.len() - 1]@)
    }
}

/// `views` keeps the length and takes each item's value.
pub proof fn lemma_views(s: Seq<Expr>)
    ensures
        views(s).len() == s.len(),
        forall|j: int| 0 <= j < s.len() ==> #[trigger] views(s)[j] == s[j]@,
    decreases s.len(),
{
    if s.len() > 0 {
        let p = s.subrange(0, s.len() - 1);
        lemma_views(p);
        assert(views(s) == views(p).push(s[s.len() - 1]@));
        assert forall|j: int| 0 <= j < s.len() implies #[trigger] views(s)[j] == s[j]@ by {
            if j < s.len() - 1 {
                assert(p[j] == s[j]);
            }
        }
    }
}

/// The values of a pushed sequence are the old values and the new one.
pub proof fn lemma_views_push(s: Seq<Expr>, e: Expr)
    ensures
        views(s.push(e)) == views(s).push(e@),
{
    assert(s.push(e).subrange(0, s.len() as int) =~= s);
}

/// The values of a sequence with an item inserted in front.
proof fn lemma_views_prepend(s: Seq<Expr>, e: Expr)
    ensures
        views(s.insert(0, e)) == seq![e@] + views(s),
{
    lemma_views(s);
    lemma_views(s.insert(0, e));
    assert(views(s.insert(0, e)) =~= seq![e@] + views(s));
}

/// Dropping the last item of a push gives the original sequence back.
proof fn lemma_push_drop(g: Seq<Form>, x: Form)
    ensures
        g.push(x).drop_last() == g,
        g.push(x).last() == x,
{
    assert(g.push(x).drop_last() =~= g);
}

impl Term {
    /// The constant `n`.
    pub fn new_const(n: usize) -> (r: Expr)
        ensures
            r@ == Form::Num(n as nat),
    {
        Expr::Term(Term::Const(n))
    }

    /// The symbol named `sym`.
    pub fn new_sym(sym: &str) -> (r: Expr)
        ensures
            r@ == Form::Var(sym@),
    {
        Expr::Term(Term::Symbol(Symbol::new(sym)))
    }
}

impl Symbol {
    /// The symbol named `s`.
    pub fn new(s: &str) -> (r: Symbol)
        ensures
            r@ == s@,
    {
        Symbol(s.to_owned())
    }
}

/// Takes one more flattened sum item into the running state: a constant into the
/// saturating total, anything else onto the output.
fn absorb_add(out: &mut Vec<Expr>, acc: &mut usize, e: Expr, Ghost(g): Ghost<Seq<Form>>)
    requires
        views(old(out)@) == non_consts(g),
        *old(acc) == sat(const_sum(g)),
    ensures
        views(final(out)@) == non_consts(g.push(e@)),
        *final(acc) == sat(const_sum(g.push(e@))),
{
    proof {
        lemma_push_drop(g, e@);
        lemma_sat_add(const_sum(g), 0);
    }
    match e {
        Expr::Term(Term::Const(c)) => {
            proof {
                lemma_sat_add(const_sum(g), c as nat);
            }
            *acc = acc.saturating_add(c);
        },
        other => {
            proof {
                lemma_views_push(out@, other);
            }
            out.push(other);
        },
    }
}

/// Takes one more flattened product item into the running state: a constant into the
/// saturating product, anything else onto the output. Zero is handled by the caller.
fn absorb_mul(out: &mut Vec<Expr>, acc: &mut usize, e: Expr, Ghost(g): Ghost<Seq<Form>>)
    requires
        views(old(out)@) == non_consts(g),
        *old(acc) == sat(const_prod(g)),
        e@ != Form::Num(0),
    ensures
        views(final(out)@) == non_consts(g.push(e@)),
        *final(acc) == sat(const_prod(g.push(e@))),
{
    proof {
        lemma_push_drop(g, e@);
        lemma_sat_mul(const_prod(g), 1);
    }
    match e {
        Expr::Term(Term::Const(c)) => {
            proof {
                lemma_sat_mul(const_prod(g), c as nat);
            }
            *acc = match acc.checked_mul(c) {
                Some(p) => p,
                None => usize::MAX,
            };
        },
        other => {
            proof {
                lemma_views_push(out@, other);
            }
            out.push(other);
        },
    }
}

/// Pushing a non-zero item keeps a sequence free of zero.
proof fn lemma_no_zero_push(g: Seq<Form>, x: Form)
    requires
        !has_zero(g),
        x != Form::Num(0),
    ensures
        !has_zero(g.push(x)),
{
    assert forall|i: int| 0 <= i < g.push(x).len() implies g.push(x)[i] != Form::Num(0) by {
        if i < g.len() {
            assert(g.push(x)[i] == g[i]);
        }
    }
}

/// Whether `e` is the constant zero.
fn is_zero(e: &Expr) -> (r: bool)
    ensures
        r == (e@ == Form::Num(0)),
{
    match e {
        Expr::Term(Term::Const(c)) => *c == 0,
        _ => false,
    }
}

/// `b` raised to `e`, saturating at `usize::MAX`.
fn saturating_power(b: usize, e: u32) -> (r: usize)
    ensures
        r == sat(power(b as nat, e as nat)),
{
    let mut acc: usize = 1;
    let mut i: u32 = 0;
    while i < e
        invariant
            i <= e,
            acc == sat(power(b as nat, i as nat)),
        decreases e - i,
    {
        proof {
            lemma_sat_mul(power(b as nat, i as nat), b as nat);
        }
        acc = match acc.checked_mul(b) {
            Some(p) => p,
            None => usize::MAX,
        };
        i = i + 1;
    }
    acc
}

impl Expr {
    /// The canonical sum of `exprs`: nested sums are spliced in, constants are added
    /// (saturating at `usize::MAX`) into one leading constant kept only when it is
    /// non-zero, and the other items keep their order.
    pub fn new_add(exprs: Vec<Expr>) -> (r: Expr)
        ensures
            r@ == add_form(views(exprs@)),
    {
        let ghost items = views(exprs@);
        let mut rest = exprs;
        let mut final_exprs: Vec<Expr> = Vec::new();
        let mut constant: usize = 0;
        let ghost mut i: int = 0;
        proof {
            lemma_views(rest@);
            assert(items.subrange(0, 0) =~= Seq::<Form>::empty());
        }
        while rest.len() > 0
            invariant
                0 <= i <= items.len(),
                rest@.len() == items.len() - i,
                forall|j: int| 0 <= j < rest@.len() ==> #[trigger] rest@[j]@ == items[i + j],
                views(final_exprs@) == non_consts(flat_add(items.subrange(0, i))),
                constant == sat(const_sum(flat_add(items.subrange(0, i)))),
            decreases rest.len(),
        {
            let ghost done = flat_add(items.subrange(0, i));
            proof {
                lemma_flat_add_step(items, i);
            }
            let e = rest.remove(0);
            assert(e@ == items[i]);
            match e {
                Expr::Add(mut inner) => {
                    let ghost part = views(inner@);
                    let ghost mut j: int = 0;
                    proof {
                        assert(parts_add(items[i]) == part);
                        lemma_views(inner@);
                        assert(done + part.subrange(0, 0) =~= done);
                    }
                    while inner.len() > 0
                        invariant
                            0 <= j <= part.len(),
                            inner@.len() == part.len() - j,
                            forall|k: int|
                                0 <= k < inner@.len() ==> #[trigger] inner@[k]@ == part[j + k],
                            views(final_exprs@) == non_consts(done + part.subrange(0, j)),
                            constant == sat(const_sum(done + part.subrange(0, j))),
                        decreases inner.len(),
                    {
                        let x = inner.remove(0);
                        proof {
                            assert(done + part.subrange(0, j + 1) =~= (done + part.subrange(
                                0,
                                j,
                            )).push(x@));
                        }
                        absorb_add(
                            &mut final_exprs,
                            &mut constant,
                            x,
                            Ghost(done + part.subrange(0, j)),
                        );
                        proof {
                            j = j + 1;
                        }
                    }
                    proof {
                        assert(part.subrange(0, j) =~= part);
                    }
                },
                other => {
                    proof {
                        assert(parts_add(other@) == seq![other@]);
                        assert(done + parts_add(other@) =~= done.push(other@));
                    }
                    absorb_add(&mut final_exprs, &mut constant, other, Ghost(done));
                },
            }
            proof {
                i = i + 1;
            }
        }
        proof {
            assert(items.subrange(0, i) =~= items);
        }
        if constant != 0 {
            let lead = Term::new_const(constant);
            proof {
                lemma_views_prepend(final_exprs@, lead);
            }
            final_exprs.insert(0, lead);
        }
        Expr::Add(final_exprs)
    }

    /// The canonical product of `exprs`: the constant zero as soon as a flattened item
    /// is zero; otherwise nested products are spliced in, constants are multiplied
    /// (saturating at `usize::MAX`) into one leading constant kept only when it is not
    /// one, and the other items keep their order.
    pub fn new_mul(exprs: Vec<Expr>) -> (r: Expr)
        ensures
            r@ == mul_form(views(exprs@)),
    {
        let ghost items = views(exprs@);
        let mut rest = exprs;
        let mut final_exprs: Vec<Expr> = Vec::new();
        let mut coeff: usize = 1;
        let ghost mut i: int = 0;
        proof {
            lemma_views(rest@);
            assert(items.subrange(0, 0) =~= Seq::<Form>::empty());
        }
        while rest.len() > 0
            invariant
                0 <= i <= items.len(),
                rest@.len() == items.len() - i,
                forall|j: int| 0 <= j < rest@.len() ==> #[trigger] rest@[j]@ == items[i + j],
                views(final_exprs@) == non_consts(flat_mul(items.subrange(0, i))),
                coeff == sat(const_prod(flat_mul(items.subrange(0, i)))),
                !has_zero(flat_mul(items.subrange(0, i))),
                items == views(exprs@),
            decreases rest.len(),
        {
            let ghost done = flat_mul(items.subrange(0, i));
            proof {
                lemma_flat_mul_step(items, i);
                lemma_flat_mul_prefix(items, i + 1);
            }
            let e = rest.remove(0);
            assert(e@ == items[i]);
            match e {
                Expr::Mul(mut inner) => {
                    let ghost part = views(inner@);
                    let ghost mut j: int = 0;
                    proof {
                        assert(parts_mul(items[i]) == part);
                        lemma_views(inner@);
                        assert(done + part.subrange(0, 0) =~= done);
                    }
                    while inner.len() > 0
                        invariant
                            0 <= j <= part.len(),
                            0 <= i < items.len(),
                            items == views(exprs@),
                            flat_mul(items.subrange(0, i + 1)) == done + part,
                            inner@.len() == part.len() - j,
                            forall|k: int|
                                0 <= k < inner@.len() ==> #[trigger] inner@[k]@ == part[j + k],
                            views(final_exprs@) == non_consts(done + part.subrange(0, j)),
                            coeff == sat(const_prod(done + part.subrange(0, j))),
                            !has_zero(done + part.subrange(0, j)),
                        decreases inner.len(),
                    {
                        let x = inner.remove(0);
                        if is_zero(&x) {
                            proof {
                                let at = done.len() + j;
                                assert((done + part)[at] == x@);
                                lemma_flat_mul_prefix(items, i + 1);
                                assert(flat_mul(items)[at] == Form::Num(0));
                                assert(has_zero(flat_mul(items)));
                            assert(mul_form(items) == Form::Num(0));
                                assert(mul_form(items) == Form::Num(0));
                            }
                            return Term::new_const(0);
                        }
                        proof {
                            assert(done + part.subrange(0, j + 1) =~= (done + part.subrange(
                                0,
                                j,
                            )).push(x@));
                            lemma_no_zero_push(done + part.subrange(0, j), x@);
                        }
                        absorb_mul(
                            &mut final_exprs,
                            &mut coeff,
                            x,
                            Ghost(done + part.subrange(0, j)),
                        );
                        proof {
                            j = j + 1;
                        }
                    }
                    proof {
                        assert(part.subrange(0, j) =~= part);
                    }
                },
                other => {
                    proof {
                        assert(parts_mul(other@) == seq![other@]);
                        assert(done + parts_mul(other@) =~= done.push(other@));
                    }
                    if is_zero(&other) {
                        proof {
                            assert(flat_mul(items.subrange(0, i + 1))[done.len() as int]
                                == Form::Num(0));
                            assert(flat_mul(items)[done.len() as int] == Form::Num(0));
                            assert(has_zero(flat_mul(items)));
                            assert(mul_form(items) == Form::Num(0));
                        }
                        return Term::new_const(0);
                    }
                    proof {
                        lemma_no_zero_push(done, other@);
                    }
                    absorb_mul(&mut final_exprs, &mut coeff, other, Ghost(done));
                },
            }
            proof {
                i = i + 1;
            }
        }
        proof {
            assert(items.subrange(0, i) =~= items);
        }
        if coeff != 1 {
            let lead = Term::new_const(coeff);
            proof {
                lemma_views_prepend(final_exprs@, lead);
            }
            final_exprs.insert(0, lead);
        }
        Expr::Mul(final_exprs)
    }

    /// The canonical power: a constant base `b` gives the constant `b` to the `n`
    /// (saturating at `usize::MAX`); any other base is kept as a power.
    pub fn new_pow(expr: Expr, n: u32) -> (r: Expr)
        ensures
            r@ == pow_form(expr@, n as nat),
    {
        if let Expr::Term(Term::Const(b)) = expr {
            return Term::new_const(saturating_power(b, n));
        }
        Expr::Pow(Box::new(expr), n)
    }
}

} // verus!
