use vstd::prelude::*;
use crate::expr::{lemma_views, lemma_views_push, views, Expr, Symbol, Term};
use crate::form::{deriv, deriv_each, product_terms, Form};
use crate::laws::{lemma_deriv_canonical, top_canonical};

verus! {

impl Symbol {
    /// One when `wrt` is this symbol, zero otherwise.
    pub fn derive(self, wrt: &Symbol) -> (r: Expr)
        ensures
            r@ == Form::Num(if self@ == wrt@ { 1 } else { 0 }),
    {
        if self.0 == wrt.0 {
            Term::new_const(1)
        } else {
            Term::new_const(0)
        }
    }

    /// A copy of this symbol.
    pub fn duplicate(&self) -> (r: Symbol)
        ensures
            r@ == self@,
    {
        Symbol(self.0.clone())
    }
}

impl Term {
    /// The derivative of this leaf with respect to `wrt`.
    pub fn derive(self, wrt: &Symbol) -> (r: Expr)
        ensures
            r@ == deriv(self@, wrt@),
    {
        match self {
            Term::Const(_) => Term::new_const(0),
            Term::Symbol(s) => s.derive(wrt),
        }
    }
}

impl Expr {
    /// A copy of this expression, node for node.
    pub fn duplicate(&self) -> (r: Expr)
        ensures
            r@ == self@,
        decreases self,
    {
        match self {
            Expr::Add(v) => Expr::Add(duplicate_all(v)),
            Expr::Mul(v) => Expr::Mul(duplicate_all(v)),
            Expr::Pow(b, n) => Expr::Pow(Box::new((**b).duplicate()), *n),
            Expr::Term(Term::Const(c)) => Expr::Term(Term::Const(*c)),
            Expr::Term(Term::Symbol(s)) => Expr::Term(Term::Symbol(s.duplicate())),
        }
    }

    /// The derivative with respect to `wrt`: sums are differentiated item by item,
    /// products by the n-ary product rule, powers by the chain rule (a zeroth power
    /// gives zero), and every combination goes through the canonical constructors.
    pub fn derive(&self, wrt: &Symbol) -> (r: Expr)
        ensures
            r@ == deriv(self@, wrt@),
            top_canonical(r@),
        decreases self,
    {
        proof {
            lemma_deriv_canonical(self@, wrt@);
        }
        match self {
            Expr::Add(exprs) => {
                let ghost items = views(exprs@);
                let mut terms: Vec<Expr> = Vec::new();
                let mut i: usize = 0;
                proof {
                    lemma_views(exprs@);
                }
                while i < exprs.len()
                    invariant
                        i <= exprs@.len(),
                        *self == Expr::Add(*exprs),
                        items == views(exprs@),
                        items.len() == exprs@.len(),
                        forall|j: int| 0 <= j < exprs@.len() ==> #[trigger] items[j] == exprs@[j]@,
                        views(terms@) == deriv_each(items, wrt@, i as int),
                    decreases exprs.len() - i,
                {
                    proof {
                        assert(decreases_to!(*exprs => exprs[i as int]));
                        assert(decreases_to!(*self => self->Add_0));
                        assert(decreases_to!(self => exprs[i as int]));
                    }
                    let d = exprs[i].derive(wrt);
                    proof {
                        lemma_views_push(terms@, d);
                    }
                    terms.push(d);
                    i = i + 1;
                }
                Expr::new_add(terms)
            },
            Expr::Mul(exprs) => {
                let ghost items = views(exprs@);
                let n = exprs.len();
                let mut terms: Vec<Expr> = Vec::new();
                let mut i: usize = 0;
                proof {
                    lemma_views(exprs@);
                }
                while i < n
                    invariant
                        n == exprs@.len(),
                        *self == Expr::Mul(*exprs),
                        i <= n,
                        items == views(exprs@),
                        items.len() == n,
                        forall|j: int| 0 <= j < n ==> #[trigger] items[j] == exprs@[j]@,
                        views(terms@) == product_terms(items, wrt@, i as int),
                    decreases n - i,
                {
                    let ghost target = items.update(i as int, deriv(items[i as int], wrt@));
                    let mut factors: Vec<Expr> = Vec::new();
                    let mut k: usize = 0;
                    while k < n
                        invariant
                            n == exprs@.len(),
                            *self == Expr::Mul(*exprs),
                            i < n,
                            k <= n,
                            items.len() == n,
                            forall|j: int| 0 <= j < n ==> #[trigger] items[j] == exprs@[j]@,
                            target == items.update(i as int, deriv(items[i as int], wrt@)),
                            views(factors@) == target.subrange(0, k as int),
                        decreases n - k,
                    {
                        let f = if k == i {
                            proof {
                                assert(decreases_to!(*exprs => exprs[k as int]));
                                assert(decreases_to!(*self => self->Mul_0));
                                assert(decreases_to!(self => exprs[k as int]));
                            }
                            exprs[k].derive(wrt)
                        } else {
                            exprs[k].duplicate()
                        };
                        proof {
                            lemma_views_push(factors@, f);
                            assert(target.subrange(0, k + 1) =~= target.subrange(0, k as int).push(
                                f@,
                            ));
                        }
                        factors.push(f);
                        k = k + 1;
                    }
                    proof {
                        assert(target.subrange(0, n as int) =~= target);
                    }
                    let t = Expr::new_mul(factors);
                    proof {
                        lemma_views_push(terms@, t);
                    }
                    terms.push(t);
                    i = i + 1;
                }
                Expr::new_add(terms)
            },
            Expr::Pow(b, c) => {
                if *c == 0 {
                    return Term::new_const(0);
                }
                let mut factors: Vec<Expr> = Vec::new();
                let k = Term::new_const(*c as usize);
                let p = Expr::new_pow((**b).duplicate(), *c - 1);
                let d = (**b).derive(wrt);
                proof {
                    lemma_views_push(factors@, k);
                }
                factors.push(k);
                proof {
                    lemma_views_push(factors@, p);
                }
                factors.push(p);
                proof {
                    lemma_views_push(factors@, d);
                }
                factors.push(d);
                proof {
                    assert(views(factors@) =~= seq![k@, p@, d@]);
                }
                Expr::new_mul(factors)
            },
            Expr::Term(t) => match t {
                Term::Const(_) => Term::new_const(0),
                Term::Symbol(s) => s.duplicate().derive(wrt),
            },
        }
    }
}

/// Copies of the expressions of `v`, in order.
fn duplicate_all(v: &Vec<Expr>) -> (r: Vec<Expr>)
    ensures
        views(r@) == views(v@),
    decreases v, 0int,
{
    let mut out: Vec<Expr> = Vec::new();
    let mut i: usize = 0;
    proof {
        lemma_views(v@);
        lemma_views(out@);
    }
    while i < v.len()
        invariant
            i <= v@.len(),
            out@.len() == i,
            forall|j: int| 0 <= j < i ==> #[trigger] out@[j]@ == v@[j]@,
        decreases v.len() - i,
    {
        let d = v[i].duplicate();
        out.push(d);
        i = i + 1;
    }
    proof {
        lemma_views(v@);
        lemma_views(out@);
        assert(views(out@) =~= views(v@));
    }
    out
}

} // verus!
