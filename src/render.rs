use vstd::prelude::*;
use crate::expr::{lemma_views, views, Expr, Term};
use crate::form::{decimal, digit_char, joined, text};

verus! {

/// The one-character text of the digit `d`.
fn digit_str(d: usize) -> (r: &'static str)
    requires
        d < 10,
    ensures
        r@ == seq![digit_char(d as nat)],
{
    proof {
        reveal_strlit("0");
        reveal_strlit("1");
        reveal_strlit("2");
        reveal_strlit("3");
        reveal_strlit("4");
        reveal_strlit("5");
        reveal_strlit("6");
        reveal_strlit("7");
        reveal_strlit("8");
        reveal_strlit("9");
    }
    if d == 0 {
        "0"
    } else if d == 1 {
        "1"
    } else if d == 2 {
        "2"
    } else if d == 3 {
        "3"
    } else if d == 4 {
        "4"
    } else if d == 5 {
        "5"
    } else if d == 6 {
        "6"
    } else if d == 7 {
        "7"
    } else if d == 8 {
        "8"
    } else {
        "9"
    }
}

/// Appends `n` in decimal to `out`.
fn write_decimal(out: &mut String, n: usize)
    ensures
        final(out)@ == old(out)@ + decimal(n as nat),
    decreases n,
{
    if n >= 10 {
        write_decimal(out, n / 10);
    }
    out.append(digit_str(n % 10));
    proof {
        if n >= 10 {
            assert(final(out)@ =~= old(out)@ + decimal(n as nat));
        }
    }
}

impl Term {
    /// The text of this leaf: a constant in decimal, a symbol by its name.
    pub fn render(&self) -> (r: String)
        ensures
            r@ == text(self@),
    {
        let mut out = String::new();
        match self {
            Term::Const(c) => write_decimal(&mut out, *c),
            Term::Symbol(s) => out.append(s.0.as_str()),
        }
        proof {
            assert(out@ =~= text(self@));
        }
        out
    }
}

impl Expr {
    /// The text of this expression: sum items joined by `" + "`, product items by
    /// `" * "` (an empty sum or product gives the empty text), a power as its base,
    /// `^` and its exponent, constants in decimal and symbols by name; no parentheses.
    pub fn render(&self) -> (r: String)
        ensures
            r@ == text(self@),
    {
        let mut out = String::new();
        self.write_to(&mut out);
        proof {
            assert(out@ =~= text(self@));
        }
        out
    }

    /// Appends the text of this expression to `out`.
    fn write_to(&self, out: &mut String)
        ensures
            final(out)@ == old(out)@ + text(self@),
        decreases self,
    {
        match self {
            Expr::Add(v) => {
                proof {
                    reveal_strlit(" + ");
                    assert(" + "@ =~= seq![' ', '+', ' ']);
                    lemma_views(v@);
                }
                write_joined(v, " + ", out);
            },
            Expr::Mul(v) => {
                proof {
                    reveal_strlit(" * ");
                    assert(" * "@ =~= seq![' ', '*', ' ']);
                    lemma_views(v@);
                }
                write_joined(v, " * ", out);
            },
            Expr::Pow(b, e) => {
                (**b).write_to(out);
                proof {
                    reveal_strlit("^");
                }
                out.append("^");
                write_decimal(out, *e as usize);
                proof {
                    assert(final(out)@ =~= old(out)@ + text(self@));
                }
            },
            Expr::Term(Term::Const(c)) => write_decimal(out, *c),
            Expr::Term(Term::Symbol(s)) => {
                out.append(s.0.as_str());
            },
        }
    }
}

/// Appends the texts of the expressions of `v` to `out`, separated by `sep`.
fn write_joined(v: &Vec<Expr>, sep: &str, out: &mut String)
    ensures
        final(out)@ == old(out)@ + joined(views(v@), sep@, v@.len() as int),
    decreases v, 0int,
{
    let ghost items = views(v@);
    let ghost start = out@;
    proof {
        lemma_views(v@);
    }
    let mut i: usize = 0;
    while i < v.len()
        invariant
            i <= v@.len(),
            items == views(v@),
            items.len() == v@.len(),
            forall|j: int| 0 <= j < v@.len() ==> #[trigger] items[j] == v@[j]@,
            out@ == start + joined(items, sep@, i as int),
        decreases v.len() - i,
    {
        if i > 0 {
            out.append(sep);
        }
        proof {
            assert(decreases_to!(*v => v[i as int]));
        }
        v[i].write_to(out);
        proof {
            if i == 0 {
                assert(out@ =~= start + joined(items, sep@, 1));
            } else {
                assert(out@ =~= start + joined(items, sep@, i + 1));
            }
        }
        i = i + 1;
    }
    proof {
        assert(start + joined(items, sep@, i as int) == start + joined(
            views(v@),
            sep@,
            v@.len() as int,
        ));
    }
}

} // verus!
