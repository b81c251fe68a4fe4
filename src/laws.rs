use vstd::prelude::*;
use crate::form::{
    add_form, const_prod, const_sum, deriv, deriv_each, flat_add, flat_mul, has_zero,
    lemma_flat_mul_prefix, lemma_flat_mul_step, lemma_sat_add, mul_form, non_consts, parts_add,
    parts_mul, pow_form, product_terms, sat, Form,
};

verus! {

/// Only the first item of `s` may be a constant.
pub open spec fn nums_only_first(s: Seq<Form>) -> bool {
    forall|i: int| 1 <= i < s.len() ==> !(#[trigger] s[i] is Num)
}

/// The items of a canonical sum: none is a sum, only the first may be a constant,
/// and that constant is non-zero and fits a `usize`.
pub open spec fn is_canonical_sum(items: Seq<Form>) -> bool {
    &&& forall|i: int| 0 <= i < items.len() ==> !(#[trigger] items[i] is Sum)
    &&& nums_only_first(items)
    &&& items.len() > 0 && items[0] is Num ==> 0 < items[0]->Num_0 <= usize::MAX
}

/// The items of a canonical product: none is a product, only the first may be a
/// constant, and that constant is neither zero nor one and fits a `usize`.
pub open spec fn is_canonical_prod(items: Seq<Form>) -> bool {
    &&& forall|i: int| 0 <= i < items.len() ==> !(#[trigger] items[i] is Prod)
    &&& nums_only_first(items)
    &&& items.len() > 0 && items[0] is Num ==> 1 < items[0]->Num_0 <= usize::MAX
}

/// A sum or product whose items have the canonical shape.
pub open spec fn top_canonical(f: Form) -> bool {
    &&& f is Sum ==> is_canonical_sum(f->Sum_0)
    &&& f is Prod ==> is_canonical_prod(f->Prod_0)
}

/// Constant sums and non-constant items split over concatenation.
proof fn lemma_const_sum_concat(x: Seq<Form>, y: Seq<Form>)
    ensures
        const_sum(x + y) == const_sum(x) + const_sum(y),
        non_consts(x + y) == non_consts(x) + non_consts(y),
    decreases y.len(),
{
    if y.len() == 0 {
        assert(x + y =~= x);
        assert(non_consts(x) + non_consts(y) =~= non_consts(x));
    } else {
        lemma_const_sum_concat(x, y.drop_last());
        assert((x + y).drop_last() =~= x + y.drop_last());
        assert((x + y).last() == y.last());
        assert(non_consts(x + y) =~= non_consts(x) + non_consts(y));
    }
}

/// The non-constant items hold no constants.
proof fn lemma_non_consts_of_non_consts(x: Seq<Form>)
    ensures
        const_sum(non_consts(x)) == 0,
        non_consts(non_consts(x)) == non_consts(x),
    decreases x.len(),
{
    if x.len() > 0 {
        lemma_non_consts_of_non_consts(x.drop_last());
        let n = non_consts(x.drop_last());
        if !(x.last() is Num) {
            assert(n.push(x.last()).drop_last() =~= n);
        }
    }
}

/// Flattening operands none of which is a sum changes nothing.
proof fn lemma_flat_add_plain(s: Seq<Form>)
    requires
        forall|i: int| 0 <= i < s.len() ==> !(#[trigger] s[i] is Sum),
    ensures
        flat_add(s) == s,
    decreases s.len(),
{
    if s.len() > 0 {
        lemma_flat_add_plain(s.drop_last());
        assert(!(s[s.len() - 1] is Sum));
        assert(flat_add(s) =~= s);
    }
}

/// Flattening operands none of which is a product changes nothing.
proof fn lemma_flat_mul_plain(s: Seq<Form>)
    requires
        forall|i: int| 0 <= i < s.len() ==> !(#[trigger] s[i] is Prod),
    ensures
        flat_mul(s) == s,
    decreases s.len(),
{
    if s.len() > 0 {
        lemma_flat_mul_plain(s.drop_last());
        assert(!(s[s.len() - 1] is Prod));
        assert(flat_mul(s) =~= s);
    }
}

/// The folds of the empty sequence.
proof fn lemma_empty_folds()
    ensures
        const_sum(Seq::<Form>::empty()) == 0,
        const_prod(Seq::<Form>::empty()) == 1,
        non_consts(Seq::<Form>::empty()) == Seq::<Form>::empty(),
{
}

/// Where only the first item may be a constant, the constants add and multiply to
/// that item's value, and the other items are all the rest.
proof fn lemma_leading_constant(s: Seq<Form>)
    requires
        nums_only_first(s),
    ensures
        const_sum(s) == (if s.len() > 0 && s[0] is Num { s[0]->Num_0 } else { 0 }),
        const_prod(s) == (if s.len() > 0 && s[0] is Num { s[0]->Num_0 } else { 1 }),
        non_consts(s) == (if s.len() > 0 && s[0] is Num { s.drop_first() } else { s }),
    decreases s.len(),
{
    if s.len() == 1 {
        assert(s.drop_last() =~= Seq::<Form>::empty());
        assert(s.drop_first() =~= Seq::<Form>::empty());
        assert(Seq::<Form>::empty().push(s[0]) =~= s);
        assert(s.last() == s[0]);
        lemma_empty_folds();
        if s[0] is Num {
            let v = s[0]->Num_0;
            assert(const_prod(s) == 1 * v);
        }
    } else if s.len() > 1 {
        let p = s.drop_last();
        assert(nums_only_first(p)) by {
            assert forall|i: int| 1 <= i < p.len() implies !(#[trigger] p[i] is Num) by {
                assert(p[i] == s[i]);
            }
        }
        lemma_leading_constant(p);
        assert(!(s[s.len() - 1] is Num));
        assert(p[0] == s[0]);
        assert(const_prod(s) == const_prod(p) * 1);
        if s[0] is Num {
            assert(p.drop_first().push(s.last()) =~= s.drop_first());
        } else {
            assert(p.push(s.last()) =~= s);
        }
    }
}

/// The non-constant items are no constants, and keep the absence of sums or products.
proof fn lemma_non_consts_shape(f: Seq<Form>)
    ensures
        forall|j: int| 0 <= j < non_consts(f).len() ==> !(#[trigger] non_consts(f)[j] is Num),
        (forall|k: int| 0 <= k < f.len() ==> !(#[trigger] f[k] is Sum)) ==> forall|j: int|
            0 <= j < non_consts(f).len() ==> !(#[trigger] non_consts(f)[j] is Sum),
        (forall|k: int| 0 <= k < f.len() ==> !(#[trigger] f[k] is Prod)) ==> forall|j: int|
            0 <= j < non_consts(f).len() ==> !(#[trigger] non_consts(f)[j] is Prod),
    decreases f.len(),
{
    if f.len() > 0 {
        let p = f.drop_last();
        lemma_non_consts_shape(p);
        assert forall|k: int| 0 <= k < p.len() implies #[trigger] p[k] == f[k] by {}
        assert(f.last() == f[f.len() - 1]);
    }
}

/// Flattening operands whose sums hold no sums gives no sum.
proof fn lemma_flat_add_shape(s: Seq<Form>)
    requires
        forall|i: int|
            0 <= i < s.len() && (#[trigger] s[i]) is Sum ==> forall|k: int|
                0 <= k < s[i]->Sum_0.len() ==> !(#[trigger] s[i]->Sum_0[k] is Sum),
    ensures
        forall|j: int| 0 <= j < flat_add(s).len() ==> !(#[trigger] flat_add(s)[j] is Sum),
    decreases s.len(),
{
    if s.len() > 0 {
        let p = s.drop_last();
        assert forall|i: int| 0 <= i < p.len() implies #[trigger] p[i] == s[i] by {}
        lemma_flat_add_shape(p);
        let last = s[s.len() - 1];
        assert(s.last() == last);
        let a = flat_add(p);
        let b = parts_add(last);
        assert forall|j: int| 0 <= j < flat_add(s).len() implies !(
        #[trigger] flat_add(s)[j] is Sum) by {
            if j >= a.len() {
                assert(flat_add(s)[j] == b[j - a.len()]);
            } else {
                assert(flat_add(s)[j] == a[j]);
            }
        }
    }
}

/// Flattening operands whose products hold no products gives no product.
proof fn lemma_flat_mul_shape(s: Seq<Form>)
    requires
        forall|i: int|
            0 <= i < s.len() && (#[trigger] s[i]) is Prod ==> forall|k: int|
                0 <= k < s[i]->Prod_0.len() ==> !(#[trigger] s[i]->Prod_0[k] is Prod),
    ensures
        forall|j: int| 0 <= j < flat_mul(s).len() ==> !(#[trigger] flat_mul(s)[j] is Prod),
    decreases s.len(),
{
    if s.len() > 0 {
        let p = s.drop_last();
        assert forall|i: int| 0 <= i < p.len() implies #[trigger] p[i] == s[i] by {}
        lemma_flat_mul_shape(p);
        let last = s[s.len() - 1];
        assert(s.last() == last);
        let a = flat_mul(p);
        let b = parts_mul(last);
        assert forall|j: int| 0 <= j < flat_mul(s).len() implies !(
        #[trigger] flat_mul(s)[j] is Prod) by {
            if j >= a.len() {
                assert(flat_mul(s)[j] == b[j - a.len()]);
            } else {
                assert(flat_mul(s)[j] == a[j]);
            }
        }
    }
}

/// Without a zero, the constants multiply to a positive number.
proof fn lemma_const_prod_positive(f: Seq<Form>)
    requires
        !has_zero(f),
    ensures
        const_prod(f) > 0,
    decreases f.len(),
{
    if f.len() > 0 {
        let p = f.drop_last();
        assert(!has_zero(p)) by {
            assert forall|i: int| 0 <= i < p.len() implies p[i] != Form::Num(0) by {
                assert(p[i] == f[i]);
            }
        }
        lemma_const_prod_positive(p);
        assert(f.last() == f[f.len() - 1]);
        let m: nat = match f.last() {
            Form::Num(n) => n,
            _ => 1,
        };
        assert(m > 0);
        assert(const_prod(p) * m > 0) by (nonlinear_arith)
            requires
                const_prod(p) > 0,
                m > 0,
        ;
    }
}

/// A leading constant before non-constant items is the only constant.
proof fn lemma_lead_and_rest(c: nat, rest: Seq<Form>)
    requires
        forall|j: int| 0 <= j < rest.len() ==> !(#[trigger] rest[j] is Num),
    ensures
        nums_only_first(seq![Form::Num(c)] + rest),
        nums_only_first(rest),
{
    let t = seq![Form::Num(c)] + rest;
    assert forall|i: int| 1 <= i < t.len() implies !(#[trigger] t[i] is Num) by {
        assert(t[i] == rest[i - 1]);
    }
}

/// A sum built from operands whose own sums are canonical is canonical: no item is a
/// sum, and only a leading non-zero constant that fits a `usize` may be a constant.
pub proof fn lemma_add_canonical(s: Seq<Form>)
    requires
        forall|i: int|
            0 <= i < s.len() && (#[trigger] s[i]) is Sum ==> is_canonical_sum(s[i]->Sum_0),
    ensures
        add_form(s) is Sum,
        is_canonical_sum(add_form(s)->Sum_0),
{
    let f = flat_add(s);
    lemma_flat_add_shape(s);
    lemma_non_consts_shape(f);
    let rest = non_consts(f);
    let c = sat(const_sum(f));
    lemma_lead_and_rest(c, rest);
    if c != 0 {
        let t = seq![Form::Num(c)] + rest;
        assert forall|i: int| 0 <= i < t.len() implies !(#[trigger] t[i] is Sum) by {
            if i > 0 {
                assert(t[i] == rest[i - 1]);
            }
        }
    }
}

/// A product built from operands whose own products are canonical is either the
/// constant zero or canonical: no item is a product, and only a leading constant
/// other than zero and one that fits a `usize` may be a constant.
pub proof fn lemma_mul_canonical(s: Seq<Form>)
    requires
        forall|i: int|
            0 <= i < s.len() && (#[trigger] s[i]) is Prod ==> is_canonical_prod(s[i]->Prod_0),
    ensures
        mul_form(s) == Form::Num(0) || (mul_form(s) is Prod && is_canonical_prod(
            mul_form(s)->Prod_0,
        )),
{
    let f = flat_mul(s);
    lemma_flat_mul_shape(s);
    lemma_non_consts_shape(f);
    let rest = non_consts(f);
    let c = sat(const_prod(f));
    lemma_lead_and_rest(c, rest);
    if !has_zero(f) {
        lemma_const_prod_positive(f);
        if c != 1 {
            let t = seq![Form::Num(c)] + rest;
            assert forall|i: int| 0 <= i < t.len() implies !(#[trigger] t[i] is Prod) by {
                if i > 0 {
                    assert(t[i] == rest[i - 1]);
                }
            }
        }
    }
}

/// Adding a sum of `a` and `b` to `c` gives the same canonical sum as adding `a`,
/// `b` and `c` at once.
pub proof fn lemma_add_nested_flattens(a: Form, b: Form, c: Form)
    ensures
        add_form(seq![add_form(seq![a, b]), c]) == add_form(seq![a, b, c]),
{
    let ab = seq![a, b];
    let abc = seq![a, b, c];
    let f = flat_add(ab);
    let k = sat(const_sum(f));
    let inner = add_form(ab);
    let lead: Seq<Form> = if k == 0 { Seq::empty() } else { seq![Form::Num(k)] };
    assert(inner == Form::Sum(lead + non_consts(f))) by {
        if k == 0 {
            assert(lead + non_consts(f) =~= non_consts(f));
        }
    }
    assert(abc.drop_last() =~= ab);
    assert(flat_add(abc) == f + parts_add(c));
    let outer = seq![inner, c];
    assert(outer.drop_last() =~= seq![inner]);
    assert(seq![inner].drop_last() =~= Seq::<Form>::empty());
    assert(parts_add(inner) == lead + non_consts(f));
    assert(flat_add(seq![inner]) == flat_add(Seq::<Form>::empty()) + parts_add(inner));
    assert(flat_add(seq![inner]) =~= lead + non_consts(f));
    assert(flat_add(outer) == (lead + non_consts(f)) + parts_add(c));
    lemma_const_sum_concat(lead + non_consts(f), parts_add(c));
    lemma_const_sum_concat(lead, non_consts(f));
    lemma_const_sum_concat(f, parts_add(c));
    lemma_non_consts_of_non_consts(f);
    if k != 0 {
        assert(lead.drop_last() =~= Seq::<Form>::empty());
        assert(lead.last() == Form::Num(k));
        lemma_empty_folds();
        assert(const_sum(lead) == k);
        assert(non_consts(lead) =~= Seq::<Form>::empty());
    } else {
        assert(non_consts(lead) =~= Seq::<Form>::empty());
    }
    assert(non_consts(lead) + non_consts(non_consts(f)) =~= non_consts(f));
    lemma_sat_add(const_sum(f), const_sum(parts_add(c)));
}

/// Summing the items of a canonical sum again gives that same sum.
pub proof fn lemma_add_renormalizes(items: Seq<Form>)
    requires
        is_canonical_sum(items),
    ensures
        add_form(items) == Form::Sum(items),
{
    lemma_flat_add_plain(items);
    lemma_leading_constant(items);
    if items.len() > 0 && items[0] is Num {
        assert(seq![items[0]] + items.drop_first() =~= items);
    }
}

/// Multiplying the items of a canonical product again gives that same product.
pub proof fn lemma_mul_renormalizes(items: Seq<Form>)
    requires
        is_canonical_prod(items),
    ensures
        mul_form(items) == Form::Prod(items),
{
    lemma_flat_mul_plain(items);
    lemma_leading_constant(items);
    assert(!has_zero(items)) by {
        assert forall|i: int| 0 <= i < items.len() implies items[i] != Form::Num(0) by {
            if i > 0 {
                assert(!(items[i] is Num));
            }
        }
    }
    if items.len() > 0 && items[0] is Num {
        assert(seq![items[0]] + items.drop_first() =~= items);
    }
}

/// A product with a zero factor is the constant zero, whatever the other factors.
pub proof fn lemma_mul_zero_absorbs(s: Seq<Form>, i: int)
    requires
        0 <= i < s.len(),
        s[i] == Form::Num(0),
    ensures
        mul_form(s) == Form::Num(0),
{
    lemma_flat_mul_step(s, i);
    lemma_flat_mul_prefix(s, i + 1);
    let at = flat_mul(s.subrange(0, i)).len() as int;
    assert(parts_mul(s[i]) == seq![Form::Num(0)]);
    assert(flat_mul(s.subrange(0, i + 1))[at] == Form::Num(0));
    assert(flat_mul(s)[at] == Form::Num(0));
    assert(has_zero(flat_mul(s)));
}

/// The derivatives of items are canonical at the top.
proof fn lemma_deriv_each_canonical(s: Seq<Form>, x: Seq<char>, k: int)
    requires
        0 <= k <= s.len(),
    ensures
        deriv_each(s, x, k).len() == k,
        forall|i: int| 0 <= i < k ==> top_canonical(#[trigger] deriv_each(s, x, k)[i]),
    decreases s, k,
{
    if k > 0 {
        lemma_deriv_each_canonical(s, x, k - 1);
        lemma_deriv_canonical(s[k - 1], x);
        let p = deriv_each(s, x, k - 1);
        assert forall|i: int| 0 <= i < k implies top_canonical(
            #[trigger] deriv_each(s, x, k)[i],
        ) by {
            if i < k - 1 {
                assert(deriv_each(s, x, k)[i] == p[i]);
            }
        }
    }
}

/// The product rule's terms are products or constants, never sums.
proof fn lemma_product_terms_shape(s: Seq<Form>, x: Seq<char>, k: int)
    requires
        0 <= k <= s.len(),
    ensures
        product_terms(s, x, k).len() == k,
        forall|i: int| 0 <= i < k ==> !(#[trigger] product_terms(s, x, k)[i] is Sum),
    decreases k,
{
    if k > 0 {
        lemma_product_terms_shape(s, x, k - 1);
        let p = product_terms(s, x, k - 1);
        assert forall|i: int| 0 <= i < k implies !(#[trigger] product_terms(s, x, k)[i] is Sum) by {
            if i < k - 1 {
                assert(product_terms(s, x, k)[i] == p[i]);
            }
        }
    }
}

/// A derivative is canonical at the top: a derived sum or product has the canonical
/// shape.
pub proof fn lemma_deriv_canonical(f: Form, x: Seq<char>)
    ensures
        top_canonical(deriv(f, x)),
    decreases f, 0int,
{
    match f {
        Form::Sum(items) => {
            let d = deriv_each(items, x, items.len() as int);
            lemma_deriv_each_canonical(items, x, items.len() as int);
            lemma_add_canonical(d);
        },
        Form::Prod(items) => {
            let t = product_terms(items, x, items.len() as int);
            lemma_product_terms_shape(items, x, items.len() as int);
            lemma_add_canonical(t);
        },
        Form::Power(b, n) => {
            if n != 0 {
                lemma_deriv_canonical(*b, x);
                let t = seq![Form::Num(n), pow_form(*b, (n - 1) as nat), deriv(*b, x)];
                assert forall|i: int| 0 <= i < t.len() && (#[trigger] t[i]) is Prod implies
                    is_canonical_prod(t[i]->Prod_0) by {
                    assert(i == 2);
                }
                lemma_mul_canonical(t);
            }
        },
        _ => {},
    }
}

} // verus!
