//! What holds of the library whatever it is applied to: degrees, selectors, gates, lookups and
//! queries.

use vstd::prelude::*;

use crate::column::{Advice, Any, Column, Fixed, Instance};
use crate::compress_selectors;
use crate::compress_selectors::SelectorAssignment;
use crate::constraint_system;
use crate::constraint_system::{ConstraintSystem, TableColumn};
use crate::curve::CurveAffine;
use crate::expression;
use crate::expression::{Expression, Selector};
use crate::gate;
use crate::gate::{Constraint, Constraints, IntoConstraint, IntoConstraints};
use crate::list;
use crate::lookup;
use crate::rotation::Rotation;
use crate::verifying_key::VerifyingKey;

verus! {

// ---------------------------------------------------------------------------------
// Expressions
// ---------------------------------------------------------------------------------

/// The degree of a sum is the larger of the degrees of its operands: it bounds both, and
/// whatever bounds both bounds it.
pub proof fn lemma_degree_of_sum<F: Copy>(a: Expression<F>, b: Expression<F>, bound: nat)
    ensures
        a.degree_spec() <= vstd::std_specs::ops::AddSpec::add_spec(a, b).degree_spec(),
        b.degree_spec() <= vstd::std_specs::ops::AddSpec::add_spec(a, b).degree_spec(),
        a.degree_spec() <= bound && b.degree_spec() <= bound
            ==> vstd::std_specs::ops::AddSpec::add_spec(a, b).degree_spec() <= bound,
        a.degree_spec() <= vstd::std_specs::ops::SubSpec::sub_spec(a, b).degree_spec(),
        b.degree_spec() <= vstd::std_specs::ops::SubSpec::sub_spec(a, b).degree_spec(),
        a.degree_spec() <= bound && b.degree_spec() <= bound
            ==> vstd::std_specs::ops::SubSpec::sub_spec(a, b).degree_spec() <= bound,
        a.degree_spec() <= bound && b.degree_spec() <= bound ==> Expression::Sum(
            Box::new(a),
            Box::new(b),
        ).degree_spec() <= bound,
{
    reveal_with_fuel(Expression::degree_spec, 3);
}

/// The degree of a product is the sum of the degrees of its factors. Negation and scaling keep
/// the degree.
pub proof fn lemma_degree_of_product<F: Copy>(a: Expression<F>, b: Expression<F>, f: F)
    ensures
        vstd::std_specs::ops::MulSpec::mul_spec(a, b).degree_spec() == a.degree_spec()
            + b.degree_spec(),
        Expression::Product(Box::new(a), Box::new(b)).degree_spec() == a.degree_spec()
            + b.degree_spec(),
        vstd::std_specs::ops::MulSpec::mul_spec(a, f).degree_spec() == a.degree_spec(),
        Expression::Scaled(Box::new(a), f).degree_spec() == a.degree_spec(),
        vstd::std_specs::ops::NegSpec::neg_spec(a).degree_spec() == a.degree_spec(),
        Expression::Negated(Box::new(a)).degree_spec() == a.degree_spec(),
{
}

/// A constant has degree zero, and whatever is neither a constant nor made of other expressions
/// has degree one.
pub proof fn lemma_degree_of_leaf<F>(e: Expression<F>)
    ensures
        e is Constant ==> e.degree_spec() == 0,
        e is Selector || e is Fixed || e is Advice || e is Instance ==> e.degree_spec() == 1,
{
}

/// The degree says how large the degree of the value of an expression can get, wherever values
/// have degrees: if selectors and queries stand for values of degree `d` at most, an expression
/// stands for a value whose degree is `d` times the degree of the expression at most.
pub proof fn lemma_degree_bounds_values<F, T>(
    e: Expression<F>,
    alg: expression::Algebra<F, T>,
    degree: spec_fn(T) -> nat,
    d: nat,
)
    requires
        forall|v: F| #[trigger] degree((alg.constant)(v)) == 0,
        forall|s: Selector| #[trigger] degree((alg.selector)(s)) <= d,
        forall|q: expression::FixedQuery| #[trigger] degree((alg.fixed)(q)) <= d,
        forall|q: expression::AdviceQuery| #[trigger] degree((alg.advice)(q)) <= d,
        forall|q: expression::InstanceQuery| #[trigger] degree((alg.instance)(q)) <= d,
        forall|a: T| #[trigger] degree((alg.negated)(a)) <= degree(a),
        forall|a: T, b: T| #[trigger]
            degree((alg.sum)(a, b)) <= degree(a) || degree((alg.sum)(a, b)) <= degree(b),
        forall|a: T, b: T| #[trigger] degree((alg.product)(a, b)) <= degree(a) + degree(b),
        forall|a: T, f: F| #[trigger] degree((alg.scaled)(a, f)) <= degree(a),
    ensures
        degree(expression::meaning(e, alg)) <= d * e.degree_spec(),
    decreases e,
{
    assert(d * 0 == 0 && d * 1 == d) by (nonlinear_arith);
    match e {
        Expression::Negated(a) => {
            lemma_degree_bounds_values(*a, alg, degree, d);
        },
        Expression::Sum(a, b) => {
            lemma_degree_bounds_values(*a, alg, degree, d);
            lemma_degree_bounds_values(*b, alg, degree, d);
            let (m, n, k) = (a.degree_spec(), b.degree_spec(), e.degree_spec());
            assert(d * m <= d * k && d * n <= d * k) by (nonlinear_arith)
                requires
                    m <= k,
                    n <= k,
            ;
        },
        Expression::Product(a, b) => {
            lemma_degree_bounds_values(*a, alg, degree, d);
            lemma_degree_bounds_values(*b, alg, degree, d);
            let (m, n) = (a.degree_spec(), b.degree_spec());
            assert(d * (m + n) == d * m + d * n) by (nonlinear_arith);
        },
        Expression::Scaled(a, _) => {
            lemma_degree_bounds_values(*a, alg, degree, d);
        },
        _ => {},
    }
}

/// The operators build expressions that mean what they say: a sum, a difference, a product, a
/// scaling and a negation of the meanings of their operands.
pub proof fn lemma_operators_mean<F: Copy, T>(
    a: Expression<F>,
    b: Expression<F>,
    f: F,
    alg: expression::Algebra<F, T>,
)
    ensures
        expression::meaning(vstd::std_specs::ops::AddSpec::add_spec(a, b), alg) == (alg.sum)(
            expression::meaning(a, alg),
            expression::meaning(b, alg),
        ),
        expression::meaning(vstd::std_specs::ops::SubSpec::sub_spec(a, b), alg) == (alg.sum)(
            expression::meaning(a, alg),
            (alg.negated)(expression::meaning(b, alg)),
        ),
        expression::meaning(vstd::std_specs::ops::MulSpec::mul_spec(a, b), alg) == (alg.product)(
            expression::meaning(a, alg),
            expression::meaning(b, alg),
        ),
        expression::meaning(vstd::std_specs::ops::MulSpec::mul_spec(a, f), alg) == (alg.scaled)(
            expression::meaning(a, alg),
            f,
        ),
        expression::meaning(vstd::std_specs::ops::NegSpec::neg_spec(a), alg) == (alg.negated)(
            expression::meaning(a, alg),
        ),
{
    reveal_with_fuel(expression::meaning, 3);
}

/// The meaning of an expression goes through it once, operand by operand and from left to
/// right, and gives each part the meaning of its kind.
pub proof fn lemma_meaning_of_parts<F, T>(e: Expression<F>, alg: expression::Algebra<F, T>)
    ensures
        match e {
            Expression::Constant(v) => expression::meaning(e, alg) == (alg.constant)(v),
            Expression::Selector(s) => expression::meaning(e, alg) == (alg.selector)(s),
            Expression::Fixed(q) => expression::meaning(e, alg) == (alg.fixed)(q),
            Expression::Advice(q) => expression::meaning(e, alg) == (alg.advice)(q),
            Expression::Instance(q) => expression::meaning(e, alg) == (alg.instance)(q),
            Expression::Negated(a) => expression::meaning(e, alg) == (alg.negated)(
                expression::meaning(*a, alg),
            ),
            Expression::Sum(a, b) => expression::meaning(e, alg) == (alg.sum)(
                expression::meaning(*a, alg),
                expression::meaning(*b, alg),
            ),
            Expression::Product(a, b) => expression::meaning(e, alg) == (alg.product)(
                expression::meaning(*a, alg),
                expression::meaning(*b, alg),
            ),
            Expression::Scaled(a, f) => expression::meaning(e, alg) == (alg.scaled)(
                expression::meaning(*a, alg),
                f,
            ),
        },
{
}

/// The simple selectors of an expression are those of its selectors that are simple, in the
/// same order.
pub proof fn lemma_simple_selectors_filtered<F>(e: Expression<F>)
    ensures
        e.simple_selectors() == e.selectors().filter(|s: Selector| s.1),
    decreases e,
{
    let simple = |s: Selector| s.1;
    match e {
        Expression::Selector(selector) => {
            assert(e.selectors().drop_last() =~= seq![]);
            reveal_with_fuel(Seq::filter, 2);
            assert(e.simple_selectors() =~= e.selectors().filter(simple));
        },
        Expression::Negated(a) => {
            lemma_simple_selectors_filtered(*a);
        },
        Expression::Sum(a, b) => {
            lemma_simple_selectors_filtered(*a);
            lemma_simple_selectors_filtered(*b);
            Seq::filter_distributes_over_add(a.selectors(), b.selectors(), simple);
        },
        Expression::Product(a, b) => {
            lemma_simple_selectors_filtered(*a);
            lemma_simple_selectors_filtered(*b);
            Seq::filter_distributes_over_add(a.selectors(), b.selectors(), simple);
        },
        Expression::Scaled(a, _) => {
            lemma_simple_selectors_filtered(*a);
        },
        _ => {
            reveal_with_fuel(Seq::filter, 1);
            assert(e.simple_selectors() =~= e.selectors().filter(simple));
        },
    }
}

/// The meaning of an expression depends on the meanings of its selectors alone among all
/// selectors: where two meanings agree on them and on all else, the expression means the same.
pub proof fn lemma_selectors_suffice<F, T>(
    e: Expression<F>,
    a: expression::Algebra<F, T>,
    selector: spec_fn(Selector) -> T,
)
    requires
        forall|s: Selector| #[trigger]
            e.selectors().contains(s) ==> selector(s) == (a.selector)(s),
    ensures
        expression::meaning(e, a) == expression::meaning(
            e,
            expression::Algebra { selector, ..a },
        ),
    decreases e,
{
    match e {
        Expression::Selector(s) => {
            assert(e.selectors()[0] == s);
            assert(e.selectors().contains(s));
        },
        Expression::Negated(x) => {
            assert(e.selectors() == x.selectors());
            lemma_selectors_suffice(*x, a, selector);
        },
        Expression::Sum(x, y) => {
            assert(e.selectors() == x.selectors() + y.selectors());
            lemma_contained(x.selectors(), y.selectors());
            lemma_selectors_suffice(*x, a, selector);
            lemma_selectors_suffice(*y, a, selector);
        },
        Expression::Product(x, y) => {
            assert(e.selectors() == x.selectors() + y.selectors());
            lemma_contained(x.selectors(), y.selectors());
            lemma_selectors_suffice(*x, a, selector);
            lemma_selectors_suffice(*y, a, selector);
        },
        Expression::Scaled(x, _) => {
            assert(e.selectors() == x.selectors());
            lemma_selectors_suffice(*x, a, selector);
        },
        _ => {},
    }
}

/// What stands in one of two lists stands in both together.
proof fn lemma_contained<T>(a: Seq<T>, b: Seq<T>)
    ensures
        forall|x: T| #[trigger] a.contains(x) ==> (a + b).contains(x),
        forall|x: T| #[trigger] b.contains(x) ==> (a + b).contains(x),
{
    assert forall|x: T| #[trigger] a.contains(x) implies (a + b).contains(x) by {
        let i = choose|i: int| 0 <= i < a.len() && a[i] == x;
        assert((a + b)[i] == x);
    }
    assert forall|x: T| #[trigger] b.contains(x) implies (a + b).contains(x) by {
        let i = choose|i: int| 0 <= i < b.len() && b[i] == x;
        assert((a + b)[a.len() + i] == x);
    }
}

/// An expression is made of the selectors of its operands, from left to right, and a selector
/// by itself is its only one.
pub proof fn lemma_selectors_of_parts<F: Copy>(
    a: Expression<F>,
    b: Expression<F>,
    f: F,
    s: Selector,
)
    ensures
        Expression::<F>::Selector(s).selectors() == seq![s],
        vstd::std_specs::ops::AddSpec::add_spec(a, b).selectors() == a.selectors()
            + b.selectors(),
        vstd::std_specs::ops::SubSpec::sub_spec(a, b).selectors() == a.selectors()
            + b.selectors(),
        vstd::std_specs::ops::MulSpec::mul_spec(a, b).selectors() == a.selectors()
            + b.selectors(),
        vstd::std_specs::ops::MulSpec::mul_spec(a, f).selectors() == a.selectors(),
        vstd::std_specs::ops::NegSpec::neg_spec(a).selectors() == a.selectors(),
{
    reveal_with_fuel(Expression::selectors, 3);
}

/// Simple selectors are refused where they are not allowed, and only there: in a sum or a
/// difference wherever an operand contains one, and in a product where both do.
pub proof fn lemma_simple_selectors_refused<F: Copy>(a: Expression<F>, b: Expression<F>)
    ensures
        vstd::std_specs::ops::AddSpec::add_req(a, b) <==> (forall|s: Selector|
            s.1 ==> !#[trigger] a.selectors().contains(s)) && (forall|s: Selector|
            s.1 ==> !#[trigger] b.selectors().contains(s)),
        vstd::std_specs::ops::SubSpec::sub_req(a, b) <==> (forall|s: Selector|
            s.1 ==> !#[trigger] a.selectors().contains(s)) && (forall|s: Selector|
            s.1 ==> !#[trigger] b.selectors().contains(s)),
        vstd::std_specs::ops::MulSpec::mul_req(a, b) <==> (forall|s: Selector, t: Selector|
            s.1 && t.1 ==> !(#[trigger] a.selectors().contains(s)
                && #[trigger] b.selectors().contains(t))),
{
    lemma_simple_contained(a);
    lemma_simple_contained(b);
    if a.has_simple_selector() {
        let s = a.simple_selectors()[0];
        assert(a.simple_selectors().contains(s));
        assert(a.selectors().contains(s) && s.1);
    }
    if b.has_simple_selector() {
        let t = b.simple_selectors()[0];
        assert(b.simple_selectors().contains(t));
        assert(b.selectors().contains(t) && t.1);
    }
}

/// A selector is among the simple selectors of an expression exactly if it is simple and among
/// its selectors.
pub proof fn lemma_simple_contained<F>(e: Expression<F>)
    ensures
        forall|s: Selector| #[trigger]
            e.simple_selectors().contains(s) <==> s.1 && e.selectors().contains(s),
        e.simple_selectors().len() == 0 <==> (forall|s: Selector|
            s.1 ==> !#[trigger] e.selectors().contains(s)),
{
    let simple = |s: Selector| s.1;
    lemma_simple_selectors_filtered(e);
    assert forall|s: Selector| #[trigger] e.simple_selectors().contains(s) <==> s.1
        && e.selectors().contains(s) by {
        lemma_filtered(e.selectors(), simple, s);
    }
    if e.simple_selectors().len() > 0 {
        let s = e.simple_selectors()[0];
        assert(e.simple_selectors().contains(s));
    } else {
        assert forall|s: Selector| s.1 implies !#[trigger] e.selectors().contains(s) by {
            assert(!e.simple_selectors().contains(s));
        }
    }
}

/// A filter keeps exactly what passes it.
proof fn lemma_filtered<T>(s: Seq<T>, pass: spec_fn(T) -> bool, x: T)
    ensures
        s.filter(pass).contains(x) <==> pass(x) && s.contains(x),
    decreases s.len(),
{
    reveal(Seq::filter);
    if s.len() > 0 {
        let init = s.drop_last();
        lemma_filtered(init, pass, x);
        let kept = init.filter(pass);
        if s.contains(x) && s.last() != x {
            let i = choose|i: int| 0 <= i < s.len() && s[i] == x;
            assert(init[i] == x);
        }
        if init.contains(x) {
            let i = choose|i: int| 0 <= i < init.len() && init[i] == x;
            assert(s[i] == x);
        }
        if s.last() == x {
            assert(s[s.len() - 1] == x);
        }
        if pass(s.last()) {
            let more = kept.push(s.last());
            assert(more[kept.len() as int] == s.last());
            if kept.contains(x) {
                let i = choose|i: int| 0 <= i < kept.len() && kept[i] == x;
                assert(more[i] == x);
            }
            if more.contains(x) && s.last() != x {
                let i = choose|i: int| 0 <= i < more.len() && more[i] == x;
                assert(kept[i] == x);
            }
        }
    }
}

// ---------------------------------------------------------------------------------
// Degree and rows
// ---------------------------------------------------------------------------------

/// The degree that a lookup argument needs is no larger than its expressions ask for: whatever
/// bounds the degrees of all inputs by `i` and those of all tables by `t`, both one at least,
/// bounds it by `2 + i + t`.
pub proof fn lemma_required_degree_bounded<F>(
    argument: lookup::ArgumentModel<F>,
    i: nat,
    t: nat,
)
    requires
        1 <= i,
        1 <= t,
        forall|k: int|
            0 <= k < argument.inputs.len() ==> (#[trigger] argument.inputs[k]).degree_spec() <= i,
        forall|k: int|
            0 <= k < argument.tables.len() ==> (#[trigger] argument.tables[k]).degree_spec() <= t,
    ensures
        argument.required_degree() <= 2 + i + t,
{
    expression::lemma_max_degree_bounded(argument.inputs, 1, i);
    expression::lemma_max_degree_bounded(argument.tables, 1, t);
}

/// The degree of a lookup argument leaves room for each of its inputs and each of its tables,
/// also where it has none of the other.
pub proof fn lemma_required_degree_leaves_room<F>(argument: lookup::ArgumentModel<F>)
    ensures
        argument.required_degree() >= 4,
        forall|k: int|
            0 <= k < argument.inputs.len() ==> argument.required_degree() >= 3 + (
            #[trigger] argument.inputs[k]).degree_spec(),
        forall|k: int|
            0 <= k < argument.tables.len() ==> argument.required_degree() >= 3 + (
            #[trigger] argument.tables[k]).degree_spec(),
        forall|k: int, l: int|
            0 <= k < argument.inputs.len() && 0 <= l < argument.tables.len()
                ==> argument.required_degree() >= 2 + (#[trigger] argument.inputs[k]).degree_spec()
                + (#[trigger] argument.tables[l]).degree_spec(),
{
    expression::lemma_max_degree(argument.inputs, 1);
    expression::lemma_max_degree(argument.tables, 1);
}

/// The degree of a system is the smallest that will do: whatever is at least 3, the degree of
/// each polynomial of each gate, the degree that each lookup argument needs, and the degree
/// that the circuit asks for, is at least the degree of the system.
pub proof fn lemma_degree_least<F>(cs: constraint_system::SystemModel<F>, bound: nat)
    requires
        3 <= bound,
        forall|g: int, j: int|
            0 <= g < cs.gates.len() && 0 <= j < cs.gates[g].polys.len() ==> (
            #[trigger] cs.gates[g].polys[j]).degree_spec() <= bound,
        forall|l: int|
            0 <= l < cs.lookups.len() ==> (#[trigger] cs.lookups[l]).required_degree() <= bound,
        cs.minimum_degree matches Some(degree) ==> degree <= bound,
    ensures
        cs.degree() <= bound,
{
    constraint_system::lemma_gates_degree_bounded(cs.gates, bound);
    constraint_system::lemma_lookups_degree_bounded(cs.lookups, bound);
}

/// The number of blinding factors is as small as can be: two more than the largest number of
/// queries of an advice column, and five in any case. Whatever is at least 3 and the number of
/// queries of each column is not exceeded by more than two.
pub proof fn lemma_blinding_factors_least<F>(cs: constraint_system::SystemModel<F>, bound: nat)
    ensures
        cs.blinding_factors() >= 5,
        forall|c: int|
            0 <= c < cs.num_advice_queries.len() ==> cs.blinding_factors() >= 2
                + #[trigger] cs.num_advice_queries[c],
        bound >= 3 && (forall|c: int|
            0 <= c < cs.num_advice_queries.len() ==> #[trigger] cs.num_advice_queries[c] <= bound)
            ==> cs.blinding_factors() <= bound + 2,
{
    lemma_max_count_least(cs.num_advice_queries, bound);
}

/// The same over the queries themselves: in a well-formed system, whatever is at least 3 and at
/// least the number of queries of each advice column is not exceeded by more than two.
pub proof fn lemma_blinding_factors_of_queries<F>(
    cs: constraint_system::SystemModel<F>,
    bound: nat,
)
    requires
        cs.well_formed(),
        bound >= 3,
        forall|c: int|
            0 <= c < cs.num_advice_columns ==> #[trigger] constraint_system::column_queries(
                cs.advice_queries,
                c,
            ) <= bound,
    ensures
        cs.blinding_factors() <= bound + 2,
{
    assert forall|c: int| 0 <= c < cs.num_advice_queries.len() implies #[trigger]
        cs.num_advice_queries[c] <= bound by {
        assert(constraint_system::column_queries(cs.advice_queries, c) <= bound);
    }
    lemma_blinding_factors_least(cs, bound);
}

/// The largest of some counts bounds each, and is bounded by whatever bounds all and is one at
/// least.
proof fn lemma_max_count_least(counts: Seq<usize>, bound: nat)
    ensures
        forall|c: int|
            0 <= c < counts.len() ==> #[trigger] counts[c] <= constraint_system::max_count(counts),
        bound >= 1 && (forall|c: int| 0 <= c < counts.len() ==> #[trigger] counts[c] <= bound)
            ==> constraint_system::max_count(counts) <= bound,
    decreases counts.len(),
{
    if counts.len() > 1 {
        let init = counts.drop_last();
        lemma_max_count_least(init, bound);
        assert forall|c: int| 0 <= c < counts.len() implies #[trigger] counts[c]
            <= constraint_system::max_count(counts) by {
            if c < init.len() {
                assert(init[c] == counts[c]);
            }
        }
        if bound >= 1 && (forall|c: int| 0 <= c < counts.len() ==> #[trigger] counts[c] <= bound) {
            assert forall|c: int| 0 <= c < init.len() implies #[trigger] init[c] <= bound by {
                assert(init[c] == counts[c]);
            }
            assert(counts[counts.len() - 1] <= bound);
        }
    }
}

/// The queries of a column are counted one by one: another query adds one to the count of its
/// column and nothing to that of any other.
pub proof fn lemma_query_counted(
    queries: Seq<(Column<Advice>, Rotation)>,
    query: (Column<Advice>, Rotation),
    index: int,
)
    ensures
        constraint_system::column_queries(Seq::empty(), index) == 0,
        constraint_system::column_queries(queries.push(query), index)
            == constraint_system::column_queries(queries, index) + (if query.0.index == index {
            1nat
        } else {
            0nat
        }),
{
    assert(queries.push(query).drop_last() =~= queries);
}

// ---------------------------------------------------------------------------------
// Selectors
// ---------------------------------------------------------------------------------

/// The degree of a selector is that of a polynomial from which it is extracted: the returned
/// one.
pub proof fn lemma_selector_degree_attained<F>(polys: Seq<Expression<F>>, index: int) -> (i: int)
    requires
        compress_selectors::selector_degree(polys, index) > 0,
    ensures
        0 <= i < polys.len(),
        polys[i].simple_selectors().len() > 0,
        polys[i].simple_selectors()[0].0 == index,
        polys[i].degree_spec() == compress_selectors::selector_degree(polys, index),
    decreases polys.len(),
{
    let init = polys.drop_last();
    let last = polys.last();
    if last.simple_selectors().len() > 0 && last.simple_selectors()[0].0 == index
        && last.degree_spec() == compress_selectors::selector_degree(polys, index) {
        polys.len() - 1
    } else {
        lemma_selector_degree_attained(init, index)
    }
}

/// The degree of a selector is the smallest that bounds the degrees of the polynomials from
/// which it is extracted; other polynomials have no part in it.
pub proof fn lemma_selector_degree_least<F>(polys: Seq<Expression<F>>, index: int, bound: nat)
    requires
        forall|i: int|
            0 <= i < polys.len() && (#[trigger] polys[i]).simple_selectors().len() > 0
                && polys[i].simple_selectors()[0].0 == index ==> polys[i].degree_spec() <= bound,
    ensures
        compress_selectors::selector_degree(polys, index) <= bound,
{
    if compress_selectors::selector_degree(polys, index) > 0 {
        let i = lemma_selector_degree_attained(polys, index);
        assert(polys[i].degree_spec() <= bound);
    }
}

/// The last assignment for a selector decides what becomes of it: it is replaced by the
/// expression of that assignment, and stands in the column of its combination.
pub proof fn lemma_last_assignment_decides<F>(
    assignments: Seq<SelectorAssignment<F>>,
    columns: Seq<Column<Fixed>>,
    k: int,
)
    requires
        0 <= k < assignments.len(),
        assignments[k].selector < assignments.len(),
        forall|j: int|
            k < j < assignments.len() ==> (#[trigger] assignments[j]).selector
                != assignments[k].selector,
    ensures
        ({
            let i = assignments[k].selector as int;
            &&& compress_selectors::replacements_of(assignments).len() == assignments.len()
            &&& compress_selectors::replacements_of(assignments)[i] == assignments[k].expression
            &&& compress_selectors::columns_of(assignments, columns).len() == assignments.len()
            &&& compress_selectors::columns_of(assignments, columns)[i]
                == columns[assignments[k].combination_index as int]
        }),
{
    lemma_last_assignment(assignments, k);
}

proof fn lemma_last_assignment<F>(assignments: Seq<SelectorAssignment<F>>, k: int)
    requires
        0 <= k < assignments.len(),
        forall|j: int|
            k < j < assignments.len() ==> (#[trigger] assignments[j]).selector
                != assignments[k].selector,
    ensures
        compress_selectors::last_assignment(assignments, assignments[k].selector as int) == Some(
            assignments[k],
        ),
    decreases assignments.len(),
{
    if k < assignments.len() - 1 {
        let init = assignments.drop_last();
        assert(assignments[assignments.len() - 1].selector != assignments[k].selector);
        assert forall|j: int| k < j < init.len() implies (#[trigger] init[j]).selector
            != init[k].selector by {
            assert(init[j] == assignments[j]);
        }
        lemma_last_assignment(init, k);
    }
}

/// Replacing the selectors of a system leaves its gates and lookups in their places, with their
/// names and what was queried for them.
pub proof fn lemma_compression_keeps_places<F>(
    cs: constraint_system::SystemModel<F>,
    selector_map: Seq<Column<Fixed>>,
    replacements: Seq<Expression<F>>,
)
    ensures
        ({
            let after = cs.compressed(selector_map, replacements);
            &&& after.selector_map == selector_map
            &&& after.num_fixed_columns == cs.num_fixed_columns
            &&& after.num_advice_columns == cs.num_advice_columns
            &&& after.num_instance_columns == cs.num_instance_columns
            &&& after.num_selectors == cs.num_selectors
            &&& after.advice_queries == cs.advice_queries
            &&& after.num_advice_queries == cs.num_advice_queries
            &&& after.instance_queries == cs.instance_queries
            &&& after.fixed_queries == cs.fixed_queries
            &&& after.permutation == cs.permutation
            &&& after.constants == cs.constants
            &&& after.minimum_degree == cs.minimum_degree
            &&& after.gates.len() == cs.gates.len()
            &&& forall|g: int|
                #![trigger after.gates[g]]
                0 <= g < cs.gates.len() ==> {
                    &&& after.gates[g].name == cs.gates[g].name
                    &&& after.gates[g].constraint_names == cs.gates[g].constraint_names
                    &&& after.gates[g].polys.len() == cs.gates[g].polys.len()
                    &&& forall|i: int|
                        0 <= i < cs.gates[g].polys.len() ==> #[trigger] after.gates[g].polys[i]
                            == cs.gates[g].polys[i].substitute(replacements)
                    &&& after.gates[g].queried_selectors == cs.gates[g].queried_selectors
                    &&& after.gates[g].queried_cells == cs.gates[g].queried_cells
                }
            &&& after.lookups.len() == cs.lookups.len()
            &&& forall|l: int|
                #![trigger after.lookups[l]]
                0 <= l < cs.lookups.len() ==> {
                    &&& after.lookups[l].inputs.len() == cs.lookups[l].inputs.len()
                    &&& after.lookups[l].tables.len() == cs.lookups[l].tables.len()
                    &&& forall|i: int|
                        0 <= i < cs.lookups[l].inputs.len() ==> #[trigger] after.lookups[l].inputs[i]
                            == cs.lookups[l].inputs[i].substitute(replacements)
                    &&& forall|i: int|
                        0 <= i < cs.lookups[l].tables.len() ==> #[trigger] after.lookups[l].tables[i]
                            == cs.lookups[l].tables[i].substitute(replacements)
                }
        }),
{
}

// ---------------------------------------------------------------------------------
// Gates and lookups
// ---------------------------------------------------------------------------------

/// Each constraint of a set with a common selector keeps its name and is multiplied with the
/// selector: whatever expressions mean, it means the product of what the selector means and
/// what the given polynomial means.
pub proof fn lemma_selector_controls<F: Copy, I: IntoConstraints<F>, T>(
    set: Constraints<F, I>,
    alg: expression::Algebra<F, T>,
    i: int,
)
    requires
        0 <= i < IntoConstraints::<F>::constraints(set.constraints).len(),
    ensures
        IntoConstraints::<F>::constraints(set).len() == IntoConstraints::<F>::constraints(
            set.constraints,
        ).len(),
        ({
            let given = IntoConstraints::<F>::constraints(set.constraints)[i];
            let made = IntoConstraints::<F>::constraints(set)[i];
            &&& made.name == given.name
            &&& expression::meaning(made.poly, alg) == (alg.product)(
                expression::meaning(set.selector, alg),
                expression::meaning(given.poly, alg),
            )
            &&& made.poly.degree_spec() == set.selector.degree_spec() + given.poly.degree_spec()
            &&& made.poly.selectors() == set.selector.selectors() + given.poly.selectors()
        }),
{
}

/// The constraint that an expression stands for is the expression, without a name; one with a
/// name stands for itself under that name; and a list stands for what its items stand for.
pub proof fn lemma_constraints_given<F, const N: usize>(
    poly: Expression<F>,
    named: (&'static str, Expression<F>),
    constraint: Constraint<F>,
    polys: Vec<Expression<F>>,
    pairs: Vec<(&'static str, Expression<F>)>,
    array: [(&'static str, Expression<F>); N],
)
    ensures
        IntoConstraint::<F>::constraint(poly).poly == poly,
        IntoConstraint::<F>::constraint(poly).name@.len() == 0,
        IntoConstraint::<F>::constraint(named).poly == named.1,
        IntoConstraint::<F>::constraint(named).name == named.0,
        IntoConstraint::<F>::constraint(constraint) == constraint,
        IntoConstraints::<F>::constraints(polys).len() == polys@.len(),
        forall|i: int|
            #![trigger IntoConstraints::<F>::constraints(polys)[i]]
            0 <= i < polys@.len() ==> {
                &&& IntoConstraints::<F>::constraints(polys)[i].poly == polys@[i]
                &&& IntoConstraints::<F>::constraints(polys)[i].name@.len() == 0
            },
        IntoConstraints::<F>::constraints(pairs).len() == pairs@.len(),
        forall|i: int|
            #![trigger IntoConstraints::<F>::constraints(pairs)[i]]
            0 <= i < pairs@.len() ==> {
                &&& IntoConstraints::<F>::constraints(pairs)[i].poly == pairs@[i].1
                &&& IntoConstraints::<F>::constraints(pairs)[i].name == pairs@[i].0
            },
        IntoConstraints::<F>::constraints(array).len() == array@.len(),
        forall|i: int|
            #![trigger IntoConstraints::<F>::constraints(array)[i]]
            0 <= i < array@.len() ==> {
                &&& IntoConstraints::<F>::constraints(array)[i].poly == array@[i].1
                &&& IntoConstraints::<F>::constraints(array)[i].name == array@[i].0
            },
{
    reveal_strlit("");
}

/// A new gate stands behind the others, has the polynomials and the names of its constraints in
/// their order and what was queried for it, and nothing else of the system changes.
pub proof fn lemma_gate_added<F>(
    cs: constraint_system::SystemModel<F>,
    name: Seq<char>,
    constraints: Seq<Constraint<F>>,
    queried_selectors: Seq<Selector>,
    queried_cells: Seq<gate::VirtualCell>,
)
    ensures
        ({
            let after = cs.with_gate(name, constraints, queried_selectors, queried_cells);
            let added = after.gates.last();
            &&& after.gates.drop_last() == cs.gates
            &&& after == (constraint_system::SystemModel { gates: after.gates, ..cs })
            &&& added.name == name
            &&& added.polys.len() == constraints.len()
            &&& added.constraint_names.len() == constraints.len()
            &&& forall|i: int|
                #![trigger constraints[i]]
                0 <= i < constraints.len() ==> {
                    &&& added.polys[i] == constraints[i].poly
                    &&& added.constraint_names[i] == constraints[i].name@
                }
            &&& added.queried_selectors == queried_selectors
            &&& added.queried_cells == queried_cells
        }),
{
    let after = cs.with_gate(name, constraints, queried_selectors, queried_cells);
    assert(after.gates.drop_last() =~= cs.gates);
}

/// A new lookup argument stands behind the others. Its inputs are those that were given, each
/// of its tables is the query of the given column at the current row, at whose index among the
/// queries of fixed columns that query stands, and nothing else of the system changes but for
/// queries of fixed columns that are added.
pub proof fn lemma_lookup_added<F>(
    cs: constraint_system::SystemModel<F>,
    table_map: Seq<(Expression<F>, TableColumn)>,
)
    requires
        cs.fixed_queries.len() + table_map.len() <= usize::MAX,
    ensures
        ({
            let after = cs.with_lookup(table_map);
            let added = after.lookups.last();
            &&& after.lookups.drop_last() == cs.lookups
            &&& after == (constraint_system::SystemModel {
                lookups: after.lookups,
                fixed_queries: after.fixed_queries,
                ..cs
            })
            &&& cs.fixed_queries.is_prefix_of(after.fixed_queries)
            &&& after.fixed_queries.len() <= cs.fixed_queries.len() + table_map.len()
            &&& added.inputs.len() == table_map.len()
            &&& added.tables.len() == table_map.len()
            &&& forall|i: int|
                #![trigger table_map[i]]
                0 <= i < table_map.len() ==> {
                    &&& added.inputs[i] == table_map[i].0
                    &&& added.tables[i] matches Expression::Fixed(query) && {
                        &&& query.column_index == table_map[i].1.column().index
                        &&& query.rotation == Rotation(0)
                        &&& query.index < after.fixed_queries.len()
                        &&& after.fixed_queries[query.index as int] == (
                            table_map[i].1.column(),
                            Rotation(0),
                        )
                    }
                }
        }),
{
    let columns = table_map.map_values(|e: (Expression<F>, TableColumn)| e.1.column());
    let queried = cs.with_fixed_queries(columns);
    let after = cs.with_lookup(table_map);
    constraint_system::lemma_with_fixed_queries(cs, columns);
    lemma_fixed_queries_made(cs, columns);
    assert(after.lookups.drop_last() =~= cs.lookups);
    let added = after.lookups.last();
    assert forall|i: int| #![trigger table_map[i]] 0 <= i < table_map.len() implies {
        &&& added.inputs[i] == table_map[i].0
        &&& added.tables[i] matches Expression::Fixed(query) && {
            &&& query.column_index == table_map[i].1.column().index
            &&& query.rotation == Rotation(0)
            &&& query.index < after.fixed_queries.len()
            &&& after.fixed_queries[query.index as int] == (table_map[i].1.column(), Rotation(0))
        }
    } by {
        assert(columns[i] == table_map[i].1.column());
        let query = (columns[i], Rotation(0));
        assert(queried.fixed_queries.contains(query));
        list::lemma_first_index(queried.fixed_queries, query);
        assert(added.tables[i] == constraint_system::fixed_expression::<F>(
            queried.fixed_queries,
            columns[i],
        ));
    }
}

/// Once fixed columns are queried, there is a query of each, and no more queries than there
/// were columns have been added.
pub proof fn lemma_fixed_queries_made<F>(
    cs: constraint_system::SystemModel<F>,
    columns: Seq<Column<Fixed>>,
)
    ensures
        cs.with_fixed_queries(columns).fixed_queries.len() <= cs.fixed_queries.len()
            + columns.len(),
        forall|i: int|
            0 <= i < columns.len() ==> cs.with_fixed_queries(columns).fixed_queries.contains(
                (#[trigger] columns[i], Rotation(0)),
            ),
    decreases columns.len(),
{
    if columns.len() > 0 {
        let init = columns.drop_last();
        lemma_fixed_queries_made(cs, init);
        let before = cs.with_fixed_queries(init).fixed_queries;
        let last = (columns.last(), Rotation(0));
        lemma_item_added(before, last);
        assert forall|i: int|
            0 <= i < columns.len() implies cs.with_fixed_queries(columns).fixed_queries.contains(
            (#[trigger] columns[i], Rotation(0)),
        ) by {
            if i < init.len() {
                assert(init[i] == columns[i]);
                assert(before.contains((init[i], Rotation(0))));
            }
        }
    }
}

// ---------------------------------------------------------------------------------
// Queries and columns
// ---------------------------------------------------------------------------------

/// Adding an item to a list keeps what the list holds in its place, makes sure that the item is
/// there, and adds nothing else; a list that has it already stays as it is.
pub proof fn lemma_item_added<T>(s: Seq<T>, x: T)
    ensures
        s.is_prefix_of(list::with_item(s, x)),
        list::with_item(s, x).contains(x),
        s.contains(x) ==> list::with_item(s, x).len() == s.len(),
        !s.contains(x) ==> list::with_item(s, x).len() == s.len() + 1,
        forall|y: T| #[trigger] s.contains(y) ==> list::with_item(s, x).contains(y),
{
    let t = list::with_item(s, x);
    assert(s =~= t.take(s.len() as int));
    if !s.contains(x) {
        assert(t[s.len() as int] == x);
    }
    assert forall|y: T| #[trigger] s.contains(y) implies t.contains(y) by {
        let i = choose|i: int| 0 <= i < s.len() && s[i] == y;
        assert(t[i] == y);
    }
}

/// A query can be found where it is said to stand: at the index of the expression that a query
/// returns stands that query, of that column and at that rotation, also once more queries are
/// made, and nothing but the queries of that kind of column and their count changes.
pub proof fn lemma_queries_found<F>(
    cs: constraint_system::SystemModel<F>,
    fixed: Column<Fixed>,
    advice: Column<Advice>,
    instance: Column<Instance>,
    at: Rotation,
)
    requires
        cs.fixed_queries.len() < usize::MAX,
        cs.advice_queries.len() < usize::MAX,
        cs.instance_queries.len() < usize::MAX,
        cs.can_query_advice(advice, at),
    ensures
        ({
            let after = cs.with_fixed_query(fixed);
            &&& after == (constraint_system::SystemModel {
                fixed_queries: after.fixed_queries,
                ..cs
            })
            &&& cs.fixed_queries.is_prefix_of(after.fixed_queries)
            &&& after.fixed_queries.len() <= cs.fixed_queries.len() + 1
            &&& constraint_system::fixed_expression::<F>(
                cs.fixed_queries,
                fixed,
            ) matches Expression::Fixed(query) && {
                &&& query.column_index == fixed.index
                &&& query.rotation == Rotation(0)
                &&& query.index < after.fixed_queries.len()
                &&& after.fixed_queries[query.index as int] == (fixed, Rotation(0))
            }
        }),
        ({
            let after = cs.with_advice_query(advice, at);
            &&& after == (constraint_system::SystemModel {
                advice_queries: after.advice_queries,
                num_advice_queries: after.num_advice_queries,
                ..cs
            })
            &&& cs.advice_queries.is_prefix_of(after.advice_queries)
            &&& after.advice_queries.len() <= cs.advice_queries.len() + 1
            &&& after.num_advice_queries.len() == cs.num_advice_queries.len()
            &&& forall|c: int|
                0 <= c < cs.num_advice_queries.len() ==> #[trigger] after.num_advice_queries[c]
                    == cs.num_advice_queries[c] + (if c == advice.index {
                    after.advice_queries.len() - cs.advice_queries.len()
                } else {
                    0
                })
            &&& constraint_system::advice_expression::<F>(
                cs.advice_queries,
                advice,
                at,
            ) matches Expression::Advice(query) && {
                &&& query.column_index == advice.index
                &&& query.rotation == at
                &&& query.index < after.advice_queries.len()
                &&& after.advice_queries[query.index as int] == (advice, at)
            }
        }),
        ({
            let after = cs.with_instance_query(instance, at);
            &&& after == (constraint_system::SystemModel {
                instance_queries: after.instance_queries,
                ..cs
            })
            &&& cs.instance_queries.is_prefix_of(after.instance_queries)
            &&& after.instance_queries.len() <= cs.instance_queries.len() + 1
            &&& constraint_system::instance_expression::<F>(
                cs.instance_queries,
                instance,
                at,
            ) matches Expression::Instance(query) && {
                &&& query.column_index == instance.index
                &&& query.rotation == at
                &&& query.index < after.instance_queries.len()
                &&& after.instance_queries[query.index as int] == (instance, at)
            }
        }),
{
    lemma_item_added(cs.fixed_queries, (fixed, Rotation(0)));
    list::lemma_first_index(cs.fixed_queries, (fixed, Rotation(0)));
    lemma_item_added(cs.advice_queries, (advice, at));
    list::lemma_first_index(cs.advice_queries, (advice, at));
    lemma_item_added(cs.instance_queries, (instance, at));
    list::lemma_first_index(cs.instance_queries, (instance, at));
}

/// Making a query twice makes it once: the second time nothing changes, and the same expression
/// is returned.
pub proof fn lemma_query_made_once<F>(
    cs: constraint_system::SystemModel<F>,
    column: Column<Any>,
    at: Rotation,
)
    requires
        cs.can_query_any(column, at),
        column.column_type == Any::Fixed ==> at == Rotation(0),
    ensures
        ({
            let once = cs.with_any_query(column, at);
            &&& once.with_any_query(column, at) == once
            &&& constraint_system::any_expression::<F>(once, column, at)
                == constraint_system::any_expression::<F>(cs, column, at)
        }),
{
    let fixed = Column { column_type: Fixed, index: column.index };
    let advice = Column { column_type: Advice, index: column.index };
    let instance = Column { column_type: Instance, index: column.index };
    list::lemma_first_index_stable(cs.fixed_queries, (fixed, Rotation(0)), (fixed, Rotation(0)));
    list::lemma_first_index_stable(cs.advice_queries, (advice, at), (advice, at));
    list::lemma_first_index_stable(cs.instance_queries, (instance, at), (instance, at));
}

/// Enabling equality on a column makes sure that the column takes part in the permutation
/// argument and is queried at the current row, and keeps all other columns of the argument in
/// their places.
pub proof fn lemma_equality_enabled<F>(cs: constraint_system::SystemModel<F>, column: Column<Any>)
    requires
        cs.can_query_any(column, Rotation(0)),
    ensures
        ({
            let after = cs.with_equality(column);
            &&& after.permutation.contains(column)
            &&& cs.permutation.is_prefix_of(after.permutation)
            &&& after.permutation.len() <= cs.permutation.len() + 1
            &&& match column.column_type {
                Any::Advice => after.advice_queries.contains(
                    (Column { column_type: Advice, index: column.index }, Rotation(0)),
                ),
                Any::Fixed => after.fixed_queries.contains(
                    (Column { column_type: Fixed, index: column.index }, Rotation(0)),
                ),
                Any::Instance => after.instance_queries.contains(
                    (Column { column_type: Instance, index: column.index }, Rotation(0)),
                ),
            }
            &&& after == (constraint_system::SystemModel {
                permutation: after.permutation,
                ..cs.with_any_query(column, Rotation(0))
            })
        }),
{
    lemma_item_added(cs.permutation, column);
    let fixed = Column { column_type: Fixed, index: column.index };
    let advice = Column { column_type: Advice, index: column.index };
    let instance = Column { column_type: Instance, index: column.index };
    lemma_item_added(cs.fixed_queries, (fixed, Rotation(0)));
    lemma_item_added(cs.advice_queries, (advice, Rotation(0)));
    lemma_item_added(cs.instance_queries, (instance, Rotation(0)));
}

/// A column that can be used for constants is listed once, and has equality enabled if it was
/// not listed before.
pub proof fn lemma_constant_enabled<F>(cs: constraint_system::SystemModel<F>, column: Column<Fixed>)
    ensures
        ({
            let any = Column { column_type: Any::Fixed, index: column.index };
            let after = cs.with_constant(column);
            &&& after.constants.contains(column)
            &&& cs.constants.is_prefix_of(after.constants)
            &&& cs.constants.contains(column) ==> after == cs
            &&& !cs.constants.contains(column) ==> {
                &&& after.constants.len() == cs.constants.len() + 1
                &&& after.permutation.contains(any)
                &&& after.fixed_queries.contains((column, Rotation(0)))
                &&& after == (constraint_system::SystemModel {
                    constants: after.constants,
                    ..cs.with_equality(any)
                })
            }
        }),
{
    let any = Column { column_type: Any::Fixed, index: column.index };
    assert(column.column_type == Fixed);
    assert(column.erased() == any);
    lemma_equality_enabled(cs, any);
    if !cs.constants.contains(column) {
        let after = cs.with_constant(column);
        assert(after.constants[cs.constants.len() as int] == column);
        assert(cs.constants =~= after.constants.take(cs.constants.len() as int));
    }
}

/// A new column or selector adds one to the number of its kind and leaves all else as it is; a
/// new advice column has no queries yet.
pub proof fn lemma_columns_added<F>(cs: constraint_system::SystemModel<F>)
    ensures
        cs.with_fixed_column() == (constraint_system::SystemModel {
            num_fixed_columns: cs.num_fixed_columns + 1,
            ..cs
        }),
        cs.with_instance_column() == (constraint_system::SystemModel {
            num_instance_columns: cs.num_instance_columns + 1,
            ..cs
        }),
        cs.with_selector() == (constraint_system::SystemModel {
            num_selectors: cs.num_selectors + 1,
            ..cs
        }),
        ({
            let after = cs.with_advice_column();
            &&& after == (constraint_system::SystemModel {
                num_advice_columns: cs.num_advice_columns + 1,
                num_advice_queries: after.num_advice_queries,
                ..cs
            })
            &&& after.num_advice_queries.drop_last() == cs.num_advice_queries
            &&& after.num_advice_queries.last() == 0
        }),
{
    let after = cs.with_advice_column();
    assert(after.num_advice_queries.drop_last() =~= cs.num_advice_queries);
}

/// The degree of a selector bounds the degree of each polynomial from which it is extracted.
pub proof fn lemma_selector_degree_bounds<F>(polys: Seq<Expression<F>>, i: int)
    requires
        0 <= i < polys.len(),
        polys[i].simple_selectors().len() > 0,
    ensures
        polys[i].degree_spec() <= compress_selectors::selector_degree(
            polys,
            polys[i].simple_selectors()[0].0 as int,
        ),
    decreases polys.len(),
{
    if i < polys.len() - 1 {
        let init = polys.drop_last();
        assert(init[i] == polys[i]);
        lemma_selector_degree_bounds(init, i);
    }
}

/// Replacing the selectors of an expression leaves an expression that means what the expression
/// means where each selector means what the replacement at its index means, simple or not, and
/// that has the selectors of the replacements alone.
pub proof fn lemma_selectors_replaced<F, T>(
    e: Expression<F>,
    replacements: Seq<Expression<F>>,
    alg: expression::Algebra<F, T>,
)
    ensures
        expression::meaning(e.substitute(replacements), alg) == expression::meaning(
            e,
            expression::Algebra {
                selector: |s: Selector| expression::meaning(replacements[s.0 as int], alg),
                ..alg
            },
        ),
        e.selectors().len() == 0 ==> e.substitute(replacements) == e,
    decreases e,
{
    let replaced = expression::Algebra {
        selector: |s: Selector| expression::meaning(replacements[s.0 as int], alg),
        ..alg
    };
    match e {
        Expression::Negated(a) => {
            lemma_selectors_replaced(*a, replacements, alg);
        },
        Expression::Sum(a, b) => {
            assert(e.selectors().len() == a.selectors().len() + b.selectors().len());
            lemma_selectors_replaced(*a, replacements, alg);
            lemma_selectors_replaced(*b, replacements, alg);
        },
        Expression::Product(a, b) => {
            assert(e.selectors().len() == a.selectors().len() + b.selectors().len());
            lemma_selectors_replaced(*a, replacements, alg);
            lemma_selectors_replaced(*b, replacements, alg);
        },
        Expression::Scaled(a, _) => {
            lemma_selectors_replaced(*a, replacements, alg);
        },
        _ => {},
    }
}

/// The columns that are allocated for selectors stand behind the fixed columns of the system,
/// one after the other, and each is queried at the current row.
pub proof fn lemma_selector_columns_queried<F>(
    cs: constraint_system::SystemModel<F>,
    k: nat,
    i: int,
)
    requires
        0 <= i < k,
        cs.num_fixed_columns + k <= usize::MAX,
    ensures
        cs.selector_columns(k).len() == k,
        cs.selector_columns(k)[i].index == cs.num_fixed_columns + i,
        cs.with_selector_columns(k).num_fixed_columns == cs.num_fixed_columns + k,
        cs.with_selector_columns(k).fixed_queries.contains(
            (cs.selector_columns(k)[i], Rotation(0)),
        ),
        cs.with_selector_columns(k).fixed_queries.len() <= cs.fixed_queries.len() + k,
    decreases k,
{
    let before = cs.with_selector_columns((k - 1) as nat);
    compress_selectors::lemma_selector_columns(cs, k);
    compress_selectors::lemma_selector_columns(cs, (k - 1) as nat);
    let column = Column { column_type: Fixed, index: before.num_fixed_columns as usize };
    lemma_item_added(before.fixed_queries, (column, Rotation(0)));
    if i < k - 1 {
        lemma_selector_columns_queried(cs, (k - 1) as nat, i);
        assert(cs.selector_columns((k - 1) as nat)[i] == cs.selector_columns(k)[i]);
        assert(before.fixed_queries.contains((cs.selector_columns(k)[i], Rotation(0))));
    } else {
        assert(cs.selector_columns(k)[i] == column);
        if k > 1 {
            lemma_selector_columns_queried(cs, (k - 1) as nat, 0);
        } else {
            assert(before == cs);
        }
    }
}

/// The descriptions of the selectors of a system are one for each, in their order, with the rows
/// on which it is enabled and a degree that bounds that of each polynomial from which it is
/// extracted.
pub proof fn lemma_described<F>(
    descriptions: Seq<compress_selectors::SelectorDescription>,
    cs: constraint_system::SystemModel<F>,
    activations: Seq<Vec<bool>>,
    g: int,
    j: int,
)
    requires
        compress_selectors::describes(descriptions, cs, activations),
        0 <= g < cs.gates.len(),
        0 <= j < cs.gates[g].polys.len(),
    ensures
        descriptions.len() == activations.len(),
        forall|i: int|
            #![trigger descriptions[i]]
            0 <= i < descriptions.len() ==> descriptions[i].selector == i
                && descriptions[i].activations == activations[i],
        ({
            let simple = cs.gates[g].polys[j].simple_selectors();
            simple.len() > 0 && simple[0].0 < descriptions.len()
                ==> cs.gates[g].polys[j].degree_spec()
                <= descriptions[simple[0].0 as int].max_degree
        }),
{
    let polys = constraint_system::polys_of(cs.gates);
    constraint_system::lemma_polys_of(cs.gates, g, j);
    let at = choose|at: int| 0 <= at < polys.len() && polys[at] == cs.gates[g].polys[j];
    let simple = cs.gates[g].polys[j].simple_selectors();
    if simple.len() > 0 && simple[0].0 < descriptions.len() {
        lemma_selector_degree_bounds(polys, at);
        assert(descriptions[simple[0].0 as int].selector == simple[0].0);
    }
}

// ---------------------------------------------------------------------------------
// What values hold
// ---------------------------------------------------------------------------------

/// What a system is said to hold is what its fields hold, gate by gate and lookup by lookup.
pub proof fn lemma_system_held<F>(cs: ConstraintSystem<F>)
    ensures
        cs@.num_fixed_columns == cs.num_fixed_columns,
        cs@.num_advice_columns == cs.num_advice_columns,
        cs@.num_instance_columns == cs.num_instance_columns,
        cs@.num_selectors == cs.num_selectors,
        cs@.selector_map == cs.selector_map@,
        cs@.advice_queries == cs.advice_queries@,
        cs@.num_advice_queries == cs.num_advice_queries@,
        cs@.instance_queries == cs.instance_queries@,
        cs@.fixed_queries == cs.fixed_queries@,
        cs@.permutation == cs.permutation.columns@,
        cs@.constants == cs.constants@,
        cs@.minimum_degree == cs.minimum_degree,
        cs@.gates.len() == cs.gates@.len(),
        forall|g: int|
            #![trigger cs.gates@[g]]
            0 <= g < cs.gates@.len() ==> {
                &&& cs@.gates[g].name == cs.gates@[g].name@
                &&& cs@.gates[g].polys == cs.gates@[g].polys@
                &&& cs@.gates[g].queried_selectors == cs.gates@[g].queried_selectors@
                &&& cs@.gates[g].queried_cells == cs.gates@[g].queried_cells@
                &&& cs@.gates[g].constraint_names.len() == cs.gates@[g].constraint_names@.len()
                &&& forall|i: int|
                    0 <= i < cs.gates@[g].constraint_names@.len()
                        ==> #[trigger] cs@.gates[g].constraint_names[i]
                        == cs.gates@[g].constraint_names@[i]@
            },
        cs@.lookups.len() == cs.lookups@.len(),
        forall|l: int|
            #![trigger cs.lookups@[l]]
            0 <= l < cs.lookups@.len() ==> {
                &&& cs@.lookups[l].inputs == cs.lookups@[l].input_expressions@
                &&& cs@.lookups[l].tables == cs.lookups@[l].table_expressions@
            },
{
}

/// What a key is said to hold is what its fields hold.
pub proof fn lemma_key_held<C: CurveAffine>(vk: VerifyingKey<C>)
    ensures
        vk@.domain == vk.domain,
        vk@.fixed_commitments == vk.fixed_commitments@,
        vk@.permutation == vk.permutation.commitments@,
        vk@.cs == vk.cs@,
        vk@.cs_degree == vk.cs_degree,
        vk@.transcript_repr == vk.transcript_repr,
        vk@.selectors.len() == vk.selectors@.len(),
        forall|i: int|
            0 <= i < vk.selectors@.len() ==> vk@.selectors[i] == (#[trigger] vk.selectors@[i])@,
{
}

/// A system that has just been made holds nothing: no column, no selector, no query, no gate and
/// no argument, and it asks for no degree.
pub proof fn lemma_nothing_held<F>()
    ensures
        ({
            let cs = constraint_system::SystemModel::<F>::empty();
            &&& cs.num_fixed_columns == 0
            &&& cs.num_advice_columns == 0
            &&& cs.num_instance_columns == 0
            &&& cs.num_selectors == 0
            &&& cs.selector_map.len() == 0
            &&& cs.gates.len() == 0
            &&& cs.advice_queries.len() == 0
            &&& cs.num_advice_queries.len() == 0
            &&& cs.instance_queries.len() == 0
            &&& cs.fixed_queries.len() == 0
            &&& cs.permutation.len() == 0
            &&& cs.lookups.len() == 0
            &&& cs.constants.len() == 0
            &&& cs.minimum_degree is None
        }),
{
}

/// What holds of every well-formed system: nothing is listed twice, each advice column has its
/// count, each column of the permutation argument is queried at the current row, equality is
/// enabled on each column for constants, each gate has as many names as polynomials, and at
/// least one, and each input of a lookup has its table and no simple selector.
pub proof fn lemma_well_formed<F>(cs: constraint_system::SystemModel<F>)
    requires
        cs.well_formed(),
    ensures
        forall|i: int, j: int|
            0 <= i < j < cs.fixed_queries.len() ==> #[trigger] cs.fixed_queries[i]
                != #[trigger] cs.fixed_queries[j],
        forall|i: int, j: int|
            0 <= i < j < cs.advice_queries.len() ==> #[trigger] cs.advice_queries[i]
                != #[trigger] cs.advice_queries[j],
        forall|i: int, j: int|
            0 <= i < j < cs.instance_queries.len() ==> #[trigger] cs.instance_queries[i]
                != #[trigger] cs.instance_queries[j],
        forall|i: int, j: int|
            0 <= i < j < cs.permutation.len() ==> #[trigger] cs.permutation[i]
                != #[trigger] cs.permutation[j],
        forall|i: int, j: int|
            0 <= i < j < cs.constants.len() ==> #[trigger] cs.constants[i]
                != #[trigger] cs.constants[j],
        cs.num_advice_queries.len() == cs.num_advice_columns,
        forall|i: int|
            0 <= i < cs.advice_queries.len() ==> (#[trigger] cs.advice_queries[i]).0.index
                < cs.num_advice_columns,
        forall|i: int|
            0 <= i < cs.permutation.len() ==> match (#[trigger] cs.permutation[i]).column_type {
                Any::Advice => cs.advice_queries.contains(
                    (Column { column_type: Advice, index: cs.permutation[i].index }, Rotation(0)),
                ),
                Any::Fixed => cs.fixed_queries.contains(
                    (Column { column_type: Fixed, index: cs.permutation[i].index }, Rotation(0)),
                ),
                Any::Instance => cs.instance_queries.contains(
                    (Column { column_type: Instance, index: cs.permutation[i].index }, Rotation(0)),
                ),
            },
        forall|i: int|
            0 <= i < cs.constants.len() ==> cs.permutation.contains(
                Column { column_type: Any::Fixed, index: (#[trigger] cs.constants[i]).index },
            ),
        forall|g: int|
            0 <= g < cs.gates.len() ==> 0 < (#[trigger] cs.gates[g]).polys.len()
                == cs.gates[g].constraint_names.len(),
        forall|l: int|
            0 <= l < cs.lookups.len() ==> (#[trigger] cs.lookups[l]).inputs.len()
                == cs.lookups[l].tables.len(),
        forall|l: int, i: int, s: Selector|
            0 <= l < cs.lookups.len() && 0 <= i < cs.lookups[l].inputs.len()
                && #[trigger] cs.lookups[l].inputs[i].selectors().contains(s) ==> !s.1,
{
    assert forall|i: int| 0 <= i < cs.constants.len() implies cs.permutation.contains(
        Column { column_type: Any::Fixed, index: (#[trigger] cs.constants[i]).index },
    ) by {
        assert(cs.constants[i].column_type == Fixed);
        assert(cs.permutation.contains(cs.constants[i].erased()));
    }
    assert forall|l: int, i: int, s: Selector|
        0 <= l < cs.lookups.len() && 0 <= i < cs.lookups[l].inputs.len()
            && #[trigger] cs.lookups[l].inputs[i].selectors().contains(s) implies !s.1 by {
        let e = cs.lookups[l].inputs[i];
        lemma_simple_contained(e);
        assert(!e.has_simple_selector());
    }
}

/// The degree in the description of a selector is no larger than it has to be: whatever bounds
/// the degrees of the polynomials of the gates from which the selector is extracted bounds it.
pub proof fn lemma_described_least<F>(
    descriptions: Seq<compress_selectors::SelectorDescription>,
    cs: constraint_system::SystemModel<F>,
    activations: Seq<Vec<bool>>,
    i: int,
    bound: nat,
)
    requires
        compress_selectors::describes(descriptions, cs, activations),
        0 <= i < descriptions.len(),
        forall|g: int, j: int|
            0 <= g < cs.gates.len() && 0 <= j < cs.gates[g].polys.len() && (
            #[trigger] cs.gates[g].polys[j]).simple_selectors().len() > 0
                && cs.gates[g].polys[j].simple_selectors()[0].0 == i
                ==> cs.gates[g].polys[j].degree_spec() <= bound,
    ensures
        descriptions[i].max_degree <= bound,
{
    let polys = constraint_system::polys_of(cs.gates);
    assert forall|k: int|
        0 <= k < polys.len() && (#[trigger] polys[k]).simple_selectors().len() > 0
            && polys[k].simple_selectors()[0].0 == i implies polys[k].degree_spec() <= bound by {
        let at = constraint_system::lemma_poly_of_gate(cs.gates, k);
        assert(cs.gates[at.0].polys[at.1] == polys[k]);
    }
    lemma_selector_degree_least(polys, i, bound);
    assert(descriptions[i].selector == i);
}

/// Whatever stands for a constraint, a list or an array of it stands for what its items stand
/// for, in their order.
pub proof fn lemma_constraints_listed<F, C: IntoConstraint<F>, const N: usize>(
    list: Vec<C>,
    array: [C; N],
)
    ensures
        IntoConstraints::<F>::constraints(list).len() == list@.len(),
        forall|i: int|
            0 <= i < list@.len() ==> #[trigger] IntoConstraints::<F>::constraints(list)[i]
                == IntoConstraint::<F>::constraint(list@[i]),
        IntoConstraints::<F>::constraints(array).len() == array@.len(),
        forall|i: int|
            0 <= i < array@.len() ==> #[trigger] IntoConstraints::<F>::constraints(array)[i]
                == IntoConstraint::<F>::constraint(array@[i]),
{
}

/// Fixed columns are queried one after the other, from the first to the last.
pub proof fn lemma_fixed_queries_in_order<F>(
    cs: constraint_system::SystemModel<F>,
    a: Seq<Column<Fixed>>,
    b: Seq<Column<Fixed>>,
    column: Column<Fixed>,
)
    ensures
        cs.with_fixed_queries(Seq::empty()) == cs,
        cs.with_fixed_queries(seq![column]) == cs.with_fixed_query(column),
        cs.with_fixed_queries(a + b) == cs.with_fixed_queries(a).with_fixed_queries(b),
    decreases b.len(),
{
    reveal_with_fuel(constraint_system::SystemModel::with_fixed_queries, 2);
    assert(seq![column].drop_last() =~= seq![]);
    if b.len() == 0 {
        assert(a + b =~= a);
    } else {
        assert((a + b).drop_last() =~= a + b.drop_last());
        assert((a + b).last() == b.last());
        lemma_fixed_queries_in_order(cs, a, b.drop_last(), column);
    }
}

/// Querying a column whose kind is a value is querying it as a column of that kind: fixed
/// columns at the current row, whatever is asked for, and others where it is asked for.
pub proof fn lemma_any_queried<F>(
    cs: constraint_system::SystemModel<F>,
    index: usize,
    at: Rotation,
)
    ensures
        ({
            let any = Column { column_type: Any::Fixed, index };
            let column = Column { column_type: Fixed, index };
            &&& cs.with_any_query(any, at) == cs.with_fixed_query(column)
            &&& constraint_system::any_expression::<F>(cs, any, at)
                == constraint_system::fixed_expression::<F>(cs.fixed_queries, column)
            &&& cs.any_query_index(any, at) == list::first_index(cs.fixed_queries, (column, at))
            &&& cs.has_any_query(any, at) <==> cs.fixed_queries.contains((column, at))
        }),
        ({
            let any = Column { column_type: Any::Advice, index };
            let column = Column { column_type: Advice, index };
            &&& cs.with_any_query(any, at) == cs.with_advice_query(column, at)
            &&& constraint_system::any_expression::<F>(cs, any, at)
                == constraint_system::advice_expression::<F>(cs.advice_queries, column, at)
            &&& cs.any_query_index(any, at) == list::first_index(cs.advice_queries, (column, at))
            &&& cs.has_any_query(any, at) <==> cs.advice_queries.contains((column, at))
        }),
        ({
            let any = Column { column_type: Any::Instance, index };
            let column = Column { column_type: Instance, index };
            &&& cs.with_any_query(any, at) == cs.with_instance_query(column, at)
            &&& constraint_system::any_expression::<F>(cs, any, at)
                == constraint_system::instance_expression::<F>(cs.instance_queries, column, at)
            &&& cs.any_query_index(any, at) == list::first_index(cs.instance_queries, (column, at))
            &&& cs.has_any_query(any, at) <==> cs.instance_queries.contains((column, at))
        }),
{
}

/// The kind of a column, and what is left of a column whose type is forgotten: its kind and its
/// index.
pub proof fn lemma_kinds(
    fixed: Column<Fixed>,
    advice: Column<Advice>,
    instance: Column<Instance>,
    any: Column<Any>,
)
    ensures
        fixed.erased() == (Column { column_type: Any::Fixed, index: fixed.index }),
        advice.erased() == (Column { column_type: Any::Advice, index: advice.index }),
        instance.erased() == (Column { column_type: Any::Instance, index: instance.index }),
        any.erased() == any,
        <Column<Any> as vstd::std_specs::convert::FromSpec<Column<Fixed>>>::from_spec(fixed)
            == fixed.erased(),
        <Column<Any> as vstd::std_specs::convert::FromSpec<Column<Advice>>>::from_spec(advice)
            == advice.erased(),
        <Column<Any> as vstd::std_specs::convert::FromSpec<Column<Instance>>>::from_spec(instance)
            == instance.erased(),
        <Any as vstd::std_specs::convert::FromSpec<Fixed>>::from_spec(Fixed) == Any::Fixed,
        <Any as vstd::std_specs::convert::FromSpec<Advice>>::from_spec(Advice) == Any::Advice,
        <Any as vstd::std_specs::convert::FromSpec<Instance>>::from_spec(Instance)
            == Any::Instance,
        <Column<Fixed> as vstd::std_specs::convert::TryFromSpec<Column<Any>>>::try_from_spec(
            any,
        ) is Ok <==> any.column_type == Any::Fixed,
        <Column<Advice> as vstd::std_specs::convert::TryFromSpec<Column<Any>>>::try_from_spec(
            any,
        ) is Ok <==> any.column_type == Any::Advice,
        <Column<Instance> as vstd::std_specs::convert::TryFromSpec<Column<Any>>>::try_from_spec(
            any,
        ) is Ok <==> any.column_type == Any::Instance,
        <Column<Fixed> as vstd::std_specs::convert::TryFromSpec<Column<Any>>>::try_from_spec(
            any,
        ) matches Ok(column) ==> column.index == any.index,
        <Column<Advice> as vstd::std_specs::convert::TryFromSpec<Column<Any>>>::try_from_spec(
            any,
        ) matches Ok(column) ==> column.index == any.index,
        <Column<Instance> as vstd::std_specs::convert::TryFromSpec<Column<Any>>>::try_from_spec(
            any,
        ) matches Ok(column) ==> column.index == any.index,
        <Column<Fixed> as vstd::std_specs::convert::TryFromSpec<Column<Any>>>::try_from_spec(
            any,
        ) matches Err(e) ==> e@ == "Cannot convert into Column<Fixed>"@,
        <Column<Advice> as vstd::std_specs::convert::TryFromSpec<Column<Any>>>::try_from_spec(
            any,
        ) matches Err(e) ==> e@ == "Cannot convert into Column<Advice>"@,
        <Column<Instance> as vstd::std_specs::convert::TryFromSpec<Column<Any>>>::try_from_spec(
            any,
        ) matches Err(e) ==> e@ == "Cannot convert into Column<Instance>"@,
{
}

} // verus!
