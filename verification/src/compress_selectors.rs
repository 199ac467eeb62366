//! Selector compression: the replacement of virtual selectors by queries of fixed columns.

use vstd::prelude::*;

use crate::column::{Column, Fixed};
use crate::constraint_system;
use crate::constraint_system::ConstraintSystem;
use crate::expression;
use crate::expression::{
    AdviceQuery, Expression, FixedQuery, InstanceQuery, Operations, Selector,
};
use crate::gate;
use crate::gate::Gate;
use crate::lookup;
use crate::rotation::Rotation;
use core::ops::Neg;

verus! {

// ---------------------------------------------------------------------------------
// Substitution
// ---------------------------------------------------------------------------------

impl<F> Expression<F> {
    /// This expression with each selector replaced by the expression at its index.
    pub open spec fn substitute(self, replacements: Seq<Expression<F>>) -> Expression<F>
        decreases self,
    {
        match self {
            Expression::Constant(scalar) => Expression::Constant(scalar),
            Expression::Selector(selector) => replacements[selector.0 as int],
            Expression::Fixed(query) => Expression::Fixed(query),
            Expression::Advice(query) => Expression::Advice(query),
            Expression::Instance(query) => Expression::Instance(query),
            Expression::Negated(a) => Expression::Negated(Box::new(a.substitute(replacements))),
            Expression::Sum(a, b) => Expression::Sum(
                Box::new(a.substitute(replacements)),
                Box::new(b.substitute(replacements)),
            ),
            Expression::Product(a, b) => Expression::Product(
                Box::new(a.substitute(replacements)),
                Box::new(b.substitute(replacements)),
            ),
            Expression::Scaled(a, f) => Expression::Scaled(
                Box::new(a.substitute(replacements)),
                f,
            ),
        }
    }

    /// States that the selectors of this expression can be replaced: there is a replacement
    /// for each, none is simple if `must_be_nonsimple`, and what comes out keeps the rules
    /// for simple selectors.
    pub open spec fn substitutable(
        self,
        replacements: Seq<Expression<F>>,
        must_be_nonsimple: bool,
    ) -> bool
        decreases self,
    {
        match self {
            Expression::Selector(selector) => {
                &&& selector.0 < replacements.len()
                &&& must_be_nonsimple ==> !selector.1
            },
            Expression::Negated(a) => a.substitutable(replacements, must_be_nonsimple),
            Expression::Sum(a, b) => {
                &&& a.substitutable(replacements, must_be_nonsimple)
                &&& b.substitutable(replacements, must_be_nonsimple)
                &&& !a.substitute(replacements).has_simple_selector()
                &&& !b.substitute(replacements).has_simple_selector()
            },
            Expression::Product(a, b) => {
                &&& a.substitutable(replacements, must_be_nonsimple)
                &&& b.substitutable(replacements, must_be_nonsimple)
                &&& !(a.substitute(replacements).has_simple_selector() && b.substitute(
                    replacements,
                ).has_simple_selector())
            },
            Expression::Scaled(a, _) => a.substitutable(replacements, must_be_nonsimple),
            _ => true,
        }
    }
}

/// The substitution of selectors, variant by variant.
spec fn substitution<F>(
    replacements: Seq<Expression<F>>,
    must_be_nonsimple: bool,
) -> expression::Algebra<F, Expression<F>> {
    expression::Algebra {
        constant: |v: F| Expression::Constant(v),
        selector: |s: Selector| replacements[s.0 as int],
        fixed: |q: FixedQuery| Expression::Fixed(q),
        advice: |q: AdviceQuery| Expression::Advice(q),
        instance: |q: InstanceQuery| Expression::Instance(q),
        negated: |a: Expression<F>| Expression::Negated(Box::new(a)),
        sum: |a: Expression<F>, b: Expression<F>| Expression::Sum(Box::new(a), Box::new(b)),
        product: |a: Expression<F>, b: Expression<F>|
            Expression::Product(Box::new(a), Box::new(b)),
        scaled: |a: Expression<F>, f: F| Expression::Scaled(Box::new(a), f),
        selector_ok: |s: Selector|
            s.0 < replacements.len() && (must_be_nonsimple ==> !s.1),
        sum_ok: |a: Expression<F>, b: Expression<F>|
            !a.has_simple_selector() && !b.has_simple_selector(),
        product_ok: |a: Expression<F>, b: Expression<F>|
            !(a.has_simple_selector() && b.has_simple_selector()),
    }
}

proof fn lemma_substitution<F>(
    e: Expression<F>,
    replacements: Seq<Expression<F>>,
    must_be_nonsimple: bool,
)
    ensures
        expression::meaning(e, substitution(replacements, must_be_nonsimple)) == e.substitute(
            replacements,
        ),
        expression::has_meaning(e, substitution(replacements, must_be_nonsimple))
            == e.substitutable(replacements, must_be_nonsimple),
    decreases e,
{
    match e {
        Expression::Negated(a) => {
            lemma_substitution(*a, replacements, must_be_nonsimple);
        },
        Expression::Sum(a, b) => {
            lemma_substitution(*a, replacements, must_be_nonsimple);
            lemma_substitution(*b, replacements, must_be_nonsimple);
        },
        Expression::Product(a, b) => {
            lemma_substitution(*a, replacements, must_be_nonsimple);
            lemma_substitution(*b, replacements, must_be_nonsimple);
        },
        Expression::Scaled(a, f) => {
            lemma_substitution(*a, replacements, must_be_nonsimple);
        },
        _ => {},
    }
}

/// Replacements that hold no selectors can be substituted wherever there is one for each
/// selector, and leave no selector behind.
pub proof fn lemma_selectors_replaced<F>(
    e: Expression<F>,
    replacements: Seq<Expression<F>>,
    must_be_nonsimple: bool,
)
    requires
        forall|i: int|
            0 <= i < replacements.len() ==> (#[trigger] replacements[i]).selectors().len() == 0,
        forall|i: int|
            0 <= i < e.selectors().len() ==> {
                &&& (#[trigger] e.selectors()[i]).0 < replacements.len()
                &&& must_be_nonsimple ==> !e.selectors()[i].1
            },
    ensures
        e.substitutable(replacements, must_be_nonsimple),
        e.substitute(replacements).selectors().len() == 0,
    decreases e,
{
    match e {
        Expression::Selector(selector) => {
            assert(e.selectors()[0] == selector);
        },
        Expression::Negated(a) => {
            assert(e.selectors() == a.selectors());
            lemma_selectors_replaced(*a, replacements, must_be_nonsimple);
        },
        Expression::Sum(a, b) => {
            lemma_selectors_of_operands(e, *a, *b, replacements.len(), must_be_nonsimple);
            lemma_selectors_replaced(*a, replacements, must_be_nonsimple);
            lemma_selectors_replaced(*b, replacements, must_be_nonsimple);
            lemma_simple_selectors(a.substitute(replacements));
            lemma_simple_selectors(b.substitute(replacements));
        },
        Expression::Product(a, b) => {
            lemma_selectors_of_operands(e, *a, *b, replacements.len(), must_be_nonsimple);
            lemma_selectors_replaced(*a, replacements, must_be_nonsimple);
            lemma_selectors_replaced(*b, replacements, must_be_nonsimple);
            lemma_simple_selectors(a.substitute(replacements));
            lemma_simple_selectors(b.substitute(replacements));
        },
        Expression::Scaled(a, _) => {
            assert(e.selectors() == a.selectors());
            lemma_selectors_replaced(*a, replacements, must_be_nonsimple);
        },
        _ => {},
    }
}

/// What holds of the selectors of an expression holds of those of its two operands.
proof fn lemma_selectors_of_operands<F>(
    e: Expression<F>,
    a: Expression<F>,
    b: Expression<F>,
    n: nat,
    must_be_nonsimple: bool,
)
    requires
        e.selectors() == a.selectors() + b.selectors(),
        forall|i: int|
            0 <= i < e.selectors().len() ==> {
                &&& (#[trigger] e.selectors()[i]).0 < n
                &&& must_be_nonsimple ==> !e.selectors()[i].1
            },
    ensures
        forall|i: int|
            0 <= i < a.selectors().len() ==> {
                &&& (#[trigger] a.selectors()[i]).0 < n
                &&& must_be_nonsimple ==> !a.selectors()[i].1
            },
        forall|i: int|
            0 <= i < b.selectors().len() ==> {
                &&& (#[trigger] b.selectors()[i]).0 < n
                &&& must_be_nonsimple ==> !b.selectors()[i].1
            },
{
    assert forall|i: int| 0 <= i < a.selectors().len() implies {
        &&& (#[trigger] a.selectors()[i]).0 < n
        &&& must_be_nonsimple ==> !a.selectors()[i].1
    } by {
        assert(e.selectors()[i] == a.selectors()[i]);
    }
    assert forall|i: int| 0 <= i < b.selectors().len() implies {
        &&& (#[trigger] b.selectors()[i]).0 < n
        &&& must_be_nonsimple ==> !b.selectors()[i].1
    } by {
        assert(e.selectors()[a.selectors().len() + i] == b.selectors()[i]);
    }
}

/// An expression has no more simple selectors than selectors.
proof fn lemma_simple_selectors<F>(e: Expression<F>)
    ensures
        e.simple_selectors().len() <= e.selectors().len(),
    decreases e,
{
    match e {
        Expression::Negated(a) => {
            lemma_simple_selectors(*a);
        },
        Expression::Sum(a, b) => {
            lemma_simple_selectors(*a);
            lemma_simple_selectors(*b);
        },
        Expression::Product(a, b) => {
            lemma_simple_selectors(*a);
            lemma_simple_selectors(*b);
        },
        Expression::Scaled(a, _) => {
            lemma_simple_selectors(*a);
        },
        _ => {},
    }
}

/// Replaces the selectors of an expression. Simple selectors are prohibited from appearing
/// in expressions in the lookup argument, for which `must_be_nonsimple` holds.
fn replace_selectors<F: Copy>(
    expr: &Expression<F>,
    selector_replacements: &Vec<Expression<F>>,
    must_be_nonsimple: bool,
) -> (r: Expression<F>)
    requires
        expr.substitutable(selector_replacements@, must_be_nonsimple),
    ensures
        r == expr.substitute(selector_replacements@),
{
    let constant = |v: F| -> (r: Expression<F>)
        ensures
            r == Expression::Constant(v),
        { Expression::Constant(v) };
    let selector_column = |selector: Selector| -> (r: Expression<F>)
        requires
            selector.0 < selector_replacements@.len(),
            must_be_nonsimple ==> !selector.1,
        ensures
            r == selector_replacements@[selector.0 as int],
        { selector_replacements[selector.0].clone() };
    let fixed_column = |query: FixedQuery| -> (r: Expression<F>)
        ensures
            r == Expression::<F>::Fixed(query),
        { Expression::Fixed(query) };
    let advice_column = |query: AdviceQuery| -> (r: Expression<F>)
        ensures
            r == Expression::<F>::Advice(query),
        { Expression::Advice(query) };
    let instance_column = |query: InstanceQuery| -> (r: Expression<F>)
        ensures
            r == Expression::<F>::Instance(query),
        { Expression::Instance(query) };
    let negated = |a: Expression<F>| -> (r: Expression<F>)
        ensures
            r == Expression::Negated(Box::new(a)),
        { a.neg() };
    let sum = |a: Expression<F>, b: Expression<F>| -> (r: Expression<F>)
        requires
            !a.has_simple_selector() && !b.has_simple_selector(),
        ensures
            r == Expression::Sum(Box::new(a), Box::new(b)),
        { a + b };
    let product = |a: Expression<F>, b: Expression<F>| -> (r: Expression<F>)
        requires
            !(a.has_simple_selector() && b.has_simple_selector()),
        ensures
            r == Expression::Product(Box::new(a), Box::new(b)),
        { a * b };
    let scaled = |a: Expression<F>, f: F| -> (r: Expression<F>)
        ensures
            r == Expression::Scaled(Box::new(a), f),
        { a * f };
    proof {
        let ops = Operations {
            constant,
            selector: selector_column,
            fixed: fixed_column,
            advice: advice_column,
            instance: instance_column,
            negated,
            sum,
            product,
            scaled,
        };
        let alg = substitution(selector_replacements@, must_be_nonsimple);
        lemma_substitution(*expr, selector_replacements@, must_be_nonsimple);
        expression::lemma_evaluation(*expr, ops, alg);
    }
    expr.evaluate(
        &constant,
        &selector_column,
        &fixed_column,
        &advice_column,
        &instance_column,
        &negated,
        &sum,
        &product,
        &scaled,
    )
}

/// Expressions with their selectors replaced.
pub open spec fn substituted<F>(
    exprs: Seq<Expression<F>>,
    replacements: Seq<Expression<F>>,
) -> Seq<Expression<F>> {
    exprs.map_values(|e: Expression<F>| e.substitute(replacements))
}

/// States that the selectors of all of some expressions can be replaced.
pub open spec fn all_substitutable<F>(
    exprs: Seq<Expression<F>>,
    replacements: Seq<Expression<F>>,
    must_be_nonsimple: bool,
) -> bool {
    forall|i: int|
        0 <= i < exprs.len() ==> (#[trigger] exprs[i]).substitutable(
            replacements,
            must_be_nonsimple,
        )
}

/// Replaces the selectors of some expressions.
fn replace_all<F: Copy>(
    exprs: &Vec<Expression<F>>,
    selector_replacements: &Vec<Expression<F>>,
    must_be_nonsimple: bool,
) -> (r: Vec<Expression<F>>)
    requires
        all_substitutable(exprs@, selector_replacements@, must_be_nonsimple),
    ensures
        r@ == substituted(exprs@, selector_replacements@),
{
    let mut r: Vec<Expression<F>> = Vec::new();
    let mut i: usize = 0;
    while i < exprs.len()
        invariant
            i <= exprs@.len(),
            all_substitutable(exprs@, selector_replacements@, must_be_nonsimple),
            r@ == substituted(exprs@.take(i as int), selector_replacements@),
        decreases exprs@.len() - i,
    {
        r.push(replace_selectors(&exprs[i], selector_replacements, must_be_nonsimple));
        i = i + 1;
        assert(r@ =~= substituted(exprs@.take(i as int), selector_replacements@));
    }
    assert(exprs@.take(i as int) =~= exprs@);
    r
}

// ---------------------------------------------------------------------------------
// Compression
// ---------------------------------------------------------------------------------

/// This describes a selector and where it is activated.
#[derive(Debug)]
pub struct SelectorDescription {
    /// The selector that this description references, by index.
    pub selector: usize,
    /// The vector of booleans defining which rows are active for this selector.
    pub activations: Vec<bool>,
    /// The maximum degree of a gate involving this selector, including the virtual
    /// selector itself. This means this will be at least 1 for any expression containing a
    /// simple selector, even if that selector is not multiplied by anything.
    pub max_degree: usize,
}

/// This describes the assigned combination of a particular selector as well as
/// the expression it should be substituted with.
#[derive(Debug)]
pub struct SelectorAssignment<F> {
    /// The selector that this structure references, by index.
    pub selector: usize,
    /// The combination this selector was assigned to
    pub combination_index: usize,
    /// The expression we wish to substitute with
    pub expression: Expression<F>,
}

/// The fixed columns that are allocated for combinations of selectors.
#[derive(Debug)]
pub struct SelectorColumns<'a, F> {
    /// The system in which the columns are allocated.
    pub meta: &'a mut ConstraintSystem<F>,
    /// The columns, in the order in which they were allocated.
    pub columns: Vec<Column<Fixed>>,
}

impl<F> constraint_system::SystemModel<F> {
    /// The system with `k` more fixed columns, each queried at the current row.
    pub open spec fn with_selector_columns(self, k: nat) -> Self
        decreases k,
    {
        if k == 0 {
            self
        } else {
            let before = self.with_selector_columns((k - 1) as nat);
            before.with_fixed_column().with_fixed_query(
                Column { column_type: Fixed, index: before.num_fixed_columns as usize },
            )
        }
    }

    /// The `k` columns behind the fixed columns of the system.
    pub open spec fn selector_columns(self, k: nat) -> Seq<Column<Fixed>> {
        Seq::new(
            k,
            |i: int| Column { column_type: Fixed, index: (self.num_fixed_columns + i) as usize },
        )
    }
}

/// Allocating fixed columns changes nothing but the number of fixed columns and their queries,
/// and keeps a system well formed.
pub proof fn lemma_selector_columns<F>(cs: constraint_system::SystemModel<F>, k: nat)
    ensures
        cs.with_selector_columns(k) == (constraint_system::SystemModel {
            num_fixed_columns: cs.num_fixed_columns + k,
            fixed_queries: cs.with_selector_columns(k).fixed_queries,
            ..cs
        }),
        cs.fixed_queries.is_prefix_of(cs.with_selector_columns(k).fixed_queries),
        cs.well_formed() ==> cs.with_selector_columns(k).well_formed(),
    decreases k,
{
    if k > 0 {
        let before = cs.with_selector_columns((k - 1) as nat);
        lemma_selector_columns(cs, (k - 1) as nat);
        let after = cs.with_selector_columns(k);
        assert(cs.fixed_queries =~= after.fixed_queries.take(cs.fixed_queries.len() as int));
        if cs.well_formed() {
            constraint_system::lemma_with_column(before);
            constraint_system::lemma_with_fixed_query(
                before.with_fixed_column(),
                Column { column_type: Fixed, index: before.num_fixed_columns as usize },
            );
        }
    }
}

/// States that `columns` are those of the system `cs` once some are allocated, and that nothing
/// else was done to the system.
pub open spec fn allocated_from<F>(
    columns: SelectorColumns<'_, F>,
    cs: constraint_system::SystemModel<F>,
) -> bool {
    let k = columns.columns@.len();
    &&& columns.meta@ == cs.with_selector_columns(k)
    &&& columns.columns@ == cs.selector_columns(k)
}

impl<'a, F> SelectorColumns<'a, F> {
    /// The columns of a system, of which none has been allocated.
    pub fn new(meta: &'a mut ConstraintSystem<F>) -> (r: Self)
        ensures
            r.meta@ == old(meta)@,
            r.columns@ == Seq::<Column<Fixed>>::empty(),
            allocated_from(r, old(meta)@),
            *final(r.meta) == *final(meta),
    {
        assert(meta@.selector_columns(0) =~= seq![]);
        SelectorColumns { meta, columns: vec![] }
    }

    /// Allocates a fixed column, and returns its query at the current row.
    pub fn allocate(&mut self) -> (e: Expression<F>)
        requires
            old(self).meta@.num_fixed_columns < usize::MAX,
        ensures
            ({
                let column = Column {
                    column_type: Fixed,
                    index: old(self).meta@.num_fixed_columns as usize,
                };
                &&& e == constraint_system::fixed_expression::<F>(
                    old(self).meta@.fixed_queries,
                    column,
                )
                &&& final(self).columns@ == old(self).columns@.push(column)
                &&& final(self).meta@ == old(self).meta@.with_fixed_column().with_fixed_query(
                    column,
                )
            }),
            old(self).meta@.well_formed() ==> final(self).meta@.well_formed(),
            forall|cs: constraint_system::SystemModel<F>|
                allocated_from(*old(self), cs) ==> #[trigger] allocated_from(*final(self), cs),
            *final(final(self).meta) == *final(old(self).meta),
    {
        let ghost k = self.columns@.len();
        proof {
            assert forall|cs: constraint_system::SystemModel<F>| allocated_from(
                *self,
                cs,
            ) implies self.columns@.push(
                Column { column_type: Fixed, index: self.meta@.num_fixed_columns as usize },
            ) == #[trigger] cs.selector_columns(k + 1) by {
                lemma_selector_columns(cs, k);
                assert(self.columns@.push(
                    Column { column_type: Fixed, index: self.meta@.num_fixed_columns as usize },
                ) =~= cs.selector_columns(k + 1));
            }
        }
        let column = self.meta.fixed_column();
        assert(column.column_type == Fixed);
        self.columns.push(column);
        Expression::Fixed(
            FixedQuery {
                index: self.meta.query_fixed_index(column),
                column_index: column.index,
                rotation: Rotation::cur(),
            },
        )
    }
}

/// The largest degree of a polynomial whose simple selector has the given index, or 0 if
/// there is none.
pub open spec fn selector_degree<F>(polys: Seq<Expression<F>>, index: int) -> nat
    decreases polys.len(),
{
    if polys.len() == 0 {
        0
    } else {
        let rest = selector_degree(polys.drop_last(), index);
        match expression::first(polys.last().simple_selectors()) {
            Some(selector) => if selector.0 == index {
                expression::max_nat(rest, polys.last().degree_spec())
            } else {
                rest
            },
            None => rest,
        }
    }
}

/// States that the polynomials of a gate can be looked through for simple selectors: each
/// contains one at most, which is among the `n` selectors of the system.
pub open spec fn selectors_extractable<F>(polys: Seq<Expression<F>>, n: nat) -> bool {
    forall|i: int|
        0 <= i < polys.len() ==> {
            &&& (#[trigger] polys[i]).simple_selectors().len() <= 1
            &&& polys[i].simple_selectors().len() == 1 ==> polys[i].simple_selectors()[0].0 < n
        }
}

/// Raises the degree of each selector to the largest degree of a polynomial that contains
/// it, where `seen` are the polynomials that have been looked at.
fn raise_degrees<F: Copy>(
    degrees: &mut Vec<usize>,
    polys: &[Expression<F>],
    Ghost(seen): Ghost<Seq<Expression<F>>>,
)
    requires
        selectors_extractable(polys@, old(degrees)@.len()),
        expression::max_degree(polys@, 0) <= usize::MAX,
        forall|i: int|
            0 <= i < old(degrees)@.len() ==> #[trigger] old(degrees)@[i] == selector_degree(
                seen,
                i,
            ),
    ensures
        final(degrees)@.len() == old(degrees)@.len(),
        forall|i: int|
            0 <= i < final(degrees)@.len() ==> #[trigger] final(degrees)@[i] == selector_degree(
                seen + polys@,
                i,
            ),
{
    let mut j: usize = 0;
    assert(seen + polys@.take(0) =~= seen);
    while j < polys.len()
        invariant
            j <= polys@.len(),
            degrees@.len() == old(degrees)@.len(),
            selectors_extractable(polys@, old(degrees)@.len()),
            expression::max_degree(polys@, 0) <= usize::MAX,
            forall|i: int|
                0 <= i < degrees@.len() ==> #[trigger] degrees@[i] == selector_degree(
                    seen + polys@.take(j as int),
                    i,
                ),
        decreases polys@.len() - j,
    {
        let ghost before = degrees@;
        proof {
            assert(polys@[j as int].simple_selectors().len() <= 1);
            expression::lemma_max_degree(polys@, 0);
            assert(polys@[j as int].degree_spec() <= usize::MAX);
        }
        if let Some(selector) = polys[j].extract_simple_selector() {
            let degree = expression::max(degrees[selector.0], polys[j].degree());
            degrees[selector.0] = degree;
        }
        proof {
            let longer = seen + polys@.take(j + 1);
            assert(longer.drop_last() =~= seen + polys@.take(j as int));
            assert(longer.last() == polys@[j as int]);
            assert forall|i: int| 0 <= i < degrees@.len() implies #[trigger] degrees@[i]
                == selector_degree(longer, i) by {
                assert(before[i] == selector_degree(seen + polys@.take(j as int), i));
            }
        }
        j = j + 1;
    }
    assert(polys@.take(j as int) =~= polys@);
}

/// The last assignment for the selector with the given index.
pub open spec fn last_assignment<F>(assignments: Seq<SelectorAssignment<F>>, index: int) -> Option<
    SelectorAssignment<F>,
>
    decreases assignments.len(),
{
    if assignments.len() == 0 {
        None
    } else if assignments.last().selector == index {
        Some(assignments.last())
    } else {
        last_assignment(assignments.drop_last(), index)
    }
}

/// States that there is an assignment for each selector, and that each assignment is for
/// one of the selectors and uses one of `columns` columns.
pub open spec fn complete<F>(assignments: Seq<SelectorAssignment<F>>, columns: nat) -> bool {
    &&& forall|k: int|
        0 <= k < assignments.len() ==> {
            &&& (#[trigger] assignments[k]).selector < assignments.len()
            &&& assignments[k].combination_index < columns
        }
    &&& forall|i: int|
        0 <= i < assignments.len() ==> #[trigger] last_assignment(assignments, i) is Some
}

/// The expressions by which the selectors are replaced.
pub open spec fn replacements_of<F>(assignments: Seq<SelectorAssignment<F>>) -> Seq<
    Expression<F>,
> {
    Seq::new(assignments.len(), |i: int| last_assignment(assignments, i)->Some_0.expression)
}

/// The columns in which the selectors end up.
pub open spec fn columns_of<F>(
    assignments: Seq<SelectorAssignment<F>>,
    columns: Seq<Column<Fixed>>,
) -> Seq<Column<Fixed>> {
    Seq::new(
        assignments.len(),
        |i: int| columns[last_assignment(assignments, i)->Some_0.combination_index as int],
    )
}

/// What the assignments say of each selector: its column and its replacement.
fn apply_assignments<F: Copy>(
    assignments: Vec<SelectorAssignment<F>>,
    new_columns: &Vec<Column<Fixed>>,
) -> (r: (Vec<Column<Fixed>>, Vec<Expression<F>>))
    requires
        complete(assignments@, new_columns@.len()),
    ensures
        r.0@ == columns_of(assignments@, new_columns@),
        r.1@ == replacements_of(assignments@),
{
    let ghost given = assignments@;
    let n = assignments.len();
    let mut map: Vec<Option<Column<Fixed>>> = Vec::new();
    let mut replacements: Vec<Option<Expression<F>>> = Vec::new();
    let mut i: usize = 0;
    while i < n
        invariant
            i <= n,
            map@.len() == i,
            replacements@.len() == i,
            forall|j: int| 0 <= j < i ==> #[trigger] map@[j] is None,
            forall|j: int| 0 <= j < i ==> #[trigger] replacements@[j] is None,
        decreases n - i,
    {
        map.push(None);
        replacements.push(None);
        i = i + 1;
    }
    assert(given.take(0) =~= seq![]);
    for assignment in it: assignments
        invariant
            it.seq() == given,
            n == given.len(),
            complete(given, new_columns@.len()),
            map@.len() == n,
            replacements@.len() == n,
            forall|j: int|
                0 <= j < n ==> #[trigger] map@[j] == (match last_assignment(
                    given.take(it.index()),
                    j,
                ) {
                    Some(a) => Some(new_columns@[a.combination_index as int]),
                    None => None,
                }),
            forall|j: int|
                0 <= j < n ==> #[trigger] replacements@[j] == (match last_assignment(
                    given.take(it.index()),
                    j,
                ) {
                    Some(a) => Some(a.expression),
                    None => None,
                }),
    {
        let ghost k = it.index();
        let ghost old_map = map@;
        let ghost old_replacements = replacements@;
        assert(assignment == given[k]);
        replacements[assignment.selector] = Some(assignment.expression);
        map[assignment.selector] = Some(new_columns[assignment.combination_index]);
        proof {
            assert(given.take(k + 1).drop_last() =~= given.take(k));
            assert(given.take(k + 1).last() == given[k]);
            assert forall|j: int| 0 <= j < n implies #[trigger] map@[j] == (match last_assignment(
                given.take(k + 1),
                j,
            ) {
                Some(a) => Some(new_columns@[a.combination_index as int]),
                None => None,
            }) by {
                assert(old_map[j] == (match last_assignment(given.take(k), j) {
                    Some(a) => Some(new_columns@[a.combination_index as int]),
                    None => None,
                }));
            }
            assert forall|j: int| 0 <= j < n implies #[trigger] replacements@[j] == (
            match last_assignment(given.take(k + 1), j) {
                Some(a) => Some(a.expression),
                None => None,
            }) by {
                assert(old_replacements[j] == (match last_assignment(given.take(k), j) {
                    Some(a) => Some(a.expression),
                    None => None,
                }));
            }
        }
    }
    assert(given.take(given.len() as int) =~= given);

    let mut selector_map: Vec<Column<Fixed>> = Vec::new();
    let mut selector_replacements: Vec<Expression<F>> = Vec::new();
    let mut i: usize = 0;
    while i < n
        invariant
            i <= n,
            n == given.len(),
            complete(given, new_columns@.len()),
            map@.len() == n,
            replacements@.len() == n,
            forall|j: int|
                0 <= j < n ==> #[trigger] map@[j] == (match last_assignment(given, j) {
                    Some(a) => Some(new_columns@[a.combination_index as int]),
                    None => None,
                }),
            forall|j: int|
                0 <= j < n ==> #[trigger] replacements@[j] == (match last_assignment(given, j) {
                    Some(a) => Some(a.expression),
                    None => None,
                }),
            selector_map@ == columns_of(given, new_columns@).take(i as int),
            selector_replacements@ == replacements_of(given).take(i as int),
        decreases n - i,
    {
        assert(last_assignment(given, i as int) is Some);
        match map[i] {
            Some(column) => {
                selector_map.push(column);
            },
            None => {},
        }
        match &replacements[i] {
            Some(e) => {
                selector_replacements.push(e.clone());
            },
            None => {},
        }
        i = i + 1;
        proof {
            assert(selector_map@ =~= columns_of(given, new_columns@).take(i as int));
            assert(selector_replacements@ =~= replacements_of(given).take(i as int));
        }
    }
    proof {
        assert(columns_of(given, new_columns@).take(n as int) =~= columns_of(given, new_columns@));
        assert(replacements_of(given).take(n as int) =~= replacements_of(given));
    }
    (selector_map, selector_replacements)
}

impl<F> constraint_system::SystemModel<F> {
    /// The system once the selectors in its gates and lookups are replaced.
    pub open spec fn compressed(
        self,
        selector_map: Seq<Column<Fixed>>,
        replacements: Seq<Expression<F>>,
    ) -> Self {
        constraint_system::SystemModel {
            selector_map,
            gates: self.gates.map_values(
                |g: gate::GateModel<F>|
                    gate::GateModel { polys: substituted(g.polys, replacements), ..g },
            ),
            lookups: self.lookups.map_values(
                |l: lookup::ArgumentModel<F>|
                    lookup::ArgumentModel {
                        inputs: substituted(l.inputs, replacements),
                        tables: substituted(l.tables, replacements),
                    },
            ),
            ..self
        }
    }

    /// States that the selectors in the gates and lookups of the system can be replaced.
    pub open spec fn compressible(self, replacements: Seq<Expression<F>>) -> bool {
        &&& forall|i: int|
            0 <= i < self.gates.len() ==> all_substitutable(
                (#[trigger] self.gates[i]).polys,
                replacements,
                false,
            )
        &&& forall|i: int|
            0 <= i < self.lookups.len() ==> {
                &&& all_substitutable((#[trigger] self.lookups[i]).inputs, replacements, true)
                &&& all_substitutable(self.lookups[i].tables, replacements, true)
            }
    }
}

/// States that `descriptions` describe the selectors of the system `cs`, whose activations
/// are given.
pub open spec fn describes<F>(
    descriptions: Seq<SelectorDescription>,
    cs: constraint_system::SystemModel<F>,
    activations: Seq<Vec<bool>>,
) -> bool {
    &&& descriptions.len() == activations.len()
    &&& forall|i: int|
        0 <= i < descriptions.len() ==> {
            &&& (#[trigger] descriptions[i]).selector == i
            &&& descriptions[i].activations == activations[i]
            &&& descriptions[i].max_degree == selector_degree(
                constraint_system::polys_of(cs.gates),
                i,
            )
        }
}

/// States that `columns` are the columns of the system `cs` before any is allocated.
pub open spec fn unallocated<F>(
    columns: SelectorColumns<'_, F>,
    cs: constraint_system::SystemModel<F>,
) -> bool {
    &&& columns.meta@ == cs
    &&& columns.columns@ == Seq::<Column<Fixed>>::empty()
}

impl<F: Copy> ConstraintSystem<F> {
    /// Computes the maximal degree of every selector. We only consider the
    /// expressions in gates, as lookup arguments cannot support simple
    /// selectors. Selectors that are complex or do not appear in any gates
    /// will have degree zero.
    pub fn selector_degrees(&self, n: usize) -> (degrees: Vec<usize>)
        requires
            forall|i: int|
                0 <= i < self@.gates.len() ==> selectors_extractable(
                    (#[trigger] self@.gates[i]).polys,
                    n as nat,
                ),
            constraint_system::gates_degree(self@.gates) <= usize::MAX,
        ensures
            degrees@.len() == n,
            forall|i: int|
                0 <= i < n ==> #[trigger] degrees@[i] == selector_degree(
                    constraint_system::polys_of(self@.gates),
                    i,
                ),
    {
        let ghost gates = self@.gates;
        let mut degrees: Vec<usize> = Vec::new();
        let mut i: usize = 0;
        while i < n
            invariant
                i <= n,
                degrees@.len() == i,
                forall|j: int| 0 <= j < i ==> #[trigger] degrees@[j] == 0,
            decreases n - i,
        {
            degrees.push(0);
            i = i + 1;
        }
        let mut g: usize = 0;
        assert(gates.take(0) =~= seq![]);
        while g < self.gates.len()
            invariant
                g <= self.gates@.len(),
                gates == self@.gates,
                gates == constraint_system::gate_models(self.gates@),
                degrees@.len() == n,
                forall|i: int|
                    0 <= i < gates.len() ==> selectors_extractable(
                        (#[trigger] gates[i]).polys,
                        n as nat,
                    ),
                constraint_system::gates_degree(gates) <= usize::MAX,
                forall|j: int|
                    0 <= j < n ==> #[trigger] degrees@[j] == selector_degree(
                        constraint_system::polys_of(gates.take(g as int)),
                        j,
                    ),
            decreases self.gates@.len() - g,
        {
            let ghost seen = constraint_system::polys_of(gates.take(g as int));
            proof {
                constraint_system::lemma_gates_degree(gates);
                assert(gates[g as int] == self.gates@[g as int]@);
                assert(selectors_extractable(gates[g as int].polys, n as nat));
            }
            raise_degrees(&mut degrees, self.gates[g].polynomials(), Ghost(seen));
            proof {
                assert(gates.take(g + 1).drop_last() =~= gates.take(g as int));
                assert(gates.take(g + 1).last() == gates[g as int]);
                assert(constraint_system::polys_of(gates.take(g + 1)) == seen
                    + gates[g as int].polys);
            }
            g = g + 1;
        }
        assert(gates.take(g as int) =~= gates);
        degrees
    }

    /// Replaces the selectors in the gates and the lookups.
    fn replace_all_selectors(
        self,
        selector_map: Vec<Column<Fixed>>,
        selector_replacements: &Vec<Expression<F>>,
    ) -> (r: Self)
        requires
            self@.compressible(selector_replacements@),
        ensures
            r@ == self@.compressed(selector_map@, selector_replacements@),
    {
        let ghost before = self@;
        let ghost replacements = selector_replacements@;
        let cs = self;

        // Substitute selectors for the real fixed columns in all gates
        let ghost new_gate = |g: gate::GateModel<F>|
            gate::GateModel { polys: substituted(g.polys, replacements), ..g };
        let mut gates: Vec<Gate<F>> = Vec::new();
        let ghost old_gates = cs.gates@;
        for old_gate in it: cs.gates
            invariant
                it.seq() == old_gates,
                before.gates == constraint_system::gate_models(old_gates),
                before.compressible(replacements),
                replacements == selector_replacements@,
                new_gate == (|g: gate::GateModel<F>|
                    gate::GateModel { polys: substituted(g.polys, replacements), ..g }),
                constraint_system::gate_models(gates@) == before.gates.take(
                    it.index(),
                ).map_values(new_gate),
        {
            let ghost k = it.index();
            let ghost done = gates@;
            proof {
                assert(before.gates[k] == old_gate@);
            }
            let polys = replace_all(&old_gate.polys, selector_replacements, false);
            let new = Gate {
                name: old_gate.name,
                constraint_names: old_gate.constraint_names,
                polys,
                queried_selectors: old_gate.queried_selectors,
                queried_cells: old_gate.queried_cells,
            };
            gates.push(new);
            proof {
                assert(constraint_system::gate_models(gates@)
                    =~= constraint_system::gate_models(done).push(new@));
                assert(before.gates.take(k + 1).map_values(new_gate) =~= before.gates.take(
                    k,
                ).map_values(new_gate).push(new_gate(before.gates[k])));
                assert(new@ =~= new_gate(before.gates[k]));
            }
        }
        assert(before.gates.take(before.gates.len() as int) =~= before.gates);

        // Substitute non-simple selectors for the real fixed columns in all
        // lookup expressions
        let ghost new_lookup = |l: lookup::ArgumentModel<F>|
            lookup::ArgumentModel {
                inputs: substituted(l.inputs, replacements),
                tables: substituted(l.tables, replacements),
            };
        let mut lookups: Vec<lookup::Argument<F>> = Vec::new();
        let ghost old_lookups = cs.lookups@;
        for old_lookup in it: cs.lookups
            invariant
                it.seq() == old_lookups,
                before.lookups == constraint_system::lookup_models(old_lookups),
                before.compressible(replacements),
                replacements == selector_replacements@,
                new_lookup == (|l: lookup::ArgumentModel<F>|
                    lookup::ArgumentModel {
                        inputs: substituted(l.inputs, replacements),
                        tables: substituted(l.tables, replacements),
                    }),
                constraint_system::lookup_models(lookups@) == before.lookups.take(
                    it.index(),
                ).map_values(new_lookup),
        {
            let ghost k = it.index();
            let ghost done = lookups@;
            proof {
                assert(before.lookups[k] == old_lookup@);
            }
            let input_expressions = replace_all(
                &old_lookup.input_expressions,
                selector_replacements,
                true,
            );
            let table_expressions = replace_all(
                &old_lookup.table_expressions,
                selector_replacements,
                true,
            );
            let new = lookup::Argument { input_expressions, table_expressions };
            lookups.push(new);
            proof {
                assert(constraint_system::lookup_models(lookups@)
                    =~= constraint_system::lookup_models(done).push(new@));
                assert(before.lookups.take(k + 1).map_values(new_lookup) =~= before.lookups.take(
                    k,
                ).map_values(new_lookup).push(new_lookup(before.lookups[k])));
                assert(new@ =~= new_lookup(before.lookups[k]));
            }
        }
        assert(before.lookups.take(before.lookups.len() as int) =~= before.lookups);

        ConstraintSystem {
            num_fixed_columns: cs.num_fixed_columns,
            num_advice_columns: cs.num_advice_columns,
            num_instance_columns: cs.num_instance_columns,
            num_selectors: cs.num_selectors,
            selector_map,
            gates,
            advice_queries: cs.advice_queries,
            num_advice_queries: cs.num_advice_queries,
            instance_queries: cs.instance_queries,
            fixed_queries: cs.fixed_queries,
            permutation: cs.permutation,
            lookups,
            constants: cs.constants,
            minimum_degree: cs.minimum_degree,
        }
    }

    /// This will compress selectors together depending on their provided
    /// assignments. This `ConstraintSystem` will then be modified to add new
    /// fixed columns (representing the actual selectors) and will return the
    /// polynomials for those columns. Finally, an internal map is updated to
    /// find which fixed column corresponds with a given `Selector`.
    ///
    /// `process` combines the selectors: it is given their descriptions, the degree that
    /// must not be exceeded and the columns from which it allocates one for each
    /// combination, and returns the polynomials of the combinations and what becomes of
    /// each selector. Of the system, it only allocates columns. The degree of the constraint
    /// system is not increased, if no selector is simple in one expression and complex in
    /// another.
    ///
    /// The number of provided selector assignments must be the number we counted for this
    /// constraint system. Do not call this twice.
    pub fn compress_selectors<P>(self, selectors: Vec<Vec<bool>>, process: P) -> (r: (
        Self,
        Vec<Vec<F>>,
    )) where
        P: FnOnce(Vec<SelectorDescription>, usize, &mut SelectorColumns<'_, F>) -> (
            Vec<Vec<F>>,
            Vec<SelectorAssignment<F>>,
        ),

        requires
            selectors@.len() == self@.num_selectors,
            forall|i: int|
                0 <= i < self@.gates.len() ==> selectors_extractable(
                    (#[trigger] self@.gates[i]).polys,
                    self@.num_selectors,
                ),
            self@.lookups_paired(),
            self@.degree() <= usize::MAX,
            forall|
                descriptions: Vec<SelectorDescription>,
                max_degree: usize,
                columns: &mut SelectorColumns<'_, F>,
            |
                describes(descriptions@, self@, selectors@) && max_degree == self@.degree()
                    && unallocated(*columns, self@) ==> #[trigger] process.requires(
                    (descriptions, max_degree, columns),
                ),
            forall|
                descriptions: Vec<SelectorDescription>,
                max_degree: usize,
                columns: &mut SelectorColumns<'_, F>,
                out: (Vec<Vec<F>>, Vec<SelectorAssignment<F>>),
            |
                describes(descriptions@, self@, selectors@) && max_degree == self@.degree()
                    && unallocated(*columns, self@) && #[trigger] process.ensures(
                    (descriptions, max_degree, columns),
                    out,
                ) ==> {
                    &&& *final(final(columns).meta) == *final((*columns).meta)
                    &&& allocated_from(*final(columns), self@)
                    &&& complete(out.1@, final(columns).columns@.len())
                    &&& self@.compressible(replacements_of(out.1@))
                    &&& combined_within(
                        constraint_system::polys_of(self@.gates),
                        replacements_of(out.1@),
                        max_degree as nat,
                    )
                },
        ensures
            exists|
                descriptions: Vec<SelectorDescription>,
                max_degree: usize,
                columns: &mut SelectorColumns<'_, F>,
                out: (Vec<Vec<F>>, Vec<SelectorAssignment<F>>),
            | {
                &&& describes(descriptions@, self@, selectors@)
                &&& max_degree == self@.degree()
                &&& unallocated(*columns, self@)
                &&& #[trigger] process.ensures((descriptions, max_degree, columns), out)
                &&& ({
                    let k = final(columns).columns@.len();
                    &&& r.0@ == self@.with_selector_columns(k).compressed(
                        columns_of(out.1@, self@.selector_columns(k)),
                        replacements_of(out.1@),
                    )
                    &&& r.0@.num_fixed_columns == self@.num_fixed_columns + k
                })
                &&& r.1 == out.0
                &&& self@.well_formed() && selectorless(replacements_of(out.1@))
                    ==> r.0@.well_formed()
            },
            r.0@ == (constraint_system::SystemModel {
                num_fixed_columns: r.0@.num_fixed_columns,
                selector_map: r.0@.selector_map,
                gates: r.0@.gates,
                fixed_queries: r.0@.fixed_queries,
                lookups: r.0@.lookups,
                ..self@
            }),
            self@.fixed_queries.is_prefix_of(r.0@.fixed_queries),
            r.0@.gates.len() == self@.gates.len(),
            r.0@.lookups.len() == self@.lookups.len(),
            selectors_of_one_kind(self@) ==> r.0@.degree() <= self@.degree(),
    {
        let mut cs = self;
        proof {
            constraint_system::lemma_degree(cs@);
        }
        let n = selectors.len();
        let degrees = cs.selector_degrees(n);

        // We will not increase the degree of the constraint system, so we limit
        // ourselves to the largest existing degree constraint.
        let max_degree = cs.degree();

        let ghost given = selectors@;
        let mut descriptions: Vec<SelectorDescription> = Vec::new();
        let mut i: usize = 0;
        for activations in it: selectors
            invariant
                it.seq() == given,
                i == it.index(),
                n == given.len(),
                degrees@.len() == given.len(),
                descriptions@.len() == it.index(),
                forall|j: int|
                    0 <= j < it.index() ==> {
                        &&& (#[trigger] descriptions@[j]).selector == j
                        &&& descriptions@[j].activations == given[j]
                        &&& descriptions@[j].max_degree == degrees@[j]
                    },
        {
            descriptions.push(
                SelectorDescription { selector: i, activations, max_degree: degrees[i] },
            );
            i = i + 1;
        }

        let mut columns = SelectorColumns::new(&mut cs);
        let (polys, selector_assignment) = process(descriptions, max_degree, &mut columns);
        let new_columns = columns.columns;
        let (selector_map, selector_replacements) = apply_assignments(
            selector_assignment,
            &new_columns,
        );

        proof {
            let k = new_columns@.len();
            lemma_selector_columns(self@, k);
            if self@.well_formed() && selectorless(selector_replacements@) {
                lemma_compressible(cs@, selector_replacements@);
                lemma_compressed(cs@, selector_map@, selector_replacements@);
            }
            if selectors_of_one_kind(self@) {
                let simple = choose|simple: Seq<bool>| #[trigger] kinds_listed(self@, simple);
                lemma_extractable_polys(cs@.gates, self@.num_selectors);
                lemma_combined_within(cs@, selector_replacements@, simple);
                lemma_system_degree_kept(cs@, selector_map@, selector_replacements@);
            }
        }
        (cs.replace_all_selectors(selector_map, &selector_replacements), polys)
    }
}

/// States that some expressions hold no selectors.
pub open spec fn selectorless<F>(exprs: Seq<Expression<F>>) -> bool {
    forall|i: int| 0 <= i < exprs.len() ==> (#[trigger] exprs[i]).selectors().len() == 0
}

/// States that every selector in an expression is one of `n` selectors, and not a simple
/// one if `must_be_nonsimple`.
pub open spec fn selectors_within<F>(
    e: Expression<F>,
    n: nat,
    must_be_nonsimple: bool,
) -> bool {
    forall|i: int|
        0 <= i < e.selectors().len() ==> {
            &&& (#[trigger] e.selectors()[i]).0 < n
            &&& must_be_nonsimple ==> !e.selectors()[i].1
        }
}

/// A selector that is complex or does not appear in any gate has degree zero.
pub proof fn lemma_unused_selector<F>(polys: Seq<Expression<F>>, index: int)
    requires
        forall|i: int|
            0 <= i < polys.len() ==> (expression::first(
                (#[trigger] polys[i]).simple_selectors(),
            ) matches Some(selector) ==> selector.0 != index),
    ensures
        selector_degree(polys, index) == 0,
    decreases polys.len(),
{
    if polys.len() > 0 {
        let init = polys.drop_last();
        assert forall|i: int| 0 <= i < init.len() implies (expression::first(
            (#[trigger] init[i]).simple_selectors(),
        ) matches Some(selector) ==> selector.0 != index) by {
            assert(init[i] == polys[i]);
        }
        lemma_unused_selector(init, index);
        assert(polys[polys.len() - 1] == polys.last());
    }
}

/// The degree of a selector bounds the degree of every polynomial from which it is
/// extracted.
pub proof fn lemma_selector_degree<F>(polys: Seq<Expression<F>>, i: int)
    requires
        0 <= i < polys.len(),
        polys[i].simple_selectors().len() > 0,
    ensures
        polys[i].degree_spec() <= selector_degree(
            polys,
            polys[i].simple_selectors()[0].0 as int,
        ),
    decreases polys.len(),
{
    let init = polys.drop_last();
    if i < init.len() {
        assert(init[i] == polys[i]);
        lemma_selector_degree(init, i);
    }
}

/// Replacements that hold no selectors can be put in the place of the selectors of a system
/// whose lookups contain no simple ones. No selector is left then, and a well-formed system
/// stays well formed.
pub proof fn lemma_compressed<F>(
    cs: constraint_system::SystemModel<F>,
    selector_map: Seq<Column<Fixed>>,
    replacements: Seq<Expression<F>>,
)
    requires
        forall|i: int|
            0 <= i < replacements.len() ==> (#[trigger] replacements[i]).selectors().len() == 0,
        forall|g: int, i: int|
            0 <= g < cs.gates.len() && 0 <= i < cs.gates[g].polys.len() ==> selectors_within(
                #[trigger] cs.gates[g].polys[i],
                replacements.len(),
                false,
            ),
        forall|l: int, i: int|
            0 <= l < cs.lookups.len() && 0 <= i < cs.lookups[l].inputs.len() ==> selectors_within(
                #[trigger] cs.lookups[l].inputs[i],
                replacements.len(),
                true,
            ),
        forall|l: int, i: int|
            0 <= l < cs.lookups.len() && 0 <= i < cs.lookups[l].tables.len() ==> selectors_within(
                #[trigger] cs.lookups[l].tables[i],
                replacements.len(),
                true,
            ),
    ensures
        cs.compressible(replacements),
        ({
            let after = cs.compressed(selector_map, replacements);
            &&& forall|g: int, i: int|
                0 <= g < after.gates.len() && 0 <= i < after.gates[g].polys.len() ==> (
                #[trigger] after.gates[g].polys[i]).selectors().len() == 0
            &&& forall|l: int, i: int|
                0 <= l < after.lookups.len() && 0 <= i < after.lookups[l].inputs.len() ==> (
                #[trigger] after.lookups[l].inputs[i]).selectors().len() == 0
            &&& forall|l: int, i: int|
                0 <= l < after.lookups.len() && 0 <= i < after.lookups[l].tables.len() ==> (
                #[trigger] after.lookups[l].tables[i]).selectors().len() == 0
            &&& cs.well_formed() ==> after.well_formed()
        }),
{
    let after = cs.compressed(selector_map, replacements);
    assert forall|g: int, i: int|
        0 <= g < cs.gates.len() && 0 <= i < cs.gates[g].polys.len() implies (
    #[trigger] cs.gates[g].polys[i]).substitutable(replacements, false) && cs.gates[g].polys[i]
        .substitute(replacements).selectors().len() == 0 by {
        assert(selectors_within(cs.gates[g].polys[i], replacements.len(), false));
        lemma_selectors_replaced(cs.gates[g].polys[i], replacements, false);
    }
    assert forall|l: int, i: int|
        0 <= l < cs.lookups.len() && 0 <= i < cs.lookups[l].inputs.len() implies (
    #[trigger] cs.lookups[l].inputs[i]).substitutable(replacements, true)
        && cs.lookups[l].inputs[i].substitute(replacements).selectors().len() == 0 by {
        assert(selectors_within(cs.lookups[l].inputs[i], replacements.len(), true));
        lemma_selectors_replaced(cs.lookups[l].inputs[i], replacements, true);
    }
    assert forall|l: int, i: int|
        0 <= l < cs.lookups.len() && 0 <= i < cs.lookups[l].tables.len() implies (
    #[trigger] cs.lookups[l].tables[i]).substitutable(replacements, true)
        && cs.lookups[l].tables[i].substitute(replacements).selectors().len() == 0 by {
        assert(selectors_within(cs.lookups[l].tables[i], replacements.len(), true));
        lemma_selectors_replaced(cs.lookups[l].tables[i], replacements, true);
    }
    assert forall|g: int, i: int|
        0 <= g < after.gates.len() && 0 <= i < after.gates[g].polys.len() implies (
    #[trigger] after.gates[g].polys[i]).selectors().len() == 0 by {
        assert(after.gates[g].polys[i] == cs.gates[g].polys[i].substitute(replacements));
    }
    assert forall|l: int, i: int|
        0 <= l < after.lookups.len() && 0 <= i < after.lookups[l].inputs.len() implies (
    #[trigger] after.lookups[l].inputs[i]).selectors().len() == 0 by {
        assert(after.lookups[l].inputs[i] == cs.lookups[l].inputs[i].substitute(replacements));
    }
    assert forall|l: int, i: int|
        0 <= l < after.lookups.len() && 0 <= i < after.lookups[l].tables.len() implies (
    #[trigger] after.lookups[l].tables[i]).selectors().len() == 0 by {
        assert(after.lookups[l].tables[i] == cs.lookups[l].tables[i].substitute(replacements));
    }
    if cs.well_formed() {
        constraint_system::lemma_same_tables(cs, after);
        assert forall|i: int| 0 <= i < after.gates.len() implies {
            &&& (#[trigger] after.gates[i]).polys.len() > 0
            &&& after.gates[i].constraint_names.len() == after.gates[i].polys.len()
        } by {
            assert(cs.gates[i].polys.len() > 0);
        }
        assert forall|i: int| 0 <= i < after.lookups.len() implies {
            &&& (#[trigger] after.lookups[i]).paired()
            &&& forall|j: int|
                0 <= j < after.lookups[i].inputs.len() ==> !(
                #[trigger] after.lookups[i].inputs[j]).has_simple_selector()
        } by {
            assert(cs.lookups[i].paired());
            assert forall|j: int| 0 <= j < after.lookups[i].inputs.len() implies !(
            #[trigger] after.lookups[i].inputs[j]).has_simple_selector() by {
                lemma_simple_selectors(after.lookups[i].inputs[j]);
            }
        }
    }
}

/// States that each selector in an expression that is not simple is replaced by an
/// expression of degree one at most.
pub open spec fn complex_replaced_by_linear<F>(
    e: Expression<F>,
    replacements: Seq<Expression<F>>,
) -> bool {
    forall|i: int|
        0 <= i < e.selectors().len() ==> (!(#[trigger] e.selectors()[i]).1
            ==> replacements[e.selectors()[i].0 as int].degree_spec() <= 1)
}

/// Replacing selectors raises the degree of an expression by no more than the degree of what
/// its simple selector is replaced by exceeds one.
proof fn lemma_substituted_degree<F>(e: Expression<F>, replacements: Seq<Expression<F>>)
    requires
        e.simple_selectors().len() <= 1,
        complex_replaced_by_linear(e, replacements),
    ensures
        e.simple_selectors().len() == 0 ==> e.substitute(replacements).degree_spec()
            <= e.degree_spec(),
        e.simple_selectors().len() == 1 ==> e.substitute(replacements).degree_spec() + 1
            <= e.degree_spec() + expression::max_nat(
            1,
            replacements[e.simple_selectors()[0].0 as int].degree_spec(),
        ),
    decreases e,
{
    match e {
        Expression::Selector(selector) => {
            assert(e.selectors()[0] == selector);
        },
        Expression::Negated(a) => {
            assert(e.selectors() == a.selectors());
            lemma_substituted_degree(*a, replacements);
        },
        Expression::Sum(a, b) => {
            lemma_complex_of_operands(e, *a, *b, replacements);
            lemma_substituted_degree(*a, replacements);
            lemma_substituted_degree(*b, replacements);
        },
        Expression::Product(a, b) => {
            lemma_complex_of_operands(e, *a, *b, replacements);
            lemma_substituted_degree(*a, replacements);
            lemma_substituted_degree(*b, replacements);
        },
        Expression::Scaled(a, _) => {
            assert(e.selectors() == a.selectors());
            lemma_substituted_degree(*a, replacements);
        },
        _ => {},
    }
}

/// What holds of the complex selectors of an expression holds of those of its operands.
proof fn lemma_complex_of_operands<F>(
    e: Expression<F>,
    a: Expression<F>,
    b: Expression<F>,
    replacements: Seq<Expression<F>>,
)
    requires
        e.selectors() == a.selectors() + b.selectors(),
        complex_replaced_by_linear(e, replacements),
    ensures
        complex_replaced_by_linear(a, replacements),
        complex_replaced_by_linear(b, replacements),
{
    assert forall|i: int|
        0 <= i < a.selectors().len() && !(#[trigger] a.selectors()[i]).1 implies replacements[
    a.selectors()[i].0 as int].degree_spec() <= 1 by {
        assert(e.selectors()[i] == a.selectors()[i]);
    }
    assert forall|i: int|
        0 <= i < b.selectors().len() && !(#[trigger] b.selectors()[i]).1 implies replacements[
    b.selectors()[i].0 as int].degree_spec() <= 1 by {
        assert(e.selectors()[a.selectors().len() + i] == b.selectors()[i]);
    }
}

/// Replacing selectors does not raise the degree of a polynomial above `max_degree`, if
/// complex selectors are replaced by expressions of degree one at most, and each simple
/// selector by an expression whose degree leaves room for the polynomials that contain it.
pub proof fn lemma_degree_kept<F>(
    polys: Seq<Expression<F>>,
    replacements: Seq<Expression<F>>,
    max_degree: nat,
    i: int,
)
    requires
        0 <= i < polys.len(),
        polys[i].simple_selectors().len() <= 1,
        complex_replaced_by_linear(polys[i], replacements),
        polys[i].degree_spec() <= max_degree,
        polys[i].simple_selectors().len() == 1 ==> {
            let index = polys[i].simple_selectors()[0].0 as int;
            selector_degree(polys, index) + replacements[index].degree_spec() <= max_degree + 1
        },
    ensures
        polys[i].substitute(replacements).degree_spec() <= max_degree,
{
    lemma_substituted_degree(polys[i], replacements);
    if polys[i].simple_selectors().len() == 1 {
        lemma_selector_degree(polys, i);
    }
}

/// States that no expression is raised in degree where its selectors are replaced: it has no
/// simple selector, and each other selector is replaced by an expression of degree one at
/// most.
pub open spec fn replaced_by_linear<F>(
    exprs: Seq<Expression<F>>,
    replacements: Seq<Expression<F>>,
) -> bool {
    forall|i: int|
        0 <= i < exprs.len() ==> {
            &&& (#[trigger] exprs[i]).simple_selectors().len() == 0
            &&& complex_replaced_by_linear(exprs[i], replacements)
        }
}

/// States that the degree of a system leaves room for the replacements of its selectors:
///
/// - complex selectors are replaced by expressions of degree one at most
/// - each polynomial of a gate has one simple selector at most, which is replaced by an
///   expression whose degree leaves room for the polynomials that contain it
/// - lookups contain no simple selectors
pub open spec fn leaves_room<F>(
    cs: constraint_system::SystemModel<F>,
    replacements: Seq<Expression<F>>,
) -> bool {
    let polys = constraint_system::polys_of(cs.gates);
    &&& forall|i: int|
        0 <= i < polys.len() ==> {
            &&& (#[trigger] polys[i]).simple_selectors().len() <= 1
            &&& complex_replaced_by_linear(polys[i], replacements)
            &&& polys[i].simple_selectors().len() == 1 ==> {
                let index = polys[i].simple_selectors()[0].0 as int;
                selector_degree(polys, index) + replacements[index].degree_spec() <= cs.degree()
                    + 1
            }
        }
    &&& forall|l: int|
        0 <= l < cs.lookups.len() ==> {
            &&& replaced_by_linear((#[trigger] cs.lookups[l]).inputs, replacements)
            &&& replaced_by_linear(cs.lookups[l].tables, replacements)
        }
}

/// Where no expression is raised in degree, neither is the largest degree.
proof fn lemma_largest_degree_kept<F>(
    exprs: Seq<Expression<F>>,
    replacements: Seq<Expression<F>>,
    floor: nat,
)
    requires
        replaced_by_linear(exprs, replacements),
    ensures
        expression::max_degree(substituted(exprs, replacements), floor) <= expression::max_degree(
            exprs,
            floor,
        ),
{
    let after = substituted(exprs, replacements);
    let bound = expression::max_degree(exprs, floor);
    expression::lemma_max_degree(exprs, floor);
    assert forall|i: int| 0 <= i < after.len() implies (#[trigger] after[i]).degree_spec()
        <= bound by {
        assert(after[i] == exprs[i].substitute(replacements));
        lemma_substituted_degree(exprs[i], replacements);
    }
    expression::lemma_max_degree_bounded(after, floor, bound);
}

/// Replacing the selectors of a system does not raise its degree, if the degree leaves room
/// for the replacements.
pub proof fn lemma_system_degree_kept<F>(
    cs: constraint_system::SystemModel<F>,
    selector_map: Seq<Column<Fixed>>,
    replacements: Seq<Expression<F>>,
)
    requires
        leaves_room(cs, replacements),
    ensures
        cs.compressed(selector_map, replacements).degree() <= cs.degree(),
{
    let after = cs.compressed(selector_map, replacements);
    let polys = constraint_system::polys_of(cs.gates);
    constraint_system::lemma_degree(cs);
    assert forall|g: int, j: int|
        0 <= g < after.gates.len() && 0 <= j < after.gates[g].polys.len() implies (
    #[trigger] after.gates[g].polys[j]).degree_spec() <= cs.degree() by {
        let poly = cs.gates[g].polys[j];
        assert(after.gates[g].polys[j] == poly.substitute(replacements));
        constraint_system::lemma_polys_of(cs.gates, g, j);
        let i = choose|i: int| 0 <= i < polys.len() && polys[i] == poly;
        lemma_degree_kept(polys, replacements, cs.degree(), i);
    }
    constraint_system::lemma_gates_degree_bounded(after.gates, cs.degree());
    constraint_system::lemma_lookups_degree(cs.lookups);
    assert forall|l: int| 0 <= l < after.lookups.len() implies (
    #[trigger] after.lookups[l]).required_degree() <= cs.degree() by {
        let before = cs.lookups[l];
        assert(after.lookups[l].inputs == substituted(before.inputs, replacements));
        assert(after.lookups[l].tables == substituted(before.tables, replacements));
        lemma_largest_degree_kept(before.inputs, replacements, 1);
        lemma_largest_degree_kept(before.tables, replacements, 1);
    }
    constraint_system::lemma_lookups_degree_bounded(after.lookups, cs.degree());
}

/// States that every selector in an expression is among those that `simple` lists, and that it
/// is simple exactly if the list says so.
pub open spec fn selectors_listed<F>(e: Expression<F>, simple: Seq<bool>) -> bool {
    forall|i: int|
        0 <= i < e.selectors().len() ==> {
            &&& (#[trigger] e.selectors()[i]).0 < simple.len()
            &&& e.selectors()[i].1 == simple[e.selectors()[i].0 as int]
        }
}

/// States that selectors are combined within `max_degree`: one of degree zero is replaced by
/// an expression of degree one at most, and any other by an expression that leaves room for
/// the polynomials that contain the selector.
pub open spec fn combined_within<F>(
    polys: Seq<Expression<F>>,
    replacements: Seq<Expression<F>>,
    max_degree: nat,
) -> bool {
    forall|i: int|
        0 <= i < replacements.len() ==> if selector_degree(polys, i) == 0 {
            (#[trigger] replacements[i]).degree_spec() <= 1
        } else {
            selector_degree(polys, i) + replacements[i].degree_spec() <= max_degree + 1
        }
}

/// States that each of some selectors is listed as simple.
spec fn all_simple(selectors: Seq<Selector>, simple: Seq<bool>) -> bool {
    forall|i: int|
        0 <= i < selectors.len() ==> {
            &&& (#[trigger] selectors[i]).0 < simple.len()
            &&& simple[selectors[i].0 as int]
        }
}

/// The simple selectors of an expression are listed as simple, and give the expression a
/// degree of one at least.
proof fn lemma_simple_listed<F>(e: Expression<F>, simple: Seq<bool>)
    requires
        selectors_listed(e, simple),
    ensures
        all_simple(e.simple_selectors(), simple),
        e.simple_selectors().len() > 0 ==> e.degree_spec() >= 1,
    decreases e,
{
    match e {
        Expression::Selector(selector) => {
            assert(e.selectors()[0] == selector);
        },
        Expression::Negated(a) => {
            assert(e.selectors() == a.selectors());
            lemma_simple_listed(*a, simple);
        },
        Expression::Sum(a, b) => {
            lemma_listed_of_operands(e, *a, *b, simple);
            lemma_simple_listed(*a, simple);
            lemma_simple_listed(*b, simple);
            assert(e.simple_selectors() == a.simple_selectors() + b.simple_selectors());
        },
        Expression::Product(a, b) => {
            lemma_listed_of_operands(e, *a, *b, simple);
            lemma_simple_listed(*a, simple);
            lemma_simple_listed(*b, simple);
            assert(e.simple_selectors() == a.simple_selectors() + b.simple_selectors());
        },
        Expression::Scaled(a, _) => {
            assert(e.selectors() == a.selectors());
            lemma_simple_listed(*a, simple);
        },
        _ => {},
    }
}

/// The selectors of both operands of an expression are listed.
proof fn lemma_listed_of_operands<F>(
    e: Expression<F>,
    a: Expression<F>,
    b: Expression<F>,
    simple: Seq<bool>,
)
    requires
        e.selectors() == a.selectors() + b.selectors(),
        selectors_listed(e, simple),
    ensures
        selectors_listed(a, simple),
        selectors_listed(b, simple),
{
    assert forall|i: int| 0 <= i < a.selectors().len() implies {
        &&& (#[trigger] a.selectors()[i]).0 < simple.len()
        &&& a.selectors()[i].1 == simple[a.selectors()[i].0 as int]
    } by {
        assert(e.selectors()[i] == a.selectors()[i]);
    }
    assert forall|i: int| 0 <= i < b.selectors().len() implies {
        &&& (#[trigger] b.selectors()[i]).0 < simple.len()
        &&& b.selectors()[i].1 == simple[b.selectors()[i].0 as int]
    } by {
        assert(e.selectors()[a.selectors().len() + i] == b.selectors()[i]);
    }
}

/// A selector that is listed as complex has degree zero.
proof fn lemma_complex_degree<F>(polys: Seq<Expression<F>>, simple: Seq<bool>, index: int)
    requires
        forall|i: int|
            0 <= i < polys.len() ==> selectors_listed(#[trigger] polys[i], simple),
        !simple[index],
    ensures
        selector_degree(polys, index) == 0,
{
    assert forall|i: int| 0 <= i < polys.len() implies (expression::first(
        (#[trigger] polys[i]).simple_selectors(),
    ) matches Some(selector) ==> selector.0 != index) by {
        lemma_simple_listed(polys[i], simple);
        if polys[i].simple_selectors().len() > 0 {
            assert(simple[polys[i].simple_selectors()[0].0 as int]);
        }
    }
    lemma_unused_selector(polys, index);
}

/// States that `simple` lists the selectors in the gates and lookups of a system.
pub open spec fn kinds_listed<F>(
    cs: constraint_system::SystemModel<F>,
    simple: Seq<bool>,
) -> bool {
    &&& forall|i: int|
        0 <= i < constraint_system::polys_of(cs.gates).len() ==> selectors_listed(
            #[trigger] constraint_system::polys_of(cs.gates)[i],
            simple,
        )
    &&& forall|l: int, i: int|
        0 <= l < cs.lookups.len() && 0 <= i < cs.lookups[l].inputs.len() ==> selectors_listed(
            #[trigger] cs.lookups[l].inputs[i],
            simple,
        )
    &&& forall|l: int, i: int|
        0 <= l < cs.lookups.len() && 0 <= i < cs.lookups[l].tables.len() ==> selectors_listed(
            #[trigger] cs.lookups[l].tables[i],
            simple,
        )
}

/// States that no selector of a system is simple in one expression and complex in another.
pub open spec fn selectors_of_one_kind<F>(cs: constraint_system::SystemModel<F>) -> bool {
    exists|simple: Seq<bool>| #[trigger] kinds_listed(cs, simple)
}

/// An expression whose selectors can be replaced has a replacement for each of them, and no
/// simple one if `must_be_nonsimple`.
proof fn lemma_substitutable<F>(
    e: Expression<F>,
    replacements: Seq<Expression<F>>,
    must_be_nonsimple: bool,
)
    requires
        e.substitutable(replacements, must_be_nonsimple),
    ensures
        selectors_within(e, replacements.len(), must_be_nonsimple),
        must_be_nonsimple ==> e.simple_selectors().len() == 0,
    decreases e,
{
    match e {
        Expression::Negated(a) => {
            assert(e.selectors() == a.selectors());
            lemma_substitutable(*a, replacements, must_be_nonsimple);
        },
        Expression::Sum(a, b) => {
            lemma_substitutable(*a, replacements, must_be_nonsimple);
            lemma_substitutable(*b, replacements, must_be_nonsimple);
            assert(e.selectors() == a.selectors() + b.selectors());
        },
        Expression::Product(a, b) => {
            lemma_substitutable(*a, replacements, must_be_nonsimple);
            lemma_substitutable(*b, replacements, must_be_nonsimple);
            assert(e.selectors() == a.selectors() + b.selectors());
        },
        Expression::Scaled(a, _) => {
            assert(e.selectors() == a.selectors());
            lemma_substitutable(*a, replacements, must_be_nonsimple);
        },
        _ => {},
    }
}

/// In a system whose selectors can be replaced there is a replacement for each selector, and
/// the lookups contain no simple ones.
proof fn lemma_compressible<F>(
    cs: constraint_system::SystemModel<F>,
    replacements: Seq<Expression<F>>,
)
    requires
        cs.compressible(replacements),
    ensures
        forall|g: int, i: int|
            0 <= g < cs.gates.len() && 0 <= i < cs.gates[g].polys.len() ==> selectors_within(
                #[trigger] cs.gates[g].polys[i],
                replacements.len(),
                false,
            ),
        forall|l: int, i: int|
            0 <= l < cs.lookups.len() && 0 <= i < cs.lookups[l].inputs.len() ==> {
                &&& selectors_within(#[trigger] cs.lookups[l].inputs[i], replacements.len(), true)
                &&& cs.lookups[l].inputs[i].simple_selectors().len() == 0
            },
        forall|l: int, i: int|
            0 <= l < cs.lookups.len() && 0 <= i < cs.lookups[l].tables.len() ==> {
                &&& selectors_within(#[trigger] cs.lookups[l].tables[i], replacements.len(), true)
                &&& cs.lookups[l].tables[i].simple_selectors().len() == 0
            },
{
    assert forall|g: int, i: int|
        0 <= g < cs.gates.len() && 0 <= i < cs.gates[g].polys.len() implies selectors_within(
        #[trigger] cs.gates[g].polys[i],
        replacements.len(),
        false,
    ) by {
        lemma_substitutable(cs.gates[g].polys[i], replacements, false);
    }
    assert forall|l: int, i: int|
        0 <= l < cs.lookups.len() && 0 <= i < cs.lookups[l].inputs.len() implies {
        &&& selectors_within(#[trigger] cs.lookups[l].inputs[i], replacements.len(), true)
        &&& cs.lookups[l].inputs[i].simple_selectors().len() == 0
    } by {
        lemma_substitutable(cs.lookups[l].inputs[i], replacements, true);
    }
    assert forall|l: int, i: int|
        0 <= l < cs.lookups.len() && 0 <= i < cs.lookups[l].tables.len() implies {
        &&& selectors_within(#[trigger] cs.lookups[l].tables[i], replacements.len(), true)
        &&& cs.lookups[l].tables[i].simple_selectors().len() == 0
    } by {
        lemma_substitutable(cs.lookups[l].tables[i], replacements, true);
    }
}

/// Where each gate has one simple selector at most in each polynomial, so has the system.
proof fn lemma_extractable_polys<F>(gates: Seq<gate::GateModel<F>>, n: nat)
    requires
        forall|g: int|
            0 <= g < gates.len() ==> selectors_extractable((#[trigger] gates[g]).polys, n),
    ensures
        selectors_extractable(constraint_system::polys_of(gates), n),
{
    let polys = constraint_system::polys_of(gates);
    assert forall|i: int| 0 <= i < polys.len() implies {
        &&& (#[trigger] polys[i]).simple_selectors().len() <= 1
        &&& polys[i].simple_selectors().len() == 1 ==> polys[i].simple_selectors()[0].0 < n
    } by {
        let (g, j) = constraint_system::lemma_poly_of_gate(gates, i);
        assert(selectors_extractable(gates[g].polys, n));
        assert(polys[i] == gates[g].polys[j]);
    }
}

/// Where selectors are combined within the degree of the system, that degree leaves room for
/// what they are replaced by: in a system of which `simple` lists the selectors, with one
/// simple selector at most in each polynomial of a gate, and whose selectors can be replaced.
pub proof fn lemma_combined_within<F>(
    cs: constraint_system::SystemModel<F>,
    replacements: Seq<Expression<F>>,
    simple: Seq<bool>,
)
    requires
        kinds_listed(cs, simple),
        forall|i: int|
            0 <= i < constraint_system::polys_of(cs.gates).len() ==> (
            #[trigger] constraint_system::polys_of(cs.gates)[i]).simple_selectors().len() <= 1,
        cs.compressible(replacements),
        combined_within(constraint_system::polys_of(cs.gates), replacements, cs.degree()),
    ensures
        leaves_room(cs, replacements),
{
    let polys = constraint_system::polys_of(cs.gates);
    let n = replacements.len();
    lemma_compressible(cs, replacements);
    assert forall|e: Expression<F>, nonsimple: bool|
        selectors_listed(e, simple) && #[trigger] selectors_within(
            e,
            n,
            nonsimple,
        ) implies complex_replaced_by_linear(e, replacements) by {
        assert forall|i: int|
            0 <= i < e.selectors().len() && !(#[trigger] e.selectors()[i]).1 implies replacements[
        e.selectors()[i].0 as int].degree_spec() <= 1 by {
            lemma_complex_degree(polys, simple, e.selectors()[i].0 as int);
        }
    }
    assert forall|i: int| 0 <= i < polys.len() implies {
        &&& (#[trigger] polys[i]).simple_selectors().len() <= 1
        &&& complex_replaced_by_linear(polys[i], replacements)
        &&& polys[i].simple_selectors().len() == 1 ==> {
            let index = polys[i].simple_selectors()[0].0 as int;
            selector_degree(polys, index) + replacements[index].degree_spec() <= cs.degree() + 1
        }
    } by {
        let (g, j) = constraint_system::lemma_poly_of_gate(cs.gates, i);
        assert(selectors_within(cs.gates[g].polys[j], n, false));
        assert(selectors_listed(polys[i], simple));
        lemma_simple_listed(polys[i], simple);
        if polys[i].simple_selectors().len() == 1 {
            lemma_selector_degree(polys, i);
            lemma_simple_within(polys[i], n);
            let index = polys[i].simple_selectors()[0].0 as int;
            assert(replacements[index].degree_spec() >= 0);
        }
    }
    assert forall|l: int| 0 <= l < cs.lookups.len() implies {
        &&& replaced_by_linear((#[trigger] cs.lookups[l]).inputs, replacements)
        &&& replaced_by_linear(cs.lookups[l].tables, replacements)
    } by {
        assert forall|i: int| 0 <= i < cs.lookups[l].inputs.len() implies {
            &&& (#[trigger] cs.lookups[l].inputs[i]).simple_selectors().len() == 0
            &&& complex_replaced_by_linear(cs.lookups[l].inputs[i], replacements)
        } by {
            assert(selectors_within(cs.lookups[l].inputs[i], n, true));
        }
        assert forall|i: int| 0 <= i < cs.lookups[l].tables.len() implies {
            &&& (#[trigger] cs.lookups[l].tables[i]).simple_selectors().len() == 0
            &&& complex_replaced_by_linear(cs.lookups[l].tables[i], replacements)
        } by {
            assert(selectors_within(cs.lookups[l].tables[i], n, true));
        }
    }
}

/// States that each of some selectors is one of `n` selectors.
spec fn all_below(selectors: Seq<Selector>, n: nat) -> bool {
    forall|i: int| 0 <= i < selectors.len() ==> (#[trigger] selectors[i]).0 < n
}

/// The simple selectors of an expression are among its selectors.
proof fn lemma_simple_within<F>(e: Expression<F>, n: nat)
    requires
        selectors_within(e, n, false),
    ensures
        all_below(e.simple_selectors(), n),
    decreases e,
{
    match e {
        Expression::Selector(selector) => {
            assert(e.selectors()[0] == selector);
        },
        Expression::Negated(a) => {
            assert(e.selectors() == a.selectors());
            lemma_simple_within(*a, n);
        },
        Expression::Sum(a, b) => {
            lemma_selectors_of_operands(e, *a, *b, n, false);
            lemma_simple_within(*a, n);
            lemma_simple_within(*b, n);
            assert(e.simple_selectors() == a.simple_selectors() + b.simple_selectors());
        },
        Expression::Product(a, b) => {
            lemma_selectors_of_operands(e, *a, *b, n, false);
            lemma_simple_within(*a, n);
            lemma_simple_within(*b, n);
            assert(e.simple_selectors() == a.simple_selectors() + b.simple_selectors());
        },
        Expression::Scaled(a, _) => {
            assert(e.selectors() == a.selectors());
            lemma_simple_within(*a, n);
        },
        _ => {},
    }
}

/// Where each selector is replaced by an expression of degree one at most, such as the query of
/// a column of its own, selectors are combined within the degree of the system.
pub proof fn lemma_linear_within<F>(
    cs: constraint_system::SystemModel<F>,
    replacements: Seq<Expression<F>>,
)
    requires
        forall|i: int|
            0 <= i < replacements.len() ==> (#[trigger] replacements[i]).degree_spec() <= 1,
    ensures
        combined_within(constraint_system::polys_of(cs.gates), replacements, cs.degree()),
{
    let polys = constraint_system::polys_of(cs.gates);
    constraint_system::lemma_degree(cs);
    assert forall|i: int| 0 <= i < polys.len() implies (#[trigger] polys[i]).degree_spec()
        <= cs.degree() by {
        let (g, j) = constraint_system::lemma_poly_of_gate(cs.gates, i);
        assert(cs.gates[g].polys[j].degree_spec() <= cs.degree());
    }
    assert forall|i: int| 0 <= i < replacements.len() implies if selector_degree(polys, i) == 0 {
        (#[trigger] replacements[i]).degree_spec() <= 1
    } else {
        selector_degree(polys, i) + replacements[i].degree_spec() <= cs.degree() + 1
    } by {
        lemma_selector_degree_bounded(polys, i, cs.degree());
    }
}

/// What bounds the degree of every polynomial bounds the degree of every selector.
proof fn lemma_selector_degree_bounded<F>(polys: Seq<Expression<F>>, index: int, bound: nat)
    requires
        forall|i: int| 0 <= i < polys.len() ==> (#[trigger] polys[i]).degree_spec() <= bound,
    ensures
        selector_degree(polys, index) <= bound,
    decreases polys.len(),
{
    if polys.len() > 0 {
        let init = polys.drop_last();
        assert forall|i: int| 0 <= i < init.len() implies (#[trigger] init[i]).degree_spec()
            <= bound by {
            assert(init[i] == polys[i]);
        }
        lemma_selector_degree_bounded(init, index, bound);
        assert(polys.last() == polys[polys.len() - 1]);
    }
}

/// A meaning that gives each selector the meaning of what it is replaced by, and everything
/// else the meaning that `alg` gives it.
pub open spec fn meaning_of_replaced<F, T>(
    replacements: Seq<Expression<F>>,
    alg: expression::Algebra<F, T>,
) -> expression::Algebra<F, T> {
    expression::Algebra {
        selector: |s: Selector| expression::meaning(replacements[s.0 as int], alg),
        ..alg
    }
}

/// Replacing the selectors of an expression keeps its meaning, if a selector means what it is
/// replaced by.
pub proof fn lemma_meaning_kept<F, T>(
    e: Expression<F>,
    replacements: Seq<Expression<F>>,
    alg: expression::Algebra<F, T>,
)
    ensures
        expression::meaning(e.substitute(replacements), alg) == expression::meaning(
            e,
            meaning_of_replaced(replacements, alg),
        ),
    decreases e,
{
    match e {
        Expression::Negated(a) => {
            lemma_meaning_kept(*a, replacements, alg);
        },
        Expression::Sum(a, b) => {
            lemma_meaning_kept(*a, replacements, alg);
            lemma_meaning_kept(*b, replacements, alg);
        },
        Expression::Product(a, b) => {
            lemma_meaning_kept(*a, replacements, alg);
            lemma_meaning_kept(*b, replacements, alg);
        },
        Expression::Scaled(a, _) => {
            lemma_meaning_kept(*a, replacements, alg);
        },
        _ => {},
    }
}

/// Replacing the selectors of a system keeps the meaning of each polynomial of each gate and of
/// each expression of each lookup, if a selector means what it is replaced by.
pub proof fn lemma_system_meaning_kept<F, T>(
    cs: constraint_system::SystemModel<F>,
    selector_map: Seq<Column<Fixed>>,
    replacements: Seq<Expression<F>>,
    alg: expression::Algebra<F, T>,
)
    ensures
        ({
            let after = cs.compressed(selector_map, replacements);
            let given = meaning_of_replaced(replacements, alg);
            &&& after.gates.len() == cs.gates.len()
            &&& forall|g: int, i: int|
                0 <= g < cs.gates.len() && 0 <= i < cs.gates[g].polys.len()
                    ==> expression::meaning(#[trigger] after.gates[g].polys[i], alg)
                    == expression::meaning(cs.gates[g].polys[i], given)
            &&& after.lookups.len() == cs.lookups.len()
            &&& forall|l: int, i: int|
                0 <= l < cs.lookups.len() && 0 <= i < cs.lookups[l].inputs.len()
                    ==> expression::meaning(#[trigger] after.lookups[l].inputs[i], alg)
                    == expression::meaning(cs.lookups[l].inputs[i], given)
            &&& forall|l: int, i: int|
                0 <= l < cs.lookups.len() && 0 <= i < cs.lookups[l].tables.len()
                    ==> expression::meaning(#[trigger] after.lookups[l].tables[i], alg)
                    == expression::meaning(cs.lookups[l].tables[i], given)
        }),
{
    let after = cs.compressed(selector_map, replacements);
    let given = meaning_of_replaced(replacements, alg);
    assert forall|g: int, i: int|
        0 <= g < cs.gates.len() && 0 <= i < cs.gates[g].polys.len() implies expression::meaning(
        #[trigger] after.gates[g].polys[i],
        alg,
    ) == expression::meaning(cs.gates[g].polys[i], given) by {
        lemma_meaning_kept(cs.gates[g].polys[i], replacements, alg);
    }
    assert forall|l: int, i: int|
        0 <= l < cs.lookups.len() && 0 <= i < cs.lookups[l].inputs.len() implies
    expression::meaning(#[trigger] after.lookups[l].inputs[i], alg)
        == expression::meaning(cs.lookups[l].inputs[i], given) by {
        lemma_meaning_kept(cs.lookups[l].inputs[i], replacements, alg);
    }
    assert forall|l: int, i: int|
        0 <= l < cs.lookups.len() && 0 <= i < cs.lookups[l].tables.len() implies
    expression::meaning(#[trigger] after.lookups[l].tables[i], alg)
        == expression::meaning(cs.lookups[l].tables[i], given) by {
        lemma_meaning_kept(cs.lookups[l].tables[i], replacements, alg);
    }
}

} // verus!
