//! Selectors, queries, and the polynomial expressions that gates and lookups are made of.

use core::fmt;
use core::fmt::{Debug, Formatter};
use core::ops::{Add, Mul, Neg, Sub};

use vstd::prelude::*;
use vstd::string::StringExecFns;

use crate::codec;
use crate::codec::{ReadError, Reader};
use crate::column::{Advice, Any, Column, Fixed, Instance};
use crate::debug;
use crate::field;
use crate::field::PrimeField;
use crate::rotation::Rotation;
use crate::text;

verus! {

/// A selector, representing a fixed boolean value per row of the circuit: its index and
/// whether it is simple.
///
/// Selectors can be used to conditionally enable (portions of) gates. They are disabled
/// on all rows by default, and must be explicitly enabled on each row when required.
#[derive(Clone, Copy, Debug, PartialEq, Eq, Hash, Structural)]
pub struct Selector(pub usize, pub bool);

impl Selector {
    /// Enables this selector at the given offset within a region, by way of the region's
    /// own `enable_selector`.
    pub fn enable<T>(
        &self,
        enable_selector: impl FnOnce(Selector, usize) -> T,
        offset: usize,
    ) -> (r: T)
        requires
            enable_selector.requires((*self, offset)),
        ensures
            enable_selector.ensures((*self, offset), r),
    {
        enable_selector(*self, offset)
    }

    /// Is this selector "simple"? Simple selectors can only be multiplied
    /// by expressions that contain no other simple selectors.
    pub fn is_simple(&self) -> (simple: bool)
        ensures
            simple == self.1,
    {
        self.1
    }
}

/// Query of fixed column at a certain relative location.
#[derive(Copy, Clone, Debug, PartialEq, Eq, Structural)]
pub struct FixedQuery {
    /// Query index
    pub index: usize,
    /// Column index
    pub column_index: usize,
    /// Rotation of this query
    pub rotation: Rotation,
}

/// Query of advice column at a certain relative location.
#[derive(Copy, Clone, Debug, PartialEq, Eq, Structural)]
pub struct AdviceQuery {
    /// Query index
    pub index: usize,
    /// Column index
    pub column_index: usize,
    /// Rotation of this query
    pub rotation: Rotation,
}

/// Query of instance column at a certain relative location.
#[derive(Copy, Clone, Debug, PartialEq, Eq, Structural)]
pub struct InstanceQuery {
    /// Query index
    pub index: usize,
    /// Column index
    pub column_index: usize,
    /// Rotation of this query
    pub rotation: Rotation,
}

/// Low-degree expression representing an identity that must hold over the committed columns.
pub enum Expression<F> {
    /// This is a constant polynomial
    Constant(F),
    /// This is a virtual selector
    Selector(Selector),
    /// This is a fixed column queried at a certain relative location
    Fixed(FixedQuery),
    /// This is an advice (witness) column queried at a certain relative location
    Advice(AdviceQuery),
    /// This is an instance (external) column queried at a certain relative location
    Instance(InstanceQuery),
    /// This is a negated polynomial
    Negated(Box<Expression<F>>),
    /// This is the sum of two polynomials
    Sum(Box<Expression<F>>, Box<Expression<F>>),
    /// This is the product of two polynomials
    Product(Box<Expression<F>>, Box<Expression<F>>),
    /// This is a scaled polynomial
    Scaled(Box<Expression<F>>, F),
}

/// Prints a query of the given kind.
fn print_query(
    f: &mut Formatter<'_>,
    name: &str,
    index: usize,
    column_index: usize,
    rotation: Rotation,
) -> (r: fmt::Result) {
    let mut builder = debug::start_struct(f, name);
    debug::struct_field(&mut builder, "query_index", &index);
    debug::struct_field(&mut builder, "column_index", &column_index);
    debug::struct_field(&mut builder, "rotation", &rotation);
    debug::finish_struct(&mut builder)
}

impl<F: Debug> Debug for Expression<F> {
    fn fmt(&self, f: &mut Formatter<'_>) -> (r: fmt::Result) {
        match self {
            Expression::Constant(scalar) => debug::print_tuple_1(f, "Constant", scalar),
            Expression::Selector(selector) => debug::print_tuple_1(f, "Selector", selector),
            // Skip enum variant and print query struct directly to maintain backwards
            // compatibility.
            Expression::Fixed(query) => {
                print_query(f, "Fixed", query.index, query.column_index, query.rotation)
            },
            Expression::Advice(query) => {
                print_query(f, "Advice", query.index, query.column_index, query.rotation)
            },
            Expression::Instance(query) => {
                print_query(f, "Instance", query.index, query.column_index, query.rotation)
            },
            Expression::Negated(poly) => debug::print_tuple_1(f, "Negated", poly),
            Expression::Sum(a, b) => debug::print_tuple_2(f, "Sum", a, b),
            Expression::Product(a, b) => debug::print_tuple_2(f, "Product", a, b),
            Expression::Scaled(poly, scalar) => debug::print_tuple_2(f, "Scaled", poly, scalar),
        }
    }
}

impl<F: Copy> Clone for Expression<F> {
    fn clone(&self) -> (r: Self)
        ensures
            r == *self,
        decreases self,
    {
        match self {
            Expression::Constant(scalar) => Expression::Constant(*scalar),
            Expression::Selector(selector) => Expression::Selector(*selector),
            Expression::Fixed(query) => Expression::Fixed(*query),
            Expression::Advice(query) => Expression::Advice(*query),
            Expression::Instance(query) => Expression::Instance(*query),
            Expression::Negated(a) => Expression::Negated(Box::new((**a).clone())),
            Expression::Sum(a, b) => Expression::Sum(
                Box::new((**a).clone()),
                Box::new((**b).clone()),
            ),
            Expression::Product(a, b) => Expression::Product(
                Box::new((**a).clone()),
                Box::new((**b).clone()),
            ),
            Expression::Scaled(a, f) => Expression::Scaled(Box::new((**a).clone()), *f),
        }
    }
}

// ---------------------------------------------------------------------------------
// Evaluation
// ---------------------------------------------------------------------------------

/// The nine operations by which an expression is evaluated, one for each variant.
pub struct Operations<C, S, X, A, I, N, P, M, K> {
    /// Evaluates a constant.
    pub constant: C,
    /// Evaluates a selector.
    pub selector: S,
    /// Evaluates a query of a fixed column.
    pub fixed: X,
    /// Evaluates a query of an advice column.
    pub advice: A,
    /// Evaluates a query of an instance column.
    pub instance: I,
    /// Negates a value.
    pub negated: N,
    /// Adds two values.
    pub sum: P,
    /// Multiplies two values.
    pub product: M,
    /// Scales a value.
    pub scaled: K,
}

/// States that evaluating `e` with the operations `ops` may give `t`: every operation
/// was called on what came out of its operands.
pub open spec fn evaluates_to<F, T, C, S, X, A, I, N, P, M, K>(
    e: Expression<F>,
    ops: Operations<C, S, X, A, I, N, P, M, K>,
    t: T,
) -> bool where
    C: Fn(F) -> T,
    S: Fn(Selector) -> T,
    X: Fn(FixedQuery) -> T,
    A: Fn(AdviceQuery) -> T,
    I: Fn(InstanceQuery) -> T,
    N: Fn(T) -> T,
    P: Fn(T, T) -> T,
    M: Fn(T, T) -> T,
    K: Fn(T, F) -> T,

    decreases e,
{
    match e {
        Expression::Constant(scalar) => ops.constant.ensures((scalar,), t),
        Expression::Selector(selector) => ops.selector.ensures((selector,), t),
        Expression::Fixed(query) => ops.fixed.ensures((query,), t),
        Expression::Advice(query) => ops.advice.ensures((query,), t),
        Expression::Instance(query) => ops.instance.ensures((query,), t),
        Expression::Negated(a) => exists|x: T|
            evaluates_to(*a, ops, x) && #[trigger] ops.negated.ensures((x,), t),
        Expression::Sum(a, b) => exists|x: T, y: T|
            evaluates_to(*a, ops, x) && evaluates_to(*b, ops, y) && #[trigger] ops.sum.ensures(
                (x, y),
                t,
            ),
        Expression::Product(a, b) => exists|x: T, y: T|
            evaluates_to(*a, ops, x) && evaluates_to(*b, ops, y)
                && #[trigger] ops.product.ensures((x, y), t),
        Expression::Scaled(a, f) => exists|x: T|
            evaluates_to(*a, ops, x) && #[trigger] ops.scaled.ensures((x, f), t),
    }
}

/// States that every call that evaluating `e` with the operations `ops` may make is
/// permitted.
pub open spec fn can_evaluate<F, T, C, S, X, A, I, N, P, M, K>(
    e: Expression<F>,
    ops: Operations<C, S, X, A, I, N, P, M, K>,
) -> bool where
    C: Fn(F) -> T,
    S: Fn(Selector) -> T,
    X: Fn(FixedQuery) -> T,
    A: Fn(AdviceQuery) -> T,
    I: Fn(InstanceQuery) -> T,
    N: Fn(T) -> T,
    P: Fn(T, T) -> T,
    M: Fn(T, T) -> T,
    K: Fn(T, F) -> T,

    decreases e,
{
    match e {
        Expression::Constant(scalar) => ops.constant.requires((scalar,)),
        Expression::Selector(selector) => ops.selector.requires((selector,)),
        Expression::Fixed(query) => ops.fixed.requires((query,)),
        Expression::Advice(query) => ops.advice.requires((query,)),
        Expression::Instance(query) => ops.instance.requires((query,)),
        Expression::Negated(a) => {
            &&& can_evaluate::<F, T, C, S, X, A, I, N, P, M, K>(*a, ops)
            &&& forall|x: T| #[trigger] evaluates_to(*a, ops, x) ==> ops.negated.requires((x,))
        },
        Expression::Sum(a, b) => {
            &&& can_evaluate::<F, T, C, S, X, A, I, N, P, M, K>(*a, ops)
            &&& can_evaluate::<F, T, C, S, X, A, I, N, P, M, K>(*b, ops)
            &&& forall|x: T, y: T| #[trigger]
                evaluates_to(*a, ops, x) && #[trigger] evaluates_to(*b, ops, y)
                    ==> ops.sum.requires((x, y))
        },
        Expression::Product(a, b) => {
            &&& can_evaluate::<F, T, C, S, X, A, I, N, P, M, K>(*a, ops)
            &&& can_evaluate::<F, T, C, S, X, A, I, N, P, M, K>(*b, ops)
            &&& forall|x: T, y: T| #[trigger]
                evaluates_to(*a, ops, x) && #[trigger] evaluates_to(*b, ops, y)
                    ==> ops.product.requires((x, y))
        },
        Expression::Scaled(a, f) => {
            &&& can_evaluate::<F, T, C, S, X, A, I, N, P, M, K>(*a, ops)
            &&& forall|x: T| #[trigger] evaluates_to(*a, ops, x) ==> ops.scaled.requires((x, f))
        },
    }
}

impl<F: Copy> Expression<F> {
    /// Evaluate the polynomial using the provided closures to perform the
    /// operations.
    #[allow(clippy::too_many_arguments)]
    pub fn evaluate<T, C, S, X, A, I, N, P, M, K>(
        &self,
        constant: &C,
        selector_column: &S,
        fixed_column: &X,
        advice_column: &A,
        instance_column: &I,
        negated: &N,
        sum: &P,
        product: &M,
        scaled: &K,
    ) -> (r: T) where
        C: Fn(F) -> T,
        S: Fn(Selector) -> T,
        X: Fn(FixedQuery) -> T,
        A: Fn(AdviceQuery) -> T,
        I: Fn(InstanceQuery) -> T,
        N: Fn(T) -> T,
        P: Fn(T, T) -> T,
        M: Fn(T, T) -> T,
        K: Fn(T, F) -> T,

        requires
            can_evaluate::<F, T, C, S, X, A, I, N, P, M, K>(
                *self,
                (Operations {
                    constant: *constant,
                    selector: *selector_column,
                    fixed: *fixed_column,
                    advice: *advice_column,
                    instance: *instance_column,
                    negated: *negated,
                    sum: *sum,
                    product: *product,
                    scaled: *scaled,
                }),
            ),
        ensures
            evaluates_to(
                *self,
                (Operations {
                    constant: *constant,
                    selector: *selector_column,
                    fixed: *fixed_column,
                    advice: *advice_column,
                    instance: *instance_column,
                    negated: *negated,
                    sum: *sum,
                    product: *product,
                    scaled: *scaled,
                }),
                r,
            ),
        decreases self,
    {
        let ghost ops = Operations {
            constant: *constant,
            selector: *selector_column,
            fixed: *fixed_column,
            advice: *advice_column,
            instance: *instance_column,
            negated: *negated,
            sum: *sum,
            product: *product,
            scaled: *scaled,
        };
        match self {
            Expression::Constant(scalar) => constant(*scalar),
            Expression::Selector(selector) => selector_column(*selector),
            Expression::Fixed(query) => fixed_column(*query),
            Expression::Advice(query) => advice_column(*query),
            Expression::Instance(query) => instance_column(*query),
            Expression::Negated(a) => {
                let x = a.evaluate(
                    constant,
                    selector_column,
                    fixed_column,
                    advice_column,
                    instance_column,
                    negated,
                    sum,
                    product,
                    scaled,
                );
                assert(evaluates_to(**a, ops, x));
                negated(x)
            },
            Expression::Sum(a, b) => {
                let x = a.evaluate(
                    constant,
                    selector_column,
                    fixed_column,
                    advice_column,
                    instance_column,
                    negated,
                    sum,
                    product,
                    scaled,
                );
                let y = b.evaluate(
                    constant,
                    selector_column,
                    fixed_column,
                    advice_column,
                    instance_column,
                    negated,
                    sum,
                    product,
                    scaled,
                );
                assert(evaluates_to(**a, ops, x) && evaluates_to(**b, ops, y));
                sum(x, y)
            },
            Expression::Product(a, b) => {
                let x = a.evaluate(
                    constant,
                    selector_column,
                    fixed_column,
                    advice_column,
                    instance_column,
                    negated,
                    sum,
                    product,
                    scaled,
                );
                let y = b.evaluate(
                    constant,
                    selector_column,
                    fixed_column,
                    advice_column,
                    instance_column,
                    negated,
                    sum,
                    product,
                    scaled,
                );
                assert(evaluates_to(**a, ops, x) && evaluates_to(**b, ops, y));
                product(x, y)
            },
            Expression::Scaled(a, f) => {
                let x = a.evaluate(
                    constant,
                    selector_column,
                    fixed_column,
                    advice_column,
                    instance_column,
                    negated,
                    sum,
                    product,
                    scaled,
                );
                assert(evaluates_to(**a, ops, x));
                scaled(x, *f)
            },
        }
    }
}

/// A meaning for each variant of an expression, with the operands on which selectors,
/// sums and products have one.
#[verifier::reject_recursive_types(F)]
#[verifier::reject_recursive_types(T)]
pub struct Algebra<F, T> {
    /// The meaning of a constant.
    pub constant: spec_fn(F) -> T,
    /// The meaning of a selector.
    pub selector: spec_fn(Selector) -> T,
    /// The meaning of a query of a fixed column.
    pub fixed: spec_fn(FixedQuery) -> T,
    /// The meaning of a query of an advice column.
    pub advice: spec_fn(AdviceQuery) -> T,
    /// The meaning of a query of an instance column.
    pub instance: spec_fn(InstanceQuery) -> T,
    /// The meaning of a negation.
    pub negated: spec_fn(T) -> T,
    /// The meaning of a sum.
    pub sum: spec_fn(T, T) -> T,
    /// The meaning of a product.
    pub product: spec_fn(T, T) -> T,
    /// The meaning of a scaling.
    pub scaled: spec_fn(T, F) -> T,
    /// The selectors that have a meaning.
    pub selector_ok: spec_fn(Selector) -> bool,
    /// The pairs that have a sum.
    pub sum_ok: spec_fn(T, T) -> bool,
    /// The pairs that have a product.
    pub product_ok: spec_fn(T, T) -> bool,
}

/// The meaning of `e`.
pub open spec fn meaning<F, T>(e: Expression<F>, alg: Algebra<F, T>) -> T
    decreases e,
{
    match e {
        Expression::Constant(scalar) => (alg.constant)(scalar),
        Expression::Selector(selector) => (alg.selector)(selector),
        Expression::Fixed(query) => (alg.fixed)(query),
        Expression::Advice(query) => (alg.advice)(query),
        Expression::Instance(query) => (alg.instance)(query),
        Expression::Negated(a) => (alg.negated)(meaning(*a, alg)),
        Expression::Sum(a, b) => (alg.sum)(meaning(*a, alg), meaning(*b, alg)),
        Expression::Product(a, b) => (alg.product)(meaning(*a, alg), meaning(*b, alg)),
        Expression::Scaled(a, f) => (alg.scaled)(meaning(*a, alg), f),
    }
}

/// States that every part of `e` has a meaning.
pub open spec fn has_meaning<F, T>(e: Expression<F>, alg: Algebra<F, T>) -> bool
    decreases e,
{
    match e {
        Expression::Constant(_) => true,
        Expression::Selector(selector) => (alg.selector_ok)(selector),
        Expression::Fixed(_) => true,
        Expression::Advice(_) => true,
        Expression::Instance(_) => true,
        Expression::Negated(a) => has_meaning(*a, alg),
        Expression::Sum(a, b) => {
            &&& has_meaning(*a, alg)
            &&& has_meaning(*b, alg)
            &&& (alg.sum_ok)(meaning(*a, alg), meaning(*b, alg))
        },
        Expression::Product(a, b) => {
            &&& has_meaning(*a, alg)
            &&& has_meaning(*b, alg)
            &&& (alg.product_ok)(meaning(*a, alg), meaning(*b, alg))
        },
        Expression::Scaled(a, _) => has_meaning(*a, alg),
    }
}

/// States that the operations `ops` compute the meanings of `alg`.
pub open spec fn computes<F, T, C, S, X, A, I, N, P, M, K>(
    ops: Operations<C, S, X, A, I, N, P, M, K>,
    alg: Algebra<F, T>,
) -> bool where
    C: Fn(F) -> T,
    S: Fn(Selector) -> T,
    X: Fn(FixedQuery) -> T,
    A: Fn(AdviceQuery) -> T,
    I: Fn(InstanceQuery) -> T,
    N: Fn(T) -> T,
    P: Fn(T, T) -> T,
    M: Fn(T, T) -> T,
    K: Fn(T, F) -> T,
 {
    &&& forall|v: F| #[trigger] ops.constant.requires((v,))
    &&& forall|v: F, t: T| #[trigger] ops.constant.ensures((v,), t) ==> t == (alg.constant)(v)
    &&& forall|v: Selector| (alg.selector_ok)(v) ==> #[trigger] ops.selector.requires((v,))
    &&& forall|v: Selector, t: T| #[trigger]
        ops.selector.ensures((v,), t) ==> t == (alg.selector)(v)
    &&& forall|v: FixedQuery| #[trigger] ops.fixed.requires((v,))
    &&& forall|v: FixedQuery, t: T| #[trigger] ops.fixed.ensures((v,), t) ==> t == (alg.fixed)(v)
    &&& forall|v: AdviceQuery| #[trigger] ops.advice.requires((v,))
    &&& forall|v: AdviceQuery, t: T| #[trigger]
        ops.advice.ensures((v,), t) ==> t == (alg.advice)(v)
    &&& forall|v: InstanceQuery| #[trigger] ops.instance.requires((v,))
    &&& forall|v: InstanceQuery, t: T| #[trigger]
        ops.instance.ensures((v,), t) ==> t == (alg.instance)(v)
    &&& forall|v: T| #[trigger] ops.negated.requires((v,))
    &&& forall|v: T, t: T| #[trigger] ops.negated.ensures((v,), t) ==> t == (alg.negated)(v)
    &&& forall|v: T, w: T| (alg.sum_ok)(v, w) ==> #[trigger] ops.sum.requires((v, w))
    &&& forall|v: T, w: T, t: T| #[trigger] ops.sum.ensures((v, w), t) ==> t == (alg.sum)(v, w)
    &&& forall|v: T, w: T| (alg.product_ok)(v, w) ==> #[trigger] ops.product.requires((v, w))
    &&& forall|v: T, w: T, t: T| #[trigger]
        ops.product.ensures((v, w), t) ==> t == (alg.product)(v, w)
    &&& forall|v: T, f: F| #[trigger] ops.scaled.requires((v, f))
    &&& forall|v: T, f: F, t: T| #[trigger]
        ops.scaled.ensures((v, f), t) ==> t == (alg.scaled)(v, f)
}

/// Operations that compute the meanings of the variants compute the meaning of every
/// expression that has one.
pub proof fn lemma_evaluation<F, T, C, S, X, A, I, N, P, M, K>(
    e: Expression<F>,
    ops: Operations<C, S, X, A, I, N, P, M, K>,
    alg: Algebra<F, T>,
) where
    C: Fn(F) -> T,
    S: Fn(Selector) -> T,
    X: Fn(FixedQuery) -> T,
    A: Fn(AdviceQuery) -> T,
    I: Fn(InstanceQuery) -> T,
    N: Fn(T) -> T,
    P: Fn(T, T) -> T,
    M: Fn(T, T) -> T,
    K: Fn(T, F) -> T,

    requires
        computes(ops, alg),
        has_meaning(e, alg),
    ensures
        can_evaluate::<F, T, C, S, X, A, I, N, P, M, K>(e, ops),
        forall|t: T| #[trigger] evaluates_to(e, ops, t) ==> t == meaning(e, alg),
    decreases e,
{
    match e {
        Expression::Negated(a) => {
            lemma_evaluation(*a, ops, alg);
        },
        Expression::Sum(a, b) => {
            lemma_evaluation(*a, ops, alg);
            lemma_evaluation(*b, ops, alg);
        },
        Expression::Product(a, b) => {
            lemma_evaluation(*a, ops, alg);
            lemma_evaluation(*b, ops, alg);
        },
        Expression::Scaled(a, f) => {
            lemma_evaluation(*a, ops, alg);
        },
        _ => {},
    }
    assert forall|t: T| #[trigger] evaluates_to(e, ops, t) implies t == meaning(e, alg) by {
        match e {
            Expression::Negated(a) => {
                let x = choose|x: T|
                    evaluates_to(*a, ops, x) && #[trigger] ops.negated.ensures((x,), t);
                assert(x == meaning(*a, alg));
            },
            Expression::Sum(a, b) => {
                let (x, y) = choose|x: T, y: T|
                    evaluates_to(*a, ops, x) && evaluates_to(*b, ops, y)
                        && #[trigger] ops.sum.ensures((x, y), t);
                assert(x == meaning(*a, alg));
                assert(y == meaning(*b, alg));
            },
            Expression::Product(a, b) => {
                let (x, y) = choose|x: T, y: T|
                    evaluates_to(*a, ops, x) && evaluates_to(*b, ops, y)
                        && #[trigger] ops.product.ensures((x, y), t);
                assert(x == meaning(*a, alg));
                assert(y == meaning(*b, alg));
            },
            Expression::Scaled(a, f) => {
                let x = choose|x: T|
                    evaluates_to(*a, ops, x) && #[trigger] ops.scaled.ensures((x, f), t);
                assert(x == meaning(*a, alg));
            },
            _ => {},
        }
    }
}

// ---------------------------------------------------------------------------------
// Degrees and simple selectors
// ---------------------------------------------------------------------------------

/// The larger of two numbers.
pub open spec fn max_nat(a: nat, b: nat) -> nat {
    if a < b {
        b
    } else {
        a
    }
}

/// Returns the larger of two numbers.
pub(crate) fn max(a: usize, b: usize) -> (m: usize)
    ensures
        m == max_nat(a as nat, b as nat),
{
    if a < b {
        b
    } else {
        a
    }
}

/// The largest of `floor` and the degrees of `exprs`.
pub open spec fn max_degree<F>(exprs: Seq<Expression<F>>, floor: nat) -> nat
    decreases exprs.len(),
{
    if exprs.len() == 0 {
        floor
    } else {
        max_nat(max_degree(exprs.drop_last(), floor), exprs.last().degree_spec())
    }
}

/// What bounds every degree bounds the largest.
pub proof fn lemma_max_degree_bounded<F>(exprs: Seq<Expression<F>>, floor: nat, bound: nat)
    requires
        floor <= bound,
        forall|i: int| 0 <= i < exprs.len() ==> (#[trigger] exprs[i]).degree_spec() <= bound,
    ensures
        max_degree(exprs, floor) <= bound,
    decreases exprs.len(),
{
    if exprs.len() > 0 {
        let init = exprs.drop_last();
        assert forall|i: int| 0 <= i < init.len() implies (#[trigger] init[i]).degree_spec()
            <= bound by {
            assert(init[i] == exprs[i]);
        }
        lemma_max_degree_bounded(init, floor, bound);
        assert(exprs.last() == exprs[exprs.len() - 1]);
    }
}

/// The largest degree bounds every degree, and grows with the list.
pub proof fn lemma_max_degree<F>(exprs: Seq<Expression<F>>, floor: nat)
    ensures
        max_degree(exprs, floor) >= floor,
        forall|i: int|
            0 <= i < exprs.len() ==> (#[trigger] exprs[i]).degree_spec() <= max_degree(
                exprs,
                floor,
            ),
        forall|n: int|
            0 <= n <= exprs.len() ==> #[trigger] max_degree(exprs.take(n), floor) <= max_degree(
                exprs,
                floor,
            ),
    decreases exprs.len(),
{
    if exprs.len() > 0 {
        let init = exprs.drop_last();
        lemma_max_degree(init, floor);
        assert forall|i: int| 0 <= i < exprs.len() implies (#[trigger] exprs[i]).degree_spec()
            <= max_degree(exprs, floor) by {
            if i < init.len() {
                assert(init[i] == exprs[i]);
            }
        }
        assert forall|n: int| 0 <= n <= exprs.len() implies #[trigger] max_degree(
            exprs.take(n),
            floor,
        ) <= max_degree(exprs, floor) by {
            if n < exprs.len() {
                assert(exprs.take(n) =~= init.take(n));
            } else {
                assert(exprs.take(n) =~= exprs);
            }
        }
    } else {
        assert(forall|n: int| 0 <= n <= exprs.len() ==> #[trigger] exprs.take(n) =~= exprs);
    }
}

/// Returns the largest of `floor` and the degrees of `exprs`.
pub(crate) fn largest_degree<F: Copy>(exprs: &[Expression<F>], floor: usize) -> (degree: usize)
    requires
        max_degree(exprs@, floor as nat) <= usize::MAX,
    ensures
        degree == max_degree(exprs@, floor as nat),
{
    let mut degree: usize = floor;
    let mut i: usize = 0;
    assert(exprs@.take(0) =~= seq![]);
    while i < exprs.len()
        invariant
            i <= exprs@.len(),
            max_degree(exprs@, floor as nat) <= usize::MAX,
            degree == max_degree(exprs@.take(i as int), floor as nat),
        decreases exprs@.len() - i,
    {
        proof {
            lemma_max_degree(exprs@, floor as nat);
            assert(exprs@[i as int].degree_spec() <= usize::MAX);
        }
        degree = max(degree, exprs[i].degree());
        proof {
            assert(exprs@.take(i + 1).drop_last() =~= exprs@.take(i as int));
            assert(exprs@.take(i + 1).last() == exprs@[i as int]);
        }
        i = i + 1;
    }
    assert(exprs@.take(i as int) =~= exprs@);
    degree
}

/// Returns the largest of `floor` and the degrees of `exprs`, unless it is too large to be
/// represented.
pub(crate) fn checked_largest_degree<F: Copy>(exprs: &[Expression<F>], floor: usize) -> (degree:
    Option<usize>)
    ensures
        match degree {
            Some(degree) => degree == max_degree(exprs@, floor as nat),
            None => max_degree(exprs@, floor as nat) > usize::MAX,
        },
{
    let mut degree: usize = floor;
    let mut i: usize = 0;
    assert(exprs@.take(0) =~= seq![]);
    while i < exprs.len()
        invariant
            i <= exprs@.len(),
            degree == max_degree(exprs@.take(i as int), floor as nat),
        decreases exprs@.len() - i,
    {
        match exprs[i].checked_degree() {
            Some(next) => {
                degree = max(degree, next);
            },
            None => {
                proof {
                    lemma_max_degree(exprs@, floor as nat);
                    assert(exprs@[i as int].degree_spec() > usize::MAX);
                }
                return None;
            },
        }
        proof {
            assert(exprs@.take(i + 1).drop_last() =~= exprs@.take(i as int));
            assert(exprs@.take(i + 1).last() == exprs@[i as int]);
        }
        i = i + 1;
    }
    assert(exprs@.take(i as int) =~= exprs@);
    Some(degree)
}

impl<F> Expression<F> {
    /// The degree of this polynomial.
    pub open spec fn degree_spec(self) -> nat
        decreases self,
    {
        match self {
            Expression::Constant(_) => 0,
            Expression::Selector(_) => 1,
            Expression::Fixed(_) => 1,
            Expression::Advice(_) => 1,
            Expression::Instance(_) => 1,
            Expression::Negated(poly) => poly.degree_spec(),
            Expression::Sum(a, b) => max_nat(a.degree_spec(), b.degree_spec()),
            Expression::Product(a, b) => a.degree_spec() + b.degree_spec(),
            Expression::Scaled(poly, _) => poly.degree_spec(),
        }
    }

    /// The selectors of this expression, from left to right.
    pub open spec fn selectors(self) -> Seq<Selector>
        decreases self,
    {
        match self {
            Expression::Constant(_) => seq![],
            Expression::Selector(selector) => seq![selector],
            Expression::Fixed(_) => seq![],
            Expression::Advice(_) => seq![],
            Expression::Instance(_) => seq![],
            Expression::Negated(poly) => poly.selectors(),
            Expression::Sum(a, b) => a.selectors() + b.selectors(),
            Expression::Product(a, b) => a.selectors() + b.selectors(),
            Expression::Scaled(poly, _) => poly.selectors(),
        }
    }

    /// The simple selectors of this expression, from left to right.
    pub open spec fn simple_selectors(self) -> Seq<Selector>
        decreases self,
    {
        match self {
            Expression::Constant(_) => seq![],
            Expression::Selector(selector) => if selector.1 {
                seq![selector]
            } else {
                seq![]
            },
            Expression::Fixed(_) => seq![],
            Expression::Advice(_) => seq![],
            Expression::Instance(_) => seq![],
            Expression::Negated(poly) => poly.simple_selectors(),
            Expression::Sum(a, b) => a.simple_selectors() + b.simple_selectors(),
            Expression::Product(a, b) => a.simple_selectors() + b.simple_selectors(),
            Expression::Scaled(poly, _) => poly.simple_selectors(),
        }
    }

    /// States that this expression contains a simple selector.
    pub open spec fn has_simple_selector(self) -> bool {
        self.simple_selectors().len() > 0
    }

    /// States that this expression keeps the rules for simple selectors: no sum contains
    /// one, and no two are multiplied with each other.
    pub open spec fn selectors_ok(self) -> bool
        decreases self,
    {
        match self {
            Expression::Negated(poly) => poly.selectors_ok(),
            Expression::Sum(a, b) => {
                &&& a.selectors_ok()
                &&& b.selectors_ok()
                &&& !a.has_simple_selector()
                &&& !b.has_simple_selector()
            },
            Expression::Product(a, b) => {
                &&& a.selectors_ok()
                &&& b.selectors_ok()
                &&& !(a.has_simple_selector() && b.has_simple_selector())
            },
            Expression::Scaled(poly, _) => poly.selectors_ok(),
            _ => true,
        }
    }
}

/// Whether an expression contains a simple selector, variant by variant.
spec fn containment<F>() -> Algebra<F, bool> {
    Algebra {
        constant: |_v: F| false,
        selector: |s: Selector| s.1,
        fixed: |_q: FixedQuery| false,
        advice: |_q: AdviceQuery| false,
        instance: |_q: InstanceQuery| false,
        negated: |a: bool| a,
        sum: |a: bool, b: bool| a || b,
        product: |a: bool, b: bool| a || b,
        scaled: |a: bool, _f: F| a,
        selector_ok: |_s: Selector| true,
        sum_ok: |_a: bool, _b: bool| true,
        product_ok: |_a: bool, _b: bool| true,
    }
}

proof fn lemma_containment<F>(e: Expression<F>)
    ensures
        has_meaning(e, containment()),
        meaning(e, containment()) == e.has_simple_selector(),
    decreases e,
{
    match e {
        Expression::Negated(a) => {
            lemma_containment(*a);
        },
        Expression::Sum(a, b) => {
            lemma_containment(*a);
            lemma_containment(*b);
        },
        Expression::Product(a, b) => {
            lemma_containment(*a);
            lemma_containment(*b);
        },
        Expression::Scaled(a, f) => {
            lemma_containment(*a);
        },
        _ => {},
    }
}

/// The simple selector that stands in one of two operands.
spec fn either(a: Option<Selector>, b: Option<Selector>) -> Option<Selector> {
    match (a, b) {
        (Some(s), None) => Some(s),
        (None, Some(s)) => Some(s),
        _ => None,
    }
}

/// The simple selector of an expression that contains no more than one, variant by
/// variant.
spec fn extraction<F>() -> Algebra<F, Option<Selector>> {
    Algebra {
        constant: |_v: F| None,
        selector: |s: Selector|
            if s.1 {
                Some(s)
            } else {
                None
            },
        fixed: |_q: FixedQuery| None,
        advice: |_q: AdviceQuery| None,
        instance: |_q: InstanceQuery| None,
        negated: |a: Option<Selector>| a,
        sum: |a: Option<Selector>, b: Option<Selector>| either(a, b),
        product: |a: Option<Selector>, b: Option<Selector>| either(a, b),
        scaled: |a: Option<Selector>, _f: F| a,
        selector_ok: |_s: Selector| true,
        sum_ok: |a: Option<Selector>, b: Option<Selector>| a is None || b is None,
        product_ok: |a: Option<Selector>, b: Option<Selector>| a is None || b is None,
    }
}

/// The first element, if there is one.
pub open spec fn first<T>(s: Seq<T>) -> Option<T> {
    if s.len() > 0 {
        Some(s[0])
    } else {
        None
    }
}

proof fn lemma_extraction<F>(e: Expression<F>)
    requires
        e.simple_selectors().len() <= 1,
    ensures
        has_meaning(e, extraction()),
        meaning(e, extraction()) == first(e.simple_selectors()),
    decreases e,
{
    match e {
        Expression::Negated(a) => {
            lemma_extraction(*a);
        },
        Expression::Sum(a, b) => {
            lemma_extraction(*a);
            lemma_extraction(*b);
        },
        Expression::Product(a, b) => {
            lemma_extraction(*a);
            lemma_extraction(*b);
        },
        Expression::Scaled(a, f) => {
            lemma_extraction(*a);
        },
        _ => {},
    }
}

impl<F: Copy> Expression<F> {
    /// Compute the degree of this polynomial.
    pub fn degree(&self) -> (degree: usize)
        requires
            self.degree_spec() <= usize::MAX,
        ensures
            degree == self.degree_spec(),
        decreases self,
    {
        match self {
            Expression::Constant(_) => 0,
            Expression::Selector(_) => 1,
            Expression::Fixed(_) => 1,
            Expression::Advice(_) => 1,
            Expression::Instance(_) => 1,
            Expression::Negated(poly) => poly.degree(),
            Expression::Sum(a, b) => max(a.degree(), b.degree()),
            Expression::Product(a, b) => a.degree() + b.degree(),
            Expression::Scaled(poly, _) => poly.degree(),
        }
    }

    /// Compute the degree of this polynomial, unless it is too large to be represented.
    pub fn checked_degree(&self) -> (degree: Option<usize>)
        ensures
            match degree {
                Some(degree) => degree == self.degree_spec(),
                None => self.degree_spec() > usize::MAX,
            },
        decreases self,
    {
        match self {
            Expression::Constant(_) => Some(0),
            Expression::Selector(_) => Some(1),
            Expression::Fixed(_) => Some(1),
            Expression::Advice(_) => Some(1),
            Expression::Instance(_) => Some(1),
            Expression::Negated(poly) => poly.checked_degree(),
            Expression::Sum(a, b) => match (a.checked_degree(), b.checked_degree()) {
                (Some(a), Some(b)) => Some(max(a, b)),
                _ => None,
            },
            Expression::Product(a, b) => match (a.checked_degree(), b.checked_degree()) {
                (Some(a), Some(b)) => a.checked_add(b),
                _ => None,
            },
            Expression::Scaled(poly, _) => poly.checked_degree(),
        }
    }

    /// Square this expression.
    pub fn square(self) -> (r: Self)
        requires
            !self.has_simple_selector(),
        ensures
            r == Expression::Product(Box::new(self), Box::new(self)),
    {
        self.clone() * self
    }

    /// Returns whether or not this expression contains a simple `Selector`.
    pub fn contains_simple_selector(&self) -> (r: bool)
        ensures
            r == self.has_simple_selector(),
    {
        let constant = |_v: F| -> (r: bool)
            ensures
                r == false,
            { false };
        let selector_column = |selector: Selector| -> (r: bool)
            ensures
                r == selector.1,
            { selector.is_simple() };
        let fixed_column = |_q: FixedQuery| -> (r: bool)
            ensures
                r == false,
            { false };
        let advice_column = |_q: AdviceQuery| -> (r: bool)
            ensures
                r == false,
            { false };
        let instance_column = |_q: InstanceQuery| -> (r: bool)
            ensures
                r == false,
            { false };
        let negated = |a: bool| -> (r: bool)
            ensures
                r == a,
            { a };
        let sum = |a: bool, b: bool| -> (r: bool)
            ensures
                r == (a || b),
            { a || b };
        let product = |a: bool, b: bool| -> (r: bool)
            ensures
                r == (a || b),
            { a || b };
        let scaled = |a: bool, _f: F| -> (r: bool)
            ensures
                r == a,
            { a };
        proof {
            let ops = Operations {
                constant,
                selector: selector_column,
                fixed: fixed_column,
                advice: advice_column,
                instance: instance_column,
                negated,
                sum,
                product,
                scaled,
            };
            lemma_containment(*self);
            lemma_evaluation(*self, ops, containment());
        }
        self.evaluate(
            &constant,
            &selector_column,
            &fixed_column,
            &advice_column,
            &instance_column,
            &negated,
            &sum,
            &product,
            &scaled,
        )
    }

    /// Extracts a simple selector from this gate, if present.
    pub fn extract_simple_selector(&self) -> (r: Option<Selector>)
        requires
            self.simple_selectors().len() <= 1,
        ensures
            r == first(self.simple_selectors()),
    {
        let constant = |_v: F| -> (r: Option<Selector>)
            ensures
                r is None,
            { None };
        let selector_column = |selector: Selector| -> (r: Option<Selector>)
            ensures
                r == (if selector.1 {
                    Some(selector)
                } else {
                    None
                }),
            {
                if selector.is_simple() {
                    Some(selector)
                } else {
                    None
                }
            };
        let fixed_column = |_q: FixedQuery| -> (r: Option<Selector>)
            ensures
                r is None,
            { None };
        let advice_column = |_q: AdviceQuery| -> (r: Option<Selector>)
            ensures
                r is None,
            { None };
        let instance_column = |_q: InstanceQuery| -> (r: Option<Selector>)
            ensures
                r is None,
            { None };
        let negated = |a: Option<Selector>| -> (r: Option<Selector>)
            ensures
                r == a,
            { a };
        let op = |a: Option<Selector>, b: Option<Selector>| -> (r: Option<Selector>)
            requires
                a is None || b is None,
            ensures
                r == either(a, b),
            {
                match (a, b) {
                    (Some(s), None) | (None, Some(s)) => Some(s),
                    _ => None,
                }
            };
        let scaled = |a: Option<Selector>, _f: F| -> (r: Option<Selector>)
            ensures
                r == a,
            { a };
        proof {
            let ops = Operations {
                constant,
                selector: selector_column,
                fixed: fixed_column,
                advice: advice_column,
                instance: instance_column,
                negated,
                sum: op,
                product: op,
                scaled,
            };
            lemma_extraction(*self);
            lemma_evaluation(*self, ops, extraction());
        }
        self.evaluate(
            &constant,
            &selector_column,
            &fixed_column,
            &advice_column,
            &instance_column,
            &negated,
            &op,
            &op,
            &scaled,
        )
    }
}

impl<F: Copy> Neg for Expression<F> {
    type Output = Expression<F>;

    fn neg(self) -> (r: Self::Output) {
        Expression::Negated(Box::new(self))
    }
}

impl<F: Copy> vstd::std_specs::ops::NegSpecImpl for Expression<F> {
    open spec fn obeys_neg_spec() -> bool {
        true
    }

    open spec fn neg_req(self) -> bool {
        true
    }

    open spec fn neg_spec(self) -> Expression<F> {
        Expression::Negated(Box::new(self))
    }
}

impl<F: Copy> Add for Expression<F> {
    type Output = Expression<F>;

    fn add(self, rhs: Expression<F>) -> (r: Expression<F>) {
        Expression::Sum(Box::new(self), Box::new(rhs))
    }
}

impl<F: Copy> vstd::std_specs::ops::AddSpecImpl for Expression<F> {
    open spec fn obeys_add_spec() -> bool {
        true
    }

    /// A simple selector cannot be used in an addition.
    open spec fn add_req(self, rhs: Expression<F>) -> bool {
        !self.has_simple_selector() && !rhs.has_simple_selector()
    }

    open spec fn add_spec(self, rhs: Expression<F>) -> Expression<F> {
        Expression::Sum(Box::new(self), Box::new(rhs))
    }
}

impl<F: Copy> Sub for Expression<F> {
    type Output = Expression<F>;

    fn sub(self, rhs: Expression<F>) -> (r: Expression<F>) {
        Expression::Sum(Box::new(self), Box::new(rhs.neg()))
    }
}

impl<F: Copy> vstd::std_specs::ops::SubSpecImpl for Expression<F> {
    open spec fn obeys_sub_spec() -> bool {
        true
    }

    /// A simple selector cannot be used in a subtraction.
    open spec fn sub_req(self, rhs: Expression<F>) -> bool {
        !self.has_simple_selector() && !rhs.has_simple_selector()
    }

    open spec fn sub_spec(self, rhs: Expression<F>) -> Expression<F> {
        Expression::Sum(Box::new(self), Box::new(Expression::Negated(Box::new(rhs))))
    }
}

impl<F: Copy> Mul for Expression<F> {
    type Output = Expression<F>;

    fn mul(self, rhs: Expression<F>) -> (r: Expression<F>) {
        Expression::Product(Box::new(self), Box::new(rhs))
    }
}

impl<F: Copy> vstd::std_specs::ops::MulSpecImpl for Expression<F> {
    open spec fn obeys_mul_spec() -> bool {
        true
    }

    /// Two expressions containing simple selectors cannot be multiplied.
    open spec fn mul_req(self, rhs: Expression<F>) -> bool {
        !(self.has_simple_selector() && rhs.has_simple_selector())
    }

    open spec fn mul_spec(self, rhs: Expression<F>) -> Expression<F> {
        Expression::Product(Box::new(self), Box::new(rhs))
    }
}

impl<F: Copy> Mul<F> for Expression<F> {
    type Output = Expression<F>;

    fn mul(self, rhs: F) -> (r: Expression<F>) {
        Expression::Scaled(Box::new(self), rhs)
    }
}

impl<F: Copy> vstd::std_specs::ops::MulSpecImpl<F> for Expression<F> {
    open spec fn obeys_mul_spec() -> bool {
        true
    }

    open spec fn mul_req(self, rhs: F) -> bool {
        true
    }

    open spec fn mul_spec(self, rhs: F) -> Expression<F> {
        Expression::Scaled(Box::new(self), rhs)
    }
}

/// An expression that keeps the rules for simple selectors contains one at most, so that it
/// can be extracted.
pub proof fn lemma_one_simple_selector<F>(e: Expression<F>)
    requires
        e.selectors_ok(),
    ensures
        e.simple_selectors().len() <= 1,
    decreases e,
{
    match e {
        Expression::Negated(a) => {
            lemma_one_simple_selector(*a);
        },
        Expression::Sum(a, b) => {
            lemma_one_simple_selector(*a);
            lemma_one_simple_selector(*b);
        },
        Expression::Product(a, b) => {
            lemma_one_simple_selector(*a);
            lemma_one_simple_selector(*b);
        },
        Expression::Scaled(a, _) => {
            lemma_one_simple_selector(*a);
        },
        _ => {},
    }
}

/// The operators keep the rules for simple selectors: wherever they may be applied to two
/// expressions that keep them, what comes out keeps them.
pub proof fn lemma_operators_keep_rules<F: Copy>(a: Expression<F>, b: Expression<F>, f: F)
    requires
        a.selectors_ok(),
        b.selectors_ok(),
    ensures
        vstd::std_specs::ops::NegSpec::neg_spec(a).selectors_ok(),
        vstd::std_specs::ops::AddSpec::add_req(a, b) ==> vstd::std_specs::ops::AddSpec::add_spec(
            a,
            b,
        ).selectors_ok(),
        vstd::std_specs::ops::SubSpec::sub_req(a, b) ==> vstd::std_specs::ops::SubSpec::sub_spec(
            a,
            b,
        ).selectors_ok(),
        vstd::std_specs::ops::MulSpec::mul_req(a, b) ==> vstd::std_specs::ops::MulSpec::mul_spec(
            a,
            b,
        ).selectors_ok(),
        vstd::std_specs::ops::MulSpec::mul_spec(a, f).selectors_ok(),
{
    reveal_with_fuel(Expression::selectors_ok, 3);
    reveal_with_fuel(Expression::simple_selectors, 2);
}

/// An expression that contains a selector has degree one at least.
pub proof fn lemma_selector_has_degree<F>(e: Expression<F>)
    ensures
        e.selectors().len() > 0 ==> e.degree_spec() >= 1,
    decreases e,
{
    match e {
        Expression::Negated(a) => {
            lemma_selector_has_degree(*a);
        },
        Expression::Sum(a, b) => {
            lemma_selector_has_degree(*a);
            lemma_selector_has_degree(*b);
        },
        Expression::Product(a, b) => {
            lemma_selector_has_degree(*a);
            lemma_selector_has_degree(*b);
        },
        Expression::Scaled(a, _) => {
            lemma_selector_has_degree(*a);
        },
        _ => {},
    }
}

// ---------------------------------------------------------------------------------
// Binary form
// ---------------------------------------------------------------------------------

/// The queries of a constraint system, by which the query index in the binary form of an
/// expression is turned back into a column and a rotation.
pub struct Queries {
    /// The queries of fixed columns.
    pub fixed: Seq<(Column<Fixed>, Rotation)>,
    /// The queries of advice columns.
    pub advice: Seq<(Column<Advice>, Rotation)>,
    /// The queries of instance columns.
    pub instance: Seq<(Column<Instance>, Rotation)>,
}

/// The given queries.
pub open spec fn queries_of(
    fixed: &[(Column<Fixed>, Rotation)],
    advice: &[(Column<Advice>, Rotation)],
    instance: &[(Column<Instance>, Rotation)],
) -> Queries {
    Queries { fixed: fixed@, advice: advice@, instance: instance@ }
}

/// The index of a selector in two bytes, then 1 if it is simple and 0 if not.
pub open spec fn encode_selector(selector: Selector) -> Seq<u8> {
    codec::u16_le(selector.0 as nat) + seq![
        if selector.1 {
            1u8
        } else {
            0u8
        },
    ]
}

/// Reads a selector: its index in two bytes, then a byte that is not 0 if it is simple.
pub open spec fn parse_selector(s: Seq<u8>) -> codec::Parsed<Selector> {
    match codec::parse_u16(s) {
        Ok((index, rest)) => match codec::parse_u8(rest) {
            Ok((simple, rest)) => Ok((Selector(index as usize, simple != 0), rest)),
            Err(e) => Err(e),
        },
        Err(e) => Err(e),
    }
}

/// Appends a selector.
pub(crate) fn write_selector(writer: &mut Vec<u8>, selector: &Selector)
    ensures
        final(writer)@ == old(writer)@ + encode_selector(*selector),
{
    codec::write_u16(writer, selector.0);
    writer.push(
        if selector.is_simple() {
            1
        } else {
            0
        },
    );
    assert(writer@ =~= old(writer)@ + encode_selector(*selector));
}

/// Reads a selector.
pub(crate) fn read_selector(reader: &mut Reader<'_>) -> (r: Result<Selector, ReadError>)
    ensures
        codec::reads(r, parse_selector(old(reader)@), old(reader)@, final(reader)@),
{
    let ghost start = reader@;
    let index = match codec::read_u16(reader) {
        Ok(index) => index as usize,
        Err(e) => {
            return Err(e);
        },
    };
    let ghost middle = reader@;
    let r = codec::read_u8(reader);
    proof {
        codec::lemma_suffix_trans(reader@, middle, start);
    }
    match r {
        Ok(simple) => Ok(Selector(index, simple != 0)),
        Err(e) => Err(e),
    }
}

/// A selector whose index is below 65536 is read back as it was written.
pub proof fn lemma_selector_round_trip(selector: Selector)
    requires
        selector.0 < 0x1_0000,
    ensures
        codec::round_trips(
            selector,
            |v: Selector| encode_selector(v),
            |s: Seq<u8>| parse_selector(s),
        ),
{
    let encode = |v: Selector| encode_selector(v);
    let parse = |s: Seq<u8>| parse_selector(s);
    let simple = encode_selector(selector).skip(2);
    assert forall|tail: Seq<u8>| #[trigger]
        parse(encode(selector) + tail) == Ok::<(Selector, Seq<u8>), ReadError>(
            (selector, tail),
        ) by {
        codec::lemma_u16_round_trip(selector.0 as nat, simple + tail);
        assert(encode(selector) + tail =~= codec::u16_le(selector.0 as nat) + (simple + tail));
        assert((simple + tail).skip(1) =~= tail);
    }
}

/// Reads the canonical encoding of a field element; bytes that are none give `invalid`.
pub open spec fn parse_scalar<F: PrimeField>(s: Seq<u8>, invalid: ReadError) -> codec::Parsed<F> {
    match codec::parse_bytes(F::repr_len(), s) {
        Ok((bytes, rest)) => if field::is_repr::<F>(bytes) {
            Ok((field::of_repr::<F>(bytes), rest))
        } else {
            Err(invalid)
        },
        Err(e) => Err(e),
    }
}

/// Reads the canonical encoding of a field element.
fn read_scalar<F: PrimeField>(reader: &mut Reader<'_>, invalid: ReadError) -> (r: Result<
    F,
    ReadError,
>)
    ensures
        codec::reads(r, parse_scalar(old(reader)@, invalid), old(reader)@, final(reader)@),
{
    match reader.read_exact(F::repr_size()) {
        Ok(bytes) => match F::from_repr(bytes) {
            Some(f) => {
                proof {
                    field::lemma_of_repr(f);
                }
                Ok(f)
            },
            None => Err(invalid),
        },
        Err(e) => Err(e),
    }
}

/// A field element is read back from its canonical encoding.
proof fn lemma_scalar_round_trip<F: PrimeField>(f: F, invalid: ReadError, tail: Seq<u8>)
    requires
        f.wf(),
    ensures
        parse_scalar::<F>(f.repr() + tail, invalid) == Ok::<(F, Seq<u8>), ReadError>((f, tail)),
{
    field::lemma_of_repr(f);
    assert((f.repr() + tail).take(f.repr().len() as int) =~= f.repr());
    assert((f.repr() + tail).skip(f.repr().len() as int) =~= tail);
}

/// Reads the index of a query of the given kind of which there are `len`.
pub open spec fn parse_query_index(s: Seq<u8>, kind: Any, len: nat) -> codec::Parsed<usize> {
    match codec::parse_u16(s) {
        Ok((index, rest)) => if index < len {
            Ok((index as usize, rest))
        } else {
            Err(
                ReadError::QueryOutOfBounds { kind, index: index as usize, len: len as usize },
            )
        },
        Err(e) => Err(e),
    }
}

/// Reads the index of a query of the given kind of which there are `len`.
fn read_query_index(reader: &mut Reader<'_>, kind: Any, len: usize) -> (r: Result<
    usize,
    ReadError,
>)
    ensures
        codec::reads(
            r,
            parse_query_index(old(reader)@, kind, len as nat),
            old(reader)@,
            final(reader)@,
        ),
{
    match codec::read_u16(reader) {
        Ok(index) => {
            let index: usize = index as usize;
            if index < len {
                Ok(index)
            } else {
                Err(ReadError::QueryOutOfBounds { kind, index, len })
            }
        },
        Err(e) => Err(e),
    }
}

/// Reads an expression.
///
/// What stands behind the left operand of a sum or a product is always shorter than what
/// the operand was read from, so that the right operand is read in every case.
pub open spec fn parse_expression<F: PrimeField>(s: Seq<u8>, queries: Queries) -> codec::Parsed<
    Expression<F>,
>
    decreases s.len(),
{
    match codec::parse_u8(s) {
        Ok((tag, rest)) => if tag == 0x00 {
            match parse_scalar::<F>(rest, ReadError::InvalidFieldElement) {
                Ok((f, rest)) => Ok((Expression::Constant(f), rest)),
                Err(e) => Err(e),
            }
        } else if tag == 0x01 {
            match parse_selector(rest) {
                Ok((selector, rest)) => Ok((Expression::Selector(selector), rest)),
                Err(e) => Err(e),
            }
        } else if tag == 0x02 {
            match parse_query_index(rest, Any::Fixed, queries.fixed.len()) {
                Ok((index, rest)) => {
                    let (column, rotation) = queries.fixed[index as int];
                    let query = FixedQuery { index, column_index: column.index, rotation };
                    Ok((Expression::Fixed(query), rest))
                },
                Err(e) => Err(e),
            }
        } else if tag == 0x03 {
            match parse_query_index(rest, Any::Advice, queries.advice.len()) {
                Ok((index, rest)) => {
                    let (column, rotation) = queries.advice[index as int];
                    let query = AdviceQuery { index, column_index: column.index, rotation };
                    Ok((Expression::Advice(query), rest))
                },
                Err(e) => Err(e),
            }
        } else if tag == 0x04 {
            match parse_query_index(rest, Any::Instance, queries.instance.len()) {
                Ok((index, rest)) => {
                    let (column, rotation) = queries.instance[index as int];
                    let query = InstanceQuery { index, column_index: column.index, rotation };
                    Ok((Expression::Instance(query), rest))
                },
                Err(e) => Err(e),
            }
        } else if tag == 0x05 {
            match parse_expression(rest, queries) {
                Ok((inner, rest)) => Ok((Expression::Negated(Box::new(inner)), rest)),
                Err(e) => Err(e),
            }
        } else if tag == 0x06 || tag == 0x07 {
            match parse_expression(rest, queries) {
                Ok((left, rest)) => if rest.len() < s.len() {
                    match parse_expression(rest, queries) {
                        Ok((right, rest)) => if tag == 0x06 {
                            Ok((Expression::Sum(Box::new(left), Box::new(right)), rest))
                        } else {
                            Ok((Expression::Product(Box::new(left), Box::new(right)), rest))
                        },
                        Err(e) => Err(e),
                    }
                } else {
                    Err(ReadError::UnexpectedEof)
                },
                Err(e) => Err(e),
            }
        } else if tag == 0x08 {
            match parse_expression(rest, queries) {
                Ok((inner, rest)) => match parse_scalar::<F>(rest, ReadError::InvalidScaleFactor) {
                    Ok((factor, rest)) => Ok((Expression::Scaled(Box::new(inner), factor), rest)),
                    Err(e) => Err(e),
                },
                Err(e) => Err(e),
            }
        } else {
            Err(ReadError::InvalidExpressionTag(tag))
        },
        Err(e) => Err(e),
    }
}

impl<F: PrimeField> Expression<F> {
    /// The binary form of this expression.
    pub open spec fn encode(self) -> Seq<u8>
        decreases self,
    {
        match self {
            Expression::Constant(f) => seq![0x00u8] + f.repr(),
            Expression::Selector(selector) => seq![0x01u8] + encode_selector(selector),
            Expression::Fixed(query) => seq![0x02u8] + codec::u16_le(query.index as nat),
            Expression::Advice(query) => seq![0x03u8] + codec::u16_le(query.index as nat),
            Expression::Instance(query) => seq![0x04u8] + codec::u16_le(query.index as nat),
            Expression::Negated(inner) => seq![0x05u8] + inner.encode(),
            Expression::Sum(left, right) => seq![0x06u8] + left.encode() + right.encode(),
            Expression::Product(left, right) => seq![0x07u8] + left.encode() + right.encode(),
            Expression::Scaled(inner, factor) => seq![0x08u8] + inner.encode() + factor.repr(),
        }
    }

    /// States that the binary form of this expression says all there is to say of it
    /// where the queries are `queries`: its field elements are proper, its selectors and
    /// query indices fit in two bytes, and its queries are those of the system.
    pub open spec fn encodable(self, queries: Queries) -> bool
        decreases self,
    {
        match self {
            Expression::Constant(f) => f.wf(),
            Expression::Selector(selector) => selector.0 < 0x1_0000,
            Expression::Fixed(query) => {
                &&& query.index < 0x1_0000
                &&& query.index < queries.fixed.len()
                &&& query.column_index == queries.fixed[query.index as int].0.index
                &&& query.rotation == queries.fixed[query.index as int].1
            },
            Expression::Advice(query) => {
                &&& query.index < 0x1_0000
                &&& query.index < queries.advice.len()
                &&& query.column_index == queries.advice[query.index as int].0.index
                &&& query.rotation == queries.advice[query.index as int].1
            },
            Expression::Instance(query) => {
                &&& query.index < 0x1_0000
                &&& query.index < queries.instance.len()
                &&& query.column_index == queries.instance[query.index as int].0.index
                &&& query.rotation == queries.instance[query.index as int].1
            },
            Expression::Negated(inner) => inner.encodable(queries),
            Expression::Sum(left, right) => left.encodable(queries) && right.encodable(queries),
            Expression::Product(left, right) => {
                left.encodable(queries) && right.encodable(queries)
            },
            Expression::Scaled(inner, factor) => inner.encodable(queries) && factor.wf(),
        }
    }

    /// Writes this expression in binary form, as a tag byte and what belongs to it:
    ///
    /// - 0x00, a constant: its canonical encoding
    /// - 0x01, a selector: its index in two bytes, then 1 if it is simple and 0 if not
    /// - 0x02, 0x03 and 0x04, a query of a fixed, an advice or an instance column: the
    ///   index of the query in two bytes
    /// - 0x05, a negation: the inner expression
    /// - 0x06 and 0x07, a sum and a product: the left expression, then the right one
    /// - 0x08, a scaling: the inner expression, then the factor
    pub fn write(&self, writer: &mut Vec<u8>)
        ensures
            final(writer)@ == old(writer)@ + self.encode(),
        decreases self,
    {
        match self {
            Expression::Constant(f) => {
                writer.push(0x00);
                codec::write_all(writer, f.to_repr().as_slice());
            },
            Expression::Selector(selector) => {
                writer.push(0x01);
                write_selector(writer, selector);
            },
            Expression::Fixed(query) => {
                writer.push(0x02);
                codec::write_u16(writer, query.index);
            },
            Expression::Advice(query) => {
                writer.push(0x03);
                codec::write_u16(writer, query.index);
            },
            Expression::Instance(query) => {
                writer.push(0x04);
                codec::write_u16(writer, query.index);
            },
            Expression::Negated(inner) => {
                writer.push(0x05);
                inner.write(writer);
            },
            Expression::Sum(left, right) => {
                writer.push(0x06);
                left.write(writer);
                right.write(writer);
            },
            Expression::Product(left, right) => {
                writer.push(0x07);
                left.write(writer);
                right.write(writer);
            },
            Expression::Scaled(inner, factor) => {
                writer.push(0x08);
                inner.write(writer);
                codec::write_all(writer, factor.to_repr().as_slice());
            },
        }
        assert(writer@ =~= old(writer)@ + self.encode());
    }

    /// Reads an expression from its binary form.
    ///
    /// The queries serve to turn query indices back into queries.
    pub fn read(
        reader: &mut Reader<'_>,
        fixed_queries: &[(Column<Fixed>, Rotation)],
        advice_queries: &[(Column<Advice>, Rotation)],
        instance_queries: &[(Column<Instance>, Rotation)],
    ) -> (r: Result<Self, ReadError>)
        ensures
            codec::reads(
                r,
                parse_expression(
                    old(reader)@,
                    queries_of(fixed_queries, advice_queries, instance_queries),
                ),
                old(reader)@,
                final(reader)@,
            ),
        decreases old(reader)@.len(),
    {
        let ghost start = reader@;
        let tag = match codec::read_u8(reader) {
            Ok(tag) => tag,
            Err(e) => {
                return Err(e);
            },
        };
        let ghost tagged = reader@;
        if tag == 0x00 {
            let r = read_scalar::<F>(reader, ReadError::InvalidFieldElement);
            proof {
                codec::lemma_suffix_trans(reader@, tagged, start);
            }
            match r {
                Ok(f) => Ok(Expression::Constant(f)),
                Err(e) => Err(e),
            }
        } else if tag == 0x01 {
            let r = read_selector(reader);
            proof {
                codec::lemma_suffix_trans(reader@, tagged, start);
            }
            match r {
                Ok(selector) => Ok(Expression::Selector(selector)),
                Err(e) => Err(e),
            }
        } else if tag == 0x02 {
            let r = read_query_index(reader, Any::Fixed, fixed_queries.len());
            proof {
                codec::lemma_suffix_trans(reader@, tagged, start);
            }
            match r {
                Ok(index) => {
                    let (column, rotation) = fixed_queries[index];
                    Ok(
                        Expression::Fixed(
                            FixedQuery { index, column_index: column.index(), rotation },
                        ),
                    )
                },
                Err(e) => Err(e),
            }
        } else if tag == 0x03 {
            let r = read_query_index(reader, Any::Advice, advice_queries.len());
            proof {
                codec::lemma_suffix_trans(reader@, tagged, start);
            }
            match r {
                Ok(index) => {
                    let (column, rotation) = advice_queries[index];
                    Ok(
                        Expression::Advice(
                            AdviceQuery { index, column_index: column.index(), rotation },
                        ),
                    )
                },
                Err(e) => Err(e),
            }
        } else if tag == 0x04 {
            let r = read_query_index(reader, Any::Instance, instance_queries.len());
            proof {
                codec::lemma_suffix_trans(reader@, tagged, start);
            }
            match r {
                Ok(index) => {
                    let (column, rotation) = instance_queries[index];
                    Ok(
                        Expression::Instance(
                            InstanceQuery { index, column_index: column.index(), rotation },
                        ),
                    )
                },
                Err(e) => Err(e),
            }
        } else if tag == 0x05 {
            let inner = Expression::read(reader, fixed_queries, advice_queries, instance_queries);
            proof {
                codec::lemma_suffix_trans(reader@, tagged, start);
            }
            match inner {
                Ok(inner) => Ok(Expression::Negated(Box::new(inner))),
                Err(e) => Err(e),
            }
        } else if tag == 0x06 || tag == 0x07 {
            let left = Expression::read(reader, fixed_queries, advice_queries, instance_queries);
            proof {
                codec::lemma_suffix_trans(reader@, tagged, start);
            }
            let left = match left {
                Ok(left) => left,
                Err(e) => {
                    return Err(e);
                },
            };
            let ghost middle = reader@;
            let right = Expression::read(reader, fixed_queries, advice_queries, instance_queries);
            proof {
                codec::lemma_suffix_trans(reader@, middle, start);
            }
            match right {
                Ok(right) => if tag == 0x06 {
                    Ok(Expression::Sum(Box::new(left), Box::new(right)))
                } else {
                    Ok(Expression::Product(Box::new(left), Box::new(right)))
                },
                Err(e) => Err(e),
            }
        } else if tag == 0x08 {
            let inner = Expression::read(reader, fixed_queries, advice_queries, instance_queries);
            proof {
                codec::lemma_suffix_trans(reader@, tagged, start);
            }
            let inner = match inner {
                Ok(inner) => inner,
                Err(e) => {
                    return Err(e);
                },
            };
            let ghost middle = reader@;
            let factor = read_scalar::<F>(reader, ReadError::InvalidScaleFactor);
            proof {
                codec::lemma_suffix_trans(reader@, middle, start);
            }
            match factor {
                Ok(factor) => Ok(Expression::Scaled(Box::new(inner), factor)),
                Err(e) => Err(e),
            }
        } else {
            Err(ReadError::InvalidExpressionTag(tag))
        }
    }
}

/// An expression is read back from its binary form, whatever stands behind it.
#[verifier::spinoff_prover]
#[verifier::rlimit(40)]
pub proof fn lemma_expression_round_trip<F: PrimeField>(
    e: Expression<F>,
    queries: Queries,
    tail: Seq<u8>,
)
    requires
        e.encodable(queries),
    ensures
        parse_expression::<F>(e.encode() + tail, queries) == Ok::<
            (Expression<F>, Seq<u8>),
            ReadError,
        >((e, tail)),
    decreases e,
{
    let s = e.encode() + tail;
    let rest = s.skip(1);
    match e {
        Expression::Constant(f) => {
            assert(rest =~= f.repr() + tail);
            lemma_scalar_round_trip(f, ReadError::InvalidFieldElement, tail);
        },
        Expression::Selector(selector) => {
            assert(rest =~= encode_selector(selector) + tail);
            lemma_selector_round_trip(selector);
            let encode = |v: Selector| encode_selector(v);
            let parse = |s: Seq<u8>| parse_selector(s);
            assert(codec::round_trips(selector, encode, parse));
            assert(parse(encode(selector) + tail) == Ok::<(Selector, Seq<u8>), ReadError>(
                (selector, tail),
            ));
        },
        Expression::Fixed(query) => {
            assert(rest =~= codec::u16_le(query.index as nat) + tail);
            codec::lemma_u16_round_trip(query.index as nat, tail);
        },
        Expression::Advice(query) => {
            assert(rest =~= codec::u16_le(query.index as nat) + tail);
            codec::lemma_u16_round_trip(query.index as nat, tail);
        },
        Expression::Instance(query) => {
            assert(rest =~= codec::u16_le(query.index as nat) + tail);
            codec::lemma_u16_round_trip(query.index as nat, tail);
        },
        Expression::Negated(inner) => {
            assert(rest =~= inner.encode() + tail);
            lemma_expression_round_trip(*inner, queries, tail);
        },
        Expression::Sum(left, right) => {
            assert(rest =~= left.encode() + (right.encode() + tail));
            lemma_expression_round_trip(*left, queries, right.encode() + tail);
            lemma_expression_round_trip(*right, queries, tail);
        },
        Expression::Product(left, right) => {
            assert(rest =~= left.encode() + (right.encode() + tail));
            lemma_expression_round_trip(*left, queries, right.encode() + tail);
            lemma_expression_round_trip(*right, queries, tail);
        },
        Expression::Scaled(inner, factor) => {
            assert(rest =~= inner.encode() + (factor.repr() + tail));
            lemma_expression_round_trip(*inner, queries, factor.repr() + tail);
            lemma_scalar_round_trip(factor, ReadError::InvalidScaleFactor, tail);
        },
    }
}

/// No two expressions share a binary form.
pub proof fn lemma_expression_identified<F: PrimeField>(
    a: Expression<F>,
    b: Expression<F>,
    queries: Queries,
)
    requires
        a.encodable(queries),
        b.encodable(queries),
        a.encode() == b.encode(),
    ensures
        a == b,
{
    lemma_expression_round_trip(a, queries, seq![]);
    lemma_expression_round_trip(b, queries, seq![]);
}

/// An expression that was read is made of the queries of the system, so that it can be
/// written and read back, and it was read from as many bytes as it is written in.
#[verifier::spinoff_prover]
pub proof fn lemma_parsed_expression<F: PrimeField>(s: Seq<u8>, queries: Queries)
    ensures
        parse_expression::<F>(s, queries) matches Ok((e, rest)) ==> {
            &&& e.encodable(queries)
            &&& s.len() == e.encode().len() + rest.len()
            &&& rest.len() < s.len()
        },
    decreases s.len(),
{
    if s.len() > 0 {
        let rest = s.skip(1);
        if 0x05 <= s[0] <= 0x08 {
            lemma_parsed_expression::<F>(rest, queries);
            if let Ok((_, rest)) = parse_expression::<F>(rest, queries) {
                if s[0] == 0x08 {
                    lemma_parsed_scalar::<F>(rest, ReadError::InvalidScaleFactor);
                } else {
                    lemma_parsed_expression::<F>(rest, queries);
                }
            }
        } else if s[0] == 0x00 {
            lemma_parsed_scalar::<F>(rest, ReadError::InvalidFieldElement);
        }
    }
}

/// A field element that was read is proper, and was read from its encoding.
proof fn lemma_parsed_scalar<F: PrimeField>(s: Seq<u8>, invalid: ReadError)
    ensures
        parse_scalar::<F>(s, invalid) matches Ok((f, rest)) ==> {
            &&& f.wf()
            &&& s.len() == f.repr().len() + rest.len()
            &&& s == f.repr() + rest
        },
{
    if let Ok((f, rest)) = parse_scalar::<F>(s, invalid) {
        F::lemma_repr(f, f);
        assert(f.repr() == s.take(F::repr_len() as int));
        assert(s =~= f.repr() + rest);
    }
}

/// States that wherever the reading of an expression from `s` comes to the byte that says
/// whether a selector is simple, that byte is 0 or 1.
pub open spec fn plain_flags<F: PrimeField>(s: Seq<u8>, queries: Queries) -> bool
    decreases s.len(),
{
    if s.len() == 0 {
        true
    } else if s[0] == 0x01 {
        s.len() >= 4 ==> s[3] <= 1
    } else if s[0] == 0x05 || s[0] == 0x08 {
        plain_flags::<F>(s.skip(1), queries)
    } else if s[0] == 0x06 || s[0] == 0x07 {
        &&& plain_flags::<F>(s.skip(1), queries)
        &&& match parse_expression::<F>(s.skip(1), queries) {
            Ok((_, rest)) => rest.len() < s.len() ==> plain_flags::<F>(rest, queries),
            Err(_) => true,
        }
    } else {
        true
    }
}

/// The bytes in which an expression is written say of each selector by 0 or 1 whether it is
/// simple.
#[verifier::spinoff_prover]
proof fn lemma_plain_flags<F: PrimeField>(e: Expression<F>, queries: Queries, tail: Seq<u8>)
    requires
        e.encodable(queries),
    ensures
        plain_flags::<F>(e.encode() + tail, queries),
    decreases e,
{
    let s = e.encode() + tail;
    let rest = s.skip(1);
    match e {
        Expression::Selector(selector) => {
            assert(s[3] == encode_selector(selector)[2]);
        },
        Expression::Negated(inner) => {
            assert(rest =~= inner.encode() + tail);
            lemma_plain_flags(*inner, queries, tail);
        },
        Expression::Sum(left, right) => {
            assert(rest =~= left.encode() + (right.encode() + tail));
            lemma_plain_flags(*left, queries, right.encode() + tail);
            lemma_expression_round_trip(*left, queries, right.encode() + tail);
            lemma_plain_flags(*right, queries, tail);
        },
        Expression::Product(left, right) => {
            assert(rest =~= left.encode() + (right.encode() + tail));
            lemma_plain_flags(*left, queries, right.encode() + tail);
            lemma_expression_round_trip(*left, queries, right.encode() + tail);
            lemma_plain_flags(*right, queries, tail);
        },
        Expression::Scaled(inner, factor) => {
            assert(rest =~= inner.encode() + (factor.repr() + tail));
            lemma_plain_flags(*inner, queries, factor.repr() + tail);
        },
        _ => {},
    }
}

/// An expression whose selectors were read with flags of 0 or 1 is written in the bytes it was
/// read from.
#[verifier::spinoff_prover]
proof fn lemma_written_as_read<F: PrimeField>(s: Seq<u8>, queries: Queries)
    requires
        plain_flags::<F>(s, queries),
    ensures
        parse_expression::<F>(s, queries) matches Ok((e, rest)) ==> s == e.encode() + rest,
    decreases s.len(),
{
    if s.len() > 0 {
        let inner = s.skip(1);
        assert(s =~= seq![s[0]] + inner);
        if let Ok((e, rest)) = parse_expression::<F>(s, queries) {
            if s[0] == 0x00 {
                lemma_parsed_scalar::<F>(inner, ReadError::InvalidFieldElement);
            } else if s[0] == 0x01 {
                codec::lemma_u16_written_as_read(inner);
                let behind = inner.skip(2);
                assert(behind =~= seq![s[3]] + rest);
            } else if 0x02 <= s[0] <= 0x04 {
                codec::lemma_u16_written_as_read(inner);
            } else {
                lemma_written_as_read::<F>(inner, queries);
                lemma_parsed_expression::<F>(inner, queries);
                let (first, behind) = parse_expression::<F>(inner, queries)->Ok_0;
                if s[0] == 0x08 {
                    lemma_parsed_scalar::<F>(behind, ReadError::InvalidScaleFactor);
                } else if s[0] != 0x05 {
                    lemma_written_as_read::<F>(behind, queries);
                }
            }
            assert(s =~= e.encode() + rest);
        }
    }
}

/// An expression that was read is written in the very bytes it was read from, exactly if each
/// of its selectors was read with a flag of 0 or 1.
pub proof fn lemma_expression_written_as_read<F: PrimeField>(s: Seq<u8>, queries: Queries)
    ensures
        parse_expression::<F>(s, queries) matches Ok((e, rest)) ==> (s == e.encode() + rest
            <==> plain_flags::<F>(s, queries)),
{
    if let Ok((e, rest)) = parse_expression::<F>(s, queries) {
        lemma_parsed_expression::<F>(s, queries);
        lemma_plain_flags(e, queries, rest);
        if plain_flags::<F>(s, queries) {
            lemma_written_as_read::<F>(s, queries);
        }
    }
}

/// States that `more` has the queries of `queries` at the same places.
pub open spec fn extends_queries(more: Queries, queries: Queries) -> bool {
    &&& queries.fixed.is_prefix_of(more.fixed)
    &&& queries.advice.is_prefix_of(more.advice)
    &&& queries.instance.is_prefix_of(more.instance)
}

/// An expression that can be written and read back still can when queries are added.
pub proof fn lemma_encodable_with_more_queries<F: PrimeField>(
    e: Expression<F>,
    queries: Queries,
    more: Queries,
)
    requires
        e.encodable(queries),
        extends_queries(more, queries),
    ensures
        e.encodable(more),
    decreases e,
{
    match e {
        Expression::Fixed(query) => {
            assert(queries.fixed[query.index as int] == more.fixed[query.index as int]);
        },
        Expression::Advice(query) => {
            assert(queries.advice[query.index as int] == more.advice[query.index as int]);
        },
        Expression::Instance(query) => {
            assert(queries.instance[query.index as int] == more.instance[query.index as int]);
        },
        Expression::Negated(a) => {
            lemma_encodable_with_more_queries(*a, queries, more);
        },
        Expression::Sum(a, b) => {
            lemma_encodable_with_more_queries(*a, queries, more);
            lemma_encodable_with_more_queries(*b, queries, more);
        },
        Expression::Product(a, b) => {
            lemma_encodable_with_more_queries(*a, queries, more);
            lemma_encodable_with_more_queries(*b, queries, more);
        },
        Expression::Scaled(a, _) => {
            lemma_encodable_with_more_queries(*a, queries, more);
        },
        _ => {},
    }
}

// ---------------------------------------------------------------------------------
// Debug text
// ---------------------------------------------------------------------------------

/// How a selector is printed.
pub open spec fn selector_text(selector: Selector) -> Seq<char> {
    "Selector("@ + text::decimal(selector.0 as nat) + ", "@ + text::bool_text(selector.1) + ")"@
}

/// How a query of the given kind is printed: the query itself takes the place of the
/// variant that holds it.
pub open spec fn query_text(
    kind: Seq<char>,
    index: usize,
    column_index: usize,
    rotation: Rotation,
) -> Seq<char> {
    kind + " { query_index: "@ + text::decimal(index as nat) + ", column_index: "@
        + text::decimal(column_index as nat) + ", rotation: "@ + rotation.text() + " }"@
}

/// Appends how a query of the given kind is printed.
fn append_query(
    out: &mut String,
    kind: &str,
    index: usize,
    column_index: usize,
    rotation: Rotation,
)
    ensures
        final(out)@ == old(out)@ + query_text(kind@, index, column_index, rotation),
{
    out.append(kind);
    out.append(" { query_index: ");
    text::append_usize(out, index);
    out.append(", column_index: ");
    text::append_usize(out, column_index);
    out.append(", rotation: ");
    rotation.append_text(out);
    out.append(" }");
    assert(out@ =~= old(out)@ + query_text(kind@, index, column_index, rotation));
}

impl<F: PrimeField> Expression<F> {
    /// How this expression is printed for debugging.
    pub open spec fn debug_text(self) -> Seq<char>
        decreases self,
    {
        match self {
            Expression::Constant(scalar) => "Constant("@ + scalar.debug_text() + ")"@,
            Expression::Selector(selector) => "Selector("@ + selector_text(selector) + ")"@,
            Expression::Fixed(query) => query_text(
                "Fixed"@,
                query.index,
                query.column_index,
                query.rotation,
            ),
            Expression::Advice(query) => query_text(
                "Advice"@,
                query.index,
                query.column_index,
                query.rotation,
            ),
            Expression::Instance(query) => query_text(
                "Instance"@,
                query.index,
                query.column_index,
                query.rotation,
            ),
            Expression::Negated(poly) => "Negated("@ + poly.debug_text() + ")"@,
            Expression::Sum(a, b) => "Sum("@ + a.debug_text() + ", "@ + b.debug_text() + ")"@,
            Expression::Product(a, b) => {
                "Product("@ + a.debug_text() + ", "@ + b.debug_text() + ")"@
            },
            Expression::Scaled(poly, scalar) => {
                "Scaled("@ + poly.debug_text() + ", "@ + scalar.debug_text() + ")"@
            },
        }
    }

    /// Appends how this expression is printed for debugging.
    pub fn append_debug(&self, out: &mut String)
        ensures
            final(out)@ == old(out)@ + self.debug_text(),
        decreases self,
    {
        match self {
            Expression::Constant(scalar) => {
                out.append("Constant(");
                out.append(scalar.debug().as_str());
                out.append(")");
            },
            Expression::Selector(selector) => {
                out.append("Selector(");
                out.append("Selector(");
                text::append_usize(out, selector.0);
                out.append(", ");
                text::append_bool(out, selector.1);
                out.append(")");
                out.append(")");
            },
            Expression::Fixed(query) => {
                append_query(out, "Fixed", query.index, query.column_index, query.rotation);
            },
            Expression::Advice(query) => {
                append_query(out, "Advice", query.index, query.column_index, query.rotation);
            },
            Expression::Instance(query) => {
                append_query(out, "Instance", query.index, query.column_index, query.rotation);
            },
            Expression::Negated(poly) => {
                out.append("Negated(");
                poly.append_debug(out);
                out.append(")");
            },
            Expression::Sum(a, b) => {
                out.append("Sum(");
                a.append_debug(out);
                out.append(", ");
                b.append_debug(out);
                out.append(")");
            },
            Expression::Product(a, b) => {
                out.append("Product(");
                a.append_debug(out);
                out.append(", ");
                b.append_debug(out);
                out.append(")");
            },
            Expression::Scaled(poly, scalar) => {
                out.append("Scaled(");
                poly.append_debug(out);
                out.append(", ");
                out.append(scalar.debug().as_str());
                out.append(")");
            },
        }
        assert(out@ =~= old(out)@ + self.debug_text());
    }

    /// Returns how this expression is printed for debugging.
    pub fn debug(&self) -> (text: String)
        ensures
            text@ == self.debug_text(),
    {
        let mut out = String::new();
        self.append_debug(&mut out);
        assert(out@ =~= self.debug_text());
        out
    }
}

} // verus!
