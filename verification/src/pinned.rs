//! The pinned form of a constraint system: the minimal parameters that determine it, and the
//! text by which they are identified.

use core::fmt;
use core::fmt::{Debug, Formatter};

use vstd::prelude::*;
use vstd::string::StringExecFns;

use crate::column::{Advice, Any, Column, ColumnType, Fixed, Instance};
use crate::constraint_system;
use crate::constraint_system::ConstraintSystem;
use crate::debug;
use crate::expression::Expression;
use crate::field::PrimeField;
use crate::gate::Gate;
use crate::lookup;
use crate::permutation;
use crate::rotation::Rotation;
use crate::text;

verus! {

/// Represents the minimal parameters that determine a `ConstraintSystem`.
#[derive(Debug)]
pub struct PinnedConstraintSystem<'a, F> {
    /// The number of fixed columns.
    pub num_fixed_columns: &'a usize,
    /// The number of advice columns.
    pub num_advice_columns: &'a usize,
    /// The number of instance columns.
    pub num_instance_columns: &'a usize,
    /// The number of selectors.
    pub num_selectors: &'a usize,
    /// The gates.
    pub gates: PinnedGates<'a, F>,
    /// The queries of advice columns.
    pub advice_queries: &'a Vec<(Column<Advice>, Rotation)>,
    /// The queries of instance columns.
    pub instance_queries: &'a Vec<(Column<Instance>, Rotation)>,
    /// The queries of fixed columns.
    pub fixed_queries: &'a Vec<(Column<Fixed>, Rotation)>,
    /// The permutation argument.
    pub permutation: &'a permutation::Argument,
    /// The lookup arguments.
    pub lookups: &'a Vec<lookup::Argument<F>>,
    /// The fixed columns that can be used for constants.
    pub constants: &'a Vec<Column<Fixed>>,
    /// The degree that the circuit asks for.
    pub minimum_degree: &'a Option<usize>,
}

/// Gates, of which the polynomials alone are printed.
pub struct PinnedGates<'a, F>(pub &'a Vec<Gate<F>>);

impl<'a, F: Debug> Debug for PinnedGates<'a, F> {
    fn fmt(&self, f: &mut Formatter<'_>) -> (r: fmt::Result) {
        let mut builder = debug::start_list(f);
        let mut i: usize = 0;
        while i < self.0.len()
            invariant
                i <= self.0@.len(),
            decreases self.0@.len() - i,
        {
            let polys = self.0[i].polynomials();
            let mut j: usize = 0;
            while j < polys.len()
                invariant
                    j <= polys@.len(),
                decreases polys@.len() - j,
            {
                debug::list_entry(&mut builder, &polys[j]);
                j = j + 1;
            }
            i = i + 1;
        }
        debug::finish_list(&mut builder)
    }
}

impl<F> ConstraintSystem<F> {
    /// Obtain a pinned version of this constraint system; a structure with the
    /// minimal parameters needed to determine the rest of the constraint
    /// system.
    pub fn pinned(&self) -> (pinned: PinnedConstraintSystem<'_, F>)
        ensures
            *pinned.num_fixed_columns == self.num_fixed_columns,
            *pinned.num_advice_columns == self.num_advice_columns,
            *pinned.num_instance_columns == self.num_instance_columns,
            *pinned.num_selectors == self.num_selectors,
            *pinned.gates.0 == self.gates,
            *pinned.advice_queries == self.advice_queries,
            *pinned.instance_queries == self.instance_queries,
            *pinned.fixed_queries == self.fixed_queries,
            *pinned.permutation == self.permutation,
            *pinned.lookups == self.lookups,
            *pinned.constants == self.constants,
            *pinned.minimum_degree == self.minimum_degree,
    {
        PinnedConstraintSystem {
            num_fixed_columns: &self.num_fixed_columns,
            num_advice_columns: &self.num_advice_columns,
            num_instance_columns: &self.num_instance_columns,
            num_selectors: &self.num_selectors,
            gates: PinnedGates(&self.gates),
            fixed_queries: &self.fixed_queries,
            advice_queries: &self.advice_queries,
            instance_queries: &self.instance_queries,
            permutation: &self.permutation,
            lookups: &self.lookups,
            constants: &self.constants,
            minimum_degree: &self.minimum_degree,
        }
    }
}

// ---------------------------------------------------------------------------------
// Texts of the parts
// ---------------------------------------------------------------------------------

/// How a column is printed.
pub open spec fn column_text<C: ColumnType>(column: Column<C>) -> Seq<char> {
    "Column { index: "@ + text::decimal(column.index as nat) + ", column_type: "@
        + column.column_type.kind().text() + " }"@
}

/// How a query of a system is printed.
pub open spec fn query_text<C: ColumnType>(query: (Column<C>, Rotation)) -> Seq<char> {
    "("@ + column_text(query.0) + ", "@ + query.1.text() + ")"@
}

/// How a list of columns is printed.
pub open spec fn columns_text<C: ColumnType>(columns: Seq<Column<C>>) -> Seq<char> {
    text::list_text(columns.map_values(|column: Column<C>| column_text(column)))
}

/// How a list of queries is printed.
pub open spec fn queries_text<C: ColumnType>(queries: Seq<(Column<C>, Rotation)>) -> Seq<char> {
    text::list_text(queries.map_values(|query: (Column<C>, Rotation)| query_text(query)))
}

/// How a list of expressions is printed.
pub open spec fn expressions_text<F: PrimeField>(exprs: Seq<Expression<F>>) -> Seq<char> {
    text::list_text(exprs.map_values(|e: Expression<F>| e.debug_text()))
}

/// How a lookup argument is printed.
pub open spec fn lookup_text<F: PrimeField>(argument: lookup::ArgumentModel<F>) -> Seq<char> {
    "Argument { input_expressions: "@ + expressions_text(argument.inputs)
        + ", table_expressions: "@ + expressions_text(argument.tables) + " }"@
}

/// How a minimum degree is printed.
pub open spec fn minimum_degree_text(minimum_degree: Option<usize>) -> Seq<char> {
    match minimum_degree {
        Some(degree) => "Some("@ + text::decimal(degree as nat) + ")"@,
        None => "None"@,
    }
}

/// Appends how a column is printed.
fn append_column<C: ColumnType>(out: &mut String, column: &Column<C>)
    ensures
        final(out)@ == old(out)@ + column_text(*column),
{
    out.append("Column { index: ");
    text::append_usize(out, column.index());
    out.append(", column_type: ");
    column.column_type().to_any().append_text(out);
    out.append(" }");
    assert(out@ =~= old(out)@ + column_text(*column));
}

/// Appends how a list of columns is printed.
fn append_columns<C: ColumnType>(out: &mut String, columns: &Vec<Column<C>>)
    ensures
        final(out)@ == old(out)@ + columns_text(columns@),
{
    let append_one = |x: &mut String, column: &Column<C>|
        ensures
            final(x)@ == old(x)@ + column_text(*column),
        {
            append_column(x, column);
        };
    text::append_list(out, columns, append_one, Ghost(|column: Column<C>| column_text(column)));
}

/// Appends how a list of queries is printed.
fn append_queries<C: ColumnType>(out: &mut String, queries: &Vec<(Column<C>, Rotation)>)
    ensures
        final(out)@ == old(out)@ + queries_text(queries@),
{
    let append_one = |x: &mut String, query: &(Column<C>, Rotation)|
        ensures
            final(x)@ == old(x)@ + query_text(*query),
        {
            x.append("(");
            append_column(x, &query.0);
            x.append(", ");
            query.1.append_text(x);
            x.append(")");
            assert(x@ =~= old(x)@ + query_text(*query));
        };
    text::append_list(
        out,
        queries,
        append_one,
        Ghost(|query: (Column<C>, Rotation)| query_text(query)),
    );
}

/// Appends how a list of expressions is printed.
fn append_expressions<F: PrimeField>(out: &mut String, exprs: &Vec<Expression<F>>)
    ensures
        final(out)@ == old(out)@ + expressions_text(exprs@),
{
    let append_one = |x: &mut String, e: &Expression<F>|
        ensures
            final(x)@ == old(x)@ + e.debug_text(),
        {
            e.append_debug(x);
        };
    text::append_list(out, exprs, append_one, Ghost(|e: Expression<F>| e.debug_text()));
}

/// Appends how a list of lookup arguments is printed.
fn append_lookups<F: PrimeField>(out: &mut String, lookups: &Vec<lookup::Argument<F>>)
    ensures
        final(out)@ == old(out)@ + text::list_text(
            constraint_system::lookup_models(lookups@).map_values(
                |l: lookup::ArgumentModel<F>| lookup_text(l),
            ),
        ),
{
    let append_one = |x: &mut String, l: &lookup::Argument<F>|
        ensures
            final(x)@ == old(x)@ + lookup_text(l@),
        {
            x.append("Argument { input_expressions: ");
            append_expressions(x, &l.input_expressions);
            x.append(", table_expressions: ");
            append_expressions(x, &l.table_expressions);
            x.append(" }");
            assert(x@ =~= old(x)@ + lookup_text(l@));
        };
    let ghost text = |l: lookup::Argument<F>| lookup_text(l@);
    text::append_list(out, lookups, append_one, Ghost(text));
    assert(lookups@.map_values(text) =~= constraint_system::lookup_models(lookups@).map_values(
        |l: lookup::ArgumentModel<F>| lookup_text(l),
    ));
}

/// Appends how a minimum degree is printed.
fn append_minimum_degree(out: &mut String, minimum_degree: &Option<usize>)
    ensures
        final(out)@ == old(out)@ + minimum_degree_text(*minimum_degree),
{
    match minimum_degree {
        Some(degree) => {
            out.append("Some(");
            text::append_usize(out, *degree);
            out.append(")");
        },
        None => {
            out.append("None");
        },
    }
    assert(out@ =~= old(out)@ + minimum_degree_text(*minimum_degree));
}

/// Appends how the polynomials of one more gate are printed, where `before` are the texts of
/// the polynomials so far.
fn append_polys<F: PrimeField>(
    out: &mut String,
    started: bool,
    polys: &[Expression<F>],
    Ghost(start): Ghost<Seq<char>>,
    Ghost(before): Ghost<Seq<Seq<char>>>,
)
    requires
        started <==> before.len() > 0,
        old(out)@ == start + text::joined(before),
    ensures
        final(out)@ == start + text::joined(
            before + polys@.map_values(|e: Expression<F>| e.debug_text()),
        ),
{
    let append_one = |x: &mut String, e: &Expression<F>|
        ensures
            final(x)@ == old(x)@ + e.debug_text(),
        {
            e.append_debug(x);
        };
    text::append_items(
        out,
        started,
        polys,
        append_one,
        Ghost(|e: Expression<F>| e.debug_text()),
        Ghost(start),
        Ghost(before),
    );
}

impl<'a, F: PrimeField> PinnedGates<'a, F> {
    /// Appends how the gates are printed: the list of all their polynomials.
    pub fn append_debug(&self, out: &mut String)
        ensures
            final(out)@ == old(out)@ + expressions_text(
                constraint_system::polys_of(constraint_system::gate_models(self.0@)),
            ),
    {
        let ghost gates = constraint_system::gate_models(self.0@);
        let ghost text = |e: Expression<F>| e.debug_text();
        out.append("[");
        let ghost start = out@;
        let mut started = false;
        let mut i: usize = 0;
        proof {
            assert(gates.take(0) =~= seq![]);
            assert(constraint_system::polys_of(gates.take(0)).map_values(text) =~= seq![]);
            assert(start =~= start + text::joined(
                constraint_system::polys_of(gates.take(0)).map_values(text),
            ));
        }
        while i < self.0.len()
            invariant
                i <= self.0@.len(),
                gates == constraint_system::gate_models(self.0@),
                text == (|e: Expression<F>| e.debug_text()),
                started <==> constraint_system::polys_of(gates.take(i as int)).len() > 0,
                out@ == start + text::joined(
                    constraint_system::polys_of(gates.take(i as int)).map_values(text),
                ),
            decreases self.0@.len() - i,
        {
            let ghost seen = constraint_system::polys_of(gates.take(i as int));
            let polys = self.0[i].polynomials();
            append_polys(out, started, polys, Ghost(start), Ghost(seen.map_values(text)));
            started = started || polys.len() > 0;
            proof {
                assert(gates.take(i + 1).drop_last() =~= gates.take(i as int));
                assert(gates.take(i + 1).last() == gates[i as int]);
                assert(constraint_system::polys_of(gates.take(i + 1)) == seen + polys@);
                assert((seen + polys@).map_values(text) =~= seen.map_values(text)
                    + polys@.map_values(text));
            }
            i = i + 1;
        }
        assert(gates.take(i as int) =~= gates);
        out.append("]");
        assert(out@ =~= old(out)@ + expressions_text(constraint_system::polys_of(gates)));
    }
}

// ---------------------------------------------------------------------------------
// Text of a system
// ---------------------------------------------------------------------------------

/// How the column and selector counts of a pinned system are printed.
pub open spec fn counts_text(
    num_fixed_columns: nat,
    num_advice_columns: nat,
    num_instance_columns: nat,
    num_selectors: nat,
) -> Seq<char> {
    "num_fixed_columns: "@ + text::decimal(num_fixed_columns) + ", num_advice_columns: "@
        + text::decimal(num_advice_columns) + ", num_instance_columns: "@ + text::decimal(
        num_instance_columns,
    ) + ", num_selectors: "@ + text::decimal(num_selectors)
}

/// How the query tables of a pinned system are printed.
pub open spec fn tables_text(
    advice_queries: Seq<(Column<Advice>, Rotation)>,
    instance_queries: Seq<(Column<Instance>, Rotation)>,
    fixed_queries: Seq<(Column<Fixed>, Rotation)>,
) -> Seq<char> {
    "advice_queries: "@ + queries_text(advice_queries) + ", instance_queries: "@ + queries_text(
        instance_queries,
    ) + ", fixed_queries: "@ + queries_text(fixed_queries)
}

/// How the arguments of a pinned system are printed.
pub open spec fn arguments_text<F: PrimeField>(
    permutation: Seq<Column<Any>>,
    lookups: Seq<lookup::ArgumentModel<F>>,
    constants: Seq<Column<Fixed>>,
    minimum_degree: Option<usize>,
) -> Seq<char> {
    "permutation: Argument { columns: "@ + columns_text(permutation) + " }, lookups: "@
        + text::list_text(lookups.map_values(|l: lookup::ArgumentModel<F>| lookup_text(l)))
        + ", constants: "@ + columns_text(constants) + ", minimum_degree: "@
        + minimum_degree_text(minimum_degree)
}

impl<F: PrimeField> constraint_system::SystemModel<F> {
    /// How the pinned form of this system is printed: its column and selector counts, the
    /// polynomials of its gates, its queries and its arguments.
    pub open spec fn pinned_text(self) -> Seq<char> {
        "PinnedConstraintSystem { "@ + counts_text(
            self.num_fixed_columns,
            self.num_advice_columns,
            self.num_instance_columns,
            self.num_selectors,
        ) + ", gates: "@ + expressions_text(constraint_system::polys_of(self.gates)) + ", "@
            + tables_text(self.advice_queries, self.instance_queries, self.fixed_queries) + ", "@
            + arguments_text(
            self.permutation,
            self.lookups,
            self.constants,
            self.minimum_degree,
        ) + " }"@
    }
}

impl<'a, F: PrimeField> PinnedConstraintSystem<'a, F> {
    /// How this system is printed.
    pub open spec fn debug_text(self) -> Seq<char> {
        "PinnedConstraintSystem { "@ + counts_text(
            *self.num_fixed_columns as nat,
            *self.num_advice_columns as nat,
            *self.num_instance_columns as nat,
            *self.num_selectors as nat,
        ) + ", gates: "@ + expressions_text(
            constraint_system::polys_of(constraint_system::gate_models(self.gates.0@)),
        ) + ", "@ + tables_text(
            self.advice_queries@,
            self.instance_queries@,
            self.fixed_queries@,
        ) + ", "@ + arguments_text(
            self.permutation@,
            constraint_system::lookup_models(self.lookups@),
            self.constants@,
            *self.minimum_degree,
        ) + " }"@
    }

    fn append_counts(&self, out: &mut String)
        ensures
            final(out)@ == old(out)@ + counts_text(
                *self.num_fixed_columns as nat,
                *self.num_advice_columns as nat,
                *self.num_instance_columns as nat,
                *self.num_selectors as nat,
            ),
    {
        out.append("num_fixed_columns: ");
        text::append_usize(out, *self.num_fixed_columns);
        out.append(", num_advice_columns: ");
        text::append_usize(out, *self.num_advice_columns);
        out.append(", num_instance_columns: ");
        text::append_usize(out, *self.num_instance_columns);
        out.append(", num_selectors: ");
        text::append_usize(out, *self.num_selectors);
        assert(out@ =~= old(out)@ + counts_text(
            *self.num_fixed_columns as nat,
            *self.num_advice_columns as nat,
            *self.num_instance_columns as nat,
            *self.num_selectors as nat,
        ));
    }

    fn append_tables(&self, out: &mut String)
        ensures
            final(out)@ == old(out)@ + tables_text(
                self.advice_queries@,
                self.instance_queries@,
                self.fixed_queries@,
            ),
    {
        out.append("advice_queries: ");
        append_queries(out, self.advice_queries);
        out.append(", instance_queries: ");
        append_queries(out, self.instance_queries);
        out.append(", fixed_queries: ");
        append_queries(out, self.fixed_queries);
        assert(out@ =~= old(out)@ + tables_text(
            self.advice_queries@,
            self.instance_queries@,
            self.fixed_queries@,
        ));
    }

    fn append_arguments(&self, out: &mut String)
        ensures
            final(out)@ == old(out)@ + arguments_text(
                self.permutation@,
                constraint_system::lookup_models(self.lookups@),
                self.constants@,
                *self.minimum_degree,
            ),
    {
        out.append("permutation: Argument { columns: ");
        append_columns(out, &self.permutation.columns);
        out.append(" }, lookups: ");
        append_lookups(out, self.lookups);
        out.append(", constants: ");
        append_columns(out, self.constants);
        out.append(", minimum_degree: ");
        append_minimum_degree(out, self.minimum_degree);
        assert(out@ =~= old(out)@ + arguments_text(
            self.permutation@,
            constraint_system::lookup_models(self.lookups@),
            self.constants@,
            *self.minimum_degree,
        ));
    }

    /// Appends how this system is printed.
    pub fn append_debug(&self, out: &mut String)
        ensures
            final(out)@ == old(out)@ + self.debug_text(),
    {
        out.append("PinnedConstraintSystem { ");
        self.append_counts(out);
        out.append(", gates: ");
        self.gates.append_debug(out);
        out.append(", ");
        self.append_tables(out);
        out.append(", ");
        self.append_arguments(out);
        out.append(" }");
        assert(out@ =~= old(out)@ + self.debug_text());
    }

    /// Returns how this system is printed.
    pub fn debug(&self) -> (text: String)
        ensures
            text@ == self.debug_text(),
    {
        let mut out = String::new();
        self.append_debug(&mut out);
        assert(out@ =~= self.debug_text());
        out
    }
}

} // verus!
