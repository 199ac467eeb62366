//! The constraint system: a description of what a circuit is made of, such as the
//! arrangements of gates, columns and permutations.

use vstd::prelude::*;

use crate::column::{Advice, Any, Column, ColumnType, Fixed, Instance};
use crate::expression;
use crate::expression::{AdviceQuery, Expression, FixedQuery, InstanceQuery, Selector};
use crate::gate;
use crate::gate::{Constraint, Gate, IntoConstraints, VirtualCell};
use crate::list;
use crate::lookup;
use crate::permutation;
use crate::rotation::Rotation;

verus! {

/// This is a description of what a circuit is made of, such as the arrangements of gates,
/// columns and permutations.
#[derive(Debug)]
pub struct ConstraintSystem<F> {
    /// The number of fixed columns.
    pub num_fixed_columns: usize,
    /// The number of advice columns.
    pub num_advice_columns: usize,
    /// The number of instance columns.
    pub num_instance_columns: usize,
    /// The number of selectors.
    pub num_selectors: usize,
    /// This is a cached vector that maps virtual selectors to the concrete
    /// fixed column that they were compressed into. This is just used by dev
    /// tooling right now.
    pub selector_map: Vec<Column<Fixed>>,
    /// The gates.
    pub gates: Vec<Gate<F>>,
    /// The queries of advice columns.
    pub advice_queries: Vec<(Column<Advice>, Rotation)>,
    /// Contains an integer for each advice column
    /// identifying how many distinct queries it has
    /// so far; should be same length as num_advice_columns.
    pub num_advice_queries: Vec<usize>,
    /// The queries of instance columns.
    pub instance_queries: Vec<(Column<Instance>, Rotation)>,
    /// The queries of fixed columns.
    pub fixed_queries: Vec<(Column<Fixed>, Rotation)>,
    /// Permutation argument for performing equality constraints
    pub permutation: permutation::Argument,
    /// Vector of lookup arguments, where each corresponds to a sequence of
    /// input expressions and a sequence of table expressions involved in the lookup.
    pub lookups: Vec<lookup::Argument<F>>,
    /// Vector of fixed columns, which can be used to store constant values
    /// that are copied into advice columns.
    pub constants: Vec<Column<Fixed>>,
    /// The degree that the circuit asks for, which may be larger than needed.
    pub minimum_degree: Option<usize>,
}

/// What a constraint system holds.
#[verifier::ext_equal]
pub struct SystemModel<F> {
    /// The number of fixed columns.
    pub num_fixed_columns: nat,
    /// The number of advice columns.
    pub num_advice_columns: nat,
    /// The number of instance columns.
    pub num_instance_columns: nat,
    /// The number of selectors.
    pub num_selectors: nat,
    /// The fixed columns that the selectors were compressed into.
    pub selector_map: Seq<Column<Fixed>>,
    /// The gates.
    pub gates: Seq<gate::GateModel<F>>,
    /// The queries of advice columns.
    pub advice_queries: Seq<(Column<Advice>, Rotation)>,
    /// The number of distinct queries of each advice column.
    pub num_advice_queries: Seq<usize>,
    /// The queries of instance columns.
    pub instance_queries: Seq<(Column<Instance>, Rotation)>,
    /// The queries of fixed columns.
    pub fixed_queries: Seq<(Column<Fixed>, Rotation)>,
    /// The columns on which equality is enabled.
    pub permutation: Seq<Column<Any>>,
    /// The lookup arguments.
    pub lookups: Seq<lookup::ArgumentModel<F>>,
    /// The fixed columns that can be used for constants.
    pub constants: Seq<Column<Fixed>>,
    /// The degree that the circuit asks for.
    pub minimum_degree: Option<usize>,
}

/// What some gates hold.
pub open spec fn gate_models<F>(gates: Seq<Gate<F>>) -> Seq<gate::GateModel<F>> {
    gates.map_values(|gate: Gate<F>| gate@)
}

/// The polynomials of some gates, one after the other.
pub open spec fn polys_of<F>(gates: Seq<gate::GateModel<F>>) -> Seq<Expression<F>>
    decreases gates.len(),
{
    if gates.len() == 0 {
        seq![]
    } else {
        polys_of(gates.drop_last()) + gates.last().polys
    }
}

/// What some lookup arguments hold.
pub open spec fn lookup_models<F>(lookups: Seq<lookup::Argument<F>>) -> Seq<
    lookup::ArgumentModel<F>,
> {
    lookups.map_values(|lookup: lookup::Argument<F>| lookup@)
}

impl<F> View for ConstraintSystem<F> {
    type V = SystemModel<F>;

    open spec fn view(&self) -> SystemModel<F> {
        SystemModel {
            num_fixed_columns: self.num_fixed_columns as nat,
            num_advice_columns: self.num_advice_columns as nat,
            num_instance_columns: self.num_instance_columns as nat,
            num_selectors: self.num_selectors as nat,
            selector_map: self.selector_map@,
            gates: gate_models(self.gates@),
            advice_queries: self.advice_queries@,
            num_advice_queries: self.num_advice_queries@,
            instance_queries: self.instance_queries@,
            fixed_queries: self.fixed_queries@,
            permutation: self.permutation@,
            lookups: lookup_models(self.lookups@),
            constants: self.constants@,
            minimum_degree: self.minimum_degree,
        }
    }
}

/// The query of a column at the current row.
pub open spec fn at_cur<C: ColumnType>(column: Column<C>) -> (Column<C>, Rotation) {
    (column, Rotation(0))
}

impl<F> SystemModel<F> {
    /// The system without any column, selector, gate or argument.
    pub open spec fn empty() -> Self {
        SystemModel {
            num_fixed_columns: 0,
            num_advice_columns: 0,
            num_instance_columns: 0,
            num_selectors: 0,
            selector_map: seq![],
            gates: seq![],
            advice_queries: seq![],
            num_advice_queries: seq![],
            instance_queries: seq![],
            fixed_queries: seq![],
            permutation: seq![],
            lookups: seq![],
            constants: seq![],
            minimum_degree: None,
        }
    }

    /// The system once a fixed column is queried at the current row.
    pub open spec fn with_fixed_query(self, column: Column<Fixed>) -> Self {
        SystemModel { fixed_queries: list::with_item(self.fixed_queries, at_cur(column)), ..self }
    }

    /// States that an advice column can be queried: the query exists, or the column does
    /// and its queries can be counted.
    pub open spec fn can_query_advice(self, column: Column<Advice>, at: Rotation) -> bool {
        self.advice_queries.contains((column, at)) || {
            &&& column.index < self.num_advice_queries.len()
            &&& self.num_advice_queries[column.index as int] < usize::MAX
        }
    }

    /// The system once an advice column is queried.
    pub open spec fn with_advice_query(self, column: Column<Advice>, at: Rotation) -> Self {
        if self.advice_queries.contains((column, at)) {
            self
        } else {
            SystemModel {
                advice_queries: self.advice_queries.push((column, at)),
                num_advice_queries: self.num_advice_queries.update(
                    column.index as int,
                    (self.num_advice_queries[column.index as int] + 1) as usize,
                ),
                ..self
            }
        }
    }

    /// The system once an instance column is queried.
    pub open spec fn with_instance_query(self, column: Column<Instance>, at: Rotation) -> Self {
        SystemModel {
            instance_queries: list::with_item(self.instance_queries, (column, at)),
            ..self
        }
    }

    /// States that a column can be queried.
    pub open spec fn can_query_any(self, column: Column<Any>, at: Rotation) -> bool {
        column.column_type == Any::Advice ==> self.can_query_advice(
            Column { column_type: Advice, index: column.index },
            at,
        )
    }

    /// The system once a column is queried. Fixed columns are queried at the current row.
    pub open spec fn with_any_query(self, column: Column<Any>, at: Rotation) -> Self {
        match column.column_type {
            Any::Advice => self.with_advice_query(
                Column { column_type: Advice, index: column.index },
                at,
            ),
            Any::Fixed => self.with_fixed_query(
                Column { column_type: Fixed, index: column.index },
            ),
            Any::Instance => self.with_instance_query(
                Column { column_type: Instance, index: column.index },
                at,
            ),
        }
    }

    /// The index of a query.
    pub open spec fn any_query_index(self, column: Column<Any>, at: Rotation) -> nat {
        match column.column_type {
            Any::Advice => list::first_index(
                self.advice_queries,
                (Column { column_type: Advice, index: column.index }, at),
            ),
            Any::Fixed => list::first_index(
                self.fixed_queries,
                (Column { column_type: Fixed, index: column.index }, at),
            ),
            Any::Instance => list::first_index(
                self.instance_queries,
                (Column { column_type: Instance, index: column.index }, at),
            ),
        }
    }

    /// States that a query exists.
    pub open spec fn has_any_query(self, column: Column<Any>, at: Rotation) -> bool {
        match column.column_type {
            Any::Advice => self.advice_queries.contains(
                (Column { column_type: Advice, index: column.index }, at),
            ),
            Any::Fixed => self.fixed_queries.contains(
                (Column { column_type: Fixed, index: column.index }, at),
            ),
            Any::Instance => self.instance_queries.contains(
                (Column { column_type: Instance, index: column.index }, at),
            ),
        }
    }

    /// The system once equality is enabled on a column.
    pub open spec fn with_equality(self, column: Column<Any>) -> Self {
        let queried = self.with_any_query(column, Rotation(0));
        SystemModel { permutation: list::with_item(queried.permutation, column), ..queried }
    }

    /// The system once a fixed column can be used for constants.
    pub open spec fn with_constant(self, column: Column<Fixed>) -> Self {
        if self.constants.contains(column) {
            self
        } else {
            let equal = self.with_equality(column.erased());
            SystemModel { constants: equal.constants.push(column), ..equal }
        }
    }
}

/// The number of queries of the advice column with the given index.
pub open spec fn column_queries(queries: Seq<(Column<Advice>, Rotation)>, index: int) -> nat
    decreases queries.len(),
{
    if queries.len() == 0 {
        0
    } else if queries.last().0.position() == index {
        column_queries(queries.drop_last(), index) + 1
    } else {
        column_queries(queries.drop_last(), index)
    }
}

/// A column has no more queries than there are.
pub proof fn lemma_column_queries(queries: Seq<(Column<Advice>, Rotation)>, index: int)
    ensures
        column_queries(queries, index) <= queries.len(),
    decreases queries.len(),
{
    if queries.len() > 0 {
        lemma_column_queries(queries.drop_last(), index);
    }
}

impl<F> SystemModel<F> {
    /// What holds of every constraint system that was built column by column and gate by
    /// gate:
    ///
    /// - no query is made twice
    /// - there is one query count for each advice column, which is the number of its
    ///   queries, and only existing advice columns are queried
    /// - no column takes part twice in the permutation argument, and each column that does
    ///   is queried at the current row
    /// - no column is named twice for constants, and equality is enabled on each that is
    /// - every gate has constraints, each with a name
    /// - every input of a lookup has its table and contains no simple selector
    pub open spec fn well_formed(self) -> bool {
        &&& self.fixed_queries.no_duplicates()
        &&& self.advice_queries.no_duplicates()
        &&& self.instance_queries.no_duplicates()
        &&& self.counts_queries()
        &&& self.permutation.no_duplicates()
        &&& forall|i: int|
            0 <= i < self.permutation.len() ==> self.has_any_query(
                #[trigger] self.permutation[i],
                Rotation(0),
            )
        &&& self.constants.no_duplicates()
        &&& forall|i: int|
            0 <= i < self.constants.len() ==> self.permutation.contains(
                (#[trigger] self.constants[i]).erased(),
            )
        &&& forall|i: int|
            0 <= i < self.gates.len() ==> {
                &&& (#[trigger] self.gates[i]).polys.len() > 0
                &&& self.gates[i].constraint_names.len() == self.gates[i].polys.len()
            }
        &&& forall|i: int|
            0 <= i < self.lookups.len() ==> {
                &&& (#[trigger] self.lookups[i]).paired()
                &&& forall|j: int|
                    0 <= j < self.lookups[i].inputs.len() ==> !(
                    #[trigger] self.lookups[i].inputs[j]).has_simple_selector()
            }
    }

    /// States that there is one query count for each advice column, which is the number of
    /// its queries, and that only existing advice columns are queried.
    pub open spec fn counts_queries(self) -> bool {
        &&& self.num_advice_queries.len() == self.num_advice_columns
        &&& forall|c: int|
            0 <= c < self.num_advice_queries.len() ==> #[trigger] self.num_advice_queries[c]
                == column_queries(self.advice_queries, c)
        &&& forall|i: int|
            0 <= i < self.advice_queries.len() ==> (#[trigger] self.advice_queries[i]).0.index
                < self.num_advice_columns
    }
}

/// An existing advice column of a well-formed system can be queried, as long as the queries
/// can be counted.
pub proof fn lemma_can_query_advice<F>(cs: SystemModel<F>, column: Column<Advice>, at: Rotation)
    requires
        cs.well_formed(),
        column.index < cs.num_advice_columns,
        cs.advice_queries.len() < usize::MAX,
    ensures
        cs.can_query_advice(column, at),
{
    lemma_column_queries(cs.advice_queries, column.index as int);
}

/// Querying a fixed column keeps a system well formed and makes the query.
pub proof fn lemma_with_fixed_query<F>(cs: SystemModel<F>, column: Column<Fixed>)
    requires
        cs.well_formed(),
    ensures
        cs.with_fixed_query(column).well_formed(),
        cs.with_fixed_query(column).fixed_queries.contains(at_cur(column)),
{
    list::lemma_with_item(cs.fixed_queries, at_cur(column));
    let after = cs.with_fixed_query(column);
    assert forall|i: int| 0 <= i < after.permutation.len() implies after.has_any_query(
        #[trigger] after.permutation[i],
        Rotation(0),
    ) by {
        assert(cs.has_any_query(cs.permutation[i], Rotation(0)));
    }
}

/// Querying an advice column keeps a system well formed and makes the query.
pub proof fn lemma_with_advice_query<F>(cs: SystemModel<F>, column: Column<Advice>, at: Rotation)
    requires
        cs.well_formed(),
        cs.can_query_advice(column, at),
    ensures
        cs.with_advice_query(column, at).well_formed(),
        cs.with_advice_query(column, at).advice_queries.contains((column, at)),
{
    list::lemma_with_item(cs.advice_queries, (column, at));
    let after = cs.with_advice_query(column, at);
    if !cs.advice_queries.contains((column, at)) {
        assert(after.advice_queries.drop_last() =~= cs.advice_queries);
        assert forall|c: int| 0 <= c < after.num_advice_queries.len() implies #[trigger]
            after.num_advice_queries[c] == column_queries(after.advice_queries, c) by {
            assert(cs.num_advice_queries[c] == column_queries(cs.advice_queries, c));
        }
        assert forall|i: int| 0 <= i < after.advice_queries.len() implies (
        #[trigger] after.advice_queries[i]).0.index < after.num_advice_columns by {
            if i < cs.advice_queries.len() {
                assert(after.advice_queries[i] == cs.advice_queries[i]);
            }
        }
    }
    assert forall|i: int| 0 <= i < after.permutation.len() implies after.has_any_query(
        #[trigger] after.permutation[i],
        Rotation(0),
    ) by {
        assert(cs.has_any_query(cs.permutation[i], Rotation(0)));
    }
}

/// Querying an instance column keeps a system well formed and makes the query.
pub proof fn lemma_with_instance_query<F>(
    cs: SystemModel<F>,
    column: Column<Instance>,
    at: Rotation,
)
    requires
        cs.well_formed(),
    ensures
        cs.with_instance_query(column, at).well_formed(),
        cs.with_instance_query(column, at).instance_queries.contains((column, at)),
{
    list::lemma_with_item(cs.instance_queries, (column, at));
    let after = cs.with_instance_query(column, at);
    assert forall|i: int| 0 <= i < after.permutation.len() implies after.has_any_query(
        #[trigger] after.permutation[i],
        Rotation(0),
    ) by {
        assert(cs.has_any_query(cs.permutation[i], Rotation(0)));
    }
}

/// Querying a column keeps a system well formed and makes the query.
pub proof fn lemma_with_any_query<F>(cs: SystemModel<F>, column: Column<Any>, at: Rotation)
    requires
        cs.well_formed(),
        cs.can_query_any(column, at),
    ensures
        cs.with_any_query(column, at).well_formed(),
        column.column_type != Any::Fixed || at == Rotation(0) ==> cs.with_any_query(
            column,
            at,
        ).has_any_query(column, at),
{
    match column.column_type {
        Any::Advice => {
            lemma_with_advice_query(cs, Column { column_type: Advice, index: column.index }, at);
        },
        Any::Fixed => {
            lemma_with_fixed_query(cs, Column { column_type: Fixed, index: column.index });
        },
        Any::Instance => {
            lemma_with_instance_query(
                cs,
                Column { column_type: Instance, index: column.index },
                at,
            );
        },
    }
}

/// Enabling equality on a column keeps a system well formed, queries the column at the
/// current row and lets it take part in the permutation argument.
pub proof fn lemma_with_equality<F>(cs: SystemModel<F>, column: Column<Any>)
    requires
        cs.well_formed(),
        cs.can_query_any(column, Rotation(0)),
    ensures
        cs.with_equality(column).well_formed(),
        cs.with_equality(column).permutation.contains(column),
        cs.with_equality(column).has_any_query(column, Rotation(0)),
{
    let queried = cs.with_any_query(column, Rotation(0));
    lemma_with_any_query(cs, column, Rotation(0));
    list::lemma_with_item(queried.permutation, column);
    let after = cs.with_equality(column);
    assert forall|i: int| 0 <= i < after.permutation.len() implies after.has_any_query(
        #[trigger] after.permutation[i],
        Rotation(0),
    ) by {
        if i < queried.permutation.len() {
            assert(queried.has_any_query(queried.permutation[i], Rotation(0)));
        }
    }
    assert forall|i: int| 0 <= i < after.constants.len() implies after.permutation.contains(
        (#[trigger] after.constants[i]).erased(),
    ) by {
        assert(queried.permutation.contains(queried.constants[i].erased()));
    }
}

/// A column that is enabled for constants is equality-enabled, and a system stays well
/// formed.
pub proof fn lemma_with_constant<F>(cs: SystemModel<F>, column: Column<Fixed>)
    requires
        cs.well_formed(),
    ensures
        cs.with_constant(column).well_formed(),
        cs.with_constant(column).constants.contains(column),
        cs.with_constant(column).permutation.contains(column.erased()),
        cs.with_constant(column).fixed_queries.contains(at_cur(column)),
{
    lemma_with_equality(cs, column.erased());
    list::lemma_with_item(cs.constants, column);
    let equal = cs.with_equality(column.erased());
    let after = cs.with_constant(column);
    if cs.constants.contains(column) {
        let i = choose|i: int| 0 <= i < cs.constants.len() && cs.constants[i] == column;
        assert(cs.permutation.contains(cs.constants[i].erased()));
        let j = choose|j: int|
            0 <= j < cs.permutation.len() && cs.permutation[j] == column.erased();
        assert(cs.has_any_query(cs.permutation[j], Rotation(0)));
    } else {
        assert forall|i: int| 0 <= i < after.constants.len() implies after.permutation.contains(
            (#[trigger] after.constants[i]).erased(),
        ) by {
            if i < equal.constants.len() {
                assert(equal.permutation.contains(equal.constants[i].erased()));
            }
        }
        assert forall|i: int| 0 <= i < after.permutation.len() implies after.has_any_query(
            #[trigger] after.permutation[i],
            Rotation(0),
        ) by {
            assert(equal.has_any_query(equal.permutation[i], Rotation(0)));
        }
    }
}

impl<F> Default for ConstraintSystem<F> {
    fn default() -> (cs: ConstraintSystem<F>)
        ensures
            cs@ == SystemModel::<F>::empty(),
            cs@.well_formed(),
    {
        let cs = ConstraintSystem {
            num_fixed_columns: 0,
            num_advice_columns: 0,
            num_instance_columns: 0,
            num_selectors: 0,
            selector_map: vec![],
            gates: vec![],
            fixed_queries: Vec::new(),
            advice_queries: Vec::new(),
            num_advice_queries: Vec::new(),
            instance_queries: Vec::new(),
            permutation: permutation::Argument::new(),
            lookups: Vec::new(),
            constants: vec![],
            minimum_degree: None,
        };
        assert(cs@ =~= SystemModel::<F>::empty());
        cs
    }
}

// ---------------------------------------------------------------------------------
// Queries
// ---------------------------------------------------------------------------------

/// Returns the first place of a query of a fixed column, or the number of queries if there
/// is none.
fn find_fixed_query(
    queries: &Vec<(Column<Fixed>, Rotation)>,
    column: Column<Fixed>,
    at: Rotation,
) -> (index: usize)
    ensures
        index == list::first_index(queries@, (column, at)),
{
    let mut index: usize = 0;
    while index < queries.len()
        invariant
            index <= queries@.len(),
            forall|i: int| 0 <= i < index ==> queries@[i] != (column, at),
        decreases queries@.len() - index,
    {
        let (other, rotation) = queries[index];
        if other.index() == column.index() && rotation == at {
            proof {
                assert(other.column_type == column.column_type);
                list::lemma_first_index_unique(queries@, (column, at), index as int);
            }
            return index;
        }
        index = index + 1;
    }
    proof {
        list::lemma_first_index_unique(queries@, (column, at), index as int);
    }
    index
}

/// Returns the first place of a query of an advice column, or the number of queries if
/// there is none.
fn find_advice_query(
    queries: &Vec<(Column<Advice>, Rotation)>,
    column: Column<Advice>,
    at: Rotation,
) -> (index: usize)
    ensures
        index == list::first_index(queries@, (column, at)),
{
    let mut index: usize = 0;
    while index < queries.len()
        invariant
            index <= queries@.len(),
            forall|i: int| 0 <= i < index ==> queries@[i] != (column, at),
        decreases queries@.len() - index,
    {
        let (other, rotation) = queries[index];
        if other.index() == column.index() && rotation == at {
            proof {
                assert(other.column_type == column.column_type);
                list::lemma_first_index_unique(queries@, (column, at), index as int);
            }
            return index;
        }
        index = index + 1;
    }
    proof {
        list::lemma_first_index_unique(queries@, (column, at), index as int);
    }
    index
}

/// Returns the first place of a query of an instance column, or the number of queries if
/// there is none.
fn find_instance_query(
    queries: &Vec<(Column<Instance>, Rotation)>,
    column: Column<Instance>,
    at: Rotation,
) -> (index: usize)
    ensures
        index == list::first_index(queries@, (column, at)),
{
    let mut index: usize = 0;
    while index < queries.len()
        invariant
            index <= queries@.len(),
            forall|i: int| 0 <= i < index ==> queries@[i] != (column, at),
        decreases queries@.len() - index,
    {
        let (other, rotation) = queries[index];
        if other.index() == column.index() && rotation == at {
            proof {
                assert(other.column_type == column.column_type);
                list::lemma_first_index_unique(queries@, (column, at), index as int);
            }
            return index;
        }
        index = index + 1;
    }
    proof {
        list::lemma_first_index_unique(queries@, (column, at), index as int);
    }
    index
}

impl<F> ConstraintSystem<F> {
    /// Returns the index of the query of a fixed column at the current row, and makes the
    /// query if there is none.
    pub fn query_fixed_index(&mut self, column: Column<Fixed>) -> (index: usize)
        ensures
            index == list::first_index(old(self)@.fixed_queries, at_cur(column)),
            final(self)@ == old(self)@.with_fixed_query(column),
            old(self)@.well_formed() ==> final(self)@.well_formed(),
    {
        proof {
            list::lemma_first_index(self.fixed_queries@, at_cur(column));
            if self@.well_formed() {
                lemma_with_fixed_query(self@, column);
            }
        }
        // Return existing query, if it exists
        let index = find_fixed_query(&self.fixed_queries, column, Rotation::cur());
        if index == self.fixed_queries.len() {
            // Make a new query
            self.fixed_queries.push((column, Rotation::cur()));
        }
        index
    }

    /// Returns the index of a query of an advice column, and makes the query if there is
    /// none.
    pub fn query_advice_index(&mut self, column: Column<Advice>, at: Rotation) -> (index: usize)
        requires
            old(self)@.can_query_advice(column, at),
        ensures
            index == list::first_index(old(self)@.advice_queries, (column, at)),
            final(self)@ == old(self)@.with_advice_query(column, at),
            old(self)@.well_formed() ==> final(self)@.well_formed(),
    {
        proof {
            list::lemma_first_index(self.advice_queries@, (column, at));
            if self@.well_formed() {
                lemma_with_advice_query(self@, column, at);
            }
        }
        // Return existing query, if it exists
        let index = find_advice_query(&self.advice_queries, column, at);
        if index == self.advice_queries.len() {
            // Make a new query
            self.advice_queries.push((column, at));
            let count = self.num_advice_queries[column.index];
            self.num_advice_queries[column.index] = count + 1;
        }
        index
    }

    /// Returns the index of a query of an instance column, and makes the query if there is
    /// none.
    pub fn query_instance_index(&mut self, column: Column<Instance>, at: Rotation) -> (index: usize)
        ensures
            index == list::first_index(old(self)@.instance_queries, (column, at)),
            final(self)@ == old(self)@.with_instance_query(column, at),
            old(self)@.well_formed() ==> final(self)@.well_formed(),
    {
        proof {
            list::lemma_first_index(self.instance_queries@, (column, at));
            if self@.well_formed() {
                lemma_with_instance_query(self@, column, at);
            }
        }
        // Return existing query, if it exists
        let index = find_instance_query(&self.instance_queries, column, at);
        if index == self.instance_queries.len() {
            // Make a new query
            self.instance_queries.push((column, at));
        }
        index
    }

    /// Returns the index of a query, and makes the query if there is none. Fixed columns
    /// are queried at the current row, whatever `at` is.
    pub fn query_any_index(&mut self, column: Column<Any>, at: Rotation) -> (index: usize)
        requires
            old(self)@.can_query_any(column, at),
        ensures
            index == old(self)@.any_query_index(
                column,
                if column.column_type == Any::Fixed {
                    Rotation(0)
                } else {
                    at
                },
            ),
            final(self)@ == old(self)@.with_any_query(column, at),
            old(self)@.well_formed() ==> final(self)@.well_formed(),
    {
        match column.column_type() {
            Any::Advice => self.query_advice_index(Column::new(column.index(), Advice), at),
            Any::Fixed => self.query_fixed_index(Column::new(column.index(), Fixed)),
            Any::Instance => self.query_instance_index(Column::new(column.index(), Instance), at),
        }
    }

    /// Returns the index of an existing query of an advice column.
    pub fn get_advice_query_index(&self, column: Column<Advice>, at: Rotation) -> (index: usize)
        requires
            self@.advice_queries.contains((column, at)),
        ensures
            index == list::first_index(self@.advice_queries, (column, at)),
            index < self@.advice_queries.len(),
            self@.advice_queries[index as int] == (column, at),
    {
        proof {
            list::lemma_first_index(self.advice_queries@, (column, at));
        }
        find_advice_query(&self.advice_queries, column, at)
    }

    /// Returns the index of an existing query of a fixed column.
    pub fn get_fixed_query_index(&self, column: Column<Fixed>, at: Rotation) -> (index: usize)
        requires
            self@.fixed_queries.contains((column, at)),
        ensures
            index == list::first_index(self@.fixed_queries, (column, at)),
            index < self@.fixed_queries.len(),
            self@.fixed_queries[index as int] == (column, at),
    {
        proof {
            list::lemma_first_index(self.fixed_queries@, (column, at));
        }
        find_fixed_query(&self.fixed_queries, column, at)
    }

    /// Returns the index of an existing query of an instance column.
    pub fn get_instance_query_index(&self, column: Column<Instance>, at: Rotation) -> (index: usize)
        requires
            self@.instance_queries.contains((column, at)),
        ensures
            index == list::first_index(self@.instance_queries, (column, at)),
            index < self@.instance_queries.len(),
            self@.instance_queries[index as int] == (column, at),
    {
        proof {
            list::lemma_first_index(self.instance_queries@, (column, at));
        }
        find_instance_query(&self.instance_queries, column, at)
    }

    /// Returns the index of an existing query at the current row.
    pub fn get_any_query_index(&self, column: Column<Any>) -> (index: usize)
        requires
            self@.has_any_query(column, Rotation(0)),
        ensures
            index == self@.any_query_index(column, Rotation(0)),
    {
        match column.column_type() {
            Any::Advice => self.get_advice_query_index(
                Column::new(column.index(), Advice),
                Rotation::cur(),
            ),
            Any::Fixed => self.get_fixed_query_index(
                Column::new(column.index(), Fixed),
                Rotation::cur(),
            ),
            Any::Instance => self.get_instance_query_index(
                Column::new(column.index(), Instance),
                Rotation::cur(),
            ),
        }
    }
}

// ---------------------------------------------------------------------------------
// Columns, selectors and arguments
// ---------------------------------------------------------------------------------

/// A fixed column of a lookup table.
///
/// Columns can currently only contain a single table, but they may be used in multiple
/// lookup arguments via [`ConstraintSystem::lookup`].
///
/// Lookup table columns are always "encumbered" by the lookup arguments they are used in;
/// they cannot simultaneously be used as general fixed columns.
#[derive(Clone, Copy, Debug, Eq, PartialEq, Hash, Ord, PartialOrd)]
pub struct TableColumn {
    /// The fixed column that this table column is stored in.
    ///
    /// This inner column MUST NOT be exposed in the public API, or else chip developers
    /// can load lookup tables into their circuits without default-value-filling the
    /// columns, which can cause soundness bugs.
    inner: Column<Fixed>,
}

impl TableColumn {
    /// The fixed column that this table column is stored in.
    pub closed spec fn column(self) -> Column<Fixed> {
        self.inner
    }

    /// The fixed column that this table column is stored in.
    pub(crate) fn inner(&self) -> (column: Column<Fixed>)
        ensures
            column == self.column(),
    {
        self.inner
    }

    /// Enable equality on this TableColumn.
    pub fn enable_equality<F>(&self, meta: &mut ConstraintSystem<F>)
        ensures
            final(meta)@ == old(meta)@.with_equality(self.column().erased()),
            old(meta)@.well_formed() ==> final(meta)@.well_formed(),
    {
        meta.enable_equality(self.inner)
    }
}

impl<F> SystemModel<F> {
    /// The system with one more fixed column.
    pub open spec fn with_fixed_column(self) -> Self {
        SystemModel { num_fixed_columns: self.num_fixed_columns + 1, ..self }
    }

    /// The system with one more advice column, which has not been queried yet.
    pub open spec fn with_advice_column(self) -> Self {
        SystemModel {
            num_advice_columns: self.num_advice_columns + 1,
            num_advice_queries: self.num_advice_queries.push(0),
            ..self
        }
    }

    /// The system with one more instance column.
    pub open spec fn with_instance_column(self) -> Self {
        SystemModel { num_instance_columns: self.num_instance_columns + 1, ..self }
    }

    /// The system with one more selector.
    pub open spec fn with_selector(self) -> Self {
        SystemModel { num_selectors: self.num_selectors + 1, ..self }
    }
}

/// An advice column that does not exist has no queries.
proof fn lemma_no_column_queries(queries: Seq<(Column<Advice>, Rotation)>, index: int)
    requires
        forall|i: int| 0 <= i < queries.len() ==> (#[trigger] queries[i]).0.index < index,
    ensures
        column_queries(queries, index) == 0,
    decreases queries.len(),
{
    if queries.len() > 0 {
        let init = queries.drop_last();
        assert forall|i: int| 0 <= i < init.len() implies (#[trigger] init[i]).0.index < index by {
            assert(init[i] == queries[i]);
        }
        assert(queries[queries.len() - 1].0.index < index);
        lemma_no_column_queries(init, index);
    }
}

/// New columns and selectors keep a system well formed.
pub proof fn lemma_with_column<F>(cs: SystemModel<F>)
    requires
        cs.well_formed(),
    ensures
        cs.with_fixed_column().well_formed(),
        cs.with_advice_column().well_formed(),
        cs.with_instance_column().well_formed(),
        cs.with_selector().well_formed(),
{
    let after = cs.with_advice_column();
    assert forall|c: int| 0 <= c < after.num_advice_queries.len() implies #[trigger]
        after.num_advice_queries[c] == column_queries(after.advice_queries, c) by {
        if c < cs.num_advice_queries.len() {
            assert(cs.num_advice_queries[c] == column_queries(cs.advice_queries, c));
        } else {
            lemma_no_column_queries(cs.advice_queries, c);
        }
    }
    assert forall|i: int| 0 <= i < after.advice_queries.len() implies (
    #[trigger] after.advice_queries[i]).0.index < after.num_advice_columns by {
        assert(cs.advice_queries[i].0.index < cs.num_advice_columns);
    }
    lemma_same_tables(cs, cs.with_fixed_column());
    lemma_same_tables(cs, cs.with_advice_column());
    lemma_same_tables(cs, cs.with_instance_column());
    lemma_same_tables(cs, cs.with_selector());
}

/// Two systems with the same queries and the same permutation argument query the columns
/// of the argument alike.
pub proof fn lemma_same_tables<F>(before: SystemModel<F>, after: SystemModel<F>)
    requires
        before.well_formed(),
        after.fixed_queries == before.fixed_queries,
        after.advice_queries == before.advice_queries,
        after.instance_queries == before.instance_queries,
        after.permutation == before.permutation,
    ensures
        forall|i: int|
            0 <= i < after.permutation.len() ==> after.has_any_query(
                #[trigger] after.permutation[i],
                Rotation(0),
            ),
{
    assert forall|i: int| 0 <= i < after.permutation.len() implies after.has_any_query(
        #[trigger] after.permutation[i],
        Rotation(0),
    ) by {
        assert(before.has_any_query(before.permutation[i], Rotation(0)));
    }
}

impl<F> ConstraintSystem<F> {
    /// Enables this fixed column to be used for global constant assignments.
    ///
    /// # Side-effects
    ///
    /// The column will be equality-enabled.
    pub fn enable_constant(&mut self, column: Column<Fixed>)
        ensures
            final(self)@ == old(self)@.with_constant(column),
            old(self)@.well_formed() ==> final(self)@.well_formed(),
    {
        proof {
            if self@.well_formed() {
                lemma_with_constant(self@, column);
            }
        }
        let mut i: usize = 0;
        while i < self.constants.len()
            invariant
                i <= self.constants@.len(),
                *self == *old(self),
                forall|j: int| 0 <= j < i ==> self.constants@[j] != column,
            decreases self.constants@.len() - i,
        {
            let other = self.constants[i];
            if other.index() == column.index() {
                assert(other.column_type == column.column_type);
                return;
            }
            i = i + 1;
        }
        self.constants.push(column);
        self.enable_equality(column);
    }

    /// Enable the ability to enforce equality over cells in this column
    pub fn enable_equality<C: ColumnType>(&mut self, column: Column<C>)
        requires
            old(self)@.can_query_any(column.erased(), Rotation(0)),
        ensures
            final(self)@ == old(self)@.with_equality(column.erased()),
            old(self)@.well_formed() ==> final(self)@.well_formed(),
    {
        let column = column.to_any();
        proof {
            if self@.well_formed() {
                lemma_with_equality(self@, column);
            }
        }
        self.query_any_index(column, Rotation::cur());
        self.permutation.add_column(column);
    }

    /// Sets the minimum degree required by the circuit, which can be set to a
    /// larger amount than actually needed. This can be used, for example, to
    /// force the permutation argument to involve more columns in the same set.
    pub fn set_minimum_degree(&mut self, degree: usize)
        ensures
            final(self)@ == (SystemModel { minimum_degree: Some(degree), ..old(self)@ }),
            old(self)@.well_formed() ==> final(self)@.well_formed(),
    {
        let ghost before = self@;
        self.minimum_degree = Some(degree);
        proof {
            if before.well_formed() {
                lemma_same_tables(before, self@);
            }
        }
    }

    /// Allocate a new (simple) selector. Simple selectors cannot be added to
    /// expressions nor multiplied by other expressions containing simple
    /// selectors. Also, simple selectors may not appear in lookup argument
    /// inputs.
    pub fn selector(&mut self) -> (selector: Selector)
        requires
            old(self)@.num_selectors < usize::MAX,
        ensures
            selector.0 == old(self)@.num_selectors,
            selector.1,
            final(self)@ == old(self)@.with_selector(),
            old(self)@.well_formed() ==> final(self)@.well_formed(),
    {
        proof {
            if self@.well_formed() {
                lemma_with_column(self@);
            }
        }
        let index = self.num_selectors;
        self.num_selectors = self.num_selectors + 1;
        Selector(index, true)
    }

    /// Allocate a new complex selector that can appear anywhere
    /// within expressions.
    pub fn complex_selector(&mut self) -> (selector: Selector)
        requires
            old(self)@.num_selectors < usize::MAX,
        ensures
            selector.0 == old(self)@.num_selectors,
            !selector.1,
            final(self)@ == old(self)@.with_selector(),
            old(self)@.well_formed() ==> final(self)@.well_formed(),
    {
        proof {
            if self@.well_formed() {
                lemma_with_column(self@);
            }
        }
        let index = self.num_selectors;
        self.num_selectors = self.num_selectors + 1;
        Selector(index, false)
    }

    /// Allocates a new fixed column that can be used in a lookup table.
    pub fn lookup_table_column(&mut self) -> (table: TableColumn)
        requires
            old(self)@.num_fixed_columns < usize::MAX,
        ensures
            table.column().index == old(self)@.num_fixed_columns,
            final(self)@ == old(self)@.with_fixed_column(),
            old(self)@.well_formed() ==> final(self)@.well_formed(),
    {
        proof {
            if self@.well_formed() {
                lemma_with_column(self@);
            }
        }
        TableColumn { inner: self.fixed_column() }
    }

    /// Allocate a new fixed column
    pub fn fixed_column(&mut self) -> (column: Column<Fixed>)
        requires
            old(self)@.num_fixed_columns < usize::MAX,
        ensures
            column.index == old(self)@.num_fixed_columns,
            final(self)@ == old(self)@.with_fixed_column(),
            old(self)@.well_formed() ==> final(self)@.well_formed(),
    {
        proof {
            if self@.well_formed() {
                lemma_with_column(self@);
            }
        }
        let column = Column::new(self.num_fixed_columns, Fixed);
        self.num_fixed_columns = self.num_fixed_columns + 1;
        column
    }

    /// Allocate a new advice column
    pub fn advice_column(&mut self) -> (column: Column<Advice>)
        requires
            old(self)@.num_advice_columns < usize::MAX,
        ensures
            column.index == old(self)@.num_advice_columns,
            final(self)@ == old(self)@.with_advice_column(),
            old(self)@.well_formed() ==> final(self)@.well_formed(),
    {
        proof {
            if self@.well_formed() {
                lemma_with_column(self@);
            }
        }
        let column = Column::new(self.num_advice_columns, Advice);
        self.num_advice_columns = self.num_advice_columns + 1;
        self.num_advice_queries.push(0);
        column
    }

    /// Allocate a new instance column
    pub fn instance_column(&mut self) -> (column: Column<Instance>)
        requires
            old(self)@.num_instance_columns < usize::MAX,
        ensures
            column.index == old(self)@.num_instance_columns,
            final(self)@ == old(self)@.with_instance_column(),
            old(self)@.well_formed() ==> final(self)@.well_formed(),
    {
        proof {
            if self@.well_formed() {
                lemma_with_column(self@);
            }
        }
        let column = Column::new(self.num_instance_columns, Instance);
        self.num_instance_columns = self.num_instance_columns + 1;
        column
    }
}

// ---------------------------------------------------------------------------------
// Gates and lookups
// ---------------------------------------------------------------------------------

/// Exposes the "virtual cells" that can be queried while creating a custom gate or lookup
/// table.
#[derive(Debug)]
pub struct VirtualCells<'a, F> {
    /// The system whose columns are queried.
    pub meta: &'a mut ConstraintSystem<F>,
    /// The selectors that have been queried.
    pub queried_selectors: Vec<Selector>,
    /// The cells that have been queried.
    pub queried_cells: Vec<VirtualCell>,
}

impl<'a, F> VirtualCells<'a, F> {
    /// The cells of a system, of which none has been queried.
    pub fn new(meta: &'a mut ConstraintSystem<F>) -> (cells: Self)
        ensures
            cells.meta@ == old(meta)@,
            cells.queried_selectors@ == Seq::<Selector>::empty(),
            cells.queried_cells@ == Seq::<VirtualCell>::empty(),
            *final(cells.meta) == *final(meta),
    {
        VirtualCells { meta, queried_selectors: vec![], queried_cells: vec![] }
    }

    /// Query a selector at the current position.
    pub fn query_selector(&mut self, selector: Selector) -> (e: Expression<F>)
        ensures
            e == Expression::<F>::Selector(selector),
            final(self).queried_selectors@ == old(self).queried_selectors@.push(selector),
            final(self).queried_cells@ == old(self).queried_cells@,
            final(self).meta@ == old(self).meta@,
            old(self).meta@.well_formed() ==> final(self).meta@.well_formed(),
            forall|cs: SystemModel<F>|
                old(self).meta@.queried_from(cs) ==> #[trigger] final(self).meta@.queried_from(cs),
            *final(final(self).meta) == *final(old(self).meta),
    {
        self.queried_selectors.push(selector);
        Expression::Selector(selector)
    }

    /// Query a fixed column at a relative position
    pub fn query_fixed(&mut self, column: Column<Fixed>) -> (e: Expression<F>)
        ensures
            e == fixed_expression::<F>(old(self).meta@.fixed_queries, column),
            final(self).queried_selectors@ == old(self).queried_selectors@,
            final(self).queried_cells@ == old(self).queried_cells@.push(
                VirtualCell { column: column.erased(), rotation: Rotation(0) },
            ),
            final(self).meta@ == old(self).meta@.with_fixed_query(column),
            old(self).meta@.well_formed() ==> final(self).meta@.well_formed(),
            forall|cs: SystemModel<F>|
                old(self).meta@.queried_from(cs) ==> #[trigger] final(self).meta@.queried_from(cs),
            *final(final(self).meta) == *final(old(self).meta),
    {
        proof {
            let before = self.meta@;
            lemma_fixed_query_added(before, column);
            let after = before.with_fixed_query(column);
            assert forall|cs: SystemModel<F>|
                before.queried_from(cs) implies #[trigger] after.queried_from(cs) by {
                lemma_queried_from(cs, before, after);
            }
        }
        self.queried_cells.push(VirtualCell::from((column, Rotation::cur())));
        proof {
            list::lemma_first_index(self.meta.fixed_queries@, at_cur(column));
        }
        Expression::Fixed(
            FixedQuery {
                index: self.meta.query_fixed_index(column),
                column_index: column.index,
                rotation: Rotation::cur(),
            },
        )
    }

    /// Query an advice column at a relative position
    pub fn query_advice(&mut self, column: Column<Advice>, at: Rotation) -> (e: Expression<F>)
        requires
            old(self).meta@.can_query_advice(column, at),
        ensures
            e == advice_expression::<F>(old(self).meta@.advice_queries, column, at),
            final(self).queried_selectors@ == old(self).queried_selectors@,
            final(self).queried_cells@ == old(self).queried_cells@.push(
                VirtualCell { column: column.erased(), rotation: at },
            ),
            final(self).meta@ == old(self).meta@.with_advice_query(column, at),
            old(self).meta@.well_formed() ==> final(self).meta@.well_formed(),
            forall|cs: SystemModel<F>|
                old(self).meta@.queried_from(cs) ==> #[trigger] final(self).meta@.queried_from(cs),
            *final(final(self).meta) == *final(old(self).meta),
    {
        proof {
            let before = self.meta@;
            lemma_advice_query_added(before, column, at);
            let after = before.with_advice_query(column, at);
            assert forall|cs: SystemModel<F>|
                before.queried_from(cs) implies #[trigger] after.queried_from(cs) by {
                lemma_queried_from(cs, before, after);
            }
        }
        self.queried_cells.push(VirtualCell::from((column, at)));
        Expression::Advice(
            AdviceQuery {
                index: self.meta.query_advice_index(column, at),
                column_index: column.index,
                rotation: at,
            },
        )
    }

    /// Query an instance column at a relative position
    pub fn query_instance(&mut self, column: Column<Instance>, at: Rotation) -> (e: Expression<F>)
        ensures
            e == instance_expression::<F>(old(self).meta@.instance_queries, column, at),
            final(self).queried_selectors@ == old(self).queried_selectors@,
            final(self).queried_cells@ == old(self).queried_cells@.push(
                VirtualCell { column: column.erased(), rotation: at },
            ),
            final(self).meta@ == old(self).meta@.with_instance_query(column, at),
            old(self).meta@.well_formed() ==> final(self).meta@.well_formed(),
            forall|cs: SystemModel<F>|
                old(self).meta@.queried_from(cs) ==> #[trigger] final(self).meta@.queried_from(cs),
            *final(final(self).meta) == *final(old(self).meta),
    {
        proof {
            let before = self.meta@;
            lemma_instance_query_added(before, column, at);
            let after = before.with_instance_query(column, at);
            assert forall|cs: SystemModel<F>|
                before.queried_from(cs) implies #[trigger] after.queried_from(cs) by {
                lemma_queried_from(cs, before, after);
            }
        }
        self.queried_cells.push(VirtualCell::from((column, at)));
        Expression::Instance(
            InstanceQuery {
                index: self.meta.query_instance_index(column, at),
                column_index: column.index,
                rotation: at,
            },
        )
    }

    /// Query an Any column at a relative position. Fixed columns can only be queried at the
    /// current rotation.
    pub fn query_any<C: ColumnType>(&mut self, column: Column<C>, at: Rotation) -> (e: Expression<
        F,
    >)
        requires
            old(self).meta@.can_query_any(column.erased(), at),
            column.erased().column_type == Any::Fixed ==> at == Rotation(0),
        ensures
            e == any_expression::<F>(old(self).meta@, column.erased(), at),
            final(self).queried_selectors@ == old(self).queried_selectors@,
            final(self).queried_cells@ == old(self).queried_cells@.push(
                VirtualCell { column: column.erased(), rotation: at },
            ),
            final(self).meta@ == old(self).meta@.with_any_query(column.erased(), at),
            old(self).meta@.well_formed() ==> final(self).meta@.well_formed(),
            forall|cs: SystemModel<F>|
                old(self).meta@.queried_from(cs) ==> #[trigger] final(self).meta@.queried_from(cs),
            *final(final(self).meta) == *final(old(self).meta),
    {
        let column = column.to_any();
        match column.column_type() {
            Any::Advice => self.query_advice(Column::new(column.index(), Advice), at),
            Any::Fixed => self.query_fixed(Column::new(column.index(), Fixed)),
            Any::Instance => self.query_instance(Column::new(column.index(), Instance), at),
        }
    }
}

/// The query of a fixed column at the current row, where the queries so far are `queries`.
pub open spec fn fixed_expression<F>(
    queries: Seq<(Column<Fixed>, Rotation)>,
    column: Column<Fixed>,
) -> Expression<F> {
    Expression::Fixed(
        FixedQuery {
            index: list::first_index(queries, at_cur(column)) as usize,
            column_index: column.index,
            rotation: Rotation(0),
        },
    )
}

/// The query of an advice column, where the queries so far are `queries`.
pub open spec fn advice_expression<F>(
    queries: Seq<(Column<Advice>, Rotation)>,
    column: Column<Advice>,
    at: Rotation,
) -> Expression<F> {
    Expression::Advice(
        AdviceQuery {
            index: list::first_index(queries, (column, at)) as usize,
            column_index: column.index,
            rotation: at,
        },
    )
}

/// The query of an instance column, where the queries so far are `queries`.
pub open spec fn instance_expression<F>(
    queries: Seq<(Column<Instance>, Rotation)>,
    column: Column<Instance>,
    at: Rotation,
) -> Expression<F> {
    Expression::Instance(
        InstanceQuery {
            index: list::first_index(queries, (column, at)) as usize,
            column_index: column.index,
            rotation: at,
        },
    )
}

/// The query of a column of the system `cs`.
pub open spec fn any_expression<F>(
    cs: SystemModel<F>,
    column: Column<Any>,
    at: Rotation,
) -> Expression<F> {
    match column.column_type {
        Any::Advice => advice_expression(
            cs.advice_queries,
            Column { column_type: Advice, index: column.index },
            at,
        ),
        Any::Fixed => fixed_expression(
            cs.fixed_queries,
            Column { column_type: Fixed, index: column.index },
        ),
        Any::Instance => instance_expression(
            cs.instance_queries,
            Column { column_type: Instance, index: column.index },
            at,
        ),
    }
}

impl<F> SystemModel<F> {
    /// States that this is the system `before` with some queries added behind those that it
    /// has, and nothing else changed.
    pub open spec fn queried_from(self, before: Self) -> bool {
        &&& self == (SystemModel {
            advice_queries: self.advice_queries,
            num_advice_queries: self.num_advice_queries,
            instance_queries: self.instance_queries,
            fixed_queries: self.fixed_queries,
            ..before
        })
        &&& before.advice_queries.is_prefix_of(self.advice_queries)
        &&& before.num_advice_queries.len() == self.num_advice_queries.len()
        &&& before.instance_queries.is_prefix_of(self.instance_queries)
        &&& before.fixed_queries.is_prefix_of(self.fixed_queries)
        &&& before.well_formed() ==> self.well_formed()
    }
}

/// A system to which queries are added twice is the first system with queries added.
pub proof fn lemma_queried_from<F>(a: SystemModel<F>, b: SystemModel<F>, c: SystemModel<F>)
    requires
        b.queried_from(a),
        c.queried_from(b),
    ensures
        c.queried_from(a),
{
    assert(a.advice_queries =~= c.advice_queries.take(a.advice_queries.len() as int));
    assert(a.instance_queries =~= c.instance_queries.take(a.instance_queries.len() as int));
    assert(a.fixed_queries =~= c.fixed_queries.take(a.fixed_queries.len() as int));
}

/// A query of a fixed column adds to the queries alone.
pub proof fn lemma_fixed_query_added<F>(cs: SystemModel<F>, column: Column<Fixed>)
    ensures
        cs.with_fixed_query(column).queried_from(cs),
{
    if cs.well_formed() {
        lemma_with_fixed_query(cs, column);
    }
}

/// A query of an advice column adds to the queries alone.
pub proof fn lemma_advice_query_added<F>(cs: SystemModel<F>, column: Column<Advice>, at: Rotation)
    requires
        cs.can_query_advice(column, at),
    ensures
        cs.with_advice_query(column, at).queried_from(cs),
{
    if cs.well_formed() {
        lemma_with_advice_query(cs, column, at);
    }
}

/// A query of an instance column adds to the queries alone.
pub proof fn lemma_instance_query_added<F>(
    cs: SystemModel<F>,
    column: Column<Instance>,
    at: Rotation,
)
    ensures
        cs.with_instance_query(column, at).queried_from(cs),
{
    if cs.well_formed() {
        lemma_with_instance_query(cs, column, at);
    }
}

/// States that `cells` are the cells of the system `cs` before any of them is queried.
pub open spec fn unqueried<F>(cells: VirtualCells<'_, F>, cs: SystemModel<F>) -> bool {
    &&& cells.meta@ == cs
    &&& cells.queried_selectors@ == Seq::<Selector>::empty()
    &&& cells.queried_cells@ == Seq::<VirtualCell>::empty()
}

impl<F> SystemModel<F> {
    /// The system with one more gate.
    pub open spec fn with_gate(
        self,
        name: Seq<char>,
        constraints: Seq<Constraint<F>>,
        queried_selectors: Seq<Selector>,
        queried_cells: Seq<VirtualCell>,
    ) -> Self {
        let gate = gate::GateModel {
            name,
            constraint_names: constraints.map_values(|c: Constraint<F>| c.name@),
            polys: constraints.map_values(|c: Constraint<F>| c.poly),
            queried_selectors,
            queried_cells,
        };
        SystemModel { gates: self.gates.push(gate), ..self }
    }

    /// The system once some fixed columns are queried at the current row, one after the
    /// other.
    pub open spec fn with_fixed_queries(self, columns: Seq<Column<Fixed>>) -> Self
        decreases columns.len(),
    {
        if columns.len() == 0 {
            self
        } else {
            self.with_fixed_queries(columns.drop_last()).with_fixed_query(columns.last())
        }
    }

    /// The system with one more lookup argument, for which the table columns are queried.
    pub open spec fn with_lookup(self, table_map: Seq<(Expression<F>, TableColumn)>) -> Self {
        let columns = table_map.map_values(|e: (Expression<F>, TableColumn)| e.1.column());
        let queried = self.with_fixed_queries(columns);
        let argument = lookup::ArgumentModel {
            inputs: table_map.map_values(|e: (Expression<F>, TableColumn)| e.0),
            tables: columns.map_values(
                |column: Column<Fixed>| fixed_expression::<F>(queried.fixed_queries, column),
            ),
        };
        SystemModel { lookups: queried.lookups.push(argument), ..queried }
    }
}

/// A new gate keeps a system well formed.
pub proof fn lemma_with_gate<F>(
    cs: SystemModel<F>,
    name: Seq<char>,
    constraints: Seq<Constraint<F>>,
    queried_selectors: Seq<Selector>,
    queried_cells: Seq<VirtualCell>,
)
    requires
        cs.well_formed(),
        constraints.len() > 0,
    ensures
        cs.with_gate(name, constraints, queried_selectors, queried_cells).well_formed(),
{
    let after = cs.with_gate(name, constraints, queried_selectors, queried_cells);
    lemma_same_tables(cs, after);
    assert forall|i: int| 0 <= i < after.gates.len() implies {
        &&& (#[trigger] after.gates[i]).polys.len() > 0
        &&& after.gates[i].constraint_names.len() == after.gates[i].polys.len()
    } by {
        if i < cs.gates.len() {
            assert(after.gates[i] == cs.gates[i]);
        }
    }
}

/// Queries of fixed columns keep a system well formed and change its queries of fixed
/// columns alone.
pub proof fn lemma_with_fixed_queries<F>(cs: SystemModel<F>, columns: Seq<Column<Fixed>>)
    ensures
        cs.well_formed() ==> cs.with_fixed_queries(columns).well_formed(),
        cs.with_fixed_queries(columns) == (SystemModel {
            fixed_queries: cs.with_fixed_queries(columns).fixed_queries,
            ..cs
        }),
        cs.with_fixed_queries(columns).queried_from(cs),
    decreases columns.len(),
{
    if columns.len() > 0 {
        let init = columns.drop_last();
        lemma_with_fixed_queries(cs, init);
        let before = cs.with_fixed_queries(init);
        lemma_fixed_query_added(before, columns.last());
        lemma_queried_from(cs, before, before.with_fixed_query(columns.last()));
    }
}

/// A new lookup argument keeps a system well formed.
pub proof fn lemma_with_lookup<F>(
    cs: SystemModel<F>,
    table_map: Seq<(Expression<F>, TableColumn)>,
)
    requires
        cs.well_formed(),
        forall|i: int| 0 <= i < table_map.len() ==> !(#[trigger] table_map[i]).0
            .has_simple_selector(),
    ensures
        cs.with_lookup(table_map).well_formed(),
{
    let columns = table_map.map_values(|e: (Expression<F>, TableColumn)| e.1.column());
    let queried = cs.with_fixed_queries(columns);
    lemma_with_fixed_queries(cs, columns);
    let after = cs.with_lookup(table_map);
    lemma_same_tables(queried, after);
    assert forall|i: int| 0 <= i < after.lookups.len() implies {
        &&& (#[trigger] after.lookups[i]).paired()
        &&& forall|j: int|
            0 <= j < after.lookups[i].inputs.len() ==> !(
            #[trigger] after.lookups[i].inputs[j]).has_simple_selector()
    } by {
        if i < queried.lookups.len() {
            assert(after.lookups[i] == queried.lookups[i]);
        } else {
            assert forall|j: int| 0 <= j < after.lookups[i].inputs.len() implies !(
            #[trigger] after.lookups[i].inputs[j]).has_simple_selector() by {
                assert(after.lookups[i].inputs[j] == table_map[j].0);
            }
        }
    }
}

impl<F: Copy> ConstraintSystem<F> {
    /// Add a lookup argument for some input expressions and table columns, and returns its
    /// index.
    ///
    /// `table_map` returns a map between input expressions and the table columns
    /// they need to match. Inputs contain no simple selectors. Of the system, it only adds to
    /// the queries.
    pub fn lookup<T>(&mut self, table_map: T) -> (index: usize) where
        T: FnOnce(&mut VirtualCells<'_, F>) -> Vec<(Expression<F>, TableColumn)>,

        requires
            forall|cells: &mut VirtualCells<'_, F>|
                unqueried(*cells, old(self)@) ==> #[trigger] table_map.requires((cells,)),
            forall|cells: &mut VirtualCells<'_, F>, out: Vec<(Expression<F>, TableColumn)>|
                unqueried(*cells, old(self)@) && #[trigger] table_map.ensures((cells,), out) ==> {
                    &&& *final(final(cells).meta) == *final((*cells).meta)
                    &&& final(cells).meta@.queried_from(old(self)@)
                    &&& forall|i: int| 0 <= i < out@.len() ==> !(#[trigger] out@[i]).0
                        .has_simple_selector()
                },
        ensures
            exists|cells: &mut VirtualCells<'_, F>, out: Vec<(Expression<F>, TableColumn)>| {
                &&& unqueried(*cells, old(self)@)
                &&& #[trigger] table_map.ensures((cells,), out)
                &&& final(self)@ == final(cells).meta@.with_lookup(out@)
            },
            index == old(self)@.lookups.len(),
            final(self)@.lookups.len() == old(self)@.lookups.len() + 1,
            old(self)@.lookups.is_prefix_of(final(self)@.lookups),
            (SystemModel { lookups: old(self)@.lookups, ..final(self)@ }).queried_from(old(self)@),
            old(self)@.well_formed() ==> final(self)@.well_formed(),
    {
        let ghost start = self@;
        let mut cells = VirtualCells::new(self);
        let map = table_map(&mut cells);
        let ghost given = map@;
        let ghost queried = cells.meta@;
        let ghost last = *final(cells.meta);
        let ghost columns = given.map_values(|e: (Expression<F>, TableColumn)| e.1.column());
        let mut pairs: Vec<(Expression<F>, Expression<F>)> = Vec::new();
        assert(columns.take(0) =~= seq![]);
        for e in it: map
            invariant
                it.seq() == given,
                columns == given.map_values(|e: (Expression<F>, TableColumn)| e.1.column()),
                *final(cells.meta) == last,
                cells.meta@ == queried.with_fixed_queries(columns.take(it.index())),
                pairs@.len() == it.index(),
                forall|i: int|
                    #![trigger pairs@[i]]
                    0 <= i < pairs@.len() ==> {
                        &&& pairs@[i].0 == given[i].0
                        &&& pairs@[i].1 == fixed_expression::<F>(
                            cells.meta@.fixed_queries,
                            columns[i],
                        )
                        &&& cells.meta@.fixed_queries.contains(at_cur(columns[i]))
                    },
        {
            let ghost before = cells.meta@.fixed_queries;
            let ghost n = it.index();
            let (input, table) = e;
            let table = cells.query_fixed(table.inner());
            pairs.push((input, table));
            proof {
                assert(columns.take(n + 1).drop_last() =~= columns.take(n));
                assert(columns.take(n + 1).last() == columns[n]);
                assert forall|i: int| #![trigger pairs@[i]] 0 <= i < pairs@.len() implies {
                    &&& pairs@[i].0 == given[i].0
                    &&& pairs@[i].1 == fixed_expression::<F>(
                        cells.meta@.fixed_queries,
                        columns[i],
                    )
                    &&& cells.meta@.fixed_queries.contains(at_cur(columns[i]))
                } by {
                    list::lemma_first_index_stable(before, at_cur(columns[n]), at_cur(columns[i]));
                }
            }
        }
        assert(columns.take(given.len() as int) =~= columns);

        let index = self.lookups.len();
        let argument = lookup::Argument::new(pairs);
        proof {
            lemma_with_fixed_queries(queried, columns);
            let after = queried.with_fixed_queries(columns);
            assert(argument@.inputs =~= given.map_values(
                |e: (Expression<F>, TableColumn)| e.0,
            ));
            assert(argument@.tables =~= columns.map_values(
                |column: Column<Fixed>| fixed_expression::<F>(after.fixed_queries, column),
            ));
        }
        let ghost before = self@;
        self.lookups.push(argument);
        proof {
            assert(self@.lookups =~= before.lookups.push(argument@));
            if queried.well_formed() {
                lemma_with_lookup(queried, given);
            }
            let after = queried.with_fixed_queries(columns);
            lemma_queried_from(start, queried, after);
            assert((SystemModel { lookups: start.lookups, ..self@ }) =~= after);
        }
        index
    }

    /// Creates a new gate.
    ///
    /// A gate is required to contain polynomial constraints: `constraints` must not return
    /// an empty list. Of the system, it only adds to the queries.
    pub fn create_gate<I, K>(&mut self, name: &'static str, constraints: K) where
        I: IntoConstraints<F>,
        K: FnOnce(&mut VirtualCells<'_, F>) -> I,

        requires
            forall|cells: &mut VirtualCells<'_, F>|
                unqueried(*cells, old(self)@) ==> #[trigger] constraints.requires((cells,)),
            forall|cells: &mut VirtualCells<'_, F>, out: I|
                unqueried(*cells, old(self)@) && #[trigger] constraints.ensures((cells,), out) ==> {
                    &&& *final(final(cells).meta) == *final((*cells).meta)
                    &&& final(cells).meta@.queried_from(old(self)@)
                    &&& out.permitted()
                    &&& out.constraints().len() > 0
                },
        ensures
            exists|cells: &mut VirtualCells<'_, F>, out: I| {
                &&& unqueried(*cells, old(self)@)
                &&& #[trigger] constraints.ensures((cells,), out)
                &&& final(self)@ == final(cells).meta@.with_gate(
                    name@,
                    out.constraints(),
                    final(cells).queried_selectors@,
                    final(cells).queried_cells@,
                )
            },
            final(self)@.gates.len() == old(self)@.gates.len() + 1,
            old(self)@.gates.is_prefix_of(final(self)@.gates),
            (SystemModel { gates: old(self)@.gates, ..final(self)@ }).queried_from(old(self)@),
            old(self)@.well_formed() ==> final(self)@.well_formed(),
    {
        let mut cells = VirtualCells::new(self);
        let out = constraints(&mut cells);
        let queried_selectors = cells.queried_selectors;
        let queried_cells = cells.queried_cells;

        let constraints = out.into_constraints();
        let ghost given = constraints@;
        let ghost name_of = |c: Constraint<F>| c.name;
        let ghost poly_of = |c: Constraint<F>| c.poly;
        let mut constraint_names: Vec<&'static str> = Vec::new();
        let mut polys: Vec<Expression<F>> = Vec::new();
        for c in it: constraints
            invariant
                it.seq() == given,
                name_of == (|c: Constraint<F>| c.name),
                poly_of == (|c: Constraint<F>| c.poly),
                constraint_names@ == given.take(it.index()).map_values(name_of),
                polys@ == given.take(it.index()).map_values(poly_of),
        {
            constraint_names.push(c.name);
            polys.push(c.poly);
            assert(constraint_names@ =~= given.take(it.index() + 1).map_values(name_of));
            assert(polys@ =~= given.take(it.index() + 1).map_values(poly_of));
        }
        assert(given.take(given.len() as int) =~= given);

        let gate = Gate { name, constraint_names, polys, queried_selectors, queried_cells };
        let ghost before = self@;
        proof {
            assert(gate@.constraint_names =~= given.map_values(|c: Constraint<F>| c.name@));
        }
        self.gates.push(gate);
        proof {
            assert(self@.gates =~= before.gates.push(gate@));
            assert((SystemModel { gates: before.gates, ..self@ }) =~= before);
            if before.well_formed() {
                lemma_with_gate(
                    before,
                    name@,
                    given,
                    gate.queried_selectors@,
                    gate.queried_cells@,
                );
            }
        }
    }
}

// ---------------------------------------------------------------------------------
// Degree and rows
// ---------------------------------------------------------------------------------

/// The largest degree that a lookup argument needs, or 1 if there is none.
pub open spec fn lookups_degree<F>(lookups: Seq<lookup::ArgumentModel<F>>) -> nat
    decreases lookups.len(),
{
    if lookups.len() == 0 {
        1
    } else {
        expression::max_nat(lookups_degree(lookups.drop_last()), lookups.last().required_degree())
    }
}

/// The largest degree of a polynomial of a gate, or 0 if there is none.
pub open spec fn gates_degree<F>(gates: Seq<gate::GateModel<F>>) -> nat
    decreases gates.len(),
{
    if gates.len() == 0 {
        0
    } else {
        expression::max_nat(
            gates_degree(gates.drop_last()),
            expression::max_degree(gates.last().polys, 0),
        )
    }
}

/// The largest number in a list, or 1 if there is none.
pub open spec fn max_count(counts: Seq<usize>) -> nat
    decreases counts.len(),
{
    if counts.len() == 0 {
        1
    } else if counts.len() == 1 {
        counts[0] as nat
    } else {
        expression::max_nat(max_count(counts.drop_last()), counts.last() as nat)
    }
}

impl<F> SystemModel<F> {
    /// States that every input of a lookup has its table.
    pub open spec fn lookups_paired(self) -> bool {
        forall|i: int| 0 <= i < self.lookups.len() ==> (#[trigger] self.lookups[i]).paired()
    }

    /// The degree of the system: the largest of the degree of the permutation argument,
    /// the degrees of the lookup arguments, the degrees of the polynomials of the gates,
    /// and the degree that the circuit asks for.
    pub open spec fn degree(self) -> nat {
        expression::max_nat(
            expression::max_nat(
                expression::max_nat(3, lookups_degree(self.lookups)),
                gates_degree(self.gates),
            ),
            match self.minimum_degree {
                Some(degree) => degree as nat,
                None => 1,
            },
        )
    }

    /// The number of blinding factors: one for each point at which a witness polynomial is
    /// evaluated, of which there are 3 at least, one for the multipoint opening, and one
    /// more.
    pub open spec fn blinding_factors(self) -> nat {
        expression::max_nat(3, max_count(self.num_advice_queries)) + 2
    }
}

/// The largest degree bounds that of every lookup, and grows with the list.
pub proof fn lemma_lookups_degree<F>(lookups: Seq<lookup::ArgumentModel<F>>)
    ensures
        forall|i: int|
            0 <= i < lookups.len() ==> (#[trigger] lookups[i]).required_degree() <= lookups_degree(
                lookups,
            ),
        forall|n: int|
            0 <= n <= lookups.len() ==> #[trigger] lookups_degree(lookups.take(n))
                <= lookups_degree(lookups),
    decreases lookups.len(),
{
    if lookups.len() > 0 {
        let init = lookups.drop_last();
        lemma_lookups_degree(init);
        assert forall|i: int| 0 <= i < lookups.len() implies (
        #[trigger] lookups[i]).required_degree() <= lookups_degree(lookups) by {
            if i < init.len() {
                assert(init[i] == lookups[i]);
            }
        }
        assert forall|n: int| 0 <= n <= lookups.len() implies #[trigger] lookups_degree(
            lookups.take(n),
        ) <= lookups_degree(lookups) by {
            if n < lookups.len() {
                assert(lookups.take(n) =~= init.take(n));
            } else {
                assert(lookups.take(n) =~= lookups);
            }
        }
    } else {
        assert(forall|n: int| 0 <= n <= lookups.len() ==> #[trigger] lookups.take(n) =~= lookups);
    }
}

/// The largest degree bounds that of every gate, and grows with the list.
pub proof fn lemma_gates_degree<F>(gates: Seq<gate::GateModel<F>>)
    ensures
        forall|i: int|
            0 <= i < gates.len() ==> expression::max_degree((#[trigger] gates[i]).polys, 0)
                <= gates_degree(gates),
        forall|n: int|
            0 <= n <= gates.len() ==> #[trigger] gates_degree(gates.take(n)) <= gates_degree(
                gates,
            ),
    decreases gates.len(),
{
    if gates.len() > 0 {
        let init = gates.drop_last();
        lemma_gates_degree(init);
        assert forall|i: int| 0 <= i < gates.len() implies expression::max_degree(
            (#[trigger] gates[i]).polys,
            0,
        ) <= gates_degree(gates) by {
            if i < init.len() {
                assert(init[i] == gates[i]);
            }
        }
        assert forall|n: int| 0 <= n <= gates.len() implies #[trigger] gates_degree(gates.take(n))
            <= gates_degree(gates) by {
            if n < gates.len() {
                assert(gates.take(n) =~= init.take(n));
            } else {
                assert(gates.take(n) =~= gates);
            }
        }
    } else {
        assert(forall|n: int| 0 <= n <= gates.len() ==> #[trigger] gates.take(n) =~= gates);
    }
}

proof fn lemma_max_count(counts: Seq<usize>)
    ensures
        forall|i: int| 0 <= i < counts.len() ==> (#[trigger] counts[i]) <= max_count(counts),
    decreases counts.len(),
{
    if counts.len() > 1 {
        let init = counts.drop_last();
        lemma_max_count(init);
        assert forall|i: int| 0 <= i < counts.len() implies (#[trigger] counts[i]) <= max_count(
            counts,
        ) by {
            if i < init.len() {
                assert(init[i] == counts[i]);
            }
        }
    }
}

/// What bounds the degree that each lookup argument needs bounds the largest.
pub proof fn lemma_lookups_degree_bounded<F>(lookups: Seq<lookup::ArgumentModel<F>>, bound: nat)
    requires
        1 <= bound,
        forall|i: int|
            0 <= i < lookups.len() ==> (#[trigger] lookups[i]).required_degree() <= bound,
    ensures
        lookups_degree(lookups) <= bound,
    decreases lookups.len(),
{
    if lookups.len() > 0 {
        let init = lookups.drop_last();
        assert forall|i: int| 0 <= i < init.len() implies (#[trigger] init[i]).required_degree()
            <= bound by {
            assert(init[i] == lookups[i]);
        }
        lemma_lookups_degree_bounded(init, bound);
        assert(lookups.last() == lookups[lookups.len() - 1]);
    }
}

/// What bounds the degree of each polynomial of each gate bounds the largest.
pub proof fn lemma_gates_degree_bounded<F>(gates: Seq<gate::GateModel<F>>, bound: nat)
    requires
        forall|i: int, j: int|
            0 <= i < gates.len() && 0 <= j < gates[i].polys.len() ==> (
            #[trigger] gates[i].polys[j]).degree_spec() <= bound,
    ensures
        gates_degree(gates) <= bound,
    decreases gates.len(),
{
    if gates.len() > 0 {
        let init = gates.drop_last();
        assert forall|i: int, j: int|
            0 <= i < init.len() && 0 <= j < init[i].polys.len() implies (
        #[trigger] init[i].polys[j]).degree_spec() <= bound by {
            assert(init[i].polys[j] == gates[i].polys[j]);
        }
        lemma_gates_degree_bounded(init, bound);
        let polys = gates.last().polys;
        assert forall|j: int| 0 <= j < polys.len() implies (#[trigger] polys[j]).degree_spec()
            <= bound by {
            assert(polys[j] == gates[gates.len() - 1].polys[j]);
        }
        expression::lemma_max_degree_bounded(polys, 0, bound);
    }
}

/// Each polynomial of each gate is among the polynomials of the gates.
pub proof fn lemma_polys_of<F>(gates: Seq<gate::GateModel<F>>, g: int, j: int)
    requires
        0 <= g < gates.len(),
        0 <= j < gates[g].polys.len(),
    ensures
        polys_of(gates).contains(gates[g].polys[j]),
    decreases gates.len(),
{
    let init = gates.drop_last();
    let before = polys_of(init);
    if g < init.len() {
        assert(init[g] == gates[g]);
        lemma_polys_of(init, g, j);
        let i = choose|i: int| 0 <= i < before.len() && before[i] == gates[g].polys[j];
        assert(polys_of(gates)[i] == before[i]);
    } else {
        assert(polys_of(gates)[before.len() + j] == gates[g].polys[j]);
    }
}

/// Each of the polynomials of the gates is that of a gate: the returned gate has it at the
/// returned place.
pub proof fn lemma_poly_of_gate<F>(gates: Seq<gate::GateModel<F>>, i: int) -> (at: (int, int))
    requires
        0 <= i < polys_of(gates).len(),
    ensures
        0 <= at.0 < gates.len(),
        0 <= at.1 < gates[at.0].polys.len(),
        polys_of(gates)[i] == gates[at.0].polys[at.1],
    decreases gates.len(),
{
    let init = gates.drop_last();
    let before = polys_of(init);
    if i < before.len() {
        let at = lemma_poly_of_gate(init, i);
        assert(init[at.0] == gates[at.0]);
        at
    } else {
        (gates.len() - 1, i - before.len())
    }
}

/// The degree of a system bounds the degree of each polynomial of each gate, the degree
/// that each lookup argument needs, that of the permutation argument, and the degree that
/// the circuit asks for.
pub proof fn lemma_degree<F>(cs: SystemModel<F>)
    ensures
        cs.degree() >= 3,
        forall|i: int, j: int|
            0 <= i < cs.gates.len() && 0 <= j < cs.gates[i].polys.len() ==> (
            #[trigger] cs.gates[i].polys[j]).degree_spec() <= cs.degree(),
        forall|i: int|
            0 <= i < cs.lookups.len() ==> (#[trigger] cs.lookups[i]).required_degree()
                <= cs.degree(),
        cs.minimum_degree matches Some(degree) ==> degree <= cs.degree(),
{
    lemma_lookups_degree(cs.lookups);
    lemma_gates_degree(cs.gates);
    assert forall|i: int, j: int|
        0 <= i < cs.gates.len() && 0 <= j < cs.gates[i].polys.len() implies (
    #[trigger] cs.gates[i].polys[j]).degree_spec() <= cs.degree() by {
        expression::lemma_max_degree(cs.gates[i].polys, 0);
    }
}

/// There are more blinding factors than a column of a well-formed system has queries, by
/// two at least, and five in any case.
pub proof fn lemma_blinding_factors<F>(cs: SystemModel<F>, column: int)
    requires
        cs.well_formed(),
        0 <= column < cs.num_advice_columns,
    ensures
        cs.blinding_factors() >= 5,
        cs.blinding_factors() >= column_queries(cs.advice_queries, column) + 2,
{
    lemma_max_count(cs.num_advice_queries);
    assert(cs.num_advice_queries[column] == column_queries(cs.advice_queries, column));
}

impl<F: Copy> ConstraintSystem<F> {
    /// Compute the degree of the constraint system (the maximum degree of all
    /// constraints).
    pub fn degree(&self) -> (degree: usize)
        requires
            self@.lookups_paired(),
            self@.degree() <= usize::MAX,
        ensures
            degree == self@.degree(),
    {
        // The permutation argument will serve alongside the gates, so must be
        // accounted for.
        let permutation_degree = self.permutation.required_degree();

        // The lookup argument also serves alongside the gates and must be accounted
        // for.
        let ghost lookups = self@.lookups;
        let mut lookup_degree: usize = 1;
        let mut i: usize = 0;
        assert(lookups.take(0) =~= seq![]);
        while i < self.lookups.len()
            invariant
                i <= self.lookups@.len(),
                lookups == lookup_models(self.lookups@),
                lookups == self@.lookups,
                self@.lookups_paired(),
                lookups_degree(lookups) <= usize::MAX,
                lookup_degree == lookups_degree(lookups.take(i as int)),
            decreases self.lookups@.len() - i,
        {
            proof {
                lemma_lookups_degree(lookups);
                assert(lookups[i as int].required_degree() <= usize::MAX);
                assert(lookups[i as int].paired());
            }
            lookup_degree = expression::max(lookup_degree, self.lookups[i].required_degree());
            proof {
                assert(lookups.take(i + 1).drop_last() =~= lookups.take(i as int));
                assert(lookups.take(i + 1).last() == lookups[i as int]);
            }
            i = i + 1;
        }
        assert(lookups.take(i as int) =~= lookups);

        // Account for each gate to ensure our quotient polynomial is the
        // correct degree and that our extended domain is the right size.
        let ghost gates = self@.gates;
        let mut gate_degree: usize = 0;
        let mut i: usize = 0;
        assert(gates.take(0) =~= seq![]);
        while i < self.gates.len()
            invariant
                i <= self.gates@.len(),
                gates == gate_models(self.gates@),
                gates_degree(gates) <= usize::MAX,
                gate_degree == gates_degree(gates.take(i as int)),
            decreases self.gates@.len() - i,
        {
            proof {
                lemma_gates_degree(gates);
                assert(expression::max_degree(gates[i as int].polys, 0) <= usize::MAX);
            }
            let polys_degree = expression::largest_degree(self.gates[i].polynomials(), 0);
            gate_degree = expression::max(gate_degree, polys_degree);
            proof {
                assert(gates.take(i + 1).drop_last() =~= gates.take(i as int));
                assert(gates.take(i + 1).last() == gates[i as int]);
            }
            i = i + 1;
        }
        assert(gates.take(i as int) =~= gates);

        let degree = expression::max(permutation_degree, lookup_degree);
        let degree = expression::max(degree, gate_degree);
        match self.minimum_degree {
            Some(minimum_degree) => expression::max(degree, minimum_degree),
            None => expression::max(degree, 1),
        }
    }

    /// Compute the degree of the constraint system, unless an input of a lookup has no table
    /// or the degree is too large to be represented.
    pub fn checked_degree(&self) -> (degree: Option<usize>)
        ensures
            match degree {
                Some(degree) => self@.lookups_paired() && degree == self@.degree(),
                None => !self@.lookups_paired() || self@.degree() > usize::MAX,
            },
    {
        let ghost lookups = self@.lookups;
        let mut i: usize = 0;
        let mut lookup_degree: usize = 1;
        assert(lookups.take(0) =~= seq![]);
        while i < self.lookups.len()
            invariant
                i <= self.lookups@.len(),
                lookups == lookup_models(self.lookups@),
                lookups == self@.lookups,
                forall|j: int| 0 <= j < i ==> (#[trigger] lookups[j]).paired(),
                lookup_degree == lookups_degree(lookups.take(i as int)),
            decreases self.lookups@.len() - i,
        {
            assert(lookups[i as int] == self.lookups@[i as int]@);
            match self.lookups[i].checked_required_degree() {
                Some(degree) => {
                    lookup_degree = expression::max(lookup_degree, degree);
                },
                None => {
                    proof {
                        lemma_degree(self@);
                        assert(!lookups[i as int].paired()
                            || lookups[i as int].required_degree() > usize::MAX);
                    }
                    return None;
                },
            }
            proof {
                assert(lookups.take(i + 1).drop_last() =~= lookups.take(i as int));
                assert(lookups.take(i + 1).last() == lookups[i as int]);
            }
            i = i + 1;
        }
        assert(lookups.take(i as int) =~= lookups);

        let ghost gates = self@.gates;
        let mut i: usize = 0;
        let mut gate_degree: usize = 0;
        assert(gates.take(0) =~= seq![]);
        while i < self.gates.len()
            invariant
                i <= self.gates@.len(),
                gates == gate_models(self.gates@),
                gates == self@.gates,
                gate_degree == gates_degree(gates.take(i as int)),
            decreases self.gates@.len() - i,
        {
            assert(gates[i as int] == self.gates@[i as int]@);
            match expression::checked_largest_degree(self.gates[i].polynomials(), 0) {
                Some(degree) => {
                    gate_degree = expression::max(gate_degree, degree);
                },
                None => {
                    proof {
                        lemma_gates_degree(gates);
                        assert(expression::max_degree(gates[i as int].polys, 0) > usize::MAX);
                    }
                    return None;
                },
            }
            proof {
                assert(gates.take(i + 1).drop_last() =~= gates.take(i as int));
                assert(gates.take(i + 1).last() == gates[i as int]);
            }
            i = i + 1;
        }
        assert(gates.take(i as int) =~= gates);
        assert(self@.lookups_paired());
        assert(self@.degree() <= usize::MAX);
        Some(self.degree())
    }

    /// Compute the number of blinding factors necessary to perfectly blind
    /// each of the prover's witness polynomials.
    pub fn blinding_factors(&self) -> (factors: usize)
        requires
            self@.blinding_factors() <= usize::MAX,
        ensures
            factors == self@.blinding_factors(),
    {
        // All of the prover's advice columns are evaluated at no more than
        let ghost counts = self.num_advice_queries@;
        let mut factors: usize = 1;
        let mut i: usize = 0;
        assert(counts.take(0) =~= seq![]);
        while i < self.num_advice_queries.len()
            invariant
                i <= counts.len(),
                counts == self.num_advice_queries@,
                factors == max_count(counts.take(i as int)),
            decreases counts.len() - i,
        {
            let count = self.num_advice_queries[i];
            factors = if i == 0 {
                count
            } else {
                expression::max(factors, count)
            };
            proof {
                assert(counts.take(i + 1).drop_last() =~= counts.take(i as int));
                assert(counts.take(i + 1).last() == count);
            }
            i = i + 1;
        }
        assert(counts.take(i as int) =~= counts);
        // distinct points during gate checks.

        // - The permutation argument witness polynomials are evaluated at most 3 times.
        // - Each lookup argument has independent witness polynomials, and they are
        //   evaluated at most 2 times.
        let factors = expression::max(3, factors);

        // Each polynomial is evaluated at most an additional time during
        // multiopen (at x_3 to produce q_evals):
        let factors: usize = factors + 1;

        // h(x) is derived by the other evaluations so it does not reveal
        // anything; in fact it does not even appear in the proof.

        // h(x_3) is also not revealed; the verifier only learns a single
        // evaluation of a polynomial in x_1 which has h(x_3) and another random
        // polynomial evaluated at x_3 as coefficients -- this random polynomial
        // is "random_poly" in the vanishing argument.

        // Add an additional blinding factor as a slight defense against
        // off-by-one errors.
        factors + 1
    }

    /// Returns the minimum necessary rows that need to exist in order to
    /// account for e.g. blinding factors.
    pub fn minimum_rows(&self) -> (rows: usize)
        requires
            self@.blinding_factors() + 3 <= usize::MAX,
        ensures
            rows == self@.blinding_factors() + 3,
    {
        // m blinding factors, and
        // - one row for l_{-(m + 1)} (l_last)
        // - one row for l_0 (just for extra breathing room for the permutation
        //   argument, to essentially force a separation in the
        //   permutation polynomial between the roles of l_last, l_0
        //   and the interstitial values.)
        // - one row, for at least one row
        self.blinding_factors() + 1 + 1 + 1
    }
}

impl<F> ConstraintSystem<F> {
    /// Returns the number of instance columns we expect a circuit to have, in one byte.
    pub fn get_num_instance_columns(&self) -> (n: u8)
        ensures
            n == self@.num_instance_columns % 256,
    {
        (self.num_instance_columns % 256) as u8
    }

    /// Returns the number of fixed columns we expect a circuit to have, in one byte.
    pub fn get_num_fixed_columns(&self) -> (n: u8)
        ensures
            n == self@.num_fixed_columns % 256,
    {
        (self.num_fixed_columns % 256) as u8
    }

    /// Returns the number of selectors we expect a circuit to have, in four bytes.
    pub fn get_num_selectors(&self) -> (n: u32)
        ensures
            n == self@.num_selectors % 0x1_0000_0000,
    {
        (self.num_selectors as u64 % 0x1_0000_0000) as u32
    }

    /// Returns the number of queries of advice columns we expect a circuit to have, in one
    /// byte.
    pub fn get_num_advice(&self) -> (n: u8)
        ensures
            n == self@.advice_queries.len() % 256,
    {
        (self.advice_queries.len() % 256) as u8
    }

    /// Returns the columns of the permutation argument.
    pub fn get_permutation_columns(&self) -> (columns: Vec<Column<Any>>)
        ensures
            columns@ == self@.permutation,
    {
        self.permutation.get_columns()
    }

    /// Returns the number of gates a circuit has.
    pub fn get_gate_count(&self) -> (n: usize)
        ensures
            n == self@.gates.len(),
    {
        self.gates.len()
    }
}

impl<F: Copy> Clone for ConstraintSystem<F> {
    fn clone(&self) -> (r: Self)
        ensures
            r@ == self@,
    {
        let r = ConstraintSystem {
            num_fixed_columns: self.num_fixed_columns,
            num_advice_columns: self.num_advice_columns,
            num_instance_columns: self.num_instance_columns,
            num_selectors: self.num_selectors,
            selector_map: self.selector_map.clone(),
            gates: self.gates.clone(),
            advice_queries: list::copied(&self.advice_queries),
            num_advice_queries: self.num_advice_queries.clone(),
            instance_queries: list::copied(&self.instance_queries),
            fixed_queries: list::copied(&self.fixed_queries),
            permutation: self.permutation.clone(),
            lookups: self.lookups.clone(),
            constants: self.constants.clone(),
            minimum_degree: self.minimum_degree,
        };
        proof {
            assert(r@.selector_map =~= self@.selector_map);
            assert(r@.gates =~= self@.gates);
            assert(r@.num_advice_queries =~= self@.num_advice_queries);
            assert(r@.lookups =~= self@.lookups);
            assert(r@.constants =~= self@.constants);
        }
        r
    }
}

/// The query counts of a well-formed system, and with them its blinding factors, are
/// determined by its advice columns and their queries.
pub proof fn lemma_counts_determined<F>(a: SystemModel<F>, b: SystemModel<F>)
    requires
        a.well_formed(),
        b.well_formed(),
        a.num_advice_columns == b.num_advice_columns,
        a.advice_queries == b.advice_queries,
    ensures
        a.num_advice_queries == b.num_advice_queries,
        a.blinding_factors() == b.blinding_factors(),
{
    assert forall|c: int| 0 <= c < a.num_advice_queries.len() implies a.num_advice_queries[c]
        == b.num_advice_queries[c] by {
        assert(a.num_advice_queries[c] == column_queries(a.advice_queries, c));
        assert(b.num_advice_queries[c] == column_queries(b.advice_queries, c));
    }
    assert(a.num_advice_queries =~= b.num_advice_queries);
}

} // verus!
