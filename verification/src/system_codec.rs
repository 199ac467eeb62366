//! The binary form of a constraint system, for verification without the circuit.

use vstd::prelude::*;

use crate::codec;
use crate::codec::{ReadError, Reader};
use crate::column::{Advice, Any, Column, ColumnType, Fixed, Instance};
use crate::constraint_system;
use crate::constraint_system::ConstraintSystem;
use crate::expression;
use crate::field::PrimeField;
use crate::gate;
use crate::gate::Gate;
use crate::list;
use crate::lookup;
use crate::permutation;
use crate::rotation::Rotation;

verus! {

// ---------------------------------------------------------------------------------
// Columns, queries and counts
// ---------------------------------------------------------------------------------

/// The index of a fixed column in two bytes.
pub open spec fn encode_fixed(column: Column<Fixed>) -> Seq<u8> {
    codec::u16_le(column.index as nat)
}

/// Reads the index of a fixed column.
pub open spec fn parse_fixed(s: Seq<u8>) -> codec::Parsed<Column<Fixed>> {
    match codec::parse_u16(s) {
        Ok((index, rest)) => Ok((Column { column_type: Fixed, index: index as usize }, rest)),
        Err(e) => Err(e),
    }
}

/// The index of the queried column in two bytes, then the rotation in four bytes.
pub open spec fn encode_query<C: ColumnType>(query: (Column<C>, Rotation)) -> Seq<u8> {
    codec::u16_le(query.0.index as nat) + codec::i32_le(query.1.0)
}

/// Reads a query of a column of the given type.
pub open spec fn parse_query<C: ColumnType>(s: Seq<u8>, column_type: C) -> codec::Parsed<
    (Column<C>, Rotation),
> {
    match codec::parse_u16(s) {
        Ok((index, rest)) => match codec::parse_i32(rest) {
            Ok((rotation, rest)) => Ok(
                ((Column { column_type, index: index as usize }, Rotation(rotation)), rest),
            ),
            Err(e) => Err(e),
        },
        Err(e) => Err(e),
    }
}

/// A number in two bytes.
pub open spec fn encode_count(count: usize) -> Seq<u8> {
    codec::u16_le(count as nat)
}

/// Reads a number in two bytes.
pub open spec fn parse_count(s: Seq<u8>) -> codec::Parsed<usize> {
    match codec::parse_u16(s) {
        Ok((count, rest)) => Ok((count as usize, rest)),
        Err(e) => Err(e),
    }
}

/// A flag that says whether there is a minimum degree, then the degree in four bytes.
pub open spec fn encode_minimum_degree(minimum_degree: Option<usize>) -> Seq<u8> {
    match minimum_degree {
        Some(degree) => seq![1u8] + codec::u32_le(degree as nat),
        None => seq![0u8],
    }
}

/// Reads a minimum degree.
pub open spec fn parse_minimum_degree(s: Seq<u8>) -> codec::Parsed<Option<usize>> {
    match codec::parse_u8(s) {
        Ok((flag, rest)) => if flag == 0 {
            Ok((None, rest))
        } else if flag == 1 {
            match codec::parse_u32(rest) {
                Ok((degree, rest)) => Ok((Some(degree as usize), rest)),
                Err(e) => Err(e),
            }
        } else {
            Err(ReadError::InvalidMinimumDegree)
        },
        Err(e) => Err(e),
    }
}

/// Appends a list of fixed columns.
fn write_fixed_columns(writer: &mut Vec<u8>, columns: &Vec<Column<Fixed>>)
    ensures
        final(writer)@ == old(writer)@ + codec::encode_counted(
            columns@,
            |column: Column<Fixed>| encode_fixed(column),
        ),
{
    let ghost same = |column: Column<Fixed>| column;
    let write_one = |x: &mut Vec<u8>, column: &Column<Fixed>|
        ensures
            final(x)@ == old(x)@ + encode_fixed(*column),
        {
            codec::write_u16(x, column.index());
        };
    codec::write_counted::<Column<Fixed>, Column<Fixed>, _>(
        writer,
        columns,
        write_one,
        Ghost(same),
        Ghost(|column: Column<Fixed>| encode_fixed(column)),
    );
    assert(columns@.map_values(same) =~= columns@);
}

/// Reads a list of fixed columns.
fn read_fixed_columns(reader: &mut Reader<'_>) -> (r: Result<Vec<Column<Fixed>>, ReadError>)
    ensures
        codec::reads_view(
            r,
            codec::parse_counted(|s: Seq<u8>| parse_fixed(s), old(reader)@),
            old(reader)@,
            final(reader)@,
        ),
{
    let ghost same = |column: Column<Fixed>| column;
    let read_one = |x: &mut Reader<'_>| -> (out: Result<Column<Fixed>, ReadError>)
        ensures
            codec::reads(out, parse_fixed(old(x)@), old(x)@, final(x)@),
        {
            match codec::read_u16(x) {
                Ok(index) => Ok(Column::new(index as usize, Fixed)),
                Err(e) => Err(e),
            }
        };
    let r = codec::read_counted::<Column<Fixed>, Column<Fixed>, _>(
        reader,
        read_one,
        Ghost(same),
        Ghost(|s: Seq<u8>| parse_fixed(s)),
    );
    proof {
        if let Ok(columns) = &r {
            assert(columns@.map_values(same) =~= columns@);
        }
    }
    r
}

/// Appends a list of queries.
fn write_queries<C: ColumnType>(writer: &mut Vec<u8>, queries: &Vec<(Column<C>, Rotation)>)
    ensures
        final(writer)@ == old(writer)@ + codec::encode_counted(
            queries@,
            |query: (Column<C>, Rotation)| encode_query(query),
        ),
{
    let ghost same = |query: (Column<C>, Rotation)| query;
    let write_one = |x: &mut Vec<u8>, query: &(Column<C>, Rotation)|
        ensures
            final(x)@ == old(x)@ + encode_query(*query),
        {
            codec::write_u16(x, query.0.index());
            codec::write_i32(x, query.1.0);
            assert(x@ =~= old(x)@ + encode_query(*query));
        };
    codec::write_counted::<(Column<C>, Rotation), (Column<C>, Rotation), _>(
        writer,
        queries,
        write_one,
        Ghost(same),
        Ghost(|query: (Column<C>, Rotation)| encode_query(query)),
    );
    assert(queries@.map_values(same) =~= queries@);
}

/// Reads a query of a column of the given type.
fn read_query<C: ColumnType>(reader: &mut Reader<'_>, column_type: C) -> (r: Result<
    (Column<C>, Rotation),
    ReadError,
>)
    ensures
        codec::reads(r, parse_query(old(reader)@, column_type), old(reader)@, final(reader)@),
{
    let ghost start = reader@;
    let index = match codec::read_u16(reader) {
        Ok(index) => index as usize,
        Err(e) => {
            return Err(e);
        },
    };
    let ghost middle = reader@;
    let rotation = codec::read_i32(reader);
    proof {
        codec::lemma_suffix_trans(reader@, middle, start);
    }
    match rotation {
        Ok(rotation) => Ok((Column::new(index, column_type), Rotation(rotation))),
        Err(e) => Err(e),
    }
}

/// Reads a list of queries of columns of the given type.
fn read_queries<C: ColumnType>(reader: &mut Reader<'_>, column_type: C) -> (r: Result<
    Vec<(Column<C>, Rotation)>,
    ReadError,
>)
    ensures
        codec::reads_view(
            r,
            codec::parse_counted(|s: Seq<u8>| parse_query(s, column_type), old(reader)@),
            old(reader)@,
            final(reader)@,
        ),
{
    let ghost same = |query: (Column<C>, Rotation)| query;
    let read_one = |x: &mut Reader<'_>| -> (out: Result<(Column<C>, Rotation), ReadError>)
        ensures
            codec::reads(out, parse_query(old(x)@, column_type), old(x)@, final(x)@),
        { read_query(x, column_type) };
    let r = codec::read_counted::<(Column<C>, Rotation), (Column<C>, Rotation), _>(
        reader,
        read_one,
        Ghost(same),
        Ghost(|s: Seq<u8>| parse_query(s, column_type)),
    );
    proof {
        if let Ok(queries) = &r {
            assert(queries@.map_values(same) =~= queries@);
        }
    }
    r
}

/// Appends a list of numbers.
fn write_counts(writer: &mut Vec<u8>, counts: &Vec<usize>)
    ensures
        final(writer)@ == old(writer)@ + codec::encode_counted(
            counts@,
            |count: usize| encode_count(count),
        ),
{
    let ghost same = |count: usize| count;
    let write_one = |x: &mut Vec<u8>, count: &usize|
        ensures
            final(x)@ == old(x)@ + encode_count(*count),
        {
            codec::write_u16(x, *count);
        };
    codec::write_counted::<usize, usize, _>(
        writer,
        counts,
        write_one,
        Ghost(same),
        Ghost(|count: usize| encode_count(count)),
    );
    assert(counts@.map_values(same) =~= counts@);
}

/// Reads a list of numbers.
fn read_counts(reader: &mut Reader<'_>) -> (r: Result<Vec<usize>, ReadError>)
    ensures
        codec::reads_view(
            r,
            codec::parse_counted(|s: Seq<u8>| parse_count(s), old(reader)@),
            old(reader)@,
            final(reader)@,
        ),
{
    let ghost same = |count: usize| count;
    let read_one = |x: &mut Reader<'_>| -> (out: Result<usize, ReadError>)
        ensures
            codec::reads(out, parse_count(old(x)@), old(x)@, final(x)@),
        {
            match codec::read_u16(x) {
                Ok(count) => Ok(count as usize),
                Err(e) => Err(e),
            }
        };
    let r = codec::read_counted::<usize, usize, _>(
        reader,
        read_one,
        Ghost(same),
        Ghost(|s: Seq<u8>| parse_count(s)),
    );
    proof {
        if let Ok(counts) = &r {
            assert(counts@.map_values(same) =~= counts@);
        }
    }
    r
}

/// Appends a minimum degree.
fn write_minimum_degree(writer: &mut Vec<u8>, minimum_degree: Option<usize>)
    ensures
        final(writer)@ == old(writer)@ + encode_minimum_degree(minimum_degree),
{
    match minimum_degree {
        Some(degree) => {
            writer.push(1);
            codec::write_u32(writer, degree);
        },
        None => {
            writer.push(0);
        },
    }
    assert(writer@ =~= old(writer)@ + encode_minimum_degree(minimum_degree));
}

/// Reads a minimum degree.
fn read_minimum_degree(reader: &mut Reader<'_>) -> (r: Result<Option<usize>, ReadError>)
    ensures
        codec::reads(r, parse_minimum_degree(old(reader)@), old(reader)@, final(reader)@),
{
    let ghost start = reader@;
    match codec::read_u8(reader) {
        Ok(flag) => if flag == 0 {
            Ok(None)
        } else if flag == 1 {
            let ghost middle = reader@;
            let degree = codec::read_u32(reader);
            proof {
                codec::lemma_suffix_trans(reader@, middle, start);
            }
            match degree {
                Ok(degree) => Ok(Some(degree as usize)),
                Err(e) => Err(e),
            }
        } else {
            Err(ReadError::InvalidMinimumDegree)
        },
        Err(e) => Err(e),
    }
}

// ---------------------------------------------------------------------------------
// The parts of a system
// ---------------------------------------------------------------------------------

/// The counts at the start of the binary form of a system.
#[verifier::ext_equal]
pub struct HeaderModel {
    /// The number of fixed columns.
    pub num_fixed_columns: nat,
    /// The number of advice columns.
    pub num_advice_columns: nat,
    /// The number of instance columns.
    pub num_instance_columns: nat,
    /// The number of selectors.
    pub num_selectors: nat,
}

/// Reads the counts, and the number of gates, which is not needed.
pub open spec fn parse_header(s: Seq<u8>) -> codec::Parsed<HeaderModel> {
    match codec::parse_u32(s) {
        Ok((num_fixed_columns, rest)) => match codec::parse_u32(rest) {
            Ok((num_advice_columns, rest)) => match codec::parse_u32(rest) {
                Ok((num_instance_columns, rest)) => match codec::parse_u16(rest) {
                    Ok((num_selectors, rest)) => match codec::parse_u16(rest) {
                        Ok((_, rest)) => Ok(
                            (
                                HeaderModel {
                                    num_fixed_columns: num_fixed_columns as nat,
                                    num_advice_columns: num_advice_columns as nat,
                                    num_instance_columns: num_instance_columns as nat,
                                    num_selectors: num_selectors as nat,
                                },
                                rest,
                            ),
                        ),
                        Err(e) => Err(e),
                    },
                    Err(e) => Err(e),
                },
                Err(e) => Err(e),
            },
            Err(e) => Err(e),
        },
        Err(e) => Err(e),
    }
}

/// The selector map and the queries, which stand before the gates because expressions are
/// read with them.
#[verifier::ext_equal]
pub struct TablesModel {
    /// The fixed columns that the selectors were compressed into.
    pub selector_map: Seq<Column<Fixed>>,
    /// The queries of advice columns.
    pub advice_queries: Seq<(Column<Advice>, Rotation)>,
    /// The queries of instance columns.
    pub instance_queries: Seq<(Column<Instance>, Rotation)>,
    /// The queries of fixed columns.
    pub fixed_queries: Seq<(Column<Fixed>, Rotation)>,
    /// The number of distinct queries of each advice column.
    pub num_advice_queries: Seq<usize>,
}

/// Reads the selector map and the queries.
pub open spec fn parse_tables(s: Seq<u8>) -> codec::Parsed<TablesModel> {
    match codec::parse_counted(|s: Seq<u8>| parse_fixed(s), s) {
        Ok((selector_map, rest)) => match codec::parse_counted(
            |s: Seq<u8>| parse_query(s, Advice),
            rest,
        ) {
            Ok((advice_queries, rest)) => match codec::parse_counted(
                |s: Seq<u8>| parse_query(s, Instance),
                rest,
            ) {
                Ok((instance_queries, rest)) => match codec::parse_counted(
                    |s: Seq<u8>| parse_query(s, Fixed),
                    rest,
                ) {
                    Ok((fixed_queries, rest)) => match codec::parse_counted(
                        |s: Seq<u8>| parse_count(s),
                        rest,
                    ) {
                        Ok((num_advice_queries, rest)) => Ok(
                            (
                                TablesModel {
                                    selector_map,
                                    advice_queries,
                                    instance_queries,
                                    fixed_queries,
                                    num_advice_queries,
                                },
                                rest,
                            ),
                        ),
                        Err(e) => Err(e),
                    },
                    Err(e) => Err(e),
                },
                Err(e) => Err(e),
            },
            Err(e) => Err(e),
        },
        Err(e) => Err(e),
    }
}

/// The gates and the arguments.
#[verifier::ext_equal]
pub struct BodyModel<F> {
    /// The gates.
    pub gates: Seq<gate::GateModel<F>>,
    /// The columns on which equality is enabled.
    pub permutation: Seq<Column<Any>>,
    /// The lookup arguments.
    pub lookups: Seq<lookup::ArgumentModel<F>>,
    /// The fixed columns that can be used for constants.
    pub constants: Seq<Column<Fixed>>,
    /// The degree that the circuit asks for.
    pub minimum_degree: Option<usize>,
}

/// Reads the gates and the arguments.
pub open spec fn parse_body<F: PrimeField>(
    s: Seq<u8>,
    queries: expression::Queries,
) -> codec::Parsed<BodyModel<F>> {
    match codec::parse_counted(|s: Seq<u8>| gate::parse_gate::<F>(s, queries), s) {
        Ok((gates, rest)) => match permutation::parse_argument(rest) {
            Ok((permutation, rest)) => match codec::parse_counted(
                |s: Seq<u8>| lookup::parse_argument::<F>(s, queries),
                rest,
            ) {
                Ok((lookups, rest)) => match codec::parse_counted(
                    |s: Seq<u8>| parse_fixed(s),
                    rest,
                ) {
                    Ok((constants, rest)) => match parse_minimum_degree(rest) {
                        Ok((minimum_degree, rest)) => Ok(
                            (
                                BodyModel {
                                    gates,
                                    permutation,
                                    lookups,
                                    constants,
                                    minimum_degree,
                                },
                                rest,
                            ),
                        ),
                        Err(e) => Err(e),
                    },
                    Err(e) => Err(e),
                },
                Err(e) => Err(e),
            },
            Err(e) => Err(e),
        },
        Err(e) => Err(e),
    }
}

/// Reads a constraint system.
pub open spec fn parse_system<F: PrimeField>(s: Seq<u8>) -> codec::Parsed<
    constraint_system::SystemModel<F>,
> {
    match parse_header(s) {
        Ok((header, rest)) => match parse_tables(rest) {
            Ok((tables, rest)) => match parse_body::<F>(rest, tables.queries()) {
                Ok((body, rest)) => Ok((assembled(header, tables, body), rest)),
                Err(e) => Err(e),
            },
            Err(e) => Err(e),
        },
        Err(e) => Err(e),
    }
}

/// The system that is made of the given parts.
pub open spec fn assembled<F>(
    header: HeaderModel,
    tables: TablesModel,
    body: BodyModel<F>,
) -> constraint_system::SystemModel<F> {
    constraint_system::SystemModel {
        num_fixed_columns: header.num_fixed_columns,
        num_advice_columns: header.num_advice_columns,
        num_instance_columns: header.num_instance_columns,
        num_selectors: header.num_selectors,
        selector_map: tables.selector_map,
        gates: body.gates,
        advice_queries: tables.advice_queries,
        num_advice_queries: tables.num_advice_queries,
        instance_queries: tables.instance_queries,
        fixed_queries: tables.fixed_queries,
        permutation: body.permutation,
        lookups: body.lookups,
        constants: body.constants,
        minimum_degree: body.minimum_degree,
    }
}

impl TablesModel {
    /// The queries.
    pub open spec fn queries(self) -> expression::Queries {
        expression::Queries {
            fixed: self.fixed_queries,
            advice: self.advice_queries,
            instance: self.instance_queries,
        }
    }

    /// The binary form of the selector map and the queries.
    pub open spec fn encode(self) -> Seq<u8> {
        codec::encode_counted(self.selector_map, |column: Column<Fixed>| encode_fixed(column))
            + codec::encode_counted(
            self.advice_queries,
            |query: (Column<Advice>, Rotation)| encode_query(query),
        ) + codec::encode_counted(
            self.instance_queries,
            |query: (Column<Instance>, Rotation)| encode_query(query),
        ) + codec::encode_counted(
            self.fixed_queries,
            |query: (Column<Fixed>, Rotation)| encode_query(query),
        ) + codec::encode_counted(self.num_advice_queries, |count: usize| encode_count(count))
    }

    /// States that the binary form says all there is to say: all lengths and indices fit
    /// in two bytes.
    pub open spec fn encodable(self) -> bool {
        &&& self.selector_map.len() < 0x1_0000
        &&& forall|i: int|
            0 <= i < self.selector_map.len() ==> (#[trigger] self.selector_map[i]).index
                < 0x1_0000
        &&& queries_encodable(self.advice_queries)
        &&& queries_encodable(self.instance_queries)
        &&& queries_encodable(self.fixed_queries)
        &&& self.num_advice_queries.len() < 0x1_0000
        &&& forall|i: int|
            0 <= i < self.num_advice_queries.len() ==> (#[trigger] self.num_advice_queries[i])
                < 0x1_0000
    }
}

/// States that the number of queries and the indices of their columns fit in two bytes.
pub open spec fn queries_encodable<C: ColumnType>(queries: Seq<(Column<C>, Rotation)>) -> bool {
    &&& queries.len() < 0x1_0000
    &&& forall|i: int| 0 <= i < queries.len() ==> (#[trigger] queries[i]).0.index < 0x1_0000
}

impl<F: PrimeField> BodyModel<F> {
    /// The binary form of the gates and the arguments.
    pub open spec fn encode(self) -> Seq<u8> {
        codec::encode_counted(self.gates, |gate: gate::GateModel<F>| gate.encode())
            + permutation::encode_argument(self.permutation) + codec::encode_counted(
            self.lookups,
            |lookup: lookup::ArgumentModel<F>| lookup.encode(),
        ) + codec::encode_counted(self.constants, |column: Column<Fixed>| encode_fixed(column))
            + encode_minimum_degree(self.minimum_degree)
    }

    /// States that the binary form says all there is to say where the queries are
    /// `queries`.
    pub open spec fn encodable(self, queries: expression::Queries) -> bool {
        &&& self.gates.len() < 0x1_0000
        &&& forall|i: int| 0 <= i < self.gates.len() ==> (#[trigger] self.gates[i]).encodable(
            queries,
        )
        &&& permutation::encodable(self.permutation)
        &&& self.lookups.len() < 0x1_0000
        &&& forall|i: int| 0 <= i < self.lookups.len() ==> (#[trigger] self.lookups[i]).encodable(
            queries,
        )
        &&& self.constants.len() < 0x1_0000
        &&& forall|i: int|
            0 <= i < self.constants.len() ==> (#[trigger] self.constants[i]).index < 0x1_0000
        &&& self.minimum_degree matches Some(degree) ==> degree < 0x1_0000_0000
    }
}

impl HeaderModel {
    /// The binary form of the counts, with the number of gates behind them.
    pub open spec fn encode(self, num_gates: nat) -> Seq<u8> {
        codec::u32_le(self.num_fixed_columns) + codec::u32_le(self.num_advice_columns)
            + codec::u32_le(self.num_instance_columns) + codec::u16_le(self.num_selectors)
            + codec::u16_le(num_gates)
    }

    /// States that the binary form says all there is to say.
    pub open spec fn encodable(self) -> bool {
        &&& self.num_fixed_columns < 0x1_0000_0000
        &&& self.num_advice_columns < 0x1_0000_0000
        &&& self.num_instance_columns < 0x1_0000_0000
        &&& self.num_selectors < 0x1_0000
    }
}

impl<F> constraint_system::SystemModel<F> {
    /// The counts of this system.
    pub open spec fn header(self) -> HeaderModel {
        HeaderModel {
            num_fixed_columns: self.num_fixed_columns,
            num_advice_columns: self.num_advice_columns,
            num_instance_columns: self.num_instance_columns,
            num_selectors: self.num_selectors,
        }
    }

    /// The selector map and the queries of this system.
    pub open spec fn tables(self) -> TablesModel {
        TablesModel {
            selector_map: self.selector_map,
            advice_queries: self.advice_queries,
            instance_queries: self.instance_queries,
            fixed_queries: self.fixed_queries,
            num_advice_queries: self.num_advice_queries,
        }
    }

    /// The gates and the arguments of this system.
    pub open spec fn body(self) -> BodyModel<F> {
        BodyModel {
            gates: self.gates,
            permutation: self.permutation,
            lookups: self.lookups,
            constants: self.constants,
            minimum_degree: self.minimum_degree,
        }
    }
}

impl<F: PrimeField> constraint_system::SystemModel<F> {
    /// The binary form of this system.
    pub open spec fn encode(self) -> Seq<u8> {
        self.header().encode(self.gates.len()) + self.tables().encode() + self.body().encode()
    }

    /// States that the binary form of this system says all there is to say of it: all
    /// lengths and indices fit, and expressions are made of the queries of the system.
    pub open spec fn encodable(self) -> bool {
        &&& self.header().encodable()
        &&& self.tables().encodable()
        &&& self.body().encodable(self.tables().queries())
    }
}

// ---------------------------------------------------------------------------------
// Writing
// ---------------------------------------------------------------------------------

impl<F: PrimeField> ConstraintSystem<F> {
    /// Appends the selector map and the queries.
    fn write_tables(&self, writer: &mut Vec<u8>)
        ensures
            final(writer)@ == old(writer)@ + self@.tables().encode(),
    {
        // Selector map: maps selectors to fixed column indices
        write_fixed_columns(writer, &self.selector_map);

        // Queries must come before gates (needed for Expression deserialization)
        write_queries(writer, &self.advice_queries);
        write_queries(writer, &self.instance_queries);
        write_queries(writer, &self.fixed_queries);

        // num_advice_queries (per-column query counts)
        write_counts(writer, &self.num_advice_queries);
        assert(writer@ =~= old(writer)@ + self@.tables().encode());
    }

    /// Appends the gates and the arguments.
    fn write_body(&self, writer: &mut Vec<u8>)
        ensures
            final(writer)@ == old(writer)@ + self@.body().encode(),
    {
        // Gates (after queries so Expression::read can access them)
        let write_gate = |x: &mut Vec<u8>, gate: &Gate<F>|
            ensures
                final(x)@ == old(x)@ + gate@.encode(),
            {
                gate.write(x);
            };
        codec::write_counted::<Gate<F>, gate::GateModel<F>, _>(
            writer,
            &self.gates,
            write_gate,
            Ghost(|gate: Gate<F>| gate@),
            Ghost(|gate: gate::GateModel<F>| gate.encode()),
        );

        // Permutation argument
        self.permutation.write(writer);

        // Lookups
        let write_lookup = |x: &mut Vec<u8>, lookup: &lookup::Argument<F>|
            ensures
                final(x)@ == old(x)@ + lookup@.encode(),
            {
                lookup.write(x);
            };
        codec::write_counted::<lookup::Argument<F>, lookup::ArgumentModel<F>, _>(
            writer,
            &self.lookups,
            write_lookup,
            Ghost(|lookup: lookup::Argument<F>| lookup@),
            Ghost(|lookup: lookup::ArgumentModel<F>| lookup.encode()),
        );

        // Constants (fixed columns used for constants)
        write_fixed_columns(writer, &self.constants);

        // Minimum degree
        write_minimum_degree(writer, self.minimum_degree);
        assert(writer@ =~= old(writer)@ + self@.body().encode());
    }

    /// Write constraint system to binary format:
    ///
    /// - the numbers of fixed, advice and instance columns in four bytes each, the number of
    ///   selectors and the number of gates in two bytes each
    /// - the selector map
    /// - the queries of advice, instance and fixed columns, which come before the gates because
    ///   expressions are read with them
    /// - the number of queries of each advice column
    /// - the gates
    /// - the columns of the permutation argument
    /// - the lookup arguments
    /// - the constant columns
    /// - the minimum degree
    pub fn write(&self, writer: &mut Vec<u8>)
        ensures
            final(writer)@ == old(writer)@ + self@.encode(),
    {
        codec::write_u32(writer, self.num_fixed_columns);
        codec::write_u32(writer, self.num_advice_columns);
        codec::write_u32(writer, self.num_instance_columns);
        codec::write_u16(writer, self.num_selectors);
        codec::write_u16(writer, self.gates.len());
        self.write_tables(writer);
        self.write_body(writer);
        assert(writer@ =~= old(writer)@ + self@.encode());
    }
}

// ---------------------------------------------------------------------------------
// Reading
// ---------------------------------------------------------------------------------

/// The counts at the start of the binary form of a system.
struct Header {
    num_fixed_columns: usize,
    num_advice_columns: usize,
    num_instance_columns: usize,
    num_selectors: usize,
}

impl View for Header {
    type V = HeaderModel;

    closed spec fn view(&self) -> HeaderModel {
        HeaderModel {
            num_fixed_columns: self.num_fixed_columns as nat,
            num_advice_columns: self.num_advice_columns as nat,
            num_instance_columns: self.num_instance_columns as nat,
            num_selectors: self.num_selectors as nat,
        }
    }
}

/// Reads the counts.
fn read_header(reader: &mut Reader<'_>) -> (r: Result<Header, ReadError>)
    ensures
        codec::reads_view(r, parse_header(old(reader)@), old(reader)@, final(reader)@),
{
    let ghost start = reader@;
    proof {
        codec::lemma_suffix_refl(start);
    }
    let ghost before = reader@;
    let num_fixed_columns = codec::read_u32(reader);
    proof {
        codec::lemma_suffix_trans(reader@, before, start);
    }
    let num_fixed_columns = match num_fixed_columns {
        Ok(num_fixed_columns) => num_fixed_columns as usize,
        Err(e) => {
            return Err(e);
        },
    };
    let ghost before = reader@;
    let num_advice_columns = codec::read_u32(reader);
    proof {
        codec::lemma_suffix_trans(reader@, before, start);
    }
    let num_advice_columns = match num_advice_columns {
        Ok(num_advice_columns) => num_advice_columns as usize,
        Err(e) => {
            return Err(e);
        },
    };
    let ghost before = reader@;
    let num_instance_columns = codec::read_u32(reader);
    proof {
        codec::lemma_suffix_trans(reader@, before, start);
    }
    let num_instance_columns = match num_instance_columns {
        Ok(num_instance_columns) => num_instance_columns as usize,
        Err(e) => {
            return Err(e);
        },
    };
    let ghost before = reader@;
    let num_selectors = codec::read_u16(reader);
    proof {
        codec::lemma_suffix_trans(reader@, before, start);
    }
    let num_selectors = match num_selectors {
        Ok(num_selectors) => num_selectors as usize,
        Err(e) => {
            return Err(e);
        },
    };
    let ghost before = reader@;
    let num_gates = codec::read_u16(reader);
    proof {
        codec::lemma_suffix_trans(reader@, before, start);
    }
    match num_gates {
        Ok(_) => {},
        Err(e) => {
            return Err(e);
        },
    }
    Ok(Header { num_fixed_columns, num_advice_columns, num_instance_columns, num_selectors })
}

/// The selector map and the queries.
struct Tables {
    selector_map: Vec<Column<Fixed>>,
    advice_queries: Vec<(Column<Advice>, Rotation)>,
    instance_queries: Vec<(Column<Instance>, Rotation)>,
    fixed_queries: Vec<(Column<Fixed>, Rotation)>,
    num_advice_queries: Vec<usize>,
}

impl View for Tables {
    type V = TablesModel;

    closed spec fn view(&self) -> TablesModel {
        TablesModel {
            selector_map: self.selector_map@,
            advice_queries: self.advice_queries@,
            instance_queries: self.instance_queries@,
            fixed_queries: self.fixed_queries@,
            num_advice_queries: self.num_advice_queries@,
        }
    }
}

/// Reads the selector map and the queries.
fn read_tables(reader: &mut Reader<'_>) -> (r: Result<Tables, ReadError>)
    ensures
        codec::reads_view(r, parse_tables(old(reader)@), old(reader)@, final(reader)@),
{
    let ghost start = reader@;
    proof {
        codec::lemma_suffix_refl(start);
    }
    let ghost before = reader@;
    let selector_map = read_fixed_columns(reader);
    proof {
        codec::lemma_suffix_trans(reader@, before, start);
    }
    let selector_map = match selector_map {
        Ok(selector_map) => selector_map,
        Err(e) => {
            return Err(e);
        },
    };
    let ghost before = reader@;
    let advice_queries = read_queries(reader, Advice);
    proof {
        codec::lemma_suffix_trans(reader@, before, start);
    }
    let advice_queries = match advice_queries {
        Ok(advice_queries) => advice_queries,
        Err(e) => {
            return Err(e);
        },
    };
    let ghost before = reader@;
    let instance_queries = read_queries(reader, Instance);
    proof {
        codec::lemma_suffix_trans(reader@, before, start);
    }
    let instance_queries = match instance_queries {
        Ok(instance_queries) => instance_queries,
        Err(e) => {
            return Err(e);
        },
    };
    let ghost before = reader@;
    let fixed_queries = read_queries(reader, Fixed);
    proof {
        codec::lemma_suffix_trans(reader@, before, start);
    }
    let fixed_queries = match fixed_queries {
        Ok(fixed_queries) => fixed_queries,
        Err(e) => {
            return Err(e);
        },
    };
    let ghost before = reader@;
    let num_advice_queries = read_counts(reader);
    proof {
        codec::lemma_suffix_trans(reader@, before, start);
    }
    let num_advice_queries = match num_advice_queries {
        Ok(num_advice_queries) => num_advice_queries,
        Err(e) => {
            return Err(e);
        },
    };
    Ok(
        Tables {
            selector_map,
            advice_queries,
            instance_queries,
            fixed_queries,
            num_advice_queries,
        },
    )
}

/// The gates and the arguments.
struct Body<F> {
    gates: Vec<Gate<F>>,
    permutation: permutation::Argument,
    lookups: Vec<lookup::Argument<F>>,
    constants: Vec<Column<Fixed>>,
    minimum_degree: Option<usize>,
}

impl<F> View for Body<F> {
    type V = BodyModel<F>;

    closed spec fn view(&self) -> BodyModel<F> {
        BodyModel {
            gates: constraint_system::gate_models(self.gates@),
            permutation: self.permutation@,
            lookups: constraint_system::lookup_models(self.lookups@),
            constants: self.constants@,
            minimum_degree: self.minimum_degree,
        }
    }
}

/// Reads the gates and the arguments.
fn read_body<F: PrimeField>(reader: &mut Reader<'_>, tables: &Tables) -> (r: Result<
    Body<F>,
    ReadError,
>)
    ensures
        codec::reads_view(
            r,
            parse_body::<F>(old(reader)@, tables@.queries()),
            old(reader)@,
            final(reader)@,
        ),
{
    let ghost start = reader@;
    proof {
        codec::lemma_suffix_refl(start);
    }
    let fixed_queries = tables.fixed_queries.as_slice();
    let advice_queries = tables.advice_queries.as_slice();
    let instance_queries = tables.instance_queries.as_slice();
    assert(expression::queries_of(fixed_queries, advice_queries, instance_queries)
        == tables@.queries());

    // Gates (now we have queries available)
    let read_gate = |x: &mut Reader<'_>| -> (out: Result<Gate<F>, ReadError>)
        ensures
            codec::reads_view(
                out,
                gate::parse_gate::<F>(
                    old(x)@,
                    expression::queries_of(fixed_queries, advice_queries, instance_queries),
                ),
                old(x)@,
                final(x)@,
            ),
        { Gate::read(x, fixed_queries, advice_queries, instance_queries) };
    let ghost before = reader@;
    let gates = codec::read_counted::<Gate<F>, gate::GateModel<F>, _>(
        reader,
        read_gate,
        Ghost(|gate: Gate<F>| gate@),
        Ghost(|s: Seq<u8>| gate::parse_gate::<F>(s, tables@.queries())),
    );
    proof {
        codec::lemma_suffix_trans(reader@, before, start);
    }
    let gates = match gates {
        Ok(gates) => gates,
        Err(e) => {
            return Err(e);
        },
    };

    // Permutation argument
    let ghost before = reader@;
    let permutation = permutation::Argument::read(reader);
    proof {
        codec::lemma_suffix_trans(reader@, before, start);
    }
    let permutation = match permutation {
        Ok(permutation) => permutation,
        Err(e) => {
            return Err(e);
        },
    };

    // Lookups
    let read_lookup = |x: &mut Reader<'_>| -> (out: Result<lookup::Argument<F>, ReadError>)
        ensures
            codec::reads_view(
                out,
                lookup::parse_argument::<F>(
                    old(x)@,
                    expression::queries_of(fixed_queries, advice_queries, instance_queries),
                ),
                old(x)@,
                final(x)@,
            ),
        { lookup::Argument::read(x, fixed_queries, advice_queries, instance_queries) };
    let ghost before = reader@;
    let lookups = codec::read_counted::<lookup::Argument<F>, lookup::ArgumentModel<F>, _>(
        reader,
        read_lookup,
        Ghost(|lookup: lookup::Argument<F>| lookup@),
        Ghost(|s: Seq<u8>| lookup::parse_argument::<F>(s, tables@.queries())),
    );
    proof {
        codec::lemma_suffix_trans(reader@, before, start);
    }
    let lookups = match lookups {
        Ok(lookups) => lookups,
        Err(e) => {
            return Err(e);
        },
    };

    // Constants
    let ghost before = reader@;
    let constants = read_fixed_columns(reader);
    proof {
        codec::lemma_suffix_trans(reader@, before, start);
    }
    let constants = match constants {
        Ok(constants) => constants,
        Err(e) => {
            return Err(e);
        },
    };

    // Minimum degree
    let ghost before = reader@;
    let minimum_degree = read_minimum_degree(reader);
    proof {
        codec::lemma_suffix_trans(reader@, before, start);
    }
    let minimum_degree = match minimum_degree {
        Ok(minimum_degree) => minimum_degree,
        Err(e) => {
            return Err(e);
        },
    };

    Ok(Body { gates, permutation, lookups, constants, minimum_degree })
}

impl<F: PrimeField> ConstraintSystem<F> {
    /// Read constraint system from binary format.
    pub fn read(reader: &mut Reader<'_>) -> (r: Result<Self, ReadError>)
        ensures
            codec::reads_view(r, parse_system::<F>(old(reader)@), old(reader)@, final(reader)@),
    {
        let ghost start = reader@;
        let header = match read_header(reader) {
            Ok(header) => header,
            Err(e) => {
                return Err(e);
            },
        };
        let ghost before = reader@;
        let tables = read_tables(reader);
        proof {
            codec::lemma_suffix_trans(reader@, before, start);
        }
        let tables = match tables {
            Ok(tables) => tables,
            Err(e) => {
                return Err(e);
            },
        };
        let ghost before = reader@;
        let body = read_body::<F>(reader, &tables);
        proof {
            codec::lemma_suffix_trans(reader@, before, start);
        }
        let body = match body {
            Ok(body) => body,
            Err(e) => {
                return Err(e);
            },
        };

        Ok(
            ConstraintSystem {
                num_fixed_columns: header.num_fixed_columns,
                num_advice_columns: header.num_advice_columns,
                num_instance_columns: header.num_instance_columns,
                num_selectors: header.num_selectors,
                selector_map: tables.selector_map,
                gates: body.gates,
                advice_queries: tables.advice_queries,
                num_advice_queries: tables.num_advice_queries,
                instance_queries: tables.instance_queries,
                fixed_queries: tables.fixed_queries,
                permutation: body.permutation,
                lookups: body.lookups,
                constants: body.constants,
                minimum_degree: body.minimum_degree,
            },
        )
    }
}

// ---------------------------------------------------------------------------------
// What is written can be read back
// ---------------------------------------------------------------------------------

/// A fixed column is read back from its binary form.
proof fn lemma_fixed_columns_round_trip(columns: Seq<Column<Fixed>>, tail: Seq<u8>)
    requires
        columns.len() < 0x1_0000,
        forall|i: int| 0 <= i < columns.len() ==> (#[trigger] columns[i]).index < 0x1_0000,
    ensures
        codec::parse_counted(
            |s: Seq<u8>| parse_fixed(s),
            codec::encode_counted(columns, |column: Column<Fixed>| encode_fixed(column)) + tail,
        ) == Ok::<(Seq<Column<Fixed>>, Seq<u8>), ReadError>((columns, tail)),
{
    let encode = |column: Column<Fixed>| encode_fixed(column);
    let parse = |s: Seq<u8>| parse_fixed(s);
    assert forall|i: int| 0 <= i < columns.len() implies codec::round_trips(
        #[trigger] columns[i],
        encode,
        parse,
    ) by {
        let column = columns[i];
        assert forall|tail: Seq<u8>| #[trigger]
            parse(encode(column) + tail) == Ok::<(Column<Fixed>, Seq<u8>), ReadError>(
                (column, tail),
            ) by {
            codec::lemma_u16_round_trip(column.index as nat, tail);
            assert(column.column_type == Fixed);
        }
    }
    codec::lemma_counted_round_trip(columns, encode, parse, tail);
}

/// Queries are read back from their binary form.
proof fn lemma_queries_round_trip<C: ColumnType>(
    queries: Seq<(Column<C>, Rotation)>,
    column_type: C,
    tail: Seq<u8>,
)
    requires
        queries_encodable(queries),
        forall|i: int|
            0 <= i < queries.len() ==> (#[trigger] queries[i]).0.column_type == column_type,
    ensures
        codec::parse_counted(
            |s: Seq<u8>| parse_query(s, column_type),
            codec::encode_counted(queries, |query: (Column<C>, Rotation)| encode_query(query))
                + tail,
        ) == Ok::<(Seq<(Column<C>, Rotation)>, Seq<u8>), ReadError>((queries, tail)),
{
    let encode = |query: (Column<C>, Rotation)| encode_query(query);
    let parse = |s: Seq<u8>| parse_query(s, column_type);
    assert forall|i: int| 0 <= i < queries.len() implies codec::round_trips(
        #[trigger] queries[i],
        encode,
        parse,
    ) by {
        let query = queries[i];
        let rotation = codec::i32_le(query.1.0);
        assert forall|tail: Seq<u8>| #[trigger]
            parse(encode(query) + tail) == Ok::<((Column<C>, Rotation), Seq<u8>), ReadError>(
                (query, tail),
            ) by {
            assert(encode(query) + tail =~= codec::u16_le(query.0.index as nat) + (rotation
                + tail));
            codec::lemma_u16_round_trip(query.0.index as nat, rotation + tail);
            codec::lemma_i32_round_trip(query.1.0, tail);
        }
    }
    codec::lemma_counted_round_trip(queries, encode, parse, tail);
}

/// Counts are read back from their binary form.
proof fn lemma_counts_round_trip(counts: Seq<usize>, tail: Seq<u8>)
    requires
        counts.len() < 0x1_0000,
        forall|i: int| 0 <= i < counts.len() ==> (#[trigger] counts[i]) < 0x1_0000,
    ensures
        codec::parse_counted(
            |s: Seq<u8>| parse_count(s),
            codec::encode_counted(counts, |count: usize| encode_count(count)) + tail,
        ) == Ok::<(Seq<usize>, Seq<u8>), ReadError>((counts, tail)),
{
    let encode = |count: usize| encode_count(count);
    let parse = |s: Seq<u8>| parse_count(s);
    assert forall|i: int| 0 <= i < counts.len() implies codec::round_trips(
        #[trigger] counts[i],
        encode,
        parse,
    ) by {
        let count = counts[i];
        assert forall|tail: Seq<u8>| #[trigger]
            parse(encode(count) + tail) == Ok::<(usize, Seq<u8>), ReadError>((count, tail)) by {
            codec::lemma_u16_round_trip(count as nat, tail);
        }
    }
    codec::lemma_counted_round_trip(counts, encode, parse, tail);
}

/// The counts of a system are read back from their binary form.
pub proof fn lemma_header_round_trip(header: HeaderModel, num_gates: nat, tail: Seq<u8>)
    requires
        header.encodable(),
        num_gates < 0x1_0000,
    ensures
        parse_header(header.encode(num_gates) + tail) == Ok::<(HeaderModel, Seq<u8>), ReadError>(
            (header, tail),
        ),
{
    let gates = codec::u16_le(num_gates) + tail;
    let selectors = codec::u16_le(header.num_selectors) + gates;
    let instance = codec::u32_le(header.num_instance_columns) + selectors;
    let advice = codec::u32_le(header.num_advice_columns) + instance;
    codec::lemma_concat_5(
        codec::u32_le(header.num_fixed_columns),
        codec::u32_le(header.num_advice_columns),
        codec::u32_le(header.num_instance_columns),
        codec::u16_le(header.num_selectors),
        codec::u16_le(num_gates),
        tail,
    );
    codec::lemma_u32_round_trip(header.num_fixed_columns, advice);
    codec::lemma_u32_round_trip(header.num_advice_columns, instance);
    codec::lemma_u32_round_trip(header.num_instance_columns, selectors);
    codec::lemma_u16_round_trip(header.num_selectors, gates);
    codec::lemma_u16_round_trip(num_gates, tail);
}

/// The selector map and the queries are read back from their binary form.
pub proof fn lemma_tables_round_trip(tables: TablesModel, tail: Seq<u8>)
    requires
        tables.encodable(),
    ensures
        parse_tables(tables.encode() + tail) == Ok::<(TablesModel, Seq<u8>), ReadError>(
            (tables, tail),
        ),
{
    let map = codec::encode_counted(
        tables.selector_map,
        |column: Column<Fixed>| encode_fixed(column),
    );
    let advice = codec::encode_counted(
        tables.advice_queries,
        |query: (Column<Advice>, Rotation)| encode_query(query),
    );
    let instance = codec::encode_counted(
        tables.instance_queries,
        |query: (Column<Instance>, Rotation)| encode_query(query),
    );
    let fixed = codec::encode_counted(
        tables.fixed_queries,
        |query: (Column<Fixed>, Rotation)| encode_query(query),
    );
    let counts = codec::encode_counted(
        tables.num_advice_queries,
        |count: usize| encode_count(count),
    );
    codec::lemma_concat_5(map, advice, instance, fixed, counts, tail);
    lemma_fixed_columns_round_trip(
        tables.selector_map,
        advice + (instance + (fixed + (counts + tail))),
    );
    lemma_queries_round_trip(
        tables.advice_queries,
        Advice,
        instance + (fixed + (counts + tail)),
    );
    lemma_queries_round_trip(tables.instance_queries, Instance, fixed + (counts + tail));
    lemma_queries_round_trip(tables.fixed_queries, Fixed, counts + tail);
    lemma_counts_round_trip(tables.num_advice_queries, tail);
}

/// A minimum degree is read back from its binary form.
proof fn lemma_minimum_degree_round_trip(minimum_degree: Option<usize>, tail: Seq<u8>)
    requires
        minimum_degree matches Some(degree) ==> degree < 0x1_0000_0000,
    ensures
        parse_minimum_degree(encode_minimum_degree(minimum_degree) + tail) == Ok::<
            (Option<usize>, Seq<u8>),
            ReadError,
        >((minimum_degree, tail)),
{
    let s = encode_minimum_degree(minimum_degree) + tail;
    match minimum_degree {
        Some(degree) => {
            assert(s.skip(1) =~= codec::u32_le(degree as nat) + tail);
            codec::lemma_u32_round_trip(degree as nat, tail);
        },
        None => {
            assert(s.skip(1) =~= tail);
        },
    }
}

/// Gates are read back from their binary form.
proof fn lemma_gates_round_trip<F: PrimeField>(
    gates: Seq<gate::GateModel<F>>,
    queries: expression::Queries,
    tail: Seq<u8>,
)
    requires
        gates.len() < 0x1_0000,
        forall|i: int| 0 <= i < gates.len() ==> (#[trigger] gates[i]).encodable(queries),
    ensures
        codec::parse_counted(
            |s: Seq<u8>| gate::parse_gate::<F>(s, queries),
            codec::encode_counted(gates, |gate: gate::GateModel<F>| gate.encode()) + tail,
        ) == Ok::<(Seq<gate::GateModel<F>>, Seq<u8>), ReadError>((gates, tail)),
{
    let encode = |gate: gate::GateModel<F>| gate.encode();
    let parse = |s: Seq<u8>| gate::parse_gate::<F>(s, queries);
    assert forall|i: int| 0 <= i < gates.len() implies codec::round_trips(
        #[trigger] gates[i],
        encode,
        parse,
    ) by {
        let gate = gates[i];
        assert forall|tail: Seq<u8>| #[trigger]
            parse(encode(gate) + tail) == Ok::<(gate::GateModel<F>, Seq<u8>), ReadError>(
                (gate, tail),
            ) by {
            gate::lemma_gate_round_trip(gate, queries, tail);
        }
    }
    codec::lemma_counted_round_trip(gates, encode, parse, tail);
}

/// Lookup arguments are read back from their binary form.
proof fn lemma_lookups_round_trip<F: PrimeField>(
    lookups: Seq<lookup::ArgumentModel<F>>,
    queries: expression::Queries,
    tail: Seq<u8>,
)
    requires
        lookups.len() < 0x1_0000,
        forall|i: int| 0 <= i < lookups.len() ==> (#[trigger] lookups[i]).encodable(queries),
    ensures
        codec::parse_counted(
            |s: Seq<u8>| lookup::parse_argument::<F>(s, queries),
            codec::encode_counted(lookups, |lookup: lookup::ArgumentModel<F>| lookup.encode())
                + tail,
        ) == Ok::<(Seq<lookup::ArgumentModel<F>>, Seq<u8>), ReadError>((lookups, tail)),
{
    let encode = |lookup: lookup::ArgumentModel<F>| lookup.encode();
    let parse = |s: Seq<u8>| lookup::parse_argument::<F>(s, queries);
    assert forall|i: int| 0 <= i < lookups.len() implies codec::round_trips(
        #[trigger] lookups[i],
        encode,
        parse,
    ) by {
        let lookup = lookups[i];
        assert forall|tail: Seq<u8>| #[trigger]
            parse(encode(lookup) + tail) == Ok::<(lookup::ArgumentModel<F>, Seq<u8>), ReadError>(
                (lookup, tail),
            ) by {
            lookup::lemma_argument_round_trip(lookup, queries, tail);
        }
    }
    codec::lemma_counted_round_trip(lookups, encode, parse, tail);
}

/// The gates and the arguments are read back from their binary form.
pub proof fn lemma_body_round_trip<F: PrimeField>(
    body: BodyModel<F>,
    queries: expression::Queries,
    tail: Seq<u8>,
)
    requires
        body.encodable(queries),
    ensures
        parse_body::<F>(body.encode() + tail, queries) == Ok::<(BodyModel<F>, Seq<u8>), ReadError>(
            (body, tail),
        ),
{
    let gates = codec::encode_counted(body.gates, |gate: gate::GateModel<F>| gate.encode());
    let permutation = permutation::encode_argument(body.permutation);
    let lookups = codec::encode_counted(
        body.lookups,
        |lookup: lookup::ArgumentModel<F>| lookup.encode(),
    );
    let constants = codec::encode_counted(
        body.constants,
        |column: Column<Fixed>| encode_fixed(column),
    );
    let degree = encode_minimum_degree(body.minimum_degree);
    codec::lemma_concat_5(gates, permutation, lookups, constants, degree, tail);
    lemma_gates_round_trip(
        body.gates,
        queries,
        permutation + (lookups + (constants + (degree + tail))),
    );
    permutation::lemma_argument_round_trip(
        body.permutation,
        lookups + (constants + (degree + tail)),
    );
    lemma_lookups_round_trip(body.lookups, queries, constants + (degree + tail));
    lemma_fixed_columns_round_trip(body.constants, degree + tail);
    lemma_minimum_degree_round_trip(body.minimum_degree, tail);
}

/// A constraint system is read back from its binary form, whatever stands behind it.
pub proof fn lemma_system_round_trip<F: PrimeField>(
    cs: constraint_system::SystemModel<F>,
    tail: Seq<u8>,
)
    requires
        cs.encodable(),
    ensures
        parse_system::<F>(cs.encode() + tail) == Ok::<
            (constraint_system::SystemModel<F>, Seq<u8>),
            ReadError,
        >((cs, tail)),
{
    let body = cs.body().encode() + tail;
    let tables = cs.tables().encode() + body;
    codec::lemma_concat(
        cs.header().encode(cs.gates.len()),
        cs.tables().encode(),
        cs.body().encode(),
        tail,
    );
    lemma_header_round_trip(cs.header(), cs.gates.len(), tables);
    lemma_tables_round_trip(cs.tables(), body);
    lemma_body_round_trip(cs.body(), cs.tables().queries(), tail);
    assert(assembled(cs.header(), cs.tables(), cs.body()) =~= cs);
}

/// Queries that were read can be written and read back.
proof fn lemma_parsed_queries<C: ColumnType>(s: Seq<u8>, column_type: C)
    ensures
        codec::parse_counted(|s: Seq<u8>| parse_query(s, column_type), s) matches Ok((queries, _))
            ==> queries_encodable(queries),
{
    let parse = |s: Seq<u8>| parse_query(s, column_type);
    let good = |query: (Column<C>, Rotation)| query.0.index < 0x1_0000;
    codec::lemma_parsed_counted(parse, s, good);
    if let Ok((queries, _)) = codec::parse_counted(parse, s) {
        assert forall|i: int| 0 <= i < queries.len() implies (#[trigger] queries[i]).0.index
            < 0x1_0000 by {
            assert(good(queries[i]));
        }
    }
}

/// Fixed columns that were read can be written and read back.
proof fn lemma_parsed_fixed_columns(s: Seq<u8>)
    ensures
        codec::parse_counted(|s: Seq<u8>| parse_fixed(s), s) matches Ok((columns, _)) ==> {
            &&& columns.len() < 0x1_0000
            &&& forall|i: int| 0 <= i < columns.len() ==> (#[trigger] columns[i]).index < 0x1_0000
        },
{
    let parse = |s: Seq<u8>| parse_fixed(s);
    let good = |column: Column<Fixed>| column.index < 0x1_0000;
    codec::lemma_parsed_counted(parse, s, good);
    if let Ok((columns, _)) = codec::parse_counted(parse, s) {
        assert forall|i: int| 0 <= i < columns.len() implies (#[trigger] columns[i]).index
            < 0x1_0000 by {
            assert(good(columns[i]));
        }
    }
}

/// Tables that were read can be written and read back.
proof fn lemma_parsed_tables(s: Seq<u8>)
    ensures
        parse_tables(s) matches Ok((tables, _)) ==> tables.encodable(),
{
    lemma_parsed_fixed_columns(s);
    if let Ok((_, rest)) = codec::parse_counted(|s: Seq<u8>| parse_fixed(s), s) {
        lemma_parsed_queries(rest, Advice);
        if let Ok((_, rest)) = codec::parse_counted(|s: Seq<u8>| parse_query(s, Advice), rest) {
            lemma_parsed_queries(rest, Instance);
            if let Ok((_, rest)) = codec::parse_counted(
                |s: Seq<u8>| parse_query(s, Instance),
                rest,
            ) {
                lemma_parsed_queries(rest, Fixed);
                if let Ok((_, rest)) = codec::parse_counted(
                    |s: Seq<u8>| parse_query(s, Fixed),
                    rest,
                ) {
                    let parse = |s: Seq<u8>| parse_count(s);
                    let good = |count: usize| count < 0x1_0000;
                    codec::lemma_parsed_counted(parse, rest, good);
                    if let Ok((tables, _)) = parse_tables(s) {
                        assert forall|i: int| 0 <= i < tables.num_advice_queries.len() implies (
                        #[trigger] tables.num_advice_queries[i]) < 0x1_0000 by {
                            assert(good(tables.num_advice_queries[i]));
                        }
                    }
                }
            }
        }
    }
}

/// Gates and arguments that were read can be written and read back.
proof fn lemma_parsed_body<F: PrimeField>(s: Seq<u8>, queries: expression::Queries)
    ensures
        parse_body::<F>(s, queries) matches Ok((body, _)) ==> body.encodable(queries),
{
    let parse_g = |s: Seq<u8>| gate::parse_gate::<F>(s, queries);
    let good_g = |gate: gate::GateModel<F>| gate.encodable(queries);
    let parse_l = |s: Seq<u8>| lookup::parse_argument::<F>(s, queries);
    let good_l = |lookup: lookup::ArgumentModel<F>| lookup.encodable(queries);
    assert forall|s: Seq<u8>| (#[trigger] parse_g(s)) matches Ok((_, _)) implies good_g(
        parse_g(s)->Ok_0.0,
    ) by {
        gate::lemma_parsed_gate::<F>(s, queries);
    }
    assert forall|s: Seq<u8>| (#[trigger] parse_l(s)) matches Ok((_, _)) implies good_l(
        parse_l(s)->Ok_0.0,
    ) by {
        lookup::lemma_parsed_argument::<F>(s, queries);
    }
    codec::lemma_parsed_counted(parse_g, s, good_g);
    if let Ok((gates, rest)) = codec::parse_counted(parse_g, s) {
        permutation::lemma_parsed_argument(rest);
        if let Ok((_, rest)) = permutation::parse_argument(rest) {
            codec::lemma_parsed_counted(parse_l, rest, good_l);
            if let Ok((lookups, rest)) = codec::parse_counted(parse_l, rest) {
                lemma_parsed_fixed_columns(rest);
                assert forall|i: int| 0 <= i < gates.len() implies (
                #[trigger] gates[i]).encodable(queries) by {
                    assert(good_g(gates[i]));
                }
                assert forall|i: int| 0 <= i < lookups.len() implies (
                #[trigger] lookups[i]).encodable(queries) by {
                    assert(good_l(lookups[i]));
                }
            }
        }
    }
}

/// A constraint system that was read can be written and read back.
pub proof fn lemma_parsed_system<F: PrimeField>(s: Seq<u8>)
    ensures
        parse_system::<F>(s) matches Ok((cs, _)) ==> cs.encodable(),
{
    if let Ok((header, rest)) = parse_header(s) {
        lemma_parsed_tables(rest);
        if let Ok((tables, rest)) = parse_tables(rest) {
            lemma_parsed_body::<F>(rest, tables.queries());
            if let Ok((body, _)) = parse_body::<F>(rest, tables.queries()) {
                let cs = assembled(header, tables, body);
                assert(cs.header() =~= header);
                assert(cs.tables() =~= tables);
                assert(cs.body() =~= body);
            }
        }
    }
}

/// Reading, writing and reading again gives the same constraint system.
pub proof fn lemma_system_read_again<F: PrimeField>(s: Seq<u8>, tail: Seq<u8>)
    ensures
        parse_system::<F>(s) matches Ok((cs, _)) ==> parse_system::<F>(cs.encode() + tail) == Ok::<
            (constraint_system::SystemModel<F>, Seq<u8>),
            ReadError,
        >((cs, tail)),
{
    lemma_parsed_system::<F>(s);
    if let Ok((cs, _)) = parse_system::<F>(s) {
        lemma_system_round_trip(cs, tail);
    }
}

/// No two constraint systems share a binary form.
pub proof fn lemma_system_identified<F: PrimeField>(
    a: constraint_system::SystemModel<F>,
    b: constraint_system::SystemModel<F>,
)
    requires
        a.encodable(),
        b.encodable(),
        a.encode() == b.encode(),
    ensures
        a == b,
{
    lemma_system_round_trip(a, seq![]);
    lemma_system_round_trip(b, seq![]);
}

/// The expression that querying a column gives can be written and read back with the queries
/// of the system from then on, as long as the index of the query fits in two bytes; and so
/// can every expression that could be before.
pub proof fn lemma_query_encodable<F: PrimeField>(
    cs: constraint_system::SystemModel<F>,
    column: Column<Any>,
    at: Rotation,
    e: expression::Expression<F>,
)
    requires
        cs.any_query_index(column, at) < 0x1_0000,
        column.column_type == Any::Fixed ==> at == Rotation(0),
    ensures
        constraint_system::any_expression(cs, column, at).encodable(
            cs.with_any_query(column, at).tables().queries(),
        ),
        e.encodable(cs.tables().queries()) ==> e.encodable(
            cs.with_any_query(column, at).tables().queries(),
        ),
{
    let after = cs.with_any_query(column, at);
    let advice = (Column { column_type: Advice, index: column.index }, at);
    let fixed = (Column { column_type: Fixed, index: column.index }, at);
    let instance = (Column { column_type: Instance, index: column.index }, at);
    list::lemma_first_index(cs.advice_queries, advice);
    list::lemma_first_index(cs.fixed_queries, fixed);
    list::lemma_first_index(cs.instance_queries, instance);
    if e.encodable(cs.tables().queries()) {
        expression::lemma_encodable_with_more_queries(
            e,
            cs.tables().queries(),
            after.tables().queries(),
        );
    }
}

} // verus!
