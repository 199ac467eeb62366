//! The lookup argument, by which tuples of expressions are constrained to be found in a
//! table.

use vstd::prelude::*;

use crate::codec;
use crate::codec::{ReadError, Reader};
use crate::column::{Advice, Column, Fixed, Instance};
use crate::expression;
use crate::expression::Expression;
use crate::field::PrimeField;
use crate::rotation::Rotation;

verus! {

/// A lookup argument: a sequence of input expressions and a sequence of table expressions.
#[derive(Debug)]
pub struct Argument<F> {
    /// The expressions that are looked up.
    pub input_expressions: Vec<Expression<F>>,
    /// The expressions in which they are looked up.
    pub table_expressions: Vec<Expression<F>>,
}

/// What a lookup argument holds.
#[verifier::ext_equal]
pub struct ArgumentModel<F> {
    /// The expressions that are looked up.
    pub inputs: Seq<Expression<F>>,
    /// The expressions in which they are looked up.
    pub tables: Seq<Expression<F>>,
}

impl<F> View for Argument<F> {
    type V = ArgumentModel<F>;

    open spec fn view(&self) -> ArgumentModel<F> {
        ArgumentModel { inputs: self.input_expressions@, tables: self.table_expressions@ }
    }
}

impl<F: Copy> Clone for Argument<F> {
    fn clone(&self) -> (r: Self)
        ensures
            r@ == self@,
    {
        let r = Argument {
            input_expressions: self.input_expressions.clone(),
            table_expressions: self.table_expressions.clone(),
        };
        assert(r.input_expressions@ =~= self.input_expressions@);
        assert(r.table_expressions@ =~= self.table_expressions@);
        r
    }
}

impl<F> ArgumentModel<F> {
    /// States that every input has its table.
    pub open spec fn paired(self) -> bool {
        self.inputs.len() == self.tables.len()
    }

    /// The degree that the argument needs of the constraint system.
    pub open spec fn required_degree(self) -> nat {
        expression::max_nat(
            4,
            2 + expression::max_degree(self.inputs, 1) + expression::max_degree(self.tables, 1),
        )
    }
}

impl<F> Argument<F> {
    /// Constructs a new lookup argument.
    ///
    /// `table_map` is a sequence of `(input, table)` tuples.
    pub fn new(table_map: Vec<(Expression<F>, Expression<F>)>) -> (r: Self)
        ensures
            r@.inputs == table_map@.map_values(|e: (Expression<F>, Expression<F>)| e.0),
            r@.tables == table_map@.map_values(|e: (Expression<F>, Expression<F>)| e.1),
            r@.paired(),
    {
        let ghost given = table_map@;
        let ghost first = |e: (Expression<F>, Expression<F>)| e.0;
        let ghost second = |e: (Expression<F>, Expression<F>)| e.1;
        let mut input_expressions: Vec<Expression<F>> = Vec::new();
        let mut table_expressions: Vec<Expression<F>> = Vec::new();
        for e in it: table_map
            invariant
                it.seq() == given,
                first == (|e: (Expression<F>, Expression<F>)| e.0),
                second == (|e: (Expression<F>, Expression<F>)| e.1),
                input_expressions@ == given.take(it.index()).map_values(first),
                table_expressions@ == given.take(it.index()).map_values(second),
        {
            let (input, table) = e;
            input_expressions.push(input);
            table_expressions.push(table);
            assert(input_expressions@ =~= given.take(it.index() + 1).map_values(first));
            assert(table_expressions@ =~= given.take(it.index() + 1).map_values(second));
        }
        assert(given.take(given.len() as int) =~= given);
        Argument { input_expressions, table_expressions }
    }
}

impl<F: Copy> Argument<F> {
    /// The degree that the argument needs of the constraint system.
    pub fn required_degree(&self) -> (degree: usize)
        requires
            self@.paired(),
            self@.required_degree() <= usize::MAX,
        ensures
            degree == self@.required_degree(),
    {
        // The first value in the permutation poly should be one.
        // degree 2:
        // l_0(X) * (1 - z(X)) = 0
        //
        // The "last" value in the permutation poly should be a boolean, for
        // completeness and soundness.
        // degree 3:
        // l_last(X) * (z(X)^2 - z(X)) = 0
        //
        // Enable the permutation argument for only the rows involved.
        // degree (2 + input_degree + table_degree) or 4, whichever is larger:
        // (1 - (l_last(X) + l_blind(X))) * (
        //   z(\omega X) (a'(X) + \beta) (s'(X) + \gamma)
        //   - z(X) (\theta^{m-1} a_0(X) + ... + a_{m-1}(X) + \beta)
        //          (\theta^{m-1} s_0(X) + ... + s_{m-1}(X) + \gamma)
        // ) = 0
        //
        // The first two values of a' and s' should be the same.
        // degree 2:
        // l_0(X) * (a'(X) - s'(X)) = 0
        //
        // Either the two values are the same, or the previous
        // value of a' is the same as the current value.
        // degree 3:
        // (1 - (l_last(X) + l_blind(X))) * (a'(X) - s'(X)) * (a'(X) - a'(\omega^{-1} X)) = 0
        let input_degree = expression::largest_degree(self.input_expressions.as_slice(), 1);
        let table_degree = expression::largest_degree(self.table_expressions.as_slice(), 1);

        // Because both degrees are at least one, the latter is at least 4 always, and the
        // former stands here to be explicit.
        expression::max(4, 2 + input_degree + table_degree)
    }
}

impl<F: Copy> Argument<F> {
    /// The degree that the argument needs of the constraint system, unless an input has no
    /// table or the degree is too large to be represented.
    pub fn checked_required_degree(&self) -> (degree: Option<usize>)
        ensures
            match degree {
                Some(degree) => self@.paired() && degree == self@.required_degree(),
                None => !self@.paired() || self@.required_degree() > usize::MAX,
            },
    {
        if self.input_expressions.len() != self.table_expressions.len() {
            return None;
        }
        let inputs = self.input_expressions.as_slice();
        let tables = self.table_expressions.as_slice();
        match (
            expression::checked_largest_degree(inputs, 1),
            expression::checked_largest_degree(tables, 1),
        ) {
            (Some(input_degree), Some(table_degree)) => match input_degree.checked_add(
                table_degree,
            ) {
                Some(sum) => match sum.checked_add(2) {
                    Some(degree) => Some(expression::max(4, degree)),
                    None => None,
                },
                None => None,
            },
            _ => None,
        }
    }
}

/// A lookup argument needs degree 4 at least, and more than the degrees of any of its
/// inputs and any of its tables together.
pub proof fn lemma_required_degree<F>(argument: ArgumentModel<F>, i: int, j: int)
    requires
        0 <= i < argument.inputs.len(),
        0 <= j < argument.tables.len(),
    ensures
        argument.required_degree() >= 4,
        argument.required_degree() >= 2 + argument.inputs[i].degree_spec()
            + argument.tables[j].degree_spec(),
{
    expression::lemma_max_degree(argument.inputs, 1);
    expression::lemma_max_degree(argument.tables, 1);
}

// ---------------------------------------------------------------------------------
// Binary form
// ---------------------------------------------------------------------------------

impl<F: PrimeField> ArgumentModel<F> {
    /// The binary form of this argument.
    pub open spec fn encode(self) -> Seq<u8> {
        codec::encode_counted(self.inputs, |e: Expression<F>| e.encode()) + codec::encode_counted(
            self.tables,
            |e: Expression<F>| e.encode(),
        )
    }

    /// States that the binary form of this argument says all there is to say of it where
    /// the queries are `queries`.
    pub open spec fn encodable(self, queries: expression::Queries) -> bool {
        &&& self.inputs.len() < 0x1_0000
        &&& forall|i: int| 0 <= i < self.inputs.len() ==> (#[trigger] self.inputs[i]).encodable(
            queries,
        )
        &&& self.tables.len() < 0x1_0000
        &&& forall|i: int| 0 <= i < self.tables.len() ==> (#[trigger] self.tables[i]).encodable(
            queries,
        )
    }
}

/// Reads a lookup argument.
pub open spec fn parse_argument<F: PrimeField>(
    s: Seq<u8>,
    queries: expression::Queries,
) -> codec::Parsed<ArgumentModel<F>> {
    match codec::parse_counted(|s: Seq<u8>| expression::parse_expression::<F>(s, queries), s) {
        Ok((inputs, rest)) => match codec::parse_counted(
            |s: Seq<u8>| expression::parse_expression::<F>(s, queries),
            rest,
        ) {
            Ok((tables, rest)) => Ok((ArgumentModel { inputs, tables }, rest)),
            Err(e) => Err(e),
        },
        Err(e) => Err(e),
    }
}

/// Appends the number of expressions in two bytes, then the expressions.
fn write_expressions<F: PrimeField>(writer: &mut Vec<u8>, exprs: &Vec<Expression<F>>)
    ensures
        final(writer)@ == old(writer)@ + codec::encode_counted(
            exprs@,
            |e: Expression<F>| e.encode(),
        ),
{
    let ghost same = |e: Expression<F>| e;
    let write_one = |x: &mut Vec<u8>, e: &Expression<F>|
        ensures
            final(x)@ == old(x)@ + e.encode(),
        {
            e.write(x);
        };
    codec::write_counted::<Expression<F>, Expression<F>, _>(
        writer,
        exprs,
        write_one,
        Ghost(same),
        Ghost(|e: Expression<F>| e.encode()),
    );
    assert(exprs@.map_values(same) =~= exprs@);
}

/// Reads the number of expressions in two bytes, then the expressions.
fn read_expressions<F: PrimeField>(
    reader: &mut Reader<'_>,
    fixed_queries: &[(Column<Fixed>, Rotation)],
    advice_queries: &[(Column<Advice>, Rotation)],
    instance_queries: &[(Column<Instance>, Rotation)],
) -> (r: Result<Vec<Expression<F>>, ReadError>)
    ensures
        codec::reads_view(
            r,
            codec::parse_counted(
                |s: Seq<u8>|
                    expression::parse_expression::<F>(
                        s,
                        expression::queries_of(fixed_queries, advice_queries, instance_queries),
                    ),
                old(reader)@,
            ),
            old(reader)@,
            final(reader)@,
        ),
{
    let ghost same = |e: Expression<F>| e;
    let read_one = |x: &mut Reader<'_>| -> (out: Result<Expression<F>, ReadError>)
        ensures
            codec::reads(
                out,
                expression::parse_expression::<F>(
                    old(x)@,
                    expression::queries_of(fixed_queries, advice_queries, instance_queries),
                ),
                old(x)@,
                final(x)@,
            ),
        { Expression::read(x, fixed_queries, advice_queries, instance_queries) };
    let r = codec::read_counted::<Expression<F>, Expression<F>, _>(
        reader,
        read_one,
        Ghost(same),
        Ghost(
            |s: Seq<u8>|
                expression::parse_expression::<F>(
                    s,
                    expression::queries_of(fixed_queries, advice_queries, instance_queries),
                ),
        ),
    );
    proof {
        if let Ok(exprs) = &r {
            assert(exprs@.map_values(same) =~= exprs@);
        }
    }
    r
}

impl<F: PrimeField> Argument<F> {
    /// Writes this argument in binary form: the number of inputs in two bytes and the
    /// inputs, then the number of tables in two bytes and the tables.
    pub fn write(&self, writer: &mut Vec<u8>)
        ensures
            final(writer)@ == old(writer)@ + self@.encode(),
    {
        write_expressions(writer, &self.input_expressions);
        write_expressions(writer, &self.table_expressions);
        assert(writer@ =~= old(writer)@ + self@.encode());
    }

    /// Reads an argument from its binary form.
    pub fn read(
        reader: &mut Reader<'_>,
        fixed_queries: &[(Column<Fixed>, Rotation)],
        advice_queries: &[(Column<Advice>, Rotation)],
        instance_queries: &[(Column<Instance>, Rotation)],
    ) -> (r: Result<Self, ReadError>)
        ensures
            codec::reads_view(
                r,
                parse_argument::<F>(
                    old(reader)@,
                    expression::queries_of(fixed_queries, advice_queries, instance_queries),
                ),
                old(reader)@,
                final(reader)@,
            ),
    {
        let ghost start = reader@;
        let input_expressions = match read_expressions::<F>(
            reader,
            fixed_queries,
            advice_queries,
            instance_queries,
        ) {
            Ok(input_expressions) => input_expressions,
            Err(e) => {
                return Err(e);
            },
        };
        let ghost middle = reader@;
        let table_expressions = read_expressions::<F>(
            reader,
            fixed_queries,
            advice_queries,
            instance_queries,
        );
        proof {
            codec::lemma_suffix_trans(reader@, middle, start);
        }
        match table_expressions {
            Ok(table_expressions) => Ok(Argument { input_expressions, table_expressions }),
            Err(e) => Err(e),
        }
    }
}

/// A lookup argument is read back from its binary form, whatever stands behind it.
pub proof fn lemma_argument_round_trip<F: PrimeField>(
    argument: ArgumentModel<F>,
    queries: expression::Queries,
    tail: Seq<u8>,
)
    requires
        argument.encodable(queries),
    ensures
        parse_argument::<F>(argument.encode() + tail, queries) == Ok::<
            (ArgumentModel<F>, Seq<u8>),
            ReadError,
        >((argument, tail)),
{
    let encode = |e: Expression<F>| e.encode();
    let parse = |s: Seq<u8>| expression::parse_expression::<F>(s, queries);
    assert forall|e: Expression<F>| #[trigger] e.encodable(queries) implies codec::round_trips(
        e,
        encode,
        parse,
    ) by {
        assert forall|tail: Seq<u8>| #[trigger]
            parse(encode(e) + tail) == Ok::<(Expression<F>, Seq<u8>), ReadError>((e, tail)) by {
            expression::lemma_expression_round_trip(e, queries, tail);
        }
    }
    let tables = codec::encode_counted(argument.tables, encode) + tail;
    assert(argument.encode() + tail =~= codec::encode_counted(argument.inputs, encode) + tables);
    codec::lemma_counted_round_trip(argument.inputs, encode, parse, tables);
    codec::lemma_counted_round_trip(argument.tables, encode, parse, tail);
}

/// A lookup argument that was read can be written and read back.
pub proof fn lemma_parsed_argument<F: PrimeField>(s: Seq<u8>, queries: expression::Queries)
    ensures
        parse_argument::<F>(s, queries) matches Ok((argument, _)) ==> argument.encodable(queries),
{
    let parse = |s: Seq<u8>| expression::parse_expression::<F>(s, queries);
    let good = |e: Expression<F>| e.encodable(queries);
    assert forall|s: Seq<u8>| (#[trigger] parse(s)) matches Ok((e, _)) implies good(
        parse(s)->Ok_0.0,
    ) by {
        expression::lemma_parsed_expression::<F>(s, queries);
    }
    codec::lemma_parsed_counted(parse, s, good);
    if let Ok((inputs, rest)) = codec::parse_counted(parse, s) {
        codec::lemma_parsed_counted(parse, rest, good);
        if let Ok((argument, _)) = parse_argument::<F>(s, queries) {
            assert forall|i: int| 0 <= i < argument.inputs.len() implies (
            #[trigger] argument.inputs[i]).encodable(queries) by {
                assert(good(argument.inputs[i]));
            }
            assert forall|i: int| 0 <= i < argument.tables.len() implies (
            #[trigger] argument.tables[i]).encodable(queries) by {
                assert(good(argument.tables[i]));
            }
        }
    }
}

} // verus!
