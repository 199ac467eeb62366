//! The permutation argument, by which cells of different columns are constrained to be
//! equal.

use vstd::prelude::*;

use crate::codec;
use crate::codec::{ReadError, Reader};
use crate::column::{Any, Column};
use crate::curve;
use crate::curve::CurveAffine;
use crate::list;

verus! {

/// A permutation argument: the columns that take part in it, each once.
#[derive(Debug)]
pub struct Argument {
    /// The columns, in the order in which equality was enabled on them.
    pub columns: Vec<Column<Any>>,
}

impl View for Argument {
    type V = Seq<Column<Any>>;

    open spec fn view(&self) -> Seq<Column<Any>> {
        self.columns@
    }
}

impl Clone for Argument {
    fn clone(&self) -> (r: Self)
        ensures
            r@ == self@,
    {
        let columns = self.columns.clone();
        assert(columns@ =~= self.columns@);
        Argument { columns }
    }
}

impl Argument {
    /// A permutation argument in which no column takes part.
    pub fn new() -> (r: Self)
        ensures
            r@ == Seq::<Column<Any>>::empty(),
    {
        Argument { columns: Vec::new() }
    }

    /// The degree that the argument needs of the constraint system.
    pub fn required_degree(&self) -> (degree: usize)
        ensures
            degree == 3,
    {
        // The first value of each product polynomial is one, degree 2:
        // l_0(X) * (1 - z(X)) = 0
        //
        // Its last value is a boolean, degree 3:
        // l_last(X) * (z(X)^2 - z(X)) = 0
        //
        // Columns are put into as few product polynomials as the degree allows, and
        // three admits one column in each.
        3
    }

    /// Lets a column take part in the argument, unless it does already.
    pub fn add_column(&mut self, column: Column<Any>)
        ensures
            final(self)@ == list::with_item(old(self)@, column),
    {
        let mut i: usize = 0;
        while i < self.columns.len()
            invariant
                i <= self.columns@.len(),
                self.columns == old(self).columns,
                forall|j: int| 0 <= j < i ==> self.columns@[j] != column,
            decreases self.columns@.len() - i,
        {
            let other = self.columns[i];
            if other.index() == column.index() && *other.column_type() == *column.column_type() {
                assert(self.columns@[i as int] == column);
                return;
            }
            i = i + 1;
        }
        self.columns.push(column);
    }

    /// The columns that take part in the argument.
    pub fn get_columns(&self) -> (columns: Vec<Column<Any>>)
        ensures
            columns@ == self@,
    {
        let columns = self.columns.clone();
        assert(columns@ =~= self.columns@);
        columns
    }
}

// ---------------------------------------------------------------------------------
// Binary form
// ---------------------------------------------------------------------------------

/// The type of a column in one byte, then its index in two bytes.
pub open spec fn encode_column(column: Column<Any>) -> Seq<u8> {
    seq![column.column_type.tag()] + codec::u16_le(column.index as nat)
}

/// Reads a column. Its type is looked at when all of it has been read.
pub open spec fn parse_column(s: Seq<u8>) -> codec::Parsed<Column<Any>> {
    match codec::parse_u8(s) {
        Ok((tag, rest)) => match codec::parse_u16(rest) {
            Ok((index, rest)) => match Any::of_tag(tag) {
                Some(column_type) => Ok((Column { column_type, index: index as usize }, rest)),
                None => Err(ReadError::InvalidColumnType(tag)),
            },
            Err(e) => Err(e),
        },
        Err(e) => Err(e),
    }
}

/// The binary form of a permutation argument.
pub open spec fn encode_argument(columns: Seq<Column<Any>>) -> Seq<u8> {
    codec::encode_counted(columns, |v: Column<Any>| encode_column(v))
}

/// Reads a permutation argument.
pub open spec fn parse_argument(s: Seq<u8>) -> codec::Parsed<Seq<Column<Any>>> {
    codec::parse_counted(|s: Seq<u8>| parse_column(s), s)
}

/// States that the binary form of a permutation argument says all there is to say of it.
pub open spec fn encodable(columns: Seq<Column<Any>>) -> bool {
    &&& columns.len() < 0x1_0000
    &&& forall|i: int| 0 <= i < columns.len() ==> (#[trigger] columns[i]).index < 0x1_0000
}

/// Appends a column.
fn write_column(writer: &mut Vec<u8>, column: &Column<Any>)
    ensures
        final(writer)@ == old(writer)@ + encode_column(*column),
{
    writer.push(column.column_type().to_tag());
    codec::write_u16(writer, column.index());
    assert(writer@ =~= old(writer)@ + encode_column(*column));
}

/// Reads a column.
fn read_column(reader: &mut Reader<'_>) -> (r: Result<Column<Any>, ReadError>)
    ensures
        codec::reads(r, parse_column(old(reader)@), old(reader)@, final(reader)@),
{
    let ghost start = reader@;
    let tag = match codec::read_u8(reader) {
        Ok(tag) => tag,
        Err(e) => {
            return Err(e);
        },
    };
    let ghost typed = reader@;
    let index = codec::read_u16(reader);
    proof {
        codec::lemma_suffix_trans(reader@, typed, start);
    }
    match index {
        Ok(index) => match Any::from_tag(tag) {
            Some(column_type) => Ok(Column::new(index as usize, column_type)),
            None => Err(ReadError::InvalidColumnType(tag)),
        },
        Err(e) => Err(e),
    }
}

impl Argument {
    /// Writes this argument in binary form: the number of columns in two bytes, then the
    /// type of each column in one byte and its index in two bytes.
    pub fn write(&self, writer: &mut Vec<u8>)
        ensures
            final(writer)@ == old(writer)@ + encode_argument(self@),
    {
        let ghost same = |v: Column<Any>| v;
        let write_one = |x: &mut Vec<u8>, v: &Column<Any>|
            ensures
                final(x)@ == old(x)@ + encode_column(*v),
            {
                write_column(x, v);
            };
        codec::write_counted::<Column<Any>, Column<Any>, _>(
            writer,
            &self.columns,
            write_one,
            Ghost(same),
            Ghost(|v: Column<Any>| encode_column(v)),
        );
        assert(self.columns@.map_values(same) =~= self.columns@);
    }

    /// Reads an argument from its binary form.
    pub fn read(reader: &mut Reader<'_>) -> (r: Result<Self, ReadError>)
        ensures
            codec::reads_view(r, parse_argument(old(reader)@), old(reader)@, final(reader)@),
    {
        let ghost same = |v: Column<Any>| v;
        let read_one = |x: &mut Reader<'_>| -> (out: Result<Column<Any>, ReadError>)
            ensures
                codec::reads(out, parse_column(old(x)@), old(x)@, final(x)@),
            { read_column(x) };
        let columns = codec::read_counted::<Column<Any>, Column<Any>, _>(
            reader,
            read_one,
            Ghost(same),
            Ghost(|s: Seq<u8>| parse_column(s)),
        );
        match columns {
            Ok(columns) => {
                assert(columns@.map_values(same) =~= columns@);
                Ok(Argument { columns })
            },
            Err(e) => Err(e),
        }
    }
}

/// A permutation argument is read back from its binary form, whatever stands behind it.
pub proof fn lemma_argument_round_trip(columns: Seq<Column<Any>>, tail: Seq<u8>)
    requires
        encodable(columns),
    ensures
        parse_argument(encode_argument(columns) + tail) == Ok::<
            (Seq<Column<Any>>, Seq<u8>),
            ReadError,
        >((columns, tail)),
{
    let encode = |v: Column<Any>| encode_column(v);
    let parse = |s: Seq<u8>| parse_column(s);
    assert forall|i: int| 0 <= i < columns.len() implies codec::round_trips(
        #[trigger] columns[i],
        encode,
        parse,
    ) by {
        let column = columns[i];
        let index = codec::u16_le(column.index as nat);
        assert forall|tail: Seq<u8>| #[trigger]
            parse(encode(column) + tail) == Ok::<(Column<Any>, Seq<u8>), ReadError>(
                (column, tail),
            ) by {
            assert((encode(column) + tail).skip(1) =~= index + tail);
            codec::lemma_u16_round_trip(column.index as nat, tail);
        }
    }
    codec::lemma_counted_round_trip(columns, encode, parse, tail);
}

/// A permutation argument that was read can be written and read back.
pub proof fn lemma_parsed_argument(s: Seq<u8>)
    ensures
        parse_argument(s) matches Ok((columns, _)) ==> encodable(columns),
{
    let parse = |s: Seq<u8>| parse_column(s);
    let good = |v: Column<Any>| v.index < 0x1_0000;
    codec::lemma_parsed_counted(parse, s, good);
    if let Ok((columns, _)) = parse_argument(s) {
        assert forall|i: int| 0 <= i < columns.len() implies (#[trigger] columns[i]).index
            < 0x1_0000 by {
            assert(good(columns[i]));
        }
    }
}

// ---------------------------------------------------------------------------------
// Verifying key
// ---------------------------------------------------------------------------------

/// The part of a verifying key that belongs to the permutation argument: one commitment for
/// each column that takes part in it.
#[derive(Debug)]
pub struct VerifyingKey<C: CurveAffine> {
    /// The commitments, in the order of the columns.
    pub commitments: Vec<C>,
}

impl<C: CurveAffine> View for VerifyingKey<C> {
    type V = Seq<C>;

    open spec fn view(&self) -> Seq<C> {
        self.commitments@
    }
}

impl<C: CurveAffine> Clone for VerifyingKey<C> {
    fn clone(&self) -> (r: Self)
        ensures
            r@ == self@,
    {
        VerifyingKey { commitments: list::copied(&self.commitments) }
    }
}

/// Points in compressed form, one after the other.
pub open spec fn encode_points<C: CurveAffine>(points: Seq<C>) -> Seq<u8> {
    codec::encode_list(points, |p: C| p.encoding())
}

/// Reads `n` compressed points.
pub open spec fn parse_points<C: CurveAffine>(n: nat, s: Seq<u8>) -> codec::Parsed<Seq<C>> {
    codec::parse_list(n, |s: Seq<u8>| curve::parse_point::<C>(s), s)
}

/// Appends points in compressed form.
pub(crate) fn write_points<C: CurveAffine>(writer: &mut Vec<u8>, points: &Vec<C>)
    ensures
        final(writer)@ == old(writer)@ + encode_points(points@),
{
    let ghost same = |p: C| p;
    let write_one = |x: &mut Vec<u8>, p: &C|
        ensures
            final(x)@ == old(x)@ + p.encoding(),
        {
            codec::write_all(x, p.to_bytes().as_slice());
        };
    codec::write_list::<C, C, _>(
        writer,
        points,
        write_one,
        Ghost(same),
        Ghost(|p: C| p.encoding()),
    );
    assert(points@.map_values(same) =~= points@);
}

/// Reads `n` compressed points.
pub(crate) fn read_points<C: CurveAffine>(reader: &mut Reader<'_>, n: usize) -> (r: Result<
    Vec<C>,
    ReadError,
>)
    ensures
        codec::reads_view(
            r,
            parse_points::<C>(n as nat, old(reader)@),
            old(reader)@,
            final(reader)@,
        ),
{
    let ghost same = |p: C| p;
    let read_one = |x: &mut Reader<'_>| -> (out: Result<C, ReadError>)
        ensures
            codec::reads(out, curve::parse_point::<C>(old(x)@), old(x)@, final(x)@),
        { curve::read_point::<C>(x) };
    let r = codec::read_list::<C, C, _>(
        reader,
        n,
        read_one,
        Ghost(same),
        Ghost(|s: Seq<u8>| curve::parse_point::<C>(s)),
    );
    proof {
        if let Ok(points) = &r {
            assert(points@.map_values(same) =~= points@);
        }
    }
    r
}

/// Points are read back from their compressed form, whatever stands behind them.
pub proof fn lemma_points_round_trip<C: CurveAffine>(points: Seq<C>, tail: Seq<u8>)
    requires
        forall|i: int| 0 <= i < points.len() ==> (#[trigger] points[i]).wf(),
    ensures
        parse_points::<C>(points.len(), encode_points(points) + tail) == Ok::<
            (Seq<C>, Seq<u8>),
            ReadError,
        >((points, tail)),
{
    let encode = |p: C| p.encoding();
    let parse = |s: Seq<u8>| curve::parse_point::<C>(s);
    assert forall|i: int| 0 <= i < points.len() implies codec::round_trips(
        #[trigger] points[i],
        encode,
        parse,
    ) by {
        let p = points[i];
        assert forall|tail: Seq<u8>| #[trigger]
            parse(encode(p) + tail) == Ok::<(C, Seq<u8>), ReadError>((p, tail)) by {
            curve::lemma_point_round_trip(p, tail);
        }
    }
    codec::lemma_list_round_trip(points, encode, parse, tail);
}

impl<C: CurveAffine> VerifyingKey<C> {
    /// Writes the commitments in compressed form, one after the other.
    pub fn write(&self, writer: &mut Vec<u8>)
        ensures
            final(writer)@ == old(writer)@ + encode_points(self@),
    {
        write_points(writer, &self.commitments);
    }

    /// Reads one commitment for each column of the argument.
    pub fn read(reader: &mut Reader<'_>, argument: &Argument) -> (r: Result<Self, ReadError>)
        ensures
            codec::reads_view(
                r,
                parse_points::<C>(argument@.len(), old(reader)@),
                old(reader)@,
                final(reader)@,
            ),
    {
        match read_points::<C>(reader, argument.columns.len()) {
            Ok(commitments) => Ok(VerifyingKey { commitments }),
            Err(e) => Err(e),
        }
    }
}

} // verus!
