//! How the operations of the library relate to each other: what a call returns, given what other
//! calls returned.

use vstd::prelude::*;

use crate::bits;
use crate::codec;
use crate::codec::{ReadError, Reader};
use crate::column::{Advice, Any, Column, ColumnType, Fixed, Instance};
use crate::constraint_system;
use crate::constraint_system::{ConstraintSystem, TableColumn, VirtualCells};
use crate::curve::CurveAffine;
use crate::domain::{EvaluationDomain, Params};
use crate::expression;
use crate::expression::{Expression, Selector};
use crate::field::PrimeField;
use crate::gate::{Constraint, Constraints, Gate, IntoConstraints, VirtualCell};
use crate::laws;
use crate::layout;
use crate::list;
use crate::lookup;
use crate::permutation;
use crate::rotation::Rotation;
use crate::system_codec;
use crate::verifying_key;
use crate::verifying_key::{ProvingKey, VerifyingKey};

verus! {

// ---------------------------------------------------------------------------------
// Expressions
// ---------------------------------------------------------------------------------

/// The degree of a sum and of a difference is the larger of the degrees of their operands, that
/// of a product their sum, and neither negation nor scaling changes the degree.
pub proof fn lemma_operators_degree<F: Copy>(
    a: Expression<F>,
    b: Expression<F>,
    f: F,
    results: (Expression<F>, Expression<F>, Expression<F>, Expression<F>, Expression<F>),
    degrees: (usize, usize),
    of_results: (usize, usize, usize, usize, usize),
)
    requires
        call_ensures(<Expression<F> as core::ops::Add>::add, (a, b), results.0),
        call_ensures(<Expression<F> as core::ops::Sub>::sub, (a, b), results.1),
        call_ensures(<Expression<F> as core::ops::Mul>::mul, (a, b), results.2),
        call_ensures(<Expression<F> as core::ops::Mul<F>>::mul, (a, f), results.3),
        call_ensures(<Expression<F> as core::ops::Neg>::neg, (a,), results.4),
        call_ensures(Expression::<F>::degree, (&a,), degrees.0),
        call_ensures(Expression::<F>::degree, (&b,), degrees.1),
        call_ensures(Expression::<F>::degree, (&results.0,), of_results.0),
        call_ensures(Expression::<F>::degree, (&results.1,), of_results.1),
        call_ensures(Expression::<F>::degree, (&results.2,), of_results.2),
        call_ensures(Expression::<F>::degree, (&results.3,), of_results.3),
        call_ensures(Expression::<F>::degree, (&results.4,), of_results.4),
    ensures
        degrees.0 <= degrees.1 ==> of_results.0 == degrees.1 && of_results.1 == degrees.1,
        degrees.0 >= degrees.1 ==> of_results.0 == degrees.0 && of_results.1 == degrees.0,
        of_results.2 == degrees.0 + degrees.1,
        of_results.3 == degrees.0,
        of_results.4 == degrees.0,
{
    reveal_with_fuel(Expression::degree_spec, 3);
}

/// The square of an expression is the product of the expression with itself, and has twice its
/// degree.
pub proof fn lemma_square_is_product<F: Copy>(
    a: Expression<F>,
    square: Expression<F>,
    product: Expression<F>,
    degree: usize,
    of_square: usize,
)
    requires
        call_ensures(Expression::<F>::square, (a,), square),
        call_ensures(<Expression<F> as core::ops::Mul>::mul, (a, a), product),
        call_ensures(Expression::<F>::degree, (&a,), degree),
        call_ensures(Expression::<F>::degree, (&square,), of_square),
    ensures
        square == product,
        of_square == 2 * degree,
{
}

/// The degree of an expression is the same whether it may be too large to be represented or not.
pub proof fn lemma_degrees_agree<F: Copy>(e: Expression<F>, degree: usize, checked: Option<usize>)
    requires
        call_ensures(Expression::<F>::degree, (&e,), degree),
        call_ensures(Expression::<F>::checked_degree, (&e,), checked),
    ensures
        checked == Some(degree),
{
}

/// An expression contains a simple selector exactly if one can be extracted from it, which is
/// then simple and one of its selectors.
pub proof fn lemma_extracted<F: Copy>(
    e: Expression<F>,
    contains: bool,
    extracted: Option<Selector>,
)
    requires
        call_ensures(Expression::<F>::contains_simple_selector, (&e,), contains),
        call_ensures(Expression::<F>::extract_simple_selector, (&e,), extracted),
    ensures
        contains <==> extracted is Some,
        contains <==> (exists|s: Selector| s.1 && #[trigger] e.selectors().contains(s)),
        extracted matches Some(s) ==> s.1 && e.selectors().contains(s),
{
    laws::lemma_simple_contained(e);
    if e.simple_selectors().len() > 0 {
        let s = e.simple_selectors()[0];
        assert(e.simple_selectors().contains(s));
        assert(s.1 && e.selectors().contains(s));
    }
}

// ---------------------------------------------------------------------------------
// Degree, rows and counts of a system
// ---------------------------------------------------------------------------------

/// A system needs three rows more than it has blinding factors, and there are two more of them
/// than the largest of 3 and the query counts of the advice columns.
pub proof fn lemma_rows<F: Copy>(
    cs: ConstraintSystem<F>,
    rows: usize,
    factors: usize,
    bound: nat,
)
    requires
        call_ensures(ConstraintSystem::<F>::minimum_rows, (&cs,), rows),
        call_ensures(ConstraintSystem::<F>::blinding_factors, (&cs,), factors),
    ensures
        rows == factors + 3,
        factors >= 5,
        forall|c: int|
            0 <= c < cs.num_advice_queries@.len() ==> factors >= 2
                + #[trigger] cs.num_advice_queries@[c],
        bound >= 3 && (forall|c: int|
            0 <= c < cs.num_advice_queries@.len() ==> #[trigger] cs.num_advice_queries@[c]
                <= bound) ==> factors <= bound + 2,
{
    laws::lemma_blinding_factors_least(cs@, bound);
}

/// The degree of a system is at least that of each polynomial of each gate, that of each lookup
/// argument and that of the permutation argument, and no larger than it has to be.
pub proof fn lemma_degree_of_parts<F: Copy>(
    cs: ConstraintSystem<F>,
    degree: usize,
    checked: Option<usize>,
    of_permutation: usize,
    bound: usize,
)
    requires
        call_ensures(ConstraintSystem::<F>::degree, (&cs,), degree),
        call_ensures(ConstraintSystem::<F>::checked_degree, (&cs,), checked),
        call_ensures(permutation::Argument::required_degree, (&cs.permutation,), of_permutation),
    ensures
        of_permutation <= degree,
        checked == Some(degree) || !cs@.lookups_paired(),
        cs.minimum_degree matches Some(d) ==> d <= degree,
        forall|g: int, j: int, d: usize|
            0 <= g < cs.gates@.len() && 0 <= j < cs.gates@[g].polys@.len()
                && #[trigger] call_ensures(
                Expression::<F>::degree,
                (&cs.gates@[g].polys@[j],),
                d,
            ) ==> d <= degree,
        forall|l: int, d: usize|
            0 <= l < cs.lookups@.len() && #[trigger] call_ensures(
                lookup::Argument::<F>::required_degree,
                (&cs.lookups@[l],),
                d,
            ) ==> d <= degree,
        of_permutation <= bound && (cs.minimum_degree matches Some(d) ==> d <= bound) && (forall|
            g: int,
            j: int,
        |
            0 <= g < cs.gates@.len() && 0 <= j < cs.gates@[g].polys@.len() ==> (
            #[trigger] cs.gates@[g].polys@[j]).degree_spec() <= bound) && (forall|l: int|
            0 <= l < cs.lookups@.len() ==> (#[trigger] cs.lookups@[l])@.required_degree() <= bound)
            ==> degree <= bound,
{
    constraint_system::lemma_degree(cs@);
    assert forall|g: int, j: int, d: usize|
        0 <= g < cs.gates@.len() && 0 <= j < cs.gates@[g].polys@.len() && #[trigger] call_ensures(
            Expression::<F>::degree,
            (&cs.gates@[g].polys@[j],),
            d,
        ) implies d <= degree by {
        assert(cs@.gates[g].polys[j] == cs.gates@[g].polys@[j]);
    }
    assert forall|l: int, d: usize|
        0 <= l < cs.lookups@.len() && #[trigger] call_ensures(
            lookup::Argument::<F>::required_degree,
            (&cs.lookups@[l],),
            d,
        ) implies d <= degree by {
        assert(cs@.lookups[l] == cs.lookups@[l]@);
    }
    if of_permutation <= bound && (cs.minimum_degree matches Some(d) ==> d <= bound) && (forall|
        g: int,
        j: int,
    |
        0 <= g < cs.gates@.len() && 0 <= j < cs.gates@[g].polys@.len() ==> (
        #[trigger] cs.gates@[g].polys@[j]).degree_spec() <= bound) && (forall|l: int|
        0 <= l < cs.lookups@.len() ==> (#[trigger] cs.lookups@[l])@.required_degree() <= bound) {
        assert forall|g: int, j: int|
            0 <= g < cs@.gates.len() && 0 <= j < cs@.gates[g].polys.len() implies (
        #[trigger] cs@.gates[g].polys[j]).degree_spec() <= bound by {
            assert(cs@.gates[g].polys[j] == cs.gates@[g].polys@[j]);
        }
        assert forall|l: int| 0 <= l < cs@.lookups.len() implies (
        #[trigger] cs@.lookups[l]).required_degree() <= bound by {
            assert(cs@.lookups[l] == cs.lookups@[l]@);
        }
        laws::lemma_degree_least(cs@, bound as nat);
    }
}

/// The counts of a system that are returned are those of its fields, in as many bytes as there
/// are.
pub proof fn lemma_counts_returned<F: Copy>(
    cs: ConstraintSystem<F>,
    instance: u8,
    fixed: u8,
    selectors: u32,
    advice: u8,
    gates: usize,
    columns: Vec<Column<Any>>,
)
    requires
        call_ensures(ConstraintSystem::<F>::get_num_instance_columns, (&cs,), instance),
        call_ensures(ConstraintSystem::<F>::get_num_fixed_columns, (&cs,), fixed),
        call_ensures(ConstraintSystem::<F>::get_num_selectors, (&cs,), selectors),
        call_ensures(ConstraintSystem::<F>::get_num_advice, (&cs,), advice),
        call_ensures(ConstraintSystem::<F>::get_gate_count, (&cs,), gates),
        call_ensures(ConstraintSystem::<F>::get_permutation_columns, (&cs,), columns),
    ensures
        instance as int == cs.num_instance_columns as int % 256,
        fixed as int == cs.num_fixed_columns as int % 256,
        selectors as int == cs.num_selectors as int % 0x1_0000_0000,
        advice as int == cs.advice_queries@.len() as int % 256,
        gates == cs.gates@.len(),
        columns@ == cs.permutation.columns@,
{
}

// ---------------------------------------------------------------------------------
// Columns, selectors and queries
// ---------------------------------------------------------------------------------

/// New columns of a kind, and new selectors, are numbered one after the other, and a table
/// column is numbered as a fixed column; `selector` makes simple selectors, `complex_selector`
/// makes others.
pub proof fn lemma_numbered<F>()
    ensures
        forall|a: &mut ConstraintSystem<F>, b: &mut ConstraintSystem<F>, x: Column<Fixed>, y: Column<
            Fixed,
        >|
            #[trigger] call_ensures(ConstraintSystem::<F>::fixed_column, (a,), x)
                && #[trigger] call_ensures(ConstraintSystem::<F>::fixed_column, (b,), y) && *b
                == *final(a) ==> x.index == (*a)@.num_fixed_columns && y.index == x.index + 1,
        forall|
            a: &mut ConstraintSystem<F>,
            b: &mut ConstraintSystem<F>,
            x: Column<Advice>,
            y: Column<Advice>,
        |
            #[trigger] call_ensures(ConstraintSystem::<F>::advice_column, (a,), x)
                && #[trigger] call_ensures(ConstraintSystem::<F>::advice_column, (b,), y) && *b
                == *final(a) ==> x.index == (*a)@.num_advice_columns && y.index == x.index + 1,
        forall|
            a: &mut ConstraintSystem<F>,
            b: &mut ConstraintSystem<F>,
            x: Column<Instance>,
            y: Column<Instance>,
        |
            #[trigger] call_ensures(ConstraintSystem::<F>::instance_column, (a,), x)
                && #[trigger] call_ensures(ConstraintSystem::<F>::instance_column, (b,), y) && *b
                == *final(a) ==> x.index == (*a)@.num_instance_columns && y.index == x.index + 1,
        forall|a: &mut ConstraintSystem<F>, b: &mut ConstraintSystem<F>, x: TableColumn, y: Column<
            Fixed,
        >|
            #[trigger] call_ensures(ConstraintSystem::<F>::lookup_table_column, (a,), x)
                && #[trigger] call_ensures(ConstraintSystem::<F>::fixed_column, (b,), y) && *b
                == *final(a) ==> x.column().index == (*a)@.num_fixed_columns && y.index
                == x.column().index + 1,
        forall|a: &mut ConstraintSystem<F>, b: &mut ConstraintSystem<F>, x: Selector, y: Selector|
            #[trigger] call_ensures(ConstraintSystem::<F>::selector, (a,), x)
                && #[trigger] call_ensures(ConstraintSystem::<F>::complex_selector, (b,), y) && *b
                == *final(a) ==> x.0 == (*a)@.num_selectors && y.0 == x.0 + 1 && x.1 && !y.1,
        forall|a: &mut ConstraintSystem<F>, b: &mut ConstraintSystem<F>, x: Selector, y: Selector|
            #[trigger] call_ensures(ConstraintSystem::<F>::complex_selector, (a,), x)
                && #[trigger] call_ensures(ConstraintSystem::<F>::selector, (b,), y) && *b
                == *final(a) ==> x.0 == (*a)@.num_selectors && y.0 == x.0 + 1 && !x.1 && y.1,
{
}

/// The current, the previous and the next row are one apart.
pub proof fn lemma_rotations(cur: Rotation, prev: Rotation, next: Rotation)
    requires
        call_ensures(Rotation::cur, (), cur),
        call_ensures(Rotation::prev, (), prev),
        call_ensures(Rotation::next, (), next),
    ensures
        cur.0 == 0,
        prev.0 == cur.0 - 1,
        next.0 == cur.0 + 1,
{
}

/// The index that making a query returns is where the query is found from then on.
pub proof fn lemma_query_indices<F>()
    ensures
        forall|cs: &mut ConstraintSystem<F>, column: Column<Fixed>, i: usize, j: usize|
            #[trigger] call_ensures(ConstraintSystem::<F>::query_fixed_index, (cs, column), i)
                && #[trigger] call_ensures(
                ConstraintSystem::<F>::get_fixed_query_index,
                (final(cs), column, Rotation(0)),
                j,
            ) ==> i == j && final(cs).fixed_queries@[i as int] == (column, Rotation(0)),
        forall|
            cs: &mut ConstraintSystem<F>,
            column: Column<Advice>,
            at: Rotation,
            i: usize,
            j: usize,
        |
            #[trigger] call_ensures(ConstraintSystem::<F>::query_advice_index, (cs, column, at), i)
                && #[trigger] call_ensures(
                ConstraintSystem::<F>::get_advice_query_index,
                (final(cs), column, at),
                j,
            ) ==> i == j && final(cs).advice_queries@[i as int] == (column, at),
        forall|
            cs: &mut ConstraintSystem<F>,
            column: Column<Instance>,
            at: Rotation,
            i: usize,
            j: usize,
        |
            #[trigger] call_ensures(
                ConstraintSystem::<F>::query_instance_index,
                (cs, column, at),
                i,
            ) && #[trigger] call_ensures(
                ConstraintSystem::<F>::get_instance_query_index,
                (final(cs), column, at),
                j,
            ) ==> i == j && final(cs).instance_queries@[i as int] == (column, at),
{
    assert forall|cs: &mut ConstraintSystem<F>, column: Column<Fixed>, i: usize, j: usize|
        #[trigger] call_ensures(ConstraintSystem::<F>::query_fixed_index, (cs, column), i)
            && #[trigger] call_ensures(
            ConstraintSystem::<F>::get_fixed_query_index,
            (final(cs), column, Rotation(0)),
            j,
        ) implies i == j && final(cs).fixed_queries@[i as int] == (column, Rotation(0)) by {
        let query = (column, Rotation(0));
        list::lemma_first_index_stable((*cs)@.fixed_queries, query, query);
    }
    assert forall|
        cs: &mut ConstraintSystem<F>,
        column: Column<Advice>,
        at: Rotation,
        i: usize,
        j: usize,
    |
        #[trigger] call_ensures(ConstraintSystem::<F>::query_advice_index, (cs, column, at), i)
            && #[trigger] call_ensures(
            ConstraintSystem::<F>::get_advice_query_index,
            (final(cs), column, at),
            j,
        ) implies i == j && final(cs).advice_queries@[i as int] == (column, at) by {
        list::lemma_first_index_stable((*cs)@.advice_queries, (column, at), (column, at));
    }
    assert forall|
        cs: &mut ConstraintSystem<F>,
        column: Column<Instance>,
        at: Rotation,
        i: usize,
        j: usize,
    |
        #[trigger] call_ensures(ConstraintSystem::<F>::query_instance_index, (cs, column, at), i)
            && #[trigger] call_ensures(
            ConstraintSystem::<F>::get_instance_query_index,
            (final(cs), column, at),
            j,
        ) implies i == j && final(cs).instance_queries@[i as int] == (column, at) by {
        list::lemma_first_index_stable((*cs)@.instance_queries, (column, at), (column, at));
    }
}

/// A column on which equality is enabled is among the columns of the permutation argument, each
/// of which stays where it was, and a column that can be used for constants is too.
pub proof fn lemma_equality_returned<F: Copy>()
    ensures
        forall|cs: &mut ConstraintSystem<F>, column: Column<Any>, columns: Vec<Column<Any>>|
            #[trigger] call_ensures(
                ConstraintSystem::<F>::enable_equality::<Any>,
                (cs, column),
                (),
            ) && #[trigger] call_ensures(
                ConstraintSystem::<F>::get_permutation_columns,
                (final(cs),),
                columns,
            ) ==> columns@.contains(column) && (*cs).permutation.columns@.is_prefix_of(columns@)
                && columns@.len() <= (*cs).permutation.columns@.len() + 1,
{
    assert forall|cs: &mut ConstraintSystem<F>, column: Column<Any>, columns: Vec<Column<Any>>|
        #[trigger] call_ensures(ConstraintSystem::<F>::enable_equality::<Any>, (cs, column), ())
            && #[trigger] call_ensures(
            ConstraintSystem::<F>::get_permutation_columns,
            (final(cs),),
            columns,
        ) implies columns@.contains(column) && (*cs).permutation.columns@.is_prefix_of(columns@)
        && columns@.len() <= (*cs).permutation.columns@.len() + 1 by {
        laws::lemma_item_added((*cs)@.permutation, column);
    }
}

/// A degree that is asked for is reached, and asking for it changes nothing else.
pub proof fn lemma_minimum_degree_reached<F: Copy>()
    ensures
        forall|cs: &mut ConstraintSystem<F>, minimum: usize, degree: usize|
            #[trigger] call_ensures(ConstraintSystem::<F>::set_minimum_degree, (cs, minimum), ())
                && #[trigger] call_ensures(ConstraintSystem::<F>::degree, (final(cs),), degree)
                ==> degree >= minimum && final(cs).minimum_degree == Some(minimum)
                && final(cs)@.gates == (*cs)@.gates && final(cs)@.lookups
                == (*cs)@.lookups && final(cs)@.permutation == (*cs)@.permutation,
{
    assert forall|cs: &mut ConstraintSystem<F>, minimum: usize, degree: usize|
        #[trigger] call_ensures(ConstraintSystem::<F>::set_minimum_degree, (cs, minimum), ())
            && #[trigger] call_ensures(
            ConstraintSystem::<F>::degree,
            (final(cs),),
            degree,
        ) implies degree >= minimum && final(cs).minimum_degree == Some(minimum) && final(cs)@.gates
        == (*cs)@.gates && final(cs)@.lookups == (*cs)@.lookups && final(cs)@.permutation == (*cs)@.permutation by {
        constraint_system::lemma_degree(final(cs)@);
    }
}

// ---------------------------------------------------------------------------------
// Writing and reading
// ---------------------------------------------------------------------------------

/// What is written as an integer is read as that integer, as far as its bytes go, whatever
/// stands before and behind it.
pub proof fn lemma_integers_read_back<'a>()
    ensures
        forall|w: &mut Vec<u8>, x: usize, reader: &mut Reader<'a>, r: Result<u16, ReadError>|
            #[trigger] call_ensures(codec::write_u16, (w, x), ()) && #[trigger] call_ensures(
                codec::read_u16,
                (reader,),
                r,
            ) && (*reader)@ == final(w)@.skip((*w)@.len() as int) ==> (r matches Ok(y) && y as int
                == x as int % 0x1_0000 && final(reader)@.len() == 0),
        forall|w: &mut Vec<u8>, x: usize, reader: &mut Reader<'a>, r: Result<u32, ReadError>|
            #[trigger] call_ensures(codec::write_u32, (w, x), ()) && #[trigger] call_ensures(
                codec::read_u32,
                (reader,),
                r,
            ) && (*reader)@ == final(w)@.skip((*w)@.len() as int) ==> (r matches Ok(y) && y as int
                == x as int % 0x1_0000_0000 && final(reader)@.len() == 0),
        forall|w: &mut Vec<u8>, x: i32, reader: &mut Reader<'a>, r: Result<i32, ReadError>|
            #[trigger] call_ensures(codec::write_i32, (w, x), ()) && #[trigger] call_ensures(
                codec::read_i32,
                (reader,),
                r,
            ) && (*reader)@ == final(w)@.skip((*w)@.len() as int) ==> r == Ok::<i32, ReadError>(x)
                && final(reader)@.len() == 0,
{
    assert forall|w: &mut Vec<u8>, x: usize, reader: &mut Reader<'a>, r: Result<u16, ReadError>|
        #[trigger] call_ensures(codec::write_u16, (w, x), ()) && #[trigger] call_ensures(
            codec::read_u16,
            (reader,),
            r,
        ) && (*reader)@ == final(w)@.skip((*w)@.len() as int) implies (r matches Ok(y) && y as int
        == x as int % 0x1_0000 && final(reader)@.len() == 0) by {
        layout::lemma_integer_bytes(x as nat, 0);
        assert((*reader)@ =~= codec::u16_le(x as nat));
        layout::lemma_integers_read((*reader)@);
    }
    assert forall|w: &mut Vec<u8>, x: usize, reader: &mut Reader<'a>, r: Result<u32, ReadError>|
        #[trigger] call_ensures(codec::write_u32, (w, x), ()) && #[trigger] call_ensures(
            codec::read_u32,
            (reader,),
            r,
        ) && (*reader)@ == final(w)@.skip((*w)@.len() as int) implies (r matches Ok(y) && y as int
        == x as int % 0x1_0000_0000 && final(reader)@.len() == 0) by {
        layout::lemma_integer_bytes(x as nat, 0);
        assert((*reader)@ =~= codec::u32_le(x as nat));
        layout::lemma_integers_read((*reader)@);
    }
    assert forall|w: &mut Vec<u8>, x: i32, reader: &mut Reader<'a>, r: Result<i32, ReadError>|
        #[trigger] call_ensures(codec::write_i32, (w, x), ()) && #[trigger] call_ensures(
            codec::read_i32,
            (reader,),
            r,
        ) && (*reader)@ == final(w)@.skip((*w)@.len() as int) implies r == Ok::<i32, ReadError>(x)
        && final(reader)@.len() == 0 by {
        let s = codec::i32_le(x);
        assert((*reader)@ =~= s);
        codec::lemma_i32_round_trip(x, seq![]);
        assert(s + seq![] =~= s);
    }
}

/// A system that is written and read back is the same system, if its numbers fit, whatever
/// stands before and behind it.
pub proof fn lemma_system_read_back<'a, F: PrimeField>(tail: Seq<u8>)
    ensures
        forall|
            cs: &ConstraintSystem<F>,
            w: &mut Vec<u8>,
            reader: &mut Reader<'a>,
            r: Result<ConstraintSystem<F>, ReadError>,
        |
            #[trigger] call_ensures(ConstraintSystem::<F>::write, (cs, w), ())
                && #[trigger] call_ensures(ConstraintSystem::<F>::read, (reader,), r)
                && cs@.encodable() && (*reader)@ == final(w)@.skip((*w)@.len() as int) + tail
                ==> (r matches Ok(read) && read@ == cs@ && final(reader)@ == tail),
{
    assert forall|
        cs: &ConstraintSystem<F>,
        w: &mut Vec<u8>,
        reader: &mut Reader<'a>,
        r: Result<ConstraintSystem<F>, ReadError>,
    |
        #[trigger] call_ensures(ConstraintSystem::<F>::write, (cs, w), ())
            && #[trigger] call_ensures(ConstraintSystem::<F>::read, (reader,), r)
            && cs@.encodable() && (*reader)@ == final(w)@.skip((*w)@.len() as int)
            + tail implies (r matches Ok(read) && read@ == cs@ && final(reader)@ == tail) by {
        assert(final(w)@.skip((*w)@.len() as int) =~= cs@.encode());
        system_codec::lemma_system_round_trip(cs@, tail);
    }
}

/// A gate and a lookup argument that are written and read back are the same, if their numbers
/// fit and their expressions are made of the given queries.
pub proof fn lemma_parts_read_back<'a, F: PrimeField>(
    fixed: &[(Column<Fixed>, Rotation)],
    advice: &[(Column<Advice>, Rotation)],
    instance: &[(Column<Instance>, Rotation)],
    tail: Seq<u8>,
)
    ensures
        forall|
            e: &Expression<F>,
            w: &mut Vec<u8>,
            reader: &mut Reader<'a>,
            r: Result<Expression<F>, ReadError>,
        |
            #[trigger] call_ensures(Expression::<F>::write, (e, w), ())
                && #[trigger] call_ensures(
                Expression::<F>::read,
                (reader, fixed, advice, instance),
                r,
            ) && e.encodable(expression::queries_of(fixed, advice, instance)) && (*reader)@
                == final(w)@.skip((*w)@.len() as int) + tail ==> r == Ok::<
                Expression<F>,
                ReadError,
            >(*e) && final(reader)@ == tail,
        forall|
            gate: &Gate<F>,
            w: &mut Vec<u8>,
            reader: &mut Reader<'a>,
            r: Result<Gate<F>, ReadError>,
        |
            #[trigger] call_ensures(Gate::<F>::write, (gate, w), ()) && #[trigger] call_ensures(
                Gate::<F>::read,
                (reader, fixed, advice, instance),
                r,
            ) && gate@.encodable(expression::queries_of(fixed, advice, instance)) && (*reader)@
                == final(w)@.skip((*w)@.len() as int) + tail ==> (r matches Ok(read) && read@
                == gate@ && final(reader)@ == tail),
        forall|
            argument: &lookup::Argument<F>,
            w: &mut Vec<u8>,
            reader: &mut Reader<'a>,
            r: Result<lookup::Argument<F>, ReadError>,
        |
            #[trigger] call_ensures(lookup::Argument::<F>::write, (argument, w), ())
                && #[trigger] call_ensures(
                lookup::Argument::<F>::read,
                (reader, fixed, advice, instance),
                r,
            ) && argument@.encodable(expression::queries_of(fixed, advice, instance))
                && (*reader)@ == final(w)@.skip((*w)@.len() as int) + tail ==> (r matches Ok(read)
                && read@ == argument@ && final(reader)@ == tail),
{
    let queries = expression::queries_of(fixed, advice, instance);
    assert forall|
        e: &Expression<F>,
        w: &mut Vec<u8>,
        reader: &mut Reader<'a>,
        r: Result<Expression<F>, ReadError>,
    |
        #[trigger] call_ensures(Expression::<F>::write, (e, w), ()) && #[trigger] call_ensures(
            Expression::<F>::read,
            (reader, fixed, advice, instance),
            r,
        ) && e.encodable(queries) && (*reader)@ == final(w)@.skip((*w)@.len() as int)
            + tail implies r == Ok::<Expression<F>, ReadError>(*e) && final(reader)@ == tail by {
        assert(final(w)@.skip((*w)@.len() as int) =~= e.encode());
        expression::lemma_expression_round_trip(*e, queries, tail);
    }
    assert forall|
        gate: &Gate<F>,
        w: &mut Vec<u8>,
        reader: &mut Reader<'a>,
        r: Result<Gate<F>, ReadError>,
    |
        #[trigger] call_ensures(Gate::<F>::write, (gate, w), ()) && #[trigger] call_ensures(
            Gate::<F>::read,
            (reader, fixed, advice, instance),
            r,
        ) && gate@.encodable(queries) && (*reader)@ == final(w)@.skip((*w)@.len() as int)
            + tail implies (r matches Ok(read) && read@ == gate@ && final(reader)@ == tail) by {
        assert(final(w)@.skip((*w)@.len() as int) =~= gate@.encode());
        crate::gate::lemma_gate_round_trip(gate@, queries, tail);
    }
    assert forall|
        argument: &lookup::Argument<F>,
        w: &mut Vec<u8>,
        reader: &mut Reader<'a>,
        r: Result<lookup::Argument<F>, ReadError>,
    |
        #[trigger] call_ensures(lookup::Argument::<F>::write, (argument, w), ())
            && #[trigger] call_ensures(
            lookup::Argument::<F>::read,
            (reader, fixed, advice, instance),
            r,
        ) && argument@.encodable(queries) && (*reader)@ == final(w)@.skip((*w)@.len() as int)
            + tail implies (r matches Ok(read) && read@ == argument@ && final(reader)@ == tail) by {
        assert(final(w)@.skip((*w)@.len() as int) =~= argument@.encode());
        lookup::lemma_argument_round_trip(argument@, queries, tail);
    }
}

/// A key that is made of its parts holds them, caches the degree of its system, and is
/// represented by the scalar that the hash of the text of its pinned form stands for.
pub proof fn lemma_key_of_parts<C: CurveAffine>(
    domain: EvaluationDomain<C::Scalar>,
    fixed_commitments: Vec<C>,
    permutation: permutation::VerifyingKey<C>,
    cs: ConstraintSystem<C::Scalar>,
    selectors: Vec<Vec<bool>>,
    vk: VerifyingKey<C>,
    degree: usize,
    returned: ConstraintSystem<C::Scalar>,
    hash: [u8; 64],
    pinned: &str,
)
    requires
        call_ensures(
            VerifyingKey::<C>::from_parts,
            (domain, fixed_commitments, permutation, cs, selectors),
            vk,
        ),
        call_ensures(ConstraintSystem::<C::Scalar>::degree, (&cs,), degree),
        call_ensures(VerifyingKey::<C>::cs, (&vk,), returned),
        pinned@ == vk@.pinned_text(),
        call_ensures(verifying_key::transcript_hash, (pinned,), hash),
    ensures
        vk.domain == domain,
        vk.fixed_commitments@ == fixed_commitments@,
        vk.permutation@ == permutation@,
        vk.cs@ == cs@,
        vk.cs_degree == degree,
        returned@ == cs@,
        vk.selectors@.len() == selectors@.len(),
        forall|i: int|
            0 <= i < selectors@.len() ==> (#[trigger] vk.selectors@[i])@ == selectors@[i]@,
        vk.transcript_repr
            == <C::Scalar as crate::field::FromUniformBytes>::of_uniform_bytes(hash@),
{
    assert(vk@.domain == domain);
    let rows = verifying_key::rows(selectors@);
    assert(verifying_key::rows(vk.selectors@) == rows);
    assert forall|i: int| 0 <= i < selectors@.len() implies (#[trigger] vk.selectors@[i])@
        == selectors@[i]@ by {
        assert(verifying_key::rows(vk.selectors@)[i] == rows[i]);
    }
    assert(verifying_key::rows(vk.selectors@).len() == rows.len());
}

/// A key that was made of its parts, written, and read back with its system and its domain is
/// the same key, if its numbers fit and it has as many commitments and rows as it should,
/// whatever stands before and behind it.
pub proof fn lemma_key_read_back<
    'a,
    C: CurveAffine,
    D: FnOnce(u32, u32) -> EvaluationDomain<C::Scalar>,
>(
    vk: VerifyingKey<C>,
    params: Params,
    cs: ConstraintSystem<C::Scalar>,
    selectors: Vec<Vec<bool>>,
    new_domain: D,
    tail: Seq<u8>,
)
    requires
        vk@ == verifying_key::key_of(
            vk.domain,
            vk.fixed_commitments@,
            vk.permutation@,
            vk.cs@,
            verifying_key::rows(vk.selectors@),
        ),
        vk@.encodable(params.n as nat),
        cs@ == vk.cs@,
        forall|degree: u32, domain: EvaluationDomain<C::Scalar>| #[trigger]
            new_domain.ensures((degree, params.k), domain) ==> domain == vk.domain,
    ensures
        forall|
            w: &mut Vec<u8>,
            log: Vec<String>,
            reader: &mut Reader<'a>,
            r: Result<VerifyingKey<C>, ReadError>,
        |
            #[trigger] call_ensures(VerifyingKey::<C>::write, (&vk, w), log)
                && #[trigger] call_ensures(
                VerifyingKey::<C>::read_with_cs::<D>,
                (reader, &params, cs, selectors, new_domain),
                r,
            ) && (*reader)@ == final(w)@.skip((*w)@.len() as int) + tail ==> (r matches Ok(read)
                && read@ == vk@ && final(reader)@ == tail),
{
    assert forall|
        w: &mut Vec<u8>,
        log: Vec<String>,
        reader: &mut Reader<'a>,
        r: Result<VerifyingKey<C>, ReadError>,
    |
        #[trigger] call_ensures(VerifyingKey::<C>::write, (&vk, w), log)
            && #[trigger] call_ensures(
            VerifyingKey::<C>::read_with_cs::<D>,
            (reader, &params, cs, selectors, new_domain),
            r,
        ) && (*reader)@ == final(w)@.skip((*w)@.len() as int) + tail implies (r matches Ok(read)
        && read@ == vk@ && final(reader)@ == tail) by {
        assert(final(w)@.skip((*w)@.len() as int) =~= vk@.encode());
        verifying_key::lemma_key_round_trip(vk@, params.n as nat, tail);
    }
}

// ---------------------------------------------------------------------------------
// Gates, lookups and selectors
// ---------------------------------------------------------------------------------

/// What is queried while a gate is made is written down: each cell with its column and its
/// rotation, each selector, behind what was queried before; and the query that is returned is
/// that of the column.
pub proof fn lemma_cells_recorded<'a, F>(at: Rotation)
    ensures
        forall|cells: &mut VirtualCells<'a, F>, selector: Selector, e: Expression<F>|
            #[trigger] call_ensures(
                VirtualCells::<'a, F>::query_selector,
                (cells, selector),
                e,
            ) ==> {
                &&& e == Expression::<F>::Selector(selector)
                &&& final(cells).queried_selectors@ == (*cells).queried_selectors@.push(selector)
                &&& final(cells).queried_cells@ == (*cells).queried_cells@
                &&& final(cells).meta@ == (*cells).meta@
            },
        forall|cells: &mut VirtualCells<'a, F>, column: Column<Fixed>, e: Expression<F>|
            #[trigger] call_ensures(VirtualCells::<'a, F>::query_fixed, (cells, column), e) ==> {
                &&& e matches Expression::Fixed(query)
                &&& query.column_index == column.index
                &&& query.rotation == Rotation(0)
                &&& final(cells).queried_selectors@ == (*cells).queried_selectors@
                &&& final(cells).queried_cells@.drop_last() == (*cells).queried_cells@
                &&& final(cells).queried_cells@.last().column.column_type == Any::Fixed
                &&& final(cells).queried_cells@.last().column.index == column.index
                &&& final(cells).queried_cells@.last().rotation == Rotation(0)
            },
        forall|cells: &mut VirtualCells<'a, F>, column: Column<Advice>, e: Expression<F>|
            #[trigger] call_ensures(
                VirtualCells::<'a, F>::query_advice,
                (cells, column, at),
                e,
            ) ==> {
                &&& e matches Expression::Advice(query)
                &&& query.column_index == column.index
                &&& query.rotation == at
                &&& final(cells).queried_selectors@ == (*cells).queried_selectors@
                &&& final(cells).queried_cells@.drop_last() == (*cells).queried_cells@
                &&& final(cells).queried_cells@.last().column.column_type == Any::Advice
                &&& final(cells).queried_cells@.last().column.index == column.index
                &&& final(cells).queried_cells@.last().rotation == at
            },
        forall|cells: &mut VirtualCells<'a, F>, column: Column<Instance>, e: Expression<F>|
            #[trigger] call_ensures(
                VirtualCells::<'a, F>::query_instance,
                (cells, column, at),
                e,
            ) ==> {
                &&& e matches Expression::Instance(query)
                &&& query.column_index == column.index
                &&& query.rotation == at
                &&& final(cells).queried_selectors@ == (*cells).queried_selectors@
                &&& final(cells).queried_cells@.drop_last() == (*cells).queried_cells@
                &&& final(cells).queried_cells@.last().column.column_type == Any::Instance
                &&& final(cells).queried_cells@.last().column.index == column.index
                &&& final(cells).queried_cells@.last().rotation == at
            },
{
    assert forall|cells: &mut VirtualCells<'a, F>, column: Column<Fixed>, e: Expression<F>|
        #[trigger] call_ensures(
            VirtualCells::<'a, F>::query_fixed,
            (cells, column),
            e,
        ) implies final(cells).queried_cells@.drop_last() == (*cells).queried_cells@ by {
        assert(final(cells).queried_cells@.drop_last() =~= (*cells).queried_cells@);
    }
    assert forall|cells: &mut VirtualCells<'a, F>, column: Column<Advice>, e: Expression<F>|
        #[trigger] call_ensures(
            VirtualCells::<'a, F>::query_advice,
            (cells, column, at),
            e,
        ) implies final(cells).queried_cells@.drop_last() == (*cells).queried_cells@ by {
        assert(final(cells).queried_cells@.drop_last() =~= (*cells).queried_cells@);
    }
    assert forall|cells: &mut VirtualCells<'a, F>, column: Column<Instance>, e: Expression<F>|
        #[trigger] call_ensures(
            VirtualCells::<'a, F>::query_instance,
            (cells, column, at),
            e,
        ) implies final(cells).queried_cells@.drop_last() == (*cells).queried_cells@ by {
        assert(final(cells).queried_cells@.drop_last() =~= (*cells).queried_cells@);
    }
}

/// The constraints that a set with a common selector is turned into keep their names, and each
/// means the product of the selector and of the constraint that was given.
pub proof fn lemma_selector_applied<F: Copy, I: IntoConstraints<F>, T>(
    selector: Expression<F>,
    constraints: I,
    set: Constraints<F, I>,
    given: Vec<Constraint<F>>,
    made: Vec<Constraint<F>>,
    alg: expression::Algebra<F, T>,
)
    requires
        call_ensures(Constraints::<F, I>::with_selector, (selector, constraints), set),
        call_ensures(<I as IntoConstraints<F>>::into_constraints, (constraints,), given),
        call_ensures(<Constraints<F, I> as IntoConstraints<F>>::into_constraints, (set,), made),
    ensures
        made@.len() == given@.len(),
        forall|i: int|
            #![trigger made@[i]]
            0 <= i < given@.len() ==> {
                &&& made@[i].name == given@[i].name
                &&& expression::meaning(made@[i].poly, alg) == (alg.product)(
                    expression::meaning(selector, alg),
                    expression::meaning(given@[i].poly, alg),
                )
            },
{
    assert forall|i: int| #![trigger made@[i]] 0 <= i < given@.len() implies {
        &&& made@[i].name == given@[i].name
        &&& expression::meaning(made@[i].poly, alg) == (alg.product)(
            expression::meaning(selector, alg),
            expression::meaning(given@[i].poly, alg),
        )
    } by {
        laws::lemma_selector_controls(set, alg, i);
    }
}

/// A gate that is made stands behind the others under its name, and has the polynomials and the
/// names of the constraints that the closure returned, one by one; the other gates stay as they
/// are, and so does all else but the queries.
pub proof fn lemma_gate_made<
    F: Copy,
    I: IntoConstraints<F>,
    K: FnOnce(&mut VirtualCells<'_, F>) -> I,
>(name: &'static str, constraints: K)
    ensures
        forall|cs: &mut ConstraintSystem<F>| #[trigger]
            call_ensures(
                ConstraintSystem::<F>::create_gate::<I, K>,
                (cs, name, constraints),
                (),
            ) ==> {
                &&& final(cs)@.gates.len() == (*cs)@.gates.len() + 1
                &&& final(cs)@.gates.drop_last() == (*cs)@.gates
                &&& final(cs)@.gates.last().name == name@
                &&& final(cs)@.lookups == (*cs)@.lookups
                &&& final(cs)@.permutation == (*cs)@.permutation
                &&& final(cs)@.num_selectors == (*cs)@.num_selectors
                &&& exists|cells: &mut VirtualCells<'_, F>, out: I| {
                    &&& #[trigger] constraints.ensures((cells,), out)
                    &&& (*cells).meta@ == (*cs)@
                    &&& (*cells).queried_cells@.len() == 0
                    &&& (*cells).queried_selectors@.len() == 0
                    &&& final(cs)@.gates.last().polys.len() == out.constraints().len()
                    &&& final(cs)@.gates.last().constraint_names.len() == out.constraints().len()
                    &&& forall|i: int|
                        #![trigger out.constraints()[i]]
                        0 <= i < out.constraints().len() ==> {
                            &&& final(cs)@.gates.last().polys[i] == out.constraints()[i].poly
                            &&& final(cs)@.gates.last().constraint_names[i]
                                == out.constraints()[i].name@
                        }
                    &&& final(cs)@.gates.last().queried_selectors
                        == final(cells).queried_selectors@
                    &&& final(cs)@.gates.last().queried_cells == final(cells).queried_cells@
                }
            },
{
    assert forall|cs: &mut ConstraintSystem<F>| #[trigger]
        call_ensures(
            ConstraintSystem::<F>::create_gate::<I, K>,
            (cs, name, constraints),
            (),
        ) implies {
        &&& final(cs)@.gates.len() == (*cs)@.gates.len() + 1
        &&& final(cs)@.gates.drop_last() == (*cs)@.gates
        &&& final(cs)@.gates.last().name == name@
        &&& final(cs)@.lookups == (*cs)@.lookups
        &&& final(cs)@.permutation == (*cs)@.permutation
        &&& final(cs)@.num_selectors == (*cs)@.num_selectors
        &&& exists|cells: &mut VirtualCells<'_, F>, out: I| {
            &&& #[trigger] constraints.ensures((cells,), out)
            &&& (*cells).meta@ == (*cs)@
            &&& (*cells).queried_cells@.len() == 0
            &&& (*cells).queried_selectors@.len() == 0
            &&& final(cs)@.gates.last().polys.len() == out.constraints().len()
            &&& final(cs)@.gates.last().constraint_names.len() == out.constraints().len()
            &&& forall|i: int|
                #![trigger out.constraints()[i]]
                0 <= i < out.constraints().len() ==> {
                    &&& final(cs)@.gates.last().polys[i] == out.constraints()[i].poly
                    &&& final(cs)@.gates.last().constraint_names[i] == out.constraints()[i].name@
                }
            &&& final(cs)@.gates.last().queried_selectors == final(cells).queried_selectors@
            &&& final(cs)@.gates.last().queried_cells == final(cells).queried_cells@
        }
    } by {
        assert(final(cs)@.gates.drop_last() =~= (*cs)@.gates);
        let (cells, out) = choose|cells: &mut VirtualCells<'_, F>, out: I| {
            &&& constraint_system::unqueried(*cells, (*cs)@)
            &&& #[trigger] constraints.ensures((cells,), out)
            &&& final(cs)@ == final(cells).meta@.with_gate(
                name@,
                out.constraints(),
                final(cells).queried_selectors@,
                final(cells).queried_cells@,
            )
        };
        laws::lemma_gate_added(
            final(cells).meta@,
            name@,
            out.constraints(),
            final(cells).queried_selectors@,
            final(cells).queried_cells@,
        );
        assert(constraints.ensures((cells,), out));
    }
}

/// The degrees of selectors that are returned are one for each; each bounds the degree of every
/// polynomial of a gate from which its selector is extracted, and is bounded by whatever bounds
/// all of these.
pub proof fn lemma_selector_degrees_returned<F: Copy>(
    cs: ConstraintSystem<F>,
    n: usize,
    degrees: Vec<usize>,
    i: int,
    bound: nat,
)
    requires
        call_ensures(ConstraintSystem::<F>::selector_degrees, (&cs, n), degrees),
        0 <= i < n,
    ensures
        degrees@.len() == n,
        forall|g: int, j: int|
            0 <= g < cs.gates@.len() && 0 <= j < cs.gates@[g].polys@.len() && (
            #[trigger] cs.gates@[g].polys@[j]).simple_selectors().len() > 0
                && cs.gates@[g].polys@[j].simple_selectors()[0].0 == i
                ==> cs.gates@[g].polys@[j].degree_spec() <= degrees@[i],
        (forall|g: int, j: int|
            0 <= g < cs.gates@.len() && 0 <= j < cs.gates@[g].polys@.len() && (
            #[trigger] cs.gates@[g].polys@[j]).simple_selectors().len() > 0
                && cs.gates@[g].polys@[j].simple_selectors()[0].0 == i
                ==> cs.gates@[g].polys@[j].degree_spec() <= bound) ==> degrees@[i] <= bound,
{
    let polys = constraint_system::polys_of(cs@.gates);
    assert forall|g: int, j: int|
        0 <= g < cs.gates@.len() && 0 <= j < cs.gates@[g].polys@.len() && (
        #[trigger] cs.gates@[g].polys@[j]).simple_selectors().len() > 0
            && cs.gates@[g].polys@[j].simple_selectors()[0].0
            == i implies cs.gates@[g].polys@[j].degree_spec() <= degrees@[i] by {
        assert(cs@.gates[g].polys[j] == cs.gates@[g].polys@[j]);
        constraint_system::lemma_polys_of(cs@.gates, g, j);
        let at = choose|at: int| 0 <= at < polys.len() && polys[at] == cs.gates@[g].polys@[j];
        laws::lemma_selector_degree_bounds(polys, at);
    }
    if forall|g: int, j: int|
        0 <= g < cs.gates@.len() && 0 <= j < cs.gates@[g].polys@.len() && (
        #[trigger] cs.gates@[g].polys@[j]).simple_selectors().len() > 0
            && cs.gates@[g].polys@[j].simple_selectors()[0].0 == i
            ==> cs.gates@[g].polys@[j].degree_spec() <= bound {
        assert forall|k: int|
            0 <= k < polys.len() && (#[trigger] polys[k]).simple_selectors().len() > 0
                && polys[k].simple_selectors()[0].0 == i implies polys[k].degree_spec()
            <= bound by {
            let at = constraint_system::lemma_poly_of_gate(cs@.gates, k);
            assert(cs@.gates[at.0].polys[at.1] == cs.gates@[at.0].polys@[at.1]);
        }
        laws::lemma_selector_degree_least(polys, i, bound);
    }
}

// ---------------------------------------------------------------------------------
// Parts of values
// ---------------------------------------------------------------------------------

/// A gate returns what it was made of.
pub proof fn lemma_gate_parts<F>(
    gate: Gate<F>,
    i: usize,
    name: &'static str,
    constraint: &'static str,
    polys: &[Expression<F>],
    selectors: &[Selector],
    cells: &[VirtualCell],
)
    requires
        call_ensures(Gate::<F>::name, (&gate,), name),
        call_ensures(Gate::<F>::constraint_name, (&gate, i), constraint),
        i < gate.constraint_names@.len(),
        call_ensures(Gate::<F>::polynomials, (&gate,), polys),
        call_ensures(Gate::<F>::queried_selectors, (&gate,), selectors),
        call_ensures(Gate::<F>::queried_cells, (&gate,), cells),
    ensures
        name@ == gate.name@,
        constraint@ == gate.constraint_names@[i as int]@,
        polys@ == gate.polys@,
        selectors@ == gate.queried_selectors@,
        cells@ == gate.queried_cells@,
{
}

/// A column returns what it was made of, under both names of its index, and is the same column
/// once its type is forgotten; the kind of a column can be told from its tag.
pub proof fn lemma_column_parts<C: ColumnType>(
    index: usize,
    column_type: C,
    column: Column<C>,
    indices: (usize, usize),
    returned: &C,
    any: Column<Any>,
    tag: u8,
    kind: Option<Any>,
)
    requires
        call_ensures(Column::<C>::new, (index, column_type), column),
        call_ensures(Column::<C>::index, (&column,), indices.0),
        call_ensures(Column::<C>::get_index, (&column,), indices.1),
        call_ensures(Column::<C>::column_type, (&column,), returned),
        call_ensures(Column::<C>::to_any, (column,), any),
        call_ensures(Any::to_tag, (any.column_type,), tag),
        call_ensures(Any::from_tag, (tag,), kind),
    ensures
        indices.0 == index,
        indices.1 == index,
        *returned == column_type,
        any.index == index,
        any.column_type == column_type.kind(),
        kind == Some(any.column_type),
{
}

/// The pairs of a lookup argument are its inputs and its tables, in their order.
pub proof fn lemma_argument_parts<F: Copy>(
    pairs: Vec<(Expression<F>, Expression<F>)>,
    argument: lookup::Argument<F>,
    degree: usize,
    checked: Option<usize>,
    i: nat,
    t: nat,
)
    requires
        call_ensures(lookup::Argument::<F>::new, (pairs,), argument),
        call_ensures(lookup::Argument::<F>::required_degree, (&argument,), degree),
        call_ensures(lookup::Argument::<F>::checked_required_degree, (&argument,), checked),
    ensures
        argument.input_expressions@.len() == pairs@.len(),
        argument.table_expressions@.len() == pairs@.len(),
        forall|k: int|
            #![trigger pairs@[k]]
            0 <= k < pairs@.len() ==> argument.input_expressions@[k] == pairs@[k].0
                && argument.table_expressions@[k] == pairs@[k].1,
        checked == Some(degree),
        degree >= 4,
        forall|k: int, l: int|
            0 <= k < pairs@.len() && 0 <= l < pairs@.len() ==> degree >= 2 + (
            #[trigger] pairs@[k]).0.degree_spec() + (#[trigger] pairs@[l]).1.degree_spec(),
        1 <= i && 1 <= t && (forall|k: int|
            0 <= k < pairs@.len() ==> (#[trigger] pairs@[k]).0.degree_spec() <= i
                && pairs@[k].1.degree_spec() <= t) ==> degree <= 2 + i + t,
{
    let model = argument@;
    assert forall|k: int| #![trigger pairs@[k]] 0 <= k < pairs@.len() implies model.inputs[k]
        == pairs@[k].0 && model.tables[k] == pairs@[k].1 by {}
    laws::lemma_required_degree_leaves_room(model);
    assert forall|k: int, l: int|
        0 <= k < pairs@.len() && 0 <= l < pairs@.len() implies degree >= 2 + (
    #[trigger] pairs@[k]).0.degree_spec() + (#[trigger] pairs@[l]).1.degree_spec() by {
        assert(model.inputs[k] == pairs@[k].0);
        assert(model.tables[l] == pairs@[l].1);
    }
    if 1 <= i && 1 <= t && (forall|k: int|
        0 <= k < pairs@.len() ==> (#[trigger] pairs@[k]).0.degree_spec() <= i
            && pairs@[k].1.degree_spec() <= t) {
        assert forall|k: int| 0 <= k < model.inputs.len() implies (
        #[trigger] model.inputs[k]).degree_spec() <= i by {
            assert(model.inputs[k] == pairs@[k].0);
        }
        assert forall|k: int| 0 <= k < model.tables.len() implies (
        #[trigger] model.tables[k]).degree_spec() <= t by {
            assert(model.tables[k] == pairs@[k].1);
        }
        laws::lemma_required_degree_bounded(model, i, t);
    }
}

/// Bits that are packed into a byte and unpacked again are the same bits.
pub proof fn lemma_bits_unpacked(bits: &[bool], byte: u8, bytes: &[u8], n: usize, r: Vec<bool>)
    requires
        bits@.len() <= 8,
        0 < bits@.len() == n,
        call_ensures(bits::pack, (bits,), byte),
        bytes@ == seq![byte],
        call_ensures(bits::unpack, (bytes, n), r),
    ensures
        r@ == bits@,
{
    let packed = bits::packed(bits@);
    assert(bits::chunk(bits@, 0) =~= bits@);
    assert(packed =~= bytes@);
    bits::lemma_packed_round_trip(bits@);
}

/// A lookup argument that is made stands at the returned index behind the others; its inputs
/// are those that the closure returned, and its tables are the queries of the returned columns
/// at the current row. The other lookups stay as they are, and so does all else but the queries.
pub proof fn lemma_lookup_made<
    F: Copy,
    T: FnOnce(&mut VirtualCells<'_, F>) -> Vec<(Expression<F>, TableColumn)>,
>(table_map: T)
    ensures
        forall|cs: &mut ConstraintSystem<F>, index: usize| #[trigger]
            call_ensures(ConstraintSystem::<F>::lookup::<T>, (cs, table_map), index) ==> {
                &&& index == (*cs)@.lookups.len()
                &&& final(cs)@.lookups.len() == index + 1
                &&& final(cs)@.lookups.drop_last() == (*cs)@.lookups
                &&& final(cs)@.gates == (*cs)@.gates
                &&& final(cs)@.permutation == (*cs)@.permutation
                &&& exists|
                    cells: &mut VirtualCells<'_, F>,
                    out: Vec<(Expression<F>, TableColumn)>,
                | {
                    &&& #[trigger] table_map.ensures((cells,), out)
                    &&& (*cells).meta@ == (*cs)@
                    &&& final(cs)@.lookups[index as int].inputs.len() == out@.len()
                    &&& final(cs)@.lookups[index as int].tables.len() == out@.len()
                    &&& forall|i: int|
                        #![trigger out@[i]]
                        0 <= i < out@.len() ==> {
                            &&& final(cs)@.lookups[index as int].inputs[i] == out@[i].0
                            &&& final(cs)@.lookups[index as int].tables[i] matches Expression::Fixed(
                                query,
                            )
                            &&& query.column_index == out@[i].1.column().index
                            &&& query.rotation == Rotation(0)
                        }
                }
            },
{
    assert forall|cs: &mut ConstraintSystem<F>, index: usize| #[trigger]
        call_ensures(ConstraintSystem::<F>::lookup::<T>, (cs, table_map), index) implies {
        &&& index == (*cs)@.lookups.len()
        &&& final(cs)@.lookups.len() == index + 1
        &&& final(cs)@.lookups.drop_last() == (*cs)@.lookups
        &&& final(cs)@.gates == (*cs)@.gates
        &&& final(cs)@.permutation == (*cs)@.permutation
        &&& exists|cells: &mut VirtualCells<'_, F>, out: Vec<(Expression<F>, TableColumn)>| {
            &&& #[trigger] table_map.ensures((cells,), out)
            &&& (*cells).meta@ == (*cs)@
            &&& final(cs)@.lookups[index as int].inputs.len() == out@.len()
            &&& final(cs)@.lookups[index as int].tables.len() == out@.len()
            &&& forall|i: int|
                #![trigger out@[i]]
                0 <= i < out@.len() ==> {
                    &&& final(cs)@.lookups[index as int].inputs[i] == out@[i].0
                    &&& final(cs)@.lookups[index as int].tables[i] matches Expression::Fixed(query)
                    &&& query.column_index == out@[i].1.column().index
                    &&& query.rotation == Rotation(0)
                }
        }
    } by {
        assert(final(cs)@.lookups.drop_last() =~= (*cs)@.lookups);
        let (cells, out) = choose|
            cells: &mut VirtualCells<'_, F>,
            out: Vec<(Expression<F>, TableColumn)>,
        | {
            &&& constraint_system::unqueried(*cells, (*cs)@)
            &&& #[trigger] table_map.ensures((cells,), out)
            &&& final(cs)@ == final(cells).meta@.with_lookup(out@)
        };
        assert(table_map.ensures((cells,), out));
        let queried = final(cells).meta@;
        let columns = out@.map_values(|e: (Expression<F>, TableColumn)| e.1.column());
        constraint_system::lemma_with_fixed_queries(queried, columns);
        assert(final(cs)@.lookups.last() == final(cs)@.lookups[index as int]);
        assert forall|i: int| #![trigger out@[i]] 0 <= i < out@.len() implies {
            &&& final(cs)@.lookups[index as int].inputs[i] == out@[i].0
            &&& final(cs)@.lookups[index as int].tables[i] matches Expression::Fixed(query)
            &&& query.column_index == out@[i].1.column().index
            &&& query.rotation == Rotation(0)
        } by {
            assert(columns[i] == out@[i].1.column());
        }
    }
}

/// What is hashed into a transcript is the representative of the key, and the domain, the
/// system and the key that are returned are those that are held.
pub proof fn lemma_key_parts<C: CurveAffine, R, T: FnOnce(C::Scalar) -> R>(
    vk: VerifyingKey<C>,
    pk: ProvingKey<C>,
    common_scalar: T,
    r: R,
    domain: &EvaluationDomain<C::Scalar>,
    of_pk: &VerifyingKey<C>,
    copy: VerifyingKey<C>,
)
    requires
        call_ensures(VerifyingKey::<C>::hash_into::<R, T>, (&vk, common_scalar), r),
        call_ensures(VerifyingKey::<C>::get_domain, (&vk,), domain),
        call_ensures(ProvingKey::<C>::get_vk, (&pk,), of_pk),
        call_ensures(<VerifyingKey<C> as Clone>::clone, (&vk,), copy),
    ensures
        common_scalar.ensures((vk.transcript_repr,), r),
        *domain == vk.domain,
        *of_pk == pk.vk,
        copy@ == vk@,
{
}

/// A reader starts at the first of its bytes, gives out as many as it is asked for, in their
/// order, and stands behind them from then on; asked for more than are left, it gives out none
/// and stays where it is.
pub proof fn lemma_bytes_given_out<'a>(bytes: &'a [u8], n: usize, fresh: Reader<'a>)
    requires
        call_ensures(Reader::<'a>::new, (bytes,), fresh),
    ensures
        fresh@ == bytes@,
        forall|reader: &mut Reader<'a>, r: Result<&'a [u8], ReadError>|
            *reader == fresh && #[trigger] call_ensures(
                Reader::<'a>::read_exact,
                (reader, n),
                r,
            ) ==> match r {
                Ok(taken) => taken@.len() == n && taken@ + final(reader)@ == bytes@,
                Err(e) => e == ReadError::UnexpectedEof && n > bytes@.len() && final(reader)@
                    == bytes@,
            },
{
    assert forall|reader: &mut Reader<'a>, r: Result<&'a [u8], ReadError>|
        *reader == fresh && #[trigger] call_ensures(
            Reader::<'a>::read_exact,
            (reader, n),
            r,
        ) implies (match r {
        Ok(taken) => taken@.len() == n && taken@ + final(reader)@ == bytes@,
        Err(e) => e == ReadError::UnexpectedEof && n > bytes@.len() && final(reader)@ == bytes@,
    }) by {
        if n <= bytes@.len() {
            assert(bytes@.take(n as int) + bytes@.skip(n as int) =~= bytes@);
        }
    }
}

/// A key with a given hash holds its parts, caches the degree of its system, and is represented
/// by the scalar that the hash stands for.
pub proof fn lemma_key_with_hash<C: CurveAffine>(
    domain: EvaluationDomain<C::Scalar>,
    fixed_commitments: Vec<C>,
    permutation: permutation::VerifyingKey<C>,
    cs: ConstraintSystem<C::Scalar>,
    selectors: Vec<Vec<bool>>,
    hash: &[u8; 64],
    vk: VerifyingKey<C>,
    degree: usize,
)
    requires
        call_ensures(
            VerifyingKey::<C>::with_hash,
            (domain, fixed_commitments, permutation, cs, selectors, hash),
            vk,
        ),
        call_ensures(ConstraintSystem::<C::Scalar>::degree, (&cs,), degree),
    ensures
        vk.domain == domain,
        vk.fixed_commitments@ == fixed_commitments@,
        vk.permutation@ == permutation@,
        vk.cs@ == cs@,
        vk.cs_degree == degree,
        vk.transcript_repr
            == <C::Scalar as crate::field::FromUniformBytes>::of_uniform_bytes(hash@),
        verifying_key::rows(vk.selectors@) == verifying_key::rows(selectors@),
{
    let model = vk@;
    assert(model.domain == domain);
}

/// A key that is read has the domain that is made for the degree of the system, and the system
/// that was given. It is read as well from a slice of bytes as from a reader.
pub proof fn lemma_domain_made<
    'a,
    C: CurveAffine,
    D: FnOnce(u32, u32) -> EvaluationDomain<C::Scalar>,
>(
    bytes: &[u8],
    params: Params,
    cs: ConstraintSystem<C::Scalar>,
    selectors: Vec<Vec<bool>>,
    new_domain: D,
    degree: usize,
)
    requires
        call_ensures(ConstraintSystem::<C::Scalar>::degree, (&cs,), degree),
        degree <= u32::MAX,
    ensures
        forall|vk: VerifyingKey<C>| #[trigger]
            call_ensures(
                VerifyingKey::<C>::from_bytes_with_cs::<D>,
                (bytes, &params, cs, selectors, new_domain),
                Ok::<VerifyingKey<C>, ReadError>(vk),
            ) ==> new_domain.ensures((degree as u32, params.k), vk.domain) && vk.cs@ == cs@
                && vk.cs_degree == degree,
        forall|reader: &mut Reader<'a>, vk: VerifyingKey<C>| #[trigger]
            call_ensures(
                VerifyingKey::<C>::read_with_cs::<D>,
                (reader, &params, cs, selectors, new_domain),
                Ok::<VerifyingKey<C>, ReadError>(vk),
            ) ==> new_domain.ensures((degree as u32, params.k), vk.domain) && vk.cs@ == cs@
                && vk.cs_degree == degree,
{
    assert(cs@.degree() % 0x1_0000_0000 == degree);
    assert forall|vk: VerifyingKey<C>| #[trigger]
        call_ensures(
            VerifyingKey::<C>::from_bytes_with_cs::<D>,
            (bytes, &params, cs, selectors, new_domain),
            Ok::<VerifyingKey<C>, ReadError>(vk),
        ) implies new_domain.ensures((degree as u32, params.k), vk.domain) && vk.cs@ == cs@
        && vk.cs_degree == degree by {
        let made = vk@;
        assert(made.domain == vk.domain);
    }
    assert forall|reader: &mut Reader<'a>, vk: VerifyingKey<C>| #[trigger]
        call_ensures(
            VerifyingKey::<C>::read_with_cs::<D>,
            (reader, &params, cs, selectors, new_domain),
            Ok::<VerifyingKey<C>, ReadError>(vk),
        ) implies new_domain.ensures((degree as u32, params.k), vk.domain) && vk.cs@ == cs@
        && vk.cs_degree == degree by {
        let made = vk@;
        assert(made.domain == vk.domain);
    }
}

/// A selector says that it is simple exactly if it was made as a simple one.
pub proof fn lemma_simple_made<F>()
    ensures
        forall|cs: &mut ConstraintSystem<F>, selector: Selector, simple: bool|
            #[trigger] call_ensures(ConstraintSystem::<F>::selector, (cs,), selector)
                && #[trigger] call_ensures(Selector::is_simple, (&selector,), simple) ==> simple,
        forall|cs: &mut ConstraintSystem<F>, selector: Selector, simple: bool|
            #[trigger] call_ensures(ConstraintSystem::<F>::complex_selector, (cs,), selector)
                && #[trigger] call_ensures(Selector::is_simple, (&selector,), simple) ==> !simple,
{
}

/// A column that can be used for constants takes part in the permutation argument, if it was not
/// such a column before; and a table column on which equality is enabled takes part in it as the
/// fixed column in which it is stored.
pub proof fn lemma_fixed_equality<F: Copy>()
    ensures
        forall|cs: &mut ConstraintSystem<F>, column: Column<Fixed>, columns: Vec<Column<Any>>|
            #[trigger] call_ensures(ConstraintSystem::<F>::enable_constant, (cs, column), ())
                && #[trigger] call_ensures(
                ConstraintSystem::<F>::get_permutation_columns,
                (final(cs),),
                columns,
            ) ==> final(cs)@.constants.contains(column) && ((*cs)@.constants.contains(column)
                || columns@.contains(Column { column_type: Any::Fixed, index: column.index })),
        forall|table: TableColumn, cs: &mut ConstraintSystem<F>, columns: Vec<Column<Any>>|
            #[trigger] call_ensures(TableColumn::enable_equality::<F>, (&table, cs), ())
                && #[trigger] call_ensures(
                ConstraintSystem::<F>::get_permutation_columns,
                (final(cs),),
                columns,
            ) ==> columns@.contains(
                Column { column_type: Any::Fixed, index: table.column().index },
            ),
{
    assert forall|cs: &mut ConstraintSystem<F>, column: Column<Fixed>, columns: Vec<Column<Any>>|
        #[trigger] call_ensures(ConstraintSystem::<F>::enable_constant, (cs, column), ())
            && #[trigger] call_ensures(
            ConstraintSystem::<F>::get_permutation_columns,
            (final(cs),),
            columns,
        ) implies final(cs)@.constants.contains(column) && ((*cs)@.constants.contains(column)
        || columns@.contains(Column { column_type: Any::Fixed, index: column.index })) by {
        laws::lemma_constant_enabled((*cs)@, column);
    }
    assert forall|table: TableColumn, cs: &mut ConstraintSystem<F>, columns: Vec<Column<Any>>|
        #[trigger] call_ensures(TableColumn::enable_equality::<F>, (&table, cs), ())
            && #[trigger] call_ensures(
            ConstraintSystem::<F>::get_permutation_columns,
            (final(cs),),
            columns,
        ) implies columns@.contains(
        Column { column_type: Any::Fixed, index: table.column().index },
    ) by {
        let column = table.column();
        assert(column.column_type == Fixed);
        laws::lemma_item_added((*cs)@.permutation, column.erased());
    }
}

} // verus!
