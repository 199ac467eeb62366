//! Custom gates: the constraints they are made of and the cells that they query.

use vstd::prelude::*;

use crate::codec;
use crate::codec::{ReadError, Reader};
use crate::column::{Advice, Any, Column, ColumnType, Fixed, Instance};
use crate::expression;
use crate::expression::{Expression, Selector};
use crate::field::PrimeField;
use crate::rotation::Rotation;

verus! {

/// A "virtual cell" is a PLONK cell that has been queried at a particular relative offset
/// within a custom gate.
#[derive(Clone, Copy, Debug)]
pub struct VirtualCell {
    /// The column of the cell.
    pub column: Column<Any>,
    /// The offset at which the cell is queried.
    pub rotation: Rotation,
}

impl<C: ColumnType> From<(Column<C>, Rotation)> for VirtualCell {
    fn from(cell: (Column<C>, Rotation)) -> (r: Self) {
        VirtualCell { column: cell.0.to_any(), rotation: cell.1 }
    }
}

impl<C: ColumnType> vstd::std_specs::convert::FromSpecImpl<(Column<C>, Rotation)> for VirtualCell {
    open spec fn obeys_from_spec() -> bool {
        true
    }

    open spec fn from_spec(cell: (Column<C>, Rotation)) -> Self {
        VirtualCell { column: cell.0.erased(), rotation: cell.1 }
    }
}

// ---------------------------------------------------------------------------------
// Constraints
// ---------------------------------------------------------------------------------

/// An individual polynomial constraint.
///
/// These are returned by the closures passed to `ConstraintSystem::create_gate`.
#[derive(Debug)]
pub struct Constraint<F> {
    /// The name of the constraint, which may be empty.
    pub name: &'static str,
    /// The polynomial that has to vanish.
    pub poly: Expression<F>,
}

impl<F> From<Expression<F>> for Constraint<F> {
    fn from(poly: Expression<F>) -> (r: Self) {
        Constraint { name: "", poly }
    }
}

impl<F> vstd::std_specs::convert::FromSpecImpl<Expression<F>> for Constraint<F> {
    open spec fn obeys_from_spec() -> bool {
        true
    }

    open spec fn from_spec(poly: Expression<F>) -> Self {
        Constraint { name: "", poly }
    }
}

impl<F> From<(&'static str, Expression<F>)> for Constraint<F> {
    fn from(named: (&'static str, Expression<F>)) -> (r: Self) {
        Constraint { name: named.0, poly: named.1 }
    }
}

impl<F> vstd::std_specs::convert::FromSpecImpl<(&'static str, Expression<F>)> for Constraint<F> {
    open spec fn obeys_from_spec() -> bool {
        true
    }

    open spec fn from_spec(named: (&'static str, Expression<F>)) -> Self {
        Constraint { name: named.0, poly: named.1 }
    }
}

impl<F> From<Expression<F>> for Vec<Constraint<F>> {
    fn from(poly: Expression<F>) -> (r: Self)
        ensures
            r@ == seq![Constraint { name: "", poly }],
    {
        let constraints = vec![Constraint { name: "", poly }];
        assert(constraints@ =~= seq![Constraint { name: "", poly }]);
        constraints
    }
}

impl<F> vstd::std_specs::convert::FromSpecImpl<Expression<F>> for Vec<Constraint<F>> {
    open spec fn obeys_from_spec() -> bool {
        false
    }

    open spec fn from_spec(poly: Expression<F>) -> Self {
        arbitrary()
    }
}

/// A value that stands for one constraint: a constraint, an expression, or an expression
/// with a name.
pub trait IntoConstraint<F>: Into<Constraint<F>> {
    /// The constraint that this value stands for.
    spec fn constraint(self) -> Constraint<F>;

    /// Returns the constraint that this value stands for.
    fn into_constraint(self) -> (constraint: Constraint<F>)
        ensures
            constraint == self.constraint(),
    ;
}

impl<F> IntoConstraint<F> for Constraint<F> {
    open spec fn constraint(self) -> Constraint<F> {
        self
    }

    fn into_constraint(self) -> (constraint: Constraint<F>) {
        self
    }
}

impl<F> IntoConstraint<F> for Expression<F> {
    open spec fn constraint(self) -> Constraint<F> {
        Constraint { name: "", poly: self }
    }

    fn into_constraint(self) -> (constraint: Constraint<F>) {
        Constraint::from(self)
    }
}

impl<F> IntoConstraint<F> for (&'static str, Expression<F>) {
    open spec fn constraint(self) -> Constraint<F> {
        Constraint { name: self.0, poly: self.1 }
    }

    fn into_constraint(self) -> (constraint: Constraint<F>) {
        Constraint::from(self)
    }
}

/// A value that stands for the constraints of a gate.
pub trait IntoConstraints<F>: Sized {
    /// States that this value can be turned into constraints.
    spec fn permitted(self) -> bool;

    /// The constraints that this value stands for.
    spec fn constraints(self) -> Seq<Constraint<F>>;

    /// Returns the constraints that this value stands for.
    fn into_constraints(self) -> (constraints: Vec<Constraint<F>>)
        requires
            self.permitted(),
        ensures
            constraints@ == self.constraints(),
    ;
}

impl<F, C: IntoConstraint<F>> IntoConstraints<F> for Vec<C> {
    open spec fn permitted(self) -> bool {
        true
    }

    open spec fn constraints(self) -> Seq<Constraint<F>> {
        self@.map_values(|c: C| c.constraint())
    }

    fn into_constraints(self) -> (constraints: Vec<Constraint<F>>) {
        let ghost given = self@;
        let ghost view = |c: C| c.constraint();
        let mut constraints: Vec<Constraint<F>> = Vec::new();
        for c in it: self
            invariant
                it.seq() == given,
                view == (|c: C| c.constraint()),
                constraints@ == given.take(it.index()).map_values(view),
        {
            constraints.push(c.into_constraint());
            assert(constraints@ =~= given.take(it.index() + 1).map_values(view));
        }
        assert(constraints@ =~= given.map_values(view));
        constraints
    }
}

/// Calls `Vec::from` on an array, which moves the items of the array into a vector.
#[verifier::external_body]
fn vec_from_array<T, const N: usize>(items: [T; N]) -> (r: Vec<T>)
    ensures
        r@ == items@,
{
    Vec::from(items)
}

impl<F, C: IntoConstraint<F>, const N: usize> IntoConstraints<F> for [C; N] {
    open spec fn permitted(self) -> bool {
        true
    }

    open spec fn constraints(self) -> Seq<Constraint<F>> {
        self@.map_values(|c: C| c.constraint())
    }

    fn into_constraints(self) -> (constraints: Vec<Constraint<F>>) {
        vec_from_array(self).into_constraints()
    }
}

/// A set of polynomial constraints with a common selector.
#[derive(Debug)]
pub struct Constraints<F, I: IntoConstraints<F>> {
    /// The common selector.
    pub selector: Expression<F>,
    /// The constraints that are controlled by the selector.
    pub constraints: I,
}

impl<F, I: IntoConstraints<F>> Constraints<F, I> {
    /// Constructs a set of constraints that are controlled by the given selector.
    ///
    /// Each constraint `c` in `constraints` will be converted into the constraint
    /// `selector * c`.
    pub fn with_selector(selector: Expression<F>, constraints: I) -> (r: Self)
        ensures
            r.selector == selector,
            r.constraints == constraints,
    {
        Constraints { selector, constraints }
    }
}

/// The constraint `c` under the control of `selector`.
pub open spec fn selected<F>(selector: Expression<F>, c: Constraint<F>) -> Constraint<F> {
    Constraint { name: c.name, poly: Expression::Product(Box::new(selector), Box::new(c.poly)) }
}

/// Puts a constraint under the control of a selector.
fn apply_selector_to_constraint<F: Copy, C: IntoConstraint<F>>(
    selector: Expression<F>,
    c: C,
) -> (r: Constraint<F>)
    requires
        !(selector.has_simple_selector() && c.constraint().poly.has_simple_selector()),
    ensures
        r == selected(selector, c.constraint()),
{
    let constraint = c.into_constraint();
    Constraint { name: constraint.name, poly: selector * constraint.poly }
}

impl<F: Copy, I: IntoConstraints<F>> IntoConstraints<F> for Constraints<F, I> {
    /// A simple selector cannot control a constraint that contains another one.
    open spec fn permitted(self) -> bool {
        &&& self.constraints.permitted()
        &&& self.selector.has_simple_selector() ==> forall|i: int|
            0 <= i < self.constraints.constraints().len()
                ==> !#[trigger] self.constraints.constraints()[i].poly.has_simple_selector()
    }

    open spec fn constraints(self) -> Seq<Constraint<F>> {
        self.constraints.constraints().map_values(|c: Constraint<F>| selected(self.selector, c))
    }

    fn into_constraints(self) -> (constraints: Vec<Constraint<F>>) {
        let selector = self.selector;
        let ghost given = self.constraints.constraints();
        let ghost view = |c: Constraint<F>| selected(selector, c);
        let mut constraints: Vec<Constraint<F>> = Vec::new();
        for c in it: self.constraints.into_constraints()
            invariant
                it.seq() == given,
                view == (|c: Constraint<F>| selected(selector, c)),
                constraints@ == given.take(it.index()).map_values(view),
                selector.has_simple_selector() ==> forall|i: int|
                    0 <= i < given.len() ==> !#[trigger] given[i].poly.has_simple_selector(),
        {
            assert(c == given[it.index()]);
            constraints.push(apply_selector_to_constraint(selector.clone(), c));
            assert(constraints@ =~= given.take(it.index() + 1).map_values(view));
        }
        assert(constraints@ =~= given.map_values(view));
        constraints
    }
}

// ---------------------------------------------------------------------------------
// Gates
// ---------------------------------------------------------------------------------

/// A custom gate: named polynomial constraints, with the selectors and cells that were
/// queried for them.
#[derive(Debug)]
pub struct Gate<F> {
    /// The name of this gate.
    pub name: &'static str,
    /// The names of the constraints.
    pub constraint_names: Vec<&'static str>,
    /// The polynomials that have to vanish.
    pub polys: Vec<Expression<F>>,
    /// We track queried selectors separately from other cells, so that we can use them to
    /// trigger debug checks on gates.
    pub queried_selectors: Vec<Selector>,
    /// The cells that were queried for this gate.
    pub queried_cells: Vec<VirtualCell>,
}

/// What a gate holds.
#[verifier::ext_equal]
pub struct GateModel<F> {
    /// The name of this gate.
    pub name: Seq<char>,
    /// The names of the constraints.
    pub constraint_names: Seq<Seq<char>>,
    /// The polynomials that have to vanish.
    pub polys: Seq<Expression<F>>,
    /// The selectors that were queried for this gate.
    pub queried_selectors: Seq<Selector>,
    /// The cells that were queried for this gate.
    pub queried_cells: Seq<VirtualCell>,
}

/// The texts of some names.
pub open spec fn texts(names: Seq<&'static str>) -> Seq<Seq<char>> {
    names.map_values(|name: &'static str| name@)
}

impl<F> View for Gate<F> {
    type V = GateModel<F>;

    open spec fn view(&self) -> GateModel<F> {
        GateModel {
            name: self.name@,
            constraint_names: texts(self.constraint_names@),
            polys: self.polys@,
            queried_selectors: self.queried_selectors@,
            queried_cells: self.queried_cells@,
        }
    }
}

impl<F: Copy> Clone for Gate<F> {
    fn clone(&self) -> (r: Self)
        ensures
            r@ == self@,
    {
        let r = Gate {
            name: self.name,
            constraint_names: self.constraint_names.clone(),
            polys: self.polys.clone(),
            queried_selectors: self.queried_selectors.clone(),
            queried_cells: self.queried_cells.clone(),
        };
        assert(r.constraint_names@ =~= self.constraint_names@);
        assert(r.polys@ =~= self.polys@);
        assert(r.queried_selectors@ =~= self.queried_selectors@);
        assert(r.queried_cells@ =~= self.queried_cells@);
        r
    }
}

impl<F> Gate<F> {
    /// The name of this gate.
    pub fn name(&self) -> (name: &'static str)
        ensures
            name@ == self@.name,
    {
        self.name
    }

    /// The name of the constraint with the given index.
    pub fn constraint_name(&self, constraint_index: usize) -> (name: &'static str)
        requires
            constraint_index < self@.constraint_names.len(),
        ensures
            name@ == self@.constraint_names[constraint_index as int],
    {
        self.constraint_names[constraint_index]
    }

    /// The polynomials of this gate.
    pub fn polynomials(&self) -> (polys: &[Expression<F>])
        ensures
            polys@ == self@.polys,
    {
        self.polys.as_slice()
    }

    /// The selectors that were queried for this gate.
    pub fn queried_selectors(&self) -> (selectors: &[Selector])
        ensures
            selectors@ == self@.queried_selectors,
    {
        self.queried_selectors.as_slice()
    }

    /// The cells that were queried for this gate.
    pub fn queried_cells(&self) -> (cells: &[VirtualCell])
        ensures
            cells@ == self@.queried_cells,
    {
        self.queried_cells.as_slice()
    }
}

// ---------------------------------------------------------------------------------
// Binary form
// ---------------------------------------------------------------------------------

/// The type of the column of a cell in one byte, the index of the column in two bytes, and
/// the rotation in four bytes.
pub open spec fn encode_cell(cell: VirtualCell) -> Seq<u8> {
    seq![cell.column.column_type.tag()] + codec::u16_le(cell.column.index as nat)
        + codec::i32_le(cell.rotation.0)
}

/// Reads a cell. Its type is looked at when all of it has been read.
pub open spec fn parse_cell(s: Seq<u8>) -> codec::Parsed<VirtualCell> {
    match codec::parse_u8(s) {
        Ok((tag, rest)) => match codec::parse_u16(rest) {
            Ok((index, rest)) => match codec::parse_i32(rest) {
                Ok((rotation, rest)) => match Any::of_tag(tag) {
                    Some(column_type) => Ok(
                        (
                            VirtualCell {
                                column: Column { column_type, index: index as usize },
                                rotation: Rotation(rotation),
                            },
                            rest,
                        ),
                    ),
                    None => Err(ReadError::InvalidColumnType(tag)),
                },
                Err(e) => Err(e),
            },
            Err(e) => Err(e),
        },
        Err(e) => Err(e),
    }
}

/// Appends a cell.
fn write_cell(writer: &mut Vec<u8>, cell: &VirtualCell)
    ensures
        final(writer)@ == old(writer)@ + encode_cell(*cell),
{
    writer.push(cell.column.column_type().to_tag());
    codec::write_u16(writer, cell.column.index());
    codec::write_i32(writer, cell.rotation.0);
    assert(writer@ =~= old(writer)@ + encode_cell(*cell));
}

/// Reads a cell.
fn read_cell(reader: &mut Reader<'_>) -> (r: Result<VirtualCell, ReadError>)
    ensures
        codec::reads(r, parse_cell(old(reader)@), old(reader)@, final(reader)@),
{
    let ghost start = reader@;
    let col_type = match codec::read_u8(reader) {
        Ok(col_type) => col_type,
        Err(e) => {
            return Err(e);
        },
    };
    let ghost typed = reader@;
    let col_index = codec::read_u16(reader);
    proof {
        codec::lemma_suffix_trans(reader@, typed, start);
    }
    let col_index = match col_index {
        Ok(col_index) => col_index as usize,
        Err(e) => {
            return Err(e);
        },
    };
    let ghost indexed = reader@;
    let rotation = codec::read_i32(reader);
    proof {
        codec::lemma_suffix_trans(reader@, indexed, start);
    }
    let rotation = match rotation {
        Ok(rotation) => Rotation(rotation),
        Err(e) => {
            return Err(e);
        },
    };
    match Any::from_tag(col_type) {
        Some(column_type) => Ok(
            VirtualCell { column: Column::new(col_index, column_type), rotation },
        ),
        None => Err(ReadError::InvalidColumnType(col_type)),
    }
}

/// A cell whose column index is below 65536 is read back as it was written.
pub proof fn lemma_cell_round_trip(cell: VirtualCell)
    requires
        cell.column.index < 0x1_0000,
    ensures
        codec::round_trips(cell, |v: VirtualCell| encode_cell(v), |s: Seq<u8>| parse_cell(s)),
{
    let encode = |v: VirtualCell| encode_cell(v);
    let parse = |s: Seq<u8>| parse_cell(s);
    let index = codec::u16_le(cell.column.index as nat);
    let rotation = codec::i32_le(cell.rotation.0);
    assert forall|tail: Seq<u8>| #[trigger]
        parse(encode(cell) + tail) == Ok::<(VirtualCell, Seq<u8>), ReadError>((cell, tail)) by {
        assert((encode(cell) + tail).skip(1) =~= index + (rotation + tail));
        codec::lemma_u16_round_trip(cell.column.index as nat, rotation + tail);
        codec::lemma_i32_round_trip(cell.rotation.0, tail);
    }
}

/// A name, then an expression.
pub open spec fn encode_constraint<F: PrimeField>(c: (Seq<char>, Expression<F>)) -> Seq<u8> {
    codec::encode_name(c.0) + c.1.encode()
}

/// Reads a name, then an expression.
pub open spec fn parse_constraint<F: PrimeField>(
    s: Seq<u8>,
    queries: expression::Queries,
) -> codec::Parsed<(Seq<char>, Expression<F>)> {
    match codec::parse_name(s) {
        Ok((name, rest)) => match expression::parse_expression::<F>(rest, queries) {
            Ok((poly, rest)) => Ok(((name, poly), rest)),
            Err(e) => Err(e),
        },
        Err(e) => Err(e),
    }
}

/// Reads a gate.
pub open spec fn parse_gate<F: PrimeField>(
    s: Seq<u8>,
    queries: expression::Queries,
) -> codec::Parsed<GateModel<F>> {
    match codec::parse_name(s) {
        Ok((name, rest)) => match codec::parse_counted(
            |s: Seq<u8>| parse_constraint::<F>(s, queries),
            rest,
        ) {
            Ok((named, rest)) => match codec::parse_counted(
                |s: Seq<u8>| expression::parse_selector(s),
                rest,
            ) {
                Ok((queried_selectors, rest)) => match codec::parse_counted(
                    |s: Seq<u8>| parse_cell(s),
                    rest,
                ) {
                    Ok((queried_cells, rest)) => Ok(
                        (
                            GateModel {
                                name,
                                constraint_names: named.map_values(
                                    |c: (Seq<char>, Expression<F>)| c.0,
                                ),
                                polys: named.map_values(|c: (Seq<char>, Expression<F>)| c.1),
                                queried_selectors,
                                queried_cells,
                            },
                            rest,
                        ),
                    ),
                    Err(e) => Err(e),
                },
                Err(e) => Err(e),
            },
            Err(e) => Err(e),
        },
        Err(e) => Err(e),
    }
}

impl<F: PrimeField> GateModel<F> {
    /// The polynomials with their names. Where there are too few names, the last
    /// polynomials have an empty one.
    pub open spec fn named_polys(self) -> Seq<(Seq<char>, Expression<F>)> {
        Seq::new(
            self.polys.len(),
            |i: int|
                (
                    if i < self.constraint_names.len() {
                        self.constraint_names[i]
                    } else {
                        ""@
                    },
                    self.polys[i],
                ),
        )
    }

    /// The binary form of this gate.
    pub open spec fn encode(self) -> Seq<u8> {
        codec::encode_name(self.name) + codec::encode_counted(
            self.named_polys(),
            |c: (Seq<char>, Expression<F>)| encode_constraint(c),
        ) + codec::encode_counted(
            self.queried_selectors,
            |v: Selector| expression::encode_selector(v),
        ) + codec::encode_counted(self.queried_cells, |v: VirtualCell| encode_cell(v))
    }

    /// States that the binary form of this gate says all there is to say of it where the
    /// queries are `queries`: every polynomial has a name, and all lengths and indices fit
    /// in two bytes.
    pub open spec fn encodable(self, queries: expression::Queries) -> bool {
        &&& vstd::utf8::encode_utf8(self.name).len() < 0x1_0000
        &&& self.constraint_names.len() == self.polys.len()
        &&& self.polys.len() < 0x1_0000
        &&& forall|i: int|
            0 <= i < self.constraint_names.len() ==> vstd::utf8::encode_utf8(
                #[trigger] self.constraint_names[i],
            ).len() < 0x1_0000
        &&& forall|i: int| 0 <= i < self.polys.len() ==> (#[trigger] self.polys[i]).encodable(
            queries,
        )
        &&& self.queried_selectors.len() < 0x1_0000
        &&& forall|i: int|
            0 <= i < self.queried_selectors.len() ==> (#[trigger] self.queried_selectors[i]).0
                < 0x1_0000
        &&& self.queried_cells.len() < 0x1_0000
        &&& forall|i: int|
            0 <= i < self.queried_cells.len() ==> (
            #[trigger] self.queried_cells[i]).column.index < 0x1_0000
    }
}

/// Calls `String::leak`: the same text, which is never freed.
#[verifier::external_body]
fn leak_string(text: String) -> (leaked: &'static str)
    ensures
        leaked@ == text@,
{
    String::leak(text)
}

/// Reads a name, which is never freed.
fn read_static_name(reader: &mut Reader<'_>) -> (r: Result<&'static str, ReadError>)
    ensures
        codec::reads(
            codec::described(r, |name: &'static str| name@),
            codec::parse_name(old(reader)@),
            old(reader)@,
            final(reader)@,
        ),
{
    match codec::read_name(reader) {
        Ok(name) => Ok(leak_string(name)),
        Err(e) => Err(e),
    }
}

/// What a named polynomial holds.
pub open spec fn named_view<F>(c: (&'static str, Expression<F>)) -> (Seq<char>, Expression<F>) {
    (c.0@, c.1)
}

/// Reads a named polynomial.
fn read_constraint<F: PrimeField>(
    reader: &mut Reader<'_>,
    fixed_queries: &[(Column<Fixed>, Rotation)],
    advice_queries: &[(Column<Advice>, Rotation)],
    instance_queries: &[(Column<Instance>, Rotation)],
) -> (r: Result<(&'static str, Expression<F>), ReadError>)
    ensures
        codec::reads(
            codec::described(r, |c: (&'static str, Expression<F>)| named_view(c)),
            parse_constraint::<F>(
                old(reader)@,
                expression::queries_of(fixed_queries, advice_queries, instance_queries),
            ),
            old(reader)@,
            final(reader)@,
        ),
{
    let ghost start = reader@;
    let name = match read_static_name(reader) {
        Ok(name) => name,
        Err(e) => {
            return Err(e);
        },
    };
    let ghost named = reader@;
    let poly = Expression::read(reader, fixed_queries, advice_queries, instance_queries);
    proof {
        codec::lemma_suffix_trans(reader@, named, start);
    }
    match poly {
        Ok(poly) => Ok((name, poly)),
        Err(e) => Err(e),
    }
}

/// Splits named polynomials into the names and the polynomials.
fn unzip_constraints<F>(named: Vec<(&'static str, Expression<F>)>) -> (r: (
    Vec<&'static str>,
    Vec<Expression<F>>,
))
    ensures
        r.0@ == named@.map_values(|c: (&'static str, Expression<F>)| c.0),
        r.1@ == named@.map_values(|c: (&'static str, Expression<F>)| c.1),
{
    let ghost given = named@;
    let ghost first = |c: (&'static str, Expression<F>)| c.0;
    let ghost second = |c: (&'static str, Expression<F>)| c.1;
    let mut names: Vec<&'static str> = Vec::new();
    let mut polys: Vec<Expression<F>> = Vec::new();
    for c in it: named
        invariant
            it.seq() == given,
            first == (|c: (&'static str, Expression<F>)| c.0),
            second == (|c: (&'static str, Expression<F>)| c.1),
            names@ == given.take(it.index()).map_values(first),
            polys@ == given.take(it.index()).map_values(second),
    {
        let (name, poly) = c;
        names.push(name);
        polys.push(poly);
        assert(names@ =~= given.take(it.index() + 1).map_values(first));
        assert(polys@ =~= given.take(it.index() + 1).map_values(second));
    }
    assert(given.take(given.len() as int) =~= given);
    (names, polys)
}

impl<F: PrimeField> Gate<F> {
    /// Writes this gate in binary form:
    ///
    /// - the name of this gate
    /// - the number of constraints, then the name and the polynomial of each
    /// - the number of queried selectors, then each of them
    /// - the number of queried cells, then each of them
    ///
    /// Numbers take two bytes. A name is its length in bytes, in two bytes, and its UTF-8
    /// form.
    pub fn write(&self, writer: &mut Vec<u8>)
        ensures
            final(writer)@ == old(writer)@ + self@.encode(),
    {
        let ghost start = writer@;
        let ghost named = self@.named_polys();
        let ghost encode = |c: (Seq<char>, Expression<F>)| encode_constraint(c);

        // Write gate name
        codec::write_name(writer, self.name);

        // Write constraints (name + expression pairs)
        codec::write_u16(writer, self.polys.len());
        let ghost counted = writer@;
        let mut i: usize = 0;
        assert(named.take(0) =~= seq![]);
        assert(counted =~= counted + codec::encode_list(named.take(0), encode));
        while i < self.polys.len()
            invariant
                i <= self.polys.len(),
                named == self@.named_polys(),
                encode == (|c: (Seq<char>, Expression<F>)| encode_constraint(c)),
                writer@ == counted + codec::encode_list(named.take(i as int), encode),
            decreases self.polys.len() - i,
        {
            let constraint_name = if i < self.constraint_names.len() {
                self.constraint_names[i]
            } else {
                ""
            };
            codec::write_name(writer, constraint_name);
            self.polys[i].write(writer);
            proof {
                assert(named.take(i + 1).drop_last() =~= named.take(i as int));
                assert(named.take(i + 1).last() == (constraint_name@, self.polys@[i as int]));
                assert(writer@ =~= counted + codec::encode_list(named.take(i + 1), encode));
            }
            i = i + 1;
        }
        assert(named.take(i as int) =~= named);

        // Write queried selectors
        let ghost same_selector = |v: Selector| v;
        let ghost same_cell = |v: VirtualCell| v;
        let write_one = |x: &mut Vec<u8>, v: &Selector|
            ensures
                final(x)@ == old(x)@ + expression::encode_selector(*v),
            {
                expression::write_selector(x, v);
            };
        codec::write_counted::<Selector, Selector, _>(
            writer,
            &self.queried_selectors,
            write_one,
            Ghost(same_selector),
            Ghost(|v: Selector| expression::encode_selector(v)),
        );

        // Write queried cells
        let write_one = |x: &mut Vec<u8>, v: &VirtualCell|
            ensures
                final(x)@ == old(x)@ + encode_cell(*v),
            {
                write_cell(x, v);
            };
        codec::write_counted::<VirtualCell, VirtualCell, _>(
            writer,
            &self.queried_cells,
            write_one,
            Ghost(same_cell),
            Ghost(|v: VirtualCell| encode_cell(v)),
        );
        proof {
            assert(self.queried_selectors@.map_values(same_selector)
                =~= self.queried_selectors@);
            assert(self.queried_cells@.map_values(same_cell) =~= self.queried_cells@);
            assert(writer@ =~= start + self@.encode());
        }
    }

    /// Reads a gate from its binary form.
    ///
    /// This leaks the name strings to create `&'static str` references, which is acceptable
    /// for verification contexts where gates are loaded once.
    pub fn read(
        reader: &mut Reader<'_>,
        fixed_queries: &[(Column<Fixed>, Rotation)],
        advice_queries: &[(Column<Advice>, Rotation)],
        instance_queries: &[(Column<Instance>, Rotation)],
    ) -> (r: Result<Self, ReadError>)
        ensures
            codec::reads_view(
                r,
                parse_gate::<F>(
                    old(reader)@,
                    expression::queries_of(fixed_queries, advice_queries, instance_queries),
                ),
                old(reader)@,
                final(reader)@,
            ),
    {
        let ghost queries = expression::queries_of(fixed_queries, advice_queries, instance_queries);
        let ghost start = reader@;

        // Read gate name
        let name = match read_static_name(reader) {
            Ok(name) => name,
            Err(e) => {
                return Err(e);
            },
        };

        // Read constraints
        let ghost before = reader@;
        let read_one = |x: &mut Reader<'_>| -> (out: Result<
            (&'static str, Expression<F>),
            ReadError,
        >)
            ensures
                codec::reads(
                    codec::described(out, |c: (&'static str, Expression<F>)| named_view(c)),
                    parse_constraint::<F>(
                        old(x)@,
                        expression::queries_of(fixed_queries, advice_queries, instance_queries),
                    ),
                    old(x)@,
                    final(x)@,
                ),
            { read_constraint::<F>(x, fixed_queries, advice_queries, instance_queries) };
        let named = codec::read_counted::<
            (&'static str, Expression<F>),
            (Seq<char>, Expression<F>),
            _,
        >(
            reader,
            read_one,
            Ghost(|c: (&'static str, Expression<F>)| named_view(c)),
            Ghost(|s: Seq<u8>| parse_constraint::<F>(s, queries)),
        );
        proof {
            codec::lemma_suffix_trans(reader@, before, start);
        }
        let named = match named {
            Ok(named) => named,
            Err(e) => {
                return Err(e);
            },
        };

        // Read queried selectors
        let ghost before = reader@;
        let ghost same_selector = |v: Selector| v;
        let read_one = |x: &mut Reader<'_>| -> (out: Result<Selector, ReadError>)
            ensures
                codec::reads(out, expression::parse_selector(old(x)@), old(x)@, final(x)@),
            { expression::read_selector(x) };
        let queried_selectors = codec::read_counted::<Selector, Selector, _>(
            reader,
            read_one,
            Ghost(same_selector),
            Ghost(|s: Seq<u8>| expression::parse_selector(s)),
        );
        proof {
            codec::lemma_suffix_trans(reader@, before, start);
        }
        let queried_selectors = match queried_selectors {
            Ok(queried_selectors) => queried_selectors,
            Err(e) => {
                return Err(e);
            },
        };

        // Read queried cells
        let ghost before = reader@;
        let ghost same_cell = |v: VirtualCell| v;
        let read_one = |x: &mut Reader<'_>| -> (out: Result<VirtualCell, ReadError>)
            ensures
                codec::reads(out, parse_cell(old(x)@), old(x)@, final(x)@),
            { read_cell(x) };
        let queried_cells = codec::read_counted::<VirtualCell, VirtualCell, _>(
            reader,
            read_one,
            Ghost(same_cell),
            Ghost(|s: Seq<u8>| parse_cell(s)),
        );
        proof {
            codec::lemma_suffix_trans(reader@, before, start);
        }
        let queried_cells = match queried_cells {
            Ok(queried_cells) => queried_cells,
            Err(e) => {
                return Err(e);
            },
        };

        let ghost pairs = named@.map_values(|c: (&'static str, Expression<F>)| named_view(c));
        let (constraint_names, polys) = unzip_constraints(named);
        let gate = Gate { name, constraint_names, polys, queried_selectors, queried_cells };
        proof {
            assert(gate@.constraint_names =~= pairs.map_values(
                |c: (Seq<char>, Expression<F>)| c.0,
            ));
            assert(gate@.polys =~= pairs.map_values(|c: (Seq<char>, Expression<F>)| c.1));
            assert(queried_selectors@.map_values(same_selector) =~= queried_selectors@);
            assert(queried_cells@.map_values(same_cell) =~= queried_cells@);
        }
        Ok(gate)
    }
}

/// A named polynomial is read back from its binary form.
proof fn lemma_constraint_round_trip<F: PrimeField>(
    c: (Seq<char>, Expression<F>),
    queries: expression::Queries,
)
    requires
        vstd::utf8::encode_utf8(c.0).len() < 0x1_0000,
        c.1.encodable(queries),
    ensures
        codec::round_trips(
            c,
            |c: (Seq<char>, Expression<F>)| encode_constraint(c),
            |s: Seq<u8>| parse_constraint::<F>(s, queries),
        ),
{
    let encode = |c: (Seq<char>, Expression<F>)| encode_constraint(c);
    let parse = |s: Seq<u8>| parse_constraint::<F>(s, queries);
    assert forall|tail: Seq<u8>| #[trigger]
        parse(encode(c) + tail) == Ok::<((Seq<char>, Expression<F>), Seq<u8>), ReadError>(
            (c, tail),
        ) by {
        assert(encode(c) + tail =~= codec::encode_name(c.0) + (c.1.encode() + tail));
        codec::lemma_name_round_trip(c.0, c.1.encode() + tail);
        expression::lemma_expression_round_trip(c.1, queries, tail);
    }
}

/// A gate is read back from its binary form, whatever stands behind it.
pub proof fn lemma_gate_round_trip<F: PrimeField>(
    gate: GateModel<F>,
    queries: expression::Queries,
    tail: Seq<u8>,
)
    requires
        gate.encodable(queries),
    ensures
        parse_gate::<F>(gate.encode() + tail, queries) == Ok::<(GateModel<F>, Seq<u8>), ReadError>(
            (gate, tail),
        ),
{
    let named = gate.named_polys();
    let encode_c = |c: (Seq<char>, Expression<F>)| encode_constraint(c);
    let parse_c = |s: Seq<u8>| parse_constraint::<F>(s, queries);
    let encode_s = |v: Selector| expression::encode_selector(v);
    let parse_s = |s: Seq<u8>| expression::parse_selector(s);
    let encode_v = |v: VirtualCell| encode_cell(v);
    let parse_v = |s: Seq<u8>| parse_cell(s);

    let cells = codec::encode_counted(gate.queried_cells, encode_v) + tail;
    let selectors = codec::encode_counted(gate.queried_selectors, encode_s) + cells;
    let constraints = codec::encode_counted(named, encode_c) + selectors;
    codec::lemma_concat_4(
        codec::encode_name(gate.name),
        codec::encode_counted(named, encode_c),
        codec::encode_counted(gate.queried_selectors, encode_s),
        codec::encode_counted(gate.queried_cells, encode_v),
        tail,
    );
    codec::lemma_name_round_trip(gate.name, constraints);

    assert forall|i: int| 0 <= i < named.len() implies codec::round_trips(
        #[trigger] named[i],
        encode_c,
        parse_c,
    ) by {
        assert(gate.constraint_names[i] == named[i].0);
        assert(gate.polys[i] == named[i].1);
        lemma_constraint_round_trip(named[i], queries);
    }
    codec::lemma_counted_round_trip(named, encode_c, parse_c, selectors);

    assert forall|i: int| 0 <= i < gate.queried_selectors.len() implies codec::round_trips(
        #[trigger] gate.queried_selectors[i],
        encode_s,
        parse_s,
    ) by {
        expression::lemma_selector_round_trip(gate.queried_selectors[i]);
    }
    codec::lemma_counted_round_trip(gate.queried_selectors, encode_s, parse_s, cells);

    assert forall|i: int| 0 <= i < gate.queried_cells.len() implies codec::round_trips(
        #[trigger] gate.queried_cells[i],
        encode_v,
        parse_v,
    ) by {
        lemma_cell_round_trip(gate.queried_cells[i]);
    }
    codec::lemma_counted_round_trip(gate.queried_cells, encode_v, parse_v, tail);

    assert(named.map_values(|c: (Seq<char>, Expression<F>)| c.0) =~= gate.constraint_names);
    assert(named.map_values(|c: (Seq<char>, Expression<F>)| c.1) =~= gate.polys);
}

/// A gate that was read can be written and read back.
pub proof fn lemma_parsed_gate<F: PrimeField>(s: Seq<u8>, queries: expression::Queries)
    ensures
        parse_gate::<F>(s, queries) matches Ok((gate, _)) ==> gate.encodable(queries),
{
    let parse_c = |s: Seq<u8>| parse_constraint::<F>(s, queries);
    let good_c = |c: (Seq<char>, Expression<F>)|
        vstd::utf8::encode_utf8(c.0).len() < 0x1_0000 && c.1.encodable(queries);
    assert forall|s: Seq<u8>| (#[trigger] parse_c(s)) matches Ok((c, _)) implies good_c(
        parse_c(s)->Ok_0.0,
    ) by {
        codec::lemma_parsed_name(s);
        if let Ok((_, rest)) = codec::parse_name(s) {
            expression::lemma_parsed_expression::<F>(rest, queries);
        }
    }
    let parse_s = |s: Seq<u8>| expression::parse_selector(s);
    let good_s = |v: Selector| v.0 < 0x1_0000;
    let parse_v = |s: Seq<u8>| parse_cell(s);
    let good_v = |v: VirtualCell| v.column.index < 0x1_0000;
    codec::lemma_parsed_name(s);
    if let Ok((name, rest)) = codec::parse_name(s) {
        codec::lemma_parsed_counted(parse_c, rest, good_c);
        if let Ok((named, rest)) = codec::parse_counted(parse_c, rest) {
            codec::lemma_parsed_counted(parse_s, rest, good_s);
            if let Ok((_, rest)) = codec::parse_counted(parse_s, rest) {
                codec::lemma_parsed_counted(parse_v, rest, good_v);
                if let Ok((gate, _)) = parse_gate::<F>(s, queries) {
                    assert forall|i: int| 0 <= i < gate.constraint_names.len() implies
                        vstd::utf8::encode_utf8(#[trigger] gate.constraint_names[i]).len()
                        < 0x1_0000 by {
                        assert(good_c(named[i]));
                    }
                    assert forall|i: int| 0 <= i < gate.polys.len() implies (
                    #[trigger] gate.polys[i]).encodable(queries) by {
                        assert(good_c(named[i]));
                    }
                    assert forall|i: int| 0 <= i < gate.queried_selectors.len() implies (
                    #[trigger] gate.queried_selectors[i]).0 < 0x1_0000 by {
                        assert(good_s(gate.queried_selectors[i]));
                    }
                    assert forall|i: int| 0 <= i < gate.queried_cells.len() implies (
                    #[trigger] gate.queried_cells[i]).column.index < 0x1_0000 by {
                        assert(good_v(gate.queried_cells[i]));
                    }
                }
            }
        }
    }
}

} // verus!
