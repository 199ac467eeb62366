//! Columns of a circuit, their kinds, and the order in which they are laid out.

use core::cmp::Ordering;
use core::fmt;
use core::fmt::{Debug, Formatter};

use vstd::prelude::*;
use vstd::string::StringExecFns;

use crate::debug;

verus! {

/// A column type.
pub trait ColumnType:
    'static + Sized + Copy + std::fmt::Debug + PartialEq + Eq + Into<Any>
{
    /// The kind of column that a value of this type stands for.
    spec fn kind(self) -> Any;

    /// Returns the kind of column that this value stands for.
    fn to_any(self) -> (any: Any)
        ensures
            any == self.kind(),
    ;
}

/// A column with an index and type.
#[derive(Copy, Eq, PartialEq, Hash, Ord)]
pub struct Column<C: ColumnType> {
    /// The type of the column. Columns are ordered by type first.
    pub column_type: C,
    /// The index of the column among the columns of its type.
    pub index: usize,
}

impl<C: ColumnType> Clone for Column<C> {
    fn clone(&self) -> (r: Self)
        ensures
            r == *self,
    {
        *self
    }
}

impl<C: ColumnType> Debug for Column<C> {
    fn fmt(&self, f: &mut Formatter<'_>) -> (r: fmt::Result) {
        let mut builder = debug::start_struct(f, "Column");
        debug::struct_field(&mut builder, "index", &self.index);
        debug::struct_field(&mut builder, "column_type", &self.column_type);
        debug::finish_struct(&mut builder)
    }
}

impl<C: ColumnType> Column<C> {
    /// Creates a new column with the given index and type.
    pub fn new(index: usize, column_type: C) -> (column: Self)
        ensures
            column == (Column { column_type, index }),
    {
        Column { column_type, index }
    }

    /// Index of this column.
    pub fn index(&self) -> (index: usize)
        ensures
            index == self.index,
    {
        self.index
    }

    /// Index of this column.
    pub fn get_index(&self) -> (index: usize)
        ensures
            index == self.index,
    {
        self.index()
    }

    /// Type of this column.
    pub fn column_type(&self) -> (column_type: &C)
        ensures
            *column_type == self.column_type,
    {
        &self.column_type
    }

    /// The same column with its type forgotten: the kind is kept as a value.
    pub open spec fn erased(self) -> Column<Any> {
        Column { column_type: self.column_type.kind(), index: self.index }
    }

    /// The index of this column as a mathematical integer.
    pub open spec fn position(self) -> int {
        self.index as int
    }

    /// Returns the same column with its type forgotten.
    pub fn to_any(self) -> (column: Column<Any>)
        ensures
            column == self.erased(),
    {
        Column { column_type: self.column_type.to_any(), index: self.index }
    }
}

/// An advice column.
#[derive(Clone, Copy, Debug, Eq, PartialEq, Hash, PartialOrd, Ord, Structural)]
pub struct Advice;

/// A fixed column.
#[derive(Clone, Copy, Debug, Eq, PartialEq, Hash, PartialOrd, Ord, Structural)]
pub struct Fixed;

/// An instance column.
#[derive(Clone, Copy, Debug, Eq, PartialEq, Hash, PartialOrd, Ord, Structural)]
pub struct Instance;

/// An enum over the Advice, Fixed, Instance structs.
///
/// The variants stand in the order in which the columns are sorted. This ordering is
/// consensus-critical: the layouters rely on deterministic column orderings.
#[derive(Clone, Copy, Debug, Eq, PartialEq, Hash, Ord, Structural)]
pub enum Any {
    /// An Instance variant
    Instance,
    /// An Advice variant
    Advice,
    /// A Fixed variant
    Fixed,
}

impl Any {
    /// The place of this kind in the order of kinds: Instance < Advice < Fixed.
    pub open spec fn rank(self) -> int {
        match self {
            Any::Instance => 0,
            Any::Advice => 1,
            Any::Fixed => 2,
        }
    }

    /// How this kind is printed.
    pub open spec fn text(self) -> Seq<char> {
        match self {
            Any::Advice => "Advice"@,
            Any::Fixed => "Fixed"@,
            Any::Instance => "Instance"@,
        }
    }

    /// Appends how this kind is printed.
    pub fn append_text(&self, out: &mut String)
        ensures
            final(out)@ == old(out)@ + self.text(),
    {
        match self {
            Any::Advice => out.append("Advice"),
            Any::Fixed => out.append("Fixed"),
            Any::Instance => out.append("Instance"),
        }
    }

    /// The byte that stands for this kind in the binary form of a column.
    pub open spec fn tag(self) -> u8 {
        match self {
            Any::Fixed => 0,
            Any::Advice => 1,
            Any::Instance => 2,
        }
    }

    /// Returns the byte that stands for this kind in the binary form of a column.
    pub fn to_tag(self) -> (tag: u8)
        ensures
            tag == self.tag(),
    {
        match self {
            Any::Fixed => 0,
            Any::Advice => 1,
            Any::Instance => 2,
        }
    }

    /// Returns the kind that a byte stands for, if there is one.
    pub fn from_tag(tag: u8) -> (kind: Option<Any>)
        ensures
            kind == Any::of_tag(tag),
    {
        match tag {
            0 => Some(Any::Fixed),
            1 => Some(Any::Advice),
            2 => Some(Any::Instance),
            _ => None,
        }
    }

    /// The kind that a byte stands for, if there is one.
    pub open spec fn of_tag(tag: u8) -> Option<Any> {
        if tag == 0 {
            Some(Any::Fixed)
        } else if tag == 1 {
            Some(Any::Advice)
        } else if tag == 2 {
            Some(Any::Instance)
        } else {
            None
        }
    }
}

/// How two integers compare.
pub open spec fn int_order(a: int, b: int) -> Ordering {
    if a < b {
        Ordering::Less
    } else if a == b {
        Ordering::Equal
    } else {
        Ordering::Greater
    }
}

impl PartialOrd for Any {
    fn partial_cmp(&self, other: &Self) -> (order: Option<Ordering>) {
        Some(
            match (self, other) {
                (Any::Instance, Any::Instance)
                | (Any::Advice, Any::Advice)
                | (Any::Fixed, Any::Fixed) => Ordering::Equal,
                // Across column types, sort Instance < Advice < Fixed.
                (Any::Instance, Any::Advice)
                | (Any::Advice, Any::Fixed)
                | (Any::Instance, Any::Fixed) => Ordering::Less,
                (Any::Fixed, Any::Instance)
                | (Any::Fixed, Any::Advice)
                | (Any::Advice, Any::Instance) => Ordering::Greater,
            },
        )
    }
}

impl vstd::std_specs::cmp::PartialOrdSpecImpl for Any {
    open spec fn obeys_partial_cmp_spec() -> bool {
        true
    }

    open spec fn partial_cmp_spec(&self, other: &Self) -> Option<Ordering> {
        Some(int_order(self.rank(), other.rank()))
    }
}

/// The order of columns: by kind first, then by index, because indices are assigned
/// within column types.
pub open spec fn column_order<C: ColumnType>(a: Column<C>, b: Column<C>) -> Ordering {
    match int_order(a.column_type.kind().rank(), b.column_type.kind().rank()) {
        Ordering::Equal => int_order(a.position(), b.position()),
        order => order,
    }
}

impl<C: ColumnType> PartialOrd for Column<C> {
    fn partial_cmp(&self, other: &Self) -> (order: Option<Ordering>) {
        match self.column_type.to_any().partial_cmp(&other.column_type.to_any()) {
            // Indices are assigned within column types.
            Some(Ordering::Equal) => Some(
                if self.index < other.index {
                    Ordering::Less
                } else if self.index == other.index {
                    Ordering::Equal
                } else {
                    Ordering::Greater
                },
            ),
            order => order,
        }
    }
}

impl<C: ColumnType> vstd::std_specs::cmp::PartialOrdSpecImpl for Column<C> {
    open spec fn obeys_partial_cmp_spec() -> bool {
        true
    }

    open spec fn partial_cmp_spec(&self, other: &Self) -> Option<Ordering> {
        Some(column_order(*self, *other))
    }
}

impl ColumnType for Advice {
    open spec fn kind(self) -> Any {
        Any::Advice
    }

    fn to_any(self) -> (any: Any) {
        Any::Advice
    }
}

impl ColumnType for Fixed {
    open spec fn kind(self) -> Any {
        Any::Fixed
    }

    fn to_any(self) -> (any: Any) {
        Any::Fixed
    }
}

impl ColumnType for Instance {
    open spec fn kind(self) -> Any {
        Any::Instance
    }

    fn to_any(self) -> (any: Any) {
        Any::Instance
    }
}

impl ColumnType for Any {
    open spec fn kind(self) -> Any {
        self
    }

    fn to_any(self) -> (any: Any) {
        self
    }
}

impl From<Advice> for Any {
    fn from(_v: Advice) -> (any: Any) {
        Any::Advice
    }
}

impl vstd::std_specs::convert::FromSpecImpl<Advice> for Any {
    open spec fn obeys_from_spec() -> bool {
        true
    }

    open spec fn from_spec(v: Advice) -> Any {
        Any::Advice
    }
}

impl From<Fixed> for Any {
    fn from(_v: Fixed) -> (any: Any) {
        Any::Fixed
    }
}

impl vstd::std_specs::convert::FromSpecImpl<Fixed> for Any {
    open spec fn obeys_from_spec() -> bool {
        true
    }

    open spec fn from_spec(v: Fixed) -> Any {
        Any::Fixed
    }
}

impl From<Instance> for Any {
    fn from(_v: Instance) -> (any: Any) {
        Any::Instance
    }
}

impl vstd::std_specs::convert::FromSpecImpl<Instance> for Any {
    open spec fn obeys_from_spec() -> bool {
        true
    }

    open spec fn from_spec(v: Instance) -> Any {
        Any::Instance
    }
}

impl From<Column<Advice>> for Column<Any> {
    fn from(advice: Column<Advice>) -> (column: Column<Any>) {
        Column { column_type: Any::Advice, index: advice.index() }
    }
}

impl vstd::std_specs::convert::FromSpecImpl<Column<Advice>> for Column<Any> {
    open spec fn obeys_from_spec() -> bool {
        true
    }

    open spec fn from_spec(advice: Column<Advice>) -> Column<Any> {
        advice.erased()
    }
}

impl From<Column<Fixed>> for Column<Any> {
    fn from(fixed: Column<Fixed>) -> (column: Column<Any>) {
        Column { column_type: Any::Fixed, index: fixed.index() }
    }
}

impl vstd::std_specs::convert::FromSpecImpl<Column<Fixed>> for Column<Any> {
    open spec fn obeys_from_spec() -> bool {
        true
    }

    open spec fn from_spec(fixed: Column<Fixed>) -> Column<Any> {
        fixed.erased()
    }
}

impl From<Column<Instance>> for Column<Any> {
    fn from(instance: Column<Instance>) -> (column: Column<Any>) {
        Column { column_type: Any::Instance, index: instance.index() }
    }
}

impl vstd::std_specs::convert::FromSpecImpl<Column<Instance>> for Column<Any> {
    open spec fn obeys_from_spec() -> bool {
        true
    }

    open spec fn from_spec(instance: Column<Instance>) -> Column<Any> {
        instance.erased()
    }
}

impl TryFrom<Column<Any>> for Column<Advice> {
    type Error = &'static str;

    fn try_from(any: Column<Any>) -> (column: Result<Self, Self::Error>) {
        match any.column_type() {
            Any::Advice => Ok(Column { column_type: Advice, index: any.index() }),
            _ => Err("Cannot convert into Column<Advice>"),
        }
    }
}

impl vstd::std_specs::convert::TryFromSpecImpl<Column<Any>> for Column<Advice> {
    open spec fn obeys_try_from_spec() -> bool {
        true
    }

    open spec fn try_from_spec(any: Column<Any>) -> Result<Self, Self::Error> {
        if any.column_type == Any::Advice {
            Ok(Column { column_type: Advice, index: any.index })
        } else {
            Err("Cannot convert into Column<Advice>")
        }
    }
}

impl TryFrom<Column<Any>> for Column<Fixed> {
    type Error = &'static str;

    fn try_from(any: Column<Any>) -> (column: Result<Self, Self::Error>) {
        match any.column_type() {
            Any::Fixed => Ok(Column { column_type: Fixed, index: any.index() }),
            _ => Err("Cannot convert into Column<Fixed>"),
        }
    }
}

impl vstd::std_specs::convert::TryFromSpecImpl<Column<Any>> for Column<Fixed> {
    open spec fn obeys_try_from_spec() -> bool {
        true
    }

    open spec fn try_from_spec(any: Column<Any>) -> Result<Self, Self::Error> {
        if any.column_type == Any::Fixed {
            Ok(Column { column_type: Fixed, index: any.index })
        } else {
            Err("Cannot convert into Column<Fixed>")
        }
    }
}

impl TryFrom<Column<Any>> for Column<Instance> {
    type Error = &'static str;

    fn try_from(any: Column<Any>) -> (column: Result<Self, Self::Error>) {
        match any.column_type() {
            Any::Instance => Ok(Column { column_type: Instance, index: any.index() }),
            _ => Err("Cannot convert into Column<Instance>"),
        }
    }
}

impl vstd::std_specs::convert::TryFromSpecImpl<Column<Any>> for Column<Instance> {
    open spec fn obeys_try_from_spec() -> bool {
        true
    }

    open spec fn try_from_spec(any: Column<Any>) -> Result<Self, Self::Error> {
        if any.column_type == Any::Instance {
            Ok(Column { column_type: Instance, index: any.index })
        } else {
            Err("Cannot convert into Column<Instance>")
        }
    }
}

/// Columns are totally ordered: a column is neither before nor behind itself, of two
/// columns one stands before the other exactly if the other stands behind it, what stands
/// before a column stands before all that it stands before, and only columns of one kind and
/// one index compare as equal.
pub proof fn lemma_column_order<C: ColumnType>(a: Column<C>, b: Column<C>, c: Column<C>)
    ensures
        column_order(a, a) == Ordering::Equal,
        column_order(a, b) == Ordering::Less <==> column_order(b, a) == Ordering::Greater,
        column_order(a, b) == Ordering::Less && column_order(b, c) == Ordering::Less
            ==> column_order(a, c) == Ordering::Less,
        column_order(a, b) == Ordering::Equal <==> a.erased() == b.erased(),
{
}

/// Every instance column stands before every advice column, and every advice column before
/// every fixed column; within a kind the index decides.
pub proof fn lemma_kinds_in_order(a: Column<Any>, b: Column<Any>)
    ensures
        a.column_type == Any::Instance && b.column_type == Any::Advice ==> column_order(a, b)
            == Ordering::Less,
        a.column_type == Any::Advice && b.column_type == Any::Fixed ==> column_order(a, b)
            == Ordering::Less,
        a.column_type == Any::Instance && b.column_type == Any::Fixed ==> column_order(a, b)
            == Ordering::Less,
        a.column_type == b.column_type && a.index < b.index ==> column_order(a, b)
            == Ordering::Less,
{
}

/// A column whose type was forgotten can be converted back.
pub proof fn lemma_erased_round_trip(
    advice: Column<Advice>,
    fixed: Column<Fixed>,
    instance: Column<Instance>,
)
    ensures
        <Column<Advice> as vstd::std_specs::convert::TryFromSpec<Column<Any>>>::try_from_spec(
            advice.erased(),
        ) == Ok::<Column<Advice>, &'static str>(advice),
        <Column<Fixed> as vstd::std_specs::convert::TryFromSpec<Column<Any>>>::try_from_spec(
            fixed.erased(),
        ) == Ok::<Column<Fixed>, &'static str>(fixed),
        <Column<Instance> as vstd::std_specs::convert::TryFromSpec<Column<Any>>>::try_from_spec(
            instance.erased(),
        ) == Ok::<Column<Instance>, &'static str>(instance),
{
    assert(advice.column_type == Advice);
    assert(fixed.column_type == Fixed);
    assert(instance.column_type == Instance);
}

/// Columns compare as a column of a kind whose place in the order of kinds is earlier does, or,
/// within a kind, as the column with the smaller index does; kinds compare by their places.
pub proof fn lemma_compared<C: ColumnType>(a: Column<C>, b: Column<C>, x: Any, y: Any)
    ensures
        ({
            let (j, k) = (a.column_type.kind(), b.column_type.kind());
            let earlier = (j == Any::Instance && k != Any::Instance) || (j == Any::Advice && k
                == Any::Fixed);
            let later = (k == Any::Instance && j != Any::Instance) || (k == Any::Advice && j
                == Any::Fixed);
            vstd::std_specs::cmp::PartialOrdSpec::partial_cmp_spec(&a, &b) == Some(
                if earlier || (j == k && a.index < b.index) {
                    Ordering::Less
                } else if later || (j == k && a.index > b.index) {
                    Ordering::Greater
                } else {
                    Ordering::Equal
                },
            )
        }),
        vstd::std_specs::cmp::PartialOrdSpec::partial_cmp_spec(&x, &y) == Some(
            if x == y {
                Ordering::Equal
            } else if x == Any::Instance || y == Any::Fixed {
                Ordering::Less
            } else {
                Ordering::Greater
            },
        ),
{
}

} // verus!
