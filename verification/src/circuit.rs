//! What a circuit asks of the backend that assigns its cells.

use vstd::prelude::*;

use crate::column::{Advice, Any, Column, Fixed, Instance};
use crate::expression::Selector;

verus! {

/// A value that might exist within a circuit: a witness is not known while keys are
/// generated.
#[derive(Debug)]
pub struct Value<V> {
    /// The value, if it is known.
    pub inner: Option<V>,
}

/// A value assigned to a cell within a circuit, stored as a fraction so that inversions can
/// be put off and batched.
#[derive(Debug)]
pub enum Assigned<F> {
    /// The field element zero.
    Zero,
    /// A value that does not require inversion to evaluate.
    Trivial(F),
    /// A value stored as a fraction to enable batch inversion.
    Rational(F, F),
}

/// This is an error that could occur during proving or circuit synthesis.
#[derive(Clone, Copy, Debug, PartialEq, Eq)]
pub enum Error {
    /// The circuit synthesis failed.
    Synthesis,
    /// A cell lies outside of the bounds of the circuit.
    BoundsFailure,
    /// `k` is too small for the given circuit.
    NotEnoughRowsAvailable {
        /// The current value of `k` being used.
        current_k: u32,
    },
    /// Circuit synthesis requires global constants, but circuit configuration did not call
    /// `ConstraintSystem::enable_constant` on fixed columns with sufficient space.
    NotEnoughColumnsForConstants,
    /// The column was not added to the permutation argument.
    ColumnNotInPermutation(Column<Any>),
}

/// This trait allows a circuit to direct some backend to assign a witness
/// for a constraint system.
pub trait Assignment<F> {
    /// Creates a new region and enters into it.
    ///
    /// Panics if we are currently in a region (if `exit_region` was not called).
    fn enter_region<NR, N>(&mut self, name_fn: N) where NR: Into<String>, N: FnOnce() -> NR;

    /// Exits the current region.
    ///
    /// Panics if we are not currently in a region (if `enter_region` was not called).
    fn exit_region(&mut self);

    /// Enables a selector at the given row.
    fn enable_selector<A, AR>(
        &mut self,
        annotation: A,
        selector: &Selector,
        row: usize,
    ) -> Result<(), Error> where A: FnOnce() -> AR, AR: Into<String>;

    /// Queries the cell of an instance column at a particular absolute row.
    ///
    /// Returns the cell's value, if known.
    fn query_instance(&self, column: Column<Instance>, row: usize) -> Result<Value<F>, Error>;

    /// Assign an advice column value (witness)
    fn assign_advice<V, VR, A, AR>(
        &mut self,
        annotation: A,
        column: Column<Advice>,
        row: usize,
        to: V,
    ) -> Result<(), Error> where
        V: FnOnce() -> Value<VR>,
        VR: Into<Assigned<F>>,
        A: FnOnce() -> AR,
        AR: Into<String>,
    ;

    /// Assign a fixed value
    fn assign_fixed<V, VR, A, AR>(
        &mut self,
        annotation: A,
        column: Column<Fixed>,
        row: usize,
        to: V,
    ) -> Result<(), Error> where
        V: FnOnce() -> Value<VR>,
        VR: Into<Assigned<F>>,
        A: FnOnce() -> AR,
        AR: Into<String>,
    ;

    /// Assign two cells to have the same value
    fn copy(
        &mut self,
        left_column: Column<Any>,
        left_row: usize,
        right_column: Column<Any>,
        right_row: usize,
    ) -> Result<(), Error>;

    /// Fills a fixed `column` starting from the given `row` with value `to`.
    fn fill_from_row(
        &mut self,
        column: Column<Fixed>,
        row: usize,
        to: Value<Assigned<F>>,
    ) -> Result<(), Error>;

    /// Creates a new (sub)namespace and enters into it.
    fn push_namespace<NR, N>(&mut self, name_fn: N) where NR: Into<String>, N: FnOnce() -> NR;

    /// Exits out of the existing namespace.
    fn pop_namespace(&mut self, gadget_name: Option<String>);
}

} // verus!
