//! How values are printed for debugging, with the builders of std.

use core::fmt;
use core::fmt::{Debug, DebugList, DebugStruct, DebugTuple, Formatter};

use vstd::prelude::*;

verus! {

/// The formatter that values are printed to.
#[verifier::external_type_specification]
#[verifier::external_body]
pub struct ExFormatter<'a>(core::fmt::Formatter<'a>);

/// The failure of a formatter.
#[verifier::external_type_specification]
#[verifier::external_body]
pub struct ExFormatError(core::fmt::Error);

/// The builder of a printed struct.
#[verifier::external_type_specification]
#[verifier::external_body]
pub struct ExDebugStruct<'a, 'b>(core::fmt::DebugStruct<'a, 'b>) where 'b: 'a;

/// The builder of a printed tuple struct.
#[verifier::external_type_specification]
#[verifier::external_body]
pub struct ExDebugTuple<'a, 'b>(core::fmt::DebugTuple<'a, 'b>) where 'b: 'a;

/// The builder of a printed list.
#[verifier::external_type_specification]
#[verifier::external_body]
pub struct ExDebugList<'a, 'b>(core::fmt::DebugList<'a, 'b>) where 'b: 'a;

/// Calls `Formatter::write_str`, which prints `text`. Nothing is claimed of the formatter.
#[verifier::external_body]
pub(crate) fn write_text(f: &mut Formatter<'_>, text: &str) -> (r: fmt::Result) {
    f.write_str(text)
}

/// Calls `Formatter::debug_struct`, which starts to print a struct named `name`. Nothing is
/// claimed of the formatter.
#[verifier::external_body]
pub(crate) fn start_struct<'a, 'b>(f: &'a mut Formatter<'b>, name: &str) -> (r: DebugStruct<
    'a,
    'b,
>) {
    f.debug_struct(name)
}

/// Calls `DebugStruct::field`, which prints a field. Nothing is claimed of the builder.
#[verifier::external_body]
pub(crate) fn struct_field<T: Debug>(builder: &mut DebugStruct<'_, '_>, name: &str, value: &T) {
    builder.field(name, value);
}

/// Calls `DebugStruct::finish`, which ends a struct. Nothing is claimed of the builder.
#[verifier::external_body]
pub(crate) fn finish_struct(builder: &mut DebugStruct<'_, '_>) -> (r: fmt::Result) {
    builder.finish()
}

/// Calls `Formatter::debug_tuple`, which starts to print a tuple struct named `name`. Nothing
/// is claimed of the formatter.
#[verifier::external_body]
pub(crate) fn start_tuple<'a, 'b>(f: &'a mut Formatter<'b>, name: &str) -> (r: DebugTuple<
    'a,
    'b,
>) {
    f.debug_tuple(name)
}

/// Calls `DebugTuple::field`, which prints a field. Nothing is claimed of the builder.
#[verifier::external_body]
pub(crate) fn tuple_field<T: Debug>(builder: &mut DebugTuple<'_, '_>, value: &T) {
    builder.field(value);
}

/// Calls `DebugTuple::finish`, which ends a tuple struct. Nothing is claimed of the builder.
#[verifier::external_body]
pub(crate) fn finish_tuple(builder: &mut DebugTuple<'_, '_>) -> (r: fmt::Result) {
    builder.finish()
}

/// Calls `Formatter::debug_list`, which starts to print a list. Nothing is claimed of the
/// formatter.
#[verifier::external_body]
pub(crate) fn start_list<'a, 'b>(f: &'a mut Formatter<'b>) -> (r: DebugList<'a, 'b>) {
    f.debug_list()
}

/// Calls `DebugList::entry`, which prints an item. Nothing is claimed of the builder.
#[verifier::external_body]
pub(crate) fn list_entry<T: Debug>(builder: &mut DebugList<'_, '_>, value: &T) {
    builder.entry(value);
}

/// Calls `DebugList::finish`, which ends a list. Nothing is claimed of the builder.
#[verifier::external_body]
pub(crate) fn finish_list(builder: &mut DebugList<'_, '_>) -> (r: fmt::Result) {
    builder.finish()
}

/// Prints a tuple struct with one field.
pub(crate) fn print_tuple_1<A: Debug>(
    f: &mut Formatter<'_>,
    name: &str,
    a: &A,
) -> (r: fmt::Result) {
    let mut builder = start_tuple(f, name);
    tuple_field(&mut builder, a);
    finish_tuple(&mut builder)
}

/// Prints a tuple struct with two fields.
pub(crate) fn print_tuple_2<A: Debug, B: Debug>(
    f: &mut Formatter<'_>,
    name: &str,
    a: &A,
    b: &B,
) -> (r: fmt::Result) {
    let mut builder = start_tuple(f, name);
    tuple_field(&mut builder, a);
    tuple_field(&mut builder, b);
    finish_tuple(&mut builder)
}

} // verus!
