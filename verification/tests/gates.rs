use halo2_plonk::codec::{ReadError, Reader};
use halo2_plonk::column::{Advice, Any, Column, Fixed};
use halo2_plonk::expression::{AdviceQuery, Expression, Selector};
use halo2_plonk::field::{Fp, PrimeField};
use halo2_plonk::gate::{Constraint, Constraints, Gate, IntoConstraints, VirtualCell};
use halo2_plonk::lookup;
use halo2_plonk::permutation;
use halo2_plonk::rotation::Rotation;

fn fp(n: u8) -> Fp {
    let mut bytes = [0u8; 32];
    bytes[0] = n;
    Fp::from_repr(&bytes).unwrap()
}

fn advice(index: usize) -> Expression<Fp> {
    Expression::Advice(AdviceQuery { index, column_index: 9, rotation: Rotation(1) })
}

fn simple(index: usize) -> Expression<Fp> {
    Expression::Selector(Selector(index, true))
}

fn queries() -> Vec<(Column<Advice>, Rotation)> {
    vec![(Column::new(9, Advice), Rotation(1)); 3]
}

fn gate() -> Gate<Fp> {
    Gate {
        name: "foo",
        constraint_names: vec!["one", ""],
        polys: vec![simple(1) * advice(0), advice(2)],
        queried_selectors: vec![Selector(1, true), Selector(258, false)],
        queried_cells: vec![
            VirtualCell::from((Column::new(9, Advice), Rotation(1))),
            VirtualCell::from((Column::new(3, Fixed), Rotation(0))),
            VirtualCell::from((Column::new(4, Any::Instance), Rotation(-1))),
        ],
    }
}

#[test]
fn constraints_may_have_names() {
    let c = Constraint::from(advice(0));
    assert_eq!((c.name, c.poly.debug()), ("", advice(0).debug()));
    let c = Constraint::from(("same", advice(1)));
    assert_eq!((c.name, c.poly.debug()), ("same", advice(1).debug()));
    let cs: Vec<Constraint<Fp>> = Vec::from(advice(2));
    assert_eq!(cs.len(), 1);
    assert_eq!((cs[0].name, cs[0].poly.debug()), ("", advice(2).debug()));
}

#[test]
fn lists_become_constraints_in_order() {
    let cs = vec![("a", advice(0)), ("b", advice(1))].into_constraints();
    let names: Vec<&str> = cs.iter().map(|c| c.name).collect();
    assert_eq!(names, vec!["a", "b"]);
    let cs = vec![advice(0), advice(1), advice(2)].into_constraints();
    let polys: Vec<String> = cs.iter().map(|c| c.poly.debug()).collect();
    assert_eq!(polys, vec![advice(0).debug(), advice(1).debug(), advice(2).debug()]);
    let cs = vec![Constraint { name: "x", poly: advice(1) }].into_constraints();
    assert_eq!(cs[0].name, "x");
}

#[test]
fn a_common_selector_controls_every_constraint() {
    let cs = Constraints::with_selector(simple(4), vec![("a", advice(0)), ("b", advice(1))])
        .into_constraints();
    assert_eq!(cs.len(), 2);
    assert_eq!(cs[0].name, "a");
    assert_eq!(cs[0].poly.debug(), (simple(4) * advice(0)).debug());
    assert_eq!(cs[1].name, "b");
    assert_eq!(cs[1].poly.debug(), (simple(4) * advice(1)).debug());
}

#[test]
fn constraints_can_be_given_as_an_array() {
    let cs = ["one", "two"].map(|name| (name, advice(2))).into_constraints();
    assert_eq!(cs.len(), 2);
    assert_eq!(cs[1].name, "two");
    assert_eq!(cs[1].poly.debug(), advice(2).debug());
    let cs = Constraints::with_selector(simple(4), [("a", advice(0)), ("b", advice(1))])
        .into_constraints();
    assert_eq!(cs.len(), 2);
    assert_eq!(cs[0].name, "a");
    assert_eq!(cs[0].poly.debug(), (simple(4) * advice(0)).debug());
    assert_eq!(cs[1].name, "b");
    assert_eq!(cs[1].poly.debug(), (simple(4) * advice(1)).debug());
}

#[test]
fn a_gate_has_its_parts() {
    let gate = gate();
    assert_eq!(gate.name(), "foo");
    assert_eq!(gate.constraint_name(0), "one");
    assert_eq!(gate.polynomials().len(), 2);
    assert_eq!(gate.queried_selectors()[1], Selector(258, false));
    assert_eq!(gate.queried_cells()[2].column, Column::new(4, Any::Instance));
    let copy = gate.clone();
    assert_eq!(copy.name(), "foo");
    assert_eq!(copy.polynomials()[1].debug(), gate.polynomials()[1].debug());
}

#[test]
fn a_gate_has_its_binary_form() {
    let mut out = Vec::new();
    gate().write(&mut out);
    let expected: Vec<u8> = [
        vec![3, 0, b'f', b'o', b'o'],
        vec![2, 0],
        vec![3, 0, b'o', b'n', b'e', 0x07, 0x01, 1, 0, 1, 0x03, 0, 0],
        vec![0, 0, 0x03, 2, 0],
        vec![2, 0, 1, 0, 1, 2, 1, 0],
        vec![3, 0],
        vec![1, 9, 0, 1, 0, 0, 0],
        vec![0, 3, 0, 0, 0, 0, 0],
        vec![2, 4, 0, 0xff, 0xff, 0xff, 0xff],
    ]
    .concat();
    assert_eq!(out, expected);
}

#[test]
fn a_gate_is_read_back() {
    let mut out = Vec::new();
    gate().write(&mut out);
    out.push(7);
    let mut reader = Reader::new(&out);
    let back = Gate::<Fp>::read(&mut reader, &[], &queries(), &[]).unwrap();
    assert_eq!(reader.remaining(), &[7]);
    assert_eq!(back.name(), "foo");
    assert_eq!(back.constraint_name(0), "one");
    assert_eq!(back.constraint_name(1), "");
    assert_eq!(back.polynomials()[0].debug(), gate().polynomials()[0].debug());
    assert_eq!(back.polynomials()[1].debug(), gate().polynomials()[1].debug());
    assert_eq!(back.queried_selectors(), gate().queried_selectors());
    for i in 0..3 {
        assert_eq!(back.queried_cells()[i].column, gate().queried_cells()[i].column);
        assert_eq!(back.queried_cells()[i].rotation, gate().queried_cells()[i].rotation);
    }
}

#[test]
fn missing_constraint_names_are_written_as_empty() {
    let mut short = gate();
    short.constraint_names.pop();
    let (mut a, mut b) = (Vec::new(), Vec::new());
    short.write(&mut a);
    gate().write(&mut b);
    assert_eq!(a, b);
}

#[test]
fn bad_gates_are_refused() {
    let read = |bytes: &[u8]| Gate::<Fp>::read(&mut Reader::new(bytes), &[], &[], &[]).err();
    assert_eq!(
        read(&[1, 0, 0xff]),
        Some(ReadError::InvalidName { valid_up_to: 0, error_len: Some(1) })
    );
    assert_eq!(read(&[0, 0]), Some(ReadError::UnexpectedEof));
    assert_eq!(read(&[0, 0, 1, 0, 0, 0, 0x0b]), Some(ReadError::InvalidExpressionTag(11)));
    let mut bytes = vec![0, 0, 0, 0, 0, 0, 1, 0, 3, 0, 0, 0, 0, 0, 0];
    assert_eq!(read(&bytes), Some(ReadError::InvalidColumnType(3)));
    bytes.pop();
    assert_eq!(read(&bytes), Some(ReadError::UnexpectedEof));
}

#[test]
fn a_lookup_needs_its_degree() {
    let lookup = lookup::Argument::<Fp>::new(vec![]);
    assert_eq!(lookup.required_degree(), 4);
    assert_eq!(lookup.checked_required_degree(), Some(4));
    let lookup = lookup::Argument::new(vec![
        (advice(0), advice(1)),
        (advice(0).square() * advice(1), advice(2)),
    ]);
    assert_eq!(lookup.required_degree(), 2 + 3 + 1);
    assert_eq!(lookup.checked_required_degree(), Some(6));
    let mut unpaired = lookup.clone();
    unpaired.table_expressions.pop();
    assert_eq!(unpaired.checked_required_degree(), None);
}

#[test]
fn a_lookup_is_read_back() {
    let lookup = lookup::Argument::new(vec![
        (advice(0), advice(1)),
        (Expression::Constant(fp(5)), advice(2)),
    ]);
    let mut out = Vec::new();
    lookup.write(&mut out);
    assert_eq!(out.len(), 2 + 3 + 33 + 2 + 3 + 3);
    let mut reader = Reader::new(&out);
    let back = lookup::Argument::<Fp>::read(&mut reader, &[], &queries(), &[]).unwrap();
    assert!(reader.remaining().is_empty());
    assert_eq!(back.input_expressions[1].debug(), lookup.input_expressions[1].debug());
    assert_eq!(back.table_expressions[0].debug(), advice(1).debug());
    assert_eq!(
        lookup::Argument::<Fp>::read(&mut Reader::new(&out[..40]), &[], &queries(), &[]).err(),
        Some(ReadError::UnexpectedEof)
    );
    assert_eq!(
        lookup::Argument::<Fp>::read(&mut Reader::new(&out), &[], &[], &[]).err(),
        Some(ReadError::QueryOutOfBounds { kind: Any::Advice, index: 0, len: 0 })
    );
}

#[test]
fn a_permutation_holds_each_column_once() {
    let mut argument = permutation::Argument::new();
    assert_eq!(argument.required_degree(), 3);
    argument.add_column(Column::new(1, Any::Advice));
    argument.add_column(Column::new(1, Any::Fixed));
    argument.add_column(Column::new(1, Any::Advice));
    assert_eq!(
        argument.get_columns(),
        vec![Column::new(1, Any::Advice), Column::new(1, Any::Fixed)]
    );
    let mut out = Vec::new();
    argument.write(&mut out);
    assert_eq!(out, vec![2, 0, 1, 1, 0, 0, 1, 0]);
    let back = permutation::Argument::read(&mut Reader::new(&out)).unwrap();
    assert_eq!(back.get_columns(), argument.get_columns());
    assert_eq!(
        permutation::Argument::read(&mut Reader::new(&[1, 0, 9, 0, 0])).err(),
        Some(ReadError::InvalidColumnType(9))
    );
    assert_eq!(
        permutation::Argument::read(&mut Reader::new(&[1, 0, 9, 0])).err(),
        Some(ReadError::UnexpectedEof)
    );
}
