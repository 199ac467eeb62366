use halo2_plonk::codec::{ReadError, Reader};
use halo2_plonk::column::{Any, Column, Fixed};
use halo2_plonk::constraint_system::ConstraintSystem;
use halo2_plonk::expression::{Expression, Selector};
use halo2_plonk::field::{Fp, PrimeField};
use halo2_plonk::gate::Constraints;
use halo2_plonk::rotation::Rotation;

fn fp(n: u8) -> Fp {
    let mut bytes = [0u8; 32];
    bytes[0] = n;
    Fp::from_repr(&bytes).unwrap()
}

/// Two gates, a lookup, an equality-enabled column and a constant column.
fn example() -> ConstraintSystem<Fp> {
    let mut meta = ConstraintSystem::<Fp>::default();
    let a = meta.advice_column();
    let b = meta.advice_column();
    let i = meta.instance_column();
    let s = meta.selector();
    let t = meta.complex_selector();
    let table = meta.lookup_table_column();
    let constant = meta.fixed_column();

    meta.create_gate("foo", |meta| {
        let a = meta.query_advice(a, Rotation::prev());
        let b = meta.query_advice(b, Rotation::cur());
        let s = meta.query_selector(s);
        vec![s * (a - b)]
    });
    meta.create_gate("bar", |meta| {
        let next = meta.query_advice(a, Rotation::next());
        let a = meta.query_any(a, Rotation::cur());
        let i = meta.query_instance(i, Rotation::cur());
        let t = meta.query_selector(t);
        let one_minus_a = Expression::Constant(fp(1)) - a.clone();
        Constraints::with_selector(
            t,
            vec![("boolean", a * one_minus_a), ("next is public", next - i)],
        )
    });
    let index = meta.lookup(|meta| {
        let b = meta.query_advice(b, Rotation::cur());
        vec![(b, table)]
    });
    assert_eq!(index, 0);
    meta.enable_equality(a);
    meta.enable_constant(constant);
    meta
}

#[test]
fn an_empty_system_has_nothing() {
    let meta = ConstraintSystem::<Fp>::default();
    assert_eq!(meta.get_num_instance_columns(), 0);
    assert_eq!(meta.get_num_fixed_columns(), 0);
    assert_eq!(meta.get_num_selectors(), 0);
    assert_eq!(meta.get_num_advice(), 0);
    assert_eq!(meta.get_gate_count(), 0);
    assert!(meta.get_permutation_columns().is_empty());
    assert_eq!(meta.degree(), 3);
    assert_eq!(meta.blinding_factors(), 5);
    assert_eq!(meta.minimum_rows(), 8);
}

#[test]
fn columns_and_selectors_are_counted() {
    let mut meta = ConstraintSystem::<Fp>::default();
    assert_eq!(meta.fixed_column().index(), 0);
    assert_eq!(meta.fixed_column().index(), 1);
    assert_eq!(meta.advice_column().index(), 0);
    assert_eq!(meta.instance_column().index(), 0);
    assert_eq!(meta.instance_column().index(), 1);
    assert_eq!(meta.selector(), Selector(0, true));
    assert_eq!(meta.complex_selector(), Selector(1, false));
    assert_eq!(meta.selector(), Selector(2, true));
    assert_eq!(meta.get_num_fixed_columns(), 2);
    assert_eq!(meta.get_num_instance_columns(), 2);
    assert_eq!(meta.get_num_selectors(), 3);
    meta.lookup_table_column();
    assert_eq!(meta.get_num_fixed_columns(), 3);
}

#[test]
fn counts_are_cut_to_their_size() {
    let mut meta = ConstraintSystem::<Fp>::default();
    for _ in 0..258 {
        meta.fixed_column();
        meta.instance_column();
    }
    assert_eq!(meta.get_num_fixed_columns(), 2);
    assert_eq!(meta.get_num_instance_columns(), 2);
}

#[test]
fn queries_are_made_once() {
    let mut meta = ConstraintSystem::<Fp>::default();
    let a = meta.advice_column();
    let b = meta.advice_column();
    let f = meta.fixed_column();
    let i = meta.instance_column();
    assert_eq!(meta.query_advice_index(b, Rotation(0)), 0);
    assert_eq!(meta.query_advice_index(a, Rotation(0)), 1);
    assert_eq!(meta.query_advice_index(b, Rotation(1)), 2);
    assert_eq!(meta.query_advice_index(b, Rotation(0)), 0);
    assert_eq!(meta.num_advice_queries, vec![1, 2]);
    assert_eq!(meta.query_fixed_index(f), 0);
    assert_eq!(meta.query_fixed_index(f), 0);
    assert_eq!(meta.query_instance_index(i, Rotation(3)), 0);
    assert_eq!(meta.query_any_index(i.to_any(), Rotation(0)), 1);
    assert_eq!(meta.query_any_index(a.to_any(), Rotation(0)), 1);
    assert_eq!(meta.query_any_index(f.to_any(), Rotation(0)), 0);
    assert_eq!(meta.get_advice_query_index(b, Rotation(1)), 2);
    assert_eq!(meta.get_fixed_query_index(f, Rotation(0)), 0);
    assert_eq!(meta.get_instance_query_index(i, Rotation(3)), 0);
    assert_eq!(meta.get_any_query_index(i.to_any()), 1);
    assert_eq!(meta.get_any_query_index(a.to_any()), 1);
    assert_eq!(meta.get_any_query_index(f.to_any()), 0);
    assert_eq!(meta.get_num_advice(), 3);
}

#[test]
fn equality_is_enabled_once() {
    let mut meta = ConstraintSystem::<Fp>::default();
    let a = meta.advice_column();
    let f = meta.fixed_column();
    let table = meta.lookup_table_column();
    meta.enable_equality(a);
    meta.enable_equality(a.to_any());
    meta.enable_constant(f);
    meta.enable_constant(f);
    table.enable_equality(&mut meta);
    assert_eq!(
        meta.get_permutation_columns(),
        vec![
            Column::new(0, Any::Advice),
            Column::new(0, Any::Fixed),
            Column::new(1, Any::Fixed),
        ]
    );
    assert_eq!(meta.constants, vec![f]);
    assert_eq!(meta.get_any_query_index(a.to_any()), 0);
    assert_eq!(meta.get_any_query_index(f.to_any()), 0);
}

#[test]
fn gates_hold_what_was_queried() {
    let meta = example();
    assert_eq!(meta.get_gate_count(), 2);
    let foo = &meta.gates[0];
    assert_eq!(foo.name(), "foo");
    assert_eq!(foo.constraint_name(0), "");
    assert_eq!(foo.queried_selectors(), &[Selector(0, true)]);
    assert_eq!(foo.queried_cells().len(), 2);
    assert_eq!(foo.queried_cells()[0].column, Column::new(0, Any::Advice));
    assert_eq!(foo.queried_cells()[0].rotation, Rotation(-1));
    let bar = &meta.gates[1];
    assert_eq!(bar.constraint_name(0), "boolean");
    assert_eq!(bar.constraint_name(1), "next is public");
    assert_eq!(bar.queried_cells().len(), 3);
    assert_eq!(bar.queried_cells()[2].column, Column::new(0, Any::Instance));
    assert_eq!(meta.num_advice_queries, vec![3, 1]);
}

#[test]
fn lookups_query_their_tables() {
    let meta = example();
    assert_eq!(meta.lookups.len(), 1);
    assert_eq!(
        meta.lookups[0].table_expressions[0].debug(),
        "Fixed { query_index: 0, column_index: 0, rotation: Rotation(0) }"
    );
    assert_eq!(meta.fixed_queries[0], (Column::new(0, Fixed), Rotation(0)));

    let mut meta = ConstraintSystem::<Fp>::default();
    let x = meta.lookup_table_column();
    let y = meta.lookup_table_column();
    let a = meta.advice_column();
    for expected in 0..2 {
        let index = meta.lookup(|meta| {
            let a = meta.query_advice(a, Rotation(0));
            vec![(a.clone(), y), (a.clone(), x), (a, y)]
        });
        assert_eq!(index, expected);
    }
    for lookup in &meta.lookups {
        let tables: Vec<String> = lookup.table_expressions.iter().map(|e| e.debug()).collect();
        assert_eq!(
            tables,
            vec![
                "Fixed { query_index: 0, column_index: 1, rotation: Rotation(0) }",
                "Fixed { query_index: 1, column_index: 0, rotation: Rotation(0) }",
                "Fixed { query_index: 0, column_index: 1, rotation: Rotation(0) }",
            ]
        );
    }
}

#[test]
fn the_degree_is_the_largest_of_all() {
    let mut meta = example();
    // The lookup needs degree 4, and the polynomials of the gates have degree 3 at most.
    assert_eq!(meta.degree(), 4);
    assert_eq!(meta.checked_degree(), Some(4));
    meta.set_minimum_degree(3);
    assert_eq!(meta.degree(), 4);
    meta.set_minimum_degree(9);
    assert_eq!(meta.degree(), 9);
    let a = meta.advice_column();
    meta.create_gate("high", |meta| {
        let a = meta.query_advice(a, Rotation(0));
        let fourth = a.square().square();
        vec![fourth.clone().square() * fourth]
    });
    assert_eq!(meta.degree(), 12);
    meta.lookups[0].input_expressions.pop();
    assert_eq!(meta.checked_degree(), None);
}

#[test]
fn blinding_factors_follow_the_queries() {
    let mut meta = ConstraintSystem::<Fp>::default();
    let a = meta.advice_column();
    let b = meta.advice_column();
    for r in 0..7 {
        meta.query_advice_index(b, Rotation(r));
    }
    meta.query_advice_index(a, Rotation(0));
    assert_eq!(meta.blinding_factors(), 9);
    assert_eq!(meta.minimum_rows(), 12);
}

#[test]
fn a_small_system_has_its_binary_form() {
    let mut meta = ConstraintSystem::<Fp>::default();
    let a = meta.advice_column();
    let f = meta.fixed_column();
    let s = meta.complex_selector();
    meta.create_gate("g", |meta| {
        let a = meta.query_advice(a, Rotation::next());
        let s = meta.query_selector(s);
        vec![("c", s * a)]
    });
    meta.enable_constant(f);
    meta.set_minimum_degree(5);
    meta.selector_map = vec![Column::new(0x0304, Fixed)];
    let mut out = Vec::new();
    meta.write(&mut out);
    let expected: Vec<u8> = [
        // Fixed, advice and instance columns, selectors, gates.
        vec![1, 0, 0, 0, 1, 0, 0, 0, 0, 0, 0, 0, 1, 0, 1, 0],
        // Selector map.
        vec![1, 0, 4, 3],
        // Queries of advice, instance and fixed columns, and the counts.
        vec![1, 0, 0, 0, 1, 0, 0, 0],
        vec![0, 0],
        vec![1, 0, 0, 0, 0, 0, 0, 0],
        vec![1, 0, 1, 0],
        // Gates.
        vec![1, 0],
        vec![1, 0, b'g', 1, 0, 1, 0, b'c', 0x07, 0x01, 0, 0, 0, 0x03, 0, 0],
        vec![1, 0, 0, 0, 0],
        vec![1, 0, 1, 0, 0, 1, 0, 0, 0],
        // Permutation, lookups, constants.
        vec![1, 0, 0, 0, 0],
        vec![0, 0],
        vec![1, 0, 0, 0],
        // Minimum degree.
        vec![1, 5, 0, 0, 0],
    ]
    .concat();
    assert_eq!(out, expected);
}

#[test]
fn the_queries_of_fixed_columns_come_last() {
    let mut meta = ConstraintSystem::<Fp>::default();
    let f = meta.fixed_column();
    meta.enable_equality(f);
    let mut out = Vec::new();
    meta.write(&mut out);
    // Selector map, queries of advice, instance and fixed columns.
    assert_eq!(out[16..18], [0, 0]);
    assert_eq!(out[18..20], [0, 0]);
    assert_eq!(out[20..22], [0, 0]);
    assert_eq!(out[22..24], [1, 0]);
    assert_eq!(out[24..30], [0, 0, 0, 0, 0, 0]);
    let back = ConstraintSystem::<Fp>::read(&mut Reader::new(&out)).unwrap();
    assert_eq!(back.fixed_queries, vec![(f, Rotation(0))]);
    assert!(back.advice_queries.is_empty() && back.instance_queries.is_empty());
}

#[test]
fn queries_of_all_kinds_are_read_in_their_order() {
    let mut meta = ConstraintSystem::<Fp>::default();
    let a = meta.advice_column();
    let i = meta.instance_column();
    let f = meta.fixed_column();
    meta.query_advice_index(a, Rotation(-1));
    meta.enable_equality(i);
    meta.enable_equality(f);
    let mut out = Vec::new();
    meta.write(&mut out);
    assert_eq!(out[18..26], [1, 0, 0, 0, 0xff, 0xff, 0xff, 0xff]);
    assert_eq!(out[26..34], [1, 0, 0, 0, 0, 0, 0, 0]);
    assert_eq!(out[34..42], [1, 0, 0, 0, 0, 0, 0, 0]);
    assert_eq!(out[42..46], [1, 0, 1, 0]);
    let back = ConstraintSystem::<Fp>::read(&mut Reader::new(&out)).unwrap();
    assert_eq!(back.advice_queries, vec![(a, Rotation(-1))]);
    assert_eq!(back.instance_queries, vec![(i, Rotation(0))]);
    assert_eq!(back.fixed_queries, vec![(f, Rotation(0))]);
    assert_eq!(back.num_advice_queries, vec![1]);
}

#[test]
fn systems_are_read_back() {
    let mut meta = example();
    for minimum_degree in [None, Some(6)] {
        meta.minimum_degree = minimum_degree;
        let mut out = Vec::new();
        meta.write(&mut out);
        let length = out.len();
        out.push(0x55);
        let mut reader = Reader::new(&out);
        let back = ConstraintSystem::<Fp>::read(&mut reader).unwrap();
        assert_eq!(reader.remaining(), &[0x55]);
        assert_eq!(back.pinned().debug(), meta.pinned().debug());
        assert_eq!(back.num_advice_queries, meta.num_advice_queries);
        assert_eq!(back.gates[1].name(), "bar");
        assert_eq!(back.minimum_degree, minimum_degree);
        let mut again = Vec::new();
        back.write(&mut again);
        assert_eq!(again, out[..length]);
        for n in 0..length {
            assert_eq!(
                ConstraintSystem::<Fp>::read(&mut Reader::new(&out[..n])).err(),
                Some(ReadError::UnexpectedEof)
            );
        }
    }
}

#[test]
fn bad_systems_are_refused() {
    let mut out = Vec::new();
    ConstraintSystem::<Fp>::default().write(&mut out);
    assert_eq!(out, vec![0; 16 + 2 * 5 + 2 * 4 + 1]);
    *out.last_mut().unwrap() = 2;
    assert_eq!(
        ConstraintSystem::<Fp>::read(&mut Reader::new(&out)).err(),
        Some(ReadError::InvalidMinimumDegree)
    );
    // The number of gates at the start is not looked at.
    *out.last_mut().unwrap() = 0;
    out[14] = 99;
    assert!(ConstraintSystem::<Fp>::read(&mut Reader::new(&out)).is_ok());
}

#[test]
fn the_pinned_form_is_printed() {
    assert_eq!(
        ConstraintSystem::<Fp>::default().pinned().debug(),
        "PinnedConstraintSystem { num_fixed_columns: 0, num_advice_columns: 0, \
         num_instance_columns: 0, num_selectors: 0, gates: [], advice_queries: [], \
         instance_queries: [], fixed_queries: [], permutation: Argument { columns: [] }, \
         lookups: [], constants: [], minimum_degree: None }"
    );
    let mut meta = example();
    meta.set_minimum_degree(7);
    let one = format!("Constant(0x{:064x})", 1);
    let a = |query_index: usize, column_index: usize, rotation: i32| {
        format!(
            "Advice {{ query_index: {}, column_index: {}, rotation: Rotation({}) }}",
            query_index, column_index, rotation
        )
    };
    let gates = [
        format!(
            "Product(Selector(Selector(0, true)), Sum({}, Negated({})))",
            a(0, 0, -1),
            a(1, 1, 0)
        ),
        format!(
            "Product(Selector(Selector(1, false)), Product({0}, Sum({1}, Negated({0}))))",
            a(3, 0, 0),
            one
        ),
        format!(
            "Product(Selector(Selector(1, false)), Sum({}, Negated(Instance {{ query_index: 0, \
             column_index: 0, rotation: Rotation(0) }})))",
            a(2, 0, 1)
        ),
    ];
    let column =
        |i: usize, kind: &str| format!("Column {{ index: {}, column_type: {} }}", i, kind);
    let expected = format!(
        "PinnedConstraintSystem {{ num_fixed_columns: 2, num_advice_columns: 2, \
         num_instance_columns: 1, num_selectors: 2, gates: [{}], advice_queries: [({}, \
         Rotation(-1)), ({}, Rotation(0)), ({}, Rotation(1)), ({}, Rotation(0))], \
         instance_queries: [({}, Rotation(0))], fixed_queries: [({}, Rotation(0)), ({}, \
         Rotation(0))], permutation: Argument {{ columns: [{}, {}] }}, lookups: [Argument {{ \
         input_expressions: [{}], table_expressions: [Fixed {{ query_index: 0, column_index: 0, \
         rotation: Rotation(0) }}] }}], constants: [{}], minimum_degree: Some(7) }}",
        gates.join(", "),
        column(0, "Advice"),
        column(1, "Advice"),
        column(0, "Advice"),
        column(0, "Advice"),
        column(0, "Instance"),
        column(0, "Fixed"),
        column(1, "Fixed"),
        column(0, "Advice"),
        column(1, "Fixed"),
        a(1, 1, 0),
        column(1, "Fixed"),
    );
    assert_eq!(meta.pinned().debug(), expected);
    assert_eq!(format!("{:?}", meta.pinned()), expected);
    assert_eq!(meta.clone().pinned().debug(), expected);
}

#[test]
fn gates_and_lookups_are_added_behind_the_others() {
    let mut meta = example();
    let gates = meta.gates.len();
    let lookups = meta.lookups.len();
    let permutation = meta.get_permutation_columns();
    let a = meta.advice_column();
    let table = meta.lookup_table_column();
    let index = meta.lookup(|meta| vec![(meta.query_advice(a, Rotation(2)), table)]);
    assert_eq!(index, lookups);
    meta.create_gate("last", |meta| [meta.query_advice(a, Rotation(3))]);
    assert_eq!(meta.lookups.len(), lookups + 1);
    assert_eq!(meta.gates.len(), gates + 1);
    assert_eq!(meta.gates[gates].name(), "last");
    assert_eq!(meta.gates[0].name(), example().gates[0].name());
    assert_eq!(meta.get_permutation_columns(), permutation);
    let before = example().advice_queries;
    assert_eq!(meta.advice_queries[..before.len()], before[..]);
    assert_eq!(meta.advice_queries.len(), before.len() + 2);
}
