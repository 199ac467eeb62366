use halo2_plonk::column::{Column, Fixed};
use halo2_plonk::compress_selectors::{SelectorAssignment, SelectorColumns, SelectorDescription};
use halo2_plonk::constraint_system::ConstraintSystem;
use halo2_plonk::rotation::Rotation;

fn system() -> ConstraintSystem<u64> {
    let mut meta = ConstraintSystem::<u64>::default();
    let a = meta.advice_column();
    let table = meta.lookup_table_column();
    let s = meta.selector();
    let t = meta.complex_selector();
    let u = meta.selector();
    meta.create_gate("g", |meta| {
        let a = meta.query_advice(a, Rotation(0));
        let s = meta.query_selector(s);
        let t = meta.query_selector(t);
        vec![s.clone() * a.clone(), s * a.clone().square(), t * a]
    });
    meta.create_gate("h", |meta| {
        let a = meta.query_advice(a, Rotation(0));
        let u = meta.query_selector(u);
        vec![a * u]
    });
    meta.lookup(|meta| {
        let a = meta.query_advice(a, Rotation(0));
        let t = meta.query_selector(t);
        vec![(t * a, table)]
    });
    meta
}

#[test]
fn degrees_of_simple_selectors_are_collected() {
    assert_eq!(system().selector_degrees(3), vec![3, 0, 2]);
}

#[test]
fn selectors_are_replaced_by_their_columns() {
    let meta = system();
    let rows = vec![vec![true, false], vec![false, true], vec![true, true]];
    let (meta, polys) = meta.compress_selectors(
        rows,
        |descriptions: Vec<SelectorDescription>,
         max_degree: usize,
         columns: &mut SelectorColumns<'_, u64>| {
            assert_eq!(max_degree, 5);
            let degrees: Vec<usize> = descriptions.iter().map(|d| d.max_degree).collect();
            assert_eq!(degrees, vec![3, 0, 2]);
            assert_eq!(descriptions[1].selector, 1);
            assert_eq!(descriptions[2].activations, vec![true, true]);
            let first = columns.allocate();
            let second = columns.allocate();
            (
                vec![vec![1, 0], vec![2, 3]],
                vec![
                    SelectorAssignment {
                        selector: 2,
                        combination_index: 0,
                        expression: first.clone(),
                    },
                    SelectorAssignment {
                        selector: 0,
                        combination_index: 1,
                        expression: second * 7,
                    },
                    SelectorAssignment {
                        selector: 1,
                        combination_index: 0,
                        expression: first,
                    },
                ],
            )
        },
    );
    assert_eq!(polys, vec![vec![1, 0], vec![2, 3]]);
    assert_eq!(meta.degree(), 5);
    assert_eq!(meta.num_fixed_columns, 3);
    assert_eq!(
        meta.selector_map,
        vec![Column::new(2, Fixed), Column::new(1, Fixed), Column::new(1, Fixed)]
    );
    assert_eq!(
        meta.fixed_queries,
        vec![
            (Column::new(0, Fixed), Rotation(0)),
            (Column::new(1, Fixed), Rotation(0)),
            (Column::new(2, Fixed), Rotation(0)),
        ]
    );
    let text = |e: &halo2_plonk::expression::Expression<u64>| {
        e.evaluate::<String, _, _, _, _, _, _, _, _, _>(
            &|c| format!("{}", c),
            &|s| format!("s{}", s.0),
            &|q| format!("f{}@{}", q.column_index, q.index),
            &|q| format!("a{}", q.index),
            &|q| format!("i{}", q.index),
            &|a| format!("-{}", a),
            &|a, b| format!("({}+{})", a, b),
            &|a, b| format!("{}*{}", a, b),
            &|a, f| format!("{}.{}", a, f),
        )
    };
    let polys: Vec<String> = meta
        .gates
        .iter()
        .flat_map(|gate| gate.polynomials().iter().map(text))
        .collect();
    assert_eq!(polys, vec!["f2@2.7*a0", "f2@2.7*a0*a0", "f1@1*a0", "a0*f1@1"]);
    assert_eq!(text(&meta.lookups[0].input_expressions[0]), "f1@1*a0");
    assert_eq!(text(&meta.lookups[0].table_expressions[0]), "f0@0");
    assert_eq!(meta.gates[0].name(), "g");
    assert_eq!(meta.gates[0].queried_selectors().len(), 2);
}

#[test]
fn each_selector_gets_its_column() {
    let mut meta = ConstraintSystem::<u64>::default();
    let s = meta.selector();
    let t = meta.selector();
    meta.create_gate("g", |meta| vec![meta.query_selector(s), meta.query_selector(t)]);
    let (meta, _) = meta.compress_selectors(
        vec![vec![], vec![]],
        |_d: Vec<SelectorDescription>, _m: usize, columns: &mut SelectorColumns<'_, u64>| {
            let a = columns.allocate();
            let b = columns.allocate();
            let assign = |selector, combination_index, expression| SelectorAssignment {
                selector,
                combination_index,
                expression,
            };
            (vec![], vec![assign(0, 0, a), assign(1, 1, b)])
        },
    );
    assert_eq!(meta.selector_map, vec![Column::new(0, Fixed), Column::new(1, Fixed)]);
}

/// The value of an expression where each query has the value at its index.
fn value(
    e: &halo2_plonk::expression::Expression<u64>,
    selectors: &[u64],
    fixed: &[u64],
    advice: &[u64],
) -> u64 {
    e.evaluate::<u64, _, _, _, _, _, _, _, _, _>(
        &|c| c,
        &|s| selectors[s.0],
        &|q| fixed[q.index],
        &|q| advice[q.index],
        &|_| 0,
        &|a| a.wrapping_neg(),
        &|a, b| a.wrapping_add(b),
        &|a, b| a.wrapping_mul(b),
        &|a, f| a.wrapping_mul(f),
    )
}

#[test]
fn the_meaning_and_the_degree_of_a_system_are_kept() {
    let before = system();
    let polys: Vec<_> = before
        .gates
        .iter()
        .flat_map(|gate| gate.polynomials().iter().cloned())
        .collect();
    let input = before.lookups[0].input_expressions[0].clone();
    let degree = before.degree();
    let (after, _) = before.compress_selectors(
        vec![vec![], vec![], vec![]],
        |_d: Vec<SelectorDescription>,
         max_degree: usize,
         columns: &mut SelectorColumns<'_, u64>| {
            assert_eq!(max_degree, 5);
            let complex = columns.allocate();
            let combined = columns.allocate();
            let two = halo2_plonk::expression::Expression::Constant(2);
            let one = halo2_plonk::expression::Expression::Constant(1);
            let assign = |selector, combination_index, expression| SelectorAssignment {
                selector,
                combination_index,
                expression,
            };
            // The two simple selectors share a column, in which 1 and 2 stand for them.
            let first = combined.clone() * (two - combined.clone());
            let second = combined.clone() * (one - combined);
            (vec![], vec![assign(0, 1, first), assign(1, 0, complex), assign(2, 1, second)])
        },
    );
    assert_eq!(degree, 5);
    assert_eq!(after.degree(), 5);
    assert_eq!(after.num_fixed_columns, 3);
    assert_eq!(after.num_selectors, 3);
    assert_eq!(after.num_advice_columns, 1);
    assert_eq!(after.advice_queries, system().advice_queries);
    assert_eq!(after.constants, system().constants);
    for t in [0, 1] {
        for c in [0u64, 1, 2] {
            let fixed = [0, t, c];
            let selectors = [
                c.wrapping_mul(2u64.wrapping_sub(c)),
                t,
                c.wrapping_mul(1u64.wrapping_sub(c)),
            ];
            let mut polys = polys.iter();
            for gate in after.gates.iter() {
                for poly in gate.polynomials() {
                    let given = polys.next().unwrap();
                    assert_eq!(
                        value(poly, &[], &fixed, &[11]),
                        value(given, &selectors, &fixed, &[11])
                    );
                }
            }
            assert_eq!(
                value(&after.lookups[0].input_expressions[0], &[], &fixed, &[11]),
                value(&input, &selectors, &fixed, &[11])
            );
        }
    }
}
