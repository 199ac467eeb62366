use std::ops::Neg;

use halo2_plonk::codec::{ReadError, Reader};
use halo2_plonk::column::{Advice, Any, Column, Fixed, Instance};
use halo2_plonk::expression::{
    AdviceQuery, Expression, FixedQuery, InstanceQuery, Selector,
};
use halo2_plonk::field::{Fp, FromUniformBytes, PrimeField};
use halo2_plonk::rotation::Rotation;

type E = Expression<Fp>;

fn fp(n: u8) -> Fp {
    let mut bytes = [0u8; 32];
    bytes[0] = n;
    Fp::from_repr(&bytes).unwrap()
}

fn constant(n: u8) -> E {
    Expression::Constant(fp(n))
}

fn simple(index: usize) -> E {
    Expression::Selector(Selector(index, true))
}

fn complex(index: usize) -> E {
    Expression::Selector(Selector(index, false))
}

fn fixed(index: usize, column_index: usize) -> E {
    Expression::Fixed(FixedQuery { index, column_index, rotation: Rotation(0) })
}

fn advice(index: usize, column_index: usize, rotation: i32) -> E {
    Expression::Advice(AdviceQuery { index, column_index, rotation: Rotation(rotation) })
}

fn instance(index: usize, column_index: usize, rotation: i32) -> E {
    Expression::Instance(InstanceQuery { index, column_index, rotation: Rotation(rotation) })
}

fn tables() -> (
    Vec<(Column<Fixed>, Rotation)>,
    Vec<(Column<Advice>, Rotation)>,
    Vec<(Column<Instance>, Rotation)>,
) {
    (
        vec![(Column::new(4, Fixed), Rotation(0))],
        vec![
            (Column::new(5, Advice), Rotation(0)),
            (Column::new(6, Advice), Rotation(-1)),
        ],
        vec![(Column::new(7, Instance), Rotation(2))],
    )
}

fn bytes_of(e: &E) -> Vec<u8> {
    let mut out = Vec::new();
    e.write(&mut out);
    out
}

fn read(bytes: &[u8]) -> Result<(E, usize), ReadError> {
    let (f, a, i) = tables();
    let mut reader = Reader::new(bytes);
    match E::read(&mut reader, &f, &a, &i) {
        Ok(e) => Ok((e, reader.remaining().len())),
        Err(e) => Err(e),
    }
}

fn repr(n: u8) -> Vec<u8> {
    let mut bytes = vec![0u8; 32];
    bytes[0] = n;
    bytes
}

#[test]
fn degrees_follow_the_operators() {
    assert_eq!(constant(1).degree(), 0);
    assert_eq!(simple(0).degree(), 1);
    assert_eq!(fixed(0, 0).degree(), 1);
    assert_eq!(advice(0, 0, 0).degree(), 1);
    assert_eq!(instance(0, 0, 0).degree(), 1);
    let square = advice(0, 0, 0).square();
    assert_eq!(square.degree(), 2);
    assert_eq!(square.clone().neg().degree(), 2);
    assert_eq!((square.clone() + constant(1)).degree(), 2);
    assert_eq!((constant(1) - square.clone()).degree(), 2);
    assert_eq!((square.clone() * advice(1, 0, 1)).degree(), 3);
    assert_eq!((square.clone() * fp(9)).degree(), 2);
    assert_eq!(square.checked_degree(), Some(2));
}

#[test]
fn operators_build_trees() {
    let a = advice(0, 0, 0);
    let b = fixed(1, 1);
    assert_eq!(
        (a.clone() + b.clone()).debug(),
        "Sum(Advice { query_index: 0, column_index: 0, rotation: Rotation(0) }, \
         Fixed { query_index: 1, column_index: 1, rotation: Rotation(0) })"
    );
    assert_eq!(
        (a.clone() - b.clone()).debug(),
        format!("Sum({}, Negated({}))", a.debug(), b.debug())
    );
    assert_eq!(
        (a.clone() * b.clone()).debug(),
        format!("Product({}, {})", a.debug(), b.debug())
    );
    assert_eq!(
        (a.clone() * fp(0xab)).debug(),
        format!("Scaled({}, 0x{:064x})", a.debug(), 0xab)
    );
    assert_eq!(a.clone().square().debug(), format!("Product({0}, {0})", a.debug()));
}

#[test]
fn every_variant_is_printed() {
    assert_eq!(constant(0x1f).debug(), format!("Constant(0x{:064x})", 0x1f));
    assert_eq!(simple(12).debug(), "Selector(Selector(12, true))");
    assert_eq!(complex(0).debug(), "Selector(Selector(0, false))");
    assert_eq!(
        instance(3, 21, -4).debug(),
        "Instance { query_index: 3, column_index: 21, rotation: Rotation(-4) }"
    );
    assert_eq!(
        constant(1).neg().debug(),
        format!("Negated(Constant(0x{:064x}))", 1)
    );
}

#[test]
fn the_debug_trait_prints_the_same() {
    let e = (complex(3) * fixed(1, 2) + advice(0, 5, -1) * fp(7)) - instance(3, 21, -4).neg();
    assert_eq!(format!("{:?}", e), e.debug());
    assert_eq!(format!("{:?}", vec![simple(2), constant(1)]), {
        format!("[Selector(Selector(2, true)), Constant(0x{:064x})]", 1)
    });
    assert_eq!(
        format!("{:?}", Expression::Constant(5u64) * 6),
        "Scaled(Constant(5), 6)"
    );
    assert_eq!(
        format!("{:#?}", fixed(1, 2)),
        "Fixed {\n    query_index: 1,\n    column_index: 2,\n    rotation: Rotation(\n        \
         0,\n    ),\n}"
    );
    assert_eq!(format!("{:?}", fp(0x2b)), format!("0x{:064x}", 0x2b));
}

#[test]
fn simple_selectors_are_found() {
    assert!(simple(3).contains_simple_selector());
    assert!(!complex(3).contains_simple_selector());
    let gate = simple(3) * (advice(0, 0, 0) - complex(4));
    assert!(gate.contains_simple_selector());
    assert_eq!(gate.extract_simple_selector(), Some(Selector(3, true)));
    assert_eq!((gate * fp(2)).neg().extract_simple_selector(), Some(Selector(3, true)));
    assert_eq!((constant(1) + complex(4)).extract_simple_selector(), None);
    assert_eq!((advice(0, 0, 0) * simple(9)).extract_simple_selector(), Some(Selector(9, true)));
}

#[test]
fn selectors_are_enabled_by_the_region() {
    let r = Selector(4, false).enable(|s, offset| (s.0, s.is_simple(), offset), 17);
    assert_eq!(r, (4, false, 17));
    assert!(Selector(0, true).is_simple());
}

#[test]
fn evaluation_visits_every_variant() {
    let e: Expression<u64> = (Expression::Constant(3)
        + Expression::Fixed(FixedQuery { index: 0, column_index: 0, rotation: Rotation(0) }))
        * (Expression::Advice(AdviceQuery { index: 1, column_index: 0, rotation: Rotation(0) })
            - Expression::Instance(InstanceQuery {
                index: 2,
                column_index: 0,
                rotation: Rotation(0),
            }))
        * Expression::Selector(Selector(5, false))
        * 7;
    let value: i64 = e.evaluate(
        &|c| c as i64,
        &|s| 100 + s.0 as i64,
        &|q| 10 + q.index as i64,
        &|q| 20 + q.index as i64,
        &|q| 30 + q.index as i64,
        &|a: i64| -a,
        &|a, b| a + b,
        &|a, b| a * b,
        &|a, f| a * f as i64,
    );
    assert_eq!(value, (3 + 10) * (21 - 32) * 105 * 7);
    let text: String = e.evaluate(
        &|c| format!("{}", c),
        &|s| format!("s{}", s.0),
        &|q| format!("f{}", q.index),
        &|q| format!("a{}", q.index),
        &|q| format!("i{}", q.index),
        &|a: String| format!("-{}", a),
        &|a, b| format!("({}+{})", a, b),
        &|a, b| format!("{}*{}", a, b),
        &|a, f| format!("{}.{}", a, f),
    );
    assert_eq!(text, "(3+f0)*(a1+-i2)*s5.7");
}

#[test]
fn every_variant_has_its_tag() {
    assert_eq!(bytes_of(&constant(5)), [vec![0x00], repr(5)].concat());
    assert_eq!(bytes_of(&simple(0x0203)), vec![0x01, 0x03, 0x02, 1]);
    assert_eq!(bytes_of(&complex(7)), vec![0x01, 7, 0, 0]);
    assert_eq!(bytes_of(&fixed(0x0102, 9)), vec![0x02, 0x02, 0x01]);
    assert_eq!(bytes_of(&advice(1, 9, 0)), vec![0x03, 1, 0]);
    assert_eq!(bytes_of(&instance(1, 9, 0)), vec![0x04, 1, 0]);
    assert_eq!(bytes_of(&advice(1, 9, 0).neg()), vec![0x05, 0x03, 1, 0]);
    assert_eq!(
        bytes_of(&(advice(1, 9, 0) + fixed(2, 0))),
        vec![0x06, 0x03, 1, 0, 0x02, 2, 0]
    );
    assert_eq!(
        bytes_of(&(advice(1, 9, 0) * fixed(2, 0))),
        vec![0x07, 0x03, 1, 0, 0x02, 2, 0]
    );
    assert_eq!(
        bytes_of(&(advice(1, 9, 0) * fp(3))),
        [vec![0x08, 0x03, 1, 0], repr(3)].concat()
    );
}

#[test]
fn expressions_are_read_back() {
    let e = (simple(65535) * (advice(1, 6, -1) - fixed(0, 4)) * fp(200)).neg()
        * (instance(0, 7, 2) + constant(1) + complex(0));
    let mut bytes = bytes_of(&e);
    let (back, rest) = read(&bytes).unwrap();
    assert_eq!(back.debug(), e.debug());
    assert_eq!(rest, 0);
    bytes.push(0xee);
    let (back, rest) = read(&bytes).unwrap();
    assert_eq!(bytes_of(&back), bytes_of(&e));
    assert_eq!(rest, 1);
}

#[test]
fn different_expressions_have_different_bytes() {
    let all = [
        constant(0),
        constant(1),
        simple(0),
        complex(0),
        fixed(0, 4),
        advice(0, 5, 0),
        advice(1, 6, -1),
        instance(0, 7, 2),
        advice(0, 5, 0).neg(),
        advice(0, 5, 0) + fixed(0, 4),
        fixed(0, 4) + advice(0, 5, 0),
        advice(0, 5, 0) * fixed(0, 4),
        advice(0, 5, 0) * fp(1),
        advice(0, 5, 0) * fp(2),
    ];
    for (i, a) in all.iter().enumerate() {
        for (j, b) in all.iter().enumerate() {
            assert_eq!(bytes_of(a) == bytes_of(b), i == j);
        }
    }
}

#[test]
fn any_nonzero_byte_makes_a_selector_simple() {
    let (e, _) = read(&[0x01, 4, 0, 0x7f]).unwrap();
    assert_eq!(e.extract_simple_selector(), Some(Selector(4, true)));
    assert_eq!(bytes_of(&e), vec![0x01, 4, 0, 1]);
}

#[test]
fn expressions_are_written_as_they_were_read() {
    // A sum of a negated selector and a scaled one.
    let plain = [vec![0x06, 0x05, 0x01, 4, 0, 1, 0x08, 0x01, 3, 2, 0], repr(7)].concat();
    let (e, left) = read(&plain).unwrap();
    assert_eq!(left, 0);
    assert_eq!(bytes_of(&e), plain);
    for position in [5, 10] {
        let mut other = plain.clone();
        other[position] = 2;
        let (e, left) = read(&other).unwrap();
        assert_eq!(left, 0);
        other[position] = 1;
        assert_eq!(bytes_of(&e), other);
    }
}

#[test]
fn bad_expressions_are_refused() {
    assert_eq!(read(&[]).err(), Some(ReadError::UnexpectedEof));
    assert_eq!(read(&[0x09]).err(), Some(ReadError::InvalidExpressionTag(9)));
    assert_eq!(read(&[0xff]).err(), Some(ReadError::InvalidExpressionTag(255)));
    assert_eq!(read(&[0x01, 0]).err(), Some(ReadError::UnexpectedEof));
    assert_eq!(read(&[0x01, 0, 0]).err(), Some(ReadError::UnexpectedEof));
    assert_eq!(
        read(&[0x02, 1, 0]).err(),
        Some(ReadError::QueryOutOfBounds { kind: Any::Fixed, index: 1, len: 1 })
    );
    assert_eq!(
        read(&[0x03, 0, 1]).err(),
        Some(ReadError::QueryOutOfBounds { kind: Any::Advice, index: 256, len: 2 })
    );
    assert_eq!(
        read(&[0x04, 9, 0]).err(),
        Some(ReadError::QueryOutOfBounds { kind: Any::Instance, index: 9, len: 1 })
    );
    assert_eq!(read(&[0x05]).err(), Some(ReadError::UnexpectedEof));
    assert_eq!(read(&[0x06, 0x02, 0, 0]).err(), Some(ReadError::UnexpectedEof));
    assert_eq!(read(&[0x07, 0x02, 0, 0, 0x0a]).err(), Some(ReadError::InvalidExpressionTag(10)));
    assert_eq!(read(&[vec![0x00], vec![0; 31]].concat()).err(), Some(ReadError::UnexpectedEof));
    assert_eq!(
        read(&[vec![0x00], vec![0xff; 32]].concat()).err(),
        Some(ReadError::InvalidFieldElement)
    );
    assert_eq!(
        read(&[vec![0x08, 0x02, 0, 0], vec![0xff; 32]].concat()).err(),
        Some(ReadError::InvalidScaleFactor)
    );
}

#[test]
fn field_elements_have_one_encoding() {
    let modulus: [u8; 32] = [
        0x01, 0x00, 0x00, 0x00, 0xed, 0x30, 0x2d, 0x99, 0x1b, 0xf9, 0x4c, 0x09, 0xfc, 0x98, 0x46,
        0x22, 0, 0, 0, 0, 0, 0, 0, 0, 0, 0, 0, 0, 0, 0, 0, 0x40,
    ];
    assert!(Fp::from_repr(&modulus).is_none());
    let mut largest = modulus;
    largest[0] = 0;
    let f = Fp::from_repr(&largest).unwrap();
    assert_eq!(f.to_repr(), largest.to_vec());
    assert_eq!(
        f.debug(),
        "0x40000000000000000000000000000000224698fc094cf91b992d30ed00000000"
    );
    assert_eq!(
        Fp::modulus(),
        "0x40000000000000000000000000000000224698fc094cf91b992d30ed00000001"
    );
    assert_eq!(Fp::repr_size(), 32);
}

#[test]
fn uniform_bytes_are_reduced_by_the_modulus() {
    let mut bytes = [0u8; 64];
    bytes[0] = 9;
    assert_eq!(Fp::from_uniform_bytes(&bytes), fp(9));
    // The modulus plus four.
    let mut bytes = [0u8; 64];
    bytes[..32].copy_from_slice(&[
        0x05, 0x00, 0x00, 0x00, 0xed, 0x30, 0x2d, 0x99, 0x1b, 0xf9, 0x4c, 0x09, 0xfc, 0x98, 0x46,
        0x22, 0, 0, 0, 0, 0, 0, 0, 0, 0, 0, 0, 0, 0, 0, 0, 0x40,
    ]);
    assert_eq!(Fp::from_uniform_bytes(&bytes), fp(4));
}
