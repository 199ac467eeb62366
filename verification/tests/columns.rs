use std::cmp::Ordering;

use halo2_plonk::column::{Advice, Any, Column, ColumnType, Fixed, Instance};
use halo2_plonk::rotation::Rotation;

#[test]
fn columns_are_sorted_by_kind_then_by_index() {
    let mut columns = vec![
        Column::new(0, Any::Fixed),
        Column::new(3, Any::Advice),
        Column::new(7, Any::Instance),
        Column::new(1, Any::Advice),
        Column::new(2, Any::Instance),
    ];
    columns.sort();
    assert_eq!(
        columns,
        vec![
            Column::new(2, Any::Instance),
            Column::new(7, Any::Instance),
            Column::new(1, Any::Advice),
            Column::new(3, Any::Advice),
            Column::new(0, Any::Fixed),
        ]
    );
}

#[test]
fn both_orders_of_columns_agree() {
    let kinds = [Any::Instance, Any::Advice, Any::Fixed];
    for a in kinds {
        for b in kinds {
            assert_eq!(a.partial_cmp(&b), Some(a.cmp(&b)));
            for (i, j) in [(0, 0), (0, 1), (1, 0)] {
                let x = Column::new(i, a);
                let y = Column::new(j, b);
                assert_eq!(x.partial_cmp(&y), Some(x.cmp(&y)));
                assert_eq!(x.cmp(&y), y.cmp(&x).reverse());
            }
        }
    }
    assert_eq!(Any::Instance.cmp(&Any::Advice), Ordering::Less);
    assert_eq!(Any::Advice.cmp(&Any::Fixed), Ordering::Less);
    assert_eq!(Any::Fixed.cmp(&Any::Instance), Ordering::Greater);
    assert!(Column::new(1, Advice) < Column::new(2, Advice));
    assert!(Column::new(2, Fixed) > Column::new(1, Fixed));
}

#[test]
fn a_column_has_its_index_and_its_type() {
    let column = Column::new(5, Any::Advice);
    assert_eq!(column.index(), 5);
    assert_eq!(column.get_index(), 5);
    assert_eq!(*column.column_type(), Any::Advice);
    assert_eq!(column.clone(), column);
}

#[test]
fn a_forgotten_type_can_be_restored() {
    let advice = Column::new(4, Advice);
    let fixed = Column::new(5, Fixed);
    let instance = Column::new(6, Instance);
    assert_eq!(advice.to_any(), Column::new(4, Any::Advice));
    assert_eq!(Column::<Any>::from(advice), advice.to_any());
    assert_eq!(Column::<Any>::from(fixed), fixed.to_any());
    assert_eq!(Column::<Any>::from(instance), instance.to_any());
    assert_eq!(Column::<Advice>::try_from(advice.to_any()), Ok(advice));
    assert_eq!(Column::<Fixed>::try_from(fixed.to_any()), Ok(fixed));
    assert_eq!(Column::<Instance>::try_from(instance.to_any()), Ok(instance));
    assert_eq!(
        Column::<Advice>::try_from(fixed.to_any()),
        Err("Cannot convert into Column<Advice>")
    );
    assert_eq!(
        Column::<Fixed>::try_from(instance.to_any()),
        Err("Cannot convert into Column<Fixed>")
    );
    assert_eq!(
        Column::<Instance>::try_from(advice.to_any()),
        Err("Cannot convert into Column<Instance>")
    );
}

#[test]
fn kinds_have_their_bytes() {
    assert_eq!(Any::from(Advice), Any::Advice);
    assert_eq!(Any::from(Fixed), Any::Fixed);
    assert_eq!(Any::from(Instance), Any::Instance);
    assert_eq!(Advice.to_any(), Any::Advice);
    for (kind, tag) in [(Any::Fixed, 0), (Any::Advice, 1), (Any::Instance, 2)] {
        assert_eq!(kind.to_tag(), tag);
        assert_eq!(Any::from_tag(tag), Some(kind));
    }
    assert_eq!(Any::from_tag(3), None);
    assert_eq!(Any::from_tag(255), None);
}

#[test]
fn rotations_are_relative_to_the_current_row() {
    assert_eq!(Rotation::cur(), Rotation(0));
    assert_eq!(Rotation::prev(), Rotation(-1));
    assert_eq!(Rotation::next(), Rotation(1));
    let mut out = String::new();
    Rotation(-17).append_text(&mut out);
    assert_eq!(out, "Rotation(-17)");
}

#[test]
fn columns_are_printed_with_their_index_first() {
    assert_eq!(
        format!("{:?}", Column::new(4, Advice)),
        "Column { index: 4, column_type: Advice }"
    );
    assert_eq!(
        format!("{:?}", Column::new(0, Any::Instance)),
        "Column { index: 0, column_type: Instance }"
    );
    assert_eq!(
        format!("{:#?}", Column::new(7, Fixed)),
        "Column {\n    index: 7,\n    column_type: Fixed,\n}"
    );
}
