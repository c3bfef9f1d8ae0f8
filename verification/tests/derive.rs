// The aggregate used here mirrors a user struct whose members are, in
// declaration order: a plain `usize`, a one-indexed `usize`, a unit struct
// and a one-field tuple struct.  Reading the record reads each member's
// shape in that order and nothing else.

use proconio::input::{read_value, Shape, Value};
use proconio::source::line::LineSource;
use proconio::source::text::Source;

fn edge_shape() -> Shape {
    Shape::Record(vec![
        Shape::Usize,
        Shape::Usize1,
        Shape::Record(vec![]),
        Shape::Record(vec![Shape::I32]),
    ])
}

#[test]
fn derive() {
    let mut source = Source::from_str("  12 32 35");
    let edge = read_value(&edge_shape(), &mut source).unwrap();
    let fields = match edge {
        Value::Record(fields) => fields,
        _ => panic!("expected a record value"),
    };
    assert_eq!(fields[0], Value::Usize(12));
    assert_eq!(fields[1], Value::Usize(31));
    assert_eq!(fields[2], Value::Record(vec![]));
    assert_eq!(fields[3], Value::Record(vec![Value::I32(35)]));
}

#[test]
fn derive_derive() {
    let mut source = LineSource::from_str("  12 32 35");
    let edge = read_value(&edge_shape(), &mut source).unwrap();
    let fields = match edge {
        Value::Record(fields) => fields,
        _ => panic!("expected a record value"),
    };
    assert_eq!(fields[0], Value::Usize(12));
    assert_eq!(fields[1], Value::Usize(31));
    assert_eq!(fields[2], Value::Record(vec![]));
    assert_eq!(fields[3], Value::Record(vec![Value::I32(35)]));
}
