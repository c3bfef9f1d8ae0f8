use proconio::error::{ReadError, Target};
use proconio::input::{read_group, read_value, Shape, Value};
use proconio::source::auto::AutoSource;
use proconio::source::line::LineSource;
use proconio::source::once::OnceSource;

// Order preservation: reading [a, b, c] in one group yields the same values
// as reading [a] and then [b, c] from the same source state.
#[test]
fn order_preservation_split_groups() {
    let shapes = vec![Shape::Usize, Shape::I32, Shape::Str];
    let mut whole = AutoSource::from_str("7 -3 end");
    let all = read_group(&shapes, &mut whole).unwrap();

    let mut split = AutoSource::from_str("7 -3 end");
    let first = read_group(&vec![Shape::Usize], &mut split).unwrap();
    let rest = read_group(&vec![Shape::I32, Shape::Str], &mut split).unwrap();

    assert_eq!(all.len(), 3);
    assert_eq!(first[0], all[0]);
    assert_eq!(rest[0], all[1]);
    assert_eq!(rest[1], all[2]);
}

// Resumability across groups: reads resume mid-line and across lines, and
// the incremental source agrees with the eager one.
#[test]
fn resumability_across_groups() {
    let text = "4 1 2\n3 4";
    let pair = Shape::Tuple(vec![Shape::I32, Shape::I32]);

    let mut eager = OnceSource::from_str(text);
    let mut incremental = LineSource::from_str(text);

    let n_eager = read_value(&Shape::Usize, &mut eager).unwrap();
    let n_incr = read_value(&Shape::Usize, &mut incremental).unwrap();
    assert_eq!(n_eager, Value::Usize(4));
    assert_eq!(n_eager, n_incr);

    let mut pairs_eager = Vec::new();
    let mut pairs_incr = Vec::new();
    for _ in 0..2 {
        pairs_eager.push(read_value(&pair, &mut eager).unwrap());
        pairs_incr.push(read_value(&pair, &mut incremental).unwrap());
    }
    assert_eq!(
        pairs_eager[0],
        Value::Tuple(vec![Value::I32(1), Value::I32(2)])
    );
    assert_eq!(
        pairs_eager[1],
        Value::Tuple(vec![Value::I32(3), Value::I32(4)])
    );
    assert_eq!(pairs_eager, pairs_incr);
}

// Length-prefixed array round trip, with an explicitly empty inner sequence.
#[test]
fn length_prefixed_round_trip() {
    let mut source = AutoSource::from_str("3 3 1 2 3 0 2 1 2");
    let n = match read_value(&Shape::Usize, &mut source).unwrap() {
        Value::Usize(n) => n,
        _ => panic!("expected a usize value"),
    };
    let a = read_value(
        &Shape::Array(Box::new(Shape::Prefixed(Box::new(Shape::I32))), n),
        &mut source,
    )
    .unwrap();
    assert_eq!(
        a,
        Value::Array(vec![
            Value::Array(vec![Value::I32(1), Value::I32(2), Value::I32(3)]),
            Value::Array(vec![]),
            Value::Array(vec![Value::I32(1), Value::I32(2)]),
        ])
    );
}

// Decrement-adapter boundary: token "1" yields 0; token "0" fails with the
// underflow error rather than wrapping to the maximum value.
#[test]
fn decrement_boundary() {
    let mut ok = AutoSource::from_str("1");
    assert_eq!(
        read_value(&Shape::Usize1, &mut ok).unwrap(),
        Value::Usize(0)
    );

    let mut bad = AutoSource::from_str("0");
    let err = read_value(&Shape::Usize1, &mut bad).unwrap_err();
    assert!(matches!(
        err,
        ReadError::NumericUnderflow { target: Target::Usize1 }
    ));
}

// The signed decrement adapter fails only at the very minimum.
#[test]
fn decrement_boundary_signed() {
    let mut ok = AutoSource::from_str("-9223372036854775807");
    assert_eq!(
        read_value(&Shape::Isize1, &mut ok).unwrap(),
        Value::Isize(isize::MIN)
    );

    let mut bad = AutoSource::from_str("-9223372036854775808");
    let err = read_value(&Shape::Isize1, &mut bad).unwrap_err();
    assert!(matches!(
        err,
        ReadError::NumericUnderflow { target: Target::Isize1 }
    ));
}

// Aggregate derivation equivalence: reading a derived two-field record gives
// exactly what reading the two members inline gives.
#[test]
fn aggregate_equivalence() {
    let record = Shape::Record(vec![Shape::Usize, Shape::Usize1]);
    let mut as_record = AutoSource::from_str("5 1");
    let got = read_value(&record, &mut as_record).unwrap();

    let mut inline = AutoSource::from_str("5 1");
    let a = read_value(&Shape::Usize, &mut inline).unwrap();
    let b = read_value(&Shape::Usize1, &mut inline).unwrap();

    assert_eq!(got, Value::Record(vec![a, b]));
    assert_eq!(
        got,
        Value::Record(vec![Value::Usize(5), Value::Usize(0)])
    );
}

// Tuple/array nesting.
#[test]
fn tuple_array_nesting() {
    let mut source = AutoSource::from_str("2 1 1 1 2 2 2");
    let n = match read_value(&Shape::Usize, &mut source).unwrap() {
        Value::Usize(n) => n,
        _ => panic!("expected a usize value"),
    };
    let t = read_value(
        &Shape::Array(
            Box::new(Shape::Tuple(vec![
                Shape::Array(Box::new(Shape::U32), 2),
                Shape::I32,
            ])),
            n,
        ),
        &mut source,
    )
    .unwrap();
    assert_eq!(
        t,
        Value::Array(vec![
            Value::Tuple(vec![
                Value::Array(vec![Value::U32(1), Value::U32(1)]),
                Value::I32(1),
            ]),
            Value::Tuple(vec![
                Value::Array(vec![Value::U32(2), Value::U32(2)]),
                Value::I32(2),
            ]),
        ])
    );
}

// Unit-struct no-op: a zero-member record consumes nothing, alone, inside a
// group, and inside an array.
#[test]
fn unit_record_no_op() {
    let unit = Shape::Record(vec![]);
    let mut source = AutoSource::from_str("7");
    assert_eq!(
        read_value(&unit, &mut source).unwrap(),
        Value::Record(vec![])
    );
    // the token is still there for the next read
    assert_eq!(
        read_value(&Shape::Usize, &mut source).unwrap(),
        Value::Usize(7)
    );

    let mut grouped = AutoSource::from_str("1 2");
    let vals = read_group(
        &vec![Shape::U32, Shape::Record(vec![]), Shape::U32],
        &mut grouped,
    )
    .unwrap();
    assert_eq!(
        vals,
        vec![Value::U32(1), Value::Record(vec![]), Value::U32(2)]
    );

    let mut arrayed = AutoSource::from_str("9");
    let units = read_value(&Shape::Array(Box::new(Shape::Record(vec![])), 5), &mut arrayed)
        .unwrap();
    let mut expected_units = Vec::new();
    for _ in 0..5 {
        expected_units.push(Value::Record(vec![]));
    }
    assert_eq!(units, Value::Array(expected_units));
    assert_eq!(
        read_value(&Shape::Usize, &mut arrayed).unwrap(),
        Value::Usize(9)
    );
}

// Fail-fast atomicity: when the second of three bindings fails, the whole
// group yields only the error — no partial bindings exist.
#[test]
fn fail_fast_atomicity() {
    let shapes = vec![Shape::Usize, Shape::I32, Shape::Usize];
    let mut source = AutoSource::from_str("1 x 3");
    let r = read_group(&shapes, &mut source);
    match r {
        Ok(_) => panic!("the group must fail"),
        Err(ReadError::ScalarParseFailure { token, target }) => {
            assert_eq!(token, "x");
            assert_eq!(target, Target::I32);
        },
        Err(_) => panic!("expected a parse failure"),
    }
}
