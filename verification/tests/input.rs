use proconio::input::{read_group, read_value, Shape, Value};
use proconio::source::auto::AutoSource;

fn get_usize(v: &Value) -> usize {
    match v {
        Value::Usize(u) => *u,
        _ => panic!("expected a usize value"),
    }
}

fn i32s(xs: &[i32]) -> Value {
    Value::Array(xs.iter().map(|x| Value::I32(*x)).collect())
}

#[test]
fn input_empty() {
    let mut source = AutoSource::from_str("");
    let shapes: Vec<Shape> = vec![];
    let vals = read_group(&shapes, &mut source).unwrap();
    assert!(vals.is_empty());
}

#[test]
fn input_number() {
    let mut source = AutoSource::from_str("    32   54 -23\r\r\n\nfalse");
    let shapes = vec![Shape::U8, Shape::U32, Shape::I32];
    let vals = read_group(&shapes, &mut source).unwrap();
    assert_eq!(vals[0], Value::U8(32));
    assert_eq!(vals[1], Value::U32(54));
    assert_eq!(vals[2], Value::I32(-23));
}

#[test]
fn lib_input_number() {
    let mut source = AutoSource::from_str("    32   54 -23\r\r\n\nfalse");
    let shapes = vec![Shape::U8, Shape::U32, Shape::I32];
    let vals = read_group(&shapes, &mut source).unwrap();
    assert_eq!(vals[0], Value::U8(32));
    assert_eq!(vals[1], Value::U32(54));
    assert_eq!(vals[2], Value::I32(-23));
}

#[test]
fn input_str() {
    let mut source = AutoSource::from_str("  string   chars\nbytes");
    let shapes = vec![Shape::Str, Shape::Chars, Shape::Bytes];
    let vals = read_group(&shapes, &mut source).unwrap();
    assert_eq!(vals[0], Value::Str("string".to_string()));
    assert_eq!(vals[1], Value::Chars(vec!['c', 'h', 'a', 'r', 's']));
    assert_eq!(vals[2], Value::Bytes(b"bytes".to_vec()));
}

#[test]
fn lib_input_str() {
    let mut source = AutoSource::from_str("  string   chars\nbytes");
    let shapes = vec![Shape::Str, Shape::Chars, Shape::Bytes];
    let vals = read_group(&shapes, &mut source).unwrap();
    assert_eq!(vals[0], Value::Str("string".to_string()));
    assert_eq!(vals[1], Value::Chars(vec!['c', 'h', 'a', 'r', 's']));
    assert_eq!(vals[2], Value::Bytes(b"bytes".to_vec()));
}

#[test]
fn input_array() {
    let mut source = AutoSource::from_str("5 3 1 2 3 4 5 1 2 3 4 5 1 2 3 4 5 1 2 3 4 5");
    let n = get_usize(&read_value(&Shape::Usize, &mut source).unwrap());
    let m = get_usize(&read_value(&Shape::Usize, &mut source).unwrap());
    let a = read_value(&Shape::Array(Box::new(Shape::I32), n), &mut source).unwrap();
    let b = read_value(
        &Shape::Array(Box::new(Shape::Array(Box::new(Shape::I32), n)), m),
        &mut source,
    )
    .unwrap();
    assert_eq!(a, i32s(&[1, 2, 3, 4, 5]));
    assert_eq!(
        b,
        Value::Array(vec![
            i32s(&[1, 2, 3, 4, 5]),
            i32s(&[1, 2, 3, 4, 5]),
            i32s(&[1, 2, 3, 4, 5]),
        ])
    );
}

#[test]
fn lib_input_array() {
    let mut source = AutoSource::from_str("5 4 1 2 3 4 5 1 2 3 4 5 1 2 3 4 5 1 2 3 4 5");
    let n = get_usize(&read_value(&Shape::Usize, &mut source).unwrap());
    let m = get_usize(&read_value(&Shape::Usize, &mut source).unwrap());
    let a = read_value(
        &Shape::Array(Box::new(Shape::Array(Box::new(Shape::I32), n)), m),
        &mut source,
    )
    .unwrap();
    assert_eq!(
        a,
        Value::Array(vec![
            i32s(&[1, 2, 3, 4, 5]),
            i32s(&[1, 2, 3, 4, 5]),
            i32s(&[1, 2, 3, 4, 5]),
            i32s(&[1, 2, 3, 4, 5]),
        ])
    );
}

#[test]
fn input_vla() {
    let mut source = AutoSource::from_str("5 3 1 2 3 2 1 2 4 1 2 3 4 0 6 1 2 3 4 5 6");
    let n = get_usize(&read_value(&Shape::Usize, &mut source).unwrap());
    let a = read_value(
        &Shape::Array(Box::new(Shape::Prefixed(Box::new(Shape::I32))), n),
        &mut source,
    )
    .unwrap();
    assert_eq!(
        a,
        Value::Array(vec![
            i32s(&[1, 2, 3]),
            i32s(&[1, 2]),
            i32s(&[1, 2, 3, 4]),
            i32s(&[]),
            i32s(&[1, 2, 3, 4, 5, 6]),
        ])
    );
}

#[test]
fn lib_input_vla() {
    let mut source = AutoSource::from_str("5 3 1 2 3 2 1 2 4 1 2 3 4 0 6 1 2 3 4 5 6");
    let n = get_usize(&read_value(&Shape::Usize, &mut source).unwrap());
    let a = read_value(
        &Shape::Array(Box::new(Shape::Prefixed(Box::new(Shape::I32))), n),
        &mut source,
    )
    .unwrap();
    assert_eq!(
        a,
        Value::Array(vec![
            i32s(&[1, 2, 3]),
            i32s(&[1, 2]),
            i32s(&[1, 2, 3, 4]),
            i32s(&[]),
            i32s(&[1, 2, 3, 4, 5, 6]),
        ])
    );
}

fn five_tuple(a: i32, b: i32, c: i32, d: i32, e: i32) -> Value {
    Value::Tuple(vec![
        Value::I32(a),
        Value::I32(b),
        Value::I32(c),
        Value::I32(d),
        Value::I32(e),
    ])
}

#[test]
fn input_tuple() {
    let mut source = AutoSource::from_str("4 1 2 3 4 5 1 2 3 4 5 1 2 3 4 5 1 2 3 4 5");
    let n = get_usize(&read_value(&Shape::Usize, &mut source).unwrap());
    let t = read_value(
        &Shape::Array(
            Box::new(Shape::Tuple(vec![
                Shape::I32,
                Shape::I32,
                Shape::I32,
                Shape::I32,
                Shape::I32,
            ])),
            n,
        ),
        &mut source,
    )
    .unwrap();
    assert_eq!(
        t,
        Value::Array(vec![
            five_tuple(1, 2, 3, 4, 5),
            five_tuple(1, 2, 3, 4, 5),
            five_tuple(1, 2, 3, 4, 5),
            five_tuple(1, 2, 3, 4, 5),
        ])
    );
}

#[test]
fn lib_input_tuple() {
    let mut source = AutoSource::from_str("4 1 2 3 4 5 1 2 3 4 5 1 2 3 4 5 1 2 3 4 5");
    let n = get_usize(&read_value(&Shape::Usize, &mut source).unwrap());
    let t = read_value(
        &Shape::Array(
            Box::new(Shape::Tuple(vec![
                Shape::I32,
                Shape::I32,
                Shape::I32,
                Shape::I32,
                Shape::I32,
            ])),
            n,
        ),
        &mut source,
    )
    .unwrap();
    assert_eq!(
        t,
        Value::Array(vec![
            five_tuple(1, 2, 3, 4, 5),
            five_tuple(1, 2, 3, 4, 5),
            five_tuple(1, 2, 3, 4, 5),
            five_tuple(1, 2, 3, 4, 5),
        ])
    );
}

#[test]
fn input_multiple_times() {
    let mut source = AutoSource::from_str("4 1 2 3 4\n1 2\r\n\r\r\n3 4");
    let n = get_usize(&read_value(&Shape::Usize, &mut source).unwrap());
    for i in 0..n {
        let vals = read_group(&vec![Shape::I32, Shape::I32], &mut source).unwrap();
        let expected_j = if i % 2 == 0 { 1 } else { 3 };
        let expected_k = if i % 2 == 0 { 2 } else { 4 };
        assert_eq!(vals[0], Value::I32(expected_j));
        assert_eq!(vals[1], Value::I32(expected_k));
    }
}

#[test]
fn lib_input_multiple_times() {
    let mut source = AutoSource::from_str("4 1 2 3 4\n1 2\r\n\r\r\n3 4");
    let n = get_usize(&read_value(&Shape::Usize, &mut source).unwrap());
    for i in 0..n {
        let vals = read_group(&vec![Shape::I32, Shape::I32], &mut source).unwrap();
        let expected_j = if i % 2 == 0 { 1 } else { 3 };
        let expected_k = if i % 2 == 0 { 2 } else { 4 };
        assert_eq!(vals[0], Value::I32(expected_j));
        assert_eq!(vals[1], Value::I32(expected_k));
    }
}

#[test]
fn input_iusize1() {
    let mut source = AutoSource::from_str("4 1 2 3 4 5 6 7 8");
    let n = get_usize(&read_value(&Shape::Usize, &mut source).unwrap());
    for i in 0..n {
        let vals = read_group(&vec![Shape::Usize1, Shape::Usize1], &mut source).unwrap();
        assert_eq!(vals[0], Value::Usize(i * 2));
        assert_eq!(vals[1], Value::Usize(i * 2 + 1));
    }
}

#[test]
fn lib_input_iusize1() {
    let mut source = AutoSource::from_str("4 1 2 3 4 5 6 7 8");
    let n = get_usize(&read_value(&Shape::Usize, &mut source).unwrap());
    for i in 0..n {
        let vals = read_group(&vec![Shape::Usize1, Shape::Usize1], &mut source).unwrap();
        assert_eq!(vals[0], Value::Usize(i * 2));
        assert_eq!(vals[1], Value::Usize(i * 2 + 1));
    }
}

#[test]
fn input_mut() {
    let mut source = AutoSource::from_str("8 1 2 3 4 5 6 7 8");
    let mut n = get_usize(&read_value(&Shape::Usize, &mut source).unwrap());
    let mut sum = 0;
    while n > 0 {
        match read_value(&Shape::U32, &mut source).unwrap() {
            Value::U32(x) => sum += x,
            _ => panic!("expected a u32 value"),
        }
        n -= 1;
    }
    assert_eq!(sum, 36);
}

#[test]
fn lib_input_mut() {
    let mut source = AutoSource::from_str("8 1 2 3 4 5 6 7 8");
    let mut n = get_usize(&read_value(&Shape::Usize, &mut source).unwrap());
    let mut sum = 0;
    while n > 0 {
        match read_value(&Shape::U32, &mut source).unwrap() {
            Value::U32(x) => sum += x,
            _ => panic!("expected a u32 value"),
        }
        n -= 1;
    }
    assert_eq!(sum, 36);
}

#[test]
fn input_with_complex_type() {
    let mut source = AutoSource::from_str("Hello\n2\n3 1 2 3\n4 5 ab\n4");
    let shapes = vec![
        Shape::Bytes,
        Shape::Usize1,
        Shape::Prefixed(Box::new(Shape::Isize1)),
        Shape::Tuple(vec![Shape::Usize1, Shape::Isize1, Shape::Chars]),
        Shape::Tuple(vec![Shape::Usize1]),
    ];
    let vals = read_group(&shapes, &mut source).unwrap();
    assert_eq!(vals[0], Value::Bytes(b"Hello".to_vec()));
    assert_eq!(vals[1], Value::Usize(1));
    assert_eq!(
        vals[2],
        Value::Array(vec![Value::Isize(0), Value::Isize(1), Value::Isize(2)])
    );
    assert_eq!(
        vals[3],
        Value::Tuple(vec![
            Value::Usize(3),
            Value::Isize(4),
            Value::Chars(vec!['a', 'b']),
        ])
    );
    assert_eq!(vals[4], Value::Tuple(vec![Value::Usize(3)]));
}

#[test]
fn input_single_tt_pattern() {
    let mut source = AutoSource::from_str("3 42 0\n1 2 3\n");
    let pair = read_value(&Shape::Tuple(vec![Shape::Usize, Shape::Usize]), &mut source).unwrap();
    let (n, mut k) = match pair {
        Value::Tuple(ref xs) => (get_usize(&xs[0]), get_usize(&xs[1])),
        _ => panic!("expected a tuple value"),
    };
    // a discarded binding still consumes its token
    read_value(&Shape::Usize, &mut source).unwrap();
    let xs = read_value(&Shape::Array(Box::new(Shape::U32), n), &mut source).unwrap();
    k += 1;
    assert_eq!(n, 3);
    assert_eq!(k, 43);
    assert_eq!(
        xs,
        Value::Array(vec![Value::U32(1), Value::U32(2), Value::U32(3)])
    );
}
