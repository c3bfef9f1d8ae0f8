use proconio::error::{ReadError, Target};
use proconio::input::{read_value, Shape, Value};
use proconio::marker::{Bytes, Chars, Isize1, Usize1};
use proconio::source::auto::AutoSource;
use proconio::source::feed::StringFeed;
use proconio::source::line::LineSource;
use proconio::source::once::OnceSource;
use proconio::source::{Readable, Source};
use proconio::tokenize::Tokens;

#[test]
fn tokens_split_on_every_separator() {
    let mut t = Tokens::new(" a\tbb\r\ncc\n\ndd ".to_string());
    assert_eq!(t.next_token().unwrap(), "a");
    assert_eq!(t.next_token().unwrap(), "bb");
    assert_eq!(t.next_token().unwrap(), "cc");
    assert_eq!(t.next_token().unwrap(), "dd");
    assert!(t.next_token().is_none());
}

#[test]
fn tokens_is_empty_consumes_nothing() {
    let mut t = Tokens::new("  x ".to_string());
    assert!(!t.is_empty());
    assert_eq!(t.next_token().unwrap(), "x");
    assert!(t.is_empty());
    assert!(t.next_token().is_none());
}

#[test]
fn once_and_line_sources_agree() {
    let text = "1 two\n3.5 four\nfive";
    let mut eager = OnceSource::from_str(text);
    let mut incremental = LineSource::from_str(text);
    loop {
        let a = eager.next_token();
        let b = incremental.next_token();
        assert_eq!(a, b);
        if a.is_none() {
            break;
        }
    }
}

#[test]
fn line_source_pulls_lines_on_demand() {
    let mut source = LineSource::new(StringFeed::from_str("a b\nc"));
    assert_eq!(source.next_token().unwrap(), "a");
    assert!(!source.is_empty());
    assert_eq!(source.next_token().unwrap(), "b");
    assert_eq!(source.next_token().unwrap(), "c");
    assert!(source.is_empty());
}

#[test]
fn next_token_unwrap_reads_in_order() {
    let mut source = AutoSource::from_str("alpha beta");
    assert_eq!(source.next_token_unwrap(), "alpha");
    assert_eq!(source.next_token_unwrap(), "beta");
}

#[test]
fn text_source_reads_like_the_others() {
    let mut source = proconio::source::text::Source::from_str(" 10 20\n30");
    assert_eq!(source.next_token_unwrap(), "10");
    assert!(!source.is_empty());
    assert_eq!(source.next_token_unwrap(), "20");
    assert_eq!(source.next_token_unwrap(), "30");
    assert!(source.is_empty());
}

#[test]
fn readable_scalars() {
    let mut source = AutoSource::from_str("42 -7 true x hello 256");
    assert_eq!(u8::read(&mut source).unwrap(), 42);
    assert_eq!(i64::read(&mut source).unwrap(), -7);
    assert_eq!(bool::read(&mut source).unwrap(), true);
    assert_eq!(char::read(&mut source).unwrap(), 'x');
    assert_eq!(String::read(&mut source).unwrap(), "hello");
    let err = u8::read(&mut source).unwrap_err();
    assert!(matches!(
        err,
        ReadError::ScalarParseFailure { target: Target::U8, .. }
    ));
}

#[test]
fn readable_markers() {
    let mut source = AutoSource::from_str("abc xyz 3 -2");
    assert_eq!(Chars::read(&mut source).unwrap(), vec!['a', 'b', 'c']);
    assert_eq!(Bytes::read(&mut source).unwrap(), b"xyz".to_vec());
    assert_eq!(Usize1::read(&mut source).unwrap(), 2);
    assert_eq!(Isize1::read(&mut source).unwrap(), -3);
}

#[test]
fn signed_grammar_accepts_signs() {
    let mut source = AutoSource::from_str("+5 -0 +0 9223372036854775807 -9223372036854775808");
    assert_eq!(i32::read(&mut source).unwrap(), 5);
    assert_eq!(i32::read(&mut source).unwrap(), 0);
    assert_eq!(i32::read(&mut source).unwrap(), 0);
    assert_eq!(i64::read(&mut source).unwrap(), i64::MAX);
    assert_eq!(i64::read(&mut source).unwrap(), i64::MIN);
}

#[test]
fn unsigned_grammar_rejects_minus_and_floats() {
    let mut minus = AutoSource::from_str("-0");
    assert!(u32::read(&mut minus).is_err());
    let mut plus = AutoSource::from_str("+10");
    assert_eq!(u32::read(&mut plus).unwrap(), 10);
    let mut float = AutoSource::from_str("3.2\n");
    let err = i32::read(&mut float).unwrap_err();
    assert!(matches!(
        err,
        ReadError::ScalarParseFailure { target: Target::I32, .. }
    ));
}

#[test]
fn out_of_range_is_rejected() {
    let mut small = AutoSource::from_str("256 65536 4294967296 128 -129");
    assert!(u8::read(&mut small).is_err());
    assert!(u16::read(&mut small).is_err());
    assert!(u32::read(&mut small).is_err());
    assert!(i8::read(&mut small).is_err());
    assert!(i8::read(&mut small).is_err());
    let mut fits = AutoSource::from_str("255 65535 4294967295 127 -128");
    assert_eq!(u8::read(&mut fits).unwrap(), u8::MAX);
    assert_eq!(u16::read(&mut fits).unwrap(), u16::MAX);
    assert_eq!(u32::read(&mut fits).unwrap(), u32::MAX);
    assert_eq!(i8::read(&mut fits).unwrap(), i8::MAX);
    assert_eq!(i8::read(&mut fits).unwrap(), i8::MIN);
}

#[test]
fn bool_grammar_is_exact() {
    let mut source = AutoSource::from_str("false True");
    assert_eq!(bool::read(&mut source).unwrap(), false);
    assert!(bool::read(&mut source).is_err());
}

#[test]
fn char_needs_one_character() {
    let mut source = AutoSource::from_str("ab");
    let err = char::read(&mut source).unwrap_err();
    assert!(matches!(
        err,
        ReadError::ScalarParseFailure { target: Target::Char, .. }
    ));
}

#[test]
fn exhaustion_is_reported() {
    let mut source = AutoSource::from_str("   \n \t ");
    let err = u32::read(&mut source).unwrap_err();
    assert!(matches!(err, ReadError::TokenExhaustion));
    let err = read_value(&Shape::Str, &mut source).unwrap_err();
    assert!(matches!(err, ReadError::TokenExhaustion));
}

#[test]
fn messages_name_the_failure() {
    let exhausted = ReadError::TokenExhaustion;
    assert!(exhausted.message().contains("next token"));
    let parse = ReadError::ScalarParseFailure {
        token: "zzz".to_string(),
        target: Target::U16,
    };
    let msg = parse.message();
    assert!(msg.contains("zzz"));
    assert!(msg.contains("u16"));
    let under = ReadError::NumericUnderflow { target: Target::Usize1 };
    assert!(under.message().contains("Usize1"));
}

#[test]
fn prefixed_length_then_elements() {
    let mut source = AutoSource::from_str("2 11 22 99");
    let a = read_value(&Shape::Prefixed(Box::new(Shape::U64)), &mut source).unwrap();
    assert_eq!(a, Value::Array(vec![Value::U64(11), Value::U64(22)]));
    assert_eq!(u64::read(&mut source).unwrap(), 99);
}

#[test]
fn widest_integers_parse_exactly() {
    let mut source = AutoSource::from_str(
        "340282366920938463463374607431768211455 \
         170141183460469231731687303715884105727 \
         -170141183460469231731687303715884105728 \
         340282366920938463463374607431768211456",
    );
    assert_eq!(u128::read(&mut source).unwrap(), u128::MAX);
    assert_eq!(i128::read(&mut source).unwrap(), i128::MAX);
    assert_eq!(i128::read(&mut source).unwrap(), i128::MIN);
    let err = u128::read(&mut source).unwrap_err();
    assert!(matches!(
        err,
        ReadError::ScalarParseFailure { target: Target::U128, .. }
    ));
}

#[test]
fn widest_integers_in_shapes() {
    let mut source = AutoSource::from_str("18446744073709551616 -18446744073709551617");
    assert_eq!(
        read_value(&Shape::U128, &mut source).unwrap(),
        Value::U128(18446744073709551616)
    );
    assert_eq!(
        read_value(&Shape::I128, &mut source).unwrap(),
        Value::I128(-18446744073709551617)
    );
}
