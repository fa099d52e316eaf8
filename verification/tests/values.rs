//! Values: equality, order, arithmetic, fields and indices, doubles, and the host.

use cel::error::{ExecutionError, FloatOp, HostRequest, HostTable};
use cel::float;
use cel::objects::{Duration, Key, StructValue, Timestamp, Value, ValueMap};
use cel::ops::{self, BinOp, Order};
use cel::strings;
use std::sync::Arc;

fn text(s: &str) -> Value {
    Value::String(Arc::new(s.to_string()))
}

fn one(k: Key, v: Value) -> ValueMap {
    let mut m = ValueMap::new();
    m.insert(k, v);
    m
}

fn double(f: f64) -> Value {
    Value::Float(f.to_bits())
}

#[test]
fn equality_crosses_numeric_types() {
    assert!(Value::Int(3) == Value::UInt(3));
    assert!(Value::Int(3) == double(3.0));
    assert!(Value::Int(-1) != Value::UInt(u64::MAX));
    assert!(text("a") != text("b"));
    assert!(Value::Null == Value::Null);
    assert!(double(f64::NAN) != double(f64::NAN));
    assert!(double(0.0) == double(-0.0));
}

#[test]
fn maps_are_equal_whatever_the_order() {
    let mut a = ValueMap::new();
    a.insert(Key::String("x".to_string()), Value::Int(1));
    a.insert(Key::Int(2), Value::Bool(true));
    let mut b = ValueMap::new();
    b.insert(Key::Int(2), Value::Bool(true));
    b.insert(Key::String("x".to_string()), Value::Int(1));
    assert!(Value::Dict(a) == Value::Dict(b));
}

#[test]
fn a_key_that_is_put_again_keeps_one_entry() {
    let mut m = ValueMap::new();
    m.insert(Key::Int(1), text("first"));
    m.insert(Key::Int(2), text("other"));
    m.insert(Key::Int(1), text("second"));
    assert!(m.get(&Key::Int(1)) == Some(&text("second")));
    assert!(m.get(&Key::Int(2)) == Some(&text("other")));
    assert!(m.get(&Key::Uint(1)).is_none());
    assert!(m.contains_key(&Key::Int(2)));
    assert!(!m.contains_key(&Key::Bool(true)));
}

#[test]
fn order_of_values() {
    assert_eq!(ops::order_values(&Value::Int(1), &Value::Int(2)), Ok(Order::Before));
    assert_eq!(ops::order_values(&text("b"), &text("a")), Ok(Order::After));
    assert_eq!(ops::order_values(&Value::Bool(false), &Value::Bool(true)), Ok(Order::Before));
    assert_eq!(
        ops::order_values(&Value::Int(1), &text("a")),
        Err(ExecutionError::NoSuchOverload)
    );
    assert!(matches!(
        ops::order_values(&double(f64::NAN), &double(1.0)),
        Err(ExecutionError::ValuesNotComparable(_, _))
    ));
}

#[test]
fn integers_overflow_to_an_error() {
    let host = HostTable::new();
    assert!(matches!(
        BinOp::Add.apply(&Value::Int(i64::MAX), &Value::Int(1), &host),
        Err(ExecutionError::Overflow(_, _, _))
    ));
    assert!(matches!(
        BinOp::Sub.apply(&Value::UInt(0), &Value::UInt(1), &host),
        Err(ExecutionError::Overflow(_, _, _))
    ));
    assert!(matches!(
        BinOp::Mul.apply(&Value::Int(i64::MIN), &Value::Int(-1), &host),
        Err(ExecutionError::Overflow(_, _, _))
    ));
    assert!(matches!(
        BinOp::Div.apply(&Value::Int(7), &Value::Int(0), &host),
        Err(ExecutionError::DivisionByZero(Value::Int(7)))
    ));
    assert!(matches!(
        BinOp::Rem.apply(&Value::Int(7), &Value::Int(0), &host),
        Err(ExecutionError::RemainderByZero(Value::Int(7)))
    ));
    assert_eq!(BinOp::Div.apply(&Value::Int(-7), &Value::Int(2), &host), Ok(Value::Int(-3)));
    assert_eq!(BinOp::Rem.apply(&Value::Int(-7), &Value::Int(2), &host), Ok(Value::Int(-1)));
}

#[test]
fn doubles_are_computed_by_the_host() {
    let mut host = HostTable::new();
    let (a, b) = (1.5f64.to_bits(), 2.25f64.to_bits());
    let asked = BinOp::Add.apply(&Value::Float(a), &Value::Float(b), &host);
    let request = match asked {
        Err(ExecutionError::HostNeeded(r)) => r,
        _ => panic!("the host was not asked"),
    };
    assert_eq!(request, HostRequest::Arithmetic(FloatOp::Add, a, b));
    host.add(request, Ok(double(3.75)));
    assert_eq!(BinOp::Add.apply(&Value::Float(a), &Value::Float(b), &host), Ok(double(3.75)));
    assert!(matches!(
        BinOp::Sub.apply(&Value::Float(a), &Value::Float(b), &host),
        Err(ExecutionError::HostNeeded(HostRequest::Arithmetic(FloatOp::Sub, _, _)))
    ));
}

#[test]
fn the_first_answer_of_the_host_counts() {
    let mut host = HostTable::new();
    host.add(HostRequest::ParseFloat("1".to_string()), Ok(double(1.0)));
    host.add(HostRequest::ParseFloat("1".to_string()), Ok(double(2.0)));
    assert_eq!(host.ask(HostRequest::ParseFloat("1".to_string())), Ok(double(1.0)));
    assert_eq!(
        host.duplicate().ask(HostRequest::ParseFloat("1".to_string())),
        Ok(double(1.0))
    );
    assert!(!HostRequest::Show(Value::Null).same(&HostRequest::Show(Value::Int(0))));
}

#[test]
fn membership() {
    let list = Value::List(vec![Value::Int(1), text("x")]);
    assert_eq!(ops::in_values(&text("x"), &list), Ok(Value::Bool(true)));
    assert_eq!(ops::in_values(&text("y"), &list), Ok(Value::Bool(false)));
    let map = Value::Dict(one(Key::String("k".to_string()), Value::Null));
    assert_eq!(ops::in_values(&text("k"), &map), Ok(Value::Bool(true)));
    assert_eq!(
        ops::in_values(&text("ell"), &text("hello")),
        Err(ExecutionError::NoSuchOverload)
    );
}

#[test]
fn fields_and_indices() {
    let map = Value::Dict(one(Key::String("k".to_string()), Value::Int(1)));
    assert_eq!(ops::get_field(&map, "k"), Ok(Value::Int(1)));
    assert_eq!(
        ops::get_field(&map, "q"),
        Err(ExecutionError::NoSuchKey("q".to_string()))
    );
    let list = Value::List(vec![Value::Int(10), Value::Int(20)]);
    assert_eq!(ops::index_values(false, &list, &Value::Int(-1)), Ok(Value::Int(20)));
    assert!(matches!(
        ops::index_values(false, &list, &Value::Int(2)),
        Err(ExecutionError::IndexOutOfBounds(_))
    ));
    assert!(matches!(
        ops::index_values(false, &list, &Value::Null),
        Err(ExecutionError::UnsupportedListIndex(Value::Null))
    ));
    assert!(matches!(
        ops::index_values(false, &map, &Value::Null),
        Err(ExecutionError::UnsupportedMapIndex(Value::Null))
    ));
    assert_eq!(
        ops::index_values(true, &list, &Value::Int(0)),
        Ok(Value::Optional(Some(Box::new(Value::Int(10)))))
    );
}

#[test]
fn a_missing_key_is_shown_in_quotes() {
    let map = Value::Dict(ValueMap::new());
    let missing = ops::index_values(false, &map, &text("a\"b"));
    assert_eq!(
        missing,
        Err(ExecutionError::NoSuchKey(ops::show_key(&Key::String("a\"b".to_string()))))
    );
    assert!(ops::show_key(&Key::String("a\"b".to_string())).contains("\"a\\\"b\""));
}

#[test]
fn unary_operators() {
    assert_eq!(ops::not_value(Value::Bool(true)), Ok(Value::Bool(false)));
    assert!(matches!(
        ops::not_value(Value::Int(1)),
        Err(ExecutionError::UnsupportedUnaryOperator("!", Value::Int(1)))
    ));
    assert_eq!(ops::negate_value(Value::Int(5)), Ok(Value::Int(-5)));
    assert_eq!(ops::negate_value(Value::Int(i64::MIN)), Ok(Value::Int(i64::MIN)));
    assert_eq!(ops::negate_value(double(2.5)), Ok(double(-2.5)));
    assert_eq!(ops::negate_value(Value::Null), Err(ExecutionError::NoSuchOverload));
    assert_eq!(ops::keep_going(&Value::Null), Value::Bool(false));
    assert_eq!(ops::keep_going(&Value::Int(0)), Value::Bool(true));
}

#[test]
fn doubles_compare_and_convert_like_the_machine() {
    let samples: [f64; 14] = [
        0.0,
        -0.0,
        1.0,
        -1.0,
        0.1,
        1.5e300,
        -2.5e-300,
        5e-324,
        f64::MAX,
        f64::MIN,
        f64::INFINITY,
        f64::NEG_INFINITY,
        f64::NAN,
        9007199254740993.0,
    ];
    for a in samples {
        assert_eq!(float::float_is_nan(a.to_bits()), a.is_nan());
        assert_eq!(float::float_to_i64(a.to_bits()), a as i64);
        assert_eq!(float::float_to_u64(a.to_bits()), a as u64);
        assert_eq!(float::float_negate(a.to_bits()), (-a).to_bits());
        for b in samples {
            assert_eq!(float::float_equal(a.to_bits(), b.to_bits()), a == b);
            assert_eq!(float::float_less(a.to_bits(), b.to_bits()), a < b);
            assert_eq!(float::float_less_equal(a.to_bits(), b.to_bits()), a <= b);
        }
    }
    let ints: [i64; 10] = [
        0,
        1,
        -1,
        i64::MAX,
        i64::MIN,
        9007199254740993,
        9007199254740992,
        -9007199254740995,
        1 << 62,
        (1 << 62) + 257,
    ];
    for i in ints {
        assert_eq!(float::float_from_i64(i), (i as f64).to_bits());
        assert_eq!(float::float_from_u64(i as u64), (i as u64 as f64).to_bits());
    }
}

#[test]
fn numbers_are_written_in_decimal() {
    assert_eq!(strings::decimal_text(0), "0");
    assert_eq!(strings::decimal_text(u64::MAX), "18446744073709551615");
    assert_eq!(strings::signed_decimal_text(-120), "-120");
    assert_eq!(strings::signed_decimal_text(i64::MIN), "-9223372036854775808");
}

#[test]
fn structs_and_lengths_have_equality() {
    let s = |v: i64| {
        Value::Struct(StructValue {
            name: "P".to_string(),
            fields: vec![("x".to_string(), Value::Int(v))],
        })
    };
    assert!(s(1) == s(1));
    assert!(s(1) != s(2));
    let d = |n: i128| Value::Duration(Duration { nanos: n });
    assert!(d(5) == d(5));
    let t = |n: i128, o: i32| Value::Timestamp(Timestamp { nanos: n, offset: o, leap: false });
    assert!(t(5, 0) == t(5, 3600));
    assert!(t(5, 0) != t(6, 0));
}
