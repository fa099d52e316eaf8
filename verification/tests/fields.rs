//! Schemas and the values of their fields.

use cel::error::{ExecutionError, FloatOp, HostRequest};
use cel::common::ast::{CallExpr, Expr, IdedExpr, LiteralValue};
use cel::fast::{EvalContext, Field, FieldType, Filter, Schema};
use cel::objects::Value;
use std::sync::Arc;

fn node(expr: Expr) -> IdedExpr {
    IdedExpr { id: 0, expr }
}

fn call(f: &str, args: Vec<IdedExpr>) -> IdedExpr {
    node(Expr::Call(CallExpr {
        func_name: f.to_string(),
        target: None,
        args,
        resolved_op: None,
    }))
}

fn name(n: &str) -> IdedExpr {
    node(Expr::Ident(n.to_string()))
}

#[test]
fn fields_are_found_by_name() {
    let mut s = Schema::new();
    let port = s.add_field("port", FieldType::Int);
    let method = s.add_field("method", FieldType::String);
    assert_eq!((port.index(), method.index()), (0, 1));
    assert_eq!(s.get_field("port"), Some(port));
    assert_eq!(s.get_field("path"), None);
    let again = s.add_field("port", FieldType::Any);
    assert_eq!(s.get_field("port"), Some(again));
    assert_eq!(s.get_field("method"), Some(method));
    assert_eq!(s.field_count(), 3);
    assert_eq!(s.fields()[1], ("method".to_string(), FieldType::String));
    assert_eq!(Schema::default().field_count(), 0);
}

#[test]
fn values_are_set_got_and_cleared() {
    let mut s = Schema::new();
    let a = s.add_field("a", FieldType::Int);
    let b = s.add_field("b", FieldType::String);
    let c = s.add_field("c", FieldType::Any);
    let mut ctx = EvalContext::new(&s);
    assert_eq!(ctx.len(), 3);
    assert_eq!(ctx.get(a), &Value::Null);
    ctx.set_i64(a, 5);
    ctx.set_str(b, "GET");
    ctx.set_u64(c, 7);
    assert_eq!(ctx.get(a), &Value::Int(5));
    assert_eq!(ctx.get_i64_fast(0), 5);
    assert_eq!(ctx.get_str_fast(1), "GET");
    assert_eq!(ctx.get(c), &Value::UInt(7));
    ctx.set_f64(c, 1.5f64.to_bits());
    assert_eq!(ctx.get(c), &Value::Float(1.5f64.to_bits()));
    ctx.set_bool(c, true);
    ctx.set_string(b, "POST".to_string());
    assert_eq!(
        ctx.as_slice(),
        &[Value::Int(5), Value::String(Arc::new("POST".to_string())), Value::Bool(true)]
    );
    ctx.set(a, Value::List(Vec::new()));
    assert_eq!(ctx.get(a), &Value::List(Vec::new()));
    assert_eq!(ctx.get_i64_fast(0), 5);
    ctx.clear();
    assert_eq!(ctx.as_slice(), &[Value::Null, Value::Null, Value::Null]);
    assert_eq!(ctx.get_i64_fast(0), 0);
    assert_eq!(ctx.get_str_fast(1), "");
}

#[test]
fn a_failed_parse_is_handed_on() {
    let s = Schema::new();
    assert_eq!(
        Filter::compile(Err("no expression".to_string()), &s).unwrap_err(),
        "no expression"
    );
}

#[test]
fn a_filter_names_its_variables() {
    let mut s = Schema::new();
    s.add_field("x", FieldType::Int);
    s.add_field("y", FieldType::Int);
    let tree = Filter::from_expression(
        call("_==_", vec![name("y"), node(Expr::Literal(LiteralValue::Int(1)))]),
        &s,
    )
    .unwrap();
    assert_eq!(tree.variables(), &["x".to_string(), "y".to_string()]);
    assert_eq!(tree.var_indices, vec![0, 1]);
    let other = Filter::from_expression(
        call("_?_:_", vec![name("y"), name("z"), name("y")]),
        &s,
    )
    .unwrap();
    assert_eq!(other.variables(), &["y".to_string(), "z".to_string()]);
    assert_eq!(other.var_indices, vec![1, 0]);
}

#[test]
fn a_filter_on_doubles_asks_the_host() {
    let mut s = Schema::new();
    let x = s.add_field("x", FieldType::Double);
    let half = node(Expr::Literal(LiteralValue::Double(0.5f64.to_bits())));
    let one = node(Expr::Literal(LiteralValue::Double(1.0f64.to_bits())));
    let e = call("_>_", vec![call("_+_", vec![name("x"), half]), one]);
    let f = Filter::from_expression(e, &s).unwrap();
    assert!(f.tree.is_none());
    let mut ctx = EvalContext::new(&s);
    ctx.set_f64(x, 0.75f64.to_bits());
    let request = match f.eval(&ctx) {
        Err(ExecutionError::HostNeeded(r)) => r,
        other => panic!("{:?}", other),
    };
    match request {
        HostRequest::Arithmetic(FloatOp::Add, a, b) => {
            let sum = f64::from_bits(a) + f64::from_bits(b);
            ctx.add_answer(
                HostRequest::Arithmetic(FloatOp::Add, a, b),
                Ok(Value::Float(sum.to_bits())),
            );
        }
        other => panic!("{:?}", other),
    }
    assert_eq!(f.eval(&ctx), Ok(true));
}

#[test]
fn a_string_that_was_set_is_shared() {
    let mut s = Schema::new();
    let a = s.add_field("a", FieldType::String);
    let b = s.add_field("b", FieldType::String);
    let mut ctx = EvalContext::new(&s);
    let kept = |ctx: &EvalContext, f: Field| match ctx.get(f) {
        Value::String(t) => Arc::clone(t),
        other => panic!("{:?}", other),
    };
    ctx.set_str(a, "GET");
    ctx.set_string(b, "GET".to_string());
    let first = kept(&ctx, a);
    assert_eq!(first.as_str(), "GET");
    assert!(Arc::ptr_eq(&first, &kept(&ctx, b)));
    ctx.clear();
    assert_eq!(ctx.get_str_fast(a.index()), "");
    ctx.set_str(b, "GET");
    assert!(Arc::ptr_eq(&first, &kept(&ctx, b)));
    ctx.set_str(b, "POST");
    assert!(!Arc::ptr_eq(&first, &kept(&ctx, b)));
    assert_eq!(ctx.get_str_fast(b.index()), "POST");
}
