//! Function handles and overloads resolved ahead of evaluation.

use cel::common::ast::{
    CallExpr, ComprehensionExpr, Expr, IdedExpr, ListExpr, LiteralValue,
};
use cel::common::functions::Function;
use cel::common::types::{Kind, Type};
use cel::context::Context;
use cel::env::{Env, StructDef};
use cel::error::{ExecutionError, HostRequest};
use cel::function_handle::{
    expr_type_hint, resolve_ast, FunctionHandle, FunctionResolver, TypeHint,
};
use cel::objects::{Value};
use cel::vm::compiler::compile_expression;
use std::sync::Arc;

fn node(expr: Expr) -> IdedExpr {
    IdedExpr { id: 0, expr }
}

fn string(s: &str) -> IdedExpr {
    node(Expr::Literal(LiteralValue::String(s.to_string())))
}

fn env() -> Env {
    let mut e = Env::default();
    e.add_overload("f", "f_int", vec![Type::of_kind(Kind::Int)], Function::Host(1)).unwrap();
    e.add_overload("f", "f_string", vec![Type::of_kind(Kind::String)], Function::Host(2)).unwrap();
    e.add_overload("a", "a_any", vec![Type::of_kind(Kind::Dyn)], Function::Host(3)).unwrap();
    e
}

#[test]
fn a_handle_holds_its_parts() {
    for (f, o) in [(0u16, 0u16), (3, 7), (0xFFFF, 0), (0, 0xFFFF), (0xABCD, 0x1234)] {
        let h = FunctionHandle::new(f, o);
        assert_eq!((h.fn_id(), h.overload_idx()), (f, o));
        assert!(h.is_resolved());
    }
    assert!(!FunctionHandle::unresolved().is_resolved());
    assert_eq!(FunctionHandle::new(0xFFFF, 0xFFFF), FunctionHandle::unresolved());
}

#[test]
fn hints_lead_to_overloads() {
    let e = env();
    let r = FunctionResolver::new(&e);
    let h = r.resolve("f", false, &[TypeHint::String]).unwrap();
    assert_eq!((h.fn_id(), h.overload_idx()), (1, 1));
    assert_eq!(r.get_function(h), Function::Host(2));
    assert_eq!(r.resolve_op("f", false, &[TypeHint::String]), Some(Function::Host(2)));
    assert_eq!(r.resolve_op("f", false, &[TypeHint::Unknown]), Some(Function::Host(1)));
    assert_eq!(r.resolve_op("f", true, &[TypeHint::Int]), None);
    assert_eq!(r.resolve_op("f", false, &[]), None);
    assert_eq!(r.resolve_op("g", false, &[TypeHint::Int]), None);
    assert_eq!(r.resolve_op("a", false, &[TypeHint::Int]), None);
    assert_eq!(r.functions().len(), 2);
}

#[test]
fn values_lead_to_overloads() {
    let e = env();
    let r = FunctionResolver::new(&e);
    let h = r.resolve_runtime("f", false, &[Value::String(Arc::new("x".to_string()))]).unwrap();
    assert_eq!(r.get_function(h), Function::Host(2));
    assert!(r.resolve_runtime("f", false, &[Value::Null]).is_none());
    let any = r.resolve_runtime("a", false, &[Value::Null]).unwrap();
    assert_eq!(r.get_function(any), Function::Host(3));
}

#[test]
fn hints_of_expressions() {
    assert_eq!(expr_type_hint(&string("x").expr), TypeHint::String);
    assert_eq!(expr_type_hint(&Expr::Literal(LiteralValue::Double(0))), TypeHint::Float);
    assert_eq!(expr_type_hint(&Expr::Ident("x".to_string())), TypeHint::Unknown);
    let list = ListExpr { elements: Vec::new(), optional_indices: Vec::new() };
    assert_eq!(expr_type_hint(&Expr::List(list)), TypeHint::List);
    assert!(TypeHint::Null.fits(&Type::of_kind(Kind::NullType)));
    assert!(!TypeHint::Dict.fits(&Type::of_kind(Kind::List)));
}

#[test]
fn calls_are_resolved_inside_out() {
    let e = env();
    let r = FunctionResolver::new(&e);
    let inner = CallExpr {
        func_name: "f".to_string(),
        target: None,
        args: vec![string("x")],
        resolved_op: None,
    };
    let list = ListExpr { elements: vec![node(Expr::Call(inner))], optional_indices: Vec::new() };
    let mut expr = node(Expr::List(list));
    resolve_ast(&mut expr, &r);
    match &expr.expr {
        Expr::List(l) => match &l.elements[0].expr {
            Expr::Call(c) => assert_eq!(c.resolved_op, Some(Function::Host(2))),
            _ => panic!("no call"),
        },
        _ => panic!("no list"),
    }
}

#[test]
fn resolving_again_changes_nothing() {
    let e = env();
    let r = FunctionResolver::new(&e);
    let inner = CallExpr {
        func_name: "f".to_string(),
        target: None,
        args: vec![string("x")],
        resolved_op: None,
    };
    let outer = CallExpr {
        func_name: "f".to_string(),
        target: None,
        args: vec![node(Expr::Call(inner))],
        resolved_op: Some(Function::Noop),
    };
    let mut expr = node(Expr::Call(outer));
    resolve_ast(&mut expr, &r);
    let once = format!("{:?}", expr);
    resolve_ast(&mut expr, &r);
    assert_eq!(format!("{:?}", expr), once);
}

#[test]
fn functions_stand_under_their_names() {
    let e = Env::stdlib();
    for (key, decl) in e.functions() {
        assert_eq!(key, &decl.name);
        assert!(!decl.overloads.is_empty());
        for (i, a) in decl.overloads.iter().enumerate() {
            assert!(decl.overloads[..i].iter().all(|b| b.id != a.id));
        }
    }
    let r = FunctionResolver::new(&e);
    let names: Vec<&str> = r.functions().iter().map(|d| d.name.as_str()).collect();
    assert!(names.windows(2).all(|w| w[0] < w[1]));
    let h = r.resolve("size", false, &[TypeHint::Unknown]).unwrap();
    assert_eq!(r.functions()[h.fn_id() as usize].name, "size");
}

#[test]
fn clashing_overloads_are_refused() {
    let mut e = env();
    let again = e.add_overload("f", "other", vec![Type::of_kind(Kind::Int)], Function::Noop);
    assert!(again.is_err());
    assert!(e.add_overload("f", "f_int", Vec::new(), Function::Noop).is_err());
    assert!(e.add_overload("f", "f_none", Vec::new(), Function::Noop).is_ok());
    assert_eq!(e.find_overload("f", &[Value::Int(1)]), Some(Function::Host(1)));
    assert_eq!(e.find_overload("f", &[]), Some(Function::Noop));
    assert_eq!(e.find_member_overload("f", &[]), None);
}

#[test]
fn the_standard_functions() {
    let e = Env::stdlib();
    let two = [Value::String(Arc::new("abc".to_string())), Value::String(Arc::new("b".to_string()))];
    assert_eq!(e.find_member_overload("contains", &two), Some(Function::Contains));
    assert_eq!(e.find_overload("contains", &two), None);
    assert_eq!(e.find_overload("size", &two[..1]), Some(Function::Size));
    assert_eq!(e.find_overload("timestamp", &two[..1]), Some(Function::ParseTimestamp));
    let names: Vec<&String> = e.functions().iter().map(|f| &f.0).collect();
    let mut sorted = names.clone();
    sorted.sort();
    assert_eq!(names, sorted);
}

#[test]
fn structs_have_fields_and_defaults() {
    let def = StructDef::new("Point".to_string())
        .add_field("x".to_string(), Type::of_kind(Kind::Int))
        .add_field_with_default("y".to_string(), Value::Int(7));
    let made = def.new_struct(&vec![("x".to_string(), Value::Int(1))]).unwrap();
    assert_eq!(made.name, "Point");
    assert_eq!(made.fields.len(), 2);
    assert!(def.new_struct(&vec![("z".to_string(), Value::Int(1))]).is_err());
    let mut e = Env::default();
    e.add_struct(def);
    assert!(e.find_struct("Point").is_some());
    assert!(e.find_struct("Line").is_none());
}

#[test]
fn a_registered_function_is_asked_of_the_host() {
    let expr = node(Expr::Call(CallExpr {
        func_name: "double".to_string(),
        target: None,
        args: vec![string("x")],
        resolved_op: None,
    }));
    let closure = compile_expression(&expr, &[]);
    let mut ctx = Context::default();
    ctx.add_function("double");
    let request = match closure.call(&ctx) {
        Err(ExecutionError::HostNeeded(r)) => r,
        other => panic!("{:?}", other),
    };
    assert!(
        matches!(&request, HostRequest::Call(_, n, None, args) if n == "double" && args.len() == 1)
    );
    ctx.add_answer(request, Ok(Value::String(Arc::new("xx".to_string()))));
    assert_eq!(closure.call(&ctx), Ok(Value::String(Arc::new("xx".to_string()))));
}

/// Evaluates with a host that counts its calls: the answer to each is its number.
fn counted(expr: &IdedExpr, ctx: &mut Context) -> (Result<Value, ExecutionError>, i64) {
    let closure = compile_expression(expr, &[]);
    let mut calls = 0;
    loop {
        match closure.call(ctx) {
            Err(ExecutionError::HostNeeded(request)) => {
                calls += 1;
                ctx.add_answer(request, Ok(Value::Int(calls)));
            }
            done => return (done, calls),
        }
    }
}

fn plain_call(f: &str, args: Vec<IdedExpr>) -> IdedExpr {
    node(Expr::Call(CallExpr { func_name: f.to_string(), target: None, args, resolved_op: None }))
}

#[test]
fn every_call_of_a_registered_function_is_made() {
    let mut ctx = Context::default();
    ctx.add_function("next");
    let next = || plain_call("next", vec![string("x")]);
    let list = |elements: Vec<IdedExpr>| {
        node(Expr::List(ListExpr { elements, optional_indices: Vec::new() }))
    };
    let e = list(vec![next(), next(), list(vec![next()])]);
    let (r, calls) = counted(&e, &mut ctx);
    assert_eq!(
        r,
        Ok(Value::List(vec![
            Value::Int(1),
            Value::Int(2),
            Value::List(vec![Value::Int(3)]),
        ]))
    );
    assert_eq!(calls, 3);
    let e = plain_call("_==_", vec![next(), next()]);
    ctx.clear_answers();
    assert_eq!(counted(&e, &mut ctx), (Ok(Value::Bool(false)), 2));
    assert_eq!(counted(&e, &mut ctx), (Ok(Value::Bool(false)), 0));
    ctx.clear_answers();
    assert_eq!(counted(&e, &mut ctx), (Ok(Value::Bool(false)), 2));
}

#[test]
fn every_call_of_an_overload_is_made() {
    let mut ctx = Context::new(env());
    let f = || plain_call("f", vec![string("x")]);
    let e = plain_call("_-_", vec![f(), f()]);
    assert_eq!(counted(&e, &mut ctx), (Ok(Value::Int(-1)), 2));
    let mut ahead = plain_call("_-_", vec![f(), f()]);
    let declared = env();
    resolve_ast(&mut ahead, &FunctionResolver::new(&declared));
    let mut ctx = Context::new(env());
    assert_eq!(counted(&ahead, &mut ctx), (Ok(Value::Int(-1)), 2));
}

#[test]
fn every_round_of_a_loop_makes_its_calls() {
    let mut ctx = Context::default();
    ctx.add_function("next");
    let number = |i: i64| node(Expr::Literal(LiteralValue::Int(i)));
    let name = |n: &str| node(Expr::Ident(n.to_string()));
    let list = |elements: Vec<IdedExpr>| {
        node(Expr::List(ListExpr { elements, optional_indices: Vec::new() }))
    };
    let looped = |range: IdedExpr, var: &str, accu: &str, added: IdedExpr| {
        node(Expr::Comprehension(Box::new(ComprehensionExpr {
            iter_range: range,
            iter_var: var.to_string(),
            iter_var2: None,
            accu_var: accu.to_string(),
            accu_init: list(Vec::new()),
            loop_cond: node(Expr::Literal(LiteralValue::Boolean(true))),
            loop_step: plain_call("_+_", vec![name(accu), list(vec![added])]),
            result: name(accu),
        })))
    };
    let ints = |v: &[i64]| Value::List(v.iter().map(|i| Value::Int(*i)).collect());
    let two = || list(vec![number(7), number(7)]);
    let inner = looped(two(), "j", "b", plain_call("next", vec![number(0)]));
    let e = looped(two(), "i", "a", inner);
    let (r, calls) = counted(&e, &mut ctx);
    assert_eq!(r, Ok(Value::List(vec![ints(&[1, 2]), ints(&[3, 4])])));
    assert_eq!(calls, 4);
}

#[test]
fn a_call_says_where_it_stands() {
    let mut ctx = Context::default();
    ctx.add_function("next");
    let e = plain_call("_==_", vec![string("x"), plain_call("next", Vec::new())]);
    match compile_expression(&e, &[]).call(&ctx) {
        Err(ExecutionError::HostNeeded(HostRequest::Call(site, _, _, _))) => {
            assert_eq!((site.path, site.rounds), (vec![2], vec![]));
        }
        other => panic!("{:?}", other),
    }
}

#[test]
fn resolving_keeps_the_meaning_where_types_are_known() {
    let e = env();
    let r = FunctionResolver::new(&e);
    let made = |arg: IdedExpr| {
        node(Expr::Call(CallExpr {
            func_name: "f".to_string(),
            target: None,
            args: vec![arg],
            resolved_op: None,
        }))
    };
    let asked = |x: &IdedExpr| {
        let mut ctx = Context::new(env());
        ctx.add_variable("x", Value::String(Arc::new("x".to_string())));
        match compile_expression(x, &[]).call(&ctx) {
            Err(ExecutionError::HostNeeded(HostRequest::Overload(_, n, _))) => n,
            other => panic!("{:?}", other),
        }
    };
    let mut known = made(string("x"));
    let before = asked(&known);
    resolve_ast(&mut known, &r);
    assert_eq!((before, asked(&known)), (2, 2));
    let mut unknown = made(node(Expr::Ident("x".to_string())));
    let before = asked(&unknown);
    resolve_ast(&mut unknown, &r);
    assert_eq!((before, asked(&unknown)), (2, 1));
}
