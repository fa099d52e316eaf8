//! What holds between operations, on concrete values.

use cel::common::ast::{
    CallExpr, ComprehensionExpr, Expr, Expression, IdedExpr, ListExpr, LiteralValue,
};
use cel::common::functions::Function;
use cel::common::types::{Kind, Type};
use cel::context::Context;
use cel::env::Env;
use cel::error::{ExecutionError, FloatOp, HostRequest};
use cel::fast::{EvalContext, FieldType, Filter, Schema};
use cel::float;
use cel::objects::{Key, Value, ValueMap};
use cel::ops;
use cel::vm::compiler::compile_expression;
use cel::vm::filter_tree::{FilterBatch, FilterNode, SmartBatch, StrExpr};
use cel::vm::filter_tree_compiler::compile_filter_tree;
use cel::vm::vm::key_to_value;
use std::sync::Arc;

fn node(expr: Expr) -> IdedExpr {
    IdedExpr { id: 0, expr }
}

fn number(i: i64) -> IdedExpr {
    node(Expr::Literal(LiteralValue::Int(i)))
}

fn string(s: &str) -> IdedExpr {
    node(Expr::Literal(LiteralValue::String(s.to_string())))
}

fn name(n: &str) -> IdedExpr {
    node(Expr::Ident(n.to_string()))
}

fn call(f: &str, args: Vec<IdedExpr>) -> IdedExpr {
    node(Expr::Call(CallExpr {
        func_name: f.to_string(),
        target: None,
        args,
        resolved_op: None,
    }))
}

fn member(target: IdedExpr, f: &str, arg: IdedExpr) -> IdedExpr {
    node(Expr::Call(CallExpr {
        func_name: f.to_string(),
        target: Some(Box::new(target)),
        args: vec![arg],
        resolved_op: None,
    }))
}

fn list(elements: Vec<IdedExpr>) -> IdedExpr {
    node(Expr::List(ListExpr { elements, optional_indices: Vec::new() }))
}

fn some(range: IdedExpr, var: &str, condition: IdedExpr) -> IdedExpr {
    let accu = "@result";
    node(Expr::Comprehension(Box::new(ComprehensionExpr {
        iter_range: range,
        iter_var: var.to_string(),
        iter_var2: None,
        accu_var: accu.to_string(),
        accu_init: node(Expr::Literal(LiteralValue::Boolean(false))),
        loop_cond: call("@not_strictly_false", vec![call("!_", vec![name(accu)])]),
        loop_step: call("_||_", vec![name(accu), condition]),
        result: name(accu),
    })))
}

fn scope(port: i64, path: &str) -> Context<'static> {
    let mut ctx = Context::default();
    ctx.add_variable("port", Value::Int(port));
    ctx.add_variable("path", Value::String(Arc::new(path.to_string())));
    ctx.add_variable("ids", Value::List(vec![Value::Int(3), Value::Int(port)]));
    ctx.add_variable("admin", Value::Bool(port > 1000));
    ctx
}

fn by_tree(e: &Expression, ctx: &Context) -> bool {
    let tree = compile_filter_tree(e, None).unwrap();
    let vars = tree.bind_vars(ctx);
    tree.eval(&vars)
}

fn by_meaning(e: &Expression, ctx: &Context) -> Result<Value, ExecutionError> {
    compile_expression(e, &[]).call(ctx)
}

#[test]
fn a_tree_means_what_its_expression_means() {
    let expressions = vec![
        call("_==_", vec![name("port"), number(80)]),
        call("_<=_", vec![number(80), name("port")]),
        call("_<_", vec![call("_+_", vec![name("port"), number(100)]), number(1024)]),
        call("_!=_", vec![call("_*_", vec![name("port"), number(2)]), number(160)]),
        call("_==_", vec![call("_+_", vec![number(20), name("port")]), number(100)]),
        call("_>_", vec![
            call("_%_", vec![name("port"), number(7)]),
            call("-_", vec![call("_/_", vec![name("port"), number(-50)])]),
        ]),
        call("_>=_", vec![call("size", vec![string("abc")]), name("port")]),
        call("_==_", vec![name("path"), string("/api")]),
        call("_!=_", vec![string("/api"), name("path")]),
        call("@in", vec![name("port"), list(vec![number(80), number(443)])]),
        call("@in", vec![name("path"), list(vec![string("/api"), string("/")])]),
        member(name("path"), "startsWith", string("/a")),
        member(name("path"), "endsWith", string("i")),
        member(name("path"), "contains", string("x")),
        member(name("path"), "matches", string("^/[a-z]+$")),
        call("_||_", vec![
            member(name("path"), "contains", string("x")),
            member(name("path"), "contains", string("pi")),
        ]),
        call("_&&_", vec![name("admin"), call("!_", vec![
            call("_==_", vec![name("port"), number(80)]),
        ])]),
        some(name("ids"), "x", call("_>_", vec![name("x"), number(79)])),
        some(name("ids"), "x", call("@in", vec![name("x"), list(vec![number(80)])])),
    ];
    for e in &expressions {
        for (port, path) in [(80, "/api"), (443, "/"), (2000, "/xy"), (-3, "")] {
            let ctx = scope(port, path);
            assert_eq!(by_meaning(e, &ctx), Ok(Value::Bool(by_tree(e, &ctx))), "{:?}", e);
        }
    }
}

#[test]
fn literals_on_either_side() {
    let plus = |a, b| call("_+_", vec![a, b]);
    let minus = |a, b| call("_-_", vec![a, b]);
    let mut expressions = vec![
        call("_==_", vec![minus(number(85), name("port")), number(5)]),
        call("_<_", vec![number(-100), minus(number(1), name("port"))]),
        some(name("ids"), "x", call("_<_", vec![number(70), name("x")])),
        some(name("ids"), "x", call("_>=_", vec![number(3), name("x")])),
        some(name("ids"), "x", call("_==_", vec![number(80), name("x")])),
    ];
    for op in ["_==_", "_!=_", "_<_", "_<=_", "_>_", "_>=_"] {
        expressions.push(call(op, vec![plus(number(100), name("port")), number(180)]));
        expressions.push(call(op, vec![number(180), plus(number(100), name("port"))]));
        expressions.push(call(op, vec![number(180), plus(name("port"), number(100))]));
        expressions.push(call(op, vec![plus(name("port"), number(100)), number(180)]));
        expressions.push(call(op, vec![minus(name("port"), number(5)), number(75)]));
        expressions.push(call(op, vec![number(75), minus(name("port"), number(5))]));
    }
    for e in &expressions {
        for port in [79, 80, 81, 2, -7] {
            let ctx = scope(port, "");
            assert_eq!(by_meaning(e, &ctx), Ok(Value::Bool(by_tree(e, &ctx))), "{:?}", e);
        }
    }
}

#[test]
fn variables_of_other_types() {
    let port = |op: &str| call(op, vec![name("port"), number(80)]);
    let has = |w: &str| member(name("path"), "contains", string(w));
    let expressions = vec![
        port("_==_"),
        port("_<_"),
        call("_==_", vec![call("_+_", vec![name("port"), number(1)]), number(81)]),
        call("_!=_", vec![call("_+_", vec![number(1), name("port")]), number(81)]),
        call("@in", vec![name("port"), list(vec![number(80), number(443)])]),
        call("_==_", vec![name("path"), string("/api")]),
        call("@in", vec![name("path"), list(vec![string("/api"), string("/")])]),
        call("_&&_", vec![has("a"), has("b")]),
        call("_||_", vec![has("a"), port("_==_")]),
        name("admin"),
        call("_||_", vec![name("admin"), port("_==_")]),
        call("_&&_", vec![port("_==_"), name("admin")]),
        some(name("ids"), "x", call("_>_", vec![name("x"), number(79)])),
        some(name("ids"), "x", call("_==_", vec![name("x"), string("a")])),
    ];
    let mut judged = 0;
    for e in &expressions {
        for v in [Value::Null, Value::Bool(true), Value::String(Arc::new("80".to_string()))] {
            let mut ctx = Context::default();
            for n in ["port", "path", "ids", "admin"] {
                ctx.add_variable(n, v.clone());
            }
            if let Ok(value) = by_meaning(e, &ctx) {
                judged += 1;
                assert_eq!(by_tree(e, &ctx), value == Value::Bool(true), "{:?}", e);
            }
        }
    }
    assert!(judged > 10);
}

#[test]
fn words_that_overlap() {
    let both = |a: &str, b: &str| {
        call("_&&_", vec![
            member(name("path"), "contains", string(a)),
            member(name("path"), "contains", string(b)),
        ])
    };
    for path in ["abc", "ab bc", "ab", ""] {
        for (a, b) in [("ab", "bc"), ("abc", "b"), ("", "bc")] {
            let ctx = scope(80, path);
            let e = both(a, b);
            assert_eq!(by_meaning(&e, &ctx), Ok(Value::Bool(by_tree(&e, &ctx))));
        }
    }
}

#[test]
fn what_does_not_become_a_tree() {
    let ctx = scope(80, "abc");
    let e = call("_==_", vec![call("size", vec![string("\u{e9}")]), number(1)]);
    assert_eq!(by_meaning(&e, &ctx), Ok(Value::Bool(true)));
    assert!(compile_filter_tree(&e, None).is_err());
    let mut e = some(name("ids"), "x", call("_>_", vec![name("x"), number(0)]));
    if let Expr::Comprehension(c) = &mut e.expr {
        c.result = call("!_", vec![name("@result")]);
    }
    assert_eq!(by_meaning(&e, &ctx), Ok(Value::Bool(false)));
    assert!(compile_filter_tree(&e, None).is_err());
    let mut e = some(name("ids"), "x", call("_>_", vec![name("x"), number(0)]));
    if let Expr::Comprehension(c) = &mut e.expr {
        c.loop_cond = node(Expr::Literal(LiteralValue::Boolean(false)));
    }
    assert_eq!(by_meaning(&e, &ctx), Ok(Value::Bool(false)));
    assert!(compile_filter_tree(&e, None).is_err());
}

#[test]
fn existence_with_a_key_and_a_value() {
    let mut map = ValueMap::new();
    map.insert(Key::Int(1), Value::Int(7));
    map.insert(Key::Int(9), Value::Int(2));
    let mut ctx = Context::default();
    ctx.add_variable("m", Value::Dict(map));
    let pair = |var: &str, least: i64| {
        let mut e = some(name("m"), "k", call("_>_", vec![name(var), number(least)]));
        if let Expr::Comprehension(c) = &mut e.expr {
            c.iter_var2 = Some("v".to_string());
        }
        e
    };
    for least in [6, 7, 8] {
        let e = pair("v", least);
        assert_eq!(by_meaning(&e, &ctx), Ok(Value::Bool(by_tree(&e, &ctx))));
    }
    assert_eq!(by_meaning(&pair("k", 8), &ctx), Ok(Value::Bool(true)));
    assert!(compile_filter_tree(&pair("k", 8), None).is_err());
}

#[test]
fn an_operand_that_waits_does_not_hinder_one_that_decides() {
    let half = || node(Expr::Literal(LiteralValue::Double(0.5f64.to_bits())));
    let waits = || call("_==_", vec![call("_+_", vec![name("x"), half()]), half()]);
    let flag = |b| node(Expr::Literal(LiteralValue::Boolean(b)));
    let mut ctx = Context::default();
    ctx.add_variable("x", Value::Float(0.5f64.to_bits()));
    let cases = [("_&&_", false), ("_||_", true)];
    for (op, decided) in cases {
        for args in [vec![waits(), flag(decided)], vec![flag(decided), waits()]] {
            assert_eq!(by_meaning(&call(op, args), &ctx), Ok(Value::Bool(decided)));
        }
        for args in [vec![waits(), flag(!decided)], vec![flag(!decided), waits()]] {
            assert!(matches!(
                by_meaning(&call(op, args), &ctx),
                Err(ExecutionError::HostNeeded(_))
            ));
        }
    }
}

#[test]
fn a_filter_gives_its_verdict_with_a_tree_and_without() {
    let mut s = Schema::new();
    let a = s.add_field("a", FieldType::Int);
    let b = s.add_field("b", FieldType::Bool);
    let test = || call("_>_", vec![name("a"), number(10)]);
    let tree = Filter::from_expression(call("_&&_", vec![name("b"), test()]), &s).unwrap();
    let no = node(Expr::Literal(LiteralValue::Boolean(false)));
    let plain = Filter::from_expression(call("_?_:_", vec![name("b"), test(), no]), &s).unwrap();
    assert!(tree.tree.is_some());
    assert!(plain.tree.is_none());
    for (i, flag) in [(11, true), (11, false), (9, true), (9, false)] {
        let mut ctx = EvalContext::new(&s);
        ctx.set_i64(a, i);
        ctx.set_bool(b, flag);
        assert_eq!(tree.eval(&ctx), plain.eval(&ctx));
        assert_eq!(tree.eval(&ctx), Ok(i > 10 && flag));
    }
}

#[test]
fn a_result_stays_when_more_is_known() {
    let half = node(Expr::Literal(LiteralValue::Double(0.5f64.to_bits())));
    let e = call("_||_", vec![
        node(Expr::Literal(LiteralValue::Boolean(true))),
        call("_==_", vec![call("_+_", vec![name("x"), half]), number(1)]),
    ]);
    let mut ctx = Context::default();
    ctx.add_variable("x", Value::Float(0.5f64.to_bits()));
    let before = by_meaning(&e, &ctx);
    assert_eq!(before, Ok(Value::Bool(true)));
    ctx.add_answer(
        HostRequest::Arithmetic(FloatOp::Add, 0.5f64.to_bits(), 0.5f64.to_bits()),
        Ok(Value::Float(1.0f64.to_bits())),
    );
    assert_eq!(by_meaning(&e, &ctx), before);
}

#[test]
fn ordering_a_batch_loses_no_match() {
    let rules = || {
        vec![
            (
                Box::new(FilterNode::Contains { idx: 1, substring: "a".to_string() }),
                "text".to_string(),
            ),
            (Box::new(FilterNode::GtInt { idx: 0, val: 5 }), "number".to_string()),
        ]
    };
    let plain = FilterBatch { filters: rules() };
    let smart = SmartBatch::new(rules());
    for i in [4, 6] {
        for s in ["a", "b"] {
            let vars = [Value::Int(i), Value::String(Arc::new(s.to_string()))];
            assert_eq!(plain.eval_any(&vars).is_some(), smart.eval_any(&vars).is_some());
        }
    }
}

#[test]
fn a_declaration_adds_one_overload() {
    let mut e = Env::default();
    let one = |k: Kind| vec![Type::of_kind(k)];
    e.add_overload("g", "g_int", one(Kind::Int), Function::Host(1)).unwrap();
    e.add_overload("f", "f_int", one(Kind::Int), Function::Host(2)).unwrap();
    e.add_overload("g", "g_bool", one(Kind::Boolean), Function::Host(3)).unwrap();
    assert_eq!(e.functions()[0].0, "f");
    assert_eq!(e.functions()[1].0, "g");
    assert_eq!(e.find_overload("g", &[Value::Int(1)]), Some(Function::Host(1)));
    assert_eq!(e.find_overload("g", &[Value::Bool(true)]), Some(Function::Host(3)));
    assert_eq!(e.find_overload("f", &[Value::Int(1)]), Some(Function::Host(2)));
    assert_eq!(e.find_overload("f", &[Value::Bool(true)]), None);
}

#[test]
fn signs_and_order_of_doubles() {
    for a in [0.0f64, -1.5, f64::INFINITY, f64::MIN_POSITIVE] {
        let bits = a.to_bits();
        assert_eq!(float::float_negate(float::float_negate(bits)), bits);
        assert_eq!(float::float_negate(bits), (-a).to_bits());
        for b in [0.0f64, 2.5, -0.0] {
            let n = [
                float::float_less(bits, b.to_bits()),
                float::float_equal(bits, b.to_bits()),
                float::float_less(b.to_bits(), bits),
            ];
            assert_eq!(n.iter().filter(|x| **x).count(), 1);
        }
    }
}

#[test]
fn the_deciding_side_decides() {
    let fault = || Err(ExecutionError::NoSuchOverload);
    let e = |l: IdedExpr, r: IdedExpr| call("_&&_", vec![l, r]);
    let no = || node(Expr::Literal(LiteralValue::Boolean(false)));
    let bad = || call("_==_", vec![call("_/_", vec![number(1), number(0)]), number(1)]);
    let ctx = Context::default();
    assert_eq!(by_meaning(&e(no(), bad()), &ctx), Ok(Value::Bool(false)));
    assert_eq!(by_meaning(&e(bad(), no()), &ctx), Ok(Value::Bool(false)));
    assert_eq!(by_meaning(&e(number(1), number(1)), &ctx), fault());
}

#[test]
fn keys_and_values_go_back_and_forth() {
    for k in [Key::Int(-1), Key::Uint(2), Key::Bool(true), Key::String("k".to_string())] {
        let v = key_to_value(k);
        let back = cel::objects::value_as_key(&v).unwrap();
        assert_eq!(key_to_value(back), v);
    }
    assert!(cel::objects::value_as_key(&Value::Null).is_none());
    assert_eq!(ops::in_values(&Value::Int(1), &Value::List(vec![Value::UInt(1)])), Ok(Value::Bool(true)));
}

#[test]
fn texts_are_borrowed_or_built() {
    let vars = [Value::String(Arc::new("ab".to_string())), Value::Null];
    assert_eq!(StrExpr::Var(0).eval_borrow(&vars), Some("ab"));
    assert_eq!(StrExpr::Var(1).eval_borrow(&vars), Some(""));
    let both = StrExpr::Concat(
        Box::new(StrExpr::Var(0)),
        Box::new(StrExpr::Literal("c".to_string())),
    );
    assert_eq!(both.eval_borrow(&vars), None);
    assert_eq!(both.eval_owned(&vars), "abc");
    assert_eq!(both.len(&vars), 3);
}

#[test]
fn typed_arrays_hold_the_variables() {
    let e = call("_&&_", vec![
        call("_&&_", vec![call("_==_", vec![name("port"), number(80)]), name("admin")]),
        call("_==_", vec![name("path"), string("/")]),
    ]);
    let tree = compile_filter_tree(&e, None).unwrap();
    let (ints, strings) = tree.bind_typed(&scope(80, "/"));
    assert_eq!(ints, vec![80, 0, 0]);
    assert_eq!(strings, vec!["".to_string(), "".to_string(), "/".to_string()]);
    assert!(!tree.compiled.eval_bool(&ints, &strings));
    assert!(tree.compiled.eval_bool(&[80, 1, 0], &strings));
}
