//! The register machines and their compilers.

use cel::common::ast::{CallExpr, Expr, Expression, IdedExpr, ListExpr, LiteralValue, SelectExpr};
use cel::context::Context;
use cel::error::{ExecutionError, HostTable};
use cel::objects::{Key, Value, ValueMap};
use cel::vm::enum_filter::EnumFilter;
use cel::vm::fast_value::{FastValue, Payloads};
use cel::vm::reg_bytecode::{RegInstr, RegProgram};
use cel::vm::reg_closure_vm::{compile_reg_closure, RegClosure};
use cel::vm::reg_compiler::compile_reg;
use cel::vm::reg_fast_vm::{eval_reg_fast, eval_reg_fast_within, RegFastState};
use cel::vm::reg_vm::{eval_reg, eval_reg_within, RegState};
use std::sync::Arc;

fn node(expr: Expr) -> IdedExpr {
    IdedExpr { id: 0, expr }
}

fn number(i: i64) -> IdedExpr {
    node(Expr::Literal(LiteralValue::Int(i)))
}

fn name(n: &str) -> IdedExpr {
    node(Expr::Ident(n.to_string()))
}

fn call(f: &str, args: Vec<IdedExpr>) -> IdedExpr {
    node(Expr::Call(CallExpr {
        func_name: f.to_string(),
        target: None,
        args,
        resolved_op: None,
    }))
}

fn eval(e: Expression, ctx: &Context) -> Result<Value, ExecutionError> {
    let p = compile_reg(&e).unwrap();
    let mut state = RegState::new();
    state.bind_vars(&p, ctx);
    eval_reg_within(&p, &mut state, &HostTable::new(), 1000).unwrap()
}

fn program(constants: Vec<Value>, instructions: Vec<RegInstr>) -> RegProgram {
    RegProgram { constants, var_names: Vec::new(), instructions }
}

fn text(s: &str) -> Value {
    Value::String(Arc::new(s.to_string()))
}

#[test]
fn a_compiled_expression_gives_its_meaning() {
    let mut ctx = Context::default();
    ctx.add_variable("x", Value::Int(10));
    ctx.add_variable("y", Value::Int(20));
    let e = call("_*_", vec![call("_+_", vec![name("x"), name("y")]), number(2)]);
    assert_eq!(eval(e, &ctx), Ok(Value::Int(60)));
    let e = call("_&&_", vec![
        call("_<_", vec![name("x"), name("y")]),
        call("!_", vec![call("_==_", vec![name("x"), number(11)])]),
    ]);
    assert_eq!(eval(e, &ctx), Ok(Value::Bool(true)));
    let e = call("_/_", vec![name("x"), number(0)]);
    assert_eq!(eval(e, &ctx), Err(ExecutionError::DivisionByZero(Value::Int(10))));
}

#[test]
fn constants_are_computed_ahead_of_time() {
    let p = compile_reg(&call("_+_", vec![number(1), number(2)])).unwrap();
    assert_eq!(p.instructions, vec![RegInstr::LoadConst(0, 0), RegInstr::Halt(0)]);
    assert_eq!(p.constants, vec![Value::Int(3)]);
    let p = compile_reg(&call("-_", vec![number(4)])).unwrap();
    assert_eq!(p.constants, vec![Value::Int(-4)]);
    let p = compile_reg(&call("_/_", vec![number(1), number(0)])).unwrap();
    assert_eq!(p.instructions.len(), 4);
}

#[test]
fn a_program_repeats_a_name_and_a_constant_at_will() {
    let mut e = name("x");
    for _ in 0..300 {
        e = call("_+_", vec![call("_+_", vec![e, number(1)]), name("x")]);
    }
    let p = compile_reg(&e).unwrap();
    assert_eq!((p.constants.len(), p.var_names.len()), (1, 1));
    let mut ctx = Context::default();
    ctx.add_variable("x", Value::Int(2));
    let mut state = RegState::new();
    state.bind_vars(&p, &ctx);
    let r = eval_reg_within(&p, &mut state, &HostTable::new(), 10_000).unwrap();
    assert_eq!(r, Ok(Value::Int(902)));
}

#[test]
fn names_and_constants_have_one_entry_each() {
    let e = call("_+_", vec![
        call("_+_", vec![name("b"), number(7)]),
        call("_+_", vec![name("a"), call("_*_", vec![name("b"), number(7)])]),
    ]);
    let p = compile_reg(&e).unwrap();
    assert_eq!(p.var_names(), &["b".to_string(), "a".to_string()]);
    assert_eq!(p.constants, vec![Value::Int(7)]);
}

#[test]
fn what_is_not_compiled() {
    let refused = |e: Expression| compile_reg(&e).unwrap_err();
    assert_eq!(refused(call("f", vec![number(1), name("x")])), "unsupported binary op: f");
    assert_eq!(refused(call("f", vec![name("x")])), "unsupported unary op: f");
    assert_eq!(refused(call("f", Vec::new())), "unsupported call arity: 0");
    assert_eq!(
        refused(call("int", vec![name("x")])),
        "builtin calls in reg VM need special encoding"
    );
    let list = ListExpr { elements: Vec::new(), optional_indices: Vec::new() };
    assert_eq!(refused(node(Expr::List(list))), "list literals not supported in reg VM");
    assert!(compile_reg(&node(Expr::Unspecified)).is_err());
}

#[test]
fn fields_are_selected() {
    let mut m = ValueMap::new();
    m.insert(Key::String("bar".to_string()), Value::Int(42));
    let mut ctx = Context::default();
    ctx.add_variable("foo", Value::Dict(m));
    let select = |field: &str, test: bool| {
        node(Expr::Select(SelectExpr {
            operand: Box::new(name("foo")),
            field: field.to_string(),
            test,
        }))
    };
    assert_eq!(eval(select("bar", false), &ctx), Ok(Value::Int(42)));
    assert_eq!(eval(select("bar", true), &ctx), Ok(Value::Bool(true)));
    assert_eq!(eval(select("baz", true), &ctx), Ok(Value::Bool(false)));
    assert_eq!(
        eval(select("baz", false), &ctx),
        Err(ExecutionError::NoSuchKey("baz".to_string()))
    );
}

#[test]
fn the_machine_on_values() {
    let host = HostTable::new();
    let p = program(
        vec![text("k"), Value::Int(3)],
        vec![
            RegInstr::LoadVar(0, 0),
            RegInstr::LoadConst(1, 1),
            RegInstr::Lt(2, 0, 1),
            RegInstr::JumpIfTrue(2, 1),
            RegInstr::Halt(0),
            RegInstr::Move(3, 1),
            RegInstr::Halt(3),
        ],
    );
    let mut state = RegState::new();
    state.set_vars(vec![Value::Int(1)]);
    assert_eq!(eval_reg(&p, &mut state, &host), Ok(Value::Int(3)));
    state.set_vars(vec![Value::Int(5)]);
    assert_eq!(eval_reg(&p, &mut state, &host), Ok(Value::Int(5)));
    let p = program(vec![text("1234")], vec![
        RegInstr::LoadConst(1, 0),
        RegInstr::Call(0, 1, 1),
        RegInstr::Halt(0),
    ]);
    assert_eq!(eval_reg(&p, &mut RegState::new(), &host), Ok(Value::Int(1234)));
    for bad in [
        vec![RegInstr::Halt(8)],
        vec![RegInstr::LoadVar(0, 0), RegInstr::Halt(0)],
        vec![RegInstr::LoadConst(0, 1), RegInstr::Halt(0)],
        vec![RegInstr::Jump(-1)],
        vec![],
    ] {
        let p = program(Vec::new(), bad);
        assert!(eval_reg_within(&p, &mut RegState::new(), &host, 50).is_none());
    }
    let p = program(vec![Value::Int(1)], vec![RegInstr::Select(0, 0, 0)]);
    assert!(matches!(
        eval_reg(&p, &mut RegState::new(), &host),
        Err(ExecutionError::InternalError(_))
    ));
    let p = program(Vec::new(), vec![RegInstr::AddInt(0, 0, 0)]);
    assert!(matches!(
        eval_reg(&p, &mut RegState::new(), &host),
        Err(ExecutionError::InternalError(_))
    ));
}

#[test]
fn words_keep_integers_of_63_bits() {
    let places = Payloads::new();
    for i in [0i64, 1, -1, (1 << 62) - 1, -(1 << 62)] {
        let w = FastValue::from_int(i);
        assert!(w.is_int());
        assert_eq!(w.as_int(), Some(i));
        assert_eq!(w.to_value(&places), Value::Int(i));
    }
    assert_eq!(FastValue::from_int(1 << 62).as_int(), Some(-(1 << 62)));
    assert_eq!(FastValue::from_int(i64::MAX).as_int(), Some(-1));
    assert_eq!(FastValue::from_int(i64::MIN).as_int(), Some(0));
}

#[test]
fn words_of_other_values() {
    let mut places = Payloads::new();
    assert!(FastValue::null().is_null());
    assert_eq!(FastValue::from_bool(true).as_bool(), Some(true));
    assert_eq!(FastValue::from_bool(false).as_bool(), Some(false));
    assert!(!FastValue::null().is_bool());
    let s = FastValue::from_value(text("hello"), &mut places);
    let l = FastValue::from_value(Value::List(vec![Value::Null]), &mut places);
    assert_eq!(places.len(), 2);
    assert!(s.is_ptr() && l.is_ptr());
    assert_eq!(s.as_ptr(), Some(0));
    assert_eq!(l.as_ptr(), Some(1));
    assert_eq!(s.to_value(&places), text("hello"));
    assert_eq!(l.to_value(&places), Value::List(vec![Value::Null]));
    assert!(s.eq_str("hello", &places));
    assert!(!s.eq_str("hell", &places));
    assert!(!l.eq_str("hello", &places));
    assert_eq!(FastValue::from_value(Value::Int(4), &mut places).to_value(&places), Value::Int(4));
    assert_eq!(places.len(), 2);
}

#[test]
fn each_word_is_of_one_sort() {
    let mut places = Payloads::new();
    let values = vec![
        Value::Null,
        Value::Bool(true),
        Value::Bool(false),
        Value::Int(0),
        Value::Int(-1),
        Value::UInt(2),
        text(""),
    ];
    let words = [Some(1), Some(2), Some(3), None, None, Some(4), Some(20)];
    for (v, want) in values.into_iter().zip(words) {
        let null = matches!(v, Value::Null);
        let whole = matches!(v, Value::Int(_));
        let flag = matches!(v, Value::Bool(_));
        let w = FastValue::from_value(v, &mut places);
        assert_eq!((w.is_null(), w.is_int(), w.is_bool()), (null, whole, flag));
        assert_eq!(w.is_ptr(), !null && !whole && !flag);
        match want {
            Some(word) => assert_eq!(w.0, word),
            None => assert!(w.0 >= 1 << 63),
        }
    }
}

#[test]
fn compiled_programs_are_well_built() {
    let field = node(Expr::Select(SelectExpr {
        operand: Box::new(name("foo")),
        field: "bar".to_string(),
        test: false,
    }));
    let sum = call("_+_", vec![name("x"), call("_*_", vec![name("y"), name("x")])]);
    let e = call("_&&_", vec![call("_<_", vec![sum, number(9)]), call("!_", vec![field])]);
    let p = compile_reg(&e).unwrap();
    assert_eq!(p.var_names, ["x", "y", "foo"]);
    let ends = p.instructions.iter().filter(|i| matches!(i, RegInstr::Halt(_))).count();
    assert_eq!(ends, 1);
    assert!(matches!(p.instructions.last(), Some(RegInstr::Halt(r)) if *r < 8));
    for i in &p.instructions {
        match i {
            RegInstr::LoadVar(d, v) => assert!(*d < 8 && (*v as usize) < p.var_names.len()),
            RegInstr::LoadConst(d, c) => assert!(*d < 8 && (*c as usize) < p.constants.len()),
            RegInstr::Select(d, s, c) => {
                assert!(*d < 8 && *s < 8);
                assert_eq!(p.constants[*c as usize], text("bar"));
            }
            _ => {}
        }
    }
    assert!(matches!(EnumFilter::compile(&p), EnumFilter::Generic(_)));
}

#[test]
fn a_filter_of_a_conjunction_runs_its_program() {
    let host = HostTable::new();
    let p = program(
        vec![Value::List(vec![Value::Int(80), Value::Int(443)])],
        vec![
            RegInstr::GeIntConst(2, 0, 10),
            RegInstr::InIntSet(3, 0, 0),
            RegInstr::And(4, 2, 3),
            RegInstr::Halt(4),
        ],
    );
    let f = EnumFilter::compile(&p);
    assert!(matches!(f, EnumFilter::AndBox(_, _)));
    for (i, want) in [(443, true), (80, true), (81, false), (3, false)] {
        let vars = [Value::Int(i)];
        assert_eq!(f.eval(&mut fast(&vars), &host), Ok(Value::Bool(want)));
        assert_eq!(eval_reg_fast(&p, &mut fast(&vars), &host), Ok(Value::Bool(want)));
    }
}

fn fast(vars: &[Value]) -> RegFastState {
    let mut state = RegFastState::new();
    state.set_vars(vars);
    state
}

#[test]
fn the_machine_on_words() {
    let host = HostTable::new();
    let p = program(
        vec![Value::List(vec![Value::Int(80), Value::Int(443)])],
        vec![
            RegInstr::GeIntConst(2, 0, 10),
            RegInstr::InIntSet(3, 0, 0),
            RegInstr::And(4, 2, 3),
            RegInstr::Halt(4),
        ],
    );
    assert_eq!(eval_reg_fast(&p, &mut fast(&[Value::Int(443)]), &host), Ok(Value::Bool(true)));
    assert_eq!(eval_reg_fast(&p, &mut fast(&[Value::Int(444)]), &host), Ok(Value::Bool(false)));
    let p = program(vec![text("GET")], vec![RegInstr::EqStrConst(1, 0, 0), RegInstr::Halt(1)]);
    assert_eq!(eval_reg_fast(&p, &mut fast(&[text("GET")]), &host), Ok(Value::Bool(true)));
    assert_eq!(eval_reg_fast(&p, &mut fast(&[Value::Int(4)]), &host), Ok(Value::Bool(false)));
    let p = program(vec![Value::Null], vec![RegInstr::EqStrConst(1, 0, 0), RegInstr::Halt(1)]);
    assert!(matches!(
        eval_reg_fast(&p, &mut fast(&[]), &host),
        Err(ExecutionError::InternalError(_))
    ));
    let p = program(Vec::new(), vec![RegInstr::DivInt(2, 0, 1), RegInstr::Halt(2)]);
    assert_eq!(
        eval_reg_fast(&p, &mut fast(&[Value::Int(7), Value::Int(0)]), &host),
        Err(ExecutionError::DivisionByZero(Value::Int(7)))
    );
    let p = program(Vec::new(), vec![RegInstr::LtIntConst(1, 0, 5), RegInstr::Halt(1)]);
    assert_eq!(eval_reg_fast(&p, &mut fast(&[text("a")]), &host), Ok(Value::Bool(false)));
    let p = program(Vec::new(), vec![RegInstr::Jump(-1)]);
    assert!(eval_reg_fast_within(&p, &mut fast(&[]), &host, 100).is_none());
}

#[test]
fn closures_of_small_programs() {
    let host = HostTable::new();
    let pair = |i: RegInstr, r: u8| program(Vec::new(), vec![i, RegInstr::Halt(r)]);
    let c = compile_reg_closure(&pair(RegInstr::EqIntConst(1, 0, 80), 1));
    assert!(matches!(c, RegClosure::IntTest(_, 0, 80)));
    assert_eq!(c.call(&mut fast(&[Value::Int(80)]), &host), Ok(Value::Bool(true)));
    let ne = pair(RegInstr::NeIntConst(1, 0, 80), 1);
    let c = compile_reg_closure(&ne);
    assert_eq!(c.call(&mut fast(&[Value::Int(81)]), &host), Ok(Value::Bool(true)));
    assert_eq!(c.call(&mut fast(&[text("x")]), &host), Ok(Value::Bool(false)));
    assert_eq!(eval_reg_fast(&ne, &mut fast(&[text("x")]), &host), Ok(Value::Bool(true)));
    let add = compile_reg_closure(&pair(RegInstr::AddInt(2, 0, 1), 2));
    assert_eq!(
        add.call(&mut fast(&[Value::Int(2), Value::Int(3)]), &host),
        Ok(Value::Int(5))
    );
    assert!(matches!(
        add.call(&mut fast(&[text("a"), text("b")]), &host),
        Err(ExecutionError::InternalError(_))
    ));
    let and = compile_reg_closure(&pair(RegInstr::And(2, 0, 1), 2));
    assert_eq!(
        and.call(&mut fast(&[Value::Bool(true), text("b")]), &host),
        Ok(text("b"))
    );
    let halt = compile_reg_closure(&program(Vec::new(), vec![RegInstr::Halt(3)]));
    assert!(matches!(halt, RegClosure::Return(3)));
    assert_eq!(halt.call(&mut fast(&[]), &host), Ok(Value::Null));
    let other = compile_reg_closure(&pair(RegInstr::EqIntConst(1, 0, 80), 2));
    assert!(matches!(other, RegClosure::Program(_)));
    assert_eq!(other.call(&mut fast(&[Value::Int(80)]), &host), Ok(Value::Null));
}

#[test]
fn a_comparison_leaves_its_result_in_the_register_it_read() {
    let host = HostTable::new();
    let p = program(Vec::new(), vec![RegInstr::EqIntConst(1, 0, 80), RegInstr::Halt(1)]);
    let mut state = fast(&[Value::Int(80)]);
    compile_reg_closure(&p).call(&mut state, &host).unwrap();
    assert_eq!(state.value(0), Some(Value::Bool(true)));
    assert_eq!(state.value(1), Some(Value::Null));
    assert_eq!(state.value(16), None);
}

#[test]
fn filters_of_programs() {
    let host = HostTable::new();
    let lt = program(Vec::new(), vec![RegInstr::LtIntConst(1, 0, 5), RegInstr::Halt(1)]);
    let f = EnumFilter::compile(&lt);
    assert!(matches!(f, EnumFilter::LtIntConst { src: 0, val: 5 }));
    assert_eq!(f.eval(&mut fast(&[Value::Int(4)]), &host), Ok(Value::Bool(true)));
    assert_eq!(f.eval(&mut fast(&[text("a")]), &host), Ok(Value::Bool(false)));
    let short = program(vec![text("GET")], vec![
        RegInstr::EqStrConst(1, 0, 0),
        RegInstr::Halt(1),
    ]);
    let f = EnumFilter::compile(&short);
    assert!(matches!(f, EnumFilter::InlineStrConst { .. }));
    assert_eq!(f.eval(&mut fast(&[text("GET")]), &host), Ok(Value::Bool(true)));
    let long = program(vec![text("/api/v1/users")], vec![
        RegInstr::EqStrConst(1, 0, 0),
        RegInstr::Halt(1),
    ]);
    assert!(matches!(EnumFilter::compile(&long), EnumFilter::StringConstRaw { .. }));
    let range = program(Vec::new(), vec![
        RegInstr::GeIntConst(1, 0, 10),
        RegInstr::LeIntConst(2, 0, 20),
        RegInstr::And(3, 1, 2),
        RegInstr::Halt(3),
    ]);
    let f = EnumFilter::compile(&range);
    assert!(matches!(f, EnumFilter::AndGeLeIntConst { src: 0, lo: 10, hi: 20 }));
    assert_eq!(f.eval(&mut fast(&[Value::Int(20)]), &host), Ok(Value::Bool(true)));
    assert_eq!(f.eval(&mut fast(&[Value::Int(21)]), &host), Ok(Value::Bool(false)));
    let set = |v: Value| {
        program(vec![Value::List(vec![v])], vec![RegInstr::InIntSet(1, 0, 0), RegInstr::Halt(1)])
    };
    let f = EnumFilter::compile(&set(Value::Int(9)));
    assert!(matches!(f, EnumFilter::InIntSet { .. }));
    assert_eq!(f.eval(&mut fast(&[Value::Int(9)]), &host), Ok(Value::Bool(true)));
    assert!(matches!(EnumFilter::compile(&set(Value::Null)), EnumFilter::Generic(_)));
    let strs = program(vec![Value::List(vec![text("a")])], vec![
        RegInstr::InStrSet(1, 0, 0),
        RegInstr::Halt(1),
    ]);
    let f = EnumFilter::compile(&strs);
    assert_eq!(f.eval(&mut fast(&[text("a")]), &host), Ok(Value::Bool(true)));
    assert_eq!(f.eval(&mut fast(&[text("b")]), &host), Ok(Value::Bool(false)));
}

#[test]
fn other_conjunctions_run_their_program() {
    let host = HostTable::new();
    let p = program(Vec::new(), vec![
        RegInstr::EqIntConst(2, 0, 1),
        RegInstr::EqIntConst(3, 1, 2),
        RegInstr::And(4, 2, 3),
        RegInstr::Halt(4),
    ]);
    let f = EnumFilter::compile(&p);
    assert!(matches!(f, EnumFilter::AndBox(_, _)));
    assert_eq!(
        f.eval(&mut fast(&[Value::Int(1), Value::Int(2)]), &host),
        Ok(Value::Bool(true))
    );
    assert_eq!(
        f.eval(&mut fast(&[Value::Int(1), Value::Int(3)]), &host),
        Ok(Value::Bool(false))
    );
    let either = EnumFilter::OrBox(
        Box::new(EnumFilter::EqIntConst { src: 0, val: 1 }),
        Box::new(EnumFilter::NeIntConst { src: 1, val: 2 }),
    );
    assert_eq!(
        either.eval(&mut fast(&[Value::Int(5), Value::Int(3)]), &host),
        Ok(Value::Bool(true))
    );
}
