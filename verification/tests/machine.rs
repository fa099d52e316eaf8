//! The stack machine.

use cel::context::Context;
use cel::error::{ExecutionError, HostRequest, HostTable};
use cel::objects::{Key, Value, ValueMap};
use cel::vm::bytecode::{Instr, Program, IDX_ACCU, IDX_ITER_ELEM};
use cel::vm::vm::{self, EvalState};
use std::sync::Arc;

fn program(constants: Vec<Value>, names: &[&str], instructions: Vec<Instr>) -> Program {
    Program {
        constants,
        var_names: names.iter().map(|n| n.to_string()).collect(),
        instructions,
        regex_pool: Vec::new(),
    }
}

fn run(p: &Program, ctx: &Context) -> Result<Value, ExecutionError> {
    match vm::eval_within(p, ctx, &mut EvalState::new(), 10_000) {
        Some(r) => r,
        None => panic!("the program did not end"),
    }
}

fn text(s: &str) -> Value {
    Value::String(Arc::new(s.to_string()))
}

#[test]
fn constants_and_arithmetic() {
    let p = program(
        vec![Value::Int(2), Value::Int(3), Value::Int(4)],
        &[],
        vec![
            Instr::PushConst(0),
            Instr::PushConst(1),
            Instr::PushConst(2),
            Instr::Mul,
            Instr::Add,
            Instr::Return,
        ],
    );
    assert_eq!(run(&p, &Context::default()), Ok(Value::Int(14)));
    let mut state = EvalState::new();
    assert_eq!(vm::eval(&p, &Context::default(), &mut state), Ok(Value::Int(14)));
}

#[test]
fn the_stacks_hold_nothing_between_evaluations() {
    let p = program(
        vec![Value::Int(1)],
        &[],
        vec![Instr::PushConst(0), Instr::PushConst(0), Instr::Not, Instr::Return],
    );
    let mut state = EvalState::new();
    assert!(state.stack.is_empty() && state.iter_stack.is_empty());
    state.stack.push(Value::Null);
    let first = vm::eval(&p, &Context::default(), &mut state);
    assert!(first.is_err());
    assert!(state.stack.is_empty() && state.iter_stack.is_empty());
    assert_eq!(vm::eval(&p, &Context::default(), &mut state), first);
}

#[test]
fn sums_wrap() {
    let p = program(
        vec![Value::Int(i64::MAX), Value::Int(1)],
        &[],
        vec![Instr::PushConst(0), Instr::PushConst(1), Instr::Add, Instr::Halt],
    );
    assert_eq!(run(&p, &Context::default()), Ok(Value::Int(i64::MIN)));
}

#[test]
fn an_empty_stack_at_the_end_is_an_error() {
    let p = program(Vec::new(), &[], vec![Instr::Return]);
    assert!(matches!(run(&p, &Context::default()), Err(ExecutionError::InternalError(_))));
}

#[test]
fn malformed_programs_get_stuck() {
    let ctx = Context::default();
    for instructions in [
        vec![Instr::Add, Instr::Halt],
        vec![Instr::PushConst(7), Instr::Halt],
        vec![Instr::LoadVar(0), Instr::Halt],
        vec![Instr::Jump(-5)],
        vec![Instr::Jump(5)],
        vec![Instr::IterNext(0)],
        vec![Instr::BuildList(1), Instr::Halt],
        vec![Instr::Call(0, 1), Instr::Halt],
        vec![Instr::MatchesCompiled(0), Instr::Halt],
    ] {
        let p = program(Vec::new(), &[], instructions);
        assert!(vm::eval_within(&p, &ctx, &mut EvalState::new(), 100).is_none());
    }
    let endless = program(Vec::new(), &[], vec![Instr::Jump(-1)]);
    assert!(vm::eval_within(&endless, &ctx, &mut EvalState::new(), 1000).is_none());
    let overflow = program(
        vec![Value::Int(i64::MIN), Value::Int(-1)],
        &[],
        vec![Instr::PushConst(0), Instr::PushConst(1), Instr::Div, Instr::Halt],
    );
    assert!(vm::eval_within(&overflow, &ctx, &mut EvalState::new(), 100).is_none());
}

#[test]
fn variables_are_read_once() {
    let p = program(
        vec![Value::Int(80)],
        &["port"],
        vec![Instr::LoadVarEqConst(0, 0), Instr::Return],
    );
    let mut first = Context::default();
    first.add_variable("port", Value::Int(80));
    let mut second = Context::default();
    second.add_variable("port", Value::Int(81));
    let mut state = EvalState::new();
    assert_eq!(vm::eval(&p, &first, &mut state), Ok(Value::Bool(true)));
    assert_eq!(vm::eval(&p, &second, &mut state), Ok(Value::Bool(true)));
    assert_eq!(run(&p, &second), Ok(Value::Bool(false)));
    assert_eq!(run(&p, &Context::default()), Ok(Value::Bool(false)));
    assert_eq!(p.var_names()[0], "port");
}

#[test]
fn comparisons_with_constants() {
    let mut ctx = Context::default();
    ctx.add_variable("x", Value::Int(5));
    let cases = [
        (Instr::ReturnEqConst(0, 0), false),
        (Instr::ReturnNeConst(0, 0), true),
        (Instr::ReturnLtConst(0, 0), true),
        (Instr::ReturnLeConst(0, 0), true),
        (Instr::ReturnGtConst(0, 0), false),
        (Instr::ReturnGeConst(0, 0), false),
    ];
    for (i, want) in cases {
        let p = program(vec![Value::Int(7)], &["x"], vec![i]);
        assert_eq!(run(&p, &ctx), Ok(Value::Bool(want)));
    }
    let p = program(vec![text("a")], &["x"], vec![Instr::LoadVarLtConst(0, 0), Instr::Halt]);
    assert!(matches!(run(&p, &ctx), Err(ExecutionError::ValuesNotComparable(_, _))));
}

#[test]
fn jumps() {
    let p = program(
        vec![Value::Bool(false), Value::Int(1), Value::Int(2)],
        &[],
        vec![
            Instr::PushConst(0),
            Instr::JumpIfFalse(2),
            Instr::PushConst(1),
            Instr::Return,
            Instr::PushConst(2),
            Instr::Return,
        ],
    );
    assert_eq!(run(&p, &Context::default()), Ok(Value::Int(2)));
    let p = program(vec![Value::Int(1)], &[], vec![Instr::PushConst(0), Instr::JumpIfTrue(0)]);
    assert_eq!(run(&p, &Context::default()), Err(ExecutionError::NoSuchOverload));
}

#[test]
fn a_loop_over_a_list() {
    // sums the items of a list in the accumulator
    let p = program(
        vec![Value::Int(0), Value::List(vec![Value::Int(1), Value::Int(2), Value::Int(3)])],
        &[],
        vec![
            Instr::AccuPush(0),
            Instr::PushConst(1),
            Instr::IterInit,
            Instr::IterNext(5),
            Instr::LoadVar(IDX_ACCU),
            Instr::LoadVar(IDX_ITER_ELEM),
            Instr::Add,
            Instr::AccuSet,
            Instr::Jump(-6),
            Instr::IterPop,
            Instr::LoadVar(IDX_ACCU),
            Instr::Return,
        ],
    );
    assert_eq!(run(&p, &Context::default()), Ok(Value::Int(6)));
}

#[test]
fn lists_and_maps_are_built() {
    let p = program(
        vec![text("k"), Value::Int(1), Value::Int(2)],
        &[],
        vec![
            Instr::PushConst(0),
            Instr::PushConst(1),
            Instr::PushConst(2),
            Instr::BuildList(2),
            Instr::BuildMap(1),
            Instr::Select(0),
            Instr::PushConst(1),
            Instr::Index,
            Instr::Return,
        ],
    );
    assert_eq!(run(&p, &Context::default()), Ok(Value::Int(2)));
    let p = program(
        vec![Value::Null, Value::Int(1)],
        &[],
        vec![Instr::PushConst(0), Instr::PushConst(1), Instr::BuildMap(1), Instr::Return],
    );
    assert_eq!(
        run(&p, &Context::default()),
        Err(ExecutionError::UnsupportedKeyType(Value::Null))
    );
}

#[test]
fn regular_expressions_of_the_pool() {
    let mut p = program(
        vec![text("abc")],
        &[],
        vec![Instr::PushConst(0), Instr::MatchesCompiled(0), Instr::Return],
    );
    assert_eq!(p.add_regex("("), None);
    assert_eq!(p.add_regex("^a.c$"), Some(0));
    assert_eq!(run(&p, &Context::default()), Ok(Value::Bool(true)));
}

#[test]
fn builtin_conversions() {
    let host = HostTable::new();
    let one = |id: u16, v: Value| vm::vm_call(id, &[v], &host);
    assert_eq!(one(0, text("h\u{e9}llo")), Ok(Value::Int(5)));
    assert_eq!(one(1, text("-42")), Ok(Value::Int(-42)));
    assert_eq!(one(1, text("+7")), Ok(Value::Int(7)));
    assert_eq!(one(1, Value::UInt(u64::MAX)), Ok(Value::Int(-1)));
    assert_eq!(one(1, Value::Float(3.99f64.to_bits())), Ok(Value::Int(3)));
    assert!(matches!(
        one(1, text("9223372036854775808")),
        Err(ExecutionError::FunctionError { .. })
    ));
    assert!(matches!(one(1, text("x")), Err(ExecutionError::FunctionError { .. })));
    assert_eq!(one(1, Value::Null), Err(ExecutionError::NoSuchOverload));
    assert_eq!(one(2, Value::Int(2)), Ok(Value::Float(2.0f64.to_bits())));
    assert_eq!(
        one(2, text("1.5")),
        Err(ExecutionError::HostNeeded(HostRequest::ParseFloat("1.5".to_string())))
    );
    assert_eq!(one(3, text("18446744073709551615")), Ok(Value::UInt(u64::MAX)));
    assert!(matches!(one(3, text("-1")), Err(ExecutionError::FunctionError { .. })));
    assert_eq!(one(3, Value::Int(-1)), Ok(Value::UInt(u64::MAX)));
    assert_eq!(one(6, Value::Bool(false)), Ok(Value::Bool(false)));
    assert_eq!(one(6, Value::Null), Ok(Value::Bool(true)));
    assert_eq!(
        vm::vm_call(5, &[Value::Int(3), Value::Int(9), Value::Int(4)], &host),
        Ok(Value::Int(9))
    );
    assert_eq!(
        vm::vm_call(5, &[], &host),
        Err(ExecutionError::InvalidArgumentCount { expected: 1, actual: 0 })
    );
    assert!(matches!(one(7, Value::Null), Err(ExecutionError::UndeclaredReference(_))));
    assert!(matches!(
        one(4, Value::Null),
        Err(ExecutionError::HostNeeded(HostRequest::Show(Value::Null)))
    ));
}

#[test]
fn a_parse_error_carries_the_parser_s_words() {
    let host = HostTable::new();
    let expected = "x".parse::<i64>().unwrap_err().to_string();
    assert_eq!(
        vm::vm_call(1, &[text("x")], &host),
        Err(ExecutionError::FunctionError { function: "int".to_string(), message: expected })
    );
    let expected = "".parse::<u64>().unwrap_err().to_string();
    assert_eq!(
        vm::vm_call(3, &[text("")], &host),
        Err(ExecutionError::FunctionError { function: "uint".to_string(), message: expected })
    );
}

#[test]
fn conjunction_and_disjunction_of_values() {
    assert_eq!(
        vm::vm_logical_and(Value::Int(1), Value::Bool(false)),
        Value::Bool(false)
    );
    assert_eq!(vm::vm_logical_and(Value::Bool(true), Value::Int(1)), Value::Int(1));
    assert_eq!(vm::vm_logical_or(Value::Int(1), Value::Bool(true)), Value::Bool(true));
    assert_eq!(vm::vm_logical_or(Value::Bool(false), Value::Null), Value::Null);
}

#[test]
fn order_and_its_converse() {
    let pairs = [
        (Value::Int(1), Value::Int(2)),
        (text("a"), text("b")),
        (Value::Bool(false), Value::Bool(true)),
        (Value::Int(1), Value::Float(1.5f64.to_bits())),
    ];
    for (a, b) in pairs {
        assert_eq!(vm::vm_lt(&a, &b), Ok(true));
        assert_eq!(vm::vm_le(&b, &a), Ok(false));
        assert_eq!(vm::vm_lt(&b, &a), Ok(false));
        assert_eq!(vm::vm_le(&a, &b), Ok(true));
    }
}

#[test]
fn a_field_is_there_where_it_can_be_selected() {
    let mut m = ValueMap::new();
    m.insert(Key::String("a".to_string()), Value::Int(1));
    let v = Value::Dict(m);
    assert!(vm::vm_has_field(&v, "a"));
    assert_eq!(vm::vm_select(&v, "a"), Ok(Value::Int(1)));
    assert!(!vm::vm_has_field(&v, "b"));
    assert_eq!(vm::vm_select(&v, "b"), Err(ExecutionError::NoSuchKey("b".to_string())));
    assert_eq!(vm::vm_select(&Value::Null, "b"), Err(ExecutionError::NoSuchOverload));
}

#[test]
fn indices_count_from_the_start() {
    let list = Value::List(vec![Value::Int(1)]);
    assert_eq!(vm::vm_index(list.clone(), Value::UInt(0)), Ok(Value::Int(1)));
    assert_eq!(
        vm::vm_index(list.clone(), Value::Int(-1)),
        Err(ExecutionError::IndexOutOfBounds(Value::Int(-1)))
    );
    assert_eq!(
        vm::vm_index(list, Value::Null),
        Err(ExecutionError::UnsupportedListIndex(Value::Null))
    );
    assert_eq!(vm::vm_index(text("h\u{e9}"), Value::Int(1)), Ok(text("\u{e9}")));
    assert_eq!(
        vm::vm_index(Value::Dict(ValueMap::new()), Value::Int(1)),
        Err(ExecutionError::NoSuchKey("?".to_string()))
    );
}
