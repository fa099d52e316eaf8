//! The register machine on values of one machine word.

use crate::error;
use crate::error::{ExecutionError, Fault, HostTable, Outcome, Req};
use crate::objects;
use crate::objects::{Val, Value};
use crate::ops;
use crate::strings;
use crate::vm::bytecode::Instr;
use crate::vm::fast_value;
use crate::vm::fast_value::{FastValue, Payloads, PLACES};
use crate::vm::reg_bytecode::{RegCode, RegInstr, RegProgram};
use crate::vm::reg_vm;
use crate::vm::reg_vm::{RegFlow, RegStep};
use crate::vm::vm;
use vstd::prelude::*;

verus! {

/// How many registers there are.
pub const FAST_REGISTERS: usize = 16;

/// An outcome as a word keeps it.
pub open spec fn held_outcome(o: Outcome) -> Outcome {
    match o {
        Ok(v) => Ok(fast_value::held(v)),
        Err(e) => Err(e),
    }
}

/// The operation of an instruction on two registers, with the registers.
pub open spec fn fast_parts(i: RegInstr) -> Option<(Instr, u8, u8, u8)> {
    match i {
        RegInstr::AddInt(d, a, b) => Some((Instr::Add, d, a, b)),
        RegInstr::SubInt(d, a, b) => Some((Instr::Sub, d, a, b)),
        RegInstr::MulInt(d, a, b) => Some((Instr::Mul, d, a, b)),
        RegInstr::DivInt(d, a, b) => Some((Instr::Div, d, a, b)),
        RegInstr::ModInt(d, a, b) => Some((Instr::Mod, d, a, b)),
        RegInstr::Eq(d, a, b) => Some((Instr::Eq, d, a, b)),
        RegInstr::Ne(d, a, b) => Some((Instr::Ne, d, a, b)),
        RegInstr::Lt(d, a, b) => Some((Instr::Lt, d, a, b)),
        RegInstr::Le(d, a, b) => Some((Instr::Le, d, a, b)),
        RegInstr::Gt(d, a, b) => Some((Instr::Gt, d, a, b)),
        RegInstr::Ge(d, a, b) => Some((Instr::Ge, d, a, b)),
        RegInstr::And(d, a, b) => Some((Instr::LogicalAnd, d, a, b)),
        RegInstr::Or(d, a, b) => Some((Instr::LogicalOr, d, a, b)),
        RegInstr::Index(d, a, b) => Some((Instr::Index, d, a, b)),
        RegInstr::In(d, a, b) => Some((Instr::In, d, a, b)),
        _ => None,
    }
}

/// A test that does not apply does not hold.
pub open spec fn test_holds(t: Result<bool, Fault>) -> bool {
    t matches Ok(b) && b
}

/// A comparison of a register with an integer, with its registers.
pub open spec fn int_test_parts(i: RegInstr) -> Option<(u8, u8, i64)> {
    match i {
        RegInstr::EqIntConst(d, s, k) => Some((d, s, k)),
        RegInstr::NeIntConst(d, s, k) => Some((d, s, k)),
        RegInstr::LtIntConst(d, s, k) => Some((d, s, k)),
        RegInstr::LeIntConst(d, s, k) => Some((d, s, k)),
        RegInstr::GtIntConst(d, s, k) => Some((d, s, k)),
        RegInstr::GeIntConst(d, s, k) => Some((d, s, k)),
        _ => None,
    }
}

/// What a comparison with an integer gives.
pub open spec fn int_test(i: RegInstr, v: Val, k: i64) -> bool {
    match i {
        RegInstr::EqIntConst(_, _, _) => vm::machine_eq(v, Val::Int(k)),
        RegInstr::NeIntConst(_, _, _) => !vm::machine_eq(v, Val::Int(k)),
        RegInstr::LtIntConst(_, _, _) => test_holds(vm::machine_lt(v, Val::Int(k))),
        RegInstr::LeIntConst(_, _, _) => test_holds(vm::machine_le(v, Val::Int(k))),
        RegInstr::GtIntConst(_, _, _) => test_holds(vm::machine_lt(Val::Int(k), v)),
        _ => test_holds(vm::machine_le(Val::Int(k), v)),
    }
}

/// Whether a value is in a container, and the test applies.
pub open spec fn among(v: Val, set: Val) -> bool {
    vm::machine_in(v, set) == Ok::<Val, Fault>(Val::Bool(true))
}

/// Whether a value is in a set of integers: an integer is looked for among the integers of
/// a list, and the rest as elsewhere.
pub open spec fn in_int_set(v: Val, set: Val) -> bool {
    match (v, set) {
        (Val::Int(_), Val::List(items)) => items.contains(v),
        _ => among(v, set),
    }
}

/// Whether a value is in a set of strings: a string is looked for among the strings of a
/// list, and the rest as elsewhere.
pub open spec fn in_str_set(v: Val, set: Val) -> bool {
    match (v, set) {
        (Val::String(_), Val::List(items)) => items.contains(v),
        _ => among(v, set),
    }
}

/// What an instruction on one register gives.
pub open spec fn fast_unary(i: RegInstr, a: Val) -> Outcome {
    match i {
        RegInstr::NegInt(_, _) => ops::negate_result(a),
        RegInstr::Not(_, _) => match vm::bool_of(a) {
            Ok(b) => Ok(Val::Bool(!b)),
            Err(e) => Err(e),
        },
        _ => vm::machine_size(a),
    }
}

/// What is wrong with the constant of an instruction.
pub open spec fn bad_constant(i: RegInstr, c: Val) -> Option<Fault> {
    match (i, c) {
        (_, Val::String(_)) => None,
        (RegInstr::EqStrConst(_, _, _), _) => Some(
            Fault::InternalError("EqStrConst with non-string const"@),
        ),
        (RegInstr::Select(_, _, _), _) => Some(Fault::InternalError("select non-string"@)),
        (RegInstr::HasField(_, _, _), _) => Some(Fault::InternalError("has_field non-string"@)),
        _ => None,
    }
}

/// What an instruction on a register and a constant gives.
pub open spec fn fast_with_constant(i: RegInstr, a: Val, c: Val) -> Outcome {
    match i {
        RegInstr::EqStrConst(_, _, _) => Ok(Val::Bool(a == c)),
        RegInstr::InIntSet(_, _, _) => Ok(Val::Bool(in_int_set(a, c))),
        RegInstr::InStrSet(_, _, _) => Ok(Val::Bool(in_str_set(a, c))),
        RegInstr::Select(_, _, _) => vm::machine_select(a, c->String_0),
        _ => Ok(Val::Bool(vm::machine_has(a, c->String_0))),
    }
}

/// One step of an instruction of the machine.
pub open spec fn fast_step(
    i: RegInstr,
    regs: Seq<Val>,
    code: RegCode,
    host: Seq<(Req, Outcome)>,
) -> RegStep {
    match i {
        RegInstr::Halt(r) => if r < regs.len() {
            RegStep::Done(Ok(regs[r as int]))
        } else {
            RegStep::Stuck
        },
        RegInstr::Move(d, s) => if s < regs.len() {
            reg_vm::stored(regs, d, Ok(regs[s as int]))
        } else {
            RegStep::Stuck
        },
        RegInstr::LoadConst(d, c) => if c < code.constants.len() {
            reg_vm::stored(regs, d, Ok(fast_value::held(code.constants[c as int])))
        } else {
            RegStep::Stuck
        },
        RegInstr::LoadConstInt(d, k) => reg_vm::stored(
            regs,
            d,
            Ok(Val::Int(fast_value::int_held(k))),
        ),
        RegInstr::LoadConstBool(d, b) => reg_vm::stored(regs, d, Ok(Val::Bool(b))),
        RegInstr::NegInt(d, s) | RegInstr::Not(d, s) | RegInstr::Size(d, s) => if s < regs.len() {
            reg_vm::stored(regs, d, held_outcome(fast_unary(i, regs[s as int])))
        } else {
            RegStep::Stuck
        },
        RegInstr::Jump(offset) => RegStep::Next(offset as int, regs),
        RegInstr::JumpIfFalse(r, offset) => reg_vm::branched(regs, r, false, offset),
        RegInstr::JumpIfTrue(r, offset) => reg_vm::branched(regs, r, true, offset),
        RegInstr::EqStrConst(d, s, c) | RegInstr::InIntSet(d, s, c) | RegInstr::InStrSet(d, s, c)
        | RegInstr::Select(d, s, c) | RegInstr::HasField(d, s, c) => if c >= code.constants.len() {
            RegStep::Stuck
        } else {
            match bad_constant(i, code.constants[c as int]) {
                Some(f) => RegStep::Done(Err(f)),
                None => if s < regs.len() {
                    reg_vm::stored(
                        regs,
                        d,
                        held_outcome(
                            fast_with_constant(i, regs[s as int], code.constants[c as int]),
                        ),
                    )
                } else {
                    RegStep::Stuck
                },
            }
        },
        _ => match int_test_parts(i) {
            Some((d, s, k)) => if s < regs.len() {
                reg_vm::stored(regs, d, Ok(Val::Bool(int_test(i, regs[s as int], k))))
            } else {
                RegStep::Stuck
            },
            None => match fast_parts(i) {
                Some((op, d, a, b)) => if a < regs.len() && b < regs.len() {
                    match vm::binary_step(op, regs[a as int], regs[b as int], host) {
                        Some(o) => reg_vm::stored(regs, d, held_outcome(o)),
                        None => RegStep::Stuck,
                    }
                } else {
                    RegStep::Stuck
                },
                None => RegStep::Done(Err(Fault::InternalError("unsupported instruction"@))),
            },
        },
    }
}

/// What the machine ends with in at most `n` steps, and its registers then.
pub open spec fn run_fast(
    pc: int,
    regs: Seq<Val>,
    code: RegCode,
    host: Seq<(Req, Outcome)>,
    n: nat,
) -> Option<(Outcome, Seq<Val>)>
    decreases n,
{
    if n == 0 || pc < 0 || pc >= code.instructions.len() {
        None
    } else {
        match fast_step(code.instructions[pc], regs, code, host) {
            RegStep::Done(o) => Some((o, regs)),
            RegStep::Next(offset, next) => run_fast(
                pc + 1 + offset,
                next,
                code,
                host,
                (n - 1) as nat,
            ),
            RegStep::Stuck => None,
        }
    }
}

/// A run that ends ends in the same way however many more steps are allowed.
pub proof fn law_run_stable(
    pc: int,
    regs: Seq<Val>,
    code: RegCode,
    host: Seq<(Req, Outcome)>,
    n: nat,
    more: nat,
)
    requires
        run_fast(pc, regs, code, host, n) is Some,
        n <= more,
    ensures
        run_fast(pc, regs, code, host, more) == run_fast(pc, regs, code, host, n),
    decreases n,
{
    match fast_step(code.instructions[pc], regs, code, host) {
        RegStep::Next(offset, next) => {
            law_run_stable(pc + 1 + offset, next, code, host, (n - 1) as nat, (more - 1) as nat);
        },
        _ => {},
    }
}

/// The program ends from registers within a number of steps, without getting stuck.
pub open spec fn halts_within(
    regs: Seq<Val>,
    code: RegCode,
    host: Seq<(Req, Outcome)>,
    limit: nat,
) -> bool {
    run_fast(0, regs, code, host, limit) is Some
}

/// What a program gives that ends within a number of steps, and the registers then.
pub open spec fn result_within(
    regs: Seq<Val>,
    code: RegCode,
    host: Seq<(Req, Outcome)>,
    limit: nat,
) -> (Outcome, Seq<Val>) {
    run_fast(0, regs, code, host, limit)->Some_0
}

/// The registers of the machine, and the values that have places. Made once and used for
/// many evaluations.
#[derive(Debug)]
pub struct RegFastState {
    regs: Vec<FastValue>,
    places: Payloads,
}

/// What a [`RegFastState`] stands for: the values of its registers.
impl View for RegFastState {
    type V = Seq<Val>;

    closed spec fn view(&self) -> Seq<Val> {
        words_view(self.regs@, self.places@)
    }
}

pub open spec fn words_view(regs: Seq<FastValue>, places: Seq<Val>) -> Seq<Val> {
    regs.map_values(|w: FastValue| fast_value::word_value(w.0, places))
}

pub open spec fn all_placed(regs: Seq<FastValue>, places: Seq<Val>) -> bool {
    forall|k: int| 0 <= k < regs.len() ==> fast_value::placed((#[trigger] regs[k]).0, places)
}

/// Only values get places that have no room in a word.
pub open spec fn all_large(places: Seq<Val>) -> bool {
    forall|p: int|
        0 <= p < places.len() ==> !((#[trigger] places[p]) is Int || places[p] is Bool
            || places[p] is Null)
}

/// The registers after one was written and a value may have got a place.
proof fn lemma_written(
    regs: Seq<FastValue>,
    places: Seq<Val>,
    after: Seq<Val>,
    d: int,
    w: FastValue,
    v: Val,
)
    requires
        0 <= d < regs.len(),
        all_placed(regs, places),
        after == places || exists|x: Val| after == #[trigger] places.push(x),
        fast_value::placed(w.0, after),
        fast_value::word_value(w.0, after) == v,
    ensures
        all_placed(regs.update(d, w), after),
        words_view(regs.update(d, w), after) == words_view(regs, places).update(d, v),
{
    let next = regs.update(d, w);
    assert forall|k: int| 0 <= k < next.len() implies fast_value::placed(
        (#[trigger] next[k]).0,
        after,
    ) && fast_value::word_value(next[k].0, after) == (if k == d {
        v
    } else {
        fast_value::word_value(regs[k].0, places)
    }) by {
        if k != d && after != places {
            let x = choose|x: Val| after == #[trigger] places.push(x);
            fast_value::law_word_stable(regs[k].0, places, x);
        }
    }
    assert(words_view(next, after) =~= words_view(regs, places).update(d, v));
}

fn parts_of(i: RegInstr) -> (r: Option<(Instr, u8, u8, u8)>)
    ensures
        r == fast_parts(i),
{
    match i {
        RegInstr::AddInt(d, a, b) => Some((Instr::Add, d, a, b)),
        RegInstr::SubInt(d, a, b) => Some((Instr::Sub, d, a, b)),
        RegInstr::MulInt(d, a, b) => Some((Instr::Mul, d, a, b)),
        RegInstr::DivInt(d, a, b) => Some((Instr::Div, d, a, b)),
        RegInstr::ModInt(d, a, b) => Some((Instr::Mod, d, a, b)),
        RegInstr::Eq(d, a, b) => Some((Instr::Eq, d, a, b)),
        RegInstr::Ne(d, a, b) => Some((Instr::Ne, d, a, b)),
        RegInstr::Lt(d, a, b) => Some((Instr::Lt, d, a, b)),
        RegInstr::Le(d, a, b) => Some((Instr::Le, d, a, b)),
        RegInstr::Gt(d, a, b) => Some((Instr::Gt, d, a, b)),
        RegInstr::Ge(d, a, b) => Some((Instr::Ge, d, a, b)),
        RegInstr::And(d, a, b) => Some((Instr::LogicalAnd, d, a, b)),
        RegInstr::Or(d, a, b) => Some((Instr::LogicalOr, d, a, b)),
        RegInstr::Index(d, a, b) => Some((Instr::Index, d, a, b)),
        RegInstr::In(d, a, b) => Some((Instr::In, d, a, b)),
        _ => None,
    }
}

fn int_parts_of(i: RegInstr) -> (r: Option<(u8, u8, i64)>)
    ensures
        r == int_test_parts(i),
{
    match i {
        RegInstr::EqIntConst(d, s, k) => Some((d, s, k)),
        RegInstr::NeIntConst(d, s, k) => Some((d, s, k)),
        RegInstr::LtIntConst(d, s, k) => Some((d, s, k)),
        RegInstr::LeIntConst(d, s, k) => Some((d, s, k)),
        RegInstr::GtIntConst(d, s, k) => Some((d, s, k)),
        RegInstr::GeIntConst(d, s, k) => Some((d, s, k)),
        _ => None,
    }
}

fn or_false(r: Result<bool, ExecutionError>) -> (b: bool)
    ensures
        b == test_holds(vm::bool_outcome(r)),
{
    match r {
        Ok(b) => b,
        Err(_) => false,
    }
}

/// Compares a word with an integer, without leaving the word where it is one.
pub fn fast_int_test(i: RegInstr, w: FastValue, k: i64, places: &Payloads) -> (r: bool)
    requires
        int_test_parts(i) is Some,
    ensures
        r == int_test(i, fast_value::word_value(w.0, places@), k),
{
    match w.as_int() {
        Some(x) => match i {
            RegInstr::EqIntConst(_, _, _) => x == k,
            RegInstr::NeIntConst(_, _, _) => x != k,
            RegInstr::LtIntConst(_, _, _) => x < k,
            RegInstr::LeIntConst(_, _, _) => x <= k,
            RegInstr::GtIntConst(_, _, _) => x > k,
            _ => x >= k,
        },
        None => {
            let v = w.to_value(places);
            let c = Value::Int(k);
            match i {
                RegInstr::EqIntConst(_, _, _) => vm::vm_eq(&v, &c),
                RegInstr::NeIntConst(_, _, _) => !vm::vm_eq(&v, &c),
                RegInstr::LtIntConst(_, _, _) => or_false(vm::vm_lt(&v, &c)),
                RegInstr::LeIntConst(_, _, _) => or_false(vm::vm_le(&v, &c)),
                RegInstr::GtIntConst(_, _, _) => or_false(vm::vm_lt(&c, &v)),
                _ => or_false(vm::vm_le(&c, &v)),
            }
        },
    }
}

fn is_among(v: Value, set: &Value) -> (r: bool)
    ensures
        r == among(v@, set@),
{
    match vm::vm_in(v, set.clone()) {
        Ok(Value::Bool(b)) => b,
        _ => false,
    }
}

fn fast_in_int_set(v: Value, set: &Value) -> (r: bool)
    ensures
        r == in_int_set(v@, set@),
{
    broadcast use objects::group_value_views;

    match (&v, set) {
        (Value::Int(n), Value::List(items)) => {
            let ghost vs = objects::values_view(items@);
            let mut i: usize = 0;
            while i < items.len()
                invariant
                    i <= items@.len(),
                    vs == objects::values_view(items@),
                    set@ == Val::List(vs),
                    v@ == Val::Int(*n),
                    forall|j: int| 0 <= j < i ==> #[trigger] vs[j] != v@,
                decreases items@.len() - i,
            {
                assert(vs[i as int] == items@[i as int]@);
                match &items[i] {
                    Value::Int(k) => {
                        if *k == *n {
                            assert(vs.contains(v@));
                            return true;
                        }
                    },
                    _ => {},
                }
                i += 1;
            }
            false
        },
        _ => is_among(v, set),
    }
}

fn fast_in_str_set(v: Value, set: &Value) -> (r: bool)
    ensures
        r == in_str_set(v@, set@),
{
    broadcast use objects::group_value_views;

    match (&v, set) {
        (Value::String(n), Value::List(items)) => {
            let ghost vs = objects::values_view(items@);
            let mut i: usize = 0;
            while i < items.len()
                invariant
                    i <= items@.len(),
                    vs == objects::values_view(items@),
                    set@ == Val::List(vs),
                    v@ == Val::String(n@),
                    forall|j: int| 0 <= j < i ==> #[trigger] vs[j] != v@,
                decreases items@.len() - i,
            {
                assert(vs[i as int] == items@[i as int]@);
                match &items[i] {
                    Value::String(k) => {
                        if strings::str_eq(k.as_str(), n.as_str()) {
                            assert(vs.contains(v@));
                            return true;
                        }
                    },
                    _ => {},
                }
                i += 1;
            }
            false
        },
        _ => is_among(v, set),
    }
}

fn unary(i: RegInstr, a: Value) -> (r: Result<Value, ExecutionError>)
    ensures
        error::outcome(r) == fast_unary(i, a@),
{
    match i {
        RegInstr::NegInt(_, _) => vm::vm_neg(a),
        RegInstr::Not(_, _) => match vm::try_bool(a) {
            Ok(b) => Ok(Value::Bool(!b)),
            Err(e) => Err(e),
        },
        _ => vm::vm_size(a),
    }
}

fn constant_fault(i: RegInstr, c: &Value) -> (r: Option<ExecutionError>)
    ensures
        match r {
            Some(e) => bad_constant(i, c@) == Some(e@),
            None => bad_constant(i, c@) is None,
        },
{
    match (i, c) {
        (_, Value::String(_)) => None,
        (RegInstr::EqStrConst(_, _, _), _) => Some(
            ExecutionError::internal("EqStrConst with non-string const"),
        ),
        (RegInstr::Select(_, _, _), _) => Some(ExecutionError::internal("select non-string")),
        (RegInstr::HasField(_, _, _), _) => Some(ExecutionError::internal("has_field non-string")),
        _ => None,
    }
}

fn with_constant(i: RegInstr, a: Value, c: &Value) -> (r: Result<Value, ExecutionError>)
    requires
        bad_constant(i, c@) is None,
        i is EqStrConst || i is InIntSet || i is InStrSet || i is Select || i is HasField,
    ensures
        error::outcome(r) == fast_with_constant(i, a@, c@),
{
    match (i, c) {
        (RegInstr::InIntSet(_, _, _), _) => Ok(Value::Bool(fast_in_int_set(a, c))),
        (RegInstr::InStrSet(_, _, _), _) => Ok(Value::Bool(fast_in_str_set(a, c))),
        (RegInstr::EqStrConst(_, _, _), _) => Ok(Value::Bool(objects::values_same(&a, c))),
        (RegInstr::Select(_, _, _), Value::String(s)) => vm::vm_select(&a, s.as_str()),
        (_, Value::String(s)) => Ok(Value::Bool(vm::vm_has_field(&a, s.as_str()))),
        _ => Ok(Value::Null),
    }
}

/// The conjunction of two words.
pub fn vm_logical_and_fast(lhs: FastValue, rhs: FastValue, places: &Payloads) -> (r: Value)
    ensures
        r@ == vm::machine_and(
            fast_value::word_value(lhs.0, places@),
            fast_value::word_value(rhs.0, places@),
        ),
{
    match (lhs.as_bool(), rhs.as_bool()) {
        (Some(a), Some(b)) => Value::Bool(a && b),
        _ => vm::vm_logical_and(lhs.to_value(places), rhs.to_value(places)),
    }
}

/// The disjunction of two words.
pub fn vm_logical_or_fast(lhs: FastValue, rhs: FastValue, places: &Payloads) -> (r: Value)
    ensures
        r@ == vm::machine_or(
            fast_value::word_value(lhs.0, places@),
            fast_value::word_value(rhs.0, places@),
        ),
{
    match (lhs.as_bool(), rhs.as_bool()) {
        (Some(a), Some(b)) => Value::Bool(a || b),
        _ => vm::vm_logical_or(lhs.to_value(places), rhs.to_value(places)),
    }
}

/// An operation on two words, without leaving the words where both are integers.
pub fn fast_binary(op: Instr, a: FastValue, b: FastValue, places: &Payloads, host: &HostTable) -> (r:
    Option<Result<Value, ExecutionError>>)
    ensures
        match r {
            Some(o) => vm::binary_step(
                op,
                fast_value::word_value(a.0, places@),
                fast_value::word_value(b.0, places@),
                host@,
            ) == Some(error::outcome(o)),
            None => vm::binary_step(
                op,
                fast_value::word_value(a.0, places@),
                fast_value::word_value(b.0, places@),
                host@,
            ) is None,
        },
{
    match op {
        Instr::LogicalAnd => {
            return Some(Ok(vm_logical_and_fast(a, b, places)));
        },
        Instr::LogicalOr => {
            return Some(Ok(vm_logical_or_fast(a, b, places)));
        },
        _ => {},
    }
    match (a.as_int(), b.as_int()) {
        (Some(x), Some(y)) => match op {
            Instr::Add => Some(Ok(Value::Int(x.wrapping_add(y)))),
            Instr::Sub => Some(Ok(Value::Int(x.wrapping_sub(y)))),
            Instr::Mul => Some(Ok(Value::Int(x.wrapping_mul(y)))),
            _ => vm::binary(op, Value::Int(x), Value::Int(y), host),
        },
        _ => vm::binary(op, a.to_value(places), b.to_value(places), host),
    }
}

impl RegFastState {
    /// All registers are there, and what they name has places.
    pub closed spec fn wf(&self) -> bool {
        &&& self.regs@.len() == FAST_REGISTERS
        &&& all_placed(self.regs@, self.places@)
        &&& all_large(self.places@)
        &&& self.places@.len() <= PLACES
    }

    /// How many more values can get places.
    pub closed spec fn room(&self) -> nat {
        (PLACES - self.places@.len()) as nat
    }

    /// There are always as many registers.
    pub proof fn law_registers(&self)
        requires
            self.wf(),
        ensures
            self@.len() == FAST_REGISTERS,
    {
    }

    /// Registers with nulls.
    pub fn new() -> (r: RegFastState)
        ensures
            r.wf(),
            r.room() == PLACES,
            r@ == Seq::new(FAST_REGISTERS as nat, |k: int| Val::Null),
    {
        let mut regs: Vec<FastValue> = Vec::new();
        let places = Payloads::new();
        let mut i: usize = 0;
        while i < FAST_REGISTERS
            invariant
                i <= FAST_REGISTERS,
                regs@.len() == i,
                forall|k: int|
                    0 <= k < i ==> fast_value::word_value((#[trigger] regs@[k]).0, places@)
                        == Val::Null,
                all_placed(regs@, places@),
            decreases FAST_REGISTERS - i,
        {
            regs.push(FastValue::null());
            i += 1;
        }
        let r = RegFastState { regs, places };
        assert(r@ =~= Seq::new(FAST_REGISTERS as nat, |k: int| Val::Null));
        r
    }

    /// Writes a register.
    pub fn write(&mut self, d: u8, v: Value)
        requires
            old(self).wf(),
            old(self).room() > 0,
            d < FAST_REGISTERS,
        ensures
            final(self).wf(),
            final(self).room() >= old(self).room() - 1,
            final(self)@ == old(self)@.update(d as int, fast_value::held(v@)),
    {
        let ghost before = self.places@;
        let w = FastValue::from_value(v, &mut self.places);
        proof {
            if self.places@ != before {
                assert(self.places@ == before.push(v@));
            }
            lemma_written(
                self.regs@,
                before,
                self.places@,
                d as int,
                w,
                fast_value::held(v@),
            );
        }
        self.regs.set(d as usize, w);
    }

    /// Writes the first registers.
    pub fn set_vars(&mut self, vars: &[Value])
        requires
            old(self).wf(),
            old(self).room() >= FAST_REGISTERS,
        ensures
            final(self).wf(),
            final(self).room() >= old(self).room() - FAST_REGISTERS,
            final(self)@ == Seq::new(
                FAST_REGISTERS as nat,
                |k: int|
                    if k < vars@.len() {
                        fast_value::held(vars@[k]@)
                    } else {
                        old(self)@[k]
                    },
            ),
    {
        let mut i: usize = 0;
        while i < vars.len() && i < FAST_REGISTERS
            invariant
                i <= vars@.len(),
                i <= FAST_REGISTERS,
                self.wf(),
                old(self).wf(),
                old(self).room() >= FAST_REGISTERS,
                self.room() >= old(self).room() - i,
                self@ == Seq::new(
                    FAST_REGISTERS as nat,
                    |k: int|
                        if k < i {
                            fast_value::held(vars@[k]@)
                        } else {
                            old(self)@[k]
                        },
                ),
            decreases FAST_REGISTERS - i,
        {
            let ghost before = self@;
            self.write(i as u8, vars[i].clone());
            i += 1;
            assert(self@ =~= Seq::new(
                FAST_REGISTERS as nat,
                |k: int|
                    if k < i {
                        fast_value::held(vars@[k]@)
                    } else {
                        old(self)@[k]
                    },
            ));
        }
        assert(self@ =~= Seq::new(
            FAST_REGISTERS as nat,
            |k: int|
                if k < vars@.len() {
                    fast_value::held(vars@[k]@)
                } else {
                    old(self)@[k]
                },
        ));
    }

    /// The value of a register.
    pub fn value(&self, r: u8) -> (v: Option<Value>)
        requires
            self.wf(),
        ensures
            match v {
                Some(v) => r < FAST_REGISTERS && v@ == self@[r as int],
                None => r >= FAST_REGISTERS,
            },
    {
        if (r as usize) < self.regs.len() {
            Some(self.regs[r as usize].to_value(&self.places))
        } else {
            None
        }
    }

    /// The value of a register that is there.
    pub fn value_at(&self, r: u8) -> (v: Value)
        requires
            self.wf(),
            r < FAST_REGISTERS,
        ensures
            v@ == self@[r as int],
    {
        self.regs[r as usize].to_value(&self.places)
    }

    /// Compares a register with an integer.
    pub fn int_test_at(&self, i: RegInstr, r: u8, k: i64) -> (b: bool)
        requires
            self.wf(),
            r < FAST_REGISTERS,
            int_test_parts(i) is Some,
        ensures
            b == int_test(i, self@[r as int], k),
    {
        fast_int_test(i, self.regs[r as usize], k, &self.places)
    }

    /// The conjunction of two registers.
    pub fn and_at(&self, a: u8, b: u8) -> (v: Value)
        requires
            self.wf(),
            a < FAST_REGISTERS,
            b < FAST_REGISTERS,
        ensures
            v@ == vm::machine_and(self@[a as int], self@[b as int]),
    {
        vm_logical_and_fast(self.regs[a as usize], self.regs[b as usize], &self.places)
    }

    /// Whether a register is a given string.
    pub fn is_str_at(&self, r: u8, expected: &str) -> (b: bool)
        requires
            self.wf(),
            r < FAST_REGISTERS,
        ensures
            b == (self@[r as int] == Val::String(expected@)),
    {
        self.regs[r as usize].eq_str(expected, &self.places)
    }

    /// Writes a word that names no place into a register.
    fn write_word(&mut self, d: u8, w: FastValue, v: Ghost<Val>)
        requires
            old(self).wf(),
            d < FAST_REGISTERS,
            forall|places: Seq<Val>| #[trigger] fast_value::placed(w.0, places),
            forall|places: Seq<Val>| #[trigger] fast_value::word_value(w.0, places) == v@,
        ensures
            final(self).wf(),
            final(self).room() == old(self).room(),
            final(self)@ == old(self)@.update(d as int, v@),
    {
        proof {
            lemma_written(self.regs@, self.places@, self.places@, d as int, w, v@);
        }
        self.regs.set(d as usize, w);
    }

    /// Writes a boolean into a register.
    pub fn write_bool(&mut self, d: u8, b: bool)
        requires
            old(self).wf(),
            d < FAST_REGISTERS,
        ensures
            final(self).wf(),
            final(self).room() == old(self).room(),
            final(self)@ == old(self)@.update(d as int, Val::Bool(b)),
    {
        self.write_word(d, FastValue::from_bool(b), Ghost(Val::Bool(b)));
    }

    /// Writes an integer into a register, and gives what the register keeps of it.
    pub fn write_int(&mut self, d: u8, i: i64) -> (r: i64)
        requires
            old(self).wf(),
            d < FAST_REGISTERS,
        ensures
            final(self).wf(),
            final(self).room() == old(self).room(),
            r == fast_value::int_held(i),
            final(self)@ == old(self)@.update(d as int, Val::Int(r)),
    {
        let w = FastValue::from_int(i);
        let ghost held = fast_value::int_held(i);
        assert(fast_value::word_value(w.0, self.places@) == Val::Int(held));
        let r = match w.as_int() {
            Some(r) => r,
            None => i,
        };
        proof {
            if w.0 < 0x8000_0000_0000_0000 {
                assert(fast_value::word_value(w.0, Seq::empty()) == Val::Int(held));
            }
        }
        self.write_word(d, w, Ghost(Val::Int(held)));
        r
    }

    /// The integer of a register.
    pub fn int_at(&self, r: u8) -> (v: Option<i64>)
        requires
            self.wf(),
            r < FAST_REGISTERS,
        ensures
            match v {
                Some(i) => self@[r as int] == Val::Int(i),
                None => !(self@[r as int] is Int),
            },
    {
        self.regs[r as usize].as_int()
    }

    fn store(&mut self, d: u8, o: Result<Value, ExecutionError>) -> (r: RegFlow)
        requires
            old(self).wf(),
            old(self).room() > 0,
        ensures
            final(self).wf(),
            final(self).room() >= old(self).room() - 1,
            reg_vm::flowed(
                reg_vm::stored(old(self)@, d, held_outcome(error::outcome(o))),
                r,
                old(self)@,
                final(self)@,
            ),
    {
        match o {
            Err(e) => RegFlow::Done(Err(e)),
            Ok(v) => {
                if (d as usize) < FAST_REGISTERS {
                    self.write(d, v);
                    RegFlow::Next(0)
                } else {
                    RegFlow::Stuck
                }
            },
        }
    }

    fn branch(&self, r: u8, on: bool, offset: i16) -> (f: RegFlow)
        requires
            self.wf(),
        ensures
            reg_vm::flowed(reg_vm::branched(self@, r, on, offset), f, self@, self@),
    {
        if (r as usize) < self.regs.len() {
            let w = self.regs[r as usize];
            let t = match w.as_bool() {
                Some(b) => Ok(b),
                None => vm::try_bool(w.to_value(&self.places)),
            };
            match t {
                Err(e) => RegFlow::Done(Err(e)),
                Ok(b) => if b == on {
                    RegFlow::Next(offset)
                } else {
                    RegFlow::Next(0)
                },
            }
        } else {
            RegFlow::Stuck
        }
    }

    /// One step of an instruction.
    fn step(&mut self, i: RegInstr, program: &RegProgram, host: &HostTable) -> (r: RegFlow)
        requires
            old(self).wf(),
            old(self).room() > 0,
        ensures
            final(self).wf(),
            final(self).room() >= old(self).room() - 1,
            reg_vm::flowed(
                fast_step(i, old(self)@, program@, host@),
                r,
                old(self)@,
                final(self)@,
            ),
    {
        let n = self.regs.len();
        match i {
            RegInstr::Halt(r) => match self.value(r) {
                Some(v) => RegFlow::Done(Ok(v)),
                None => RegFlow::Stuck,
            },
            RegInstr::Move(d, s) => {
                if (s as usize) < n {
                    if (d as usize) < n {
                        let w = self.regs[s as usize];
                        proof {
                            lemma_written(
                                self.regs@,
                                self.places@,
                                self.places@,
                                d as int,
                                w,
                                self@[s as int],
                            );
                        }
                        self.regs.set(d as usize, w);
                        RegFlow::Next(0)
                    } else {
                        RegFlow::Stuck
                    }
                } else {
                    RegFlow::Stuck
                }
            },
            RegInstr::LoadConst(d, c) => {
                if (c as usize) < program.constants.len() {
                    self.store(d, Ok(program.constants[c as usize].clone()))
                } else {
                    RegFlow::Stuck
                }
            },
            RegInstr::LoadConstInt(d, k) => self.store(d, Ok(Value::Int(k))),
            RegInstr::LoadConstBool(d, b) => self.store(d, Ok(Value::Bool(b))),
            RegInstr::NegInt(d, s) | RegInstr::Not(d, s) | RegInstr::Size(d, s) => {
                match self.value(s) {
                    Some(v) => self.store(d, unary(i, v)),
                    None => RegFlow::Stuck,
                }
            },
            RegInstr::Jump(offset) => RegFlow::Next(offset),
            RegInstr::JumpIfFalse(r, offset) => self.branch(r, false, offset),
            RegInstr::JumpIfTrue(r, offset) => self.branch(r, true, offset),
            RegInstr::EqStrConst(d, s, c) | RegInstr::InIntSet(d, s, c)
            | RegInstr::InStrSet(d, s, c) | RegInstr::Select(d, s, c)
            | RegInstr::HasField(d, s, c) => {
                if (c as usize) < program.constants.len() {
                    let c = &program.constants[c as usize];
                    match constant_fault(i, c) {
                        Some(e) => RegFlow::Done(Err(e)),
                        None => match self.value(s) {
                            Some(v) => self.store(d, with_constant(i, v, c)),
                            None => RegFlow::Stuck,
                        },
                    }
                } else {
                    RegFlow::Stuck
                }
            },
            _ => match int_parts_of(i) {
                Some((d, s, k)) => {
                    if (s as usize) < n {
                        let b = fast_int_test(i, self.regs[s as usize], k, &self.places);
                        self.store(d, Ok(Value::Bool(b)))
                    } else {
                        RegFlow::Stuck
                    }
                },
                None => match parts_of(i) {
                    Some((op, d, a, b)) => {
                        if (a as usize) < n && (b as usize) < n {
                            match fast_binary(
                                op,
                                self.regs[a as usize],
                                self.regs[b as usize],
                                &self.places,
                                host,
                            ) {
                                Some(o) => self.store(d, o),
                                None => RegFlow::Stuck,
                            }
                        } else {
                            RegFlow::Stuck
                        }
                    },
                    None => RegFlow::Done(
                        Err(ExecutionError::internal("unsupported instruction")),
                    ),
                },
            },
        }
    }
}

impl Default for RegFastState {
    fn default() -> (r: RegFastState)
        ensures
            r.wf(),
            r.room() == PLACES,
            r@ == Seq::new(FAST_REGISTERS as nat, |k: int| Val::Null),
    {
        RegFastState::new()
    }
}

/// Evaluates a program that ends before the places for values are used up.
pub fn eval_reg_fast(program: &RegProgram, state: &mut RegFastState, host: &HostTable) -> (r: Result<
    Value,
    ExecutionError,
>)
    requires
        old(state).wf(),
        halts_within(old(state)@, program@, host@, old(state).room()),
    ensures
        final(state).wf(),
        (error::outcome(r), final(state)@) == result_within(
            old(state)@,
            program@,
            host@,
            old(state).room(),
        ),
        forall|k: nat| #[trigger]
            halts_within(old(state)@, program@, host@, k) ==> final(state).room() + k >= old(
                state,
            ).room(),
{
    let ghost code = program@;
    let ghost mut n: nat = state.room();
    let ghost mut t: nat = 0;
    let mut pc: i128 = 0;
    loop
        invariant
            code == program@,
            state.wf(),
            n <= state.room(),
            state.room() + t >= old(state).room(),
            forall|k: nat| #[trigger]
                halts_within(old(state)@, program@, host@, k) ==> k >= t && run_fast(
                    pc as int,
                    state@,
                    code,
                    host@,
                    (k - t) as nat,
                ) is Some,
            run_fast(pc as int, state@, code, host@, n) is Some,
            run_fast(pc as int, state@, code, host@, n) == run_fast(
                0,
                old(state)@,
                code,
                host@,
                old(state).room(),
            ),
        decreases n,
    {
        let len = program.instructions.len();
        assert(0 <= pc < len);
        let i = program.instructions[pc as usize];
        match state.step(i, program, host) {
            RegFlow::Next(offset) => {
                pc = pc + 1 + offset as i128;
                proof {
                    n = (n - 1) as nat;
                    t = t + 1;
                }
            },
            RegFlow::Done(o) => {
                return o;
            },
            RegFlow::Stuck => {},
        }
    }
}

/// Evaluates a program for at most a number of steps, and no more than there are places
/// for; there is no result where it has not ended by then or got stuck.
pub fn eval_reg_fast_within(
    program: &RegProgram,
    state: &mut RegFastState,
    host: &HostTable,
    steps: u64,
) -> (r: Option<Result<Value, ExecutionError>>)
    requires
        old(state).wf(),
    ensures
        final(state).wf(),
        match r {
            Some(o) => run_fast(0, old(state)@, program@, host@, steps as nat) == Some(
                (error::outcome(o), final(state)@),
            ),
            None => run_fast(
                0,
                old(state)@,
                program@,
                host@,
                if steps <= old(state).room() {
                    steps as nat
                } else {
                    old(state).room()
                },
            ) is None,
        },
{
    let ghost code = program@;
    let room = PLACES - state.places.len() as u64;
    let limit = if steps <= room {
        steps
    } else {
        room
    };
    let mut left: u64 = limit;
    let mut pc: i128 = 0;
    while left > 0
        invariant
            limit <= steps,
            left <= limit,
            code == program@,
            state.wf(),
            left <= state.room(),
            -0x8000 <= pc <= usize::MAX + 0x8000,
            run_fast(pc as int, state@, code, host@, left as nat) == run_fast(
                0,
                old(state)@,
                code,
                host@,
                limit as nat,
            ),
            limit == (if steps <= old(state).room() {
                steps as nat
            } else {
                old(state).room()
            }),
        decreases left,
    {
        if pc < 0 || pc >= program.instructions.len() as i128 {
            return None;
        }
        let i = program.instructions[pc as usize];
        match state.step(i, program, host) {
            RegFlow::Next(offset) => {
                pc = pc + 1 + offset as i128;
                left -= 1;
            },
            RegFlow::Done(o) => {
                proof {
                    law_run_stable(0, old(state)@, code, host@, limit as nat, steps as nat);
                }
                return Some(o);
            },
            RegFlow::Stuck => {
                return None;
            },
        }
    }
    None
}

} // verus!
