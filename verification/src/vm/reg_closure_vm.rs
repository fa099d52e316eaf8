//! Small register programs as single steps.

use crate::error;
use crate::error::{ExecutionError, Fault, HostTable, Outcome, Req};
use crate::objects::{Val, Value};
use crate::vm::fast_value;
use crate::vm::reg_bytecode::{RegCode, RegInstr, RegProgram};
use crate::vm::reg_fast_vm;
use crate::vm::reg_fast_vm::{RegFastState, FAST_REGISTERS};
use crate::vm::vm;
use vstd::prelude::*;

verus! {

/// A program made ready to be called: a few small programs have forms of their own.
#[derive(Debug)]
pub enum RegClosure {
    /// A comparison of a register with an integer; the instruction says which.
    IntTest(RegInstr, u8, i64),
    /// Whether a register is an integer other than a given one.
    NeInt(u8, i64),
    /// The sum of two registers that have to be integers, into a third.
    AddInt(u8, u8, u8),
    And(u8, u8, u8),
    Return(u8),
    Program(RegProgram),
}

/// What a [`RegClosure`] stands for.
pub enum ClosureModel {
    IntTest(RegInstr, u8, i64),
    NeInt(u8, i64),
    AddInt(u8, u8, u8),
    And(u8, u8, u8),
    Return(u8),
    Program(RegCode),
}

impl View for RegClosure {
    type V = ClosureModel;

    open spec fn view(&self) -> ClosureModel {
        match *self {
            RegClosure::IntTest(i, s, k) => ClosureModel::IntTest(i, s, k),
            RegClosure::NeInt(s, k) => ClosureModel::NeInt(s, k),
            RegClosure::AddInt(a, b, d) => ClosureModel::AddInt(a, b, d),
            RegClosure::And(a, b, d) => ClosureModel::And(a, b, d),
            RegClosure::Return(r) => ClosureModel::Return(r),
            RegClosure::Program(p) => ClosureModel::Program(p@),
        }
    }
}

/// The form of a program of one instruction and the end.
pub open spec fn pair_form(i: RegInstr, halt: u8) -> Option<ClosureModel> {
    match i {
        RegInstr::NeIntConst(d, s, k) => if d == halt {
            Some(ClosureModel::NeInt(s, k))
        } else {
            None
        },
        RegInstr::EqIntConst(d, s, k) | RegInstr::LtIntConst(d, s, k)
        | RegInstr::LeIntConst(d, s, k) | RegInstr::GtIntConst(d, s, k)
        | RegInstr::GeIntConst(d, s, k) => if d == halt {
            Some(ClosureModel::IntTest(i, s, k))
        } else {
            None
        },
        RegInstr::AddInt(d, a, b) => if d == halt {
            Some(ClosureModel::AddInt(a, b, halt))
        } else {
            None
        },
        RegInstr::And(d, a, b) => if d == halt {
            Some(ClosureModel::And(a, b, halt))
        } else {
            None
        },
        _ => None,
    }
}

/// The form of a program.
pub open spec fn closure_of(code: RegCode) -> ClosureModel {
    let s = code.instructions;
    if s.len() == 2 && s[1] is Halt && pair_form(s[0], s[1]->Halt_0) is Some {
        pair_form(s[0], s[1]->Halt_0)->Some_0
    } else if s.len() == 1 && s[0] is Halt {
        ClosureModel::Return(s[0]->Halt_0)
    } else {
        ClosureModel::Program(code)
    }
}

/// The registers that a closure reads and writes are there, and a program ends before the
/// places for values are used up.
pub open spec fn ready(
    c: ClosureModel,
    regs: Seq<Val>,
    host: Seq<(Req, Outcome)>,
    room: nat,
) -> bool {
    match c {
        ClosureModel::IntTest(i, s, _) => s < FAST_REGISTERS && reg_fast_vm::int_test_parts(
            i,
        ) is Some,
        ClosureModel::NeInt(s, _) => s < FAST_REGISTERS,
        ClosureModel::AddInt(a, b, d) => a < FAST_REGISTERS && b < FAST_REGISTERS && d
            < FAST_REGISTERS,
        ClosureModel::And(a, b, d) => a < FAST_REGISTERS && b < FAST_REGISTERS && d
            < FAST_REGISTERS && room > 0,
        ClosureModel::Return(r) => r < FAST_REGISTERS,
        ClosureModel::Program(code) => reg_fast_vm::halts_within(regs, code, host, room),
    }
}

/// What a closure gives, and the registers then. A comparison leaves its result in the
/// register that it read.
pub open spec fn closure_run(
    c: ClosureModel,
    regs: Seq<Val>,
    host: Seq<(Req, Outcome)>,
    room: nat,
) -> (Outcome, Seq<Val>) {
    match c {
        ClosureModel::IntTest(i, s, k) => {
            let v = Val::Bool(reg_fast_vm::int_test(i, regs[s as int], k));
            (Ok(v), regs.update(s as int, v))
        },
        ClosureModel::NeInt(s, k) => {
            let v = Val::Bool(regs[s as int] matches Val::Int(i) && i != k);
            (Ok(v), regs.update(s as int, v))
        },
        ClosureModel::AddInt(a, b, d) => match (regs[a as int], regs[b as int]) {
            (Val::Int(x), Val::Int(y)) => {
                let v = fast_value::held(Val::Int(x.wrapping_add(y)));
                (Ok(v), regs.update(d as int, v))
            },
            _ => (Err(Fault::InternalError("non-int AddInt"@)), regs),
        },
        ClosureModel::And(a, b, d) => {
            let v = fast_value::held(vm::machine_and(regs[a as int], regs[b as int]));
            (Ok(v), regs.update(d as int, v))
        },
        ClosureModel::Return(r) => (Ok(regs[r as int]), regs),
        ClosureModel::Program(code) => reg_fast_vm::result_within(regs, code, host, room),
    }
}

/// Makes a program ready to be called.
pub fn compile_reg_closure(program: &RegProgram) -> (r: RegClosure)
    ensures
        r@ == closure_of(program@),
{
    if program.instructions.len() == 2 {
        let i = program.instructions[0];
        match program.instructions[1] {
            RegInstr::Halt(halt) => {
                match i {
                    RegInstr::NeIntConst(d, s, k) => {
                        if d == halt {
                            return RegClosure::NeInt(s, k);
                        }
                    },
                    RegInstr::EqIntConst(d, s, k) | RegInstr::LtIntConst(d, s, k)
                    | RegInstr::LeIntConst(d, s, k) | RegInstr::GtIntConst(d, s, k)
                    | RegInstr::GeIntConst(d, s, k) => {
                        if d == halt {
                            return RegClosure::IntTest(i, s, k);
                        }
                    },
                    RegInstr::AddInt(d, a, b) => {
                        if d == halt {
                            return RegClosure::AddInt(a, b, halt);
                        }
                    },
                    RegInstr::And(d, a, b) => {
                        if d == halt {
                            return RegClosure::And(a, b, halt);
                        }
                    },
                    _ => {},
                }
            },
            _ => {},
        }
    }
    if program.instructions.len() == 1 {
        match program.instructions[0] {
            RegInstr::Halt(r) => {
                return RegClosure::Return(r);
            },
            _ => {},
        }
    }
    RegClosure::Program(program.clone())
}

impl RegClosure {
    /// Calls the closure on registers.
    pub fn call(&self, state: &mut RegFastState, host: &HostTable) -> (r: Result<
        Value,
        ExecutionError,
    >)
        requires
            old(state).wf(),
            ready(self@, old(state)@, host@, old(state).room()),
        ensures
            final(state).wf(),
            (error::outcome(r), final(state)@) == closure_run(
                self@,
                old(state)@,
                host@,
                old(state).room(),
            ),
    {
        proof {
            state.law_registers();
        }
        match self {
            RegClosure::IntTest(i, s, k) => {
                let b = state.int_test_at(*i, *s, *k);
                state.write_bool(*s, b);
                Ok(Value::Bool(b))
            },
            RegClosure::NeInt(s, k) => {
                let b = match state.int_at(*s) {
                    Some(i) => i != *k,
                    None => false,
                };
                state.write_bool(*s, b);
                Ok(Value::Bool(b))
            },
            RegClosure::AddInt(a, b, d) => match (state.int_at(*a), state.int_at(*b)) {
                (Some(x), Some(y)) => {
                    let v = state.write_int(*d, x.wrapping_add(y));
                    Ok(Value::Int(v))
                },
                _ => Err(ExecutionError::internal("non-int AddInt")),
            },
            RegClosure::And(a, b, d) => {
                let v = state.and_at(*a, *b);
                state.write(*d, v);
                Ok(state.value_at(*d))
            },
            RegClosure::Return(r) => Ok(state.value_at(*r)),
            RegClosure::Program(p) => reg_fast_vm::eval_reg_fast(p, state, host),
        }
    }
}

/// The instructions of a program name registers that are there.
pub open spec fn in_registers(code: RegCode) -> bool {
    forall|k: int|
        0 <= k < code.instructions.len() ==> match #[trigger] code.instructions[k] {
            RegInstr::Halt(r) => r < FAST_REGISTERS,
            RegInstr::AddInt(d, a, b) | RegInstr::And(d, a, b) => d < FAST_REGISTERS && a
                < FAST_REGISTERS && b < FAST_REGISTERS,
            i => match reg_fast_vm::int_test_parts(i) {
                Some((d, s, _)) => d < FAST_REGISTERS && s < FAST_REGISTERS,
                None => true,
            },
        }
}

/// A closure gives what its program gives, on registers that hold the integers that a sum
/// and an inequality ask for.
pub proof fn law_closure_agrees(
    code: RegCode,
    regs: Seq<Val>,
    host: Seq<(Req, Outcome)>,
    room: nat,
)
    requires
        regs.len() == FAST_REGISTERS,
        in_registers(code),
        room >= 2,
        match closure_of(code) {
            ClosureModel::NeInt(s, _) => regs[s as int] is Int,
            ClosureModel::AddInt(a, b, _) => regs[a as int] is Int && regs[b as int] is Int,
            ClosureModel::Program(_) => reg_fast_vm::halts_within(regs, code, host, room),
            _ => true,
        },
    ensures
        ready(closure_of(code), regs, host, room),
        reg_fast_vm::halts_within(regs, code, host, room),
        closure_run(closure_of(code), regs, host, room).0 == reg_fast_vm::result_within(
            regs,
            code,
            host,
            room,
        ).0,
{
    let s = code.instructions;
    match closure_of(code) {
        ClosureModel::Program(_) => {},
        ClosureModel::Return(r) => {
            assert(s[0] is Halt);
        },
        _ => {
            let i = s[0];
            let h = s[1];
            assert(reg_fast_vm::fast_step(i, regs, code, host) is Next);
            let next = reg_fast_vm::fast_step(i, regs, code, host)->Next_1;
            assert(reg_fast_vm::run_fast(1, next, code, host, (room - 1) as nat) is Some);
        },
    }
}

} // verus!
