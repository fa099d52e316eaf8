//! The register machine on full values.

use crate::context::Context;
use crate::error;
use crate::error::{ExecutionError, Fault, HostTable, Outcome, Req};
use crate::objects;
use crate::objects::{Val, Value};
use crate::ops;
use crate::vm::bytecode::Instr;
use crate::vm::reg_bytecode::{RegCode, RegInstr, RegProgram};
use crate::vm::vm;
use vstd::prelude::*;

verus! {

/// How many registers there are.
pub const REGISTERS: usize = 8;

/// What one step comes to: a jump from the next instruction with the registers after it,
/// the end, or nothing, where the program is malformed.
pub enum RegStep {
    Next(int, Seq<Val>),
    Done(Outcome),
    Stuck,
}

/// A result goes to a register, or ends the program where it is an error.
pub open spec fn stored(regs: Seq<Val>, dst: u8, o: Outcome) -> RegStep {
    match o {
        Err(e) => RegStep::Done(Err(e)),
        Ok(v) => if dst < regs.len() {
            RegStep::Next(0, regs.update(dst as int, v))
        } else {
            RegStep::Stuck
        },
    }
}

/// The operation of an instruction on two registers, with the registers.
pub open spec fn binary_parts(i: RegInstr) -> Option<(Instr, u8, u8, u8)> {
    match i {
        RegInstr::Add(d, a, b) => Some((Instr::Add, d, a, b)),
        RegInstr::Sub(d, a, b) => Some((Instr::Sub, d, a, b)),
        RegInstr::Mul(d, a, b) => Some((Instr::Mul, d, a, b)),
        RegInstr::Div(d, a, b) => Some((Instr::Div, d, a, b)),
        RegInstr::Mod(d, a, b) => Some((Instr::Mod, d, a, b)),
        RegInstr::Eq(d, a, b) => Some((Instr::Eq, d, a, b)),
        RegInstr::Ne(d, a, b) => Some((Instr::Ne, d, a, b)),
        RegInstr::Lt(d, a, b) => Some((Instr::Lt, d, a, b)),
        RegInstr::Le(d, a, b) => Some((Instr::Le, d, a, b)),
        RegInstr::Gt(d, a, b) => Some((Instr::Gt, d, a, b)),
        RegInstr::Ge(d, a, b) => Some((Instr::Ge, d, a, b)),
        RegInstr::LogicalAnd(d, a, b) => Some((Instr::LogicalAnd, d, a, b)),
        RegInstr::LogicalOr(d, a, b) => Some((Instr::LogicalOr, d, a, b)),
        RegInstr::Index(d, a, b) => Some((Instr::Index, d, a, b)),
        RegInstr::In(d, a, b) => Some((Instr::In, d, a, b)),
        _ => None,
    }
}

/// A string among constants. There is no answer where there is no such constant.
pub open spec fn field_name(constants: Seq<Val>, f: u16) -> Option<Option<Seq<char>>> {
    if f < constants.len() {
        match constants[f as int] {
            Val::String(s) => Some(Some(s)),
            _ => Some(None),
        }
    } else {
        None
    }
}

/// A jump that is taken where a register is `on`.
pub open spec fn branched(regs: Seq<Val>, r: u8, on: bool, offset: i16) -> RegStep {
    if r < regs.len() {
        match vm::bool_of(regs[r as int]) {
            Err(e) => RegStep::Done(Err(e)),
            Ok(b) => RegStep::Next(
                if b == on {
                    offset as int
                } else {
                    0
                },
                regs,
            ),
        }
    } else {
        RegStep::Stuck
    }
}

/// What an instruction on one register gives, where it is one.
pub open spec fn unary_result(i: RegInstr, a: Val) -> Outcome {
    match i {
        RegInstr::Move(_, _) => Ok(a),
        RegInstr::Neg(_, _) => ops::negate_result(a),
        RegInstr::Not(_, _) => match vm::bool_of(a) {
            Ok(b) => Ok(Val::Bool(!b)),
            Err(e) => Err(e),
        },
        _ => vm::machine_size(a),
    }
}

/// One step of an instruction of the register machine.
pub open spec fn reg_step(
    i: RegInstr,
    regs: Seq<Val>,
    code: RegCode,
    vars: Seq<Val>,
    host: Seq<(Req, Outcome)>,
) -> RegStep {
    match i {
        RegInstr::Halt(r) => if r < regs.len() {
            RegStep::Done(Ok(regs[r as int]))
        } else {
            RegStep::Stuck
        },
        RegInstr::LoadVar(d, v) => if v < vars.len() {
            stored(regs, d, Ok(vars[v as int]))
        } else {
            RegStep::Stuck
        },
        RegInstr::LoadConst(d, c) => if c < code.constants.len() {
            stored(regs, d, Ok(code.constants[c as int]))
        } else {
            RegStep::Stuck
        },
        RegInstr::Move(d, s) | RegInstr::Neg(d, s) | RegInstr::Not(d, s)
        | RegInstr::Size(d, s) => if s < regs.len() {
            stored(regs, d, unary_result(i, regs[s as int]))
        } else {
            RegStep::Stuck
        },
        RegInstr::Jump(offset) => RegStep::Next(offset as int, regs),
        RegInstr::JumpIfFalse(r, offset) => branched(regs, r, false, offset),
        RegInstr::JumpIfTrue(r, offset) => branched(regs, r, true, offset),
        RegInstr::Select(d, o, f) => match field_name(code.constants, f) {
            None => RegStep::Stuck,
            Some(None) => RegStep::Done(Err(Fault::InternalError("select non-string"@))),
            Some(Some(name)) => if o < regs.len() {
                stored(regs, d, vm::machine_select(regs[o as int], name))
            } else {
                RegStep::Stuck
            },
        },
        RegInstr::HasField(d, o, f) => match field_name(code.constants, f) {
            None => RegStep::Stuck,
            Some(None) => RegStep::Done(Err(Fault::InternalError("has_field non-string"@))),
            Some(Some(name)) => if o < regs.len() {
                stored(regs, d, Ok(Val::Bool(vm::machine_has(regs[o as int], name))))
            } else {
                RegStep::Stuck
            },
        },
        RegInstr::Call(d, id, argc) => if d + 1 + argc <= regs.len() {
            stored(
                regs,
                d,
                vm::builtin_result(id, regs.subrange(d + 1, d + 1 + argc), host),
            )
        } else {
            RegStep::Stuck
        },
        _ => match binary_parts(i) {
            Some((op, d, a, b)) => if a < regs.len() && b < regs.len() {
                match vm::binary_step(op, regs[a as int], regs[b as int], host) {
                    Some(o) => stored(regs, d, o),
                    None => RegStep::Stuck,
                }
            } else {
                RegStep::Stuck
            },
            None => RegStep::Done(Err(Fault::InternalError("unsupported instruction"@))),
        },
    }
}

/// What the machine ends with in at most `n` steps, and its registers then.
pub open spec fn run_regs(
    pc: int,
    regs: Seq<Val>,
    code: RegCode,
    vars: Seq<Val>,
    host: Seq<(Req, Outcome)>,
    n: nat,
) -> Option<(Outcome, Seq<Val>)>
    decreases n,
{
    if n == 0 || pc < 0 || pc >= code.instructions.len() {
        None
    } else {
        match reg_step(code.instructions[pc], regs, code, vars, host) {
            RegStep::Done(o) => Some((o, regs)),
            RegStep::Next(offset, next) => run_regs(
                pc + 1 + offset,
                next,
                code,
                vars,
                host,
                (n - 1) as nat,
            ),
            RegStep::Stuck => None,
        }
    }
}

/// A run that ends ends in the same way however many more steps are allowed.
pub proof fn law_run_stable(
    pc: int,
    regs: Seq<Val>,
    code: RegCode,
    vars: Seq<Val>,
    host: Seq<(Req, Outcome)>,
    n: nat,
    more: nat,
)
    requires
        run_regs(pc, regs, code, vars, host, n) is Some,
        n <= more,
    ensures
        run_regs(pc, regs, code, vars, host, more) == run_regs(pc, regs, code, vars, host, n),
    decreases n,
{
    match reg_step(code.instructions[pc], regs, code, vars, host) {
        RegStep::Next(offset, next) => {
            law_run_stable(
                pc + 1 + offset,
                next,
                code,
                vars,
                host,
                (n - 1) as nat,
                (more - 1) as nat,
            );
        },
        _ => {},
    }
}

/// The program ends from registers without getting stuck.
pub open spec fn halts(
    regs: Seq<Val>,
    code: RegCode,
    vars: Seq<Val>,
    host: Seq<(Req, Outcome)>,
) -> bool {
    exists|n: nat| #[trigger] run_regs(0, regs, code, vars, host, n) is Some
}

/// What a program that ends gives, and the registers then.
pub open spec fn result_of(
    regs: Seq<Val>,
    code: RegCode,
    vars: Seq<Val>,
    host: Seq<(Req, Outcome)>,
) -> (Outcome, Seq<Val>) {
    let n = choose|n: nat| #[trigger] run_regs(0, regs, code, vars, host, n) is Some;
    run_regs(0, regs, code, vars, host, n)->Some_0
}

/// However many steps are allowed, a program that ends gives its one result.
pub proof fn law_result_unique(
    regs: Seq<Val>,
    code: RegCode,
    vars: Seq<Val>,
    host: Seq<(Req, Outcome)>,
    n: nat,
)
    requires
        run_regs(0, regs, code, vars, host, n) is Some,
    ensures
        halts(regs, code, vars, host),
        run_regs(0, regs, code, vars, host, n) == Some(result_of(regs, code, vars, host)),
{
    let k = choose|k: nat| #[trigger] run_regs(0, regs, code, vars, host, k) is Some;
    if n <= k {
        law_run_stable(0, regs, code, vars, host, n, k);
    } else {
        law_run_stable(0, regs, code, vars, host, k, n);
    }
}

/// What one step came to.
#[derive(Debug)]
pub enum RegFlow {
    Next(i16),
    Done(Result<Value, ExecutionError>),
    Stuck,
}

/// That a step went as the machine's rules say.
pub open spec fn flowed(s: RegStep, r: RegFlow, before: Seq<Val>, after: Seq<Val>) -> bool {
    match r {
        RegFlow::Next(offset) => s == RegStep::Next(offset as int, after),
        RegFlow::Done(o) => s == RegStep::Done(error::outcome(o)) && after == before,
        RegFlow::Stuck => s == RegStep::Stuck,
    }
}

fn store(regs: &mut Vec<Value>, dst: u8, o: Result<Value, ExecutionError>) -> (r: RegFlow)
    ensures
        flowed(
            stored(objects::values_view(old(regs)@), dst, error::outcome(o)),
            r,
            objects::values_view(old(regs)@),
            objects::values_view(final(regs)@),
        ),
        final(regs)@.len() == old(regs)@.len(),
{
    match o {
        Err(e) => RegFlow::Done(Err(e)),
        Ok(v) => {
            if (dst as usize) < regs.len() {
                regs.set(dst as usize, v);
                assert(objects::values_view(regs@) =~= objects::values_view(old(regs)@).update(
                    dst as int,
                    v@,
                ));
                RegFlow::Next(0)
            } else {
                RegFlow::Stuck
            }
        },
    }
}

fn parts(i: RegInstr) -> (r: Option<(Instr, u8, u8, u8)>)
    ensures
        r == binary_parts(i),
{
    match i {
        RegInstr::Add(d, a, b) => Some((Instr::Add, d, a, b)),
        RegInstr::Sub(d, a, b) => Some((Instr::Sub, d, a, b)),
        RegInstr::Mul(d, a, b) => Some((Instr::Mul, d, a, b)),
        RegInstr::Div(d, a, b) => Some((Instr::Div, d, a, b)),
        RegInstr::Mod(d, a, b) => Some((Instr::Mod, d, a, b)),
        RegInstr::Eq(d, a, b) => Some((Instr::Eq, d, a, b)),
        RegInstr::Ne(d, a, b) => Some((Instr::Ne, d, a, b)),
        RegInstr::Lt(d, a, b) => Some((Instr::Lt, d, a, b)),
        RegInstr::Le(d, a, b) => Some((Instr::Le, d, a, b)),
        RegInstr::Gt(d, a, b) => Some((Instr::Gt, d, a, b)),
        RegInstr::Ge(d, a, b) => Some((Instr::Ge, d, a, b)),
        RegInstr::LogicalAnd(d, a, b) => Some((Instr::LogicalAnd, d, a, b)),
        RegInstr::LogicalOr(d, a, b) => Some((Instr::LogicalOr, d, a, b)),
        RegInstr::Index(d, a, b) => Some((Instr::Index, d, a, b)),
        RegInstr::In(d, a, b) => Some((Instr::In, d, a, b)),
        _ => None,
    }
}

fn branch(regs: &Vec<Value>, reg: u8, on: bool, offset: i16) -> (r: RegFlow)
    ensures
        flowed(
            branched(objects::values_view(regs@), reg, on, offset),
            r,
            objects::values_view(regs@),
            objects::values_view(regs@),
        ),
{
    if (reg as usize) < regs.len() {
        match vm::try_bool_ref(&regs[reg as usize]) {
            Err(e) => RegFlow::Done(Err(e)),
            Ok(b) => if b == on {
                RegFlow::Next(offset)
            } else {
                RegFlow::Next(0)
            },
        }
    } else {
        RegFlow::Stuck
    }
}

fn unary(i: RegInstr, a: &Value) -> (r: Result<Value, ExecutionError>)
    ensures
        error::outcome(r) == unary_result(i, a@),
{
    match i {
        RegInstr::Move(_, _) => Ok(a.clone()),
        RegInstr::Neg(_, _) => vm::vm_neg(a.clone()),
        RegInstr::Not(_, _) => match vm::try_bool_ref(a) {
            Ok(b) => Ok(Value::Bool(!b)),
            Err(e) => Err(e),
        },
        _ => vm::vm_size(a.clone()),
    }
}

/// One step of an instruction.
fn step(
    i: RegInstr,
    regs: &mut Vec<Value>,
    program: &RegProgram,
    vars: &Vec<Value>,
    host: &HostTable,
) -> (r: RegFlow)
    ensures
        flowed(
            reg_step(
                i,
                objects::values_view(old(regs)@),
                program@,
                objects::values_view(vars@),
                host@,
            ),
            r,
            objects::values_view(old(regs)@),
            objects::values_view(final(regs)@),
        ),
        final(regs)@.len() == old(regs)@.len(),
{
    let n = regs.len();
    match i {
        RegInstr::Halt(r) => if (r as usize) < n {
            RegFlow::Done(Ok(regs[r as usize].clone()))
        } else {
            RegFlow::Stuck
        },
        RegInstr::LoadVar(d, v) => if (v as usize) < vars.len() {
            store(regs, d, Ok(vars[v as usize].clone()))
        } else {
            RegFlow::Stuck
        },
        RegInstr::LoadConst(d, c) => if (c as usize) < program.constants.len() {
            store(regs, d, Ok(program.constants[c as usize].clone()))
        } else {
            RegFlow::Stuck
        },
        RegInstr::Move(d, s) | RegInstr::Neg(d, s) | RegInstr::Not(d, s)
        | RegInstr::Size(d, s) => if (s as usize) < n {
            let o = unary(i, &regs[s as usize]);
            store(regs, d, o)
        } else {
            RegFlow::Stuck
        },
        RegInstr::Jump(offset) => RegFlow::Next(offset),
        RegInstr::JumpIfFalse(r, offset) => branch(regs, r, false, offset),
        RegInstr::JumpIfTrue(r, offset) => branch(regs, r, true, offset),
        RegInstr::Select(d, o, f) => if (f as usize) < program.constants.len() {
            match &program.constants[f as usize] {
                Value::String(name) => if (o as usize) < n {
                    let v = vm::vm_select(&regs[o as usize], name.as_str());
                    store(regs, d, v)
                } else {
                    RegFlow::Stuck
                },
                _ => RegFlow::Done(Err(ExecutionError::internal("select non-string"))),
            }
        } else {
            RegFlow::Stuck
        },
        RegInstr::HasField(d, o, f) => if (f as usize) < program.constants.len() {
            match &program.constants[f as usize] {
                Value::String(name) => if (o as usize) < n {
                    let b = vm::vm_has_field(&regs[o as usize], name.as_str());
                    store(regs, d, Ok(Value::Bool(b)))
                } else {
                    RegFlow::Stuck
                },
                _ => RegFlow::Done(Err(ExecutionError::internal("has_field non-string"))),
            }
        } else {
            RegFlow::Stuck
        },
        RegInstr::Call(d, id, argc) => if d as u64 + 1 + argc as u64 <= n as u64 {
            let mut args: Vec<Value> = Vec::new();
            let ghost want = objects::values_view(regs@).subrange(d + 1, d + 1 + argc);
            let mut k: usize = 0;
            while k < argc as usize
                invariant
                    k <= argc,
                    d + 1 + argc <= regs@.len(),
                    *regs == *old(regs),
                    want == objects::values_view(regs@).subrange(d + 1, d + 1 + argc),
                    args@.len() == k,
                    forall|j: int| 0 <= j < k ==> (#[trigger] args@[j])@ == want[j],
                decreases argc - k,
            {
                args.push(regs[d as usize + 1 + k].clone());
                k += 1;
            }
            assert(objects::values_view(args@) =~= want);
            let o = vm::vm_call(id, args.as_slice(), host);
            store(regs, d, o)
        } else {
            RegFlow::Stuck
        },
        _ => match parts(i) {
            Some((op, d, a, b)) => if (a as usize) < n && (b as usize) < n {
                match vm::binary(op, regs[a as usize].clone(), regs[b as usize].clone(), host) {
                    Some(o) => store(regs, d, o),
                    None => RegFlow::Stuck,
                }
            } else {
                RegFlow::Stuck
            },
            None => RegFlow::Done(Err(ExecutionError::internal("unsupported instruction"))),
        },
    }
}

/// The registers, and the variables of a program.
#[derive(Debug)]
pub struct RegState {
    pub regs: Vec<Value>,
    pub vars: Vec<Value>,
}

impl RegState {
    /// All registers are there.
    pub open spec fn wf(&self) -> bool {
        self.regs@.len() == REGISTERS
    }

    /// Registers with nulls, and no variables.
    pub fn new() -> (r: RegState)
        ensures
            r.wf(),
            objects::values_view(r.regs@) == Seq::new(REGISTERS as nat, |i: int| Val::Null),
            r.vars@.len() == 0,
    {
        let mut regs: Vec<Value> = Vec::new();
        let mut i: usize = 0;
        while i < REGISTERS
            invariant
                i <= REGISTERS,
                regs@.len() == i,
                forall|j: int| 0 <= j < i ==> (#[trigger] regs@[j])@ == Val::Null,
            decreases REGISTERS - i,
        {
            regs.push(Value::Null);
            i += 1;
        }
        assert(objects::values_view(regs@) =~= Seq::new(REGISTERS as nat, |i: int| Val::Null));
        RegState { regs, vars: Vec::new() }
    }

    /// Reads the program's variables from a scope; one that is not there is null.
    pub fn bind_vars(&mut self, program: &RegProgram, ctx: &Context)
        ensures
            final(self).regs == old(self).regs,
            objects::values_view(final(self).vars@) == vm::bound_vars(program@.var_names, ctx@),
    {
        let ghost want = vm::bound_vars(program@.var_names, ctx@);
        let mut vars: Vec<Value> = Vec::new();
        let mut i: usize = 0;
        while i < program.var_names.len()
            invariant
                i <= program.var_names@.len(),
                vars@.len() == i,
                want == vm::bound_vars(program@.var_names, ctx@),
                forall|j: int| 0 <= j < i ==> (#[trigger] vars@[j])@ == want[j],
            decreases program.var_names@.len() - i,
        {
            let v = match ctx.get_variable(program.var_names[i].as_str()) {
                Some(v) => v.clone(),
                None => Value::Null,
            };
            vars.push(v);
            i += 1;
        }
        assert(objects::values_view(vars@) =~= want);
        self.vars = vars;
    }

    /// Sets the variables.
    pub fn set_vars(&mut self, vars: Vec<Value>)
        ensures
            final(self).regs == old(self).regs,
            final(self).vars == vars,
    {
        self.vars = vars;
    }
}

impl Default for RegState {
    fn default() -> (r: RegState)
        ensures
            r.wf(),
            objects::values_view(r.regs@) == Seq::new(REGISTERS as nat, |i: int| Val::Null),
            r.vars@.len() == 0,
    {
        RegState::new()
    }
}

/// Evaluates a program that ends, from the registers and variables of a state.
pub fn eval_reg(program: &RegProgram, state: &mut RegState, host: &HostTable) -> (r: Result<
    Value,
    ExecutionError,
>)
    requires
        halts(
            objects::values_view(old(state).regs@),
            program@,
            objects::values_view(old(state).vars@),
            host@,
        ),
    ensures
        (error::outcome(r), objects::values_view(final(state).regs@)) == result_of(
            objects::values_view(old(state).regs@),
            program@,
            objects::values_view(old(state).vars@),
            host@,
        ),
        final(state).vars == old(state).vars,
        final(state).regs@.len() == old(state).regs@.len(),
{
    let ghost code = program@;
    let ghost vars = objects::values_view(state.vars@);
    let ghost regs = objects::values_view(state.regs@);
    let ghost mut n: nat = choose|n: nat| #[trigger] run_regs(0, regs, code, vars, host@, n) is Some;
    let ghost total = n;
    let mut pc: i128 = 0;
    loop
        invariant
            code == program@,
            vars == objects::values_view(state.vars@),
            state.vars == old(state).vars,
            state.regs@.len() == old(state).regs@.len(),
            regs == objects::values_view(old(state).regs@),
            run_regs(pc as int, objects::values_view(state.regs@), code, vars, host@, n) is Some,
            run_regs(pc as int, objects::values_view(state.regs@), code, vars, host@, n)
                == run_regs(0, regs, code, vars, host@, total),
            run_regs(0, regs, code, vars, host@, total) == Some(
                result_of(regs, code, vars, host@),
            ),
        decreases n,
    {
        let len = program.instructions.len();
        assert(0 <= pc < len);
        let i = program.instructions[pc as usize];
        match step(i, &mut state.regs, program, &state.vars, host) {
            RegFlow::Next(offset) => {
                pc = pc + 1 + offset as i128;
                proof {
                    n = (n - 1) as nat;
                }
            },
            RegFlow::Done(o) => {
                return o;
            },
            RegFlow::Stuck => {},
        }
    }
}

/// Evaluates a program for at most a number of steps; there is no result where it has not
/// ended by then or got stuck.
pub fn eval_reg_within(
    program: &RegProgram,
    state: &mut RegState,
    host: &HostTable,
    steps: u64,
) -> (r: Option<Result<Value, ExecutionError>>)
    ensures
        match r {
            Some(o) => run_regs(
                0,
                objects::values_view(old(state).regs@),
                program@,
                objects::values_view(old(state).vars@),
                host@,
                steps as nat,
            ) == Some((error::outcome(o), objects::values_view(final(state).regs@))),
            None => run_regs(
                0,
                objects::values_view(old(state).regs@),
                program@,
                objects::values_view(old(state).vars@),
                host@,
                steps as nat,
            ) is None,
        },
        final(state).vars == old(state).vars,
        final(state).regs@.len() == old(state).regs@.len(),
{
    let ghost code = program@;
    let ghost vars = objects::values_view(state.vars@);
    let ghost regs = objects::values_view(state.regs@);
    let mut left: u64 = steps;
    let mut pc: i128 = 0;
    while left > 0
        invariant
            left <= steps,
            code == program@,
            vars == objects::values_view(state.vars@),
            state.vars == old(state).vars,
            state.regs@.len() == old(state).regs@.len(),
            regs == objects::values_view(old(state).regs@),
            -0x8000 <= pc <= usize::MAX + 0x8000,
            run_regs(pc as int, objects::values_view(state.regs@), code, vars, host@, left as nat)
                == run_regs(0, regs, code, vars, host@, steps as nat),
        decreases left,
    {
        if pc < 0 || pc >= program.instructions.len() as i128 {
            return None;
        }
        let i = program.instructions[pc as usize];
        match step(i, &mut state.regs, program, &state.vars, host) {
            RegFlow::Next(offset) => {
                pc = pc + 1 + offset as i128;
                left -= 1;
            },
            RegFlow::Done(o) => {
                return Some(o);
            },
            RegFlow::Stuck => {
                return None;
            },
        }
    }
    None
}

} // verus!
