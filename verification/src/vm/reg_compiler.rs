//! The compiler for the register machine.

use crate::common::ast;
use crate::common::ast::{CallExpr, Expr, Expression, LiteralValue, Operator, SelectExpr};
use crate::error::{Fault, HostTable, Outcome, Req};
use crate::objects;
use crate::objects::{Val, Value};
use crate::ops;
use crate::semantics;
use crate::strings;
use crate::vm::bytecode::Instr;
use crate::vm::reg_bytecode::{RegCode, RegInstr, RegProgram};
use crate::vm::reg_vm;
use crate::vm::reg_vm::{RegStep, REGISTERS};
use crate::vm::vm;
use std::sync::Arc;
use vstd::prelude::*;
use vstd::string::*;

verus! {

/// How many constants, and how many variables, an index can tell apart.
pub const POOL: usize = 0x1_0000;

/// The operation that a call of two arguments stands for.
pub open spec fn binary_op(op: Option<Operator>) -> Option<Instr> {
    match op {
        Some(Operator::Add) => Some(Instr::Add),
        Some(Operator::Substract) => Some(Instr::Sub),
        Some(Operator::Multiply) => Some(Instr::Mul),
        Some(Operator::Divide) => Some(Instr::Div),
        Some(Operator::Modulo) => Some(Instr::Mod),
        Some(Operator::Equals) => Some(Instr::Eq),
        Some(Operator::NotEquals) => Some(Instr::Ne),
        Some(Operator::Less) => Some(Instr::Lt),
        Some(Operator::LessEquals) => Some(Instr::Le),
        Some(Operator::Greater) => Some(Instr::Gt),
        Some(Operator::GreaterEquals) => Some(Instr::Ge),
        Some(Operator::LogicalAnd) => Some(Instr::LogicalAnd),
        Some(Operator::LogicalOr) => Some(Instr::LogicalOr),
        Some(Operator::In) => Some(Instr::In),
        Some(Operator::Index) => Some(Instr::Index),
        _ => None,
    }
}

/// An operation that is computed ahead of time where both operands are constants.
pub open spec fn foldable(i: Instr) -> bool {
    !(i is LogicalAnd || i is LogicalOr || i is In || i is Index)
}

/// The operation that a call of one argument stands for.
pub open spec fn unary_op(name: Seq<char>) -> Option<Instr> {
    if name == "!_"@ {
        Some(Instr::Not)
    } else if name == "-_"@ {
        Some(Instr::Neg)
    } else if name == "size"@ {
        Some(Instr::Size)
    } else {
        None
    }
}

/// The functions of one argument that the machine has and the compiler has no form for.
pub open spec fn builtin_name(name: Seq<char>) -> bool {
    name == "int"@ || name == "double"@ || name == "uint"@ || name == "string"@ || name == "max"@
        || name == "@not_strictly_false"@
}

/// What an operation on one value gives.
pub open spec fn unary_outcome(i: Instr, a: Val) -> Outcome {
    match i {
        Instr::Not => match vm::bool_of(a) {
            Ok(b) => Ok(Val::Bool(!b)),
            Err(e) => Err(e),
        },
        Instr::Neg => ops::negate_result(a),
        _ => vm::machine_size(a),
    }
}

/// The value of an expression that is a constant.
pub open spec fn constant(e: Expr) -> Option<Val> {
    match e {
        Expr::Literal(l) => Some(semantics::literal_value(l)),
        _ => None,
    }
}

/// The value that a call of two constants is replaced by.
pub open spec fn folded_two(name: Seq<char>, a: Val, b: Val) -> Option<Val> {
    match binary_op(ast::operator_of(name)) {
        Some(i) => if foldable(i) {
            match vm::binary_step(i, a, b, Seq::empty()) {
                Some(Ok(v)) => Some(v),
                _ => None,
            }
        } else {
            None
        },
        None => None,
    }
}

/// The value that a call of one constant is replaced by.
pub open spec fn folded_one(name: Seq<char>, a: Val) -> Option<Val> {
    match unary_op(name) {
        Some(i) => if i is Size {
            None
        } else {
            match unary_outcome(i, a) {
                Ok(v) => Some(v),
                Err(_) => None,
            }
        },
        None => None,
    }
}

/// The value that a call is replaced by ahead of time.
pub open spec fn folded(c: CallExpr) -> Option<Val> {
    if c.args@.len() == 2 {
        match (constant(c.args@[0].expr), constant(c.args@[1].expr)) {
            (Some(a), Some(b)) => folded_two(c.func_name@, a, b),
            _ => None,
        }
    } else if c.args@.len() == 1 {
        match constant(c.args@[0].expr) {
            Some(a) => folded_one(c.func_name@, a),
            None => None,
        }
    } else {
        None
    }
}

/// Why an expression is refused, where it is.
pub open spec fn refusal(e: Expr) -> Option<Seq<char>>
    decreases e,
{
    match e {
        Expr::Literal(_) => None,
        Expr::Ident(_) => None,
        Expr::Call(c) => if c.args@.len() == 2 {
            if folded(c) is Some {
                None
            } else if refusal(c.args@[0].expr) is Some {
                refusal(c.args@[0].expr)
            } else if refusal(c.args@[1].expr) is Some {
                refusal(c.args@[1].expr)
            } else if binary_op(ast::operator_of(c.func_name@)) is None {
                Some("unsupported binary op: "@ + c.func_name@)
            } else {
                None
            }
        } else if c.args@.len() == 1 {
            if folded(c) is Some {
                None
            } else if refusal(c.args@[0].expr) is Some {
                refusal(c.args@[0].expr)
            } else if unary_op(c.func_name@) is Some {
                None
            } else if builtin_name(c.func_name@) {
                Some("builtin calls in reg VM need special encoding"@)
            } else {
                Some("unsupported unary op: "@ + c.func_name@)
            }
        } else {
            Some("unsupported call arity: "@ + strings::decimal(c.args@.len()))
        },
        Expr::Select(s) => refusal(s.operand.expr),
        Expr::List(_) => Some("list literals not supported in reg VM"@),
        Expr::Dict(_) => Some("map literals not supported in reg VM"@),
        Expr::Comprehension(_) => Some("comprehensions not supported in reg VM"@),
        Expr::Struct(_) => Some("unsupported expr: struct"@),
        Expr::Unspecified => Some("unsupported expr: unspecified"@),
    }
}

pub open spec fn larger(a: nat, b: nat) -> nat {
    if a >= b {
        a
    } else {
        b
    }
}

/// How many registers it takes to compile an expression, up to where it is refused.
pub open spec fn registers(e: Expr) -> nat
    decreases e,
{
    match e {
        Expr::Literal(_) => 1,
        Expr::Ident(_) => 1,
        Expr::Call(c) => if c.args@.len() == 2 {
            if folded(c) is Some {
                1
            } else if refusal(c.args@[0].expr) is Some {
                registers(c.args@[0].expr)
            } else if refusal(c.args@[1].expr) is Some {
                larger(registers(c.args@[0].expr), 1 + registers(c.args@[1].expr))
            } else {
                larger(
                    registers(c.args@[0].expr),
                    larger(1 + registers(c.args@[1].expr), 3),
                )
            }
        } else if c.args@.len() == 1 {
            if folded(c) is Some {
                1
            } else if refusal(c.args@[0].expr) is Some {
                registers(c.args@[0].expr)
            } else {
                larger(registers(c.args@[0].expr), 2)
            }
        } else {
            0
        },
        Expr::Select(s) => if refusal(s.operand.expr) is Some {
            registers(s.operand.expr)
        } else {
            larger(registers(s.operand.expr), 2)
        },
        _ => 0,
    }
}

/// A pool with an entry, which is there once.
pub open spec fn added<T>(pool: Seq<T>, v: T) -> Seq<T> {
    if pool.contains(v) {
        pool
    } else {
        pool.push(v)
    }
}

/// The constants, each of them once, with those of an expression behind them, up to where it
/// is refused.
pub open spec fn consts_of(e: Expr, pool: Seq<Val>) -> Seq<Val>
    decreases e,
{
    match e {
        Expr::Literal(l) => added(pool, semantics::literal_value(l)),
        Expr::Call(c) => if c.args@.len() == 2 {
            if folded(c) is Some {
                added(pool, folded(c)->0)
            } else if refusal(c.args@[0].expr) is Some {
                consts_of(c.args@[0].expr, pool)
            } else {
                consts_of(c.args@[1].expr, consts_of(c.args@[0].expr, pool))
            }
        } else if c.args@.len() == 1 {
            if folded(c) is Some {
                added(pool, folded(c)->0)
            } else {
                consts_of(c.args@[0].expr, pool)
            }
        } else {
            pool
        },
        Expr::Select(s) => consts_of(s.operand.expr, added(pool, Val::String(s.field@))),
        _ => pool,
    }
}

/// A quotient of constants that does not fit comes up.
pub open spec fn overflows(e: Expr) -> bool
    decreases e,
{
    match e {
        Expr::Call(c) => if c.args@.len() == 2 {
            if folded(c) is Some {
                false
            } else {
                ||| {
                    &&& constant(c.args@[0].expr) matches Some(a)
                    &&& constant(c.args@[1].expr) matches Some(b)
                    &&& binary_op(ast::operator_of(c.func_name@)) matches Some(i)
                    &&& (i is Div || i is Mod)
                    &&& vm::quotient_overflows(a, b)
                }
                ||| overflows(c.args@[0].expr)
                ||| refusal(c.args@[0].expr) is None && overflows(c.args@[1].expr)
            }
        } else if c.args@.len() == 1 {
            overflows(c.args@[0].expr)
        } else {
            false
        },
        Expr::Select(s) => overflows(s.operand.expr),
        _ => false,
    }
}

/// The names, each of them once, with those of an expression behind them, up to where it is
/// refused.
pub open spec fn names_of(e: Expr, names: Seq<Seq<char>>) -> Seq<Seq<char>>
    decreases e,
{
    match e {
        Expr::Ident(n) => added(names, n@),
        Expr::Call(c) => if c.args@.len() == 2 {
            if folded(c) is Some {
                names
            } else if refusal(c.args@[0].expr) is Some {
                names_of(c.args@[0].expr, names)
            } else {
                names_of(c.args@[1].expr, names_of(c.args@[0].expr, names))
            }
        } else if c.args@.len() == 1 {
            names_of(c.args@[0].expr, names)
        } else {
            names
        },
        Expr::Select(s) => names_of(s.operand.expr, names),
        _ => names,
    }
}

/// The pools only grow, and hold nothing twice if they did not.
pub proof fn law_pools_grow(e: Expr, pool: Seq<Val>, names: Seq<Seq<char>>)
    ensures
        consts_of(e, pool).len() >= pool.len(),
        names_of(e, names).len() >= names.len(),
        pool.no_duplicates() ==> consts_of(e, pool).no_duplicates(),
        names.no_duplicates() ==> names_of(e, names).no_duplicates(),
    decreases e,
{
    match e {
        Expr::Call(c) => {
            if c.args@.len() == 2 {
                let a = c.args@[0].expr;
                law_pools_grow(a, pool, names);
                law_pools_grow(c.args@[1].expr, consts_of(a, pool), names_of(a, names));
            } else if c.args@.len() == 1 {
                law_pools_grow(c.args@[0].expr, pool, names);
            }
        },
        Expr::Select(s) => {
            law_pools_grow(s.operand.expr, added(pool, Val::String(s.field@)), names);
        },
        _ => {},
    }
}

/// What an expression means on the register machine: all operands are evaluated, from left
/// to right. There is no meaning where a quotient does not fit.
pub open spec fn meaning(e: Expr, env: Map<Seq<char>, Val>, host: Seq<(Req, Outcome)>) -> Option<
    Outcome,
>
    decreases e,
{
    match e {
        Expr::Literal(l) => Some(Ok(semantics::literal_value(l))),
        Expr::Ident(n) => Some(Ok(env[n@])),
        Expr::Call(c) => if c.args@.len() == 2 {
            match meaning(c.args@[0].expr, env, host) {
                Some(Ok(a)) => match meaning(c.args@[1].expr, env, host) {
                    Some(Ok(b)) => match binary_op(ast::operator_of(c.func_name@)) {
                        Some(i) => vm::binary_step(i, a, b, host),
                        None => None,
                    },
                    o => o,
                },
                o => o,
            }
        } else if c.args@.len() == 1 {
            match meaning(c.args@[0].expr, env, host) {
                Some(Ok(a)) => match unary_op(c.func_name@) {
                    Some(i) => Some(unary_outcome(i, a)),
                    None => None,
                },
                o => o,
            }
        } else {
            None
        },
        Expr::Select(s) => match meaning(s.operand.expr, env, host) {
            Some(Ok(a)) => Some(
                if s.test {
                    Ok(Val::Bool(vm::machine_has(a, s.field@)))
                } else {
                    vm::machine_select(a, s.field@)
                },
            ),
            o => o,
        },
        _ => None,
    }
}

/// What a run of instructions without jumps comes to.
pub enum Block {
    Regs(Seq<Val>),
    Fail(Fault),
    Stuck,
}

/// An instruction that goes on to the next one.
pub open spec fn straight(i: RegInstr) -> bool {
    match i {
        RegInstr::LoadVar(_, _) | RegInstr::LoadConst(_, _) | RegInstr::Neg(_, _)
        | RegInstr::Not(_, _) | RegInstr::Size(_, _) | RegInstr::Select(_, _, _)
        | RegInstr::HasField(_, _, _) => true,
        _ => reg_vm::binary_parts(i) is Some,
    }
}

/// One instruction.
pub open spec fn one(
    i: RegInstr,
    regs: Seq<Val>,
    constants: Seq<Val>,
    vars: Seq<Val>,
    host: Seq<(Req, Outcome)>,
) -> Block {
    match reg_vm::reg_step(
        i,
        regs,
        RegCode { constants, var_names: Seq::empty(), instructions: Seq::empty() },
        vars,
        host,
    ) {
        RegStep::Next(_, r) => Block::Regs(r),
        RegStep::Done(Err(f)) => Block::Fail(f),
        _ => Block::Stuck,
    }
}

/// Instructions one after the other.
pub open spec fn block(
    s: Seq<RegInstr>,
    regs: Seq<Val>,
    constants: Seq<Val>,
    vars: Seq<Val>,
    host: Seq<(Req, Outcome)>,
) -> Block
    decreases s.len(),
{
    if s.len() == 0 {
        Block::Regs(regs)
    } else {
        match block(s.drop_last(), regs, constants, vars, host) {
            Block::Regs(r) => one(s.last(), r, constants, vars, host),
            b => b,
        }
    }
}

proof fn lemma_block_concat(
    a: Seq<RegInstr>,
    b: Seq<RegInstr>,
    regs: Seq<Val>,
    constants: Seq<Val>,
    vars: Seq<Val>,
    host: Seq<(Req, Outcome)>,
)
    ensures
        block(a + b, regs, constants, vars, host) == (match block(a, regs, constants, vars, host) {
            Block::Regs(r) => block(b, r, constants, vars, host),
            x => x,
        }),
    decreases b.len(),
{
    if b.len() == 0 {
        assert(a + b =~= a);
    } else {
        assert((a + b).drop_last() =~= a + b.drop_last());
        lemma_block_concat(a, b.drop_last(), regs, constants, vars, host);
    }
}

/// A sequence begins with another.
pub open spec fn begins<T>(s: Seq<T>, p: Seq<T>) -> bool {
    p.len() <= s.len() && forall|k: int| 0 <= k < p.len() ==> #[trigger] s[k] == p[k]
}

/// Variables have the values that an environment gives to their names.
pub open spec fn binds(vars: Seq<Val>, names: Seq<Seq<char>>, env: Map<Seq<char>, Val>) -> bool {
    names.len() <= vars.len() && forall|k: int|
        0 <= k < names.len() ==> vars[k] == env[#[trigger] names[k]]
}

/// That a run of instructions did what was asked: the meaning is in a register, and the
/// registers that were not free are as before.
pub open spec fn agrees(
    b: Block,
    regs: Seq<Val>,
    reg: u8,
    m: Option<Outcome>,
    free: Seq<bool>,
) -> bool {
    match m {
        Some(Ok(v)) => {
            &&& b matches Block::Regs(r)
            &&& r.len() == regs.len()
            &&& r[reg as int] == v
            &&& forall|k: int| 0 <= k < REGISTERS && !free[k] ==> #[trigger] r[k] == regs[k]
        },
        Some(Err(f)) => b == Block::Fail(f),
        None => b is Stuck,
    }
}

/// That instructions compute an expression into a register, whatever the registers, the
/// variables and the host are, with pools that may have grown.
pub open spec fn computes(
    s: Seq<RegInstr>,
    reg: u8,
    e: Expr,
    constants: Seq<Val>,
    names: Seq<Seq<char>>,
    free: Seq<bool>,
) -> bool {
    forall|
        env: Map<Seq<char>, Val>,
        pool: Seq<Val>,
        vars: Seq<Val>,
        host: Seq<(Req, Outcome)>,
        regs: Seq<Val>,
    |
        #![trigger block(s, regs, pool, vars, host), meaning(e, env, host)]
        regs.len() == REGISTERS && begins(pool, constants) && binds(vars, names, env) ==> agrees(
            block(s, regs, pool, vars, host),
            regs,
            reg,
            meaning(e, env, host),
            free,
        )
}

/// How many registers are free.
pub open spec fn count_free(free: Seq<bool>) -> nat
    decreases free.len(),
{
    if free.len() == 0 {
        0
    } else {
        count_free(free.drop_last()) + if free.last() {
            1nat
        } else {
            0
        }
    }
}

proof fn lemma_count_update(free: Seq<bool>, k: int, b: bool)
    requires
        0 <= k < free.len(),
    ensures
        count_free(free.update(k, b)) == count_free(free) + (if b {
            1int
        } else {
            0
        }) - (if free[k] {
            1int
        } else {
            0
        }),
    decreases free.len(),
{
    if k == free.len() - 1 {
        assert(free.update(k, b).drop_last() =~= free.drop_last());
    } else {
        assert(free.update(k, b).drop_last() =~= free.drop_last().update(k, b));
        lemma_count_update(free.drop_last(), k, b);
    }
}

proof fn lemma_count_none(free: Seq<bool>)
    requires
        forall|k: int| 0 <= k < free.len() ==> !#[trigger] free[k],
    ensures
        count_free(free) == 0,
    decreases free.len(),
{
    if free.len() > 0 {
        lemma_count_none(free.drop_last());
    }
}

/// What was computed ahead of time without the host is what is computed with it.
proof fn lemma_fold_any_host(i: Instr, a: Val, b: Val, host: Seq<(Req, Outcome)>)
    requires
        foldable(i),
        vm::binary_step(i, a, b, Seq::empty()) matches Some(Ok(_)),
    ensures
        vm::binary_step(i, a, b, host) == vm::binary_step(i, a, b, Seq::empty()),
{
}

/// A call that is replaced by a value means that value.
proof fn lemma_folded_means(c: CallExpr, env: Map<Seq<char>, Val>, host: Seq<(Req, Outcome)>)
    requires
        folded(c) is Some,
    ensures
        meaning(Expr::Call(c), env, host) == Some(Ok::<Val, Fault>(folded(c)->Some_0)),
{
    if c.args@.len() == 2 {
        let a = constant(c.args@[0].expr)->Some_0;
        let b = constant(c.args@[1].expr)->Some_0;
        assert(meaning(c.args@[0].expr, env, host) == Some(Ok::<Val, Fault>(a)));
        assert(meaning(c.args@[1].expr, env, host) == Some(Ok::<Val, Fault>(b)));
        lemma_fold_any_host(binary_op(ast::operator_of(c.func_name@))->Some_0, a, b, host);
    } else {
        let a = constant(c.args@[0].expr)->Some_0;
        assert(meaning(c.args@[0].expr, env, host) == Some(Ok::<Val, Fault>(a)));
    }
}

fn literal(lit: &LiteralValue) -> (r: Value)
    ensures
        r@ == semantics::literal_value(*lit),
{
    match lit {
        LiteralValue::Int(i) => Value::Int(*i),
        LiteralValue::UInt(u) => Value::UInt(*u),
        LiteralValue::Double(f) => Value::Float(*f),
        LiteralValue::String(s) => Value::String(Arc::new(s.clone())),
        LiteralValue::Bytes(b) => Value::Bytes(objects::clone_bytes(b)),
        LiteralValue::Boolean(b) => Value::Bool(*b),
        LiteralValue::Null => Value::Null,
    }
}

fn constant_value(e: &Expr) -> (r: Option<Value>)
    ensures
        match r {
            Some(v) => constant(*e) == Some(v@),
            None => constant(*e) is None,
        },
{
    match e {
        Expr::Literal(l) => Some(literal(l)),
        _ => None,
    }
}

fn operation(op: Option<Operator>) -> (r: Option<Instr>)
    ensures
        r == binary_op(op),
{
    match op {
        Some(Operator::Add) => Some(Instr::Add),
        Some(Operator::Substract) => Some(Instr::Sub),
        Some(Operator::Multiply) => Some(Instr::Mul),
        Some(Operator::Divide) => Some(Instr::Div),
        Some(Operator::Modulo) => Some(Instr::Mod),
        Some(Operator::Equals) => Some(Instr::Eq),
        Some(Operator::NotEquals) => Some(Instr::Ne),
        Some(Operator::Less) => Some(Instr::Lt),
        Some(Operator::LessEquals) => Some(Instr::Le),
        Some(Operator::Greater) => Some(Instr::Gt),
        Some(Operator::GreaterEquals) => Some(Instr::Ge),
        Some(Operator::LogicalAnd) => Some(Instr::LogicalAnd),
        Some(Operator::LogicalOr) => Some(Instr::LogicalOr),
        Some(Operator::In) => Some(Instr::In),
        Some(Operator::Index) => Some(Instr::Index),
        _ => None,
    }
}

/// The instruction of an operation on two registers.
fn two_registers(i: Instr, dst: u8, a: u8, b: u8) -> (r: Option<RegInstr>)
    ensures
        match r {
            Some(j) => reg_vm::binary_parts(j) == Some((i, dst, a, b)),
            None => forall|op: Option<Operator>| #[trigger] binary_op(op) != Some(i),
        },
{
    match i {
        Instr::Add => Some(RegInstr::Add(dst, a, b)),
        Instr::Sub => Some(RegInstr::Sub(dst, a, b)),
        Instr::Mul => Some(RegInstr::Mul(dst, a, b)),
        Instr::Div => Some(RegInstr::Div(dst, a, b)),
        Instr::Mod => Some(RegInstr::Mod(dst, a, b)),
        Instr::Eq => Some(RegInstr::Eq(dst, a, b)),
        Instr::Ne => Some(RegInstr::Ne(dst, a, b)),
        Instr::Lt => Some(RegInstr::Lt(dst, a, b)),
        Instr::Le => Some(RegInstr::Le(dst, a, b)),
        Instr::Gt => Some(RegInstr::Gt(dst, a, b)),
        Instr::Ge => Some(RegInstr::Ge(dst, a, b)),
        Instr::LogicalAnd => Some(RegInstr::LogicalAnd(dst, a, b)),
        Instr::LogicalOr => Some(RegInstr::LogicalOr(dst, a, b)),
        Instr::In => Some(RegInstr::In(dst, a, b)),
        Instr::Index => Some(RegInstr::Index(dst, a, b)),
        _ => None,
    }
}

fn one_operation(name: &str) -> (r: Option<Instr>)
    ensures
        r == unary_op(name@),
{
    if strings::str_eq(name, "!_") {
        Some(Instr::Not)
    } else if strings::str_eq(name, "-_") {
        Some(Instr::Neg)
    } else if strings::str_eq(name, "size") {
        Some(Instr::Size)
    } else {
        None
    }
}

fn is_builtin(name: &str) -> (r: bool)
    ensures
        r == builtin_name(name@),
{
    strings::str_eq(name, "int") || strings::str_eq(name, "double") || strings::str_eq(
        name,
        "uint",
    ) || strings::str_eq(name, "string") || strings::str_eq(name, "max") || strings::str_eq(
        name,
        "@not_strictly_false",
    )
}

/// Computes a call of two constants ahead of time.
pub fn fold_binary(name: &str, a: Value, b: Value) -> (r: Option<Value>)
    requires
        !(binary_op(ast::operator_of(name@)) matches Some(i) && (i is Div || i is Mod)
            && vm::quotient_overflows(a@, b@)),
    ensures
        match r {
            Some(v) => folded_two(name@, a@, b@) == Some(v@),
            None => folded_two(name@, a@, b@) is None,
        },
{
    match operation(ast::operator_named(name)) {
        Some(i) => match i {
            Instr::LogicalAnd | Instr::LogicalOr | Instr::In | Instr::Index => None,
            _ => {
                let host = HostTable::new();
                match vm::binary(i, a, b, &host) {
                    Some(Ok(v)) => Some(v),
                    _ => None,
                }
            },
        },
        None => None,
    }
}

/// Computes a call of one constant ahead of time.
pub fn fold_unary(name: &str, a: Value) -> (r: Option<Value>)
    ensures
        match r {
            Some(v) => folded_one(name@, a@) == Some(v@),
            None => folded_one(name@, a@) is None,
        },
{
    match one_operation(name) {
        Some(Instr::Not) => match vm::try_bool(a) {
            Ok(b) => Some(Value::Bool(!b)),
            Err(_) => None,
        },
        Some(Instr::Neg) => match vm::vm_neg(a) {
            Ok(v) => Some(v),
            Err(_) => None,
        },
        _ => None,
    }
}

/// The state of a compilation.
#[derive(Debug)]
pub struct RegCompiler {
    constants: Vec<Value>,
    var_names: Vec<String>,
    instructions: Vec<RegInstr>,
    free: Vec<bool>,
}

/// What a [`RegCompiler`] stands for.
#[verifier::ext_equal]
pub struct Progress {
    pub constants: Seq<Val>,
    pub names: Seq<Seq<char>>,
    pub instructions: Seq<RegInstr>,
    pub free: Seq<bool>,
}

impl View for RegCompiler {
    type V = Progress;

    closed spec fn view(&self) -> Progress {
        Progress {
            constants: objects::values_view(self.constants@),
            names: objects::texts(self.var_names@),
            instructions: self.instructions@,
            free: self.free@,
        }
    }
}

/// That one state of a compilation comes after another.
pub open spec fn grown(old: Progress, new: Progress) -> bool {
    &&& begins(new.constants, old.constants)
    &&& begins(new.names, old.names)
    &&& begins(new.instructions, old.instructions)
    &&& new.free.len() == old.free.len()
}

/// The instructions that came since.
pub open spec fn since(old: Progress, new: Progress) -> Seq<RegInstr> {
    new.instructions.subrange(old.instructions.len() as int, new.instructions.len() as int)
}

/// All instructions go on to the next one.
pub open spec fn all_straight(s: Seq<RegInstr>) -> bool {
    forall|k: int| 0 <= k < s.len() ==> straight(#[trigger] s[k])
}

/// An instruction that goes on to the next one finds what it names: its registers are among
/// those that the machine has, its constant and its variable are there, and a field's constant
/// is a string.
pub open spec fn fits(i: RegInstr, constants: Seq<Val>, names: Seq<Seq<char>>) -> bool {
    match i {
        RegInstr::LoadVar(d, v) => d < REGISTERS && v < names.len(),
        RegInstr::LoadConst(d, c) => d < REGISTERS && c < constants.len(),
        RegInstr::Neg(d, a) | RegInstr::Not(d, a) | RegInstr::Size(d, a) => d < REGISTERS && a
            < REGISTERS,
        RegInstr::Select(d, a, c) | RegInstr::HasField(d, a, c) => {
            &&& d < REGISTERS
            &&& a < REGISTERS
            &&& c < constants.len()
            &&& constants[c as int] is String
        },
        _ => {
            &&& reg_vm::binary_parts(i) matches Some((_, d, a, b))
            &&& d < REGISTERS
            &&& a < REGISTERS
            &&& b < REGISTERS
        },
    }
}

/// All instructions find what they name, and no constant and no variable has two indices.
pub open spec fn built(
    instructions: Seq<RegInstr>,
    constants: Seq<Val>,
    names: Seq<Seq<char>>,
) -> bool {
    &&& constants.no_duplicates()
    &&& names.no_duplicates()
    &&& forall|k: int|
        0 <= k < instructions.len() ==> fits(#[trigger] instructions[k], constants, names)
}

/// A program as the compiler leaves it: its end comes last and nowhere else, every
/// instruction finds what it names, and no constant and no variable has two indices.
pub open spec fn well_built(code: RegCode) -> bool {
    &&& code.instructions.len() > 0
    &&& code.instructions.last() matches RegInstr::Halt(r)
    &&& r < REGISTERS
    &&& built(code.instructions.drop_last(), code.constants, code.var_names)
}

/// In a program as the compiler leaves it no instruction but the last one ends it, none
/// jumps, and those that name a constant name one that is there.
pub proof fn law_well_built(code: RegCode, k: int)
    requires
        well_built(code),
        0 <= k < code.instructions.len(),
    ensures
        code.instructions[k] is Halt <==> k == code.instructions.len() - 1,
        !(code.instructions[k] is Jump || code.instructions[k] is JumpIfFalse
            || code.instructions[k] is JumpIfTrue),
        k < code.instructions.len() - 1 ==> fits(
            code.instructions[k],
            code.constants,
            code.var_names,
        ),
{
    let body = code.instructions.drop_last();
    if k < body.len() {
        assert(fits(body[k], code.constants, code.var_names));
    }
}

proof fn lemma_built_grown(
    instructions: Seq<RegInstr>,
    constants: Seq<Val>,
    names: Seq<Seq<char>>,
    more: Seq<Val>,
    others: Seq<Seq<char>>,
)
    requires
        built(instructions, constants, names),
        begins(more, constants),
        begins(others, names),
        more.no_duplicates(),
        others.no_duplicates(),
    ensures
        built(instructions, more, others),
{
    assert forall|k: int| 0 <= k < instructions.len() implies fits(
        #[trigger] instructions[k],
        more,
        others,
    ) by {
        assert(fits(instructions[k], constants, names));
    }
}

/// That an expression was compiled into a register.
pub open spec fn compiled(old: Progress, new: Progress, reg: u8, e: Expr) -> bool {
    &&& grown(old, new)
    &&& built(new.instructions, new.constants, new.names)
    &&& reg < REGISTERS
    &&& old.free[reg as int]
    &&& new.free == old.free.update(reg as int, false)
    &&& new.names == names_of(e, old.names)
    &&& new.constants == consts_of(e, old.constants)
    &&& all_straight(since(old, new))
    &&& computes(since(old, new), reg, e, new.constants, new.names, old.free)
}

/// There is room to compile an expression.
pub open spec fn room(p: Progress, e: Expr) -> bool {
    &&& built(p.instructions, p.constants, p.names)
    &&& p.free.len() == REGISTERS
    &&& registers(e) <= count_free(p.free)
    &&& consts_of(e, p.constants).len() <= POOL
    &&& names_of(e, p.names).len() <= POOL
    &&& !overflows(e)
}

impl RegCompiler {
    /// Nothing is compiled, and all registers are free.
    pub fn new() -> (r: RegCompiler)
        ensures
            r@.constants.len() == 0,
            r@.names.len() == 0,
            r@.instructions.len() == 0,
            r@.free == Seq::new(REGISTERS as nat, |k: int| true),
    {
        let mut free: Vec<bool> = Vec::new();
        let mut i: usize = 0;
        while i < REGISTERS
            invariant
                i <= REGISTERS,
                free@ == Seq::new(i as nat, |k: int| true),
            decreases REGISTERS - i,
        {
            free.push(true);
            i += 1;
            assert(free@ =~= Seq::new(i as nat, |k: int| true));
        }
        RegCompiler { constants: Vec::new(), var_names: Vec::new(), instructions: Vec::new(), free }
    }

    /// Takes the first free register.
    fn alloc_reg(&mut self) -> (r: u8)
        requires
            old(self)@.free.len() == REGISTERS,
            count_free(old(self)@.free) > 0,
        ensures
            r < REGISTERS,
            old(self)@.free[r as int],
            forall|k: int| 0 <= k < r ==> !#[trigger] old(self)@.free[k],
            final(self)@ == (Progress {
                free: old(self)@.free.update(r as int, false),
                ..old(self)@
            }),
            count_free(final(self)@.free) == count_free(old(self)@.free) - 1,
    {
        let mut i: usize = 0;
        while i < self.free.len() && !self.free[i]
            invariant
                i <= self.free@.len(),
                self@ == old(self)@,
                forall|k: int| 0 <= k < i ==> !#[trigger] self.free@[k],
            decreases self.free@.len() - i,
        {
            i += 1;
        }
        proof {
            if i == self.free@.len() {
                lemma_count_none(self.free@);
            }
            lemma_count_update(self.free@, i as int, false);
        }
        self.free.set(i, false);
        assert(self@ =~= (Progress { free: old(self)@.free.update(i as int, false), ..old(self)@ }));
        i as u8
    }

    /// Gives a register back.
    fn free_reg(&mut self, reg: u8)
        requires
            old(self)@.free.len() == REGISTERS,
            reg < REGISTERS,
        ensures
            final(self)@ == (Progress {
                free: old(self)@.free.update(reg as int, true),
                ..old(self)@
            }),
    {
        self.free.set(reg as usize, true);
        assert(self@ =~= (Progress { free: old(self)@.free.update(reg as int, true), ..old(self)@ }));
    }

    /// The index of a constant, which is added where it is new.
    fn add_const(&mut self, v: Value) -> (r: u16)
        requires
            added(old(self)@.constants, v@).len() <= POOL,
        ensures
            r < final(self)@.constants.len(),
            final(self)@.constants[r as int] == v@,
            final(self)@.constants == added(old(self)@.constants, v@),
            final(self)@ == (Progress { constants: final(self)@.constants, ..old(self)@ }),
            built(old(self)@.instructions, old(self)@.constants, old(self)@.names) ==> built(
                final(self)@.instructions,
                final(self)@.constants,
                final(self)@.names,
            ),
    {
        let ghost pool = self@.constants;
        let mut i: usize = 0;
        while i < self.constants.len()
            invariant
                i <= self.constants@.len(),
                added(pool, v@).len() <= POOL,
                *self == *old(self),
                pool == self@.constants,
                forall|k: int| 0 <= k < i ==> #[trigger] pool[k] != v@,
            decreases self.constants@.len() - i,
        {
            assert(pool[i as int] == self.constants@[i as int]@);
            if objects::values_same(&self.constants[i], &v) {
                assert(pool.contains(v@));
                return i as u16;
            }
            i += 1;
        }
        self.constants.push(v);
        proof {
            let p = old(self)@;
            assert(self@.constants =~= p.constants.push(v@));
            if built(p.instructions, p.constants, p.names) {
                lemma_built_grown(
                    p.instructions,
                    p.constants,
                    p.names,
                    self@.constants,
                    p.names,
                );
            }
        }
        i as u16
    }

    /// The index of a variable, which is added where it is new.
    fn ensure_var(&mut self, name: &str) -> (r: u16)
        requires
            added(old(self)@.names, name@).len() <= POOL,
        ensures
            r < final(self)@.names.len(),
            final(self)@.names[r as int] == name@,
            final(self)@.names == added(old(self)@.names, name@),
            final(self)@ == (Progress { names: final(self)@.names, ..old(self)@ }),
            built(old(self)@.instructions, old(self)@.constants, old(self)@.names) ==> built(
                final(self)@.instructions,
                final(self)@.constants,
                final(self)@.names,
            ),
    {
        let ghost names = self@.names;
        let mut i: usize = 0;
        while i < self.var_names.len()
            invariant
                i <= self.var_names@.len(),
                added(names, name@).len() <= POOL,
                *self == *old(self),
                names == self@.names,
                forall|k: int| 0 <= k < i ==> #[trigger] names[k] != name@,
            decreases self.var_names@.len() - i,
        {
            if strings::str_eq(self.var_names[i].as_str(), name) {
                assert(names[i as int] == name@);
                assert(names.contains(name@));
                return i as u16;
            }
            i += 1;
        }
        self.var_names.push(name.to_owned());
        proof {
            let p = old(self)@;
            assert(self@.names =~= names.push(name@));
            if built(p.instructions, p.constants, p.names) {
                lemma_built_grown(
                    p.instructions,
                    p.constants,
                    p.names,
                    p.constants,
                    self@.names,
                );
            }
        }
        i as u16
    }

    fn emit(&mut self, instr: RegInstr)
        ensures
            final(self)@ == (Progress {
                instructions: old(self)@.instructions.push(instr),
                ..old(self)@
            }),
            built(old(self)@.instructions, old(self)@.constants, old(self)@.names) && fits(
                instr,
                old(self)@.constants,
                old(self)@.names,
            ) ==> built(final(self)@.instructions, final(self)@.constants, final(self)@.names),
    {
        self.instructions.push(instr);
    }

    /// Compiles a constant.
    fn compile_const(&mut self, v: Value) -> (r: u8)
        requires
            old(self)@.free.len() == REGISTERS,
            count_free(old(self)@.free) > 0,
            added(old(self)@.constants, v@).len() <= POOL,
            built(old(self)@.instructions, old(self)@.constants, old(self)@.names),
        ensures
            grown(old(self)@, final(self)@),
            built(final(self)@.instructions, final(self)@.constants, final(self)@.names),
            r < REGISTERS,
            old(self)@.free[r as int],
            final(self)@.free == old(self)@.free.update(r as int, false),
            count_free(final(self)@.free) == count_free(old(self)@.free) - 1,
            final(self)@.names == old(self)@.names,
            final(self)@.constants == added(old(self)@.constants, v@),
            all_straight(since(old(self)@, final(self)@)),
            forall|e: Expr|
                (forall|env: Map<Seq<char>, Val>, host: Seq<(Req, Outcome)>| #[trigger]
                    meaning(e, env, host) == Some(Ok::<Val, Fault>(v@))) ==> #[trigger] computes(
                    since(old(self)@, final(self)@),
                    r,
                    e,
                    final(self)@.constants,
                    final(self)@.names,
                    old(self)@.free,
                ),
    {
        let idx = self.add_const(v);
        let reg = self.alloc_reg();
        let i = RegInstr::LoadConst(reg, idx);
        self.emit(i);
        proof {
            let s = since(old(self)@, self@);
            assert(s =~= seq![i]);
            assert(begins(self@.constants, old(self)@.constants));
            assert forall|e: Expr|
                (forall|env: Map<Seq<char>, Val>, host: Seq<(Req, Outcome)>| #[trigger]
                    meaning(e, env, host) == Some(Ok::<Val, Fault>(v@))) implies #[trigger] computes(
                s,
                reg,
                e,
                self@.constants,
                self@.names,
                old(self)@.free,
            ) by {
                assert forall|
                    env: Map<Seq<char>, Val>,
                    pool: Seq<Val>,
                    vars: Seq<Val>,
                    host: Seq<(Req, Outcome)>,
                    regs: Seq<Val>,
                |
                    #![trigger block(s, regs, pool, vars, host), meaning(e, env, host)]
                    regs.len() == REGISTERS && begins(pool, self@.constants) && binds(
                        vars,
                        self@.names,
                        env,
                    ) implies agrees(
                    block(s, regs, pool, vars, host),
                    regs,
                    reg,
                    meaning(e, env, host),
                    old(self)@.free,
                ) by {
                    lemma_block_one(i, regs, pool, vars, host);
                    assert(pool[idx as int] == self@.constants[idx as int]);
                }
            }
        }
        reg
    }
}

proof fn lemma_block_one(
    i: RegInstr,
    regs: Seq<Val>,
    constants: Seq<Val>,
    vars: Seq<Val>,
    host: Seq<(Req, Outcome)>,
)
    ensures
        block(seq![i], regs, constants, vars, host) == one(i, regs, constants, vars, host),
{
    assert(seq![i].drop_last() =~= Seq::<RegInstr>::empty());
    assert(block(Seq::<RegInstr>::empty(), regs, constants, vars, host) == Block::Regs(regs));
}

/// Two operands and an operation on their registers compute a call.
proof fn lemma_two(
    p0: Progress,
    p1: Progress,
    p2: Progress,
    r1: u8,
    r2: u8,
    dst: u8,
    c: CallExpr,
    j: RegInstr,
    op: Instr,
)
    requires
        c.args@.len() == 2,
        p0.free.len() == REGISTERS,
        compiled(p0, p1, r1, c.args@[0].expr),
        compiled(p1, p2, r2, c.args@[1].expr),
        binary_op(ast::operator_of(c.func_name@)) == Some(op),
        reg_vm::binary_parts(j) == Some((op, dst, r1, r2)),
        dst < REGISTERS,
        p2.free[dst as int],
    ensures
        computes(
            since(p0, p1) + since(p1, p2) + seq![j],
            dst,
            Expr::Call(c),
            p2.constants,
            p2.names,
            p0.free,
        ),
{
    let a = c.args@[0].expr;
    let b = c.args@[1].expr;
    let e = Expr::Call(c);
    let sa = since(p0, p1);
    let sb = since(p1, p2);
    let s = sa + sb + seq![j];
    assert forall|
        env: Map<Seq<char>, Val>,
        pool: Seq<Val>,
        vars: Seq<Val>,
        host: Seq<(Req, Outcome)>,
        regs: Seq<Val>,
    |
        #![trigger block(s, regs, pool, vars, host), meaning(e, env, host)]
        regs.len() == REGISTERS && begins(pool, p2.constants) && binds(vars, p2.names, env) implies agrees(
        block(s, regs, pool, vars, host),
        regs,
        dst,
        meaning(e, env, host),
        p0.free,
    ) by {
        lemma_block_concat(sa + sb, seq![j], regs, pool, vars, host);
        lemma_block_concat(sa, sb, regs, pool, vars, host);
        assert(begins(pool, p1.constants)) by {
            assert forall|k: int| 0 <= k < p1.constants.len() implies #[trigger] pool[k]
                == p1.constants[k] by {
                assert(p2.constants[k] == p1.constants[k]);
            }
        }
        assert(binds(vars, p1.names, env)) by {
            assert forall|k: int| 0 <= k < p1.names.len() implies vars[k]
                == env[#[trigger] p1.names[k]] by {
                assert(p2.names[k] == p1.names[k]);
            }
        }
        let ma = meaning(a, env, host);
        let ba = block(sa, regs, pool, vars, host);
        assert(agrees(ba, regs, r1, ma, p0.free));
        if let Some(Ok(x)) = ma {
            let ra = ba->Regs_0;
            let mb = meaning(b, env, host);
            let bb = block(sb, ra, pool, vars, host);
            assert(agrees(bb, ra, r2, mb, p1.free));
            if let Some(Ok(y)) = mb {
                let rb = bb->Regs_0;
                assert(!p1.free[r1 as int]);
                assert(rb[r1 as int] == ra[r1 as int]);
                lemma_block_one(j, rb, pool, vars, host);
                assert forall|k: int| 0 <= k < REGISTERS && !p0.free[k] implies #[trigger] rb[k]
                    == regs[k] by {
                    assert(!p1.free[k]);
                    assert(ra[k] == regs[k]);
                }
            }
        }
    }
}

/// An operand and an operation on its register compute what they mean.
proof fn lemma_one(
    p0: Progress,
    p1: Progress,
    r1: u8,
    dst: u8,
    a: Expr,
    e: Expr,
    j: RegInstr,
)
    requires
        p0.free.len() == REGISTERS,
        compiled(p0, p1, r1, a),
        dst < REGISTERS,
        p1.free[dst as int],
        forall|
            env: Map<Seq<char>, Val>,
            pool: Seq<Val>,
            vars: Seq<Val>,
            host: Seq<(Req, Outcome)>,
            regs: Seq<Val>,
        |
            #![trigger one(j, regs, pool, vars, host), meaning(e, env, host)]
            regs.len() == REGISTERS && begins(pool, p1.constants) ==> match meaning(a, env, host) {
                Some(Ok(x)) => regs[r1 as int] == x ==> match meaning(e, env, host) {
                    Some(Ok(v)) => one(j, regs, pool, vars, host) == Block::Regs(
                        regs.update(dst as int, v),
                    ),
                    Some(Err(f)) => one(j, regs, pool, vars, host) == Block::Fail(f),
                    None => false,
                },
                o => meaning(e, env, host) == o,
            },
    ensures
        computes(since(p0, p1) + seq![j], dst, e, p1.constants, p1.names, p0.free),
{
    let sa = since(p0, p1);
    let s = sa + seq![j];
    assert forall|
        env: Map<Seq<char>, Val>,
        pool: Seq<Val>,
        vars: Seq<Val>,
        host: Seq<(Req, Outcome)>,
        regs: Seq<Val>,
    |
        #![trigger block(s, regs, pool, vars, host), meaning(e, env, host)]
        regs.len() == REGISTERS && begins(pool, p1.constants) && binds(vars, p1.names, env) implies agrees(
        block(s, regs, pool, vars, host),
        regs,
        dst,
        meaning(e, env, host),
        p0.free,
    ) by {
        lemma_block_concat(sa, seq![j], regs, pool, vars, host);
        let ma = meaning(a, env, host);
        let ba = block(sa, regs, pool, vars, host);
        assert(agrees(ba, regs, r1, ma, p0.free));
        let me = meaning(e, env, host);
        if let Some(Ok(x)) = ma {
            let ra = ba->Regs_0;
            lemma_block_one(j, ra, pool, vars, host);
            let b = one(j, ra, pool, vars, host);
            assert(match me {
                Some(Ok(v)) => b == Block::Regs(ra.update(dst as int, v)),
                Some(Err(f)) => b == Block::Fail(f),
                None => false,
            });
            if let Some(Ok(v)) = me {
                let r = ra.update(dst as int, v);
                assert forall|k: int| 0 <= k < REGISTERS && !p0.free[k] implies #[trigger] r[k]
                    == regs[k] by {
                    assert(ra[k] == regs[k]);
                }
            }
        } else {
            let b = one(j, regs, pool, vars, host);
            assert(me == ma);
        }
    }
}

impl RegCompiler {
    /// Compiles an expression and gives the register that will hold its value.
    fn compile_expr(&mut self, expr: &Expr) -> (r: Result<u8, String>)
        requires
            room(old(self)@, *expr),
        ensures
            match r {
                Ok(reg) => refusal(*expr) is None && compiled(
                    old(self)@,
                    final(self)@,
                    reg,
                    *expr,
                ),
                Err(m) => refusal(*expr) == Some(m@),
            },
        decreases expr, 1nat,
    {
        match expr {
            Expr::Literal(lit) => {
                let v = literal(lit);
                let reg = self.compile_const(v);
                assert(forall|env: Map<Seq<char>, Val>, host: Seq<(Req, Outcome)>| #[trigger]
                    meaning(*expr, env, host) == Some(Ok::<Val, Fault>(v@)));
                assert(computes(
                    since(old(self)@, self@),
                    reg,
                    *expr,
                    self@.constants,
                    self@.names,
                    old(self)@.free,
                ));
                Ok(reg)
            },
            Expr::Ident(name) => {
                let idx = self.ensure_var(name.as_str());
                let reg = self.alloc_reg();
                let i = RegInstr::LoadVar(reg, idx);
                self.emit(i);
                proof {
                    let s = since(old(self)@, self@);
                    assert(s =~= seq![i]);
                    assert forall|
                        env: Map<Seq<char>, Val>,
                        pool: Seq<Val>,
                        vars: Seq<Val>,
                        host: Seq<(Req, Outcome)>,
                        regs: Seq<Val>,
                    |
                        #![trigger block(s, regs, pool, vars, host), meaning(*expr, env, host)]
                        regs.len() == REGISTERS && begins(pool, self@.constants) && binds(
                            vars,
                            self@.names,
                            env,
                        ) implies agrees(
                        block(s, regs, pool, vars, host),
                        regs,
                        reg,
                        meaning(*expr, env, host),
                        old(self)@.free,
                    ) by {
                        lemma_block_one(i, regs, pool, vars, host);
                        assert(vars[idx as int] == env[self@.names[idx as int]]);
                    }
                }
                Ok(reg)
            },
            Expr::Call(call) => {
                let r = self.compile_call(call);
                assert(*expr == Expr::Call(*call));
                r
            },
            Expr::Select(sel) => {
                let r = self.compile_select(sel);
                assert(*expr == Expr::Select(*sel));
                r
            },
            Expr::List(_) => Err("list literals not supported in reg VM".to_owned()),
            Expr::Dict(_) => Err("map literals not supported in reg VM".to_owned()),
            Expr::Comprehension(_) => Err("comprehensions not supported in reg VM".to_owned()),
            Expr::Struct(_) => Err("unsupported expr: struct".to_owned()),
            Expr::Unspecified => Err("unsupported expr: unspecified".to_owned()),
        }
    }

    fn compile_folded(&mut self, call: &CallExpr, v: Value) -> (r: u8)
        requires
            folded(*call) == Some(v@),
            room(old(self)@, Expr::Call(*call)),
        ensures
            compiled(old(self)@, final(self)@, r, Expr::Call(*call)),
    {
        let reg = self.compile_const(v);
        proof {
            let e = Expr::Call(*call);
            assert forall|env: Map<Seq<char>, Val>, host: Seq<(Req, Outcome)>| #[trigger]
                meaning(e, env, host) == Some(Ok::<Val, Fault>(v@)) by {
                lemma_folded_means(*call, env, host);
            }
            assert(computes(
                since(old(self)@, self@),
                reg,
                e,
                self@.constants,
                self@.names,
                old(self)@.free,
            ));
            if call.args@.len() == 1 {
                assert(names_of(call.args@[0].expr, self@.names) == self@.names);
            }
        }
        reg
    }

    /// Compiles a call of an operator or a function.
    #[verifier::rlimit(50)]
    fn compile_call(&mut self, call: &CallExpr) -> (r: Result<u8, String>)
        requires
            room(old(self)@, Expr::Call(*call)),
        ensures
            match r {
                Ok(reg) => refusal(Expr::Call(*call)) is None && compiled(
                    old(self)@,
                    final(self)@,
                    reg,
                    Expr::Call(*call),
                ),
                Err(m) => refusal(Expr::Call(*call)) == Some(m@),
            },
        decreases call, 0nat,
    {
        let name = call.func_name.as_str();
        let ghost e = Expr::Call(*call);
        let ghost p0 = self@;
        if call.args.len() == 2 {
            let a = &call.args[0].expr;
            let b = &call.args[1].expr;
            match (constant_value(a), constant_value(b)) {
                (Some(x), Some(y)) => {
                    match fold_binary(name, x, y) {
                        Some(v) => {
                            return Ok(self.compile_folded(call, v));
                        },
                        None => {},
                    }
                },
                _ => {},
            }
            assert(folded(*call) is None);
            proof {
                law_pools_grow(*b, consts_of(*a, p0.constants), names_of(*a, p0.names));
            }
            assert(room(self@, *a));
            let r1 = match self.compile_expr(a) {
                Ok(r1) => r1,
                Err(m) => {
                    return Err(m);
                },
            };
            let ghost p1 = self@;
            proof {
                lemma_count_update(p0.free, r1 as int, false);
            }
            assert(room(self@, *b));
            let r2 = match self.compile_expr(b) {
                Ok(r2) => r2,
                Err(m) => {
                    return Err(m);
                },
            };
            let ghost p2 = self@;
            proof {
                lemma_count_update(p1.free, r2 as int, false);
            }
            let dst = self.alloc_reg();
            let op = match operation(ast::operator_named(name)) {
                Some(op) => op,
                None => {
                    let mut m = "unsupported binary op: ".to_owned();
                    m.append(name);
                    return Err(m);
                },
            };
            let j = match two_registers(op, dst, r1, r2) {
                Some(j) => j,
                None => {
                    assert(binary_op(ast::operator_of(name@)) != Some(op));
                    return Err("".to_owned());
                },
            };
            self.emit(j);
            self.free_reg(r2);
            self.free_reg(r1);
            proof {
                lemma_two(p0, p1, p2, r1, r2, dst, *call, j, op);
                assert(since(p0, self@) =~= since(p0, p1) + since(p1, p2) + seq![j]);
                assert(self@.free =~= p0.free.update(dst as int, false));
                assert(begins(self@.instructions, p0.instructions)) by {
                    assert forall|k: int| 0 <= k < p0.instructions.len() implies #[trigger] self@.instructions[k]
                        == p0.instructions[k] by {
                        assert(p1.instructions[k] == p0.instructions[k]);
                        assert(p2.instructions[k] == p1.instructions[k]);
                    }
                }
                assert(begins(self@.constants, p0.constants)) by {
                    assert forall|k: int| 0 <= k < p0.constants.len() implies #[trigger] self@.constants[k]
                        == p0.constants[k] by {
                        assert(p1.constants[k] == p0.constants[k]);
                        assert(p2.constants[k] == p1.constants[k]);
                    }
                }
                assert(begins(self@.names, p0.names)) by {
                    assert forall|k: int| 0 <= k < p0.names.len() implies #[trigger] self@.names[k]
                        == p0.names[k] by {
                        assert(p1.names[k] == p0.names[k]);
                        assert(p2.names[k] == p1.names[k]);
                    }
                }
                assert(all_straight(since(p0, self@))) by {
                    let s = since(p0, self@);
                    assert forall|k: int| 0 <= k < s.len() implies straight(#[trigger] s[k]) by {
                        let na = since(p0, p1).len();
                        let nb = since(p1, p2).len();
                        if k < na {
                            assert(straight(since(p0, p1)[k]));
                        } else if k < na + nb {
                            assert(straight(since(p1, p2)[k - na]));
                        }
                    }
                }
            }
            Ok(dst)
        } else if call.args.len() == 1 {
            let a = &call.args[0].expr;
            match constant_value(a) {
                Some(x) => {
                    match fold_unary(name, x) {
                        Some(v) => {
                            return Ok(self.compile_folded(call, v));
                        },
                        None => {},
                    }
                },
                None => {},
            }
            assert(folded(*call) is None);
            assert(room(self@, *a));
            let r1 = match self.compile_expr(a) {
                Ok(r1) => r1,
                Err(m) => {
                    return Err(m);
                },
            };
            let ghost p1 = self@;
            proof {
                lemma_count_update(p0.free, r1 as int, false);
            }
            let dst = self.alloc_reg();
            let j = match one_operation(name) {
                Some(Instr::Not) => RegInstr::Not(dst, r1),
                Some(Instr::Neg) => RegInstr::Neg(dst, r1),
                Some(_) => RegInstr::Size(dst, r1),
                None => {
                    if is_builtin(name) {
                        return Err("builtin calls in reg VM need special encoding".to_owned());
                    }
                    let mut m = "unsupported unary op: ".to_owned();
                    m.append(name);
                    return Err(m);
                },
            };
            self.emit(j);
            self.free_reg(r1);
            proof {
                lemma_one(p0, p1, r1, dst, *a, e, j);
                lemma_grown_by_one(p0, p1, self@, j);
                assert(self@.free =~= p0.free.update(dst as int, false));
            }
            Ok(dst)
        } else {
            let mut m = "unsupported call arity: ".to_owned();
            m.append(strings::decimal_text(call.args.len() as u64).as_str());
            Err(m)
        }
    }

    /// Compiles the access to a field.
    fn compile_select(&mut self, sel: &SelectExpr) -> (r: Result<u8, String>)
        requires
            room(old(self)@, Expr::Select(*sel)),
        ensures
            match r {
                Ok(reg) => refusal(Expr::Select(*sel)) is None && compiled(
                    old(self)@,
                    final(self)@,
                    reg,
                    Expr::Select(*sel),
                ),
                Err(m) => refusal(Expr::Select(*sel)) == Some(m@),
            },
        decreases sel, 0nat,
    {
        let ghost e = Expr::Select(*sel);
        let ghost p = self@;
        proof {
            law_pools_grow(
                sel.operand.expr,
                added(p.constants, Val::String(sel.field@)),
                p.names,
            );
        }
        let field = self.add_const(Value::String(Arc::new(sel.field.clone())));
        let ghost p0 = self@;
        assert(begins(p0.constants, p.constants));
        let r1 = match self.compile_expr(&sel.operand.expr) {
            Ok(r1) => r1,
            Err(m) => {
                return Err(m);
            },
        };
        let ghost p1 = self@;
        proof {
            lemma_count_update(p0.free, r1 as int, false);
            assert(p1.constants[field as int] == p0.constants[field as int]);
        }
        let dst = self.alloc_reg();
        let j = if sel.test {
            RegInstr::HasField(dst, r1, field)
        } else {
            RegInstr::Select(dst, r1, field)
        };
        self.emit(j);
        self.free_reg(r1);
        proof {
            lemma_one(p0, p1, r1, dst, sel.operand.expr, e, j);
            lemma_grown_by_one(p0, p1, self@, j);
            assert(self@.free =~= p.free.update(dst as int, false));
            assert(since(p, self@) =~= since(p0, self@));
            assert(begins(self@.constants, p.constants)) by {
                assert forall|k: int| 0 <= k < p.constants.len() implies #[trigger] self@.constants[k]
                    == p.constants[k] by {
                    assert(p0.constants[k] == p.constants[k]);
                    assert(self@.constants[k] == p0.constants[k]);
                }
            }
        }
        Ok(dst)
    }
}

proof fn lemma_grown_by_one(p0: Progress, p1: Progress, p2: Progress, j: RegInstr)
    requires
        grown(p0, p1),
        all_straight(since(p0, p1)),
        straight(j),
        p2.constants == p1.constants,
        p2.names == p1.names,
        p2.instructions == p1.instructions.push(j),
        p2.free.len() == p1.free.len(),
    ensures
        grown(p0, p2),
        since(p0, p2) == since(p0, p1) + seq![j],
        all_straight(since(p0, p2)),
{
    assert(since(p0, p2) =~= since(p0, p1) + seq![j]);
    assert forall|k: int| 0 <= k < p0.instructions.len() implies #[trigger] p2.instructions[k]
        == p0.instructions[k] by {
        assert(p1.instructions[k] == p0.instructions[k]);
    }
    let s = since(p0, p2);
    assert forall|k: int| 0 <= k < s.len() implies straight(#[trigger] s[k]) by {
        if k < since(p0, p1).len() {
            assert(straight(since(p0, p1)[k]));
        }
    }
}

/// A run through the first `k` instructions of a program.
proof fn lemma_run_block(
    code: RegCode,
    k: int,
    regs: Seq<Val>,
    vars: Seq<Val>,
    host: Seq<(Req, Outcome)>,
    n: nat,
)
    requires
        0 <= k < code.instructions.len(),
        k <= n,
        forall|i: int| 0 <= i < k ==> straight(#[trigger] code.instructions[i]),
    ensures
        match block(code.instructions.subrange(0, k), regs, code.constants, vars, host) {
            Block::Regs(r) => reg_vm::run_regs(0, regs, code, vars, host, n) == reg_vm::run_regs(
                k,
                r,
                code,
                vars,
                host,
                (n - k) as nat,
            ),
            Block::Fail(f) => reg_vm::run_regs(0, regs, code, vars, host, n) matches Some((o, _))
                && o == Err::<Val, Fault>(f),
            Block::Stuck => reg_vm::run_regs(0, regs, code, vars, host, n) is None,
        },
    decreases k,
{
    let s = code.instructions.subrange(0, k);
    if k > 0 {
        assert(s.drop_last() =~= code.instructions.subrange(0, k - 1));
        lemma_run_block(code, k - 1, regs, vars, host, n);
        let i = code.instructions[k - 1];
        assert(s.last() == i);
        assert(straight(i));
        match block(s.drop_last(), regs, code.constants, vars, host) {
            Block::Regs(r) => {
                let bare = RegCode {
                    constants: code.constants,
                    var_names: Seq::empty(),
                    instructions: Seq::empty(),
                };
                assert(reg_vm::reg_step(i, r, code, vars, host) == reg_vm::reg_step(
                    i,
                    r,
                    bare,
                    vars,
                    host,
                ));
            },
            _ => {},
        }
    }
}

/// That a program computes an expression: it ends with what the expression means, and where
/// there is no meaning it gets stuck, whatever the registers hold at the start.
pub open spec fn runs_as(code: RegCode, e: Expr) -> bool {
    forall|
        env: Map<Seq<char>, Val>,
        vars: Seq<Val>,
        host: Seq<(Req, Outcome)>,
        regs: Seq<Val>,
    |
        #![trigger reg_vm::result_of(regs, code, vars, host), meaning(e, env, host)]
        regs.len() == REGISTERS && binds(vars, code.var_names, env) ==> match meaning(e, env, host) {
            Some(o) => {
                &&& reg_vm::halts(regs, code, vars, host)
                &&& reg_vm::result_of(regs, code, vars, host).0 == o
            },
            None => !reg_vm::halts(regs, code, vars, host),
        }
}

proof fn lemma_runs_as(code: RegCode, e: Expr, body: Seq<RegInstr>, reg: u8, free: Seq<bool>)
    requires
        code.instructions == body.push(RegInstr::Halt(reg)),
        all_straight(body),
        reg < REGISTERS,
        computes(body, reg, e, code.constants, code.var_names, free),
    ensures
        runs_as(code, e),
{
    assert forall|
        env: Map<Seq<char>, Val>,
        vars: Seq<Val>,
        host: Seq<(Req, Outcome)>,
        regs: Seq<Val>,
    |
        #![trigger reg_vm::result_of(regs, code, vars, host), meaning(e, env, host)]
        regs.len() == REGISTERS && binds(vars, code.var_names, env) implies match meaning(
        e,
        env,
        host,
    ) {
        Some(o) => {
            &&& reg_vm::halts(regs, code, vars, host)
            &&& reg_vm::result_of(regs, code, vars, host).0 == o
        },
        None => !reg_vm::halts(regs, code, vars, host),
    } by {
        let k = body.len() as int;
        assert(code.instructions.subrange(0, k) =~= body);
        assert forall|i: int| 0 <= i < k implies straight(#[trigger] code.instructions[i]) by {
            assert(straight(body[i]));
        }
        let m = meaning(e, env, host);
        let b = block(body, regs, code.constants, vars, host);
        assert(agrees(b, regs, reg, m, free));
        let n = (k + 1) as nat;
        match m {
            Some(o) => {
                lemma_run_block(code, k, regs, vars, host, n);
                if let Some(Ok(v)) = m {
                    let r = b->Regs_0;
                    assert(code.instructions[k] == RegInstr::Halt(reg));
                    assert(reg_vm::run_regs(k, r, code, vars, host, 1) is Some);
                }
                reg_vm::law_result_unique(regs, code, vars, host, n);
            },
            None => {
                assert forall|j: nat|
                    !(#[trigger] reg_vm::run_regs(0, regs, code, vars, host, j) is Some) by {
                    if reg_vm::run_regs(0, regs, code, vars, host, j) is Some {
                        let more = if j >= n {
                            j
                        } else {
                            n
                        };
                        reg_vm::law_run_stable(0, regs, code, vars, host, j, more);
                        lemma_run_block(code, k, regs, vars, host, more);
                    }
                }
            },
        }
    }
}

proof fn lemma_all_free(n: nat)
    ensures
        count_free(Seq::new(n, |k: int| true)) == n,
    decreases n,
{
    if n > 0 {
        let s = Seq::new(n, |k: int| true);
        assert(s.drop_last() =~= Seq::new((n - 1) as nat, |k: int| true));
        lemma_all_free((n - 1) as nat);
    }
}

/// Compiles an expression for the register machine. The expression must not take more
/// registers than there are, nor have more constants or more variables than an index can tell
/// apart.
pub fn compile_reg(expr: &Expression) -> (r: Result<RegProgram, String>)
    requires
        registers(expr.expr) <= REGISTERS,
        consts_of(expr.expr, Seq::empty()).len() <= POOL,
        names_of(expr.expr, Seq::empty()).len() <= POOL,
        !overflows(expr.expr),
    ensures
        match r {
            Ok(p) => {
                &&& refusal(expr.expr) is None
                &&& p@.constants == consts_of(expr.expr, Seq::empty())
                &&& p@.var_names == names_of(expr.expr, Seq::empty())
                &&& well_built(p@)
                &&& runs_as(p@, expr.expr)
            },
            Err(m) => refusal(expr.expr) == Some(m@),
        },
{
    let mut c = RegCompiler::new();
    let ghost p0 = c@;
    proof {
        lemma_all_free(REGISTERS as nat);
        assert(p0.constants =~= Seq::empty());
        assert(p0.names =~= Seq::empty());
    }
    let reg = match c.compile_expr(&expr.expr) {
        Ok(reg) => reg,
        Err(m) => {
            return Err(m);
        },
    };
    let ghost body = c@.instructions;
    assert(since(p0, c@) =~= body);
    c.emit(RegInstr::Halt(reg));
    let p = RegProgram {
        constants: c.constants,
        var_names: c.var_names,
        instructions: c.instructions,
    };
    proof {
        assert(p@.instructions.drop_last() =~= body);
        lemma_runs_as(p@, expr.expr, body, reg, p0.free);
    }
    Ok(p)
}

} // verus!
