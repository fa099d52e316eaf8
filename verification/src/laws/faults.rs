//! Laws of what ends an evaluation, and a program of the machines, with a fault.

use crate::common::ast;
use crate::common::ast::{CallExpr, EntryExpr, Expr, IdedEntryExpr, IdedExpr};
use crate::common::functions;
use crate::common::functions::Function;
use crate::context;
use crate::context::Scope;
use crate::error::{Fault, Outcome, Req};
use crate::laws::collections::can_be_key;
use crate::objects::{KeyVal, Val};
use crate::patterns;
use crate::semantics;
use crate::vm::bytecode::{Code, Instr};
use crate::vm::filter_tree;
use crate::vm::filter_tree::FilterNode;
use crate::vm::reg_bytecode::{RegCode, RegInstr};
use crate::vm::reg_fast_vm;
use crate::vm::reg_vm;
use crate::vm::reg_vm::RegStep;
use crate::vm::vm;
use crate::vm::vm::{Mach, Step};
use vstd::prelude::*;

verus! {

/// A program that returns with nothing on the stack tells so, and what takes a boolean, a text, a
/// list or a map refuses the rest.
pub proof fn law_stack_faults(
    m: Mach,
    code: Code,
    vars: Seq<Val>,
    host: Seq<(Req, Outcome)>,
    v: Val,
    rest: Seq<Val>,
    offset: i16,
    k: u16,
)
    ensures
        ({
            let does = |i: Instr| vm::instr_step(i, m, code, vars, host);
            let refused = Step::Done(Err(Fault::NoSuchOverload));
            let told = |t: Seq<char>| Step::Done(Err(Fault::InternalError(t)));
            &&& m.stack.len() == 0 ==> does(Instr::Halt) == told("empty stack at return"@)
                && does(Instr::Return) == told("empty stack at return"@)
            &&& m.stack == rest.push(v) ==> {
                &&& !(v is Bool) ==> does(Instr::Not) == refused
                &&& !(v is Bool) ==> does(Instr::JumpIfFalse(offset)) == refused
                &&& !(v is Bool) ==> does(Instr::JumpIfTrue(offset)) == refused
                &&& !(v is Bool) ==> does(Instr::JumpIfFalseKeep(offset)) == refused
                &&& !(v is Bool) ==> does(Instr::JumpIfTrueKeep(offset)) == refused
                &&& !(v is Int || v is Float) ==> does(Instr::Neg) is Done
                &&& !(v is List || v is Dict || v is String || v is Bytes) ==> does(Instr::Size)
                    == refused
                &&& !(v is List || v is Dict) ==> does(Instr::IterInit) == refused
                &&& k < code.regexes.len() ==> match v {
                    Val::String(s) => does(Instr::MatchesCompiled(k)) matches Step::Next(n)
                        && n.stack == rest.push(
                        Val::Bool(patterns::regex_found(code.regexes[k as int], s)),
                    ) && n.pc == m.pc + 1,
                    _ => does(Instr::MatchesCompiled(k)) == refused,
                }
                &&& k < code.constants.len() && !(code.constants[k as int] is String) ==> {
                    &&& does(Instr::Select(k)) == told("select non-string"@)
                    &&& does(Instr::HasField(k)) == told("has_field non-string"@)
                }
            }
        }),
{
    if m.stack == rest.push(v) {
        assert(m.stack.drop_last() =~= rest);
        assert(m.stack.last() == v);
    }
}

/// What is no key is in no map and leads to no entry of one; what is no number is no position; and
/// a position outside of a list or a text is told as it was given.
pub proof fn law_container_faults(
    a: Val,
    m: Seq<(KeyVal, Val)>,
    items: Seq<Val>,
    s: Seq<char>,
    host: Seq<(Req, Outcome)>,
)
    ensures
        ({
            let of_map = |i: Instr| vm::binary_step(i, Val::Dict(m), a, host);
            let of_list = vm::binary_step(Instr::Index, Val::List(items), a, host);
            let of_text = vm::binary_step(Instr::Index, Val::String(s), a, host);
            let outside = |at: i64|
                Some(Err::<Val, Fault>(Fault::IndexOutOfBounds(Val::Int(at))));
            &&& !can_be_key(a) ==> vm::binary_step(Instr::In, a, Val::Dict(m), host) == Some(
                Err::<Val, Fault>(Fault::UnsupportedKeyType(a)),
            )
            &&& !can_be_key(a) ==> of_map(Instr::Index) == Some(
                Err::<Val, Fault>(Fault::UnsupportedKeyType(a)),
            )
            &&& !(a is Int || a is UInt) ==> of_list == Some(
                Err::<Val, Fault>(Fault::UnsupportedListIndex(a)),
            ) && of_text == of_list
            &&& a matches Val::Int(i) ==> {
                &&& i < 0 || i >= items.len() ==> of_list == outside(i)
                &&& i < 0 || i >= s.len() ==> of_text == outside(i)
            }
            &&& a matches Val::UInt(u) ==> u <= 0x7fff_ffff_ffff_ffff ==> {
                &&& u >= items.len() ==> of_list == outside(u as i64)
                &&& u >= s.len() ==> of_text == outside(u as i64)
            }
        }),
{
}

/// The functions of the machines take one argument, but for the largest, which takes any number
/// but none; there are no others, and a value that one does not take is refused.
pub proof fn law_builtin_faults(id: u16, args: Seq<Val>, host: Seq<(Req, Outcome)>)
    ensures
        ({
            let o = vm::builtin_result(id, args, host);
            &&& id > 6 ==> o == Err::<Val, Fault>(Fault::UndeclaredReference("unknown builtin"@))
            &&& id == 5 && args.len() == 0 ==> o == Err::<Val, Fault>(
                Fault::InvalidArgumentCount(1, 0),
            )
            &&& id <= 6 && id != 5 && args.len() != 1 ==> o == Err::<Val, Fault>(
                Fault::InvalidArgumentCount(1, args.len()),
            )
            &&& args.len() == 1 && (id == 1 || id == 3) && !(args[0] is Int || args[0] is UInt
                || args[0] is Float || args[0] is String) ==> o == Err::<Val, Fault>(
                Fault::NoSuchOverload,
            )
            &&& args.len() == 1 && id == 0 && !(args[0] is List || args[0] is Dict
                || args[0] is String || args[0] is Bytes) ==> o == Err::<Val, Fault>(
                Fault::NoSuchOverload,
            )
        }),
{
}

/// Where a step of the register machines faults, the program ends with the fault; a constant that
/// is to be a name or a text has to be one.
pub proof fn law_register_faults(
    regs: Seq<Val>,
    code: RegCode,
    vars: Seq<Val>,
    host: Seq<(Req, Outcome)>,
    d: u8,
    a: u8,
    k: u16,
    offset: i16,
)
    requires
        a < regs.len(),
        d < regs.len(),
        k < code.constants.len(),
    ensures
        ({
            let does = |i: RegInstr| reg_vm::reg_step(i, regs, code, vars, host);
            let fast = |i: RegInstr| reg_fast_vm::fast_step(i, regs, code, host);
            let told = |t: Seq<char>| RegStep::Done(Err(Fault::InternalError(t)));
            let refused = RegStep::Done(Err(Fault::NoSuchOverload));
            let v = regs[a as int];
            let named = code.constants[k as int] is String;
            &&& !named ==> {
                &&& does(RegInstr::Select(d, a, k)) == told("select non-string"@)
                &&& fast(RegInstr::Select(d, a, k)) == told("select non-string"@)
                &&& does(RegInstr::HasField(d, a, k)) == told("has_field non-string"@)
                &&& fast(RegInstr::HasField(d, a, k)) == told("has_field non-string"@)
                &&& fast(RegInstr::EqStrConst(d, a, k)) == told(
                    "EqStrConst with non-string const"@,
                )
            }
            &&& !(v is Bool) ==> {
                &&& does(RegInstr::Not(d, a)) == refused
                &&& fast(RegInstr::Not(d, a)) == refused
                &&& does(RegInstr::JumpIfFalse(a, offset)) == refused
                &&& fast(RegInstr::JumpIfTrue(a, offset)) == refused
            }
            &&& !(v is List || v is Dict || v is String || v is Bytes) ==> {
                &&& does(RegInstr::Size(d, a)) == refused
                &&& fast(RegInstr::Size(d, a)) == refused
            }
            &&& named && !(v is Dict) ==> {
                &&& does(RegInstr::Select(d, a, k)) == refused
                &&& fast(RegInstr::Select(d, a, k)) == refused
                &&& does(RegInstr::HasField(d, a, k)) == RegStep::Next(
                    0,
                    regs.update(d as int, Val::Bool(false)),
                )
            }
        }),
{
}

/// The parts of a call, a list, a map or a struct are evaluated from left to right, in an entry
/// the key before the value, and the first fault is what the whole comes to. A key has to be of a
/// type that keys have.
pub proof fn law_first_fault(
    s: Seq<IdedExpr>,
    t: Seq<IdedEntryExpr>,
    p: Seq<usize>,
    optional: Seq<usize>,
    c: Scope,
)
    ensures
        s.len() > 0 ==> ({
            let last = semantics::eval_expr(s.last().expr, semantics::to_arg(p, s.len() - 1), c);
            let args = semantics::eval_args(s.drop_last(), p, c);
            let items = semantics::eval_elements(s.drop_last(), p, optional, c);
            &&& args matches Err(f) ==> semantics::eval_args(s, p, c) == Err::<Seq<Val>, Fault>(f)
            &&& args is Ok ==> (last matches Err(f) ==> semantics::eval_args(s, p, c) == Err::<
                Seq<Val>,
                Fault,
            >(f))
            &&& items matches Err(f) ==> semantics::eval_elements(s, p, optional, c) == Err::<
                Seq<Val>,
                Fault,
            >(f)
            &&& items is Ok ==> (last matches Err(f) ==> semantics::eval_elements(s, p, optional, c)
                == Err::<Seq<Val>, Fault>(f))
        }),
        t.len() > 0 ==> match t.last().expr {
            EntryExpr::MapEntry(m) => {
                let q = semantics::to_arg(p, t.len() - 1);
                let before = semantics::eval_entries(t.drop_last(), p, c);
                let k = semantics::eval_expr(m.key.expr, q.push(0), c);
                let v = semantics::eval_expr(m.value.expr, q.push(1), c);
                let all = semantics::eval_entries(t, p, c);
                match (before, k, v) {
                    (Err(f), _, _) => all == Err::<Seq<(KeyVal, Val)>, Fault>(f),
                    (_, Err(f), _) => all == Err::<Seq<(KeyVal, Val)>, Fault>(f),
                    (_, _, Err(f)) => all == Err::<Seq<(KeyVal, Val)>, Fault>(f),
                    (Ok(_), Ok(x), Ok(_)) => !can_be_key(x) ==> all == Err::<
                        Seq<(KeyVal, Val)>,
                        Fault,
                    >(Fault::UnsupportedKeyType(x)),
                }
            },
            EntryExpr::StructField(g) => {
                let before = semantics::eval_fields(t.drop_last(), p, c);
                let v = semantics::eval_expr(
                    g.value.expr,
                    semantics::to_arg(p, t.len() - 1),
                    c,
                );
                let all = semantics::eval_fields(t, p, c);
                match (before, v) {
                    (Err(f), _) => all == Err::<Seq<(Seq<char>, Val)>, Fault>(f),
                    (_, Err(f)) => all == Err::<Seq<(Seq<char>, Val)>, Fault>(f),
                    _ => true,
                }
            },
        },
{
}

/// A call that was resolved is a call of that function, on the values of its arguments from left
/// to right, behind that of the variable that it is called on.
pub proof fn law_resolved_calls(
    call: CallExpr,
    p: Seq<usize>,
    c: Scope,
    op: Function,
    a: Val,
    b: Val,
    prefix: String,
)
    requires
        ast::operator_of(call.func_name@) is None,
        call.resolved_op == Some(op),
    ensures
        ({
            let o = semantics::eval_expr(Expr::Call(call), p, c);
            let arg = |i: int| semantics::eval_expr(call.args@[i].expr, semantics::to_arg(p, i), c);
            &&& call.target is None && call.args@.len() == 2 && arg(0) == Ok::<Val, Fault>(a)
                && arg(1) == Ok::<Val, Fault>(b) ==> o == functions::call_result(
                op,
                seq![a, b],
                c.host,
                context::site(c, p),
            )
            &&& (call.target matches Some(t) && t.expr == Expr::Ident(prefix)) && call.args@.len()
                == 1 && context::variable(c, prefix@) == Some(a) && arg(0) == Ok::<Val, Fault>(b)
                ==> o == functions::call_result(op, seq![a, b], c.host, context::site(c, p))
        }),
{
    let s = call.args@;
    if call.target is None && s.len() == 2 {
        lemma_two_values(s, p, c, a, b);
    }
    if call.target is Some && s.len() == 1 {
        lemma_one_value(s, p, c, b);
        assert(seq![a] + seq![b] =~= seq![a, b]);
        let t = semantics::eval_expr(Expr::Ident(prefix), semantics::to_target(p), c);
        assert(context::variable(c, prefix@) == Some(a) ==> t == Ok::<Val, Fault>(a));
    }
}

proof fn lemma_one_value(s: Seq<IdedExpr>, p: Seq<usize>, c: Scope, b: Val)
    requires
        s.len() == 1,
    ensures
        semantics::eval_expr(s[0].expr, semantics::to_arg(p, 0), c) == Ok::<Val, Fault>(b)
            ==> semantics::eval_args(s, p, c) == Ok::<Seq<Val>, Fault>(seq![b]),
{
    reveal_with_fuel(semantics::eval_args, 2);
    assert(s.drop_last() =~= Seq::empty());
    assert(Seq::<Val>::empty().push(b) =~= seq![b]);
}

proof fn lemma_two_values(s: Seq<IdedExpr>, p: Seq<usize>, c: Scope, a: Val, b: Val)
    requires
        s.len() == 2,
    ensures
        semantics::eval_expr(s[0].expr, semantics::to_arg(p, 0), c) == Ok::<Val, Fault>(a)
            && semantics::eval_expr(s[1].expr, semantics::to_arg(p, 1), c) == Ok::<Val, Fault>(b)
            ==> semantics::eval_args(s, p, c) == Ok::<Seq<Val>, Fault>(seq![a, b]),
{
    assert(s.drop_last()[0] == s[0]);
    lemma_one_value(s.drop_last(), p, c, a);
    assert(seq![a].push(b) =~= seq![a, b]);
}

/// A conjunction or a disjunction costs what its sides cost together, at most 255, and a negation
/// what is negated.
pub proof fn law_joined_costs(a: Box<FilterNode>, b: Box<FilterNode>)
    ensures
        ({
            let sum = filter_tree::cost_of(*a) + filter_tree::cost_of(*b);
            let total: int = if sum > 255 {
                255
            } else {
                sum
            };
            &&& filter_tree::cost_of(FilterNode::And(a, b)) == total
            &&& filter_tree::cost_of(FilterNode::Or(a, b)) == total
            &&& filter_tree::cost_of(FilterNode::Not(a)) == filter_tree::cost_of(*a)
        }),
{
}

} // verus!
