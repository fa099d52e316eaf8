//! Laws of the register machines, of the words in which one of them keeps its values, and of the
//! closures and filters that are read off its programs.

use crate::error::{Fault, Outcome, Req};
use crate::laws::collections::{has_key, is_entry, lemma_entry};
use crate::laws::machines::lemma_cropped;
use crate::laws::stack::lemma_is_entry;
use crate::objects::Val;
use crate::vm::bytecode::Instr;
use crate::vm::enum_filter;
use crate::vm::enum_filter::{EnumModel, IntRel};
use crate::vm::fast_value;
use crate::vm::reg_bytecode::{RegCode, RegInstr};
use crate::vm::reg_closure_vm;
use crate::vm::reg_closure_vm::ClosureModel;
use crate::vm::reg_fast_vm;
use crate::vm::reg_vm;
use crate::vm::reg_vm::RegStep;
use crate::vm::vm;
use vstd::prelude::*;

verus! {

/// A step wrote a value into a register, left the others alone, and goes on at the next
/// instruction.
pub open spec fn wrote(s: RegStep, regs: Seq<Val>, d: u8, v: Val) -> bool {
    &&& s matches RegStep::Next(far, after)
    &&& far == 0
    &&& after.len() == regs.len()
    &&& d < regs.len()
    &&& after[d as int] == v
    &&& forall|k: int| 0 <= k < regs.len() && k != d ==> #[trigger] after[k] == regs[k]
}

/// What an outcome makes of a step: a value is written into a register, a fault ends the program,
/// and where there is neither the machine is stuck.
pub open spec fn comes_to(s: RegStep, regs: Seq<Val>, d: u8, o: Option<Outcome>) -> bool {
    match o {
        Some(Ok(v)) => wrote(s, regs, d, v),
        Some(Err(f)) => s == RegStep::Done(Err::<Val, Fault>(f)),
        None => s == RegStep::Stuck,
    }
}

/// The register machine loads variables and constants, copies registers, ends with a register,
/// and jumps, on a boolean or without one.
pub proof fn law_register_moves(
    regs: Seq<Val>,
    code: RegCode,
    vars: Seq<Val>,
    host: Seq<(Req, Outcome)>,
    d: u8,
    a: u8,
    k: u16,
    far: i16,
)
    requires
        d < regs.len(),
        a < regs.len(),
    ensures
        k < vars.len() ==> wrote(
            reg_vm::reg_step(RegInstr::LoadVar(d, k), regs, code, vars, host),
            regs,
            d,
            vars[k as int],
        ),
        k < code.constants.len() ==> wrote(
            reg_vm::reg_step(RegInstr::LoadConst(d, k), regs, code, vars, host),
            regs,
            d,
            code.constants[k as int],
        ),
        wrote(
            reg_vm::reg_step(RegInstr::Move(d, a), regs, code, vars, host),
            regs,
            d,
            regs[a as int],
        ),
        reg_vm::reg_step(RegInstr::Halt(a), regs, code, vars, host) == RegStep::Done(
            Ok::<Val, Fault>(regs[a as int]),
        ),
        reg_vm::reg_step(RegInstr::Jump(far), regs, code, vars, host) == RegStep::Next(
            far as int,
            regs,
        ),
        regs[a as int] == Val::Bool(true) ==> reg_vm::reg_step(
            RegInstr::JumpIfTrue(a, far),
            regs,
            code,
            vars,
            host,
        ) == RegStep::Next(far as int, regs) && reg_vm::reg_step(
            RegInstr::JumpIfFalse(a, far),
            regs,
            code,
            vars,
            host,
        ) == RegStep::Next(0, regs),
        regs[a as int] == Val::Bool(false) ==> reg_vm::reg_step(
            RegInstr::JumpIfFalse(a, far),
            regs,
            code,
            vars,
            host,
        ) == RegStep::Next(far as int, regs) && reg_vm::reg_step(
            RegInstr::JumpIfTrue(a, far),
            regs,
            code,
            vars,
            host,
        ) == RegStep::Next(0, regs),
{
}

/// An operation of the register machine on two registers is that of the stack machine on their
/// values, in their order; the result goes to the first register named.
pub proof fn law_register_operations(
    regs: Seq<Val>,
    code: RegCode,
    vars: Seq<Val>,
    host: Seq<(Req, Outcome)>,
    d: u8,
    a: u8,
    b: u8,
)
    requires
        d < regs.len(),
        a < regs.len(),
        b < regs.len(),
    ensures
        ({
            let x = regs[a as int];
            let y = regs[b as int];
            let does = |i: RegInstr, j: Instr|
                comes_to(
                    reg_vm::reg_step(i, regs, code, vars, host),
                    regs,
                    d,
                    vm::binary_step(j, x, y, host),
                );
            &&& does(RegInstr::Add(d, a, b), Instr::Add)
            &&& does(RegInstr::Sub(d, a, b), Instr::Sub)
            &&& does(RegInstr::Mul(d, a, b), Instr::Mul)
            &&& does(RegInstr::Div(d, a, b), Instr::Div)
            &&& does(RegInstr::Mod(d, a, b), Instr::Mod)
            &&& does(RegInstr::Eq(d, a, b), Instr::Eq)
            &&& does(RegInstr::Ne(d, a, b), Instr::Ne)
            &&& does(RegInstr::Lt(d, a, b), Instr::Lt)
            &&& does(RegInstr::Le(d, a, b), Instr::Le)
            &&& does(RegInstr::Gt(d, a, b), Instr::Gt)
            &&& does(RegInstr::Ge(d, a, b), Instr::Ge)
            &&& does(RegInstr::LogicalAnd(d, a, b), Instr::LogicalAnd)
            &&& does(RegInstr::LogicalOr(d, a, b), Instr::LogicalOr)
            &&& does(RegInstr::Index(d, a, b), Instr::Index)
            &&& does(RegInstr::In(d, a, b), Instr::In)
        }),
{
}

/// `Not`, `Neg` and `Size` on a register.
pub proof fn law_register_unary(
    regs: Seq<Val>,
    code: RegCode,
    vars: Seq<Val>,
    host: Seq<(Req, Outcome)>,
    d: u8,
    a: u8,
)
    requires
        d < regs.len(),
        a < regs.len(),
    ensures
        ({
            let not = reg_vm::reg_step(RegInstr::Not(d, a), regs, code, vars, host);
            let neg = reg_vm::reg_step(RegInstr::Neg(d, a), regs, code, vars, host);
            let size = reg_vm::reg_step(RegInstr::Size(d, a), regs, code, vars, host);
            let refused = RegStep::Done(Err::<Val, Fault>(Fault::NoSuchOverload));
            let sized = |n: nat|
                n <= i64::MAX && n <= usize::MAX ==> wrote(size, regs, d, Val::Int(n as i64));
            match regs[a as int] {
                Val::Bool(b) => wrote(not, regs, d, Val::Bool(!b)) && neg == refused && size
                    == refused,
                Val::Int(x) => not == refused && size == refused && (x != -0x8000_0000_0000_0000
                    ==> wrote(neg, regs, d, Val::Int((0 - x) as i64))),
                Val::String(t) => sized(t.len()),
                Val::List(t) => sized(t.len()),
                Val::Dict(t) => sized(t.len()),
                Val::Bytes(t) => sized(t.len()),
                _ => not == refused,
            }
        }),
{
}

/// A field of a register, by a constant that is its name, and whether it is there.
pub proof fn law_register_fields(
    regs: Seq<Val>,
    code: RegCode,
    vars: Seq<Val>,
    host: Seq<(Req, Outcome)>,
    d: u8,
    a: u8,
    k: u16,
    name: Seq<char>,
    x: Val,
)
    requires
        d < regs.len(),
        a < regs.len(),
        k < code.constants.len(),
        code.constants[k as int] == Val::String(name),
    ensures
        ({
            let get = reg_vm::reg_step(RegInstr::Select(d, a, k), regs, code, vars, host);
            let has = reg_vm::reg_step(RegInstr::HasField(d, a, k), regs, code, vars, host);
            let f = Val::String(name);
            match regs[a as int] {
                Val::Dict(m) => {
                    &&& is_entry(m, f, x) ==> wrote(get, regs, d, x)
                    &&& !has_key(m, f) ==> get == RegStep::Done(Err(Fault::NoSuchKey(name)))
                    &&& wrote(has, regs, d, Val::Bool(has_key(m, f)))
                },
                _ => get == RegStep::Done(Err(Fault::NoSuchOverload)) && wrote(
                    has,
                    regs,
                    d,
                    Val::Bool(false),
                ),
            }
        }),
{
    match regs[a as int] {
        Val::Dict(m) => {
            lemma_entry(m, Val::String(name));
            lemma_is_entry(m, Val::String(name), x);
        },
        _ => {},
    }
}

/// A builtin function finds its arguments in the registers behind the one that it writes.
pub proof fn law_register_call(
    regs: Seq<Val>,
    code: RegCode,
    vars: Seq<Val>,
    host: Seq<(Req, Outcome)>,
    d: u8,
    id: u16,
    n: u16,
    args: Seq<Val>,
)
    requires
        d + 1 + n <= regs.len(),
        args.len() == n,
        forall|k: int| 0 <= k < n ==> #[trigger] args[k] == regs[d + 1 + k],
    ensures
        comes_to(
            reg_vm::reg_step(RegInstr::Call(d, id, n), regs, code, vars, host),
            regs,
            d,
            Some(vm::builtin_result(id, args, host)),
        ),
{
    assert(regs.subrange(d + 1, d + 1 + n) =~= args);
}

/// Of an integer a word keeps 63 bits: the same integer where it fits in them, and else the one
/// that is as far from it as a multiple of all that fit.
pub proof fn law_words_keep(i: i64)
    ensures
        -0x4000_0000_0000_0000 <= fast_value::int_held(i) < 0x4000_0000_0000_0000,
        (fast_value::int_held(i) - i) % 0x8000_0000_0000_0000 == 0,
        -0x4000_0000_0000_0000 <= i < 0x4000_0000_0000_0000 ==> fast_value::int_held(i) == i,
{
}

/// A word stands for the value that it was made for, as far as a word keeps it, once that value
/// has its place; different small values have different words.
pub proof fn law_words_stand(w: u64, v: Val, places: Seq<Val>)
    requires
        fast_value::word_of(w, v, places.len()),
    ensures
        fast_value::word_value(w, places.push(v)) == fast_value::held(v),
        fast_value::placed(w, places.push(v)),
        !(v is Int) ==> fast_value::held(v) == v,
        v matches Val::Int(i) ==> fast_value::held(v) == Val::Int(fast_value::int_held(i)),
{
}

/// An integer as a word keeps it.
pub open spec fn kept(z: i64, n: int) -> bool {
    -0x4000_0000_0000_0000 <= z < 0x4000_0000_0000_0000 && (z - n) % 0x8000_0000_0000_0000 == 0
}

/// On the machine of words sums, differences and products of integers are those of the integers,
/// as far as a word keeps them.
pub proof fn law_word_arithmetic(
    regs: Seq<Val>,
    code: RegCode,
    host: Seq<(Req, Outcome)>,
    d: u8,
    a: u8,
    b: u8,
    x: i64,
    y: i64,
) -> (r: (i64, i64, i64))
    requires
        d < regs.len(),
        a < regs.len(),
        b < regs.len(),
        regs[a as int] == Val::Int(x),
        regs[b as int] == Val::Int(y),
    ensures
        ({
            let (sum, difference, product) = r;
            let step = |i: RegInstr| reg_fast_vm::fast_step(i, regs, code, host);
            &&& wrote(step(RegInstr::AddInt(d, a, b)), regs, d, Val::Int(sum))
            &&& wrote(step(RegInstr::SubInt(d, a, b)), regs, d, Val::Int(difference))
            &&& wrote(step(RegInstr::MulInt(d, a, b)), regs, d, Val::Int(product))
            &&& kept(sum, x + y)
            &&& kept(difference, x - y)
            &&& kept(product, x * y)
        }),
{
    let p = x.wrapping_mul(y);
    lemma_cropped(x * y, p as int);
    lemma_kept(x.wrapping_add(y), x + y);
    lemma_kept(x.wrapping_sub(y), x - y);
    lemma_kept(p, x * y);
    (
        fast_value::int_held(x.wrapping_add(y)),
        fast_value::int_held(x.wrapping_sub(y)),
        fast_value::int_held(p),
    )
}

proof fn lemma_kept(z: i64, n: int)
    requires
        (z - n) % 0x1_0000_0000_0000_0000 == 0,
    ensures
        kept(fast_value::int_held(z), n),
{
    law_words_keep(z);
    let h = fast_value::int_held(z);
    let q = (z - n) / 0x1_0000_0000_0000_0000;
    assert(z - n == 0x1_0000_0000_0000_0000 * q);
    let e: int = if h == z {
        0
    } else if h < z {
        -1
    } else {
        1
    };
    assert(h - z == 0x8000_0000_0000_0000 * e);
    let k = e + 2 * q;
    assert(h - n == 0x8000_0000_0000_0000 * k);
    assert((0x8000_0000_0000_0000 * k) % 0x8000_0000_0000_0000 == 0) by (nonlinear_arith);
}

/// An operation of the machine of words on two registers is that of the other machines on their
/// values, as far as a word keeps its result.
pub proof fn law_word_operations(
    regs: Seq<Val>,
    code: RegCode,
    host: Seq<(Req, Outcome)>,
    d: u8,
    a: u8,
    b: u8,
)
    requires
        d < regs.len(),
        a < regs.len(),
        b < regs.len(),
    ensures
        ({
            let x = regs[a as int];
            let y = regs[b as int];
            let does = |i: RegInstr, j: Instr|
                comes_to(
                    reg_fast_vm::fast_step(i, regs, code, host),
                    regs,
                    d,
                    match vm::binary_step(j, x, y, host) {
                        Some(Ok(v)) => Some(Ok(fast_value::held(v))),
                        o => o,
                    },
                );
            &&& does(RegInstr::AddInt(d, a, b), Instr::Add)
            &&& does(RegInstr::SubInt(d, a, b), Instr::Sub)
            &&& does(RegInstr::MulInt(d, a, b), Instr::Mul)
            &&& does(RegInstr::DivInt(d, a, b), Instr::Div)
            &&& does(RegInstr::ModInt(d, a, b), Instr::Mod)
            &&& does(RegInstr::Eq(d, a, b), Instr::Eq)
            &&& does(RegInstr::Ne(d, a, b), Instr::Ne)
            &&& does(RegInstr::Lt(d, a, b), Instr::Lt)
            &&& does(RegInstr::Le(d, a, b), Instr::Le)
            &&& does(RegInstr::Gt(d, a, b), Instr::Gt)
            &&& does(RegInstr::Ge(d, a, b), Instr::Ge)
            &&& does(RegInstr::And(d, a, b), Instr::LogicalAnd)
            &&& does(RegInstr::Or(d, a, b), Instr::LogicalOr)
            &&& does(RegInstr::Index(d, a, b), Instr::Index)
            &&& does(RegInstr::In(d, a, b), Instr::In)
        }),
{
}

/// A comparison of a register with an integer says of an integer what the integers say; of
/// anything else only that it is different, unless it is a number.
pub proof fn law_word_comparisons(
    regs: Seq<Val>,
    code: RegCode,
    host: Seq<(Req, Outcome)>,
    d: u8,
    a: u8,
    k: i64,
)
    requires
        d < regs.len(),
        a < regs.len(),
    ensures
        ({
            let says = |i: RegInstr, b: bool|
                wrote(reg_fast_vm::fast_step(i, regs, code, host), regs, d, Val::Bool(b));
            match regs[a as int] {
                Val::Int(x) => {
                    &&& says(RegInstr::EqIntConst(d, a, k), x == k)
                    &&& says(RegInstr::NeIntConst(d, a, k), x != k)
                    &&& says(RegInstr::LtIntConst(d, a, k), x < k)
                    &&& says(RegInstr::LeIntConst(d, a, k), x <= k)
                    &&& says(RegInstr::GtIntConst(d, a, k), x > k)
                    &&& says(RegInstr::GeIntConst(d, a, k), x >= k)
                },
                Val::UInt(_) | Val::Float(_) => true,
                _ => {
                    &&& says(RegInstr::EqIntConst(d, a, k), false)
                    &&& says(RegInstr::NeIntConst(d, a, k), true)
                    &&& says(RegInstr::LtIntConst(d, a, k), false)
                    &&& says(RegInstr::LeIntConst(d, a, k), false)
                    &&& says(RegInstr::GtIntConst(d, a, k), false)
                    &&& says(RegInstr::GeIntConst(d, a, k), false)
                },
            }
        }),
{
}

/// A test of a register against constants: that it is a text, or one of a list's integers or
/// texts.
pub proof fn law_word_sets(
    regs: Seq<Val>,
    code: RegCode,
    host: Seq<(Req, Outcome)>,
    d: u8,
    a: u8,
    k: u16,
)
    requires
        d < regs.len(),
        a < regs.len(),
        k < code.constants.len(),
    ensures
        ({
            let v = regs[a as int];
            let says = |i: RegInstr, b: bool|
                wrote(reg_fast_vm::fast_step(i, regs, code, host), regs, d, Val::Bool(b));
            &&& code.constants[k as int] is String ==> says(
                RegInstr::EqStrConst(d, a, k),
                v == code.constants[k as int],
            )
            &&& code.constants[k as int] matches Val::List(l) ==> {
                &&& v is Int ==> says(
                    RegInstr::InIntSet(d, a, k),
                    exists|j: int| 0 <= j < l.len() && l[j] == v,
                )
                &&& v is String ==> says(
                    RegInstr::InStrSet(d, a, k),
                    exists|j: int| 0 <= j < l.len() && l[j] == v,
                )
            }
        }),
{
}

/// The machine of words moves values, ends and jumps as the other register machine does; its
/// integers are kept as words keep them.
pub proof fn law_word_moves(
    regs: Seq<Val>,
    code: RegCode,
    vars: Seq<Val>,
    host: Seq<(Req, Outcome)>,
    d: u8,
    a: u8,
    k: u16,
    far: i16,
    i: i64,
    b: bool,
)
    requires
        d < regs.len(),
        a < regs.len(),
    ensures
        ({
            let step = |j: RegInstr| reg_fast_vm::fast_step(j, regs, code, host);
            let other = |j: RegInstr| reg_vm::reg_step(j, regs, code, vars, host);
            &&& step(RegInstr::Halt(a)) == other(RegInstr::Halt(a))
            &&& step(RegInstr::Move(d, a)) == other(RegInstr::Move(d, a))
            &&& step(RegInstr::Jump(far)) == other(RegInstr::Jump(far))
            &&& step(RegInstr::JumpIfTrue(a, far)) == other(RegInstr::JumpIfTrue(a, far))
            &&& step(RegInstr::JumpIfFalse(a, far)) == other(RegInstr::JumpIfFalse(a, far))
            &&& k < code.constants.len() ==> wrote(
                step(RegInstr::LoadConst(d, k)),
                regs,
                d,
                fast_value::held(code.constants[k as int]),
            )
            &&& wrote(step(RegInstr::LoadConstBool(d, b)), regs, d, Val::Bool(b))
            &&& wrote(
                step(RegInstr::LoadConstInt(d, i)),
                regs,
                d,
                Val::Int(fast_value::int_held(i)),
            )
            &&& regs[a as int] matches Val::Bool(x) ==> wrote(
                step(RegInstr::Not(d, a)),
                regs,
                d,
                Val::Bool(!x),
            )
            &&& regs[a as int] matches Val::Int(x) ==> (x != -0x8000_0000_0000_0000 ==> wrote(
                step(RegInstr::NegInt(d, a)),
                regs,
                d,
                Val::Int(fast_value::int_held((0 - x) as i64)),
            ))
        }),
{
}

/// Fields on the machine of words are those of the other register machine, as words keep them.
pub proof fn law_word_fields(
    regs: Seq<Val>,
    code: RegCode,
    vars: Seq<Val>,
    host: Seq<(Req, Outcome)>,
    d: u8,
    a: u8,
    k: u16,
)
    requires
        d < regs.len(),
        a < regs.len(),
    ensures
        ({
            let step = |j: RegInstr| reg_fast_vm::fast_step(j, regs, code, host);
            let other = |j: RegInstr| reg_vm::reg_step(j, regs, code, vars, host);
            let same = |j: RegInstr|
                match other(j) {
                    RegStep::Next(far, after) => step(j) == RegStep::Next(
                        far,
                        regs.update(d as int, fast_value::held(after[d as int])),
                    ),
                    o => step(j) == o,
                };
            &&& same(RegInstr::Select(d, a, k))
            &&& same(RegInstr::HasField(d, a, k))
            &&& same(RegInstr::Size(d, a))
        }),
{
}

/// What a closure that was read off a program says of its registers, and where it leaves that.
pub proof fn law_closures(
    c: ClosureModel,
    regs: Seq<Val>,
    host: Seq<(Req, Outcome)>,
    room: nat,
)
    ensures
        ({
            let (o, after) = reg_closure_vm::closure_run(c, regs, host, room);
            &&& c matches ClosureModel::NeInt(s, k) ==> s < regs.len() ==> {
                let yes = regs[s as int] matches Val::Int(i) && i != k;
                o == Ok::<Val, Fault>(Val::Bool(yes)) && after == regs.update(
                    s as int,
                    Val::Bool(yes),
                )
            }
            &&& c matches ClosureModel::IntTest(RegInstr::EqIntConst(_, _, _), s, k) ==> match regs[s as int] {
                Val::Int(i) => s < regs.len() ==> o == Ok::<Val, Fault>(Val::Bool(i == k)) && after
                    == regs.update(s as int, Val::Bool(i == k)),
                _ => true,
            }
            &&& c matches ClosureModel::IntTest(RegInstr::NeIntConst(_, _, _), s, k) ==> match regs[s as int] {
                Val::Int(i) => s < regs.len() ==> o == Ok::<Val, Fault>(Val::Bool(i != k)) && after
                    == regs.update(s as int, Val::Bool(i != k)),
                _ => true,
            }
            &&& c matches ClosureModel::IntTest(RegInstr::LtIntConst(_, _, _), s, k) ==> match regs[s as int] {
                Val::Int(i) => s < regs.len() ==> o == Ok::<Val, Fault>(Val::Bool(i < k)) && after
                    == regs.update(s as int, Val::Bool(i < k)),
                _ => true,
            }
            &&& c matches ClosureModel::IntTest(RegInstr::LeIntConst(_, _, _), s, k) ==> match regs[s as int] {
                Val::Int(i) => s < regs.len() ==> o == Ok::<Val, Fault>(Val::Bool(i <= k)) && after
                    == regs.update(s as int, Val::Bool(i <= k)),
                _ => true,
            }
            &&& c matches ClosureModel::IntTest(RegInstr::GtIntConst(_, _, _), s, k) ==> match regs[s as int] {
                Val::Int(i) => s < regs.len() ==> o == Ok::<Val, Fault>(Val::Bool(i > k)) && after
                    == regs.update(s as int, Val::Bool(i > k)),
                _ => true,
            }
            &&& c matches ClosureModel::IntTest(RegInstr::GeIntConst(_, _, _), s, k) ==> match regs[s as int] {
                Val::Int(i) => s < regs.len() ==> o == Ok::<Val, Fault>(Val::Bool(i >= k)) && after
                    == regs.update(s as int, Val::Bool(i >= k)),
                _ => true,
            }
            &&& c matches ClosureModel::AddInt(a, b, d) ==> match (regs[a as int], regs[b as int]) {
                (Val::Int(x), Val::Int(y)) => o matches Ok(Val::Int(z)) && kept(z, x + y) && after
                    == regs.update(d as int, Val::Int(z)),
                _ => o matches Err(Fault::InternalError(_)) && after == regs,
            }
            &&& c matches ClosureModel::And(a, b, d) ==> match (regs[a as int], regs[b as int]) {
                (Val::Bool(x), Val::Bool(y)) => o == Ok::<Val, Fault>(Val::Bool(x && y)) && after
                    == regs.update(d as int, Val::Bool(x && y)),
                _ => true,
            }
            &&& c matches ClosureModel::Return(r) ==> o == Ok::<Val, Fault>(regs[r as int])
                && after == regs
        }),
{
    match c {
        ClosureModel::AddInt(a, b, d) => {
            match (regs[a as int], regs[b as int]) {
                (Val::Int(x), Val::Int(y)) => {
                    lemma_kept(x.wrapping_add(y), x + y);
                },
                _ => {},
            }
        },
        _ => {},
    }
}

/// What a filter that was read off a program says: a comparison, of an integer only; a text; one
/// of several integers or texts; a range with both its ends; and the connectives, where the
/// second side is asked only if the first does not decide.
pub proof fn law_enum_filters(
    f: EnumModel,
    regs: Seq<Val>,
    host: Seq<(Req, Outcome)>,
    limit: nat,
)
    ensures
        ({
            let r = enum_filter::filter_run(f, regs, host, limit);
            let says = |b: bool| r == Some((Ok::<Val, Fault>(Val::Bool(b)), regs));
            &&& f matches EnumModel::IntConst(rel, s, k) ==> s < regs.len() ==> match regs[s as int] {
                Val::Int(i) => says(
                    match rel {
                        IntRel::Eq => i == k,
                        IntRel::Ne => i != k,
                        IntRel::Lt => i < k,
                        IntRel::Le => i <= k,
                        IntRel::Gt => i > k,
                        IntRel::Ge => i >= k,
                    },
                ),
                _ => says(false),
            }
            &&& f matches EnumModel::StrConst(s, t) ==> s < regs.len() ==> says(
                regs[s as int] == Val::String(t),
            )
            &&& f matches EnumModel::InIntSet(s, ints) ==> s < regs.len() ==> match regs[s as int] {
                Val::Int(i) => says(exists|k: int| 0 <= k < ints.len() && ints[k] == i),
                _ => says(false),
            }
            &&& f matches EnumModel::InStrSet(s, texts) ==> s < regs.len() ==> match regs[s as int] {
                Val::String(t) => says(exists|k: int| 0 <= k < texts.len() && texts[k] == t),
                _ => says(false),
            }
            &&& f matches EnumModel::Between(s, lo, hi) ==> s < regs.len() ==> match regs[s as int] {
                Val::Int(i) => says(lo <= i && i <= hi),
                _ => says(false),
            }
            &&& f matches EnumModel::And(a, b) ==> match enum_filter::filter_run(
                *a,
                regs,
                host,
                limit,
            ) {
                Some((Ok(v), next)) => if v == Val::Bool(true) {
                    r == enum_filter::filter_run(*b, next, host, limit)
                } else {
                    r == Some((Ok::<Val, Fault>(v), next))
                },
                o => r == o,
            }
            &&& f matches EnumModel::Or(a, b) ==> match enum_filter::filter_run(
                *a,
                regs,
                host,
                limit,
            ) {
                Some((Ok(v), next)) => if v == Val::Bool(true) {
                    r == Some((Ok::<Val, Fault>(v), next))
                } else {
                    r == enum_filter::filter_run(*b, next, host, limit)
                },
                o => r == o,
            }
            &&& f matches EnumModel::Generic(code) ==> r == reg_fast_vm::run_fast(
                0,
                regs,
                code,
                host,
                limit,
            )
        }),
{
}

} // verus!
