//! Laws of the stack machine, instruction by instruction.

use crate::error;
use crate::error::{Fault, Outcome, Req};
use crate::float;
use crate::laws::arithmetic::{divides, lemma_truncating};
use crate::laws::collections::{can_be_key, has_key, is_entry, lemma_entry, makes_key};
use crate::objects;
use crate::objects::{KeyVal, Val};
use crate::ops;
use crate::strings;
use crate::vm::bytecode::{Code, Instr};
use crate::vm::vm;
use crate::vm::vm::{Mach, Step};
use vstd::prelude::*;
use vstd::string::*;

verus! {

/// The machine stands before an instruction.
pub open spec fn before(m: Mach, code: Code, i: Instr) -> bool {
    0 <= m.pc < code.instructions.len() && code.instructions[m.pc] == i
}

/// A step went on to the next instruction and changed nothing but the stack.
pub open spec fn left(s: Step, m: Mach, stack: Seq<Val>) -> bool {
    s matches Step::Next(n) && n.pc == m.pc + 1 && n.stack =~= stack && n.iters == m.iters && n.accu
        == m.accu && n.elem == m.elem
}

/// `Not` puts the other boolean in the place of a boolean; anything else ends the program. It
/// is the `!` of the language.
pub proof fn law_step_not(m: Mach, code: Code, vars: Seq<Val>, host: Seq<(Req, Outcome)>)
    requires
        before(m, code, Instr::Not),
        m.stack.len() > 0,
    ensures
        ({
            let s = vm::step(m, code, vars, host);
            match m.stack.last() {
                Val::Bool(b) => {
                    &&& s matches Step::Next(n)
                    &&& n.stack.len() == m.stack.len()
                    &&& n.stack.last() matches Val::Bool(z)
                    &&& z != b
                    &&& ops::not_result(m.stack.last()) == Ok::<Val, Fault>(n.stack.last())
                    &&& left(s, m, m.stack.drop_last().push(Val::Bool(z)))
                },
                _ => s == Step::Done(Err(Fault::NoSuchOverload)),
            }
        }),
{
}

/// `Neg` puts the opposite in the place of an integer; the smallest one, which has none, stays.
/// `Size` puts in the place of a text, a list, a map or bytes how long it is.
pub proof fn law_step_unary(m: Mach, code: Code, vars: Seq<Val>, host: Seq<(Req, Outcome)>)
    requires
        m.stack.len() > 0,
    ensures
        before(m, code, Instr::Neg) ==> {
            let s = vm::step(m, code, vars, host);
            match m.stack.last() {
                Val::Int(x) => s matches Step::Next(n) && n.stack.last() matches Val::Int(z) && (z
                    + x == 0 || z == x && x == -0x8000_0000_0000_0000) && left(
                    s,
                    m,
                    m.stack.drop_last().push(Val::Int(z)),
                ),
                Val::Float(x) => s matches Step::Next(n) && n.stack.last() matches Val::Float(z)
                    && (z == x + 0x8000_0000_0000_0000 || x == z + 0x8000_0000_0000_0000) && left(
                    s,
                    m,
                    m.stack.drop_last().push(Val::Float(z)),
                ),
                _ => s == Step::Done(Err(Fault::NoSuchOverload)),
            }
        },
        before(m, code, Instr::Size) ==> {
            let s = vm::step(m, code, vars, host);
            let sized = |k: nat|
                k <= i64::MAX && k <= usize::MAX ==> left(
                    s,
                    m,
                    m.stack.drop_last().push(Val::Int(k as i64)),
                );
            match m.stack.last() {
                Val::String(t) => sized(t.len()),
                Val::List(t) => sized(t.len()),
                Val::Dict(t) => sized(t.len()),
                Val::Bytes(t) => sized(t.len()),
                _ => s == Step::Done(Err(Fault::NoSuchOverload)),
            }
        },
{
}

/// A constant and a variable are put on the stack. Two indices name the item of a loop's round
/// and the accumulator instead of variables.
pub proof fn law_step_load(
    m: Mach,
    code: Code,
    vars: Seq<Val>,
    host: Seq<(Req, Outcome)>,
    k: u16,
)
    ensures
        before(m, code, Instr::PushConst(k)) && k < code.constants.len() ==> left(
            vm::step(m, code, vars, host),
            m,
            m.stack.push(code.constants[k as int]),
        ),
        before(m, code, Instr::LoadVar(k)) && k < 0xFFFE && k < vars.len() ==> left(
            vm::step(m, code, vars, host),
            m,
            m.stack.push(vars[k as int]),
        ),
        before(m, code, Instr::LoadVar(k)) && k == 0xFFFE ==> left(
            vm::step(m, code, vars, host),
            m,
            m.stack.push(m.elem),
        ),
        before(m, code, Instr::LoadVar(k)) && k == 0xFFFF ==> left(
            vm::step(m, code, vars, host),
            m,
            m.stack.push(m.accu),
        ),
        before(m, code, Instr::Pop) && m.stack.len() > 0 ==> left(
            vm::step(m, code, vars, host),
            m,
            m.stack.drop_last(),
        ),
{
}

/// The program ends with what is on top of the stack.
pub proof fn law_step_end(m: Mach, code: Code, vars: Seq<Val>, host: Seq<(Req, Outcome)>)
    requires
        before(m, code, Instr::Halt) || before(m, code, Instr::Return),
        m.stack.len() > 0,
    ensures
        vm::step(m, code, vars, host) == Step::Done(
            Ok::<Val, Fault>(m.stack[m.stack.len() - 1]),
        ),
{
}

/// A jump goes on at a distance from the next instruction. A jump on a boolean is taken where
/// the top of the stack is that boolean, and goes on at the next instruction where it is the
/// other; what is no boolean ends the program. The forms that keep the boolean leave the stack
/// as it is.
pub proof fn law_step_jump(
    m: Mach,
    code: Code,
    vars: Seq<Val>,
    host: Seq<(Req, Outcome)>,
    far: i16,
    b: bool,
)
    ensures
        ({
            let s = vm::step(m, code, vars, host);
            let n = s->Next_0;
            let top = m.stack.len() > 0 && m.stack.last() == Val::Bool(b);
            let kept = s is Next && n.iters == m.iters && n.accu == m.accu && n.elem == m.elem;
            &&& before(m, code, Instr::Jump(far)) ==> kept && n.pc == m.pc + 1 + far && n.stack
                == m.stack
            &&& before(m, code, Instr::JumpIfTrue(far)) && top ==> kept && n.stack
                == m.stack.drop_last() && (b ==> n.pc == m.pc + 1 + far) && (!b ==> n.pc == m.pc
                + 1)
            &&& before(m, code, Instr::JumpIfFalse(far)) && top ==> kept && n.stack
                == m.stack.drop_last() && (!b ==> n.pc == m.pc + 1 + far) && (b ==> n.pc == m.pc
                + 1)
            &&& before(m, code, Instr::JumpIfTrueKeep(far)) && top ==> kept && n.stack == m.stack
                && (b ==> n.pc == m.pc + 1 + far) && (!b ==> n.pc == m.pc + 1)
            &&& before(m, code, Instr::JumpIfFalseKeep(far)) && top ==> kept && n.stack == m.stack
                && (!b ==> n.pc == m.pc + 1 + far) && (b ==> n.pc == m.pc + 1)
            &&& (before(m, code, Instr::JumpIfTrue(far)) || before(
                m,
                code,
                Instr::JumpIfFalse(far),
            ) || before(m, code, Instr::JumpIfTrueKeep(far)) || before(
                m,
                code,
                Instr::JumpIfFalseKeep(far),
            )) && m.stack.len() > 0 && !(m.stack.last() is Bool) ==> s == Step::Done(
                Err(Fault::NoSuchOverload),
            )
        }),
{
}

/// An operation on two values.
pub open spec fn on_two_values(i: Instr) -> bool {
    i is Add || i is Sub || i is Mul || i is Div || i is Mod || i is Eq || i is Ne || i is Lt
        || i is Le || i is Gt || i is Ge || i is In || i is LogicalAnd || i is LogicalOr
        || i is Index
}

/// An operation takes two values off the stack, the second operand from the top and the first
/// from below it, and puts its result there. The laws of the machines say what it is.
pub proof fn law_step_binary(
    m: Mach,
    code: Code,
    vars: Seq<Val>,
    host: Seq<(Req, Outcome)>,
    i: Instr,
    rest: Seq<Val>,
    a: Val,
    b: Val,
)
    requires
        on_two_values(i),
        before(m, code, i),
        m.stack == rest.push(a).push(b),
    ensures
        match vm::binary_step(i, a, b, host) {
            Some(Ok(v)) => left(vm::step(m, code, vars, host), m, rest.push(v)),
            Some(Err(f)) => vm::step(m, code, vars, host) == Step::Done(Err::<Val, Fault>(f)),
            None => vm::step(m, code, vars, host) == Step::Stuck,
        },
{
    assert(m.stack.subrange(0, m.stack.len() - 2) =~= rest);
}

/// Integers on the stack: comparisons say what the integers say, and a difference is what is
/// below less what is above.
pub proof fn law_step_integers(
    m: Mach,
    code: Code,
    vars: Seq<Val>,
    host: Seq<(Req, Outcome)>,
    rest: Seq<Val>,
    x: i64,
    y: i64,
)
    requires
        m.stack == rest.push(Val::Int(x)).push(Val::Int(y)),
    ensures
        ({
            let s = vm::step(m, code, vars, host);
            let says = |b: bool| left(s, m, rest.push(Val::Bool(b)));
            let is = |n: int|
                -0x8000_0000_0000_0000 <= n <= 0x7fff_ffff_ffff_ffff ==> left(
                    s,
                    m,
                    rest.push(Val::Int(n as i64)),
                );
            &&& before(m, code, Instr::Eq) ==> says(x == y)
            &&& before(m, code, Instr::Ne) ==> says(x != y)
            &&& before(m, code, Instr::Lt) ==> says(x < y)
            &&& before(m, code, Instr::Le) ==> says(x <= y)
            &&& before(m, code, Instr::Gt) ==> says(x > y)
            &&& before(m, code, Instr::Ge) ==> says(x >= y)
            &&& before(m, code, Instr::Add) ==> is(x + y)
            &&& before(m, code, Instr::Sub) ==> is(x - y)
            &&& before(m, code, Instr::Mul) ==> is(x * y)
        }),
{
    assert(m.stack.subrange(0, m.stack.len() - 2) =~= rest);
}

/// Booleans on the stack: a conjunction is true where both are, a disjunction where one is.
pub proof fn law_step_booleans(
    m: Mach,
    code: Code,
    vars: Seq<Val>,
    host: Seq<(Req, Outcome)>,
    rest: Seq<Val>,
    x: bool,
    y: bool,
    v: Val,
)
    ensures
        m.stack == rest.push(Val::Bool(x)).push(Val::Bool(y)) && before(
            m,
            code,
            Instr::LogicalAnd,
        ) ==> left(vm::step(m, code, vars, host), m, rest.push(Val::Bool(x && y))),
        m.stack == rest.push(Val::Bool(x)).push(Val::Bool(y)) && before(
            m,
            code,
            Instr::LogicalOr,
        ) ==> left(vm::step(m, code, vars, host), m, rest.push(Val::Bool(x || y))),
        // one boolean decides beside anything; else the other value, or the first, is left
        (m.stack == rest.push(Val::Bool(x)).push(v) || m.stack == rest.push(v).push(Val::Bool(x)))
            && before(m, code, Instr::LogicalAnd) ==> left(
            vm::step(m, code, vars, host),
            m,
            rest.push(
                if x {
                    v
                } else {
                    Val::Bool(false)
                },
            ),
        ),
        (m.stack == rest.push(Val::Bool(x)).push(v) || m.stack == rest.push(v).push(Val::Bool(x)))
            && before(m, code, Instr::LogicalOr) ==> left(
            vm::step(m, code, vars, host),
            m,
            rest.push(
                if x {
                    Val::Bool(true)
                } else {
                    v
                },
            ),
        ),
{
    if m.stack.len() >= 2 {
        assert(m.stack == rest.push(Val::Bool(x)).push(Val::Bool(y)) ==> m.stack.subrange(
            0,
            m.stack.len() - 2,
        ) =~= rest);
        assert(m.stack == rest.push(Val::Bool(x)).push(v) ==> m.stack.subrange(
            0,
            m.stack.len() - 2,
        ) =~= rest);
        assert(m.stack == rest.push(v).push(Val::Bool(x)) ==> m.stack.subrange(
            0,
            m.stack.len() - 2,
        ) =~= rest);
    }
}

/// A step left an integer on the stack, beside which there is another.
pub open spec fn left_with(s: Step, m: Mach, rest: Seq<Val>, i: i64, other: int) -> bool {
    left(s, m, rest.push(Val::Int(i)))
}

/// Quotients and remainders on the stack belong together as those of the language do; zero does
/// not divide.
pub proof fn law_step_division(
    m: Mach,
    code: Code,
    vars: Seq<Val>,
    host: Seq<(Req, Outcome)>,
    rest: Seq<Val>,
    x: i64,
    y: i64,
)
    requires
        m.stack == rest.push(Val::Int(x)).push(Val::Int(y)),
        !(x == -0x8000_0000_0000_0000 && y == -1),
    ensures
        before(m, code, Instr::Div) && y == 0 ==> vm::step(m, code, vars, host) == Step::Done(
            Err(Fault::DivisionByZero(Val::Int(x))),
        ),
        before(m, code, Instr::Mod) && y == 0 ==> vm::step(m, code, vars, host) == Step::Done(
            Err(Fault::RemainderByZero(Val::Int(x))),
        ),
        before(m, code, Instr::Div) && y != 0 ==> exists|q: i64, r: int|
            divides(x as int, y as int, q as int, r) && #[trigger] left_with(
                vm::step(m, code, vars, host),
                m,
                rest,
                q,
                r,
            ),
        before(m, code, Instr::Mod) && y != 0 ==> exists|q: int, r: i64|
            divides(x as int, y as int, q, r as int) && #[trigger] left_with(
                vm::step(m, code, vars, host),
                m,
                rest,
                r,
                q,
            ),
{
    assert(m.stack.subrange(0, m.stack.len() - 2) =~= rest);
    let s = vm::step(m, code, vars, host);
    let n = s->Next_0;
    assert(!vm::quotient_overflows(Val::Int(x), Val::Int(y)));
    if y != 0 {
        lemma_truncating(x, y);
        let q = x.checked_div(y)->0;
        let r = x.checked_rem(y)->0;
        assert(divides(x as int, y as int, q as int, r as int));
        if before(m, code, Instr::Div) {
            assert(vm::binary_step(Instr::Div, Val::Int(x), Val::Int(y), host) == Some(
                Ok::<Val, Fault>(Val::Int(q)),
            ));
            assert(left_with(s, m, rest, q, r as int));
        }
        if before(m, code, Instr::Mod) {
            assert(vm::binary_step(Instr::Mod, Val::Int(x), Val::Int(y), host) == Some(
                Ok::<Val, Fault>(Val::Int(r)),
            ));
            assert(left_with(s, m, rest, r, q as int));
        }
    }
}

/// The machine with two more values on the stack.
pub open spec fn with_two(m: Mach, a: Val, b: Val) -> Mach {
    Mach { stack: m.stack.push(a).push(b), ..m }
}

/// An instruction that loads a variable, and one that compares it with a constant, does what
/// the instructions do that it stands for; the forms that return end the program with that.
pub proof fn law_step_fused(
    m: Mach,
    code: Code,
    vars: Seq<Val>,
    host: Seq<(Req, Outcome)>,
    v: u16,
    k: u16,
)
    requires
        v < vars.len(),
        k < code.constants.len(),
    ensures
        ({
            let n = with_two(m, vars[v as int], code.constants[k as int]);
            let does = |i: Instr, j: Instr|
                before(m, code, i) ==> vm::step(m, code, vars, host) == vm::instr_step(
                    j,
                    n,
                    code,
                    vars,
                    host,
                );
            let ends = |i: Instr, j: Instr|
                before(m, code, i) ==> vm::step(m, code, vars, host) == (match vm::instr_step(
                    j,
                    n,
                    code,
                    vars,
                    host,
                ) {
                    Step::Next(after) => Step::Done(Ok::<Val, Fault>(after.stack.last())),
                    other => other,
                });
            &&& does(Instr::LoadVarEqConst(v, k), Instr::Eq)
            &&& ends(Instr::ReturnEqConst(v, k), Instr::Eq)
            &&& does(Instr::LoadVarNeConst(v, k), Instr::Ne)
            &&& ends(Instr::ReturnNeConst(v, k), Instr::Ne)
            &&& does(Instr::LoadVarLtConst(v, k), Instr::Lt)
            &&& ends(Instr::ReturnLtConst(v, k), Instr::Lt)
            &&& does(Instr::LoadVarLeConst(v, k), Instr::Le)
            &&& ends(Instr::ReturnLeConst(v, k), Instr::Le)
            &&& does(Instr::LoadVarGtConst(v, k), Instr::Gt)
            &&& ends(Instr::ReturnGtConst(v, k), Instr::Gt)
            &&& does(Instr::LoadVarGeConst(v, k), Instr::Ge)
            &&& ends(Instr::ReturnGeConst(v, k), Instr::Ge)
        }),
{
    let n = with_two(m, vars[v as int], code.constants[k as int]);
    assert(n.stack.subrange(0, n.stack.len() - 2) =~= m.stack);
    assert(n.stack[n.stack.len() - 2] == vars[v as int]);
    assert(n.stack[n.stack.len() - 1] == code.constants[k as int]);
}

/// A field is the value of the entry with its name as the key; the program ends where there is
/// none. `HasField` says whether there is one. The forms that load a variable first do what
/// they do to it.
pub proof fn law_step_fields(
    m: Mach,
    code: Code,
    vars: Seq<Val>,
    host: Seq<(Req, Outcome)>,
    v: u16,
    k: u16,
    rest: Seq<Val>,
    obj: Val,
    name: Seq<char>,
)
    requires
        k < code.constants.len(),
        code.constants[k as int] == Val::String(name),
        (before(m, code, Instr::Select(k)) || before(m, code, Instr::HasField(k))) && m.stack
            == rest.push(obj) || (before(m, code, Instr::LoadVarSelect(v, k)) || before(
            m,
            code,
            Instr::LoadVarHasField(v, k),
        )) && v < 0xFFFE && v < vars.len() && vars[v as int] == obj && m.stack == rest,
    ensures
        ({
            let s = vm::step(m, code, vars, host);
            let f = Val::String(name);
            if before(m, code, Instr::Select(k)) || before(m, code, Instr::LoadVarSelect(v, k)) {
                match obj {
                    Val::Dict(d) => if has_key(d, f) {
                        &&& s matches Step::Next(n)
                        &&& is_entry(d, f, n.stack.last())
                        &&& left(s, m, rest.push(n.stack.last()))
                    } else {
                        s == Step::Done(Err(Fault::NoSuchKey(name)))
                    },
                    _ => s == Step::Done(Err(Fault::NoSuchOverload)),
                }
            } else {
                left(s, m, rest.push(Val::Bool(obj matches Val::Dict(d) && has_key(d, f))))
            }
        }),
{
    match obj {
        Val::Dict(d) => {
            lemma_entry(d, Val::String(name));
        },
        _ => {},
    }
    if before(m, code, Instr::Select(k)) || before(m, code, Instr::HasField(k)) {
        assert(m.stack.drop_last() =~= rest);
    }
}

/// Maps and lists on the stack: membership and items.
pub proof fn law_step_containers(
    m: Mach,
    code: Code,
    vars: Seq<Val>,
    host: Seq<(Req, Outcome)>,
    rest: Seq<Val>,
    d: Seq<(KeyVal, Val)>,
    l: Seq<Val>,
    v: Val,
    i: i64,
)
    ensures
        ({
            let s = vm::step(m, code, vars, host);
            &&& m.stack == rest.push(v).push(Val::Dict(d)) && before(m, code, Instr::In)
                && can_be_key(v) ==> left(s, m, rest.push(Val::Bool(has_key(d, v))))
            &&& m.stack == rest.push(Val::Dict(d)).push(v) && before(m, code, Instr::Index)
                && can_be_key(v) ==> if has_key(d, v) {
                &&& s matches Step::Next(n)
                &&& is_entry(d, v, n.stack.last())
                &&& left(s, m, rest.push(n.stack.last()))
            } else {
                s matches Step::Done(Err(Fault::NoSuchKey(_)))
            }
            &&& m.stack == rest.push(Val::List(l)).push(Val::Int(i)) && before(
                m,
                code,
                Instr::Index,
            ) ==> if 0 <= i < l.len() {
                left(s, m, rest.push(l[i as int]))
            } else {
                s == Step::Done(Err(Fault::IndexOutOfBounds(Val::Int(i))))
            }
            &&& m.stack == rest.push(Val::Int(i)).push(Val::List(l)) && before(m, code, Instr::In)
                && (forall|k: int| 0 <= k < l.len() ==> (#[trigger] l[k]) is Int) ==> left(
                s,
                m,
                rest.push(Val::Bool(exists|k: int| 0 <= k < l.len() && l[k] == Val::Int(i))),
            )
        }),
{
    lemma_entry(d, v);
    assert(m.stack.len() >= 2 ==> m.stack.subrange(0, m.stack.len() - 2) =~= m.stack.drop_last(
    ).drop_last());
    assert(m.stack == rest.push(v).push(Val::Dict(d)) ==> m.stack.drop_last().drop_last() =~= rest);
    assert(m.stack == rest.push(Val::Dict(d)).push(v) ==> m.stack.drop_last().drop_last() =~= rest);
    assert(m.stack == rest.push(Val::List(l)).push(Val::Int(i)) ==> m.stack.drop_last().drop_last()
        =~= rest);
    assert(m.stack == rest.push(Val::Int(i)).push(Val::List(l)) ==> m.stack.drop_last().drop_last()
        =~= rest);
    if forall|k: int| 0 <= k < l.len() ==> (#[trigger] l[k]) is Int {
        if vm::some_equal(l, Val::Int(i)) {
            let k = choose|k: int| 0 <= k < l.len() && vm::machine_eq(#[trigger] l[k], Val::Int(i));
            assert(l[k] == Val::Int(i));
        }
        if exists|k: int| 0 <= k < l.len() && l[k] == Val::Int(i) {
            let k = choose|k: int| 0 <= k < l.len() && l[k] == Val::Int(i);
            assert(vm::machine_eq(l[k], Val::Int(i)));
        }
    }
}

/// A list is built of the topmost values, in the order in which they were put there.
pub proof fn law_step_build_list(
    m: Mach,
    code: Code,
    vars: Seq<Val>,
    host: Seq<(Req, Outcome)>,
    rest: Seq<Val>,
    items: Seq<Val>,
    k: u16,
)
    requires
        before(m, code, Instr::BuildList(k)),
        m.stack == rest + items,
        items.len() == k,
    ensures
        left(vm::step(m, code, vars, host), m, rest.push(Val::List(items))),
{
    assert(m.stack.subrange(0, m.stack.len() - k) =~= rest);
    assert(m.stack.subrange(m.stack.len() - k, m.stack.len() as int) =~= items);
}

/// Keys and values on top of a stack, each value above its key.
pub open spec fn pairs_on(stack: Seq<Val>, rest: Seq<Val>, keys: Seq<Val>, values: Seq<Val>) -> bool {
    &&& keys.len() == values.len()
    &&& stack.len() == rest.len() + 2 * keys.len()
    &&& stack.subrange(0, rest.len() as int) == rest
    &&& forall|i: int|
        0 <= i < keys.len() ==> stack[rest.len() + 2 * i] == #[trigger] keys[i]
    &&& forall|i: int|
        0 <= i < values.len() ==> stack[rest.len() + 2 * i + 1] == #[trigger] values[i]
}

/// The entries hold the values of keys from a position on: a key that occurs more than once has
/// its first value there.
pub open spec fn holds_pairs(
    d: Seq<(KeyVal, Val)>,
    keys: Seq<Val>,
    values: Seq<Val>,
    from: int,
) -> bool {
    &&& objects::distinct_keys(d)
    &&& forall|i: int|
        from <= i < keys.len() && (forall|j: int| from <= j < i ==> keys[j] != keys[i])
            ==> is_entry(d, #[trigger] keys[i], values[i])
    &&& forall|e: int|
        0 <= e < d.len() ==> exists|i: int|
            from <= i < keys.len() && makes_key(#[trigger] keys[i], (#[trigger] d[e]).0)
}

/// A value's entry in a map is what the map has under the key that it makes.
pub proof fn lemma_is_entry(d: Seq<(KeyVal, Val)>, v: Val, x: Val)
    ensures
        is_entry(d, v, x) <==> can_be_key(v) && objects::dict_get(d, objects::key_of(v)->0) == Some(
            x,
        ),
{
    lemma_entry(d, v);
    if is_entry(d, v, x) {
        let i = choose|i: int|
            0 <= i < d.len() && makes_key(v, (#[trigger] d[i]).0) && x == d[i].1 && forall|j: int|
                0 <= j < i ==> !makes_key(v, (#[trigger] d[j]).0);
        assert(makes_key(v, d[i].0));
        assert(has_key(d, v));
        assert(is_entry(d, v, objects::dict_get(d, objects::key_of(v)->0)->0));
    }
    if can_be_key(v) && objects::dict_get(d, objects::key_of(v)->0) == Some(x) {
        assert(has_key(d, v));
    }
}

proof fn lemma_map_from(
    stack: Seq<Val>,
    rest: Seq<Val>,
    keys: Seq<Val>,
    values: Seq<Val>,
    k: nat,
    entries: Seq<(KeyVal, Val)>,
)
    requires
        pairs_on(stack, rest, keys, values),
        k <= keys.len(),
        forall|i: int| 0 <= i < keys.len() ==> can_be_key(#[trigger] keys[i]),
        holds_pairs(entries, keys, values, k as int),
    ensures
        vm::map_from(stack.subrange(0, (rest.len() + 2 * k) as int), k, entries) matches Some(Ok(d))
            && holds_pairs(d, keys, values, 0),
    decreases k,
{
    if k > 0 {
        let s = stack.subrange(0, (rest.len() + 2 * k) as int);
        let at = k - 1;
        let v = keys[at];
        let x = values[at];
        assert(s[s.len() - 1] == stack[rest.len() + 2 * at + 1]);
        assert(s[s.len() - 2] == stack[rest.len() + 2 * at]);
        assert(s[s.len() - 1] == x && s[s.len() - 2] == v);
        assert(s.subrange(0, s.len() - 2) =~= stack.subrange(0, rest.len() + 2 * at));
        assert(can_be_key(v));
        let key = objects::key_of(v)->0;
        let next = objects::dict_insert(entries, key, x);
        assert(holds_pairs(next, keys, values, at)) by {
            objects::law_dict_insert(entries, key, x, key);
            assert forall|i: int|
                at <= i < keys.len() && (forall|j: int| at <= j < i ==> keys[j] != keys[i]) implies
                is_entry(next, #[trigger] keys[i], values[i]) by {
                lemma_is_entry(next, keys[i], values[i]);
                assert(can_be_key(keys[i]));
                if i > at {
                    assert(keys[at] != keys[i]);
                    let other = objects::key_of(keys[i])->0;
                    assert(other != key);
                    objects::law_dict_insert(entries, key, x, other);
                    lemma_is_entry(entries, keys[i], values[i]);
                }
            }
            objects::lemma_entry_index(entries, key, 0);
            assert forall|e: int| 0 <= e < next.len() implies exists|i: int|
                at <= i < keys.len() && makes_key(#[trigger] keys[i], (#[trigger] next[e]).0) by {
                if next[e].0 == key {
                    assert(makes_key(keys[at], next[e].0));
                } else {
                    assert(next[e] == entries[e]);
                    let i = choose|i: int|
                        k <= i < keys.len() && makes_key(#[trigger] keys[i], entries[e].0);
                    assert(makes_key(keys[i], next[e].0));
                }
            }
        }
        lemma_map_from(stack, rest, keys, values, at as nat, next);
    }
}

/// A map is built of the topmost keys and values. Each key has its value in it, the first one
/// put on the stack where it occurs more than once, and there are no other entries.
pub proof fn law_step_build_map(
    m: Mach,
    code: Code,
    vars: Seq<Val>,
    host: Seq<(Req, Outcome)>,
    rest: Seq<Val>,
    keys: Seq<Val>,
    values: Seq<Val>,
    k: u16,
) -> (d: Seq<(KeyVal, Val)>)
    requires
        before(m, code, Instr::BuildMap(k)),
        pairs_on(m.stack, rest, keys, values),
        keys.len() == k,
        forall|i: int| 0 <= i < keys.len() ==> can_be_key(#[trigger] keys[i]),
    ensures
        left(vm::step(m, code, vars, host), m, rest.push(Val::Dict(d))),
        holds_pairs(d, keys, values, 0),
{
    lemma_map_from(m.stack, rest, keys, values, k as nat, Seq::empty());
    assert(m.stack.subrange(0, (rest.len() + 2 * k) as int) =~= m.stack);
    assert(m.stack.subrange(0, m.stack.len() - 2 * k) =~= rest);
    let n = vm::step(m, code, vars, host)->Next_0;
    n.stack.last()->Dict_0
}

/// The rounds of a loop: a walk is begun with what is on top of the stack; it hands out the
/// items of a list, or the keys of a map, one in each round, from the first to the last; when
/// they are used up it jumps.
pub proof fn law_step_walks(
    m: Mach,
    code: Code,
    vars: Seq<Val>,
    host: Seq<(Req, Outcome)>,
    far: i16,
    rest: Seq<(Seq<Val>, int)>,
    items: Seq<Val>,
    at: int,
)
    ensures
        ({
            let s = vm::step(m, code, vars, host);
            let n = s->Next_0;
            let same = s is Next && n.accu == m.accu;
            &&& before(m, code, Instr::IterInit) && m.stack.len() > 0 ==> match m.stack.last() {
                Val::List(l) => same && n.pc == m.pc + 1 && n.stack == m.stack.drop_last()
                    && n.iters == m.iters.push((l, 0int)) && n.elem == m.elem,
                Val::Dict(d) => same && n.pc == m.pc + 1 && n.stack == m.stack.drop_last()
                    && n.elem == m.elem && n.iters.len() == m.iters.len() + 1
                    && n.iters.drop_last() == m.iters && n.iters.last().1 == 0
                    && n.iters.last().0.len() == d.len() && forall|i: int|
                    0 <= i < d.len() ==> makes_key(n.iters.last().0[i], (#[trigger] d[i]).0),
                _ => s == Step::Done(Err(Fault::NoSuchOverload)),
            }
            &&& before(m, code, Instr::IterNext(far)) && m.iters == rest.push((items, at)) && 0
                <= at < items.len() ==> same && n.pc == m.pc + 1 && n.stack == m.stack && n.elem
                == items[at] && n.iters == rest.push((items, at + 1))
            &&& before(m, code, Instr::IterNext(far)) && m.iters == rest.push((items, at)) && at
                >= items.len() ==> same && n.pc == m.pc + 1 + far && n.stack == m.stack && n.elem
                == m.elem && n.iters == m.iters
            &&& before(m, code, Instr::IterPop) && m.iters == rest.push((items, at)) ==> same
                && n.pc == m.pc + 1 && n.stack == m.stack && n.elem == m.elem && n.iters == rest
        }),
{
    assert(m.iters == rest.push((items, at)) ==> m.iters.drop_last() =~= rest);
    let s = vm::step(m, code, vars, host);
    let n = s->Next_0;
    if before(m, code, Instr::IterInit) && m.stack.len() > 0 {
        assert(s is Next ==> n.iters.drop_last() =~= m.iters);
    }
}

/// The accumulator takes a constant, or what is on top of the stack.
pub proof fn law_step_accumulator(
    m: Mach,
    code: Code,
    vars: Seq<Val>,
    host: Seq<(Req, Outcome)>,
    k: u16,
)
    ensures
        ({
            let s = vm::step(m, code, vars, host);
            let n = s->Next_0;
            let same = s is Next && n.pc == m.pc + 1 && n.iters == m.iters && n.elem == m.elem;
            &&& before(m, code, Instr::AccuPush(k)) && k < 0xFFFF && k < code.constants.len()
                ==> same && n.stack == m.stack && n.accu == code.constants[k as int]
            &&& (before(m, code, Instr::AccuSet) || before(m, code, Instr::AccuPush(0xFFFF)))
                && m.stack.len() > 0 ==> same && n.stack == m.stack.drop_last() && n.accu
                == m.stack.last()
        }),
{
}

/// A builtin function takes its arguments off the stack, in the order in which they were put
/// there, and puts its result there.
pub proof fn law_step_call(
    m: Mach,
    code: Code,
    vars: Seq<Val>,
    host: Seq<(Req, Outcome)>,
    rest: Seq<Val>,
    args: Seq<Val>,
    id: u16,
    k: u16,
)
    requires
        before(m, code, Instr::Call(id, k)),
        m.stack == rest + args,
        args.len() == k,
    ensures
        match vm::builtin_result(id, args, host) {
            Ok(v) => left(vm::step(m, code, vars, host), m, rest.push(v)),
            Err(f) => vm::step(m, code, vars, host) == Step::Done(Err::<Val, Fault>(f)),
        },
{
    assert(m.stack.subrange(0, m.stack.len() - k) =~= rest);
    assert(m.stack.subrange(m.stack.len() - k, m.stack.len() as int) =~= args);
}

/// The conversions: an integer stays the number that it is where the other type has it; a
/// double is cut off; a text is read. Nothing else converts.
pub proof fn law_conversions(v: Val, host: Seq<(Req, Outcome)>)
    ensures
        ({
            let whole = vm::builtin_result(1, seq![v], host);
            let double = vm::builtin_result(2, seq![v], host);
            let uint = vm::builtin_result(3, seq![v], host);
            let show = vm::builtin_result(4, seq![v], host);
            let truth = vm::builtin_result(6, seq![v], host);
            &&& show == error::ask(host, Req::Show(v))
            &&& truth == Ok::<Val, Fault>(Val::Bool(v != Val::Bool(false)))
            &&& match v {
                Val::Int(i) => {
                    &&& whole == Ok::<Val, Fault>(v)
                    &&& i >= 0 ==> (uint matches Ok(Val::UInt(z)) && z == i)
                    &&& i < 0 ==> (uint matches Ok(Val::UInt(z)) && z == i
                        + 0x1_0000_0000_0000_0000)
                    &&& double == Ok::<Val, Fault>(Val::Float(float::float_of_int(i as int)))
                },
                Val::UInt(u) => {
                    &&& uint == Ok::<Val, Fault>(v)
                    &&& u < 0x8000_0000_0000_0000 ==> (whole matches Ok(Val::Int(z)) && z == u)
                    &&& u >= 0x8000_0000_0000_0000 ==> (whole matches Ok(Val::Int(z)) && z == u
                        - 0x1_0000_0000_0000_0000)
                    &&& double == Ok::<Val, Fault>(Val::Float(float::float_of_nat(u as nat)))
                },
                Val::Float(x) => {
                    &&& whole == Ok::<Val, Fault>(Val::Int(float::int_of_float(x)))
                    &&& uint == Ok::<Val, Fault>(Val::UInt(float::uint_of_float(x)))
                    &&& double == Ok::<Val, Fault>(v)
                },
                Val::String(s) => double == error::ask(host, Req::ParseFloat(s)),
                _ => {
                    &&& whole == Err::<Val, Fault>(Fault::NoSuchOverload)
                    &&& uint == Err::<Val, Fault>(Fault::NoSuchOverload)
                    &&& double == Err::<Val, Fault>(Fault::NoSuchOverload)
                },
            }
        }),
{
    match v {
        Val::Int(i) => {
            let z = i as u64;
            assert(i < 0 ==> z == i + 0x1_0000_0000_0000_0000) by (bit_vector)
                requires
                    z == i as u64,
            ;
        },
        Val::UInt(u) => {
            let z = u as i64;
            assert(u >= 0x8000_0000_0000_0000 ==> z == u - 0x1_0000_0000_0000_0000) by (bit_vector)
                requires
                    z == u as i64,
            ;
        },
        _ => {},
    }
}

/// What a number is in decimal, `int` and `uint` read back.
pub proof fn law_texts_read(i: i64, u: u64, host: Seq<(Req, Outcome)>)
    ensures
        vm::builtin_result(1, seq![Val::String(strings::signed_decimal(i as int))], host) == Ok::<
            Val,
            Fault,
        >(Val::Int(i)),
        vm::builtin_result(3, seq![Val::String(strings::decimal(u as nat))], host) == Ok::<
            Val,
            Fault,
        >(Val::UInt(u)),
{
    lemma_decimal_read(u as nat);
    lemma_decimal_read(
        (if i < 0 {
            -(i as int)
        } else {
            i as int
        }) as nat,
    );
    reveal_strlit("-");
    if i < 0 {
        let d = strings::decimal((-(i as int)) as nat);
        let s = strings::signed_decimal(i as int);
        assert(s[0] == '-');
        assert(s.drop_first() =~= d);
    }
}

/// The digits of a number write that number, and begin with no sign.
proof fn lemma_decimal_read(n: nat)
    ensures
        strings::digits_value(strings::decimal(n)) == Some(n),
        strings::decimal(n).len() > 0,
        strings::decimal(n)[0] != '-',
        strings::decimal(n)[0] != '+',
    decreases n,
{
    let s = strings::decimal(n);
    if n >= 10 {
        lemma_decimal_read(n / 10);
        assert(s.drop_last() =~= strings::decimal(n / 10));
        assert(s[0] == strings::decimal(n / 10)[0]);
    } else {
        assert(s.drop_last() =~= Seq::empty());
        assert(strings::digits_value(s.drop_last()) == Some(0nat));
    }
    let d = strings::digit_char(n % 10);
    assert(s.last() == d);
    assert(strings::digit_value(d) == Some(n % 10));
}

/// The largest of integers is one of them, and none is larger.
pub proof fn law_largest(args: Seq<Val>, host: Seq<(Req, Outcome)>) -> (r: (int, i64))
    requires
        args.len() > 0,
        forall|i: int| 0 <= i < args.len() ==> (#[trigger] args[i]) is Int,
    ensures
        ({
            let (at, most) = r;
            &&& vm::builtin_result(5, args, host) == Ok::<Val, Fault>(Val::Int(most))
            &&& 0 <= at < args.len() && args[at] == Val::Int(most)
            &&& forall|i: int| 0 <= i < args.len() ==> (#[trigger] args[i])->Int_0 <= most
        }),
{
    assert(args[0] is Int);
    lemma_largest(args, 1, 0)
}

proof fn lemma_largest(args: Seq<Val>, i: int, best: int) -> (r: (int, i64))
    requires
        0 <= best < i <= args.len(),
        forall|k: int| 0 <= k < args.len() ==> (#[trigger] args[k]) is Int,
        forall|k: int| 0 <= k < i ==> (#[trigger] args[k])->Int_0 <= args[best]->Int_0,
    ensures
        ({
            let (at, most) = r;
            &&& vm::machine_max(args, i, args[best]) == Ok::<Val, Fault>(Val::Int(most))
            &&& 0 <= at < args.len() && args[at] == Val::Int(most)
            &&& forall|k: int| 0 <= k < args.len() ==> (#[trigger] args[k])->Int_0 <= most
        }),
    decreases args.len() - i,
{
    assert(args[best] is Int);
    if i < args.len() {
        assert(args[i] is Int);
        if args[best]->Int_0 < args[i]->Int_0 {
            lemma_largest(args, i + 1, i)
        } else {
            lemma_largest(args, i + 1, best)
        }
    } else {
        (best, args[best]->Int_0)
    }
}

/// A builtin function wants as many arguments as it has, and there are no others than the
/// seven.
pub proof fn law_builtins(id: u16, args: Seq<Val>, host: Seq<(Req, Outcome)>)
    ensures
        id > 6 ==> (vm::builtin_result(id, args, host) matches Err(Fault::UndeclaredReference(_))),
        id <= 6 && id != 5 && args.len() != 1 ==> vm::builtin_result(id, args, host) == Err::<
            Val,
            Fault,
        >(Fault::InvalidArgumentCount(1, args.len())),
        id == 5 && args.len() == 0 ==> vm::builtin_result(id, args, host) == Err::<Val, Fault>(
            Fault::InvalidArgumentCount(1, 0),
        ),
        id == 0 && args.len() == 1 ==> vm::builtin_result(id, args, host) == vm::machine_size(
            args[0],
        ),
{
}

} // verus!
