//! Laws of the forms that expressions and programs are compiled to, of what is refused, and of
//! what values stand for.

use crate::common::ast;
use crate::common::ast::{CallExpr, Expr, LiteralValue};
use crate::context;
use crate::context::Scope;
use crate::env;
use crate::error::{Fault, Outcome, Req};
use crate::float;
use crate::laws::arithmetic::{called, lemma_operators, on_two, operands};
use crate::laws::collections::{has_key, lemma_entry};
use crate::laws::library::{known_name, lemma_no_operators};
use crate::objects;
use crate::objects::{Key, KeyVal, Val, Value};
use crate::semantics;
use crate::strings;
use crate::vm::bytecode::{Code, Instr};
use crate::vm::enum_filter;
use crate::vm::enum_filter::{EnumModel, IntRel};
use crate::vm::filter_tree;
use crate::vm::filter_tree::{Arith, FilterNode, I64Expr, IntCmp, IntTest, ListExpr};
use crate::vm::filter_tree_compiler;
use crate::vm::filter_tree_compiler::{Filt, Known, TextModel};
use crate::vm::reg_bytecode::{RegCode, RegInstr};
use crate::vm::reg_closure_vm;
use crate::vm::reg_closure_vm::ClosureModel;
use crate::vm::reg_compiler;
use crate::vm::vm;
use vstd::arithmetic::power2::*;
use vstd::prelude::*;
use vstd::string::*;

verus! {

/// The machines order an integer and a double by their numbers, which the language does not; what
/// is no number is neither before nor after anything. Instants, durations, structs and optionals
/// are equal to nothing there.
pub proof fn law_machine_orders(
    i: i64,
    x: u64,
    y: u64,
    host: Seq<(Req, Outcome)>,
    a: Val,
    b: Val,
)
    requires
        -0x20_0000_0000_0000 < i < 0x20_0000_0000_0000,
    ensures
        ({
            let one = pow2(1074) as int;
            let says = |j: Instr, l: Val, r: Val, t: bool|
                vm::binary_step(j, l, r, host) == Some(Ok::<Val, Fault>(Val::Bool(t)));
            let n = Val::Int(i);
            let u = Val::Float(x);
            let w = Val::Float(y);
            &&& !float::nan(x) ==> {
                &&& says(Instr::Lt, n, u, i * one < float::scaled(x))
                &&& says(Instr::Le, n, u, i * one <= float::scaled(x))
                &&& says(Instr::Gt, n, u, i * one > float::scaled(x))
                &&& says(Instr::Ge, n, u, i * one >= float::scaled(x))
                &&& says(Instr::Lt, u, n, float::scaled(x) < i * one)
                &&& says(Instr::Le, u, n, float::scaled(x) <= i * one)
                &&& says(Instr::Gt, u, n, float::scaled(x) > i * one)
                &&& says(Instr::Ge, u, n, float::scaled(x) >= i * one)
            }
            &&& float::nan(x) ==> says(Instr::Lt, n, u, false) && says(Instr::Ge, n, u, false)
                && says(Instr::Lt, w, u, false) && says(Instr::Le, w, u, false) && says(
                Instr::Gt,
                w,
                u,
                false,
            ) && says(Instr::Ge, w, u, false)
            &&& a is Duration || a is Timestamp || a is Struct || a is Optional ==> says(
                Instr::Eq,
                a,
                b,
                false,
            ) && says(Instr::Ne, a, b, true)
        }),
{
    float::law_whole_numbers(i as int);
}

/// What the machines do not compute with ends a program: values of different types are not added,
/// subtracted, multiplied or divided, nor ordered, but for an integer and a double.
pub proof fn law_machine_refuses(a: Val, b: Val, host: Seq<(Req, Outcome)>)
    ensures
        ({
            let refuses = |i: Instr|
                vm::binary_step(i, a, b, host) == Some(Err::<Val, Fault>(Fault::NoSuchOverload));
            let numbers = a is Int && b is Int || a is UInt && b is UInt || a is Float && b is Float;
            &&& !numbers && !(a is String && b is String) && !(a is List && b is List) ==> refuses(
                Instr::Add,
            )
            &&& !numbers ==> refuses(Instr::Sub) && refuses(Instr::Mul) && refuses(Instr::Div)
            &&& !numbers || a is Float ==> refuses(Instr::Mod)
            &&& !numbers && !(a is String && b is String) && !(a is Bool && b is Bool) && !(a is Int
                && b is Float) && !(a is Float && b is Int) ==> (vm::binary_step(
                Instr::Lt,
                a,
                b,
                host,
            ) matches Some(Err(Fault::ValuesNotComparable(_, _)))) && (vm::binary_step(
                Instr::Ge,
                a,
                b,
                host,
            ) matches Some(Err(Fault::ValuesNotComparable(_, _))))
            &&& !(b is List || b is Dict) ==> refuses(Instr::In)
            &&& !(a is List || a is Dict || a is String) ==> refuses(Instr::Index)
        }),
{
}

/// The characters of a text are its items on the machines, counted from zero.
pub proof fn law_machine_characters(s: Seq<char>, i: i64, host: Seq<(Req, Outcome)>)
    ensures
        0 <= i < s.len() ==> vm::binary_step(
            Instr::Index,
            Val::String(s),
            Val::Int(i),
            host,
        ) == Some(Ok::<Val, Fault>(Val::String(seq![s[i as int]]))),
        i < 0 || i >= s.len() ==> vm::binary_step(
            Instr::Index,
            Val::String(s),
            Val::Int(i),
            host,
        ) == Some(Err::<Val, Fault>(Fault::IndexOutOfBounds(Val::Int(i)))),
{
}

/// An evaluation works with the variables that a state has read, where there are as many as the
/// program has, and else with those of the scope.
pub proof fn law_state_variables(state: Option<Seq<Val>>, code: Code, c: Scope)
    ensures
        ({
            let vars = vm::vars_for(state, code, c);
            &&& vars.len() == code.var_names.len()
            &&& state matches Some(read) ==> read.len() == code.var_names.len() ==> vars == read
            &&& (state is None || state->0.len() != code.var_names.len()) ==> vars
                == vm::bound_vars(code.var_names, c)
        }),
{
}

/// Every program starts at its first instruction, with nothing on the stack and no walk begun.
pub proof fn law_start()
    ensures
        vm::started().pc == 0,
        vm::started().stack.len() == 0,
        vm::started().iters.len() == 0,
        vm::started().accu == Val::Null,
        vm::started().elem == Val::Null,
{
}

/// The register machine takes constants, names, fields, operators on one value or two, and
/// sizes; it refuses lists, maps, structs, loops and calls of other functions.
pub proof fn law_refused(e: Expr)
    ensures
        match e {
            Expr::Literal(_) => reg_compiler::refusal(e) is None,
            Expr::Ident(_) => reg_compiler::refusal(e) is None,
            Expr::Select(s) => reg_compiler::refusal(e) == reg_compiler::refusal(s.operand.expr),
            Expr::List(_) => reg_compiler::refusal(e) == Some(
                "list literals not supported in reg VM"@,
            ),
            Expr::Dict(_) => reg_compiler::refusal(e) == Some(
                "map literals not supported in reg VM"@,
            ),
            Expr::Comprehension(_) => reg_compiler::refusal(e) == Some(
                "comprehensions not supported in reg VM"@,
            ),
            Expr::Struct(_) => reg_compiler::refusal(e) is Some,
            Expr::Unspecified => reg_compiler::refusal(e) is Some,
            Expr::Call(call) => {
                let n = call.func_name@;
                &&& call.args@.len() != 1 && call.args@.len() != 2 ==> reg_compiler::refusal(e)
                    is Some
                &&& call.args@.len() == 2 && reg_compiler::refusal(call.args@[0].expr) is None
                    && reg_compiler::refusal(call.args@[1].expr) is None && known_two(n)
                    ==> reg_compiler::refusal(e) is None
                &&& call.args@.len() == 1 && reg_compiler::refusal(call.args@[0].expr) is None && (n
                    == "!_"@ || n == "-_"@ || n == "size"@) ==> reg_compiler::refusal(e) is None
                &&& call.args@.len() == 2 && (ast::operator_of(n) is None || n == "_?._"@ || n
                    == "_[?_]"@ || n == "_?_:_"@) ==> reg_compiler::refusal(e) is Some
                &&& call.args@.len() == 1 && n != "!_"@ && n != "-_"@ && n != "size"@
                    ==> reg_compiler::refusal(e) is Some
            },
        },
{
    lemma_operators();
}

/// An operator on two values that the register machine knows.
pub open spec fn known_two(n: Seq<char>) -> bool {
    ||| n == "_+_"@ || n == "_-_"@ || n == "_*_"@ || n == "_/_"@ || n == "_%_"@
    ||| n == "_==_"@ || n == "_!=_"@ || n == "_<_"@ || n == "_<=_"@ || n == "_>_"@
    ||| n == "_>=_"@ || n == "@in"@ || n == "_[_]"@ || n == "_&&_"@ || n == "_||_"@
}

/// A program of one comparison and its end becomes that comparison, as a filter and as a closure;
/// so do a test of a text and of a set, a sum and a conjunction. A program of another shape stays
/// a program.
pub proof fn law_program_forms(code: RegCode, d: u8, a: u8, b: u8, k: i64, n: u16)
    requires
        code.instructions.len() == 2,
        code.instructions[1] == RegInstr::Halt(d),
    ensures
        ({
            let i = code.instructions[0];
            let f = enum_filter::form(code, code.instructions);
            let c = reg_closure_vm::closure_of(code);
            &&& i == RegInstr::EqIntConst(d, a, k) ==> f == EnumModel::IntConst(IntRel::Eq, a, k)
            &&& i == RegInstr::EqIntConst(d, a, k) ==> c == ClosureModel::IntTest(i, a, k)
            &&& i == RegInstr::NeIntConst(d, a, k) ==> f == EnumModel::IntConst(IntRel::Ne, a, k)
            &&& i == RegInstr::NeIntConst(d, a, k) ==> c == ClosureModel::NeInt(a, k)
            &&& i == RegInstr::LtIntConst(d, a, k) ==> f == EnumModel::IntConst(IntRel::Lt, a, k)
            &&& i == RegInstr::LtIntConst(d, a, k) ==> c == ClosureModel::IntTest(i, a, k)
            &&& i == RegInstr::LeIntConst(d, a, k) ==> f == EnumModel::IntConst(IntRel::Le, a, k)
            &&& i == RegInstr::LeIntConst(d, a, k) ==> c == ClosureModel::IntTest(i, a, k)
            &&& i == RegInstr::GtIntConst(d, a, k) ==> f == EnumModel::IntConst(IntRel::Gt, a, k)
            &&& i == RegInstr::GtIntConst(d, a, k) ==> c == ClosureModel::IntTest(i, a, k)
            &&& i == RegInstr::GeIntConst(d, a, k) ==> f == EnumModel::IntConst(IntRel::Ge, a, k)
            &&& i == RegInstr::GeIntConst(d, a, k) ==> c == ClosureModel::IntTest(i, a, k)
            &&& i == RegInstr::AddInt(d, a, b) ==> c == ClosureModel::AddInt(a, b, d) && f
                == EnumModel::Generic(code)
            &&& i == RegInstr::And(d, a, b) ==> c == ClosureModel::And(a, b, d)
            &&& i == RegInstr::EqStrConst(d, a, n) ==> (code.constants[n as int] matches Val::String(
                t,
            ) ==> f == EnumModel::StrConst(a, t))
            &&& i == RegInstr::SubInt(d, a, b) ==> c == ClosureModel::Program(code) && f
                == EnumModel::Generic(code)
        }),
{
}

/// A program that only ends becomes its register; one that tests both ends of a range becomes
/// that range.
pub proof fn law_other_forms(code: RegCode, d: u8, r1: u8, r2: u8, s: u8, lo: i64, hi: i64)
    ensures
        code.instructions =~= seq![RegInstr::Halt(d)] ==> reg_closure_vm::closure_of(code)
            == ClosureModel::Return(d),
        code.instructions =~= seq![
            RegInstr::GeIntConst(r1, s, lo),
            RegInstr::LeIntConst(r2, s, hi),
            RegInstr::And(d, r1, r2),
            RegInstr::Halt(d),
        ] ==> enum_filter::form(code, code.instructions) == EnumModel::Between(s, lo, hi),
        code.instructions.len() > 2 ==> reg_closure_vm::closure_of(code) == ClosureModel::Program(
            code,
        ),
{
}

/// What filters read off programs cost.
pub proof fn law_program_costs(
    f: EnumModel,
    a: Box<EnumModel>,
    b: Box<EnumModel>,
)
    ensures
        f is IntConst ==> enum_filter::cost_of(f) == 1,
        f is StrConst || f is Between ==> enum_filter::cost_of(f) == 2,
        f is Generic ==> enum_filter::cost_of(f) == 255,
        f matches EnumModel::InIntSet(_, v) ==> v.len() <= 8 ==> enum_filter::cost_of(f) == 2
            + v.len(),
        f matches EnumModel::InStrSet(_, v) ==> v.len() <= 12 ==> enum_filter::cost_of(f) == 3
            + v.len(),
        f is InIntSet ==> 2 <= enum_filter::cost_of(f) <= 10,
        f is InStrSet ==> 3 <= enum_filter::cost_of(f) <= 15,
        ({
            let c = enum_filter::cost_of(*a) + enum_filter::cost_of(*b);
            let total: int = if c > 255 {
                255
            } else {
                c
            };
            &&& enum_filter::cost_of(EnumModel::And(a, b)) == total
            &&& enum_filter::cost_of(EnumModel::Or(a, b)) == total
        }),
{
}

/// Over typed arrays a boolean is an integer that is not zero, a list has no length, and what
/// only values can tell does not hold.
pub proof fn law_typed_arrays(
    n: FilterNode,
    idx: usize,
    ints: Seq<i64>,
    texts: Seq<Seq<char>>,
    l: Box<ListExpr>,
)
    ensures
        idx < ints.len() ==> (filter_tree::typed_holds(FilterNode::BoolVar { idx }, ints, texts)
            <==> ints[idx as int] != 0),
        filter_tree::int_value_typed(I64Expr::ListLen(l), ints, texts) == 0,
        n is ExistsIntList || n is ExistsStrEq || n is ExistsIntSet || n is ExistsMapInt
            || n is MapIndexStrEq || n is MapIndexIntList || n is FnCmpResult
            ==> !filter_tree::typed_holds(n, ints, texts) && filter_tree::reads_values(n),
{
}

/// The typed forms of a variable: an integer as itself, a boolean as one or zero, a text as
/// itself, and all else as zero and the empty text.
pub proof fn law_typed_forms(v: Option<Val>)
    ensures
        ({
            let (i, s) = filter_tree_compiler::typed_pair(v);
            match v {
                Some(Val::Int(x)) => i == x && s.len() == 0,
                Some(Val::Bool(b)) => (b <==> i == 1) && (!b <==> i == 0) && s.len() == 0,
                Some(Val::String(t)) => i == 0 && s == t,
                _ => i == 0 && s.len() == 0,
            }
        }),
{
}

/// A key that is not in a map is told as it is written for a programmer.
pub proof fn law_missing_key(
    call: CallExpr,
    p: Seq<usize>,
    c: Scope,
    m: Seq<(KeyVal, Val)>,
    v: Val,
)
    requires
        on_two(call, "_[_]"@),
        operands(call, p, c, Val::Dict(m), v),
        !has_key(m, v),
    ensures
        ({
            let told = |t: Seq<char>| called(call, p, c) == Err::<Val, Fault>(Fault::NoSuchKey(t));
            match v {
                Val::Int(i) => told("Int("@ + strings::signed_decimal(i as int) + ")"@),
                Val::UInt(u) => told("Uint("@ + strings::decimal(u as nat) + ")"@),
                Val::Bool(b) => told(
                    if b {
                        "Bool(true)"@
                    } else {
                        "Bool(false)"@
                    },
                ),
                Val::String(s) => told("String("@ + strings::quoted(s) + ")"@),
                _ => true,
            }
        }),
{
    lemma_operators();
    lemma_entry(m, v);
}

/// What values and keys stand for.
pub proof fn law_views(v: Value, k: Key)
    ensures
        match v {
            Value::Null => v@ == Val::Null,
            Value::Bool(b) => v@ == Val::Bool(b),
            Value::Int(i) => v@ == Val::Int(i),
            Value::UInt(u) => v@ == Val::UInt(u),
            Value::Float(x) => v@ == Val::Float(x),
            Value::String(s) => v@ == Val::String(s@),
            Value::Bytes(b) => v@ == Val::Bytes(b@),
            Value::List(l) => v@ matches Val::List(s) && s.len() == l@.len() && forall|i: int|
                0 <= i < l@.len() ==> s[i] == (#[trigger] l@[i])@,
            Value::Dict(m) => v@ matches Val::Dict(s) && s.len() == m.entries@.len() && forall|i: int|
                0 <= i < s.len() ==> s[i] == ((#[trigger] m.entries@[i]).0@, m.entries@[i].1@),
            Value::Duration(d) => v@ == Val::Duration(d),
            Value::Timestamp(t) => v@ == Val::Timestamp(t),
            Value::Struct(x) => v@ matches Val::Struct(n, s) && n == x.name@ && s.len()
                == x.fields@.len() && forall|i: int|
                0 <= i < s.len() ==> s[i] == ((#[trigger] x.fields@[i]).0@, x.fields@[i].1@),
            Value::Optional(o) => match o {
                Some(x) => v@ == Val::Optional(Some(Box::new((*x)@))),
                None => v@ == Val::Optional(None),
            },
        },
        match k {
            Key::Int(i) => k@ == KeyVal::Int(i),
            Key::Uint(u) => k@ == KeyVal::Uint(u),
            Key::Bool(b) => k@ == KeyVal::Bool(b),
            Key::String(s) => k@ == KeyVal::String(s@),
        },
{
    broadcast use objects::group_value_views;

}

/// By default there is the standard library, and nothing else: no variables, no registered
/// functions and no answers.
pub proof fn law_default_scope(name: Seq<char>)
    ensures
        ({
            let c = context::default_scope();
            &&& context::variable(c, name) is None
            &&& !c.functions.contains(name)
            &&& c.host.len() == 0
            &&& c.rounds.len() == 0
            &&& c.env == env::stdlib_env()
        }),
{
}

/// An expression that is not there is null.
pub proof fn law_unspecified(p: Seq<usize>, c: Scope)
    ensures
        semantics::eval_expr(Expr::Unspecified, p, c) == Ok::<Val, Fault>(Val::Null),
{
}

/// The operands of a comparison of a variable with a literal.
pub open spec fn variable_and_literal(call: CallExpr, name: String, lit: LiteralValue) -> bool {
    &&& call.args@.len() == 2
    &&& call.args@[0].expr == Expr::Ident(name)
    &&& call.args@[1].expr == Expr::Literal(lit)
}

/// The same with the literal first.
pub open spec fn literal_and_variable(call: CallExpr, name: String, lit: LiteralValue) -> bool {
    &&& call.args@.len() == 2
    &&& call.args@[0].expr == Expr::Literal(lit)
    &&& call.args@[1].expr == Expr::Ident(name)
}

/// A filter that compares a variable as it is with an integer.
pub open spec fn compared(idx: usize, op: IntCmp, val: i64) -> Filt {
    Filt::Test(IntTest { idx, arith: Arith::Keep, operand: 0, cmp: op, val })
}

pub proof fn lemma_no_text_function(call: CallExpr)
    requires
        ast::operator_of(call.func_name@) is Some,
    ensures
        call.func_name@ != "startsWith"@,
        call.func_name@ != "endsWith"@,
        call.func_name@ != "contains"@,
        call.func_name@ != "matches"@,
{
    if known_name(call.func_name@) {
        lemma_no_operators(call.func_name@);
    }
}

proof fn lemma_new_index(names: Seq<Seq<char>>, name: Seq<char>)
    ensures
        ({
            let (i, n) = filter_tree_compiler::var_idx(names, name);
            filter_tree_compiler::var_idx(n, name) == (i, n) || names.len() > usize::MAX
        }),
{
    let n = names.push(name);
    assert(n.last() == name);
}

/// A comparison of a variable with an integer becomes a test of that variable: with the operator
/// as it is, or, where the literal comes first, the one that says the same from the other side.
/// A new name becomes the next variable.
pub proof fn law_comparison_filters(
    names: Seq<Seq<char>>,
    call: CallExpr,
    known: Known,
    name: String,
    val: i64,
)
    requires
        names.len() < usize::MAX,
        variable_and_literal(call, name, LiteralValue::Int(val)) || literal_and_variable(
            call,
            name,
            LiteralValue::Int(val),
        ),
    ensures
        ({
            let idx = match filter_tree_compiler::name_index(names, name@) {
                Some(i) => whole(i),
                None => whole(names.len() as int),
            };
            let r = filter_tree_compiler::filter_of(names, Expr::Call(call), known);
            let n = call.func_name@;
            let first = call.args@[0].expr is Ident;
            let becomes = |op: IntCmp| r.0 == Ok::<Filt, Seq<char>>(compared(idx, op, val)) && r.1
                == (if filter_tree_compiler::name_index(names, name@) is Some {
                names
            } else {
                names.push(name@)
            });
            &&& n == "_==_"@ && first ==> becomes(IntCmp::Eq)
            &&& n == "_==_"@ && !first ==> becomes(IntCmp::Eq)
            &&& n == "_!=_"@ && first ==> becomes(IntCmp::Ne)
            &&& n == "_!=_"@ && !first ==> becomes(IntCmp::Ne)
            &&& n == "_<_"@ && first ==> becomes(IntCmp::Lt)
            &&& n == "_<_"@ && !first ==> becomes(IntCmp::Gt)
            &&& n == "_<=_"@ && first ==> becomes(IntCmp::Le)
            &&& n == "_<=_"@ && !first ==> becomes(IntCmp::Ge)
            &&& n == "_>_"@ && first ==> becomes(IntCmp::Gt)
            &&& n == "_>_"@ && !first ==> becomes(IntCmp::Lt)
            &&& n == "_>=_"@ && first ==> becomes(IntCmp::Ge)
            &&& n == "_>=_"@ && !first ==> becomes(IntCmp::Le)
        }),
{
    lemma_operators();
    let n = call.func_name@;
    if n == "_==_"@ || n == "_!=_"@ || n == "_<_"@ || n == "_<=_"@ || n == "_>_"@ || n == "_>=_"@ {
        reveal(filter_tree_compiler::test_of);
        reveal(filter_tree_compiler::str_call);
        reveal(filter_tree_compiler::str_member);
        reveal(filter_tree_compiler::int_test);
        lemma_no_text_function(call);
        lemma_new_index(names, name@);
        filter_tree_compiler::lemma_name_index(names, name@);
    }
}

/// A position as an index.
pub open spec fn whole(i: int) -> usize {
    i as usize
}

/// A test of equality of a variable and a text becomes a test of that text; the functions on
/// texts, on a variable and with a literal, become theirs.
pub proof fn law_text_filters(
    names: Seq<Seq<char>>,
    call: CallExpr,
    known: Known,
    name: String,
    text: String,
)
    requires
        filter_tree_compiler::name_index(names, name@) is Some,
        names.len() < usize::MAX,
    ensures
        ({
            let idx = whole(filter_tree_compiler::name_index(names, name@)->0);
            let r = filter_tree_compiler::filter_of(names, Expr::Call(call), known);
            let n = call.func_name@;
            let t = text@;
            let becomes = |m: TextModel| r == (Ok::<Filt, Seq<char>>(Filt::Text(idx, m)), names);
            let on_target = (call.target matches Some(x) && x.expr == Expr::Ident(name))
                && call.args@.len() == 1 && call.args@[0].expr == Expr::Literal(
                LiteralValue::String(text),
            );
            &&& variable_and_literal(call, name, LiteralValue::String(text)) && n == "_==_"@
                ==> becomes(TextModel::Eq(t))
            &&& variable_and_literal(call, name, LiteralValue::String(text)) && n == "_!=_"@
                ==> becomes(TextModel::Ne(t))
            &&& on_target && n == "startsWith"@ ==> becomes(TextModel::StartsWith(t))
            &&& on_target && n == "endsWith"@ ==> becomes(TextModel::EndsWith(t))
            &&& on_target && n == "contains"@ ==> becomes(TextModel::Contains(t))
        }),
{
    lemma_operators();
    let n = call.func_name@;
    reveal(filter_tree_compiler::test_of);
    reveal(filter_tree_compiler::str_call);
    reveal(filter_tree_compiler::str_member);
    reveal(filter_tree_compiler::str_test);
    filter_tree_compiler::lemma_name_index(names, name@);
    if n == "_==_"@ || n == "_!=_"@ {
        lemma_no_text_function(call);
        if variable_and_literal(call, name, LiteralValue::String(text)) {
            lemma_no_int_test(names, call, known, name, text);
        }
    } else if n == "startsWith"@ || n == "endsWith"@ || n == "contains"@ {
        assert(known_name(n));
        lemma_no_operators(n);
        reveal_strlit("startsWith");
        reveal_strlit("endsWith");
        reveal_strlit("contains");
        assert("startsWith"@[0] == 's' && "endsWith"@[0] == 'e' && "contains"@[0] == 'c');
    }
}

/// A variable and a text are compared as no integers.
proof fn lemma_no_int_test(
    names: Seq<Seq<char>>,
    call: CallExpr,
    known: Known,
    name: String,
    text: String,
)
    requires
        variable_and_literal(call, name, LiteralValue::String(text)),
        filter_tree_compiler::name_index(names, name@) is Some,
    ensures
        filter_tree_compiler::int_test(
            names,
            ast::operator_of(call.func_name@),
            call.args@[0].expr,
            call.args@[1].expr,
            known.functions,
        ) == (None::<Filt>, names),
{
    reveal(filter_tree_compiler::int_test);
    reveal(filter_tree_compiler::arith_test);
    reveal(filter_tree_compiler::call_test);
    reveal(filter_tree_compiler::general_test);
}

/// A boolean variable, a constant and the connectives become what they are; where the fields are
/// known, a name that is no boolean field is refused.
pub proof fn law_simple_filters(
    names: Seq<Seq<char>>,
    e: Expr,
    known: Known,
)
    ensures
        ({
            let r = filter_tree_compiler::filter_of(names, e, known);
            match e {
                Expr::Literal(LiteralValue::Boolean(b)) => r.0 == Ok::<Filt, Seq<char>>(
                    Filt::BoolLiteral(b),
                ),
                Expr::Literal(_) => r.0 is Err,
                Expr::Ident(name) => {
                    &&& (known.bool_fields matches Some(s) && !s.contains(name@)) ==> r.0 is Err
                    &&& !(known.bool_fields matches Some(s) && !s.contains(name@)) ==> (match
                        filter_tree_compiler::name_index(names, name@) {
                        Some(i) => r.0 == Ok::<Filt, Seq<char>>(Filt::BoolVar(whole(i))),
                        None => r.0 == Ok::<Filt, Seq<char>>(
                            Filt::BoolVar(whole(names.len() as int)),
                        ) && r.1 == names.push(name@),
                    })
                },
                Expr::Call(call) => {
                    let n = call.func_name@;
                    &&& n == "!_"@ && call.args@.len() == 1 ==> {
                        let inner = filter_tree_compiler::filter_of(
                            names,
                            call.args@[0].expr,
                            known,
                        );
                        match inner.0 {
                            Ok(x) => r.0 == Ok::<Filt, Seq<char>>(Filt::Not(Box::new(x))),
                            Err(m) => r.0 == Err::<Filt, Seq<char>>(m),
                        }
                    }
                    &&& (n == "_&&_"@ || n == "_||_"@) && call.args@.len() == 2
                        && filter_tree_compiler::merged_contains(names, n == "_||_"@, e) == (
                    None::<Filt>, names) ==> {
                        let a = filter_tree_compiler::filter_of(names, call.args@[0].expr, known);
                        let b = filter_tree_compiler::filter_of(a.1, call.args@[1].expr, known);
                        match (a.0, b.0) {
                            (Ok(x), Ok(y)) => r.0 == Ok::<Filt, Seq<char>>(
                                if n == "_||_"@ {
                                    Filt::Or(Box::new(x), Box::new(y))
                                } else {
                                    Filt::And(Box::new(x), Box::new(y))
                                },
                            ),
                            (Err(m), _) => r.0 == Err::<Filt, Seq<char>>(m),
                            (_, Err(m)) => r.0 == Err::<Filt, Seq<char>>(m),
                        }
                    }
                },
                Expr::Comprehension(_) => true,
                _ => r.0 is Err,
            }
        }),
{
    lemma_operators();
    reveal_strlit("_||_");
    reveal_strlit("_&&_");
    assert("_||_"@[1] == '|' && "_&&_"@[1] == '&');
}

} // verus!
