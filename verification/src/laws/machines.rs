//! Laws of the machines: what their instructions do to values, and that a program compiled for
//! registers gives what its expression means.

use crate::common::ast;
use crate::common::ast::{CallExpr, Expr};
use crate::common::functions::Function;
use crate::context;
use crate::context::Scope;
use crate::env;
use crate::error;
use crate::error::{Fault, FloatOp, Outcome, Req};
use crate::laws::arithmetic::{arg, called, lemma_operators};
use crate::objects;
use crate::objects::{KeyVal, Val};
use crate::ops;
use crate::ops::BinOp;
use crate::semantics;
use crate::semantics::{to_arg, to_target, CallKind};
use crate::strings;
use crate::vm::bytecode::Instr;
use crate::vm::reg_bytecode::RegCode;
use crate::vm::reg_compiler;
use crate::vm::reg_vm;
use crate::vm::vm;
use vstd::prelude::*;
use vstd::string::*;

verus! {

/// What an instruction on two values gives is a value.
pub open spec fn gives(
    i: Instr,
    a: Val,
    b: Val,
    host: Seq<(Req, Outcome)>,
    v: Val,
) -> bool {
    vm::binary_step(i, a, b, host) == Some(Ok::<Val, Fault>(v))
}

/// On the machines the sum, the difference and the product of two signed integers are those of
/// the integers where they fit in 64 bits, and wrap where they do not.
pub proof fn law_machine_integers(x: i64, y: i64, host: Seq<(Req, Outcome)>) -> (r: (i64, i64, i64))
    ensures
        ({
            let (sum, difference, product) = r;
            let all = 0x1_0000_0000_0000_0000int;
            let fits = |n: int| -0x8000_0000_0000_0000 <= n <= 0x7fff_ffff_ffff_ffff;
            let a = Val::Int(x);
            let b = Val::Int(y);
            &&& gives(Instr::Add, a, b, host, Val::Int(sum))
            &&& gives(Instr::Sub, a, b, host, Val::Int(difference))
            &&& gives(Instr::Mul, a, b, host, Val::Int(product))
            &&& fits(x + y) ==> sum == x + y
            &&& fits(x - y) ==> difference == x - y && difference + y == x
            &&& fits(x * y) ==> product == x * y
            &&& (sum - (x + y)) % all == 0
            &&& (difference - (x - y)) % all == 0
            &&& (product - x * y) % all == 0
        }),
{
    let p = x.wrapping_mul(y);
    let n = x * y;
    assert((p - n) % 0x1_0000_0000_0000_0000 == 0) by {
        lemma_cropped(n, p as int);
    }
    (x.wrapping_add(y), x.wrapping_sub(y), p)
}

pub proof fn lemma_cropped(n: int, p: int)
    requires
        p == n % 0x1_0000_0000_0000_0000 || p == n % 0x1_0000_0000_0000_0000
            - 0x1_0000_0000_0000_0000,
    ensures
        (p - n) % 0x1_0000_0000_0000_0000 == 0,
{
}

/// Unsigned integers are computed with in the same way.
pub proof fn law_machine_unsigned(x: u64, y: u64, host: Seq<(Req, Outcome)>) -> (r: (u64, u64, u64))
    ensures
        ({
            let (sum, difference, product) = r;
            let all = 0x1_0000_0000_0000_0000int;
            let a = Val::UInt(x);
            let b = Val::UInt(y);
            &&& gives(Instr::Add, a, b, host, Val::UInt(sum))
            &&& gives(Instr::Sub, a, b, host, Val::UInt(difference))
            &&& gives(Instr::Mul, a, b, host, Val::UInt(product))
            &&& x + y < all ==> sum == x + y
            &&& x >= y ==> difference == x - y
            &&& x * y < all ==> product == x * y
            &&& (sum - (x + y)) % all == 0
            &&& (difference - (x - y)) % all == 0
            &&& (product - x * y) % all == 0
        }),
{
    let p = x.wrapping_mul(y);
    let n = x * y;
    assert((p - n) % 0x1_0000_0000_0000_0000 == 0) by {
        lemma_cropped(n, p as int);
    }
    (x.wrapping_add(y), x.wrapping_sub(y), p)
}

/// The operator of the language that an instruction on two values stands for.
pub open spec fn stands_for(i: Instr, name: Seq<char>) -> bool {
    match i {
        Instr::Add => name == "_+_"@,
        Instr::Sub => name == "_-_"@,
        Instr::Mul => name == "_*_"@,
        Instr::Div => name == "_/_"@,
        Instr::Mod => name == "_%_"@,
        Instr::Eq => name == "_==_"@,
        Instr::Ne => name == "_!=_"@,
        Instr::Lt => name == "_<_"@,
        Instr::Le => name == "_<=_"@,
        Instr::Gt => name == "_>_"@,
        Instr::Ge => name == "_>=_"@,
        Instr::In => name == "@in"@,
        Instr::LogicalAnd => name == "_&&_"@,
        Instr::LogicalOr => name == "_||_"@,
        Instr::Index => name == "_[_]"@,
        _ => false,
    }
}

/// A value in which there are no instants, durations, structs and optionals, which the machines
/// do not tell apart.
pub open spec fn plain(v: Val) -> bool
    decreases v,
{
    match v {
        Val::Duration(_) => false,
        Val::Timestamp(_) => false,
        Val::Struct(_, _) => false,
        Val::Optional(_) => false,
        Val::List(l) => forall|i: int| 0 <= i < l.len() ==> plain(#[trigger] l[i]),
        Val::Dict(m) => forall|i: int| 0 <= i < m.len() ==> plain((#[trigger] m[i]).1),
        _ => true,
    }
}

/// The answers of the host to arithmetic on doubles are doubles.
pub open spec fn doubles_stay(host: Seq<(Req, Outcome)>) -> bool {
    forall|op: FloatOp, a: u64, b: u64|
        (#[trigger] error::ask(host, Req::Arithmetic(op, a, b))) matches Ok(v) ==> v is Float
}

/// An index that counts from the end of a list, which the machines do not know.
pub open spec fn from_the_end(i: Instr, a: Val, b: Val) -> bool {
    i is Index && a is List && (b matches Val::Int(k) && k < 0)
}

/// What the operator that an instruction stands for gives.
spec fn by_operator(i: Instr, a: Val, b: Val, host: Seq<(Req, Outcome)>) -> Outcome {
    match i {
        Instr::Add => ops::binary_result(BinOp::Add, a, b, host),
        Instr::Sub => ops::binary_result(BinOp::Sub, a, b, host),
        Instr::Mul => ops::binary_result(BinOp::Mul, a, b, host),
        Instr::Div => ops::binary_result(BinOp::Div, a, b, host),
        Instr::Mod => ops::binary_result(BinOp::Rem, a, b, host),
        Instr::Eq => ops::binary_result(BinOp::Equals, a, b, host),
        Instr::Ne => ops::binary_result(BinOp::NotEquals, a, b, host),
        Instr::Lt => ops::binary_result(BinOp::Less, a, b, host),
        Instr::Le => ops::binary_result(BinOp::LessEquals, a, b, host),
        Instr::Gt => ops::binary_result(BinOp::Greater, a, b, host),
        Instr::Ge => ops::binary_result(BinOp::GreaterEquals, a, b, host),
        Instr::In => ops::binary_result(BinOp::In, a, b, host),
        Instr::LogicalAnd => ops::logic_result(false, Ok(a), Ok(b)),
        Instr::LogicalOr => ops::logic_result(true, Ok(a), Ok(b)),
        _ => ops::index_result(false, a, b),
    }
}

#[verifier::rlimit(60)]
proof fn lemma_by_operator(
    i: Instr,
    call: CallExpr,
    p: Seq<usize>,
    c: Scope,
    a: Val,
    b: Val,
)
    requires
        stands_for(i, call.func_name@),
        call.args@.len() == 2,
        arg(call, 0, p, c) == Ok::<Val, Fault>(a),
        arg(call, 1, p, c) == Ok::<Val, Fault>(b),
    ensures
        called(call, p, c) == by_operator(i, a, b, c.host),
{
    lemma_operators();
}

#[verifier::rlimit(60)]
proof fn lemma_values_agree(
    i: Instr,
    a: Val,
    b: Val,
    host: Seq<(Req, Outcome)>,
    v: Val,
    name: Seq<char>,
)
    requires
        stands_for(i, name),
        plain(a),
        plain(b),
        doubles_stay(host),
        by_operator(i, a, b, host) == Ok::<Val, Fault>(v),
    ensures
        !from_the_end(i, a, b) ==> gives(i, a, b, host, v),
        from_the_end(i, a, b) ==> (vm::binary_step(i, a, b, host) matches Some(Err(_))),
        plain(v),
{
    match i {
        Instr::Add => {
            match (a, b) {
                (Val::List(x), Val::List(y)) => {
                    assert forall|k: int| 0 <= k < (x + y).len() implies plain(
                        #[trigger] (x + y)[k],
                    ) by {
                        if k < x.len() {
                            assert((x + y)[k] == x[k]);
                        } else {
                            assert((x + y)[k] == y[k - x.len()]);
                        }
                    }
                },
                _ => {},
            }
        },
        Instr::In => {
            match b {
                Val::List(items) => {
                    assert(vm::some_equal(items, a) == ops::list_has(items, a)) by {
                        assert forall|k: int| 0 <= k < items.len() implies vm::machine_eq(
                            #[trigger] items[k],
                            a,
                        ) == objects::val_eq(items[k], a) by {
                            assert(plain(items[k]));
                        }
                        if vm::some_equal(items, a) {
                            let k = choose|k: int|
                                0 <= k < items.len() && vm::machine_eq(#[trigger] items[k], a);
                            assert(objects::val_eq(items[k], a));
                        }
                        if ops::list_has(items, a) {
                            let k = choose|k: int|
                                0 <= k < items.len() && objects::val_eq(#[trigger] items[k], a);
                            assert(vm::machine_eq(items[k], a));
                        }
                    }
                },
                _ => {},
            }
        },
        Instr::Index => {
            match a {
                Val::List(items) => {
                    match b {
                        Val::Int(k) => {
                            if 0 <= k < items.len() {
                                assert(plain(items[k as int]));
                            }
                            if -items.len() <= k < 0 {
                                assert(plain(items[items.len() + k]));
                            }
                        },
                        Val::UInt(k) => {
                            assert(plain(items[k as int]));
                        },
                        _ => {},
                    }
                },
                Val::Dict(m) => {
                    let k = objects::key_of(b)->0;
                    objects::lemma_entry_index(m, k, 0);
                    let at = objects::entry_index(m, k, 0)->0;
                    assert(plain(m[at].1));
                },
                _ => {},
            }
        },
        Instr::Lt | Instr::Le | Instr::Gt | Instr::Ge => {
            match (a, b) {
                (Val::String(x), Val::String(y)) => {
                    strings::lemma_text_lt_total(x, y);
                    if strings::text_lt(x, y) && strings::text_lt(y, x) {
                        strings::lemma_text_lt_transitive(x, y, x);
                        strings::lemma_text_lt_irreflexive(x);
                    }
                    if x == y {
                        strings::lemma_text_lt_irreflexive(x);
                    }
                },
                _ => {},
            }
        },
        _ => {},
    }
}

/// An instruction of the machines and the operator of the language that it stands for: where
/// the operator gives a value for two plain values, the instruction gives the same, which is
/// plain again; but for an index that counts from the end of a list, for which the instruction
/// gives no value.
pub proof fn law_operations_agree(
    i: Instr,
    call: CallExpr,
    p: Seq<usize>,
    c: Scope,
    a: Val,
    b: Val,
    v: Val,
)
    requires
        stands_for(i, call.func_name@),
        call.args@.len() == 2,
        arg(call, 0, p, c) == Ok::<Val, Fault>(a),
        arg(call, 1, p, c) == Ok::<Val, Fault>(b),
        plain(a),
        plain(b),
        doubles_stay(c.host),
        called(call, p, c) == Ok::<Val, Fault>(v),
    ensures
        !from_the_end(i, a, b) ==> gives(i, a, b, c.host, v),
        from_the_end(i, a, b) ==> (vm::binary_step(i, a, b, c.host) matches Some(Err(_))),
        plain(v),
{
    lemma_by_operator(i, call, p, c, a, b);
    lemma_values_agree(i, a, b, c.host, v, call.func_name@);
}

/// An expression on which the language and the register machine can agree: its calls of `size`
/// go to the standard function, and have no target.
pub open spec fn sizes_plain(e: Expr, c: Scope) -> bool
    decreases e,
{
    match e {
        Expr::Call(call) => {
            &&& forall|i: int| 0 <= i < call.args@.len() ==> sizes_plain(call.args@[i].expr, c)
            &&& call.func_name@ == "size"@ ==> {
                &&& call.target is None
                &&& call.resolved_op is None || call.resolved_op == Some(
                    Function::Size,
                )
                &&& !c.functions.contains("size"@)
                &&& forall|v: Val|
                    (#[trigger] env::find(c.env, "size"@, false, seq![v])) matches Some(g) ==> g
                        == Function::Size
            }
        },
        Expr::Select(s) => sizes_plain(s.operand.expr, c),
        _ => true,
    }
}

/// The variables of a scope have plain values.
pub open spec fn plain_scope(c: Scope) -> bool {
    &&& forall|name: Seq<char>|
        (#[trigger] context::variable(c, name)) matches Some(v) ==> plain(v)
    &&& doubles_stay(c.host)
}

/// The variables of a program as a scope has them; one that is not there is null.
pub open spec fn variables_of(c: Scope) -> Map<Seq<char>, Val> {
    Map::new(
        |name: Seq<char>| true,
        |name: Seq<char>|
            match context::variable(c, name) {
                Some(v) => v,
                None => Val::Null,
            },
    )
}

proof fn lemma_meaning_agrees(e: Expr, p: Seq<usize>, c: Scope)
    requires
        plain_scope(c),
        sizes_plain(e, c),
    ensures
        semantics::eval_expr(e, p, c) matches Ok(v) ==> (reg_compiler::meaning(
            e,
            variables_of(c),
            c.host,
        ) matches Some(Ok(w)) ==> v == w && plain(v)),
    decreases e,
{
    let env = variables_of(c);
    lemma_operators();
    match e {
        Expr::Literal(l) => {},
        Expr::Ident(n) => {
            match context::variable(c, n@) {
                Some(v) => {
                    assert(plain(v));
                },
                None => {},
            }
        },
        Expr::Select(s) => {
            lemma_meaning_agrees(s.operand.expr, to_target(p), c);
            match reg_compiler::meaning(s.operand.expr, env, c.host) {
                Some(Ok(a)) => {
                    match a {
                        Val::Dict(m) => {
                            objects::lemma_entry_index(m, KeyVal::String(s.field@), 0);
                            match objects::entry_index(m, KeyVal::String(s.field@), 0) {
                                Some(at) => {
                                    if semantics::eval_expr(e, p, c) is Ok {
                                        assert(plain(Val::Dict(m)));
                                        assert(plain(m[at].1));
                                    }
                                },
                                None => {},
                            }
                        },
                        _ => {},
                    }
                },
                _ => {},
            }
        },
        Expr::Call(call) => {
            if call.args@.len() == 2 {
                lemma_two_agree(call, p, c);
            } else if call.args@.len() == 1 {
                lemma_one_agrees(call, p, c);
            }
        },
        _ => {},
    }
}

proof fn lemma_one_agrees(call: CallExpr, p: Seq<usize>, c: Scope)
    requires
        plain_scope(c),
        sizes_plain(Expr::Call(call), c),
        call.args@.len() == 1,
    ensures
        called(call, p, c) matches Ok(v) ==> (reg_compiler::meaning(
            Expr::Call(call),
            variables_of(c),
            c.host,
        ) matches Some(Ok(w)) ==> v == w && plain(v)),
    decreases call,
{
    let env = variables_of(c);
    lemma_operators();
    lemma_meaning_agrees(call.args@[0].expr, to_arg(p, 0), c);
    let n = call.func_name@;
    if n == "!_"@ || n == "-_"@ {
    } else if n == "size"@ {
        reveal_strlit("size");
        assert(ast::operator_of("size"@) is None) by {
            lemma_size_is_no_operator();
        }
        assert(semantics::call_kind(ast::operator_of(n), 1) == CallKind::General);
        let s = call.args@;
        assert(s.drop_last() =~= Seq::empty());
        assert(semantics::eval_args(s.drop_last(), p, c) == Ok::<Seq<Val>, Fault>(Seq::empty()));
        match arg(call, 0, p, c) {
            Ok(v) => {
                assert(Seq::<Val>::empty().push(v) =~= seq![v]);
                assert(semantics::eval_args(s, p, c) == Ok::<Seq<Val>, Fault>(seq![v]));
                assert(seq![v][0] == v);
            },
            Err(f) => {
                assert(semantics::eval_args(s, p, c) == Err::<Seq<Val>, Fault>(f));
            },
        }
    }
}

proof fn lemma_size_is_no_operator()
    ensures
        ast::operator_of("size"@) is None,
{
    reveal_strlit("size");
    reveal_strlit("_?_:_");
    reveal_strlit("_&&_");
    reveal_strlit("_||_");
    reveal_strlit("!_");
    reveal_strlit("_==_");
    reveal_strlit("_!=_");
    reveal_strlit("_<_");
    reveal_strlit("_<=_");
    reveal_strlit("_>_");
    reveal_strlit("_>=_");
    reveal_strlit("_+_");
    reveal_strlit("_-_");
    reveal_strlit("_*_");
    reveal_strlit("_/_");
    reveal_strlit("_%_");
    reveal_strlit("-_");
    reveal_strlit("_[_]");
    reveal_strlit("_[?_]");
    reveal_strlit("_?._");
    reveal_strlit("@in");
    reveal_strlit("@not_strictly_false");
    assert("size"@[0] == 's');
}

proof fn lemma_two_agree(call: CallExpr, p: Seq<usize>, c: Scope)
    requires
        plain_scope(c),
        sizes_plain(Expr::Call(call), c),
        call.args@.len() == 2,
    ensures
        called(call, p, c) matches Ok(v) ==> (reg_compiler::meaning(
            Expr::Call(call),
            variables_of(c),
            c.host,
        ) matches Some(Ok(w)) ==> v == w && plain(v)),
    decreases call,
{
    let env = variables_of(c);
    lemma_operators();
    lemma_meaning_agrees(call.args@[0].expr, to_arg(p, 0), c);
    lemma_meaning_agrees(call.args@[1].expr, to_arg(p, 1), c);
    let op = ast::operator_of(call.func_name@);
    match reg_compiler::binary_op(op) {
        Some(i) => {
            let x = reg_compiler::meaning(call.args@[0].expr, env, c.host);
            let y = reg_compiler::meaning(call.args@[1].expr, env, c.host);
            let o = called(call, p, c);
            if o is Ok && reg_compiler::meaning(Expr::Call(call), env, c.host) matches Some(Ok(_)) {
                let a = x->0->Ok_0;
                let b = y->0->Ok_0;
                let w = reg_compiler::meaning(Expr::Call(call), env, c.host)->0->Ok_0;
                assert(gives(i, a, b, c.host, w));
                if i is LogicalAnd || i is LogicalOr {
                    semantics::law_logic_call(call, p, c, i is LogicalOr);
                } else {
                    assert(arg(call, 0, p, c) == Ok::<Val, Fault>(a));
                    assert(arg(call, 1, p, c) == Ok::<Val, Fault>(b));
                    assert(stands_for(i, call.func_name@));
                    law_operations_agree(i, call, p, c, a, b, o->Ok_0);
                }
            }
        },
        None => {},
    }
}

/// The register machine agrees with the language: wherever the program that was compiled from
/// an expression ends with a value, on the variables of a scope, and the expression has a value
/// in that scope, the two values are the same.
pub proof fn law_register_programs(
    code: RegCode,
    e: Expr,
    p: Seq<usize>,
    c: Scope,
    vars: Seq<Val>,
    regs: Seq<Val>,
)
    requires
        reg_compiler::runs_as(code, e),
        plain_scope(c),
        sizes_plain(e, c),
        regs.len() == 8,
        vars.len() == code.var_names.len(),
        forall|k: int|
            0 <= k < vars.len() ==> #[trigger] vars[k] == (match context::variable(
                c,
                code.var_names[k],
            ) {
                Some(v) => v,
                None => Val::Null,
            }),
    ensures
        semantics::eval_expr(e, p, c) matches Ok(v) ==> (reg_vm::halts(regs, code, vars, c.host)
            ==> (reg_vm::result_of(regs, code, vars, c.host).0 matches Ok(w) ==> v == w)),
{
    let env = variables_of(c);
    lemma_meaning_agrees(e, p, c);
    assert(reg_compiler::binds(vars, code.var_names, env)) by {
        assert forall|k: int| 0 <= k < code.var_names.len() implies vars[k]
            == env[#[trigger] code.var_names[k]] by {
            assert(vars[k] == vars[k]);
        }
    }
    let r = reg_vm::result_of(regs, code, vars, c.host);
    let m = reg_compiler::meaning(e, env, c.host);
}

/// All parts of an expression of the forms that the register machine knows have values in a
/// scope, and no index counts from the end of a list.
pub open spec fn all_valued(e: Expr, p: Seq<usize>, c: Scope) -> bool
    decreases e,
{
    semantics::eval_expr(e, p, c) is Ok && match e {
        Expr::Literal(_) => true,
        Expr::Ident(_) => true,
        Expr::Select(s) => all_valued(s.operand.expr, to_target(p), c),
        Expr::Call(call) => {
            let n = call.func_name@;
            if call.args@.len() == 2 {
                &&& all_valued(call.args@[0].expr, to_arg(p, 0), c)
                &&& all_valued(call.args@[1].expr, to_arg(p, 1), c)
                &&& n == "_[_]"@ && arg(call, 0, p, c)->Ok_0 is List ==> !(arg(
                    call,
                    1,
                    p,
                    c,
                )->Ok_0 matches Val::Int(k) && k < 0)
                &&& known_operator(n)
            } else {
                &&& call.args@.len() == 1
                &&& all_valued(call.args@[0].expr, to_arg(p, 0), c)
                &&& n == "!_"@ || n == "-_"@ || n == "size"@
            }
        },
        _ => false,
    }
}

proof fn lemma_meaning_valued(e: Expr, p: Seq<usize>, c: Scope)
    requires
        plain_scope(c),
        sizes_plain(e, c),
        all_valued(e, p, c),
    ensures
        ({
            let v = semantics::eval_expr(e, p, c)->Ok_0;
            &&& semantics::eval_expr(e, p, c) is Ok
            &&& reg_compiler::meaning(e, variables_of(c), c.host) == Some(Ok::<Val, Fault>(v))
            &&& plain(v)
        }),
    decreases e,
{
    lemma_operators();
    lemma_size_is_no_operator();
    match e {
        Expr::Ident(n) => {
            match context::variable(c, n@) {
                Some(v) => {
                    assert(plain(v));
                },
                None => {},
            }
        },
        Expr::Select(s) => {
            lemma_meaning_valued(s.operand.expr, to_target(p), c);
            lemma_meaning_agrees(e, p, c);
            let a = semantics::eval_expr(s.operand.expr, to_target(p), c)->Ok_0;
            assert(plain(a));
        },
        Expr::Call(call) => {
            if call.args@.len() == 2 {
                lemma_two_valued(call, p, c);
            } else {
                lemma_one_valued(call, p, c);
            }
        },
        _ => {},
    }
}

/// An operator on two values that the register machine knows.
pub open spec fn known_operator(n: Seq<char>) -> bool {
    ||| n == "_+_"@ || n == "_-_"@ || n == "_*_"@ || n == "_/_"@ || n == "_%_"@
    ||| n == "_==_"@ || n == "_!=_"@ || n == "_<_"@ || n == "_<=_"@ || n == "_>_"@
    ||| n == "_>=_"@ || n == "@in"@ || n == "_[_]"@ || n == "_&&_"@ || n == "_||_"@
}

proof fn lemma_stands(n: Seq<char>)
    requires
        known_operator(n),
    ensures
        reg_compiler::binary_op(ast::operator_of(n)) matches Some(i) && stands_for(i, n),
{
    lemma_operators();
}

proof fn lemma_two_valued(call: CallExpr, p: Seq<usize>, c: Scope)
    requires
        plain_scope(c),
        sizes_plain(Expr::Call(call), c),
        all_valued(Expr::Call(call), p, c),
        call.args@.len() == 2,
    ensures
        ({
            let v = called(call, p, c)->Ok_0;
            &&& reg_compiler::meaning(Expr::Call(call), variables_of(c), c.host) == Some(
                Ok::<Val, Fault>(v),
            )
            &&& plain(v)
        }),
    decreases call,
{
    lemma_meaning_valued(call.args@[0].expr, to_arg(p, 0), c);
    lemma_meaning_valued(call.args@[1].expr, to_arg(p, 1), c);
    lemma_stands(call.func_name@);
    let i = reg_compiler::binary_op(ast::operator_of(call.func_name@));
    let a = arg(call, 0, p, c)->Ok_0;
    let b = arg(call, 1, p, c)->Ok_0;
    law_operations_agree(i->0, call, p, c, a, b, called(call, p, c)->Ok_0);
    assert(!from_the_end(i->0, a, b));
}

proof fn lemma_one_valued(call: CallExpr, p: Seq<usize>, c: Scope)
    requires
        plain_scope(c),
        sizes_plain(Expr::Call(call), c),
        all_valued(Expr::Call(call), p, c),
        call.args@.len() == 1,
    ensures
        ({
            let v = called(call, p, c)->Ok_0;
            &&& reg_compiler::meaning(Expr::Call(call), variables_of(c), c.host) == Some(
                Ok::<Val, Fault>(v),
            )
            &&& plain(v)
        }),
    decreases call,
{
    lemma_operators();
    lemma_size_is_no_operator();
    let n = call.func_name@;
    lemma_meaning_valued(call.args@[0].expr, to_arg(p, 0), c);
    let a = arg(call, 0, p, c)->Ok_0;
    reveal_strlit("size");
    reveal_strlit("!_");
    reveal_strlit("-_");
    assert("size"@.len() == 4 && "!_"@[0] == '!' && "-_"@[0] == '-');
    if n == "size"@ {
        assert(semantics::call_kind(ast::operator_of(n), 1) == CallKind::General);
        let s = call.args@;
        assert(s.drop_last() =~= Seq::empty());
        assert(semantics::eval_args(s.drop_last(), p, c) == Ok::<Seq<Val>, Fault>(
            Seq::empty(),
        ));
        assert(Seq::<Val>::empty().push(a) =~= seq![a]);
        assert(semantics::eval_args(s, p, c) == Ok::<Seq<Val>, Fault>(seq![a]));
        assert(seq![a][0] == a);
    }
}

/// Where all the parts of an expression have values, the program that was compiled from it ends,
/// with the value of the expression.
pub proof fn law_register_programs_end(
    code: RegCode,
    e: Expr,
    p: Seq<usize>,
    c: Scope,
    vars: Seq<Val>,
    regs: Seq<Val>,
)
    requires
        reg_compiler::runs_as(code, e),
        plain_scope(c),
        sizes_plain(e, c),
        all_valued(e, p, c),
        regs.len() == 8,
        vars.len() == code.var_names.len(),
        forall|k: int|
            0 <= k < vars.len() ==> #[trigger] vars[k] == (match context::variable(
                c,
                code.var_names[k],
            ) {
                Some(v) => v,
                None => Val::Null,
            }),
    ensures
        reg_vm::halts(regs, code, vars, c.host),
        reg_vm::result_of(regs, code, vars, c.host).0 == semantics::eval_expr(e, p, c),
{
    let env = variables_of(c);
    lemma_meaning_valued(e, p, c);
    assert(reg_compiler::binds(vars, code.var_names, env)) by {
        assert forall|k: int| 0 <= k < code.var_names.len() implies vars[k]
            == env[#[trigger] code.var_names[k]] by {
            assert(vars[k] == vars[k]);
        }
    }
    let r = reg_vm::result_of(regs, code, vars, c.host);
    let m = reg_compiler::meaning(e, env, c.host);
}

/// The variables that a program reads from a scope are those of its names, each in its place;
/// one that is not there is null.
pub proof fn law_variables_read(names: Seq<Seq<char>>, c: Scope, k: int)
    requires
        0 <= k < names.len(),
    ensures
        ({
            let vars = vm::bound_vars(names, c);
            &&& vars.len() == names.len()
            &&& c.vars.dom().contains(names[k]) ==> vars[k] == c.vars[names[k]]
            &&& !c.vars.dom().contains(names[k]) ==> vars[k] == Val::Null
        }),
{
}

} // verus!
