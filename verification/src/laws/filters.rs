//! Laws of what filters and closures say, and of the expressions that become filters.

use crate::common::ast;
use crate::common::ast::{CallExpr, ComprehensionExpr, Expr, IdedExpr, ListExpr, LiteralValue};
use crate::common::decls::OverloadDecl;
use crate::common::functions;
use crate::common::functions::Function;
use crate::common::types::Type;
use crate::context::Scope;
use crate::env;
use crate::error;
use crate::error::{ExecutionError, Fault, Outcome, Req, Site};
use crate::laws::arithmetic::lemma_operators;
use crate::laws::collections::{has_key, lemma_entry};
use crate::laws::forms::{compared, lemma_no_text_function, whole};
use crate::laws::library::lemma_no_operators;
use crate::objects;
use crate::objects::{KeyVal, Val, Value};
use crate::patterns;
use crate::semantics;
use crate::vm::bytecode::Instr;
use crate::vm::enum_filter;
use crate::vm::enum_filter::{EnumFilter, EnumModel};
use crate::vm::filter_tree;
use crate::vm::filter_tree::{Arith, FnModel, IntCmp, IntTest, StrExpr};
use crate::vm::filter_tree_compiler;
use crate::vm::filter_tree_compiler::{
    BoolClosure, CompiledExpr, Filt, I64Closure, Known, TextModel,
};
use crate::vm::reg_bytecode::{RegCode, RegInstr};
use crate::vm::reg_closure_vm;
use crate::vm::reg_closure_vm::RegClosure;
use crate::vm::vm;
use vstd::prelude::*;

verus! {

/// What each filter says of its register. A register of another type passes no test, and a test
/// leaves the registers alone.
pub proof fn law_enum_filters_say(
    f: EnumFilter,
    regs: Seq<Val>,
    host: Seq<(Req, Outcome)>,
    limit: nat,
)
    ensures
        ({
            let says = |s: u8, b: bool|
                s < regs.len() ==> enum_filter::filter_run(
                    enum_filter::filter_view(f),
                    regs,
                    host,
                    limit,
                ) == Some((Ok::<Val, Fault>(Val::Bool(b)), regs));
            match f {
                EnumFilter::EqIntConst { src, val } => says(
                    src,
                    regs[src as int] matches Val::Int(i) && i == val,
                ),
                EnumFilter::NeIntConst { src, val } => says(
                    src,
                    regs[src as int] matches Val::Int(i) && i != val,
                ),
                EnumFilter::LtIntConst { src, val } => says(
                    src,
                    regs[src as int] matches Val::Int(i) && i < val,
                ),
                EnumFilter::LeIntConst { src, val } => says(
                    src,
                    regs[src as int] matches Val::Int(i) && i <= val,
                ),
                EnumFilter::GtIntConst { src, val } => says(
                    src,
                    regs[src as int] matches Val::Int(i) && i > val,
                ),
                EnumFilter::GeIntConst { src, val } => says(
                    src,
                    regs[src as int] matches Val::Int(i) && i >= val,
                ),
                EnumFilter::EqStrConst { src, expected } => says(
                    src,
                    regs[src as int] == Val::String(expected@),
                ),
                EnumFilter::InlineStrConst { src, expected } => says(
                    src,
                    regs[src as int] == Val::String(expected@),
                ),
                EnumFilter::StringConstRaw { src, expected } => says(
                    src,
                    regs[src as int] == Val::String(expected@),
                ),
                EnumFilter::InIntSet { src, values } => says(
                    src,
                    exists|k: int|
                        0 <= k < values@.len() && regs[src as int] == Val::Int(
                            #[trigger] values@[k],
                        ),
                ),
                EnumFilter::InStrSet { src, values } => says(
                    src,
                    exists|k: int|
                        0 <= k < values@.len() && regs[src as int] == Val::String(
                            (#[trigger] values@[k])@,
                        ),
                ),
                EnumFilter::AndGeLeIntConst { src, lo, hi } => says(
                    src,
                    regs[src as int] matches Val::Int(i) && lo <= i && i <= hi,
                ),
                _ => true,
            }
        }),
{
    match f {
        EnumFilter::InIntSet { src, values } => {
            if let Val::Int(i) = regs[src as int] {
                assert(values@.contains(i) <==> exists|k: int|
                    0 <= k < values@.len() && regs[src as int] == Val::Int(#[trigger] values@[k]));
            }
        },
        EnumFilter::InStrSet { src, values } => {
            if let Val::String(t) = regs[src as int] {
                let texts = objects::texts(values@);
                if texts.contains(t) {
                    let k = choose|k: int| 0 <= k < texts.len() && texts[k] == t;
                    assert(values@[k]@ == t);
                }
                if exists|k: int|
                    0 <= k < values@.len() && regs[src as int] == Val::String(
                        (#[trigger] values@[k])@,
                    ) {
                    let k = choose|k: int|
                        0 <= k < values@.len() && regs[src as int] == Val::String(
                            (#[trigger] values@[k])@,
                        );
                    assert(texts[k] == t);
                }
            }
        },
        _ => {},
    }
}

/// Filters are joined as their verdicts are: the second is asked only where the first does not
/// decide.
pub proof fn law_enum_filters_join(
    a: Box<EnumFilter>,
    b: Box<EnumFilter>,
    regs: Seq<Val>,
    host: Seq<(Req, Outcome)>,
    limit: nat,
    x: bool,
    next: Seq<Val>,
)
    requires
        enum_filter::filter_run(enum_filter::filter_view(*a), regs, host, limit) == Some(
            (Ok::<Val, Fault>(Val::Bool(x)), next),
        ),
    ensures
        ({
            let first = Some((Ok::<Val, Fault>(Val::Bool(x)), next));
            let second = enum_filter::filter_run(enum_filter::filter_view(*b), next, host, limit);
            let both = enum_filter::filter_run(
                enum_filter::filter_view(EnumFilter::AndBox(a, b)),
                regs,
                host,
                limit,
            );
            let either = enum_filter::filter_run(
                enum_filter::filter_view(EnumFilter::OrBox(a, b)),
                regs,
                host,
                limit,
            );
            if x {
                both == second && either == first
            } else {
                both == first && either == second
            }
        }),
{
    reveal_with_fuel(enum_filter::filter_run, 2);
    reveal_with_fuel(enum_filter::filter_view, 2);
}

/// What each closure gives for registers that hold integers, and where it puts it.
pub proof fn law_closures_say(
    regs: Seq<Val>,
    host: Seq<(Req, Outcome)>,
    room: nat,
    a: u8,
    k: i64,
    i: i64,
    d: u8,
)
    requires
        a < regs.len(),
        regs[a as int] == Val::Int(i),
    ensures
        ({
            let says = |c: RegClosure, b: bool|
                reg_closure_vm::closure_run(c@, regs, host, room) == (
                    Ok::<Val, Fault>(Val::Bool(b)),
                    regs.update(a as int, Val::Bool(b)),
                );
            &&& says(RegClosure::IntTest(RegInstr::EqIntConst(d, a, k), a, k), i == k)
            &&& says(RegClosure::IntTest(RegInstr::LtIntConst(d, a, k), a, k), i < k)
            &&& says(RegClosure::IntTest(RegInstr::LeIntConst(d, a, k), a, k), i <= k)
            &&& says(RegClosure::IntTest(RegInstr::GtIntConst(d, a, k), a, k), i > k)
            &&& says(RegClosure::IntTest(RegInstr::GeIntConst(d, a, k), a, k), i >= k)
            &&& says(RegClosure::NeInt(a, k), i != k)
            &&& reg_closure_vm::closure_run(RegClosure::Return(a)@, regs, host, room) == (
                Ok::<Val, Fault>(Val::Int(i)),
                regs,
            )
        }),
{
}

/// What closures over typed arrays give.
pub proof fn law_typed_closures(
    c: BoolClosure,
    ints: Seq<i64>,
    texts: Seq<Seq<char>>,
)
    ensures
        match c {
            BoolClosure::Const(b) => filter_tree_compiler::closure_holds(c, ints, texts) == b,
            BoolClosure::Var(k) => filter_tree_compiler::closure_holds(c, ints, texts) <==> ints[
                k as int
            ] != 0,
            BoolClosure::Compare(op, x, y) => {
                let l = filter_tree_compiler::int_given(x, ints, texts);
                let r = filter_tree_compiler::int_given(y, ints, texts);
                filter_tree_compiler::closure_holds(c, ints, texts) <==> match op {
                    IntCmp::Eq => l == r,
                    IntCmp::Ne => l != r,
                    IntCmp::Lt => l < r,
                    IntCmp::Le => l <= r,
                    IntCmp::Gt => l > r,
                    IntCmp::Ge => l >= r,
                }
            },
            BoolClosure::And(x, y) => filter_tree_compiler::closure_holds(c, ints, texts) <==> (
            filter_tree_compiler::closure_holds(*x, ints, texts)
                && filter_tree_compiler::closure_holds(*y, ints, texts)),
            BoolClosure::Or(x, y) => filter_tree_compiler::closure_holds(c, ints, texts) <==> (
            filter_tree_compiler::closure_holds(*x, ints, texts)
                || filter_tree_compiler::closure_holds(*y, ints, texts)),
            BoolClosure::Not(x) => filter_tree_compiler::closure_holds(c, ints, texts)
                <==> !filter_tree_compiler::closure_holds(*x, ints, texts),
            _ => true,
        },
{
}

/// What closures compute over typed arrays, where the result is an integer of 64 bits.
pub proof fn law_integer_closures(
    x: Box<I64Closure>,
    y: Box<I64Closure>,
    ints: Seq<i64>,
    texts: Seq<Seq<char>>,
    k: usize,
    v: i64,
)
    ensures
        ({
            let gives = |c: I64Closure| filter_tree_compiler::int_given(c, ints, texts);
            let a = gives(*x) as int;
            let b = gives(*y) as int;
            let in_range = |n: int| -0x8000_0000_0000_0000 <= n <= 0x7fff_ffff_ffff_ffff;
            &&& gives(I64Closure::Const(v)) == v
            &&& gives(I64Closure::Var(k)) == ints[k as int]
            &&& in_range(a + b) ==> gives(I64Closure::Add(x, y)) == a + b
            &&& in_range(a - b) ==> gives(I64Closure::Sub(x, y)) == a - b
            &&& in_range(a * b) ==> gives(I64Closure::Mul(x, y)) == a * b
            &&& in_range(-a) ==> gives(I64Closure::Neg(x)) == -a
            &&& b == 0 ==> gives(I64Closure::Div(x, y)) == 0 && gives(I64Closure::Mod(x, y)) == 0
        }),
{
}

/// What a compiled expression gives of each type.
pub proof fn law_compiled_values(
    ints: Seq<i64>,
    texts: Seq<Seq<char>>,
    c: BoolClosure,
    i: I64Closure,
    bits: u64,
    v: Value,
    s: String,
    k: usize,
    a: Box<StrExpr>,
    b: Box<StrExpr>,
)
    ensures
        ({
            let gives = |e: CompiledExpr| filter_tree_compiler::compiled_value(e, ints, texts);
            let text = |e: StrExpr| filter_tree_compiler::str_typed_value(e, texts);
            &&& gives(CompiledExpr::Bool(c)) == Val::Bool(
                filter_tree_compiler::closure_holds(c, ints, texts),
            )
            &&& gives(CompiledExpr::I64(i)) == Val::Int(
                filter_tree_compiler::int_given(i, ints, texts),
            )
            &&& gives(CompiledExpr::F64(bits)) == Val::Float(bits)
            &&& gives(CompiledExpr::Value(v)) == v@
            &&& gives(CompiledExpr::Str(*a)) == Val::String(text(*a))
            &&& text(StrExpr::Literal(s)) == s@
            &&& text(StrExpr::Var(k)) == texts[k as int]
            &&& text(StrExpr::Concat(a, b)) == text(*a) + text(*b)
        }),
{
}

/// A list of integers.
pub open spec fn integers(s: Seq<IdedExpr>, v: Seq<i64>) -> bool {
    &&& s.len() == v.len()
    &&& forall|i: int|
        0 <= i < s.len() ==> (#[trigger] s[i]).expr == Expr::Literal(LiteralValue::Int(v[i]))
}

/// A list of texts.
pub open spec fn written_texts(s: Seq<IdedExpr>, v: Seq<String>) -> bool {
    &&& s.len() == v.len()
    &&& forall|i: int|
        0 <= i < s.len() ==> (#[trigger] s[i]).expr == Expr::Literal(LiteralValue::String(v[i]))
}

proof fn lemma_integers(s: Seq<IdedExpr>, v: Seq<i64>)
    requires
        integers(s, v),
    ensures
        filter_tree_compiler::all_ints(s) == Some(v),
    decreases s.len(),
{
    if s.len() > 0 {
        lemma_integers(s.drop_last(), v.drop_last());
        assert(s.last() == s[s.len() - 1]);
        assert(v.drop_last().push(v.last()) =~= v);
    } else {
        assert(v =~= Seq::empty());
    }
}

proof fn lemma_written_texts(s: Seq<IdedExpr>, v: Seq<String>)
    requires
        written_texts(s, v),
    ensures
        filter_tree_compiler::all_strings(s) == Some(objects::texts(v)),
        s.len() > 0 ==> filter_tree_compiler::all_ints(s) is None,
    decreases s.len(),
{
    if s.len() > 0 {
        lemma_written_texts(s.drop_last(), v.drop_last());
        assert(s.last() == s[s.len() - 1]);
        assert(objects::texts(v.drop_last()).push(v.last()@) =~= objects::texts(v));
    } else {
        assert(objects::texts(v) =~= Seq::empty());
    }
}

proof fn lemma_nothing_before(
    names: Seq<Seq<char>>,
    call: CallExpr,
    known: Known,
    name: String,
    list: ListExpr,
)
    requires
        call.func_name@ == "@in"@,
        call.args@.len() == 2,
        call.args@[0].expr == Expr::Ident(name),
        call.args@[1].expr == Expr::List(list),
        filter_tree_compiler::name_index(names, name@) is Some,
        names.len() < usize::MAX,
    ensures
        filter_tree_compiler::test_of(names, call, known) == filter_tree_compiler::member_test(
            names,
            call.args@[0].expr,
            call.args@[1].expr,
        ),
{
    lemma_operators();
    reveal(filter_tree_compiler::test_of);
    reveal(filter_tree_compiler::str_call);
    reveal(filter_tree_compiler::str_member);
    reveal(filter_tree_compiler::int_test);
    reveal(filter_tree_compiler::str_test);
    reveal(filter_tree_compiler::arith_test);
    reveal(filter_tree_compiler::call_test);
    reveal(filter_tree_compiler::general_test);
    lemma_no_text_function(call);
}

/// Whether a variable is in a list of integers or of texts becomes a test of membership, of the
/// same integers or texts.
pub proof fn law_member_filters(
    names: Seq<Seq<char>>,
    call: CallExpr,
    known: Known,
    name: String,
    list: ListExpr,
    v: Seq<i64>,
    t: Seq<String>,
)
    requires
        call.func_name@ == "@in"@,
        call.args@.len() == 2,
        call.args@[0].expr == Expr::Ident(name),
        call.args@[1].expr == Expr::List(list),
        filter_tree_compiler::name_index(names, name@) is Some,
        names.len() < usize::MAX,
    ensures
        ({
            let idx = whole(filter_tree_compiler::name_index(names, name@)->0);
            let r = filter_tree_compiler::filter_of(names, Expr::Call(call), known);
            &&& integers(list.elements@, v) ==> (r.0 matches Ok(f) && match f {
                Filt::IntAmong(i, s) => i == idx && s == v,
                Filt::IntInSet(i, s) => i == idx && forall|n: i64|
                    s.contains(n) <==> v.contains(n),
                _ => false,
            })
            &&& written_texts(list.elements@, t) && t.len() > 0 ==> (r.0 matches Ok(Filt::Text(
                i,
                m,
            )) && i == idx && match m {
                TextModel::Among(s) => s == objects::texts(t),
                TextModel::InSet(s) => forall|x: Seq<char>|
                    s.contains(x) <==> objects::texts(t).contains(x),
                _ => false,
            })
        }),
{
    lemma_operators();
    lemma_nothing_before(names, call, known, name, list);
    reveal(filter_tree_compiler::member_test);
    filter_tree_compiler::lemma_name_index(names, name@);
    if integers(list.elements@, v) {
        lemma_integers(list.elements@, v);
    }
    if written_texts(list.elements@, t) && t.len() > 0 {
        lemma_written_texts(list.elements@, t);
    }
}

/// A variable with an integer added, subtracted or multiplied, compared with an integer, becomes
/// a test with that arithmetic.
pub proof fn law_arithmetic_filters(
    names: Seq<Seq<char>>,
    call: CallExpr,
    inner: CallExpr,
    known: Known,
    name: String,
    operand: i64,
    val: i64,
)
    requires
        call.args@.len() == 2,
        call.args@[0].expr == Expr::Call(inner),
        call.args@[1].expr == Expr::Literal(LiteralValue::Int(val)),
        inner.args@.len() == 2,
        inner.args@[0].expr == Expr::Ident(name),
        inner.args@[1].expr == Expr::Literal(LiteralValue::Int(operand)),
        filter_tree_compiler::name_index(names, name@) is Some,
        names.len() < usize::MAX,
    ensures
        ({
            let idx = whole(filter_tree_compiler::name_index(names, name@)->0);
            let r = filter_tree_compiler::filter_of(names, Expr::Call(call), known);
            let becomes = |arith: Arith, op: IntCmp|
                r == (
                    Ok::<Filt, Seq<char>>(
                        Filt::Test(IntTest { idx, arith, operand, cmp: op, val }),
                    ),
                    names,
                );
            let n = call.func_name@;
            let does = |arith: Arith| {
                &&& n == "_==_"@ ==> becomes(arith, IntCmp::Eq)
                &&& n == "_!=_"@ ==> becomes(arith, IntCmp::Ne)
                &&& n == "_<_"@ ==> becomes(arith, IntCmp::Lt)
                &&& n == "_<=_"@ ==> becomes(arith, IntCmp::Le)
                &&& n == "_>_"@ ==> becomes(arith, IntCmp::Gt)
                &&& n == "_>=_"@ ==> becomes(arith, IntCmp::Ge)
            };
            &&& inner.func_name@ == "_+_"@ ==> does(Arith::Add)
            &&& inner.func_name@ == "_-_"@ ==> does(Arith::Sub)
            &&& inner.func_name@ == "_*_"@ ==> does(Arith::Mul)
        }),
{
    lemma_operators();
    let n = call.func_name@;
    let m = inner.func_name@;
    if (n == "_==_"@ || n == "_!=_"@ || n == "_<_"@ || n == "_<=_"@ || n == "_>_"@ || n
        == "_>=_"@) && (m == "_+_"@ || m == "_-_"@ || m == "_*_"@) {
        reveal(filter_tree_compiler::test_of);
        reveal(filter_tree_compiler::str_call);
        reveal(filter_tree_compiler::str_member);
        reveal(filter_tree_compiler::int_test);
        reveal(filter_tree_compiler::arith_test);
        lemma_no_text_function(call);
        filter_tree_compiler::lemma_name_index(names, name@);
    }
}

/// A loop over a variable that asks whether some item passes a test.
pub open spec fn asks_some(comp: ComprehensionExpr, source: String, cond: CallExpr) -> bool {
    &&& comp.iter_range.expr == Expr::Ident(source)
    &&& comp.iter_var2 is None
    &&& comp.iter_var@ != comp.accu_var@
    &&& comp.accu_init.expr == Expr::Literal(LiteralValue::Boolean(false))
    &&& comp.loop_cond.expr matches Expr::Call(go) && go.func_name@ == "@not_strictly_false"@
        && go.args@.len() == 1 && (go.args@[0].expr matches Expr::Call(no) && no.func_name@ == "!_"@
        && no.args@.len() == 1 && is_named(no.args@[0].expr, comp.accu_var@))
    &&& comp.loop_step.expr matches Expr::Call(step) && step.func_name@ == "_||_"@
        && step.args@.len() == 2 && is_named(step.args@[0].expr, comp.accu_var@)
        && step.args@[1].expr == Expr::Call(cond)
    &&& is_named(comp.result.expr, comp.accu_var@)
}

/// A variable of a name.
pub open spec fn is_named(e: Expr, name: Seq<char>) -> bool {
    e matches Expr::Ident(n) && n@ == name
}

/// Whether some item of a variable passes a comparison becomes a test of its items.
pub proof fn law_some_filters(
    names: Seq<Seq<char>>,
    comp: ComprehensionExpr,
    known: Known,
    source: String,
    cond: CallExpr,
    item: String,
    val: i64,
    text: String,
)
    requires
        asks_some(comp, source, cond),
        cond.args@.len() == 2,
        cond.args@[0].expr == Expr::Ident(item),
        item@ == comp.iter_var@,
        filter_tree_compiler::name_index(names, source@) is Some,
        names.len() < usize::MAX,
    ensures
        ({
            let idx = whole(filter_tree_compiler::name_index(names, source@)->0);
            let r = filter_tree_compiler::filter_of(
                names,
                Expr::Comprehension(Box::new(comp)),
                known,
            );
            let n = cond.func_name@;
            let becomes = |f: Filt| r == (Ok::<Filt, Seq<char>>(f), names);
            &&& cond.args@[1].expr == Expr::Literal(LiteralValue::Int(val)) ==> {
                &&& n == "_==_"@ ==> becomes(Filt::ExistsInt(idx, IntCmp::Eq, val))
                &&& n == "_!=_"@ ==> becomes(Filt::ExistsInt(idx, IntCmp::Ne, val))
                &&& n == "_<_"@ ==> becomes(Filt::ExistsInt(idx, IntCmp::Lt, val))
                &&& n == "_<=_"@ ==> becomes(Filt::ExistsInt(idx, IntCmp::Le, val))
                &&& n == "_>_"@ ==> becomes(Filt::ExistsInt(idx, IntCmp::Gt, val))
                &&& n == "_>=_"@ ==> becomes(Filt::ExistsInt(idx, IntCmp::Ge, val))
            }
            &&& cond.args@[1].expr == Expr::Literal(LiteralValue::String(text)) && n == "_==_"@
                ==> becomes(Filt::ExistsText(idx, text@))
        }),
{
    lemma_operators();
    reveal(filter_tree_compiler::exists_test);
    filter_tree_compiler::lemma_name_index(names, source@);
}

proof fn lemma_last_segment(a: Seq<char>, b: Seq<char>)
    requires
        !b.contains('.'),
    ensures
        filter_tree_compiler::last_segment(a + "."@ + b) == b,
    decreases b.len(),
{
    reveal_strlit(".");
    let s = a + "."@ + b;
    if b.len() == 0 {
        assert(s.last() == '.');
    } else {
        let r = b.drop_last();
        assert(!r.contains('.')) by {
            assert forall|i: int| 0 <= i < r.len() implies r[i] != '.' by {
                assert(b[i] == r[i]);
            }
        }
        lemma_last_segment(a, r);
        assert(s.drop_last() =~= a + "."@ + r);
        assert(s.last() == b.last());
        assert(b.contains(b[b.len() - 1]));
        assert(r.push(b.last()) =~= b);
    }
}

/// A field of a variable stands for the variable of the dotted name, and where there is none for
/// that of the field's own name.
pub proof fn law_path_filters(
    names: Seq<Seq<char>>,
    call: CallExpr,
    known: Known,
    sel: ast::SelectExpr,
    name: String,
    val: i64,
)
    requires
        call.func_name@ == "_==_"@,
        call.args@.len() == 2,
        call.args@[0].expr == Expr::Select(sel),
        call.args@[1].expr == Expr::Literal(LiteralValue::Int(val)),
        sel.operand.expr == Expr::Ident(name),
        !sel.field@.contains('.'),
        names.len() < usize::MAX,
    ensures
        ({
            let r = filter_tree_compiler::filter_of(names, Expr::Call(call), known);
            let dotted = filter_tree_compiler::name_index(names, name@ + "."@ + sel.field@);
            let last = filter_tree_compiler::name_index(names, sel.field@);
            let becomes = |i: int|
                r == (Ok::<Filt, Seq<char>>(compared(whole(i), IntCmp::Eq, val)), names);
            &&& dotted matches Some(i) ==> becomes(i)
            &&& dotted is None && last is Some ==> becomes(last->0)
        }),
{
    lemma_operators();
    lemma_last_segment(name@, sel.field@);
    reveal(filter_tree_compiler::test_of);
    reveal(filter_tree_compiler::str_call);
    reveal(filter_tree_compiler::str_member);
    reveal(filter_tree_compiler::int_test);
    reveal_with_fuel(filter_tree_compiler::flat_name, 2);
    lemma_no_text_function(call);
}

/// A search for a pattern in a variable becomes a test, where the pattern is one.
pub proof fn law_pattern_filters(
    names: Seq<Seq<char>>,
    call: CallExpr,
    known: Known,
    name: String,
    pattern: String,
)
    requires
        call.func_name@ == "matches"@,
        call.target matches Some(x) && x.expr == Expr::Ident(name),
        call.args@.len() == 1,
        call.args@[0].expr == Expr::Literal(LiteralValue::String(pattern)),
        filter_tree_compiler::name_index(names, name@) is Some,
        names.len() < usize::MAX,
        patterns::regex_valid(pattern@),
    ensures
        filter_tree_compiler::filter_of(names, Expr::Call(call), known) == (
            Ok::<Filt, Seq<char>>(
                Filt::Text(
                    whole(filter_tree_compiler::name_index(names, name@)->0),
                    TextModel::Matches(pattern@),
                ),
            ),
            names,
        ),
{
    lemma_operators();
    reveal(filter_tree_compiler::test_of);
    reveal(filter_tree_compiler::str_member);
    lemma_no_operators("matches"@);
    reveal_strlit("startsWith");
    reveal_strlit("endsWith");
    reveal_strlit("contains");
    reveal_strlit("matches");
    assert("startsWith"@[0] == 's' && "endsWith"@[0] == 'e' && "contains"@[0] == 'c'
        && "matches"@[0] == 'm');
}

/// A call of a registered function on a variable, compared with an integer, becomes a test of what
/// the function answers; the function is the first of its name.
pub proof fn law_call_filters(
    names: Seq<Seq<char>>,
    call: CallExpr,
    inner: CallExpr,
    known: Known,
    name: String,
    val: i64,
    k: int,
)
    requires
        call.func_name@ == "_>_"@,
        call.args@.len() == 2,
        call.args@[0].expr == Expr::Call(inner),
        call.args@[1].expr == Expr::Literal(LiteralValue::Int(val)),
        inner.target is None,
        inner.args@.len() == 1,
        inner.args@[0].expr == Expr::Ident(name),
        ast::operator_of(inner.func_name@) is None,
        known.functions matches Some(table) && 0 <= k < table.len() && table[k].name
            == inner.func_name@ && forall|j: int|
            0 <= j < k ==> (#[trigger] table[j]).name != inner.func_name@,
        filter_tree_compiler::name_index(names, name@) is Some,
        names.len() < usize::MAX,
    ensures
        filter_tree_compiler::filter_of(names, Expr::Call(call), known) == (
            Ok::<Filt, Seq<char>>(
                Filt::Call(
                    known.functions->0[k],
                    seq![whole(filter_tree_compiler::name_index(names, name@)->0)],
                    IntCmp::Gt,
                    val,
                ),
            ),
            names,
        ),
{
    lemma_operators();
    lemma_first_named(known.functions->0, inner.func_name@, 0, k);
    reveal(filter_tree_compiler::test_of);
    reveal(filter_tree_compiler::str_call);
    reveal(filter_tree_compiler::str_member);
    reveal(filter_tree_compiler::int_test);
    reveal(filter_tree_compiler::arith_test);
    reveal(filter_tree_compiler::call_test);
    reveal_with_fuel(filter_tree_compiler::resolve_all, 2);
    lemma_no_text_function(call);
    filter_tree_compiler::lemma_name_index(names, name@);
    assert(inner.args@.drop_last() =~= Seq::empty());
    assert(filter_tree_compiler::resolve_all(names, inner.args@).0->0 =~= seq![
        whole(filter_tree_compiler::name_index(names, name@)->0),
    ]);
}

proof fn lemma_first_named(fns: Seq<FnModel>, name: Seq<char>, from: int, k: int)
    requires
        0 <= from <= k < fns.len(),
        fns[k].name == name,
        forall|j: int| from <= j < k ==> (#[trigger] fns[j]).name != name,
    ensures
        filter_tree::function_named(fns, name, from) == Some(fns[k]),
    decreases k - from,
{
    if from < k {
        lemma_first_named(fns, name, from + 1, k);
    }
}

/// A program that tests a register against a list of integers or of texts becomes that test.
pub proof fn law_set_forms(
    code: RegCode,
    d: u8,
    a: u8,
    n: u16,
    items: Seq<Val>,
    ints: Seq<i64>,
    texts: Seq<Seq<char>>,
)
    requires
        code.instructions.len() == 2,
        code.instructions[1] == RegInstr::Halt(d),
        code.constants[n as int] == Val::List(items),
    ensures
        ({
            let f = enum_filter::form(code, code.instructions);
            &&& code.instructions[0] == RegInstr::InIntSet(d, a, n) && items =~= ints.map_values(
                |i: i64| Val::Int(i),
            ) ==> f == EnumModel::InIntSet(a, ints)
            &&& code.instructions[0] == RegInstr::InStrSet(d, a, n) && items =~= texts.map_values(
                |t: Seq<char>| Val::String(t),
            ) ==> f == EnumModel::InStrSet(a, texts)
        }),
{
    if items =~= ints.map_values(|i: i64| Val::Int(i)) {
        assert(items.map_values(|x: Val| x->Int_0) =~= ints);
    }
    if items =~= texts.map_values(|t: Seq<char>| Val::String(t)) {
        assert(items.map_values(|x: Val| x->String_0) =~= texts);
    }
}

/// An expression that is no pattern is told by the function that was to search for it.
pub proof fn law_bad_pattern(
    s: Seq<char>,
    t: Seq<char>,
    host: Seq<(Req, Outcome)>,
    site: Site,
)
    ensures
        functions::call_result(
            Function::Matches,
            seq![Val::String(s), Val::String(t)],
            host,
            site,
        ) == (if patterns::regex_valid(t) {
            Ok::<Val, Fault>(Val::Bool(patterns::regex_found(t, s)))
        } else {
            Err::<Val, Fault>(Fault::FunctionError("matches"@, "not a valid regex: "@ + t))
        }),
{
}

/// A struct that nothing declares cannot be made, whatever its fields come to.
pub proof fn law_unknown_struct(e: ast::StructExpr, p: Seq<usize>, c: Scope)
    requires
        env::lookup(c.env.structs, e.name@) is None,
    ensures
        semantics::eval_expr(Expr::Struct(e), p, c) == Err::<Val, Fault>(
            Fault::UnexpectedType(e.name@, "known struct"@),
        ),
{
}

/// A missing key is told without its name by the machines.
pub proof fn law_machine_missing_key(m: Seq<(KeyVal, Val)>, v: Val, host: Seq<(Req, Outcome)>)
    requires
        v is Int || v is UInt || v is Bool || v is String,
        !has_key(m, v),
    ensures
        vm::binary_step(Instr::Index, Val::Dict(m), v, host) == Some(
            Err::<Val, Fault>(Fault::NoSuchKey("?"@)),
        ),
{
    lemma_entry(m, v);
}

/// What results and declarations stand for.
pub proof fn law_result_views(
    v: Value,
    e: ExecutionError,
    t: Type,
    d: OverloadDecl,
)
    ensures
        error::outcome(Ok(v)) == Ok::<Val, Fault>(v@),
        error::outcome(Err(e)) == Err::<Val, Fault>(e@),
        t@.kind == t.kind,
        t@.name == t.name@,
        d@.id == d.id@,
        d@.member_function == d.member_function,
        d@.op == d.op,
        d@.arg_types.len() == d.arg_types@.len(),
        forall|i: int|
            0 <= i < d.arg_types@.len() ==> #[trigger] d@.arg_types[i] == d.arg_types@[i]@,
{
}

} // verus!
