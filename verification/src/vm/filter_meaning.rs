//! What a compiled filter says of the variables is what its expression means in their scope.
//!
//! A filter reads a variable by the type that its tests expect, and a path as the variable of
//! its name. The law of this module holds where the paths have the values of those variables,
//! and where a test is no more true of a variable of another type than its expression.

use crate::assoc;
use crate::common::ast;
use crate::common::ast::{
    CallExpr, ComprehensionExpr, Expr, IdedExpr, LiteralValue, Operator,
};
use crate::common::decls;
use crate::common::decls::Overload;
use crate::common::functions;
use crate::common::functions::Function;
use crate::common::types;
use crate::common::types::timestamp::TimeField;
use crate::common::types::Kind;
use crate::context;
use crate::context::Scope;
use crate::env;
use crate::env::EnvModel;
use crate::error;
use crate::error::{Fault, Outcome, Req, Site};
use crate::objects;
use crate::objects::{KeyVal, Val};
use crate::ops;
use crate::ops::BinOp;
use crate::patterns;
use crate::semantics;
use crate::semantics::{CallKind, to_arg, to_target};
use crate::strings;
use crate::vm::filter_tree;
use crate::vm::filter_tree::{Arith, FilterNode, FnModel, I64Expr, IntCmp, StrExpr};
use crate::vm::filter_tree_compiler;
use crate::vm::filter_tree_compiler::{CompiledFilterTree, Filt, Known, SourceModel, TextModel};
use vstd::prelude::*;

verus! {

/// What a test of a string says of it.
pub open spec fn text_holds(m: TextModel, text: Seq<char>) -> bool {
    match m {
        TextModel::Eq(t) => text == t,
        TextModel::Ne(t) => text != t,
        TextModel::Among(s) => s.contains(text),
        TextModel::InSet(s) => s.contains(text),
        TextModel::StartsWith(t) => t.is_prefix_of(text),
        TextModel::EndsWith(t) => t.is_suffix_of(text),
        TextModel::Contains(t) => strings::occurs_in(t, text),
        TextModel::Matches(t) => patterns::regex_found(t, text),
        TextModel::ContainsAny(s) => patterns::some_occurs(s, text),
        TextModel::Words(s, min) => filter_tree::words_found(s, text, min),
    }
}

/// What a filter says of the variables.
pub open spec fn filter_holds(f: Filt, vars: Seq<Val>) -> bool
    decreases f,
{
    match f {
        Filt::Test(t) => vars[t.idx as int] matches Val::Int(i) && filter_tree::int_test_holds(
            t,
            i,
        ),
        Filt::IntAmong(i, s) => vars[i as int] matches Val::Int(v) && s.contains(v),
        Filt::IntInSet(i, s) => vars[i as int] matches Val::Int(v) && s.contains(v),
        Filt::Text(i, m) => vars[i as int] matches Val::String(s) && text_holds(m, s),
        Filt::Compare(c, a, b) => filter_tree::compares(
            c,
            filter_tree::int_value(a, vars),
            filter_tree::int_value(b, vars),
        ),
        Filt::BoolVar(i) => vars[i as int] == Val::Bool(true),
        Filt::BoolLiteral(b) => b,
        Filt::ExistsInt(i, c, v) => vars[i as int] matches Val::List(l)
            && filter_tree::some_int_compares(l, c, v),
        Filt::ExistsText(i, t) => vars[i as int] matches Val::List(l) && l.contains(
            Val::String(t),
        ),
        Filt::ExistsAmong(i, s) => vars[i as int] matches Val::List(l)
            && filter_tree::some_int_among(l, s),
        Filt::ExistsEntry(i, c, v) => vars[i as int] matches Val::Dict(m)
            && filter_tree::some_entry_compares(m, c, v),
        Filt::KeyText(i, key, t) => match vars[i as int] {
            Val::Dict(m) => match objects::dict_get(m, KeyVal::String(key)) {
                Some(Val::String(s)) => s == t,
                Some(Val::List(l)) => l.contains(Val::String(t)),
                _ => false,
            },
            _ => false,
        },
        Filt::KeyInt(i, key, c, v) => match vars[i as int] {
            Val::Dict(m) => match objects::dict_get(m, KeyVal::String(key)) {
                Some(Val::Int(x)) => filter_tree::compares(c, x, v),
                Some(Val::List(l)) => filter_tree::some_int_compares(l, c, v),
                _ => false,
            },
            _ => false,
        },
        Filt::Call(g, idxs, c, v) => error::ask(
            g.host,
            Req::Call(Site::root(), g.name, None, filter_tree::call_args(idxs, vars)),
        ) matches Ok(Val::Int(x)) && filter_tree::compares(c, x, v),
        Filt::And(a, b) => filter_holds(*a, vars) && filter_holds(*b, vars),
        Filt::Or(a, b) => filter_holds(*a, vars) || filter_holds(*b, vars),
        Filt::Not(a) => !filter_holds(*a, vars),
    }
}

proof fn lemma_int_node(n: FilterNode, vars: Seq<Val>)
    requires
        filter_tree::int_test_of(n) is Some,
    ensures
        filter_tree::holds(n, vars) == filter_holds(filter_tree_compiler::node_view(n), vars),
{
}

proof fn lemma_text_node(n: FilterNode, vars: Seq<Val>)
    requires
        filter_tree::str_index_of(n) is Some,
    ensures
        filter_tree::holds(n, vars) == filter_holds(filter_tree_compiler::node_view(n), vars),
{
    match n {
        FilterNode::InStrHash { idx, set } => {
            assert forall|t: Seq<char>|
                #[trigger] objects::texts(set@).contains(t) == objects::texts(
                    set@,
                ).to_set().contains(t) by {}
        },
        _ => {},
    }
}

/// A node says what it stands for.
pub proof fn lemma_node_holds(n: FilterNode, vars: Seq<Val>)
    ensures
        filter_tree::holds(n, vars) == filter_holds(filter_tree_compiler::node_view(n), vars),
    decreases n,
{
    match n {
        FilterNode::And(a, b) => {
            lemma_node_holds(*a, vars);
            lemma_node_holds(*b, vars);
        },
        FilterNode::Or(a, b) => {
            lemma_node_holds(*a, vars);
            lemma_node_holds(*b, vars);
        },
        FilterNode::Not(a) => {
            lemma_node_holds(*a, vars);
        },
        _ => {
            if filter_tree::int_test_of(n) is Some {
                lemma_int_node(n, vars);
            } else if filter_tree::str_index_of(n) is Some {
                lemma_text_node(n, vars);
            }
        },
    }
}

/// What the law speaks of besides the expression: the names before it was compiled and
/// after, the variables in the order of the names, the scope that the expression is evaluated
/// in, and what the compiler knew.
pub struct Setting {
    pub names: Seq<Seq<char>>,
    pub last: Seq<Seq<char>>,
    pub vars: Seq<Val>,
    pub scope: Scope,
    pub known: Known,
}

/// The function of the standard library that a name calls, where filters know the name.
pub open spec fn text_op(name: Seq<char>) -> Option<Function> {
    if name == "contains"@ {
        Some(Function::Contains)
    } else if name == "startsWith"@ {
        Some(Function::StartsWith)
    } else if name == "endsWith"@ {
        Some(Function::EndsWith)
    } else if name == "matches"@ {
        Some(Function::Matches)
    } else if name == "size"@ {
        Some(Function::Size)
    } else {
        None
    }
}

/// The names that filters know call the functions of the standard library, alone and behind
/// a prefix.
pub open spec fn standard(c: Scope) -> bool {
    &&& forall|name: Seq<char>, member: bool, args: Seq<Val>|
        text_op(name) is Some && (#[trigger] env::find(c.env, name, member, args)) is Some
            ==> env::find(c.env, name, member, args) == text_op(name)
    &&& forall|name: Seq<char>|
        text_op(name) is Some ==> !(#[trigger] c.functions.contains(name))
    &&& forall|prefix: Seq<char>, name: Seq<char>, args: Seq<Val>|
        text_op(name) is Some ==> (#[trigger] env::find(
            c.env,
            semantics::qualified(prefix, name),
            false,
            args,
        )) is None
    &&& forall|prefix: Seq<char>, name: Seq<char>|
        text_op(name) is Some ==> !(#[trigger] c.functions.contains(
            semantics::qualified(prefix, name),
        ))
}

/// What a registered function gives in the scope, wherever it is called, is what the
/// compiler's table has of it.
pub open spec fn tables_agree(s: Setting) -> bool {
    s.known.functions matches Some(t) ==> {
        &&& forall|k: int|
            0 <= k < t.len() ==> ast::operator_of((#[trigger] t[k]).name) is None
        &&& forall|k: int, p: Seq<usize>, args: Seq<Val>|
            0 <= k < t.len() ==> ((#[trigger] semantics::free_result(
                s.scope,
                p,
                t[k].name,
                Ok(args),
            )) matches Ok(v) ==> error::ask(
                t[k].host,
                Req::Call(Site::root(), t[k].name, None, args),
            ) == Ok::<Val, Fault>(v))
    }
}

/// Each name has in the scope the value of its variable, the last one of the name; functions
/// are what filters take them for.
pub open spec fn setting_ok(s: Setting) -> bool {
    &&& s.last.len() <= usize::MAX
    &&& forall|name: Seq<char>|
        (#[trigger] filter_tree_compiler::name_index(s.last, name)) matches Some(i)
            ==> context::variable(s.scope, name) == Some(s.vars[i])
    &&& standard(s.scope)
    &&& tables_agree(s)
}

/// Names that were there at some point of the compilation.
pub open spec fn between(s: Setting, m: Seq<Seq<char>>) -> bool {
    filter_tree_compiler::names_grow(s.names, m) && filter_tree_compiler::names_grow(m, s.last)
}

/// A path (`a.b` or `a["b"]`) that is read as a variable has its value in the scope, if any.
pub open spec fn path_reads(x: Expr, s: Setting) -> bool {
    !(x is Ident) ==> forall|m: Seq<Seq<char>>|
        between(s, m) ==> match (#[trigger] filter_tree_compiler::resolve(m, x)).0 {
            Some(i) => forall|p: Seq<usize>|
                (#[trigger] semantics::eval_expr(x, p, s.scope)) matches Ok(v) ==> v
                    == s.vars[i as int],
            None => true,
        }
}

/// Every argument of a call reads right, as its target does.
pub open spec fn parts_read(call: CallExpr, s: Setting) -> bool {
    &&& forall|i: int|
        0 <= i < call.args@.len() ==> path_reads((#[trigger] call.args@[i]).expr, s)
    &&& call.target matches Some(t) ==> path_reads(t.expr, s)
}

/// A call of a registered function.
pub open spec fn registered(e: Expr, s: Setting) -> bool {
    &&& e matches Expr::Call(call)
    &&& call.args@.len() >= 1
    &&& call.target is None
    &&& s.known.functions matches Some(t)
    &&& filter_tree::function_named(t, call.func_name@, 0) is Some
}

/// A call of a registered function was not resolved to another one, and its arguments read
/// right.
pub open spec fn call_reads(e: Expr, s: Setting) -> bool {
    registered(e, s) ==> e->Call_0.resolved_op is None && parts_read(e->Call_0, s)
}

/// The sizes in an integer expression were not resolved to another function.
pub open spec fn sizes_read(e: Expr) -> bool
    decreases e,
{
    match e {
        Expr::Call(call) => {
            &&& call.args@.len() >= 1 ==> sizes_read(call.args@[0].expr)
            &&& call.args@.len() >= 2 ==> sizes_read(call.args@[1].expr)
            &&& call.func_name@ == "size"@ ==> (call.resolved_op matches Some(op) ==> op
                == Function::Size)
        },
        _ => true,
    }
}

/// A call that is no logical operator is read as it means.
pub open spec fn call_sound(call: CallExpr, s: Setting) -> bool {
    &&& parts_read(call, s)
    &&& call.resolved_op matches Some(op) ==> text_op(call.func_name@) is Some ==> text_op(
        call.func_name@,
    ) == Some(op)
    &&& call.args@.len() == 2 ==> {
        &&& call_reads(call.args@[0].expr, s)
        &&& call_reads(call.args@[1].expr, s)
        &&& sizes_read(call.args@[0].expr)
        &&& sizes_read(call.args@[1].expr)
    }
}

/// What a loop runs over reads right.
pub open spec fn loop_sound(comp: ComprehensionExpr, s: Setting) -> bool {
    &&& path_reads(comp.iter_range.expr, s)
    &&& comp.iter_range.expr matches Expr::Call(call) ==> call.target is None && parts_read(
        call,
        s,
    )
}

/// The terms of a conjunction can be counted.
pub open spec fn countable(e: Expr) -> bool {
    filter_tree_compiler::contains_terms(Operator::LogicalAnd, e) matches Some(t) ==> t.len()
        <= usize::MAX
}

/// The paths and the calls of an expression are what the compiler of filters takes them for.
pub open spec fn sound(e: Expr, s: Setting) -> bool
    decreases e,
{
    match e {
        Expr::Comprehension(comp) => loop_sound(*comp, s),
        Expr::Call(call) => {
            let op = filter_tree_compiler::op_of(call);
            if call.args@.len() == 2 && (op == Some(Operator::LogicalOr) || op == Some(
                Operator::LogicalAnd,
            )) {
                &&& sound(call.args@[0].expr, s)
                &&& sound(call.args@[1].expr, s)
                &&& countable(e)
            } else if op == Some(Operator::LogicalNot) && call.args@.len() == 1 {
                sound(call.args@[0].expr, s)
            } else {
                call_sound(call, s)
            }
        },
        _ => true,
    }
}

/// All the items of a list are integers.
pub open spec fn all_ints(items: Seq<Val>) -> bool {
    forall|k: int| 0 <= k < items.len() ==> (#[trigger] items[k]) is Int
}

/// A number of another type than the integers that tests read. Equality and order hold
/// across the types of numbers.
pub open spec fn other_number(v: Val) -> bool {
    v is UInt || v is Float
}

/// A filter reads the variables right. A test is false of a variable that it does not read;
/// its expression then is false too or has no value, unless it asks for inequality, or the
/// variable is a number of another type. A loop does not take a map for a list, nor a list
/// for a map. An integer expression has to read integers.
pub open spec fn suits(f: Filt, vars: Seq<Val>) -> bool
    decreases f,
{
    match f {
        Filt::Test(t) => match filter_tree::var_at(vars, t.idx) {
            Val::Int(_) => true,
            v => !other_number(v) && (t.arith != Arith::Keep || t.cmp != IntCmp::Ne),
        },
        Filt::IntAmong(i, _) => !other_number(filter_tree::var_at(vars, i)),
        Filt::IntInSet(i, _) => !other_number(filter_tree::var_at(vars, i)),
        Filt::Text(i, m) => filter_tree::var_at(vars, i) is String || !(m is Ne),
        Filt::Compare(_, a, b) => filter_tree::int_typed(a, vars) && filter_tree::int_typed(b, vars),
        Filt::BoolVar(_) => true,
        Filt::BoolLiteral(_) => true,
        Filt::ExistsInt(i, _, _) => match filter_tree::var_at(vars, i) {
            Val::List(l) => all_ints(l),
            v => !(v is Dict),
        },
        Filt::ExistsText(i, _) => !(filter_tree::var_at(vars, i) is Dict),
        Filt::ExistsAmong(i, _) => match filter_tree::var_at(vars, i) {
            Val::List(l) => all_ints(l),
            v => !(v is Dict),
        },
        Filt::ExistsEntry(i, _, _) => match filter_tree::var_at(vars, i) {
            Val::Dict(m) => forall|k: int| 0 <= k < m.len() ==> (#[trigger] m[k]).1 is Int,
            v => !(v is List),
        },
        Filt::KeyText(i, key, _) => match filter_tree::var_at(vars, i) {
            Val::Dict(m) => !(objects::dict_get(m, KeyVal::String(key)) matches Some(
                Val::Dict(_),
            )),
            v => v is Null,
        },
        Filt::KeyInt(i, key, _, _) => match filter_tree::var_at(vars, i) {
            Val::Dict(m) => match objects::dict_get(m, KeyVal::String(key)) {
                Some(Val::Dict(_)) => false,
                Some(Val::List(l)) => all_ints(l),
                _ => true,
            },
            v => v is Null,
        },
        Filt::Call(g, idxs, _, _) => error::ask(
            g.host,
            Req::Call(Site::root(), g.name, None, filter_tree::call_args(idxs, vars)),
        ) matches Ok(v) ==> v is Int,
        Filt::And(a, b) => suits(*a, vars) && suits(*b, vars),
        Filt::Or(a, b) => suits(*a, vars) && suits(*b, vars),
        Filt::Not(a) => suits(*a, vars),
    }
}

/// Where the expression has a value, the verdict is whether that is true.
pub open spec fn agrees(o: Outcome, verdict: bool) -> bool {
    o matches Ok(v) ==> verdict == (v == Val::Bool(true))
}

proof fn lemma_name_is_no_operator(name: Seq<char>)
    requires
        text_op(name) is Some,
    ensures
        ast::operator_of(name) is None,
{
    reveal_strlit("contains");
    reveal_strlit("startsWith");
    reveal_strlit("endsWith");
    reveal_strlit("matches");
    reveal_strlit("size");
    reveal_strlit("_?_:_");
    reveal_strlit("_&&_");
    reveal_strlit("_||_");
    reveal_strlit("!_");
    reveal_strlit("_==_");
    reveal_strlit("_!=_");
    reveal_strlit("_<_");
    reveal_strlit("_<=_");
    reveal_strlit("_>_");
    reveal_strlit("_>=_");
    reveal_strlit("_+_");
    reveal_strlit("_-_");
    reveal_strlit("_*_");
    reveal_strlit("_/_");
    reveal_strlit("_%_");
    reveal_strlit("-_");
    reveal_strlit("_[_]");
    reveal_strlit("_[?_]");
    reveal_strlit("_?._");
    reveal_strlit("@in");
    reveal_strlit("@not_strictly_false");
    assert(name[0] != '_' && name[0] != '!' && name[0] != '-' && name[0] != '@');
}

/// What is read as a variable has its value, if any.
proof fn lemma_operand(m: Seq<Seq<char>>, x: Expr, s: Setting, p: Seq<usize>)
    requires
        setting_ok(s),
        filter_tree_compiler::names_grow(s.names, m),
        filter_tree_compiler::names_grow(filter_tree_compiler::resolve(m, x).1, s.last),
        path_reads(x, s),
    ensures
        filter_tree_compiler::resolve(m, x).0 matches Some(i) ==> (semantics::eval_expr(
            x,
            p,
            s.scope,
        ) matches Ok(v) ==> v == s.vars[i as int]),
        x is Ident ==> semantics::eval_expr(x, p, s.scope) is Ok,
{
    filter_tree_compiler::lemma_resolve(m, x);
    match x {
        Expr::Ident(name) => {
            filter_tree_compiler::lemma_name_index(m, name@);
            let (i, n) = filter_tree_compiler::var_idx(m, name@);
            assert(filter_tree_compiler::name_index(n, name@) == Some(i as int));
            filter_tree_compiler::law_index_kept(n, s.last, name@);
        },
        _ => {
            assert(filter_tree_compiler::resolve(m, x).1 == m);
            assert(between(s, m));
        },
    }
}

/// The values of arguments are those of each.
proof fn lemma_args(args: Seq<IdedExpr>, c: Scope, p: Seq<usize>)
    ensures
        semantics::eval_args(args, p, c) matches Ok(a) ==> a.len() == args.len() && forall|i: int|
            0 <= i < args.len() ==> semantics::eval_expr(
                (#[trigger] args[i]).expr,
                to_arg(p, i),
                c,
            ) == Ok::<
                Val,
                Fault,
            >(a[i]),
    decreases args.len(),
{
    if args.len() > 0 {
        lemma_args(args.drop_last(), c, p);
        match semantics::eval_args(args, p, c) {
            Ok(a) => {
                let before = semantics::eval_args(args.drop_last(), p, c)->Ok_0;
                assert forall|i: int| 0 <= i < args.len() implies semantics::eval_expr(
                    (#[trigger] args[i]).expr,
                    to_arg(p, i),
                    c,
                ) == Ok::<Val, Fault>(a[i]) by {
                    if i < args.len() - 1 {
                        assert(args.drop_last()[i] == args[i]);
                    }
                }
            },
            Err(_) => {},
        }
    }
}

/// The operator that makes a comparison.
pub open spec fn compare_op(c: IntCmp) -> BinOp {
    match c {
        IntCmp::Eq => BinOp::Equals,
        IntCmp::Ne => BinOp::NotEquals,
        IntCmp::Lt => BinOp::Less,
        IntCmp::Le => BinOp::LessEquals,
        IntCmp::Gt => BinOp::Greater,
        IntCmp::Ge => BinOp::GreaterEquals,
    }
}

/// A comparison of two integers.
proof fn lemma_compare(call: CallExpr, c: IntCmp, a: i64, b: i64, scope: Scope, p: Seq<usize>)
    requires
        call.args@.len() == 2,
        filter_tree_compiler::comparison(filter_tree_compiler::op_of(call)) == Some(c),
        semantics::eval_expr(
            call.args@[0].expr,
            to_arg(p, 0),
            scope,
        ) matches Ok(v) ==> v == Val::Int(a),
        semantics::eval_expr(
            call.args@[1].expr,
            to_arg(p, 1),
            scope,
        ) matches Ok(v) ==> v == Val::Int(b),
    ensures
        agrees(semantics::eval_expr(Expr::Call(call), p, scope), filter_tree::compares(c, a, b)),
{
    let k = CallKind::Binary(compare_op(c));
    assert(semantics::call_kind(filter_tree_compiler::op_of(call), 2) == k);
    assert(semantics::eval_expr(Expr::Call(call), p, scope) == semantics::strict_result(
        k,
        semantics::eval_expr(call.args@[0].expr, to_arg(p, 0), scope),
        semantics::eval_expr(call.args@[1].expr, to_arg(p, 1), scope),
        scope.host,
    ));
}

/// A comparison of an integer with what is no number.
proof fn lemma_no_compare(
    call: CallExpr,
    c: IntCmp,
    first: bool,
    v: Val,
    lit: i64,
    scope: Scope,
    p: Seq<usize>,
)
    requires
        call.args@.len() == 2,
        filter_tree_compiler::comparison(filter_tree_compiler::op_of(call)) == Some(c),
        c != IntCmp::Ne,
        !(v is Int),
        !other_number(v),
        semantics::eval_expr(
            call.args@[if first { 0int } else { 1int }].expr,
            to_arg(p, if first { 0 } else { 1 }),
            scope,
        ) matches Ok(w)
            ==> w == v,
        semantics::eval_expr(
            call.args@[if first { 1int } else { 0int }].expr,
            to_arg(p, if first { 1 } else { 0 }),
            scope,
        ) matches Ok(w)
            ==> w == Val::Int(lit),
    ensures
        agrees(semantics::eval_expr(Expr::Call(call), p, scope), false),
{
    let k = CallKind::Binary(compare_op(c));
    assert(semantics::call_kind(filter_tree_compiler::op_of(call), 2) == k);
    assert(semantics::eval_expr(Expr::Call(call), p, scope) == semantics::strict_result(
        k,
        semantics::eval_expr(call.args@[0].expr, to_arg(p, 0), scope),
        semantics::eval_expr(call.args@[1].expr, to_arg(p, 1), scope),
        scope.host,
    ));
}

/// An arithmetic operator on an integer and what is no number.
proof fn lemma_no_arithmetic(
    call: CallExpr,
    first: bool,
    v: Val,
    lit: i64,
    scope: Scope,
    p: Seq<usize>,
)
    requires
        call.args@.len() == 2,
        filter_tree_compiler::arithmetic(filter_tree_compiler::op_of(call)) is Some,
        !(v is Int),
        !other_number(v),
        semantics::eval_expr(
            call.args@[if first { 0int } else { 1int }].expr,
            to_arg(p, if first { 0 } else { 1 }),
            scope,
        ) matches Ok(w)
            ==> w == v,
        semantics::eval_expr(
            call.args@[if first { 1int } else { 0int }].expr,
            to_arg(p, if first { 1 } else { 0 }),
            scope,
        ) matches Ok(w)
            ==> w == Val::Int(lit),
    ensures
        semantics::eval_expr(Expr::Call(call), p, scope) is Err,
{
    let k = semantics::call_kind(filter_tree_compiler::op_of(call), 2);
    assert(k is Binary);
    assert(semantics::eval_expr(Expr::Call(call), p, scope) == semantics::strict_result(
        k,
        semantics::eval_expr(call.args@[0].expr, to_arg(p, 0), scope),
        semantics::eval_expr(call.args@[1].expr, to_arg(p, 1), scope),
        scope.host,
    ));
}

/// An arithmetic operator on two integers.
proof fn lemma_arithmetic(call: CallExpr, op: Arith, a: i64, b: i64, scope: Scope, p: Seq<usize>)
    requires
        call.args@.len() == 2,
        filter_tree_compiler::arithmetic(filter_tree_compiler::op_of(call)) == Some(op),
        semantics::eval_expr(
            call.args@[0].expr,
            to_arg(p, 0),
            scope,
        ) matches Ok(v) ==> v == Val::Int(a),
        semantics::eval_expr(
            call.args@[1].expr,
            to_arg(p, 1),
            scope,
        ) matches Ok(v) ==> v == Val::Int(b),
    ensures
        semantics::eval_expr(Expr::Call(call), p, scope) matches Ok(v) ==> v == Val::Int(
            filter_tree::arith_value(op, a, b),
        ),
{
    let k = semantics::call_kind(filter_tree_compiler::op_of(call), 2);
    assert(k is Binary);
    assert(semantics::eval_expr(Expr::Call(call), p, scope) == semantics::strict_result(
        k,
        semantics::eval_expr(call.args@[0].expr, to_arg(p, 0), scope),
        semantics::eval_expr(call.args@[1].expr, to_arg(p, 1), scope),
        scope.host,
    ));
}

/// The arguments that a call hands on: the target, where it has one, and its arguments.
pub open spec fn all_args(call: CallExpr, c: Scope, p: Seq<usize>) -> Result<Seq<Val>, Fault> {
    match call.target {
        None => semantics::eval_args(call.args@, p, c),
        Some(t) => semantics::target_first(
            semantics::eval_expr(t.expr, to_target(p), c),
            semantics::eval_args(call.args@, p, c),
        ),
    }
}

/// A call of a name that filters know is a call of the standard function.
proof fn lemma_known_call(call: CallExpr, g: Function, c: Scope, p: Seq<usize>)
    requires
        standard(c),
        text_op(call.func_name@) == Some(g),
        call.resolved_op matches Some(op) ==> op == g,
    ensures
        semantics::eval_expr(
            Expr::Call(call),
            p,
            c,
        ) matches Ok(v) ==> (all_args(call, c, p) matches Ok(a)
            && functions::call_result(g, a, c.host, context::site(c, p)) == Ok::<Val, Fault>(v)),
{
    let name = call.func_name@;
    lemma_name_is_no_operator(name);
    assert(semantics::call_kind(ast::operator_of(name), call.args@.len()) == CallKind::General);
    let args = semantics::eval_args(call.args@, p, c);
    match call.target {
        None => {
            match args {
                Ok(a) => {
                    assert(env::find(c.env, name, false, a) is Some ==> env::find(
                        c.env,
                        name,
                        false,
                        a,
                    ) == text_op(name));
                    assert(!c.functions.contains(name));
                },
                Err(_) => {},
            }
        },
        Some(t) => {
            let target = semantics::eval_expr(t.expr, to_target(p), c);
            match (target, args) {
                (Ok(x), Ok(a)) => {
                    let full = seq![x] + a;
                    assert(env::find(c.env, name, true, full) is Some ==> env::find(
                        c.env,
                        name,
                        true,
                        full,
                    ) == text_op(name));
                    assert(!c.functions.contains(name));
                },
                _ => {},
            }
            match t.expr {
                Expr::Ident(prefix) => {
                    let q = semantics::qualified(prefix@, name);
                    assert(!c.functions.contains(q));
                    match args {
                        Ok(a) => {
                            assert(env::find(c.env, q, false, a) is None);
                        },
                        Err(_) => {},
                    }
                },
                _ => {},
            }
        },
    }
}

/// What a test of a string by a function says.
proof fn lemma_text_function(call: CallExpr, idx: usize, text: Seq<char>, s: Setting, p: Seq<usize>)
    requires
        standard(s.scope),
        call.resolved_op matches Some(op) ==> text_op(call.func_name@) == Some(op),
        filter_tree_compiler::text_function(call.func_name@, idx, text) is Some,
        all_args(call, s.scope, p) matches Ok(b) ==> b.len() == 2 ==> b[0] == s.vars[idx as int]
            && b[1] == Val::String(text),
    ensures
        agrees(
            semantics::eval_expr(Expr::Call(call), p, s.scope),
            filter_holds(
                filter_tree_compiler::text_function(call.func_name@, idx, text)->0,
                s.vars,
            ),
        ),
{
    let g = text_op(call.func_name@);
    assert(g is Some) by {
        reveal_strlit("size");
    }
    assert(g->0 != Function::Size) by {
        reveal_strlit("contains");
        reveal_strlit("startsWith");
        reveal_strlit("endsWith");
        reveal_strlit("matches");
        reveal_strlit("size");
    }
    assert(filter_tree_compiler::text_function(call.func_name@, idx, text)->0 == Filt::Text(
        idx,
        match g->0 {
            Function::Contains => TextModel::Contains(text),
            Function::StartsWith => TextModel::StartsWith(text),
            Function::EndsWith => TextModel::EndsWith(text),
            _ => TextModel::Matches(text),
        },
    ) && (g->0 == Function::Matches ==> patterns::regex_valid(text))) by {
        reveal_strlit("contains");
        reveal_strlit("startsWith");
        reveal_strlit("endsWith");
        reveal_strlit("matches");
        assert("contains"@[0] == 'c' && "startsWith"@[0] == 's');
        assert("endsWith"@[0] == 'e' && "matches"@[0] == 'm');
    }
    lemma_known_call(call, g->0, s.scope, p);
}

/// `func(var, "literal")`.
proof fn lemma_str_call(call: CallExpr, m: Seq<Seq<char>>, s: Setting, p: Seq<usize>)
    requires
        setting_ok(s),
        filter_tree_compiler::names_grow(s.names, m),
        call.args@.len() == 2,
        call_sound(call, s),
        ({
            let r = filter_tree_compiler::str_call(
                m,
                call.func_name@,
                call.args@[0].expr,
                call.args@[1].expr,
            );
            r.0 is Some && filter_tree_compiler::names_grow(r.1, s.last) && suits(r.0->0, s.vars)
        }),
    ensures
        agrees(
            semantics::eval_expr(Expr::Call(call), p, s.scope),
            filter_holds(
                filter_tree_compiler::str_call(
                    m,
                    call.func_name@,
                    call.args@[0].expr,
                    call.args@[1].expr,
                ).0->0,
                s.vars,
            ),
        ),
{
    reveal(filter_tree_compiler::str_call);
    let x = call.args@[0].expr;
    let y = call.args@[1].expr;
    let idx = filter_tree_compiler::resolve(m, x).0->0;
    let text = filter_tree_compiler::string_literal(y)->0;
    assert(path_reads(call.args@[0].expr, s));
    lemma_operand(m, x, s, to_arg(p, 0));
    lemma_args(call.args@, s.scope, p);
    assert(semantics::eval_expr(call.args@[1].expr, to_arg(p, 1), s.scope) == Ok::<Val, Fault>(
        Val::String(text),
    ));
    match semantics::eval_args(call.args@, p, s.scope) {
        Ok(a) => {
            assert(semantics::eval_expr(
                call.args@[0].expr,
                to_arg(p, 0),
                s.scope,
            ) == Ok::<Val, Fault>(a[0]));
            assert(semantics::eval_expr(
                call.args@[1].expr,
                to_arg(p, 1),
                s.scope,
            ) == Ok::<Val, Fault>(a[1]));
            lemma_text_function(call, idx, text, s, p);
        },
        Err(_) => {
            lemma_text_function(call, idx, text, s, p);
        },
    }
}

/// `var.func("literal")`.
proof fn lemma_str_member(call: CallExpr, m: Seq<Seq<char>>, s: Setting, p: Seq<usize>)
    requires
        setting_ok(s),
        filter_tree_compiler::names_grow(s.names, m),
        call_sound(call, s),
        ({
            let r = filter_tree_compiler::str_member(m, call);
            r.0 is Some && filter_tree_compiler::names_grow(r.1, s.last) && suits(r.0->0, s.vars)
        }),
    ensures
        agrees(
            semantics::eval_expr(Expr::Call(call), p, s.scope),
            filter_holds(filter_tree_compiler::str_member(m, call).0->0, s.vars),
        ),
{
    reveal(filter_tree_compiler::str_member);
    let x = call.target->0.expr;
    let y = call.args@[0].expr;
    let idx = filter_tree_compiler::resolve(m, x).0->0;
    let text = filter_tree_compiler::string_literal(y)->0;
    lemma_operand(m, x, s, to_target(p));
    lemma_args(call.args@, s.scope, p);
    match semantics::eval_args(call.args@, p, s.scope) {
        Ok(a) => {
            assert(semantics::eval_expr(
                call.args@[0].expr,
                to_arg(p, 0),
                s.scope,
            ) == Ok::<Val, Fault>(a[0]));
            lemma_text_function(call, idx, text, s, p);
        },
        Err(_) => {
            lemma_text_function(call, idx, text, s, p);
        },
    }
}

/// A string made of literals has the value of its expression.
proof fn lemma_literal_text(e: Expr, x: StrExpr, scope: Scope, vars: Seq<Val>, p: Seq<usize>)
    requires
        filter_tree_compiler::str_expr(e) == Some(x),
    ensures
        semantics::eval_expr(e, p, scope) matches Ok(v) ==> v == Val::String(
            filter_tree::str_value(x, vars),
        ),
    decreases e,
{
    match e {
        Expr::Call(call) => {
            let a = filter_tree_compiler::str_expr(call.args@[0].expr)->0;
            let b = filter_tree_compiler::str_expr(call.args@[1].expr)->0;
            lemma_literal_text(call.args@[0].expr, a, scope, vars, to_arg(p, 0));
            lemma_literal_text(call.args@[1].expr, b, scope, vars, to_arg(p, 1));
            let k = CallKind::Binary(BinOp::Add);
            assert(semantics::call_kind(filter_tree_compiler::op_of(call), 2) == k);
            assert(semantics::eval_expr(e, p, scope) == semantics::strict_result(
                k,
                semantics::eval_expr(call.args@[0].expr, to_arg(p, 0), scope),
                semantics::eval_expr(call.args@[1].expr, to_arg(p, 1), scope),
                scope.host,
            ));
        },
        _ => {},
    }
}

/// A text with as many bytes as characters has its length in bytes as its size.
proof fn lemma_byte_wide(x: StrExpr, vars: Seq<Val>)
    requires
        filter_tree_compiler::byte_wide(x),
    ensures
        filter_tree::str_len(x, vars) == filter_tree::str_value(x, vars).len(),
    decreases x,
{
    match x {
        StrExpr::Concat(a, b) => {
            lemma_byte_wide(*a, vars);
            lemma_byte_wide(*b, vars);
        },
        _ => {},
    }
}

/// An operator on two integer expressions.
proof fn lemma_int_pair(
    call: CallExpr,
    a: I64Expr,
    b: I64Expr,
    x: I64Expr,
    s: Setting,
    p: Seq<usize>,
)
    requires
        call.args@.len() == 2,
        filter_tree_compiler::int_pair(filter_tree_compiler::op_of(call), a, b) == Some(x),
        semantics::eval_expr(
            call.args@[0].expr,
            to_arg(p, 0),
            s.scope,
        ) matches Ok(v) ==> v == Val::Int(
            filter_tree::int_value(a, s.vars),
        ),
        semantics::eval_expr(
            call.args@[1].expr,
            to_arg(p, 1),
            s.scope,
        ) matches Ok(v) ==> v == Val::Int(
            filter_tree::int_value(b, s.vars),
        ),
    ensures
        semantics::eval_expr(Expr::Call(call), p, s.scope) matches Ok(v) ==> v == Val::Int(
            filter_tree::int_value(x, s.vars),
        ),
{
    let k = semantics::call_kind(filter_tree_compiler::op_of(call), 2);
    assert(k is Binary);
    assert(semantics::eval_expr(Expr::Call(call), p, s.scope) == semantics::strict_result(
        k,
        semantics::eval_expr(call.args@[0].expr, to_arg(p, 0), s.scope),
        semantics::eval_expr(call.args@[1].expr, to_arg(p, 1), s.scope),
        s.scope.host,
    ));
}

/// An integer expression has the value of what it is compiled from.
proof fn lemma_int_expr(m: Seq<Seq<char>>, e: Expr, s: Setting, p: Seq<usize>)
    requires
        setting_ok(s),
        filter_tree_compiler::names_grow(s.names, m),
        filter_tree_compiler::int_expr(m, e).0 is Some,
        filter_tree_compiler::names_grow(filter_tree_compiler::int_expr(m, e).1, s.last),
        filter_tree::int_typed(filter_tree_compiler::int_expr(m, e).0->0, s.vars),
        sizes_read(e),
    ensures
        semantics::eval_expr(e, p, s.scope) matches Ok(v) ==> v == Val::Int(
            filter_tree::int_value(filter_tree_compiler::int_expr(m, e).0->0, s.vars),
        ),
    decreases e,
{
    match e {
        Expr::Ident(name) => {
            lemma_operand(m, e, s, p);
        },
        Expr::Call(call) => {
            let (x, n) = filter_tree_compiler::int_expr(m, e);
            if call.args@.len() == 2 {
                let (a, n1) = filter_tree_compiler::int_expr(m, call.args@[0].expr);
                let (b, n2) = filter_tree_compiler::int_expr(n1, call.args@[1].expr);
                filter_tree_compiler::lemma_int_expr_ok(m, call.args@[0].expr);
                filter_tree_compiler::lemma_int_expr_ok(n1, call.args@[1].expr);
                filter_tree_compiler::lemma_growth_chain(s.names, m, n1);
                filter_tree_compiler::lemma_growth_chain(n1, n2, s.last);
                lemma_int_expr(m, call.args@[0].expr, s, to_arg(p, 0));
                lemma_int_expr(n1, call.args@[1].expr, s, to_arg(p, 1));
                lemma_int_pair(call, a->0, b->0, x->0, s, p);
            } else if filter_tree_compiler::op_of(call) == Some(Operator::Negate) {
                lemma_int_expr(m, call.args@[0].expr, s, to_arg(p, 0));
                assert(semantics::eval_expr(e, p, s.scope) == semantics::unary_result(
                    CallKind::Negate,
                    semantics::eval_expr(call.args@[0].expr, to_arg(p, 0), s.scope),
                ));
            } else {
                let t = filter_tree_compiler::str_expr(call.args@[0].expr)->0;
                lemma_literal_text(call.args@[0].expr, t, s.scope, s.vars, to_arg(p, 0));
                lemma_byte_wide(t, s.vars);
                assert(text_op(call.func_name@) == Some(Function::Size)) by {
                    reveal_strlit("contains");
                    reveal_strlit("startsWith");
                    reveal_strlit("endsWith");
                    reveal_strlit("matches");
                    reveal_strlit("size");
                }
                lemma_known_call(call, Function::Size, s.scope, p);
                lemma_args(call.args@, s.scope, p);
                match semantics::eval_args(call.args@, p, s.scope) {
                    Ok(a) => {
                        assert(semantics::eval_expr(
                            call.args@[0].expr,
                            to_arg(p, 0),
                            s.scope,
                        ) == Ok::<
                            Val,
                            Fault,
                        >(a[0]));
                    },
                    Err(_) => {},
                }
            }
        },
        _ => {},
    }
}

/// A comparison of two integer expressions.
proof fn lemma_general(call: CallExpr, m: Seq<Seq<char>>, s: Setting, p: Seq<usize>)
    requires
        setting_ok(s),
        filter_tree_compiler::names_grow(s.names, m),
        call.args@.len() == 2,
        call_sound(call, s),
        ({
            let r = filter_tree_compiler::general_test(
                m,
                filter_tree_compiler::op_of(call),
                call.args@[0].expr,
                call.args@[1].expr,
            );
            r.0 is Some && filter_tree_compiler::names_grow(r.1, s.last) && suits(r.0->0, s.vars)
        }),
    ensures
        agrees(
            semantics::eval_expr(Expr::Call(call), p, s.scope),
            filter_holds(
                filter_tree_compiler::general_test(
                    m,
                    filter_tree_compiler::op_of(call),
                    call.args@[0].expr,
                    call.args@[1].expr,
                ).0->0,
                s.vars,
            ),
        ),
{
    reveal(filter_tree_compiler::general_test);
    let l = call.args@[0].expr;
    let r = call.args@[1].expr;
    let (a, n1) = filter_tree_compiler::int_expr(m, l);
    let (b, n2) = filter_tree_compiler::int_expr(n1, r);
    filter_tree_compiler::lemma_int_expr_ok(m, l);
    filter_tree_compiler::lemma_int_expr_ok(n1, r);
    filter_tree_compiler::lemma_growth_chain(s.names, m, n1);
    filter_tree_compiler::lemma_growth_chain(n1, n2, s.last);
    lemma_int_expr(m, l, s, to_arg(p, 0));
    lemma_int_expr(n1, r, s, to_arg(p, 1));
    let c = filter_tree_compiler::comparison(filter_tree_compiler::op_of(call))->0;
    lemma_compare(
        call,
        c,
        filter_tree::int_value(a->0, s.vars),
        filter_tree::int_value(b->0, s.vars),
        s.scope,
        p,
    );
}

/// The value of `var op literal` or `literal op var`, which a test reads as arithmetic.
proof fn lemma_arith_value(
    m: Seq<Seq<char>>,
    e: Expr,
    op: Option<Operator>,
    l: Expr,
    s: Setting,
    p: Seq<usize>,
)
    requires
        setting_ok(s),
        filter_tree_compiler::names_grow(s.names, m),
        filter_tree_compiler::arith_test(m, e, op, l).0 is Some,
        filter_tree_compiler::names_grow(filter_tree_compiler::arith_test(m, e, op, l).1, s.last),
        suits(filter_tree_compiler::arith_test(m, e, op, l).0->0, s.vars),
    ensures
        filter_tree_compiler::arith_test(m, e, op, l).0->0 matches Filt::Test(t) && {
            &&& filter_tree_compiler::int_literal(l) == Some(t.val)
            &&& filter_tree_compiler::comparison(op) == Some(t.cmp)
            &&& match filter_tree::var_at(s.vars, t.idx) {
                Val::Int(i) => semantics::eval_expr(e, p, s.scope) matches Ok(v) ==> v == Val::Int(
                    filter_tree::arith_value(t.arith, i, t.operand),
                ),
                _ => semantics::eval_expr(e, p, s.scope) is Err,
            }
        },
{
    reveal(filter_tree_compiler::arith_test);
    let call = e->Call_0;
    let a = call.args@[0].expr;
    let b = call.args@[1].expr;
    let n1 = filter_tree_compiler::touched(m, a);
    filter_tree_compiler::lemma_touched(m, a);
    filter_tree_compiler::lemma_touched(n1, b);
    let n2 = filter_tree_compiler::touched(n1, b);
    let t = filter_tree_compiler::arith_test(m, e, op, l).0->0->Test_0;
    let v = filter_tree::var_at(s.vars, t.idx);
    if a is Ident && filter_tree_compiler::int_literal(b) is Some {
        lemma_operand(m, a, s, to_arg(p, 0));
        match v {
            Val::Int(i) => {
                lemma_arithmetic(call, t.arith, i, t.operand, s.scope, p);
            },
            _ => {
                lemma_no_arithmetic(
                    call,
                    true,
                    v,
                    filter_tree_compiler::int_literal(b)->0,
                    s.scope,
                    p,
                );
            },
        }
    } else {
        assert(n1 == m);
        lemma_operand(m, b, s, to_arg(p, 1));
        match v {
            Val::Int(i) => {
                lemma_arithmetic(call, Arith::Add, t.operand, i, s.scope, p);
                assert(t.operand + i == i + t.operand);
            },
            _ => {
                lemma_no_arithmetic(call, false, v, t.operand, s.scope, p);
            },
        }
    }
}

/// Arguments that are read as variables have their values, if any.
proof fn lemma_resolved_args(m: Seq<Seq<char>>, args: Seq<IdedExpr>, s: Setting, p: Seq<usize>)
    requires
        setting_ok(s),
        filter_tree_compiler::names_grow(s.names, m),
        filter_tree_compiler::resolve_all(m, args).0 is Some,
        filter_tree_compiler::names_grow(filter_tree_compiler::resolve_all(m, args).1, s.last),
        forall|i: int| 0 <= i < args.len() ==> path_reads((#[trigger] args[i]).expr, s),
    ensures
        semantics::eval_args(args, p, s.scope) matches Ok(a) ==> a == filter_tree::call_args(
            filter_tree_compiler::resolve_all(m, args).0->0,
            s.vars,
        ),
    decreases args.len(),
{
    let idxs = filter_tree_compiler::resolve_all(m, args).0->0;
    if args.len() == 0 {
        assert(filter_tree::call_args(idxs, s.vars) =~= Seq::<Val>::empty());
    } else {
        let (before, n) = filter_tree_compiler::resolve_all(m, args.drop_last());
        let x = args.last().expr;
        filter_tree_compiler::lemma_resolve_all(m, args.drop_last());
        filter_tree_compiler::lemma_resolve(n, x);
        filter_tree_compiler::lemma_growth_chain(
            n,
            filter_tree_compiler::resolve(n, x).1,
            s.last,
        );
        filter_tree_compiler::lemma_growth_chain(s.names, m, n);
        assert forall|i: int| 0 <= i < args.drop_last().len() implies path_reads(
            (#[trigger] args.drop_last()[i]).expr,
            s,
        ) by {
            assert(args.drop_last()[i] == args[i]);
        }
        lemma_resolved_args(m, args.drop_last(), s, p);
        assert(path_reads(args[args.len() - 1].expr, s));
        lemma_operand(n, x, s, to_arg(p, args.len() - 1));
        match semantics::eval_args(args, p, s.scope) {
            Ok(a) => {
                assert(a =~= filter_tree::call_args(idxs, s.vars));
            },
            Err(_) => {},
        }
    }
}

proof fn lemma_function_named(t: Seq<FnModel>, name: Seq<char>, from: int) -> (k: int)
    requires
        filter_tree::function_named(t, name, from) is Some,
    ensures
        0 <= k < t.len(),
        t[k].name == name,
        filter_tree::function_named(t, name, from) == Some(t[k]),
    decreases t.len() - from,
{
    if t[from].name == name {
        from
    } else {
        lemma_function_named(t, name, from + 1)
    }
}

/// The value of a call of a registered function.
proof fn lemma_call_value(
    m: Seq<Seq<char>>,
    op: Option<Operator>,
    l: Expr,
    r: Expr,
    s: Setting,
    p: Seq<usize>,
)
    requires
        setting_ok(s),
        filter_tree_compiler::names_grow(s.names, m),
        call_reads(l, s),
        ({
            let x = filter_tree_compiler::call_test(m, op, l, r, s.known.functions);
            x.0 is Some && filter_tree_compiler::names_grow(x.1, s.last) && suits(x.0->0, s.vars)
        }),
    ensures
        registered(l, s),
        filter_tree_compiler::call_test(m, op, l, r, s.known.functions).0->0 matches Filt::Call(
            g,
            idxs,
            c,
            literal,
        ) && {
            &&& filter_tree_compiler::comparison(op) == Some(c)
            &&& filter_tree_compiler::int_literal(r) == Some(literal)
            &&& semantics::eval_expr(l, p, s.scope) matches Ok(v) ==> v is Int && error::ask(
                g.host,
                Req::Call(Site::root(), g.name, None, filter_tree::call_args(idxs, s.vars)),
            ) == Ok::<Val, Fault>(v)
        },
{
    reveal(filter_tree_compiler::call_test);
    let call = l->Call_0;
    let t = s.known.functions->0;
    let k = lemma_function_named(t, call.func_name@, 0);
    lemma_resolved_args(m, call.args@, s, p);
    let args = semantics::eval_args(call.args@, p, s.scope);
    assert(ast::operator_of(call.func_name@) is None);
    assert(semantics::eval_expr(l, p, s.scope) == semantics::free_result(
        s.scope,
        p,
        call.func_name@,
        args,
    ));
}

/// A comparison has no value where a side has none.
proof fn lemma_side_fails(call: CallExpr, c: IntCmp, first: bool, scope: Scope, p: Seq<usize>)
    requires
        call.args@.len() == 2,
        filter_tree_compiler::comparison(filter_tree_compiler::op_of(call)) == Some(c),
        semantics::eval_expr(
            call.args@[if first { 0int } else { 1int }].expr,
            to_arg(p, if first { 0 } else { 1 }),
            scope,
        ) is Err,
    ensures
        semantics::eval_expr(Expr::Call(call), p, scope) is Err,
{
    let k = CallKind::Binary(compare_op(c));
    assert(semantics::call_kind(filter_tree_compiler::op_of(call), 2) == k);
    assert(semantics::eval_expr(Expr::Call(call), p, scope) == semantics::strict_result(
        k,
        semantics::eval_expr(call.args@[0].expr, to_arg(p, 0), scope),
        semantics::eval_expr(call.args@[1].expr, to_arg(p, 1), scope),
        scope.host,
    ));
}

/// The operator of a call, mirrored where its second argument is tested.
pub open spec fn side_op(call: CallExpr, first: bool) -> Option<Operator> {
    if first {
        filter_tree_compiler::op_of(call)
    } else {
        filter_tree_compiler::mirrored(filter_tree_compiler::op_of(call))
    }
}

/// A comparison of a registered function's result with a literal, on either side of it.
proof fn lemma_call_tests(call: CallExpr, m: Seq<Seq<char>>, first: bool, s: Setting, p: Seq<usize>)
    requires
        setting_ok(s),
        filter_tree_compiler::names_grow(s.names, m),
        call.args@.len() == 2,
        call_sound(call, s),
        ({
            let x = call.args@[if first { 0int } else { 1int }].expr;
            let y = call.args@[if first { 1int } else { 0int }].expr;
            let r = filter_tree_compiler::call_test(
                m,
                side_op(call, first),
                x,
                y,
                s.known.functions,
            );
            r.0 is Some && filter_tree_compiler::names_grow(r.1, s.last) && suits(r.0->0, s.vars)
        }),
    ensures
        ({
            let x = call.args@[if first { 0int } else { 1int }].expr;
            let y = call.args@[if first { 1int } else { 0int }].expr;
            let r = filter_tree_compiler::call_test(
                m,
                side_op(call, first),
                x,
                y,
                s.known.functions,
            );
            agrees(semantics::eval_expr(Expr::Call(call), p, s.scope), filter_holds(r.0->0, s.vars))
        }),
{
    let x = call.args@[if first { 0int } else { 1int }].expr;
    let y = call.args@[if first { 1int } else { 0int }].expr;
    let op = filter_tree_compiler::op_of(call);
    assert(filter_tree_compiler::int_literal(y) is Some) by {
        reveal(filter_tree_compiler::call_test);
    }
    lemma_call_value(m, side_op(call, first), x, y, s, to_arg(p, if first { 0 } else { 1 }));
    filter_tree_compiler::law_mirrored(op);
    let c = filter_tree_compiler::comparison(op)->0;
    let lit = filter_tree_compiler::int_literal(y)->0;
    match semantics::eval_expr(x, to_arg(p, if first { 0 } else { 1 }), s.scope) {
        Ok(v) => {
            if first {
                lemma_compare(call, c, v->Int_0, lit, s.scope, p);
            } else {
                lemma_compare(call, c, lit, v->Int_0, s.scope, p);
                filter_tree_compiler::law_flipped(c, v->Int_0, lit);
            }
        },
        Err(_) => {
            lemma_side_fails(call, c, first, s.scope, p);
        },
    }
}

/// A comparison of a variable with a literal, on either side of it.
proof fn lemma_plain_test(call: CallExpr, m: Seq<Seq<char>>, first: bool, s: Setting, p: Seq<usize>)
    requires
        setting_ok(s),
        filter_tree_compiler::names_grow(s.names, m),
        call.args@.len() == 2,
        call_sound(call, s),
        filter_tree_compiler::comparison(filter_tree_compiler::op_of(call)) is Some,
        ({
            let x = call.args@[if first { 0int } else { 1int }].expr;
            let y = call.args@[if first { 1int } else { 0int }].expr;
            let r = filter_tree_compiler::var_and_int(m, x, y);
            let c = filter_tree_compiler::comparison(filter_tree_compiler::op_of(call))->0;
            r.0 is Some && filter_tree_compiler::names_grow(r.1, s.last) && suits(
                filter_tree_compiler::plain_test((r.0->0).0, c, (r.0->0).1),
                s.vars,
            )
        }),
    ensures
        ({
            let x = call.args@[if first { 0int } else { 1int }].expr;
            let y = call.args@[if first { 1int } else { 0int }].expr;
            let r = filter_tree_compiler::var_and_int(m, x, y).0->0;
            let c = filter_tree_compiler::comparison(filter_tree_compiler::op_of(call))->0;
            agrees(
                semantics::eval_expr(Expr::Call(call), p, s.scope),
                filter_holds(
                    filter_tree_compiler::plain_test(
                        r.0,
                        if first {
                            c
                        } else {
                            filter_tree_compiler::flipped(c)
                        },
                        r.1,
                    ),
                    s.vars,
                ),
            )
        }),
{
    let x = call.args@[if first { 0int } else { 1int }].expr;
    let y = call.args@[if first { 1int } else { 0int }].expr;
    let (idx, lit) = filter_tree_compiler::var_and_int(m, x, y).0->0;
    let c = filter_tree_compiler::comparison(filter_tree_compiler::op_of(call))->0;
    lemma_operand(m, x, s, to_arg(p, if first { 0 } else { 1 }));
    let v = filter_tree::var_at(s.vars, idx);
    match v {
        Val::Int(i) => {
            if first {
                lemma_compare(call, c, i, lit, s.scope, p);
            } else {
                lemma_compare(call, c, lit, i, s.scope, p);
                filter_tree_compiler::law_flipped(c, i, lit);
            }
        },
        _ => {
            lemma_no_compare(call, c, first, v, lit, s.scope, p);
        },
    }
}

/// A comparison of arithmetic with a literal, on either side of it.
proof fn lemma_arith_tests(
    call: CallExpr,
    m: Seq<Seq<char>>,
    first: bool,
    s: Setting,
    p: Seq<usize>,
)
    requires
        setting_ok(s),
        filter_tree_compiler::names_grow(s.names, m),
        call.args@.len() == 2,
        call_sound(call, s),
        ({
            let x = call.args@[if first { 0int } else { 1int }].expr;
            let y = call.args@[if first { 1int } else { 0int }].expr;
            let r = filter_tree_compiler::arith_test(m, x, side_op(call, first), y);
            r.0 is Some && filter_tree_compiler::names_grow(r.1, s.last) && suits(r.0->0, s.vars)
        }),
    ensures
        ({
            let x = call.args@[if first { 0int } else { 1int }].expr;
            let y = call.args@[if first { 1int } else { 0int }].expr;
            let r = filter_tree_compiler::arith_test(m, x, side_op(call, first), y);
            agrees(semantics::eval_expr(Expr::Call(call), p, s.scope), filter_holds(r.0->0, s.vars))
        }),
{
    let x = call.args@[if first { 0int } else { 1int }].expr;
    let y = call.args@[if first { 1int } else { 0int }].expr;
    let op = filter_tree_compiler::op_of(call);
    assert(filter_tree_compiler::int_literal(y) is Some) by {
        reveal(filter_tree_compiler::arith_test);
    }
    lemma_arith_value(m, x, side_op(call, first), y, s, to_arg(p, if first { 0 } else { 1 }));
    filter_tree_compiler::law_mirrored(op);
    let c = filter_tree_compiler::comparison(op)->0;
    let t = filter_tree_compiler::arith_test(m, x, side_op(call, first), y).0->0->Test_0;
    let i = filter_tree::var_at(s.vars, t.idx)->Int_0;
    let v = filter_tree::arith_value(t.arith, i, t.operand);
    if first {
        lemma_compare(call, c, v, t.val, s.scope, p);
    } else {
        lemma_compare(call, c, t.val, v, s.scope, p);
        filter_tree_compiler::law_flipped(c, v, t.val);
    }
    if semantics::eval_expr(x, to_arg(p, if first { 0 } else { 1 }), s.scope) is Err {
        lemma_side_fails(call, c, first, s.scope, p);
    }
}

/// The compilation of a comparison of integers keeps its meaning.
proof fn lemma_int_test(call: CallExpr, m: Seq<Seq<char>>, s: Setting, p: Seq<usize>)
    requires
        setting_ok(s),
        filter_tree_compiler::names_grow(s.names, m),
        call.args@.len() == 2,
        call_sound(call, s),
        ({
            let r = filter_tree_compiler::int_test(
                m,
                filter_tree_compiler::op_of(call),
                call.args@[0].expr,
                call.args@[1].expr,
                s.known.functions,
            );
            r.0 is Some && filter_tree_compiler::names_grow(r.1, s.last) && suits(r.0->0, s.vars)
        }),
    ensures
        agrees(
            semantics::eval_expr(Expr::Call(call), p, s.scope),
            filter_holds(
                filter_tree_compiler::int_test(
                    m,
                    filter_tree_compiler::op_of(call),
                    call.args@[0].expr,
                    call.args@[1].expr,
                    s.known.functions,
                ).0->0,
                s.vars,
            ),
        ),
{
    reveal(filter_tree_compiler::int_test);
    let l = call.args@[0].expr;
    let r = call.args@[1].expr;
    let op = filter_tree_compiler::op_of(call);
    let fns = s.known.functions;
    filter_tree_compiler::lemma_resolve(m, l);
    let (f1, n1) = filter_tree_compiler::var_and_int(m, l, r);
    filter_tree_compiler::lemma_growth_chain(s.names, m, n1);
    if f1 is Some {
        lemma_plain_test(call, m, true, s, p);
    } else {
        filter_tree_compiler::lemma_resolve(n1, r);
        let (f2, n2) = filter_tree_compiler::var_and_int(n1, r, l);
        filter_tree_compiler::lemma_growth_chain(s.names, n1, n2);
        if f2 is Some {
            lemma_plain_test(call, n1, false, s, p);
        } else {
            let back = filter_tree_compiler::mirrored(op);
            filter_tree_compiler::lemma_arith_ok(n2, l, op, r);
            let (f3, n3) = filter_tree_compiler::arith_test(n2, l, op, r);
            filter_tree_compiler::lemma_growth_chain(s.names, n2, n3);
            filter_tree_compiler::lemma_arith_ok(n3, r, back, l);
            let (f4, n4) = filter_tree_compiler::arith_test(n3, r, back, l);
            filter_tree_compiler::lemma_growth_chain(s.names, n3, n4);
            filter_tree_compiler::lemma_call_ok(n4, op, l, r, fns);
            let (f5, n5) = filter_tree_compiler::call_test(n4, op, l, r, fns);
            filter_tree_compiler::lemma_growth_chain(s.names, n4, n5);
            filter_tree_compiler::lemma_call_ok(n5, back, r, l, fns);
            let (f6, n6) = filter_tree_compiler::call_test(n5, back, r, l, fns);
            filter_tree_compiler::lemma_growth_chain(s.names, n5, n6);
            if f3 is Some {
                lemma_arith_tests(call, n2, true, s, p);
            } else if f4 is Some {
                lemma_arith_tests(call, n3, false, s, p);
            } else if f5 is Some {
                lemma_call_tests(call, n4, true, s, p);
            } else if f6 is Some {
                lemma_call_tests(call, n5, false, s, p);
            } else {
                lemma_general(call, n6, s, p);
            }
        }
    }
}

/// The compilation of an equality of strings keeps its meaning.
proof fn lemma_str_test(call: CallExpr, m: Seq<Seq<char>>, s: Setting, p: Seq<usize>)
    requires
        setting_ok(s),
        filter_tree_compiler::names_grow(s.names, m),
        call.args@.len() == 2,
        call_sound(call, s),
        ({
            let r = filter_tree_compiler::str_test(
                m,
                filter_tree_compiler::op_of(call),
                call.args@[0].expr,
                call.args@[1].expr,
            );
            r.0 is Some && filter_tree_compiler::names_grow(r.1, s.last) && suits(r.0->0, s.vars)
        }),
    ensures
        agrees(
            semantics::eval_expr(Expr::Call(call), p, s.scope),
            filter_holds(
                filter_tree_compiler::str_test(
                    m,
                    filter_tree_compiler::op_of(call),
                    call.args@[0].expr,
                    call.args@[1].expr,
                ).0->0,
                s.vars,
            ),
        ),
{
    reveal(filter_tree_compiler::str_test);
    let l = call.args@[0].expr;
    let r = call.args@[1].expr;
    let op = filter_tree_compiler::op_of(call);
    let (i, n1) = filter_tree_compiler::resolve(m, l);
    filter_tree_compiler::lemma_resolve(m, l);
    filter_tree_compiler::lemma_growth_chain(s.names, m, n1);
    let k = semantics::call_kind(op, 2);
    assert(semantics::eval_expr(Expr::Call(call), p, s.scope) == semantics::strict_result(
        k,
        semantics::eval_expr(l, to_arg(p, 0), s.scope),
        semantics::eval_expr(r, to_arg(p, 1), s.scope),
        s.scope.host,
    ));
    if i is Some {
        lemma_operand(m, l, s, to_arg(p, 0));
    } else {
        lemma_operand(n1, r, s, to_arg(p, 1));
    }
}

/// Integers as values.
pub open spec fn int_values(v: Seq<i64>) -> Seq<Val> {
    v.map_values(|i: i64| Val::Int(i))
}

/// Texts as values.
pub open spec fn text_values(v: Seq<Seq<char>>) -> Seq<Val> {
    v.map_values(|t: Seq<char>| Val::String(t))
}

proof fn lemma_int_elements(e: Seq<IdedExpr>, optional: Seq<usize>, c: Scope, p: Seq<usize>)
    requires
        filter_tree_compiler::all_ints(e) is Some,
    ensures
        ({
            let v = filter_tree_compiler::all_ints(e)->0;
            semantics::eval_elements(e, p, optional, c) == Ok::<Seq<Val>, Fault>(
                int_values(v),
            )
        }),
    decreases e.len(),
{
    let v = filter_tree_compiler::all_ints(e)->0;
    if e.len() == 0 {
        assert(int_values(v) =~= Seq::<Val>::empty());
    } else {
        lemma_int_elements(e.drop_last(), optional, c, p);
        let before = filter_tree_compiler::all_ints(e.drop_last())->0;
        assert(semantics::eval_expr(e.last().expr, to_arg(p, e.len() - 1), c) == Ok::<Val, Fault>(
            Val::Int(v.last()),
        ));
        assert(int_values(v) =~= int_values(before).push(
            Val::Int(v.last()),
        ));
    }
}

proof fn lemma_text_elements(e: Seq<IdedExpr>, optional: Seq<usize>, c: Scope, p: Seq<usize>)
    requires
        filter_tree_compiler::all_strings(e) is Some,
    ensures
        ({
            let v = filter_tree_compiler::all_strings(e)->0;
            semantics::eval_elements(e, p, optional, c) == Ok::<Seq<Val>, Fault>(
                text_values(v),
            )
        }),
    decreases e.len(),
{
    let v = filter_tree_compiler::all_strings(e)->0;
    if e.len() == 0 {
        assert(text_values(v) =~= Seq::<Val>::empty());
    } else {
        lemma_text_elements(e.drop_last(), optional, c, p);
        let before = filter_tree_compiler::all_strings(e.drop_last())->0;
        assert(semantics::eval_expr(e.last().expr, to_arg(p, e.len() - 1), c) == Ok::<Val, Fault>(
            Val::String(v.last()),
        ));
        assert(text_values(v) =~= text_values(before).push(Val::String(v.last())));
    }
}

proof fn lemma_int_in(v: Seq<i64>, i: i64)
    ensures
        ops::list_has(int_values(v), Val::Int(i)) == v.contains(i),
{
    let items = int_values(v);
    if ops::list_has(items, Val::Int(i)) {
        let k = choose|k: int|
            0 <= k < items.len() && objects::val_eq(#[trigger] items[k], Val::Int(i));
        assert(v[k] == i);
    }
    if v.contains(i) {
        let k = choose|k: int| 0 <= k < v.len() && v[k] == i;
        assert(objects::val_eq(items[k], Val::Int(i)));
    }
}

proof fn lemma_text_in(v: Seq<Seq<char>>, t: Seq<char>)
    ensures
        ops::list_has(text_values(v), Val::String(t)) == v.contains(
            t,
        ),
{
    let items = text_values(v);
    if ops::list_has(items, Val::String(t)) {
        let k = choose|k: int|
            0 <= k < items.len() && objects::val_eq(#[trigger] items[k], Val::String(t));
        assert(v[k] == t);
    }
    if v.contains(t) {
        let k = choose|k: int| 0 <= k < v.len() && v[k] == t;
        assert(objects::val_eq(items[k], Val::String(t)));
    }
}

/// The compilation of `var in [literals]` keeps its meaning.
proof fn lemma_member_test(call: CallExpr, m: Seq<Seq<char>>, s: Setting, p: Seq<usize>)
    requires
        setting_ok(s),
        filter_tree_compiler::names_grow(s.names, m),
        call.args@.len() == 2,
        call_sound(call, s),
        filter_tree_compiler::op_of(call) == Some(Operator::In),
        ({
            let r = filter_tree_compiler::member_test(m, call.args@[0].expr, call.args@[1].expr);
            r.0 is Some && filter_tree_compiler::names_grow(r.1, s.last) && suits(r.0->0, s.vars)
        }),
    ensures
        agrees(
            semantics::eval_expr(Expr::Call(call), p, s.scope),
            filter_holds(
                filter_tree_compiler::member_test(
                    m,
                    call.args@[0].expr,
                    call.args@[1].expr,
                ).0->0,
                s.vars,
            ),
        ),
{
    reveal(filter_tree_compiler::member_test);
    let l = call.args@[0].expr;
    let r = call.args@[1].expr;
    let list = r->List_0;
    let k = CallKind::Binary(BinOp::In);
    assert(semantics::call_kind(filter_tree_compiler::op_of(call), 2) == k);
    assert(semantics::eval_expr(Expr::Call(call), p, s.scope) == semantics::strict_result(
        k,
        semantics::eval_expr(l, to_arg(p, 0), s.scope),
        semantics::eval_expr(r, to_arg(p, 1), s.scope),
        s.scope.host,
    ));
    lemma_operand(m, l, s, to_arg(p, 0));
    let idx = filter_tree_compiler::resolve(m, l).0->0;
    match filter_tree_compiler::all_ints(list.elements@) {
        Some(v) => {
            lemma_int_elements(list.elements@, list.optional_indices@, s.scope, to_arg(p, 1));
            match filter_tree::var_at(s.vars, idx) {
                Val::Int(i) => {
                    lemma_int_in(v, i);
                },
                w => {
                    assert(!ops::list_has(int_values(v), w));
                },
            }
        },
        None => {
            let v = filter_tree_compiler::all_strings(list.elements@)->0;
            lemma_text_elements(list.elements@, list.optional_indices@, s.scope, to_arg(p, 1));
            match filter_tree::var_at(s.vars, idx) {
                Val::String(t) => {
                    lemma_text_in(v, t);
                },
                w => {
                    assert(!ops::list_has(text_values(v), w));
                },
            }
        },
    }
}

/// The compilation of a call that is no logical operator keeps its meaning.
proof fn lemma_test(call: CallExpr, m: Seq<Seq<char>>, s: Setting, p: Seq<usize>)
    requires
        setting_ok(s),
        filter_tree_compiler::names_grow(s.names, m),
        call_sound(call, s),
        ({
            let r = filter_tree_compiler::test_of(m, call, s.known);
            r.0 is Some && filter_tree_compiler::names_grow(r.1, s.last) && suits(r.0->0, s.vars)
        }),
    ensures
        agrees(
            semantics::eval_expr(Expr::Call(call), p, s.scope),
            filter_holds(filter_tree_compiler::test_of(m, call, s.known).0->0, s.vars),
        ),
{
    reveal(filter_tree_compiler::test_of);
    let two = call.args@.len() == 2;
    let a = call.args@[0].expr;
    let b = call.args@[1].expr;
    let op = filter_tree_compiler::op_of(call);
    filter_tree_compiler::lemma_str_call_ok(m, call.func_name@, a, b);
    let (f1, n1) = if two {
        filter_tree_compiler::str_call(m, call.func_name@, a, b)
    } else {
        (None, m)
    };
    filter_tree_compiler::lemma_growth_chain(s.names, m, n1);
    filter_tree_compiler::lemma_str_member_ok(n1, call);
    let (f2, n2) = filter_tree_compiler::str_member(n1, call);
    filter_tree_compiler::lemma_growth_chain(s.names, n1, n2);
    filter_tree_compiler::lemma_int_test_ok(n2, op, a, b, s.known.functions);
    let (f3, n3) = filter_tree_compiler::int_test(n2, op, a, b, s.known.functions);
    filter_tree_compiler::lemma_growth_chain(s.names, n2, n3);
    filter_tree_compiler::lemma_str_test_ok(n3, op, a, b);
    let (f4, n4) = filter_tree_compiler::str_test(n3, op, a, b);
    filter_tree_compiler::lemma_growth_chain(s.names, n3, n4);
    if f1 is Some {
        lemma_str_call(call, m, s, p);
    } else if f2 is Some {
        lemma_str_member(call, n1, s, p);
    } else if f3 is Some {
        lemma_int_test(call, n2, s, p);
    } else if f4 is Some {
        lemma_str_test(call, n3, s, p);
    } else {
        lemma_member_test(call, n4, s, p);
    }
}

/// A logical operator joins what its sides say.
proof fn lemma_logic(any: bool, l: Outcome, r: Outcome, x: bool, y: bool)
    requires
        agrees(l, x),
        agrees(r, y),
    ensures
        agrees(
            ops::logic_result(any, l, r),
            if any {
                x || y
            } else {
                x && y
            },
        ),
{
}

proof fn lemma_words_joined(
    a: Seq<(Seq<char>, Seq<char>)>,
    b: Seq<(Seq<char>, Seq<char>)>,
    text: Seq<char>,
)
    ensures
        ({
            let x = filter_tree_compiler::term_words(a);
            let y = filter_tree_compiler::term_words(b);
            let z = filter_tree_compiler::term_words(a + b);
            &&& patterns::some_occurs(z, text) == (patterns::some_occurs(x, text)
                || patterns::some_occurs(y, text))
            &&& patterns::all_occur(z, text) == (patterns::all_occur(x, text)
                && patterns::all_occur(y, text))
        }),
{
    let x = filter_tree_compiler::term_words(a);
    let y = filter_tree_compiler::term_words(b);
    let z = filter_tree_compiler::term_words(a + b);
    assert(z =~= x + y);
    assert forall|i: int| 0 <= i < x.len() implies #[trigger] x[i] == z[i] by {}
    assert forall|i: int| 0 <= i < y.len() implies #[trigger] y[i] == z[x.len() + i] by {}
    if patterns::some_occurs(x, text) {
        let i = choose|i: int| 0 <= i < x.len() && strings::occurs_in(#[trigger] x[i], text);
        assert(strings::occurs_in(z[i], text));
    }
    if patterns::some_occurs(y, text) {
        let i = choose|i: int| 0 <= i < y.len() && strings::occurs_in(#[trigger] y[i], text);
        assert(strings::occurs_in(z[x.len() + i], text));
    }
    if patterns::some_occurs(z, text) {
        let i = choose|i: int| 0 <= i < z.len() && strings::occurs_in(#[trigger] z[i], text);
        if i < x.len() {
            assert(strings::occurs_in(x[i], text));
        } else {
            assert(strings::occurs_in(y[i - x.len()], text));
        }
    }
    if patterns::all_occur(z, text) {
        assert forall|i: int| 0 <= i < x.len() implies strings::occurs_in(
            #[trigger] x[i],
            text,
        ) by {
            assert(strings::occurs_in(z[i], text));
        }
        assert forall|i: int| 0 <= i < y.len() implies strings::occurs_in(
            #[trigger] y[i],
            text,
        ) by {
            assert(strings::occurs_in(z[x.len() + i], text));
        }
    }
    if patterns::all_occur(x, text) && patterns::all_occur(y, text) {
        assert forall|i: int| 0 <= i < z.len() implies strings::occurs_in(
            #[trigger] z[i],
            text,
        ) by {
            if i < x.len() {
                assert(strings::occurs_in(x[i], text));
            } else {
                assert(strings::occurs_in(y[i - x.len()], text));
            }
        }
    }
}

/// The operator of a disjunction or a conjunction.
pub open spec fn joining(any: bool) -> Operator {
    if any {
        Operator::LogicalOr
    } else {
        Operator::LogicalAnd
    }
}

/// A disjunction of `contains` says that some word occurs, a conjunction that all do.
proof fn lemma_terms(
    any: bool,
    e: Expr,
    name: Seq<char>,
    text: Seq<char>,
    s: Setting,
    p: Seq<usize>,
)
    requires
        standard(s.scope),
        sound(e, s),
        context::variable(s.scope, name) == Some(Val::String(text)),
        filter_tree_compiler::contains_terms(joining(any), e) is Some,
        forall|i: int|
            0 <= i < filter_tree_compiler::contains_terms(joining(any), e)->0.len() ==> (
            #[trigger] filter_tree_compiler::contains_terms(joining(any), e)->0[i]).0 == name,
    ensures
        ({
            let words = filter_tree_compiler::term_words(
                filter_tree_compiler::contains_terms(joining(any), e)->0,
            );
            agrees(
                semantics::eval_expr(e, p, s.scope),
                if any {
                    patterns::some_occurs(words, text)
                } else {
                    patterns::all_occur(words, text)
                },
            )
        }),
    decreases e,
{
    let call = e->Call_0;
    let terms = filter_tree_compiler::contains_terms(joining(any), e)->0;
    let words = filter_tree_compiler::term_words(terms);
    if filter_tree_compiler::op_of(call) == Some(joining(any)) && call.args@.len() == 2 {
        let l = call.args@[0].expr;
        let r = call.args@[1].expr;
        let a = filter_tree_compiler::contains_terms(joining(any), l)->0;
        let b = filter_tree_compiler::contains_terms(joining(any), r)->0;
        assert forall|i: int| 0 <= i < a.len() implies (#[trigger] a[i]).0 == name by {
            assert(terms[i] == a[i]);
        }
        assert forall|i: int| 0 <= i < b.len() implies (#[trigger] b[i]).0 == name by {
            assert(terms[a.len() + i] == b[i]);
        }
        lemma_terms(any, l, name, text, s, to_arg(p, 0));
        lemma_terms(any, r, name, text, s, to_arg(p, 1));
        lemma_words_joined(a, b, text);
        let k = CallKind::Logic(any);
        assert(semantics::call_kind(filter_tree_compiler::op_of(call), 2) == k);
        assert(semantics::eval_expr(e, p, s.scope) == ops::logic_result(
            any,
            semantics::eval_expr(l, to_arg(p, 0), s.scope),
            semantics::eval_expr(r, to_arg(p, 1), s.scope),
        ));
        lemma_logic(
            any,
            semantics::eval_expr(l, to_arg(p, 0), s.scope),
            semantics::eval_expr(r, to_arg(p, 1), s.scope),
            if any {
                patterns::some_occurs(filter_tree_compiler::term_words(a), text)
            } else {
                patterns::all_occur(filter_tree_compiler::term_words(a), text)
            },
            if any {
                patterns::some_occurs(filter_tree_compiler::term_words(b), text)
            } else {
                patterns::all_occur(filter_tree_compiler::term_words(b), text)
            },
        );
    } else {
        let t = filter_tree_compiler::contains_term(e)->0;
        assert(terms[0] == t);
        assert(words.len() == 1 && words[0] == t.1);
        assert(patterns::some_occurs(words, text) == strings::occurs_in(t.1, text)) by {
            if strings::occurs_in(t.1, text) {
                assert(strings::occurs_in(words[0], text));
            }
        }
        assert(patterns::all_occur(words, text) == strings::occurs_in(t.1, text)) by {
            if patterns::all_occur(words, text) {
                assert(strings::occurs_in(words[0], text));
            }
        }
        lemma_name_is_no_operator(call.func_name@);
        lemma_known_call(call, Function::Contains, s.scope, p);
        lemma_args(call.args@, s.scope, p);
        match semantics::eval_args(call.args@, p, s.scope) {
            Ok(a) => {
                assert(semantics::eval_expr(
                    call.args@[0].expr,
                    to_arg(p, 0),
                    s.scope,
                ) == Ok::<Val, Fault>(
                    a[0],
                ));
            },
            Err(_) => {},
        }
        assert(semantics::eval_expr(call.target->0.expr, to_target(p), s.scope) == Ok::<Val, Fault>(
            Val::String(text),
        ));
    }
}

/// A disjunction or a conjunction of `contains` on what is no string has no value.
proof fn lemma_no_terms(any: bool, e: Expr, name: Seq<char>, v: Val, s: Setting, p: Seq<usize>)
    requires
        standard(s.scope),
        sound(e, s),
        context::variable(s.scope, name) == Some(v),
        !(v is String),
        filter_tree_compiler::contains_terms(joining(any), e) is Some,
        forall|i: int|
            0 <= i < filter_tree_compiler::contains_terms(joining(any), e)->0.len() ==> (
            #[trigger] filter_tree_compiler::contains_terms(joining(any), e)->0[i]).0 == name,
    ensures
        semantics::eval_expr(e, p, s.scope) is Err,
    decreases e,
{
    let call = e->Call_0;
    let terms = filter_tree_compiler::contains_terms(joining(any), e)->0;
    if filter_tree_compiler::op_of(call) == Some(joining(any)) && call.args@.len() == 2 {
        let l = call.args@[0].expr;
        let r = call.args@[1].expr;
        let a = filter_tree_compiler::contains_terms(joining(any), l)->0;
        let b = filter_tree_compiler::contains_terms(joining(any), r)->0;
        assert forall|i: int| 0 <= i < a.len() implies (#[trigger] a[i]).0 == name by {
            assert(terms[i] == a[i]);
        }
        assert forall|i: int| 0 <= i < b.len() implies (#[trigger] b[i]).0 == name by {
            assert(terms[a.len() + i] == b[i]);
        }
        lemma_no_terms(any, l, name, v, s, to_arg(p, 0));
        lemma_no_terms(any, r, name, v, s, to_arg(p, 1));
        assert(semantics::call_kind(filter_tree_compiler::op_of(call), 2) == CallKind::Logic(any));
        assert(semantics::eval_expr(e, p, s.scope) == ops::logic_result(
            any,
            semantics::eval_expr(l, to_arg(p, 0), s.scope),
            semantics::eval_expr(r, to_arg(p, 1), s.scope),
        ));
    } else {
        let t = filter_tree_compiler::contains_term(e)->0;
        assert(terms[0] == t);
        lemma_name_is_no_operator(call.func_name@);
        lemma_known_call(call, Function::Contains, s.scope, p);
        lemma_args(call.args@, s.scope, p);
        match semantics::eval_args(call.args@, p, s.scope) {
            Ok(a) => {
                assert(semantics::eval_expr(
                    call.args@[0].expr,
                    to_arg(p, 0),
                    s.scope,
                ) == Ok::<Val, Fault>(
                    a[0],
                ));
            },
            Err(_) => {},
        }
        assert(semantics::eval_expr(call.target->0.expr, to_target(p), s.scope) == Ok::<Val, Fault>(
            v,
        ));
    }
}

/// The compilation of a disjunction or a conjunction of `contains` into one scan keeps its
/// meaning.
proof fn lemma_merged(any: bool, e: Expr, m: Seq<Seq<char>>, s: Setting, p: Seq<usize>)
    requires
        setting_ok(s),
        filter_tree_compiler::names_grow(s.names, m),
        sound(e, s),
        countable(e),
        ({
            let r = filter_tree_compiler::merged_contains(m, any, e);
            r.0 is Some && filter_tree_compiler::names_grow(r.1, s.last) && suits(r.0->0, s.vars)
        }),
    ensures
        agrees(
            semantics::eval_expr(e, p, s.scope),
            filter_holds(filter_tree_compiler::merged_contains(m, any, e).0->0, s.vars),
        ),
{
    reveal(filter_tree_compiler::merged_contains);
    let terms = filter_tree_compiler::contains_terms(joining(any), e)->0;
    let name = terms[0].0;
    let (idx, n) = filter_tree_compiler::var_idx(m, name);
    filter_tree_compiler::lemma_name_index(m, name);
    filter_tree_compiler::lemma_var_idx(m, name);
    assert(filter_tree_compiler::name_index(n, name) == Some(idx as int));
    filter_tree_compiler::law_index_kept(n, s.last, name);
    match filter_tree::var_at(s.vars, idx) {
        Val::String(text) => {
            lemma_terms(any, e, name, text, s, p);
            let words = filter_tree_compiler::term_words(terms);
            assert(words.len() == terms.len());
            patterns::law_occurring(words, text);
        },
        v => {
            lemma_no_terms(any, e, name, v, s, p);
        },
    }
}

/// The scope of one round of a loop.
pub open spec fn round(
    comp: ComprehensionExpr,
    c: Scope,
    j: int,
    item: Val,
    is_map: bool,
    accu: bool,
) -> Scope {
    context::bind(
        semantics::bind_item(
            context::in_round(c, j as usize),
            comp.iter_var@,
            semantics::opt_name(comp.iter_var2),
            is_map,
            item,
        ),
        comp.accu_var@,
        Val::Bool(accu),
    )
}

/// Some item from `i` on is a hit.
pub open spec fn hit_from(hits: Seq<bool>, i: int) -> bool {
    exists|j: int| i <= j < hits.len() && #[trigger] hits[j]
}

/// The condition of the loop says of each item whether it is a hit.
pub open spec fn decides(
    comp: ComprehensionExpr,
    cond: Expr,
    c: Scope,
    items: Seq<Val>,
    is_map: bool,
    hits: Seq<bool>,
    p: Seq<usize>,
) -> bool {
    hits.len() == items.len() && forall|j: int, b: bool|
        0 <= j < items.len() ==> agrees(
            #[trigger] semantics::eval_expr(cond, p, round(comp, c, j, items[j], is_map, b)),
            hits[j],
        )
}

/// A loop with the step `accu || condition` finds whether there is a hit.
proof fn lemma_loop(
    comp: ComprehensionExpr,
    k: int,
    c: Scope,
    items: Seq<Val>,
    is_map: bool,
    hits: Seq<bool>,
    i: int,
    accu: bool,
    p: Seq<usize>,
)
    requires
        filter_tree_compiler::exists_condition(comp) == Some(k),
        decides(
            comp,
            comp.loop_step.expr->Call_0.args@[k].expr,
            c,
            items,
            is_map,
            hits,
            to_arg(p.push(3), k),
        ),
        0 <= i <= items.len(),
    ensures
        agrees(
            semantics::eval_loop(comp, p, c, items, is_map, i, Val::Bool(accu)),
            accu || hit_from(hits, i),
        ),
    decreases items.len() - i,
{
    if i < items.len() {
        let inner = round(comp, c, i, items[i], is_map, accu);
        let step = comp.loop_step.expr->Call_0;
        let cond = step.args@[k].expr;
        let other = step.args@[1 - k].expr;
        assert(agrees(semantics::eval_expr(cond, to_arg(p.push(3), k), inner), hits[i]));
        assert(semantics::eval_expr(other, to_arg(p.push(3), 1 - k), inner) == Ok::<Val, Fault>(
            Val::Bool(accu),
        ));
        assert(semantics::call_kind(filter_tree_compiler::op_of(step), 2) == CallKind::Logic(true));
        let next = semantics::eval_expr(comp.loop_step.expr, p.push(3), inner);
        assert(next == ops::logic_result(
            true,
            semantics::eval_expr(step.args@[0].expr, to_arg(p.push(3), 0), inner),
            semantics::eval_expr(step.args@[1].expr, to_arg(p.push(3), 1), inner),
        ));
        assert(agrees(next, accu || hits[i]));
        if !accu {
            assert(semantics::eval_expr(comp.loop_cond.expr, p.push(2), inner) == Ok::<Val, Fault>(
                Val::Bool(true),
            )) by {
                lemma_goes_on(comp.loop_cond.expr, comp.accu_var@, inner, p.push(2));
            }
        }
        if next is Ok {
            lemma_loop(comp, k, c, items, is_map, hits, i + 1, accu || hits[i], p);
        }
        assert(hit_from(hits, i) == (hits[i] || hit_from(hits, i + 1))) by {
            if hit_from(hits, i) {
                let j = choose|j: int| i <= j < hits.len() && #[trigger] hits[j];
                assert(j == i || (i + 1 <= j && hits[j]));
            }
        }
    }
}

/// `!accu` is true while the accumulator is false.
proof fn lemma_not_ident(e: Expr, accu: Seq<char>, c: Scope, p: Seq<usize>)
    requires
        filter_tree_compiler::is_not_ident(e, accu),
        context::variable(c, accu) == Some(Val::Bool(false)),
    ensures
        semantics::eval_expr(e, p, c) == Ok::<Val, Fault>(Val::Bool(true)),
{
    let not = e->Call_0;
    assert(semantics::eval_expr(not.args@[0].expr, to_arg(p, 0), c) == Ok::<Val, Fault>(
        Val::Bool(false),
    ));
    assert(semantics::call_kind(filter_tree_compiler::op_of(not), 1) == CallKind::Not);
    assert(semantics::eval_expr(e, p, c) == semantics::unary_result(
        CallKind::Not,
        semantics::eval_expr(not.args@[0].expr, to_arg(p, 0), c),
    ));
}

/// The condition of an `exists` loop is true while nothing was found.
proof fn lemma_goes_on(e: Expr, accu: Seq<char>, c: Scope, p: Seq<usize>)
    requires
        filter_tree_compiler::goes_on(e, accu),
        context::variable(c, accu) == Some(Val::Bool(false)),
    ensures
        semantics::eval_expr(e, p, c) == Ok::<Val, Fault>(Val::Bool(true)),
{
    if filter_tree_compiler::is_not_ident(e, accu) {
        lemma_not_ident(e, accu, c, p);
    } else {
        let call = e->Call_0;
        lemma_not_ident(call.args@[0].expr, accu, c, to_arg(p, 0));
        assert(semantics::call_kind(filter_tree_compiler::op_of(call), 1)
            == CallKind::NotStrictlyFalse);
        assert(semantics::eval_expr(e, p, c) == semantics::unary_result(
            CallKind::NotStrictlyFalse,
            semantics::eval_expr(call.args@[0].expr, to_arg(p, 0), c),
        ));
    }
}

/// The value that a condition of a loop tests in a round.
proof fn lemma_tested(
    comp: ComprehensionExpr,
    cond: CallExpr,
    at: usize,
    c: Scope,
    j: int,
    item: Val,
    is_map: bool,
    b: bool,
    p: Seq<usize>,
)
    requires
        filter_tree_compiler::loop_variable(comp, cond) == Some(at),
        comp.iter_var2 is Some ==> (item matches Val::List(p) && p.len() == 2),
        comp.iter_var2 is None ==> !is_map,
    ensures
        semantics::eval_expr(
            cond.args@[at as int].expr,
            to_arg(p, at as int),
            round(comp, c, j, item, is_map, b),
        ) == Ok::<
            Val,
            Fault,
        >(
            if comp.iter_var2 is Some {
                item->List_0[1]
            } else {
                item
            },
        ),
{
}

/// A condition that compares the tested value, an integer, with a literal.
proof fn lemma_condition_int(
    comp: ComprehensionExpr,
    cond: CallExpr,
    at: usize,
    op: IntCmp,
    val: i64,
    i: i64,
    c: Scope,
    p: Seq<usize>,
)
    requires
        filter_tree_compiler::loop_variable(comp, cond) == Some(at),
        filter_tree_compiler::comparison(side_op(cond, at == 0)) == Some(op),
        filter_tree_compiler::int_literal(cond.args@[1 - at].expr) == Some(val),
        semantics::eval_expr(
            cond.args@[at as int].expr,
            to_arg(p, at as int),
            c,
        ) == Ok::<Val, Fault>(Val::Int(i)),
    ensures
        agrees(
            semantics::eval_expr(Expr::Call(cond), p, c),
            filter_tree::compares(op, i, val),
        ),
{
    assert(semantics::eval_expr(cond.args@[1 - at].expr, to_arg(p, 1 - at), c) == Ok::<Val, Fault>(
        Val::Int(val),
    ));
    if at == 0 {
        lemma_compare(cond, op, i, val, c, p);
    } else {
        let own = filter_tree_compiler::op_of(cond);
        filter_tree_compiler::law_mirrored(own);
        let there = filter_tree_compiler::comparison(own)->0;
        lemma_compare(cond, there, val, i, c, p);
        filter_tree_compiler::law_flipped(there, i, val);
    }
}

/// A condition that asks whether the tested value is a text.
proof fn lemma_condition_text(
    comp: ComprehensionExpr,
    cond: CallExpr,
    at: usize,
    text: Seq<char>,
    v: Val,
    c: Scope,
    p: Seq<usize>,
)
    requires
        filter_tree_compiler::loop_variable(comp, cond) == Some(at),
        filter_tree_compiler::op_of(cond) == Some(Operator::Equals),
        filter_tree_compiler::string_literal(cond.args@[1 - at].expr) == Some(text),
        semantics::eval_expr(
            cond.args@[at as int].expr,
            to_arg(p, at as int),
            c,
        ) == Ok::<Val, Fault>(v),
    ensures
        agrees(semantics::eval_expr(Expr::Call(cond), p, c), v == Val::String(text)),
{
    assert(semantics::eval_expr(cond.args@[1 - at].expr, to_arg(p, 1 - at), c) == Ok::<Val, Fault>(
        Val::String(text),
    ));
    let k = CallKind::Binary(BinOp::Equals);
    assert(semantics::call_kind(filter_tree_compiler::op_of(cond), 2) == k);
    assert(semantics::eval_expr(Expr::Call(cond), p, c) == semantics::strict_result(
        k,
        semantics::eval_expr(cond.args@[0].expr, to_arg(p, 0), c),
        semantics::eval_expr(cond.args@[1].expr, to_arg(p, 1), c),
        c.host,
    ));
    assert(objects::val_eq(v, Val::String(text)) == (v == Val::String(text)));
    assert(objects::val_eq(Val::String(text), v) == (v == Val::String(text)));
}

/// A condition that asks whether the tested value, an integer, is in a list.
proof fn lemma_condition_in(
    comp: ComprehensionExpr,
    cond: CallExpr,
    at: usize,
    set: Seq<i64>,
    i: i64,
    c: Scope,
    p: Seq<usize>,
)
    requires
        filter_tree_compiler::loop_variable(comp, cond) == Some(at),
        filter_tree_compiler::op_of(cond) == Some(Operator::In),
        cond.args@[1].expr matches Expr::List(list) && filter_tree_compiler::all_ints(
            list.elements@,
        ) == Some(set),
        semantics::eval_expr(
            cond.args@[at as int].expr,
            to_arg(p, at as int),
            c,
        ) == Ok::<Val, Fault>(Val::Int(i)),
    ensures
        agrees(semantics::eval_expr(Expr::Call(cond), p, c), set.contains(i)),
{
    let list = cond.args@[1].expr->List_0;
    assert(at == 0);
    let k = CallKind::Binary(BinOp::In);
    assert(semantics::call_kind(filter_tree_compiler::op_of(cond), 2) == k);
    assert(semantics::eval_expr(Expr::Call(cond), p, c) == semantics::strict_result(
        k,
        semantics::eval_expr(cond.args@[0].expr, to_arg(p, 0), c),
        semantics::eval_expr(cond.args@[1].expr, to_arg(p, 1), c),
        c.host,
    ));
    lemma_int_elements(list.elements@, list.optional_indices@, c, to_arg(p, 1));
    lemma_int_in(set, i);
}

/// An `exists` loop over the items of a value finds whether there is a hit.
proof fn lemma_comprehension(
    comp: ComprehensionExpr,
    k: int,
    c: Scope,
    range: Val,
    items: Seq<Val>,
    hits: Seq<bool>,
    p: Seq<usize>,
)
    requires
        filter_tree_compiler::exists_condition(comp) == Some(k),
        semantics::eval_expr(comp.iter_range.expr, p.push(0), c) == Ok::<Val, Fault>(range),
        semantics::loop_items(range) == Some(items),
        decides(
            comp,
            comp.loop_step.expr->Call_0.args@[k].expr,
            c,
            items,
            range is Dict,
            hits,
            to_arg(p.push(3), k),
        ),
    ensures
        agrees(
            semantics::eval_expr(Expr::Comprehension(Box::new(comp)), p, c),
            hit_from(hits, 0),
        ),
{
    lemma_loop(comp, k, c, items, range is Dict, hits, 0, false, p);
    assert(semantics::eval_expr(comp.accu_init.expr, p.push(1), c) == Ok::<Val, Fault>(
        Val::Bool(false),
    ));
    let done = semantics::eval_loop(comp, p, c, items, range is Dict, 0, Val::Bool(false));
    match done {
        Ok(accu) => {
            assert(semantics::eval_expr(
                comp.result.expr,
                p.push(4),
                context::bind(c, comp.accu_var@, accu),
            ) == Ok::<Val, Fault>(accu));
        },
        Err(_) => {},
    }
}

/// A loop over what holds no items has no value.
proof fn lemma_no_items(comp: ComprehensionExpr, c: Scope, p: Seq<usize>)
    requires
        semantics::eval_expr(
            comp.iter_range.expr,
            p.push(0),
            c,
        ) matches Ok(range) ==> !(range is List
            || range is Dict),
    ensures
        semantics::eval_expr(Expr::Comprehension(Box::new(comp)), p, c) is Err,
{
}

/// An `exists` loop over a list of integers with a comparison.
proof fn lemma_exists_int(
    comp: ComprehensionExpr,
    k: int,
    cond: CallExpr,
    at: usize,
    op: IntCmp,
    val: i64,
    l: Seq<Val>,
    s: Setting,
    p: Seq<usize>,
)
    requires
        loop_sound(comp, s),
        filter_tree_compiler::exists_condition(comp) == Some(k),
        comp.loop_step.expr->Call_0.args@[k].expr == Expr::Call(cond),
        filter_tree_compiler::loop_variable(comp, cond) == Some(at),
        comp.iter_var2 is None,
        filter_tree_compiler::comparison(side_op(cond, at == 0)) == Some(op),
        filter_tree_compiler::int_literal(cond.args@[1 - at].expr) == Some(val),
        semantics::eval_expr(comp.iter_range.expr, p.push(0), s.scope) == Ok::<Val, Fault>(
            Val::List(l),
        ),
        all_ints(l),
    ensures
        agrees(
            semantics::eval_expr(Expr::Comprehension(Box::new(comp)), p, s.scope),
            filter_tree::some_int_compares(l, op, val),
        ),
{
    let c = s.scope;
    let q = to_arg(p.push(3), k);
    let hits = Seq::new(l.len(), |j: int| filter_tree::compares(op, l[j]->Int_0, val));
    assert forall|j: int, b: bool| 0 <= j < l.len() implies agrees(
        #[trigger] semantics::eval_expr(Expr::Call(cond), q, round(comp, c, j, l[j], false, b)),
        hits[j],
    ) by {
        lemma_tested(comp, cond, at, c, j, l[j], false, b, q);
        lemma_condition_int(
            comp,
            cond,
            at,
            op,
            val,
            l[j]->Int_0,
            round(comp, c, j, l[j], false, b),
            q,
        );
    }
    lemma_comprehension(comp, k, c, Val::List(l), l, hits, p);
    if hit_from(hits, 0) {
        let j = choose|j: int| 0 <= j < hits.len() && #[trigger] hits[j];
        assert(l[j] matches Val::Int(i) && filter_tree::compares(op, i, val));
    }
    if filter_tree::some_int_compares(l, op, val) {
        let j = choose|j: int|
            0 <= j < l.len() && (#[trigger] l[j] matches Val::Int(i) && filter_tree::compares(
                op,
                i,
                val,
            ));
        assert(hits[j]);
    }
}

/// An `exists` loop over a list that asks for a text.
proof fn lemma_exists_text(
    comp: ComprehensionExpr,
    k: int,
    cond: CallExpr,
    at: usize,
    text: Seq<char>,
    l: Seq<Val>,
    s: Setting,
    p: Seq<usize>,
)
    requires
        loop_sound(comp, s),
        filter_tree_compiler::exists_condition(comp) == Some(k),
        comp.loop_step.expr->Call_0.args@[k].expr == Expr::Call(cond),
        filter_tree_compiler::loop_variable(comp, cond) == Some(at),
        comp.iter_var2 is None,
        filter_tree_compiler::op_of(cond) == Some(Operator::Equals),
        filter_tree_compiler::string_literal(cond.args@[1 - at].expr) == Some(text),
        semantics::eval_expr(comp.iter_range.expr, p.push(0), s.scope) == Ok::<Val, Fault>(
            Val::List(l),
        ),
    ensures
        agrees(
            semantics::eval_expr(Expr::Comprehension(Box::new(comp)), p, s.scope),
            l.contains(Val::String(text)),
        ),
{
    let c = s.scope;
    let q = to_arg(p.push(3), k);
    let hits = Seq::new(l.len(), |j: int| l[j] == Val::String(text));
    assert forall|j: int, b: bool| 0 <= j < l.len() implies agrees(
        #[trigger] semantics::eval_expr(Expr::Call(cond), q, round(comp, c, j, l[j], false, b)),
        hits[j],
    ) by {
        lemma_tested(comp, cond, at, c, j, l[j], false, b, q);
        lemma_condition_text(comp, cond, at, text, l[j], round(comp, c, j, l[j], false, b), q);
    }
    lemma_comprehension(comp, k, c, Val::List(l), l, hits, p);
    if hit_from(hits, 0) {
        let j = choose|j: int| 0 <= j < hits.len() && #[trigger] hits[j];
        assert(l[j] == Val::String(text));
    }
    if l.contains(Val::String(text)) {
        let j = choose|j: int| 0 <= j < l.len() && l[j] == Val::String(text);
        assert(hits[j]);
    }
}

/// An `exists` loop over a list of integers that asks for membership.
proof fn lemma_exists_among(
    comp: ComprehensionExpr,
    k: int,
    cond: CallExpr,
    at: usize,
    set: Seq<i64>,
    l: Seq<Val>,
    s: Setting,
    p: Seq<usize>,
)
    requires
        loop_sound(comp, s),
        filter_tree_compiler::exists_condition(comp) == Some(k),
        comp.loop_step.expr->Call_0.args@[k].expr == Expr::Call(cond),
        filter_tree_compiler::loop_variable(comp, cond) == Some(at),
        comp.iter_var2 is None,
        filter_tree_compiler::op_of(cond) == Some(Operator::In),
        cond.args@[1].expr matches Expr::List(list) && filter_tree_compiler::all_ints(
            list.elements@,
        ) == Some(set),
        semantics::eval_expr(comp.iter_range.expr, p.push(0), s.scope) == Ok::<Val, Fault>(
            Val::List(l),
        ),
        all_ints(l),
    ensures
        agrees(
            semantics::eval_expr(Expr::Comprehension(Box::new(comp)), p, s.scope),
            filter_tree::some_int_among(l, set),
        ),
{
    let c = s.scope;
    let q = to_arg(p.push(3), k);
    let hits = Seq::new(l.len(), |j: int| set.contains(l[j]->Int_0));
    assert forall|j: int, b: bool| 0 <= j < l.len() implies agrees(
        #[trigger] semantics::eval_expr(Expr::Call(cond), q, round(comp, c, j, l[j], false, b)),
        hits[j],
    ) by {
        lemma_tested(comp, cond, at, c, j, l[j], false, b, q);
        lemma_condition_in(comp, cond, at, set, l[j]->Int_0, round(comp, c, j, l[j], false, b), q);
    }
    lemma_comprehension(comp, k, c, Val::List(l), l, hits, p);
    if hit_from(hits, 0) {
        let j = choose|j: int| 0 <= j < hits.len() && #[trigger] hits[j];
        assert(l[j] matches Val::Int(i) && set.contains(i));
    }
    if filter_tree::some_int_among(l, set) {
        let j = choose|j: int|
            0 <= j < l.len() && (#[trigger] l[j] matches Val::Int(i) && set.contains(i));
        assert(hits[j]);
    }
}

/// An `exists` loop over the values of a map, which are integers, with a comparison.
proof fn lemma_exists_entry(
    comp: ComprehensionExpr,
    k: int,
    cond: CallExpr,
    at: usize,
    op: IntCmp,
    val: i64,
    m: Seq<(KeyVal, Val)>,
    s: Setting,
    p: Seq<usize>,
)
    requires
        loop_sound(comp, s),
        filter_tree_compiler::exists_condition(comp) == Some(k),
        comp.loop_step.expr->Call_0.args@[k].expr == Expr::Call(cond),
        filter_tree_compiler::loop_variable(comp, cond) == Some(at),
        comp.iter_var2 is Some,
        filter_tree_compiler::comparison(side_op(cond, at == 0)) == Some(op),
        filter_tree_compiler::int_literal(cond.args@[1 - at].expr) == Some(val),
        semantics::eval_expr(comp.iter_range.expr, p.push(0), s.scope) == Ok::<Val, Fault>(
            Val::Dict(m),
        ),
        forall|j: int| 0 <= j < m.len() ==> (#[trigger] m[j]).1 is Int,
    ensures
        agrees(
            semantics::eval_expr(Expr::Comprehension(Box::new(comp)), p, s.scope),
            filter_tree::some_entry_compares(m, op, val),
        ),
{
    let c = s.scope;
    let q = to_arg(p.push(3), k);
    let items = semantics::loop_items(Val::Dict(m))->0;
    let hits = Seq::new(m.len(), |j: int| filter_tree::compares(op, m[j].1->Int_0, val));
    assert forall|j: int, b: bool| 0 <= j < items.len() implies agrees(
        #[trigger] semantics::eval_expr(Expr::Call(cond), q, round(comp, c, j, items[j], true, b)),
        hits[j],
    ) by {
        assert(m[j].1 is Int);
        assert(items[j] == Val::List(seq![objects::key_value(m[j].0), m[j].1]));
        lemma_tested(comp, cond, at, c, j, items[j], true, b, q);
        lemma_condition_int(
            comp,
            cond,
            at,
            op,
            val,
            m[j].1->Int_0,
            round(comp, c, j, items[j], true, b),
            q,
        );
    }
    lemma_comprehension(comp, k, c, Val::Dict(m), items, hits, p);
    if hit_from(hits, 0) {
        let j = choose|j: int| 0 <= j < hits.len() && #[trigger] hits[j];
        assert(m[j].1 matches Val::Int(i) && filter_tree::compares(op, i, val));
    }
    if filter_tree::some_entry_compares(m, op, val) {
        let j = choose|j: int|
            0 <= j < m.len() && ((#[trigger] m[j]).1 matches Val::Int(i) && filter_tree::compares(
                op,
                i,
                val,
            ));
        assert(hits[j]);
    }
}

/// What a loop runs over has the value of its source.
proof fn lemma_source(comp: ComprehensionExpr, m: Seq<Seq<char>>, s: Setting, p: Seq<usize>)
    requires
        setting_ok(s),
        filter_tree_compiler::names_grow(s.names, m),
        loop_sound(comp, s),
        filter_tree_compiler::loop_source(m, comp.iter_range.expr).0 is Some,
        filter_tree_compiler::names_grow(filter_tree_compiler::loop_source(m, comp.iter_range.expr).1, s.last),
    ensures
        semantics::eval_expr(comp.iter_range.expr, p.push(0), s.scope) matches Ok(range) ==> (
        match filter_tree_compiler::loop_source(m, comp.iter_range.expr).0->0 {
            SourceModel::Var(idx) => range == filter_tree::var_at(s.vars, idx),
            SourceModel::Key(idx, key) => match filter_tree::var_at(s.vars, idx) {
                Val::Dict(d) => objects::dict_get(d, KeyVal::String(key)) == Some(range),
                v => !(v is Null),
            },
        }),
        filter_tree_compiler::loop_source(m, comp.iter_range.expr).0->0 is Key
            ==> comp.iter_range.expr is Call,
{
    let e = comp.iter_range.expr;
    let (key, n1) = filter_tree_compiler::map_key(m, e);
    match key {
        Some((idx, text)) => {
            let call = e->Call_0;
            assert(filter_tree_compiler::index_form(call) == Some((0int, 1int)));
            let x = call.args@[0].expr;
            assert(path_reads(call.args@[0].expr, s));
            lemma_operand(m, x, s, to_arg(p.push(0), 0));
            let k = CallKind::Index(false);
            assert(semantics::call_kind(filter_tree_compiler::op_of(call), 2) == k);
            assert(semantics::eval_expr(e, p.push(0), s.scope) == semantics::strict_result(
                k,
                semantics::eval_expr(x, to_arg(p.push(0), 0), s.scope),
                semantics::eval_expr(call.args@[1].expr, to_arg(p.push(0), 1), s.scope),
                s.scope.host,
            ));
            assert(semantics::eval_expr(
                call.args@[1].expr,
                to_arg(p.push(0), 1),
                s.scope,
            ) == Ok::<Val, Fault>(
                Val::String(text),
            ));
        },
        None => {
            match e {
                Expr::Call(call) => {
                    match filter_tree_compiler::index_form(call) {
                        Some((t, _)) => {
                            filter_tree_compiler::lemma_resolve(
                                m,
                                filter_tree_compiler::part(call, t),
                            );
                        },
                        None => {},
                    }
                },
                _ => {},
            }
            filter_tree_compiler::lemma_growth_chain(s.names, m, n1);
            lemma_operand(n1, e, s, p.push(0));
        },
    }
}

/// The compilation of an `exists` loop keeps its meaning.
proof fn lemma_exists(comp: ComprehensionExpr, m: Seq<Seq<char>>, s: Setting, p: Seq<usize>)
    requires
        setting_ok(s),
        filter_tree_compiler::names_grow(s.names, m),
        loop_sound(comp, s),
        ({
            let r = filter_tree_compiler::exists_test(m, comp);
            r.0 is Some && filter_tree_compiler::names_grow(r.1, s.last) && suits(r.0->0, s.vars)
        }),
    ensures
        agrees(
            semantics::eval_expr(Expr::Comprehension(Box::new(comp)), p, s.scope),
            filter_holds(filter_tree_compiler::exists_test(m, comp).0->0, s.vars),
        ),
{
    reveal(filter_tree_compiler::exists_test);
    let f = filter_tree_compiler::exists_test(m, comp).0->0;
    let source = filter_tree_compiler::loop_source(m, comp.iter_range.expr).0->0;
    let k = filter_tree_compiler::exists_condition(comp)->0;
    let cond = comp.loop_step.expr->Call_0.args@[k].expr->Call_0;
    let at = filter_tree_compiler::loop_variable(comp, cond)->0;
    lemma_source(comp, m, s, p);
    match semantics::eval_expr(comp.iter_range.expr, p.push(0), s.scope) {
        Err(_) => {
            lemma_no_items(comp, s.scope, p);
        },
        Ok(range) => {
            if !(range is List || range is Dict) {
                lemma_no_items(comp, s.scope, p);
            } else {
                match f {
                    Filt::ExistsInt(_, op, val) => {
                        lemma_exists_int(comp, k, cond, at, op, val, range->List_0, s, p);
                    },
                    Filt::ExistsText(_, text) => {
                        lemma_exists_text(comp, k, cond, at, text, range->List_0, s, p);
                    },
                    Filt::ExistsAmong(_, set) => {
                        lemma_exists_among(comp, k, cond, at, set, range->List_0, s, p);
                    },
                    Filt::ExistsEntry(_, op, val) => {
                        lemma_exists_entry(comp, k, cond, at, op, val, range->Dict_0, s, p);
                    },
                    Filt::KeyText(_, _, text) => {
                        lemma_exists_text(comp, k, cond, at, text, range->List_0, s, p);
                    },
                    Filt::KeyInt(_, _, op, val) => {
                        lemma_exists_int(comp, k, cond, at, op, val, range->List_0, s, p);
                    },
                    _ => {},
                }
            }
        },
    }
}

/// The compilation of an expression keeps its meaning.
proof fn lemma_filter(e: Expr, m: Seq<Seq<char>>, s: Setting, p: Seq<usize>)
    requires
        setting_ok(s),
        filter_tree_compiler::names_grow(s.names, m),
        sound(e, s),
        ({
            let r = filter_tree_compiler::filter_of(m, e, s.known);
            r.0 is Ok && filter_tree_compiler::names_grow(r.1, s.last) && suits(r.0->Ok_0, s.vars)
        }),
    ensures
        agrees(
            semantics::eval_expr(e, p, s.scope),
            filter_holds(filter_tree_compiler::filter_of(m, e, s.known).0->Ok_0, s.vars),
        ),
    decreases e,
{
    let (r, last) = filter_tree_compiler::filter_of(m, e, s.known);
    match e {
        Expr::Ident(name) => {
            lemma_operand(m, e, s, p);
        },
        Expr::Comprehension(comp) => {
            lemma_exists(*comp, m, s, p);
        },
        Expr::Call(call) => {
            let op = filter_tree_compiler::op_of(call);
            let any = op == Some(Operator::LogicalOr);
            if call.args@.len() == 2 && (any || op == Some(Operator::LogicalAnd)) {
                let l = call.args@[0].expr;
                let x = call.args@[1].expr;
                let (f, n) = filter_tree_compiler::merged_contains(m, any, e);
                if f is Some {
                    lemma_merged(any, e, m, s, p);
                } else {
                    filter_tree_compiler::lemma_merged_ok(m, any, e);
                    filter_tree_compiler::lemma_growth_chain(s.names, m, n);
                    let (a, n1) = filter_tree_compiler::filter_of(n, l, s.known);
                    let (b, n2) = filter_tree_compiler::filter_of(n1, x, s.known);
                    filter_tree_compiler::law_filter_in_range(n, l, s.known);
                    filter_tree_compiler::law_filter_in_range(n1, x, s.known);
                    filter_tree_compiler::lemma_growth_chain(s.names, n, n1);
                    filter_tree_compiler::lemma_growth_chain(n1, n2, s.last);
                    lemma_filter(l, n, s, to_arg(p, 0));
                    lemma_filter(x, n1, s, to_arg(p, 1));
                    assert(semantics::call_kind(op, 2) == CallKind::Logic(any));
                    assert(semantics::eval_expr(e, p, s.scope) == ops::logic_result(
                        any,
                        semantics::eval_expr(l, to_arg(p, 0), s.scope),
                        semantics::eval_expr(x, to_arg(p, 1), s.scope),
                    ));
                    lemma_logic(
                        any,
                        semantics::eval_expr(l, to_arg(p, 0), s.scope),
                        semantics::eval_expr(x, to_arg(p, 1), s.scope),
                        filter_holds(a->Ok_0, s.vars),
                        filter_holds(b->Ok_0, s.vars),
                    );
                }
            } else if op == Some(Operator::LogicalNot) && call.args@.len() == 1 {
                lemma_filter(call.args@[0].expr, m, s, to_arg(p, 0));
                assert(semantics::eval_expr(e, p, s.scope) == semantics::unary_result(
                    CallKind::Not,
                    semantics::eval_expr(call.args@[0].expr, to_arg(p, 0), s.scope),
                ));
            } else {
                lemma_test(call, m, s, p);
            }
        },
        _ => {},
    }
}

/// A compiled filter means what its expression means: where the expression has a value in
/// the scope of the variables, the tree says of them whether it is true. Its paths have to
/// stand for the variables of their names (`sound`), and the filter has to read the variables
/// right (`suits`).
pub proof fn law_tree_means(t: CompiledFilterTree, e: Expr, s: Setting)
    requires
        filter_tree_compiler::tree_of(Ok(t), s.names, e, s.known),
        s.last == objects::texts(t.var_names@),
        setting_ok(s),
        sound(e, s),
        filter_tree_compiler::filter_of(s.names, e, s.known).0 matches Ok(f) && suits(f, s.vars),
    ensures
        semantics::eval_expr(e, Seq::empty(), s.scope) matches Ok(v) ==> filter_tree::holds(
            *t.filter,
            s.vars,
        )
            == (v == Val::Bool(true)),
{
    let (f, n) = filter_tree_compiler::filter_of(s.names, e, s.known);
    let node = choose|node: FilterNode|
        #![trigger filter_tree_compiler::node_view(node)]
        f == Ok::<Filt, Seq<char>>(filter_tree_compiler::node_view(node)) && *t.filter
            == filter_tree::reordered(node);
    lemma_filter(e, s.names, s, Seq::empty());
    lemma_node_holds(node, s.vars);
    filter_tree::law_reordering_preserves(node, s.vars, Seq::empty(), Seq::empty(), 0);
}

/// The names of an environment hold no dot, and those that filters know name the standard
/// functions.
pub open spec fn tidy(e: EnvModel) -> bool {
    forall|i: int| 0 <= i < e.functions.len() ==> tidy_entry(#[trigger] e.functions[i])
}

pub open spec fn tidy_entry(f: (Seq<char>, Seq<Overload>)) -> bool {
    &&& !f.0.contains('.')
    &&& text_op(f.0) is Some ==> forall|j: int|
        0 <= j < f.1.len() ==> Some((#[trigger] f.1[j]).op) == text_op(f.0)
}

proof fn lemma_declare_tidy(e: EnvModel, name: Seq<char>, o: Overload)
    requires
        tidy(e),
        !name.contains('.'),
        text_op(name) is Some ==> Some(o.op) == text_op(name),
    ensures
        tidy(env::declare(e, name, o)),
{
    let s = env::overloads_of(e, name);
    let entry = (name, s.push(o));
    let names = env::keys(e.functions);
    assoc::lemma_lower_bound(names, name, 0);
    assert(tidy_entry(entry)) by {
        match assoc::position(names, name) {
            Some(i) => {
                assert(names[i] == e.functions[i].0);
                assert(tidy_entry(e.functions[i]));
            },
            None => {},
        }
    }
    if !decls::clashes(s, o) {
        let t = env::put(e.functions, name, s.push(o));
        assert forall|i: int| 0 <= i < t.len() implies tidy_entry(#[trigger] t[i]) by {
            let b = assoc::lower_bound(names, name, 0);
            if t[i] != entry {
                let k = if assoc::position(names, name) is Some || i < b {
                    i
                } else {
                    i - 1
                };
                assert(t[i] == e.functions[k]);
            }
        }
    }
}

proof fn lemma_first_accepting(s: Seq<Overload>, member: bool, args: Seq<Val>, from: int)
    ensures
        decls::first_accepting(s, member, args, from) matches Some(i) ==> 0 <= i < s.len(),
    decreases s.len() - from,
{
    if 0 <= from < s.len() && !decls::accepts(s[from], member, args) {
        lemma_first_accepting(s, member, args, from + 1);
    }
}

proof fn lemma_tidy_standard(c: Scope)
    requires
        tidy(c.env),
        c.functions == Seq::<Seq<char>>::empty(),
    ensures
        standard(c),
{
    assert forall|name: Seq<char>, member: bool, args: Seq<Val>|
        text_op(name) is Some && (#[trigger] env::find(c.env, name, member, args)) is Some implies
        env::find(c.env, name, member, args) == text_op(name) by {
        let names = env::keys(c.env.functions);
        assoc::lemma_lower_bound(names, name, 0);
        let i = assoc::position(names, name)->0;
        assert(names[i] == c.env.functions[i].0);
        assert(tidy_entry(c.env.functions[i]));
        lemma_first_accepting(c.env.functions[i].1, member, args, 0);
    }
    assert forall|prefix: Seq<char>, name: Seq<char>, args: Seq<Val>|
        text_op(name) is Some implies (#[trigger] env::find(
        c.env,
        semantics::qualified(prefix, name),
        false,
        args,
    )) is None by {
        let full = semantics::qualified(prefix, name);
        let names = env::keys(c.env.functions);
        assoc::lemma_lower_bound(names, full, 0);
        match assoc::position(names, full) {
            Some(i) => {
                assert(names[i] == c.env.functions[i].0);
                assert(tidy_entry(c.env.functions[i]));
                reveal_strlit(".");
                assert(full[prefix.len() as int] == '.');
            },
            None => {},
        }
    }
}

proof fn lemma_plain_name(name: Seq<char>)
    requires
        name == "timestamp"@ || name == "getFullYear"@ || name == "getMonth"@ || name
            == "getDayOfYear"@ || name == "getDayOfMonth"@ || name == "getDate"@ || name
            == "getDayOfWeek"@ || name == "getHours"@ || name == "getMinutes"@ || name
            == "getSeconds"@ || name == "getMilliseconds"@,
    ensures
        !name.contains('.'),
        text_op(name) is None,
{
    reveal_strlit("timestamp");
    reveal_strlit("getFullYear");
    reveal_strlit("getMonth");
    reveal_strlit("getDayOfYear");
    reveal_strlit("getDayOfMonth");
    reveal_strlit("getDate");
    reveal_strlit("getDayOfWeek");
    reveal_strlit("getHours");
    reveal_strlit("getMinutes");
    reveal_strlit("getSeconds");
    reveal_strlit("getMilliseconds");
    reveal_strlit("contains");
    reveal_strlit("startsWith");
    reveal_strlit("endsWith");
    reveal_strlit("matches");
    reveal_strlit("size");
    assert(name[0] == 't' || name[0] == 'g');
    assert("contains"@[0] == 'c' && "startsWith"@[0] == 's' && "size"@[0] == 's');
    assert("endsWith"@[0] == 'e' && "matches"@[0] == 'm');
}

proof fn lemma_known_name(name: Seq<char>)
    requires
        text_op(name) is Some,
    ensures
        !name.contains('.'),
{
    reveal_strlit("contains");
    reveal_strlit("startsWith");
    reveal_strlit("endsWith");
    reveal_strlit("matches");
    reveal_strlit("size");
}

proof fn lemma_strings_tidy()
    ensures
        tidy(env::with_strings(env::empty_env())),
{
    lemma_text_names();
    lemma_known_name("contains"@);
    lemma_known_name("startsWith"@);
    lemma_known_name("endsWith"@);
    lemma_known_name("matches"@);
    lemma_known_name("size"@);
    let two = seq![types::kind_type(Kind::String), types::kind_type(Kind::String)];
    let any = seq![types::kind_type(Kind::Dyn)];
    let e0 = env::empty_env();
    lemma_declare_tidy(
        e0,
        "contains"@,
        env::member_overload("contains_string"@, two, Function::Contains),
    );
    let e1 = env::declare_text(e0, "contains"@, "contains_string"@, Function::Contains);
    lemma_declare_tidy(
        e1,
        "startsWith"@,
        env::member_overload("starts_with_string"@, two, Function::StartsWith),
    );
    let e2 = env::declare_text(e1, "startsWith"@, "starts_with_string"@, Function::StartsWith);
    lemma_declare_tidy(
        e2,
        "endsWith"@,
        env::member_overload("ends_with_string"@, two, Function::EndsWith),
    );
    let e3 = env::declare_text(e2, "endsWith"@, "ends_with_string"@, Function::EndsWith);
    lemma_declare_tidy(
        e3,
        "matches"@,
        env::member_overload("matches_string"@, two, Function::Matches),
    );
    let e4 = env::declare_text(e3, "matches"@, "matches_string"@, Function::Matches);
    let o = env::free_overload("size_of"@, any, Function::Size);
    lemma_declare_tidy(e4, "size"@, o);
    lemma_declare_tidy(
        env::declare(e4, "size"@, o),
        "size"@,
        env::member_overload("size_of_member"@, any, Function::Size),
    );
}

proof fn lemma_text_names()
    ensures
        text_op("contains"@) == Some(Function::Contains),
        text_op("startsWith"@) == Some(Function::StartsWith),
        text_op("endsWith"@) == Some(Function::EndsWith),
        text_op("matches"@) == Some(Function::Matches),
        text_op("size"@) == Some(Function::Size),
{
    reveal_strlit("contains");
    reveal_strlit("startsWith");
    reveal_strlit("endsWith");
    reveal_strlit("matches");
    reveal_strlit("size");
    assert("contains"@[0] == 'c' && "startsWith"@[0] == 's');
    assert("endsWith"@[0] == 'e' && "matches"@[0] == 'm');
    assert("startsWith"@.len() == 10 && "size"@.len() == 4 && "size"@[0] == 's');
}

proof fn lemma_field_tidy(e: EnvModel, name: Seq<char>, id: Seq<char>, f: TimeField)
    requires
        tidy(e),
        !name.contains('.'),
        text_op(name) is None,
    ensures
        tidy(env::declare_field(e, name, id, f)),
{
    lemma_declare_tidy(
        e,
        name,
        env::member_overload(id, seq![types::kind_type(Kind::Timestamp)], Function::Field(f)),
    );
}

proof fn lemma_timestamps_tidy(e: EnvModel)
    requires
        tidy(e),
    ensures
        tidy(env::with_timestamps(e)),
{
    lemma_plain_name("timestamp"@);
    lemma_plain_name("getFullYear"@);
    lemma_plain_name("getMonth"@);
    lemma_plain_name("getDayOfYear"@);
    lemma_plain_name("getDayOfMonth"@);
    lemma_plain_name("getDate"@);
    lemma_plain_name("getDayOfWeek"@);
    lemma_plain_name("getHours"@);
    lemma_plain_name("getMinutes"@);
    lemma_plain_name("getSeconds"@);
    lemma_plain_name("getMilliseconds"@);
    let o1 = env::free_overload(
        "string_to_timestamp"@,
        seq![types::kind_type(Kind::String)],
        Function::ParseTimestamp,
    );
    lemma_declare_tidy(e, "timestamp"@, o1);
    let e = env::declare(e, "timestamp"@, o1);
    let o2 = env::free_overload(
        "timestamp_to_timestamp"@,
        seq![types::kind_type(Kind::Timestamp)],
        Function::Noop,
    );
    lemma_declare_tidy(e, "timestamp"@, o2);
    let e = env::declare(e, "timestamp"@, o2);
    let f = TimeField::FullYear;
    lemma_field_tidy(e, "getFullYear"@, "timestamp_to_year"@, f);
    let e = env::declare_field(e, "getFullYear"@, "timestamp_to_year"@, f);
    let f = TimeField::Month;
    lemma_field_tidy(e, "getMonth"@, "timestamp_to_month"@, f);
    let e = env::declare_field(e, "getMonth"@, "timestamp_to_month"@, f);
    let f = TimeField::DayOfYear;
    lemma_field_tidy(e, "getDayOfYear"@, "timestamp_to_day_of_year"@, f);
    let e = env::declare_field(e, "getDayOfYear"@, "timestamp_to_day_of_year"@, f);
    let f = TimeField::DayOfMonth;
    lemma_field_tidy(e, "getDayOfMonth"@, "timestamp_to_day_of_month"@, f);
    let e = env::declare_field(e, "getDayOfMonth"@, "timestamp_to_day_of_month"@, f);
    let f = TimeField::Date;
    lemma_field_tidy(e, "getDate"@, "timestamp_to_day_of_month_1_based"@, f);
    let e = env::declare_field(e, "getDate"@, "timestamp_to_day_of_month_1_based"@, f);
    let f = TimeField::DayOfWeek;
    lemma_field_tidy(e, "getDayOfWeek"@, "timestamp_to_day_of_week"@, f);
    let e = env::declare_field(e, "getDayOfWeek"@, "timestamp_to_day_of_week"@, f);
    let f = TimeField::Hours;
    lemma_field_tidy(e, "getHours"@, "timestamp_to_hours"@, f);
    let e = env::declare_field(e, "getHours"@, "timestamp_to_hours"@, f);
    let f = TimeField::Minutes;
    lemma_field_tidy(e, "getMinutes"@, "timestamp_to_minutes"@, f);
    let e = env::declare_field(e, "getMinutes"@, "timestamp_to_minutes"@, f);
    let f = TimeField::Seconds;
    lemma_field_tidy(e, "getSeconds"@, "timestamp_to_seconds"@, f);
    let e = env::declare_field(e, "getSeconds"@, "timestamp_to_seconds"@, f);
    lemma_field_tidy(e, "getMilliseconds"@, "timestamp_to_millis"@, TimeField::Millis);
}

/// In the default scope, whatever its variables and answers, the names that filters know
/// call the functions of the standard library.
pub proof fn law_default_standard(c: Scope)
    requires
        c.env == env::stdlib_env(),
        c.functions == context::default_scope().functions,
    ensures
        standard(c),
{
    lemma_strings_tidy();
    lemma_timestamps_tidy(env::with_strings(env::empty_env()));
    lemma_tidy_standard(c);
}

} // verus!
