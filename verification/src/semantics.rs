//! What expressions mean: the value or the fault that each gives in a scope.

use crate::common::ast;
use crate::common::ast::{
    CallExpr, ComprehensionExpr, EntryExpr, Expr, IdedEntryExpr, IdedExpr, LiteralValue, Operator,
};
use crate::common::functions;
use crate::common::functions::Function;
use crate::context;
use crate::context::Scope;
use crate::env;
use crate::error;
use crate::error::{Fault, Outcome, Req, Site};
use crate::objects;
use crate::objects::{KeyVal, Val};
use crate::ops;
use crate::ops::BinOp;
use vstd::prelude::*;

verus! {

/// The value of a constant.
pub open spec fn literal_value(l: LiteralValue) -> Val {
    match l {
        LiteralValue::Boolean(b) => Val::Bool(b),
        LiteralValue::Bytes(b) => Val::Bytes(b@),
        LiteralValue::Double(f) => Val::Float(f),
        LiteralValue::Int(i) => Val::Int(i),
        LiteralValue::Null => Val::Null,
        LiteralValue::String(s) => Val::String(s@),
        LiteralValue::UInt(u) => Val::UInt(u),
    }
}

/// The value of a variable, which has to be there.
pub open spec fn ident_result(c: Scope, name: Seq<char>) -> Outcome {
    match context::variable(c, name) {
        Some(v) => Ok(v),
        None => Err(Fault::UndeclaredReference(name)),
    }
}

/// A field of an operand, or whether it has it.
pub open spec fn select_result(operand: Outcome, field: Seq<char>, test: bool) -> Outcome {
    match operand {
        Err(e) => Err(e),
        Ok(v) => if test {
            Ok(Val::Bool(ops::field_result(v, field) is Ok))
        } else {
            ops::field_result(v, field)
        },
    }
}

/// One of two outcomes, by a condition.
pub open spec fn conditional_result(cond: Outcome, t: Outcome, f: Outcome) -> Outcome {
    match cond {
        Err(e) => Err(e),
        Ok(Val::Bool(b)) => if b {
            t
        } else {
            f
        },
        Ok(_) => Err(Fault::NoSuchOverload),
    }
}

/// How a call is evaluated, by its name and the number of its arguments.
#[derive(Clone, Copy, Debug, PartialEq, Eq, Structural)]
pub enum CallKind {
    Conditional,
    Not,
    Negate,
    NotStrictlyFalse,
    Logic(bool),
    Binary(BinOp),
    Index(bool),
    OptSelect,
    General,
}

/// The kind of a call.
pub open spec fn call_kind(op: Option<Operator>, arity: nat) -> CallKind {
    match op {
        Some(Operator::Conditional) => if arity == 3 {
            CallKind::Conditional
        } else {
            CallKind::General
        },
        Some(Operator::LogicalNot) => if arity == 1 {
            CallKind::Not
        } else {
            CallKind::General
        },
        Some(Operator::Negate) => if arity == 1 {
            CallKind::Negate
        } else {
            CallKind::General
        },
        Some(Operator::NotStrictlyFalse) => if arity == 1 {
            CallKind::NotStrictlyFalse
        } else {
            CallKind::General
        },
        Some(o) => if arity != 2 {
            CallKind::General
        } else {
            match o {
                Operator::LogicalOr => CallKind::Logic(true),
                Operator::LogicalAnd => CallKind::Logic(false),
                Operator::Equals => CallKind::Binary(BinOp::Equals),
                Operator::NotEquals => CallKind::Binary(BinOp::NotEquals),
                Operator::Less => CallKind::Binary(BinOp::Less),
                Operator::LessEquals => CallKind::Binary(BinOp::LessEquals),
                Operator::Greater => CallKind::Binary(BinOp::Greater),
                Operator::GreaterEquals => CallKind::Binary(BinOp::GreaterEquals),
                Operator::Add => CallKind::Binary(BinOp::Add),
                Operator::Substract => CallKind::Binary(BinOp::Sub),
                Operator::Multiply => CallKind::Binary(BinOp::Mul),
                Operator::Divide => CallKind::Binary(BinOp::Div),
                Operator::Modulo => CallKind::Binary(BinOp::Rem),
                Operator::In => CallKind::Binary(BinOp::In),
                Operator::Index => CallKind::Index(false),
                Operator::OptIndex => CallKind::Index(true),
                Operator::OptSelect => CallKind::OptSelect,
                _ => CallKind::General,
            }
        },
        None => CallKind::General,
    }
}

/// The kind of a call.
pub fn kind_of_call(op: Option<Operator>, arity: usize) -> (r: CallKind)
    ensures
        r == call_kind(op, arity as nat),
{
    match op {
        Some(Operator::Conditional) => if arity == 3 {
            CallKind::Conditional
        } else {
            CallKind::General
        },
        Some(Operator::LogicalNot) => if arity == 1 {
            CallKind::Not
        } else {
            CallKind::General
        },
        Some(Operator::Negate) => if arity == 1 {
            CallKind::Negate
        } else {
            CallKind::General
        },
        Some(Operator::NotStrictlyFalse) => if arity == 1 {
            CallKind::NotStrictlyFalse
        } else {
            CallKind::General
        },
        Some(o) => if arity != 2 {
            CallKind::General
        } else {
            match o {
                Operator::LogicalOr => CallKind::Logic(true),
                Operator::LogicalAnd => CallKind::Logic(false),
                Operator::Equals => CallKind::Binary(BinOp::Equals),
                Operator::NotEquals => CallKind::Binary(BinOp::NotEquals),
                Operator::Less => CallKind::Binary(BinOp::Less),
                Operator::LessEquals => CallKind::Binary(BinOp::LessEquals),
                Operator::Greater => CallKind::Binary(BinOp::Greater),
                Operator::GreaterEquals => CallKind::Binary(BinOp::GreaterEquals),
                Operator::Add => CallKind::Binary(BinOp::Add),
                Operator::Substract => CallKind::Binary(BinOp::Sub),
                Operator::Multiply => CallKind::Binary(BinOp::Mul),
                Operator::Divide => CallKind::Binary(BinOp::Div),
                Operator::Modulo => CallKind::Binary(BinOp::Rem),
                Operator::In => CallKind::Binary(BinOp::In),
                Operator::Index => CallKind::Index(false),
                Operator::OptIndex => CallKind::Index(true),
                Operator::OptSelect => CallKind::OptSelect,
                _ => CallKind::General,
            }
        },
        None => CallKind::General,
    }
}

/// An operator on one value.
pub open spec fn unary_result(kind: CallKind, v: Outcome) -> Outcome {
    match v {
        Err(e) => Err(e),
        Ok(x) => match kind {
            CallKind::Not => ops::not_result(x),
            CallKind::Negate => ops::negate_result(x),
            _ => Ok(ops::not_strictly_false(x)),
        },
    }
}

/// An operator on two values: the left one is evaluated first, and a fault ends it.
pub open spec fn strict_result(
    kind: CallKind,
    l: Outcome,
    r: Outcome,
    host: Seq<(Req, Outcome)>,
) -> Outcome {
    match (l, r) {
        (Err(e), _) => Err(e),
        (_, Err(e)) => Err(e),
        (Ok(a), Ok(b)) => match kind {
            CallKind::Binary(op) => ops::binary_result(op, a, b, host),
            CallKind::Index(optional) => ops::index_result(optional, a, b),
            _ => ops::opt_select_result(a, b),
        },
    }
}

/// A function that the scope knows by name, called by the host.
pub open spec fn host_result(
    c: Scope,
    p: Seq<usize>,
    name: Seq<char>,
    target: Option<Val>,
    args: Seq<Val>,
) -> Outcome {
    if c.functions.contains(name) {
        error::ask(c.host, Req::Call(context::site(c, p), name, target, args))
    } else {
        Err(Fault::UndeclaredReference(name))
    }
}

/// A call without a target.
pub open spec fn free_result(
    c: Scope,
    p: Seq<usize>,
    name: Seq<char>,
    args: Result<Seq<Val>, Fault>,
) -> Outcome {
    match args {
        Err(e) => Err(e),
        Ok(a) => match env::find(c.env, name, false, a) {
            Some(op) => functions::call_result(op, a, c.host, context::site(c, p)),
            None => host_result(c, p, name, None, a),
        },
    }
}

/// A call on a target.
pub open spec fn member_result(
    c: Scope,
    p: Seq<usize>,
    name: Seq<char>,
    target: Outcome,
    args: Result<Seq<Val>, Fault>,
) -> Outcome {
    match (target, args) {
        (Err(e), _) => Err(e),
        (_, Err(e)) => Err(e),
        (Ok(t), Ok(a)) => match env::find(c.env, name, true, seq![t] + a) {
            Some(op) => functions::call_result(op, seq![t] + a, c.host, context::site(c, p)),
            None => host_result(c, p, name, Some(t), a),
        },
    }
}

/// The name of a function in a namespace.
pub open spec fn qualified(prefix: Seq<char>, name: Seq<char>) -> Seq<char> {
    prefix + "."@ + name
}

/// A call on an identifier, which can be a namespace or a target: a function of the
/// qualified name comes first.
pub open spec fn qualified_result(
    c: Scope,
    p: Seq<usize>,
    full: Seq<char>,
    name: Seq<char>,
    target: Outcome,
    args: Result<Seq<Val>, Fault>,
) -> Outcome {
    match args {
        Err(e) => Err(e),
        Ok(a) => match env::find(c.env, full, false, a) {
            Some(op) => functions::call_result(op, a, c.host, context::site(c, p)),
            None => if c.functions.contains(full) {
                error::ask(c.host, Req::Call(context::site(c, p), full, None, a))
            } else {
                member_result(c, p, name, target, args)
            },
        },
    }
}

/// A call of an overload that was resolved ahead.
pub open spec fn resolved_result(
    op: Function,
    args: Result<Seq<Val>, Fault>,
    host: Seq<(Req, Outcome)>,
    site: Site,
) -> Outcome {
    match args {
        Err(e) => Err(e),
        Ok(a) => functions::call_result(op, a, host, site),
    }
}

/// A target and arguments, evaluated in that order.
pub open spec fn target_first(target: Outcome, args: Result<Seq<Val>, Fault>) -> Result<
    Seq<Val>,
    Fault,
> {
    match (target, args) {
        (Err(e), _) => Err(e),
        (_, Err(e)) => Err(e),
        (Ok(t), Ok(a)) => Ok(seq![t] + a),
    }
}

/// One more value at the end.
pub open spec fn then_value(before: Result<Seq<Val>, Fault>, v: Outcome) -> Result<
    Seq<Val>,
    Fault,
> {
    match (before, v) {
        (Err(e), _) => Err(e),
        (_, Err(e)) => Err(e),
        (Ok(s), Ok(x)) => Ok(s.push(x)),
    }
}

/// One more element of a list; an optional element is there only where it holds a value.
pub open spec fn then_element(before: Result<Seq<Val>, Fault>, v: Outcome, optional: bool) -> Result<
    Seq<Val>,
    Fault,
> {
    match (before, v) {
        (Err(e), _) => Err(e),
        (_, Err(e)) => Err(e),
        (Ok(s), Ok(x)) => match x {
            Val::Optional(o) => if optional {
                match o {
                    Some(y) => Ok(s.push(*y)),
                    None => Ok(s),
                }
            } else {
                Ok(s.push(x))
            },
            _ => Ok(s.push(x)),
        },
    }
}

/// One more entry of a map; an optional entry is there only where its value holds one.
pub open spec fn then_entry(
    before: Result<Seq<(KeyVal, Val)>, Fault>,
    k: Outcome,
    v: Outcome,
    optional: bool,
) -> Result<Seq<(KeyVal, Val)>, Fault> {
    match before {
        Err(e) => Err(e),
        Ok(s) => match (k, v) {
            (Err(e), _) => Err(e),
            (_, Err(e)) => Err(e),
            (Ok(kv), Ok(x)) => match objects::key_of(kv) {
                None => Err(Fault::UnsupportedKeyType(kv)),
                Some(key) => match x {
                    Val::Optional(o) => if optional {
                        match o {
                            Some(y) => Ok(objects::dict_insert(s, key, *y)),
                            None => Ok(s),
                        }
                    } else {
                        Ok(objects::dict_insert(s, key, x))
                    },
                    _ => Ok(objects::dict_insert(s, key, x)),
                },
            },
        },
    }
}

/// One more field of a struct; an optional field is left out where its value is null.
pub open spec fn then_field(
    before: Result<Seq<(Seq<char>, Val)>, Fault>,
    field: Seq<char>,
    v: Outcome,
    optional: bool,
) -> Result<Seq<(Seq<char>, Val)>, Fault> {
    match (before, v) {
        (Err(e), _) => Err(e),
        (_, Err(e)) => Err(e),
        (Ok(s), Ok(x)) => if optional && x == Val::Null {
            Ok(s)
        } else {
            Ok(env::put(s, field, x))
        },
    }
}

/// A struct of a type of the scope.
pub open spec fn struct_result(
    c: Scope,
    name: Seq<char>,
    fields: Result<Seq<(Seq<char>, Val)>, Fault>,
) -> Outcome {
    match env::lookup(c.env.structs, name) {
        None => Err(Fault::UnexpectedType(name, "known struct"@)),
        Some(def) => match fields {
            Err(e) => Err(e),
            Ok(given) => env::struct_made(def, given),
        },
    }
}

/// The items that a loop runs over: the items of a list, or pairs of key and value.
pub open spec fn loop_items(v: Val) -> Option<Seq<Val>> {
    match v {
        Val::List(l) => Some(l),
        Val::Dict(m) => Some(
            m.map_values(
                |e: (KeyVal, Val)| Val::List(seq![objects::key_value(e.0), e.1]),
            ),
        ),
        _ => None,
    }
}

/// The scope of one round of a loop: one variable takes the item, or the key of an entry;
/// two take the halves of a pair.
pub open spec fn bind_item(
    c: Scope,
    var: Seq<char>,
    var2: Option<Seq<char>>,
    is_map: bool,
    item: Val,
) -> Scope {
    match var2 {
        Some(v2) => match item {
            Val::List(p) => if p.len() >= 2 {
                context::bind(context::bind(c, var, p[0]), v2, p[1])
            } else {
                context::bind(context::bind(c, var, item), v2, Val::Null)
            },
            _ => context::bind(context::bind(c, var, item), v2, Val::Null),
        },
        None => match item {
            Val::List(p) => if is_map && p.len() >= 2 {
                context::bind(c, var, p[0])
            } else {
                context::bind(c, var, item)
            },
            _ => context::bind(c, var, item),
        },
    }
}

/// The text of an optional name.
pub open spec fn opt_name(o: Option<String>) -> Option<Seq<char>> {
    match o {
        Some(s) => Some(s@),
        None => None,
    }
}

/// The way to the target of a call, or to the operand of a field.
pub open spec fn to_target(p: Seq<usize>) -> Seq<usize> {
    p.push(0)
}

/// The way to an argument of a call, to an element of a list or to an entry.
pub open spec fn to_arg(p: Seq<usize>, i: int) -> Seq<usize> {
    p.push((i + 1) as usize)
}

/// What an expression means in a scope. The way to it from the root of its expression tells
/// its calls of registered functions from others.
pub open spec fn eval_expr(e: Expr, p: Seq<usize>, c: Scope) -> Outcome
    decreases e, 0int,
{
    match e {
        Expr::Unspecified => Ok(Val::Null),
        Expr::Literal(l) => Ok(literal_value(l)),
        Expr::Ident(name) => ident_result(c, name@),
        Expr::Select(s) => select_result(
            eval_expr(s.operand.expr, to_target(p), c),
            s.field@,
            s.test,
        ),
        Expr::Call(call) => match call_kind(
            ast::operator_of(call.func_name@),
            call.args@.len(),
        ) {
            CallKind::Conditional => conditional_result(
                eval_expr(call.args@[0].expr, to_arg(p, 0), c),
                eval_expr(call.args@[1].expr, to_arg(p, 1), c),
                eval_expr(call.args@[2].expr, to_arg(p, 2), c),
            ),
            CallKind::Not => unary_result(
                CallKind::Not,
                eval_expr(call.args@[0].expr, to_arg(p, 0), c),
            ),
            CallKind::Negate => unary_result(
                CallKind::Negate,
                eval_expr(call.args@[0].expr, to_arg(p, 0), c),
            ),
            CallKind::NotStrictlyFalse => unary_result(
                CallKind::NotStrictlyFalse,
                eval_expr(call.args@[0].expr, to_arg(p, 0), c),
            ),
            CallKind::Logic(decided) => ops::logic_result(
                decided,
                eval_expr(call.args@[0].expr, to_arg(p, 0), c),
                eval_expr(call.args@[1].expr, to_arg(p, 1), c),
            ),
            CallKind::General => match call.target {
                None => match call.resolved_op {
                    Some(op) => resolved_result(
                        op,
                        eval_args(call.args@, p, c),
                        c.host,
                        context::site(c, p),
                    ),
                    None => free_result(c, p, call.func_name@, eval_args(call.args@, p, c)),
                },
                Some(target) => match target.expr {
                    Expr::Ident(prefix) => match call.resolved_op {
                        Some(op) => resolved_result(
                            op,
                            target_first(
                                eval_expr(target.expr, to_target(p), c),
                                eval_args(call.args@, p, c),
                            ),
                            c.host,
                            context::site(c, p),
                        ),
                        None => qualified_result(
                            c,
                            p,
                            qualified(prefix@, call.func_name@),
                            call.func_name@,
                            eval_expr(target.expr, to_target(p), c),
                            eval_args(call.args@, p, c),
                        ),
                    },
                    _ => member_result(
                        c,
                        p,
                        call.func_name@,
                        eval_expr(target.expr, to_target(p), c),
                        eval_args(call.args@, p, c),
                    ),
                },
            },
            kind => strict_result(
                kind,
                eval_expr(call.args@[0].expr, to_arg(p, 0), c),
                eval_expr(call.args@[1].expr, to_arg(p, 1), c),
                c.host,
            ),
        },
        Expr::List(l) => match eval_elements(l.elements@, p, l.optional_indices@, c) {
            Ok(s) => Ok(Val::List(s)),
            Err(e) => Err(e),
        },
        Expr::Dict(m) => match eval_entries(m.entries@, p, c) {
            Ok(s) => Ok(Val::Dict(s)),
            Err(e) => Err(e),
        },
        Expr::Struct(s) => struct_result(c, s.name@, eval_fields(s.entries@, p, c)),
        Expr::Comprehension(comp) => match eval_expr(comp.accu_init.expr, p.push(1), c) {
            Err(e) => Err(e),
            Ok(init) => match eval_expr(comp.iter_range.expr, p.push(0), c) {
                Err(e) => Err(e),
                Ok(range) => match loop_items(range) {
                    None => Err(Fault::NoSuchOverload),
                    Some(items) => match eval_loop(*comp, p, c, items, range is Dict, 0, init) {
                        Err(e) => Err(e),
                        Ok(accu) => eval_expr(
                            comp.result.expr,
                            p.push(4),
                            context::bind(c, comp.accu_var@, accu),
                        ),
                    },
                },
            },
        },
    }
}

/// The values of a run of expressions.
pub open spec fn eval_args(s: Seq<IdedExpr>, p: Seq<usize>, c: Scope) -> Result<Seq<Val>, Fault>
    decreases s, 0int,
{
    if s.len() == 0 {
        Ok(Seq::empty())
    } else {
        then_value(
            eval_args(s.drop_last(), p, c),
            eval_expr(s.last().expr, to_arg(p, s.len() - 1), c),
        )
    }
}

/// The elements of a list.
pub open spec fn eval_elements(
    s: Seq<IdedExpr>,
    p: Seq<usize>,
    optional: Seq<usize>,
    c: Scope,
) -> Result<
    Seq<Val>,
    Fault,
>
    decreases s, 0int,
{
    if s.len() == 0 {
        Ok(Seq::empty())
    } else {
        then_element(
            eval_elements(s.drop_last(), p, optional, c),
            eval_expr(s.last().expr, to_arg(p, s.len() - 1), c),
            optional.contains((s.len() - 1) as usize),
        )
    }
}

/// The entries of a map.
pub open spec fn eval_entries(s: Seq<IdedEntryExpr>, p: Seq<usize>, c: Scope) -> Result<
    Seq<(KeyVal, Val)>,
    Fault,
>
    decreases s, 0int,
{
    if s.len() == 0 {
        Ok(Seq::empty())
    } else {
        match s.last().expr {
            EntryExpr::MapEntry(m) => then_entry(
                eval_entries(s.drop_last(), p, c),
                eval_expr(m.key.expr, to_arg(p, s.len() - 1).push(0), c),
                eval_expr(m.value.expr, to_arg(p, s.len() - 1).push(1), c),
                m.optional,
            ),
            EntryExpr::StructField(_) => eval_entries(s.drop_last(), p, c),
        }
    }
}

/// The fields of a struct.
pub open spec fn eval_fields(s: Seq<IdedEntryExpr>, p: Seq<usize>, c: Scope) -> Result<
    Seq<(Seq<char>, Val)>,
    Fault,
>
    decreases s, 0int,
{
    if s.len() == 0 {
        Ok(Seq::empty())
    } else {
        match s.last().expr {
            EntryExpr::StructField(f) => then_field(
                eval_fields(s.drop_last(), p, c),
                f.field@,
                eval_expr(f.value.expr, to_arg(p, s.len() - 1), c),
                f.optional,
            ),
            EntryExpr::MapEntry(_) => eval_fields(s.drop_last(), p, c),
        }
    }
}

/// A loop from round `i` on. It ends where the condition is not true, or after the last
/// item.
pub open spec fn eval_loop(
    comp: ComprehensionExpr,
    p: Seq<usize>,
    c: Scope,
    items: Seq<Val>,
    is_map: bool,
    i: int,
    accu: Val,
) -> Outcome
    decreases comp, items.len() - i,
{
    if i < 0 || i >= items.len() {
        Ok(accu)
    } else {
        let inner = context::bind(
            bind_item(
                context::in_round(c, i as usize),
                comp.iter_var@,
                opt_name(comp.iter_var2),
                is_map,
                items[i],
            ),
            comp.accu_var@,
            accu,
        );
        match eval_expr(comp.loop_cond.expr, p.push(2), inner) {
            Err(e) => Err(e),
            Ok(Val::Bool(true)) => match eval_expr(comp.loop_step.expr, p.push(3), inner) {
                Err(e) => Err(e),
                Ok(next) => eval_loop(comp, p, c, items, is_map, i + 1, next),
            },
            Ok(_) => Ok(accu),
        }
    }
}

/// An outcome that waits for the host.
pub open spec fn waits(o: Outcome) -> bool {
    o matches Err(Fault::HostNeeded(_))
}

/// Values that wait for the host.
pub open spec fn args_wait<T>(r: Result<T, Fault>) -> bool {
    r matches Err(Fault::HostNeeded(_))
}

/// The answers of `b` are those of `a`, and perhaps more.
pub open spec fn more_answers(a: Seq<(Req, Outcome)>, b: Seq<(Req, Outcome)>) -> bool {
    forall|q: Req| !waits(#[trigger] error::ask(a, q)) ==> error::ask(b, q) == error::ask(a, q)
}

/// A scope with other answers.
pub open spec fn answered(c: Scope, host: Seq<(Req, Outcome)>) -> Scope {
    Scope { host, ..c }
}

/// A table to which an answer was added has the answers that it had.
pub proof fn law_answer_added(t: Seq<(Req, Outcome)>, req: Req, o: Outcome)
    ensures
        more_answers(t, t.push((req, o))),
{
    assert forall|q: Req| !waits(#[trigger] error::ask(t, q)) implies error::ask(
        t.push((req, o)),
        q,
    ) == error::ask(t, q) by {
        error::law_answers_accumulate(t, req, o, q);
    }
}

proof fn lemma_binary_stable(
    op: BinOp,
    l: Val,
    r: Val,
    a: Seq<(Req, Outcome)>,
    b: Seq<(Req, Outcome)>,
)
    requires
        more_answers(a, b),
        !waits(ops::binary_result(op, l, r, a)),
    ensures
        ops::binary_result(op, l, r, b) == ops::binary_result(op, l, r, a),
{
}

proof fn lemma_call_stable(
    f: Function,
    args: Seq<Val>,
    a: Seq<(Req, Outcome)>,
    b: Seq<(Req, Outcome)>,
    site: Site,
)
    requires
        more_answers(a, b),
        !waits(functions::call_result(f, args, a, site)),
    ensures
        functions::call_result(f, args, b, site) == functions::call_result(f, args, a, site),
{
}

proof fn lemma_find_stable(
    c: Scope,
    p: Seq<usize>,
    name: Seq<char>,
    target: Option<Val>,
    member: bool,
    full: Seq<Val>,
    args: Seq<Val>,
    host: Seq<(Req, Outcome)>,
)
    requires
        more_answers(c.host, host),
    ensures
        env::find(c.env, name, member, full) matches Some(op) ==> !waits(
            functions::call_result(op, full, c.host, context::site(c, p)),
        ) ==> functions::call_result(op, full, host, context::site(c, p)) == functions::call_result(
            op,
            full,
            c.host,
            context::site(c, p),
        ),
        !waits(host_result(c, p, name, target, args)) ==> host_result(
            answered(c, host),
            p,
            name,
            target,
            args,
        ) == host_result(c, p, name, target, args),
{
    match env::find(c.env, name, member, full) {
        Some(op) => {
            if !waits(functions::call_result(op, full, c.host, context::site(c, p))) {
                lemma_call_stable(op, full, c.host, host, context::site(c, p));
            }
        },
        None => {},
    }
}

/// An answer to a call of a registered function counts where that call stands: what a call
/// gives elsewhere, be it of the same function and on the same arguments, stays as it is. The
/// first answer to a call is what it gives.
pub proof fn law_answer_counts_once(
    c: Scope,
    at: Seq<usize>,
    elsewhere: Scope,
    p: Seq<usize>,
    name: Seq<char>,
    target: Option<Val>,
    args: Seq<Val>,
    o: Outcome,
)
    requires
        c.functions.contains(name),
        elsewhere.host == c.host,
        context::site(elsewhere, p) != context::site(c, at),
        error::answer_from(c.host, Req::Call(context::site(c, at), name, target, args), 0) is None,
    ensures
        ({
            let q = Req::Call(context::site(c, at), name, target, args);
            let host = c.host.push((q, o));
            &&& host_result(answered(c, host), at, name, target, args) == o
            &&& host_result(answered(elsewhere, host), p, name, target, args) == host_result(
                elsewhere,
                p,
                name,
                target,
                args,
            )
        }),
{
    let q = Req::Call(context::site(c, at), name, target, args);
    let r = Req::Call(context::site(elsewhere, p), name, target, args);
    error::law_answers_accumulate(c.host, q, o, r);
}

/// An evaluation that has its result, a value or a fault, has the same one when more answers
/// of the host are known: only what waits for the host changes.
pub proof fn law_answers_keep(e: Expr, p: Seq<usize>, c: Scope, host: Seq<(Req, Outcome)>)
    requires
        more_answers(c.host, host),
        !waits(eval_expr(e, p, c)),
    ensures
        eval_expr(e, p, answered(c, host)) == eval_expr(e, p, c),
    decreases e, 0int,
{
    let d = answered(c, host);
    match e {
        Expr::Select(s) => {
            law_answers_keep(s.operand.expr, to_target(p), c, host);
        },
        Expr::Call(call) => {
            lemma_call_keeps(call, p, c, host);
        },
        Expr::List(l) => {
            lemma_elements_keep(l.elements@, p, l.optional_indices@, c, host);
        },
        Expr::Dict(m) => {
            lemma_entries_keep(m.entries@, p, c, host);
        },
        Expr::Struct(s) => {
            if env::lookup(c.env.structs, s.name@) is Some {
                lemma_fields_keep(s.entries@, p, c, host);
            }
        },
        Expr::Comprehension(comp) => {
            law_answers_keep(comp.accu_init.expr, p.push(1), c, host);
            match eval_expr(comp.accu_init.expr, p.push(1), c) {
                Err(_) => {},
                Ok(init) => {
                    law_answers_keep(comp.iter_range.expr, p.push(0), c, host);
                    match eval_expr(comp.iter_range.expr, p.push(0), c) {
                        Err(_) => {},
                        Ok(range) => {
                            match loop_items(range) {
                                None => {},
                                Some(items) => {
                                    let done = eval_loop(
                                        *comp,
                                        p,
                                        c,
                                        items,
                                        range is Dict,
                                        0,
                                        init,
                                    );
                                    lemma_loop_keeps(
                                        *comp,
                                        p,
                                        c,
                                        items,
                                        range is Dict,
                                        0,
                                        init,
                                        host,
                                    );
                                    match done {
                                        Err(_) => {},
                                        Ok(accu) => {
                                            law_answers_keep(
                                                comp.result.expr,
                                                p.push(4),
                                                context::bind(c, comp.accu_var@, accu),
                                                host,
                                            );
                                            assert(answered(
                                                context::bind(c, comp.accu_var@, accu),
                                                host,
                                            ) == context::bind(d, comp.accu_var@, accu));
                                        },
                                    }
                                },
                            }
                        },
                    }
                },
            }
        },
        _ => {},
    }
}

proof fn lemma_call_keeps(call: CallExpr, p: Seq<usize>, c: Scope, host: Seq<(Req, Outcome)>)
    requires
        more_answers(c.host, host),
        !waits(eval_expr(Expr::Call(call), p, c)),
    ensures
        eval_expr(Expr::Call(call), p, answered(c, host)) == eval_expr(Expr::Call(call), p, c),
    decreases call, 1int,
{
    let d = answered(c, host);
    let kind = call_kind(ast::operator_of(call.func_name@), call.args@.len());
    match kind {
        CallKind::Conditional => {
            law_answers_keep(call.args@[0].expr, to_arg(p, 0), c, host);
            match eval_expr(call.args@[0].expr, to_arg(p, 0), c) {
                Ok(Val::Bool(b)) => {
                    if b {
                        law_answers_keep(call.args@[1].expr, to_arg(p, 1), c, host);
                    } else {
                        law_answers_keep(call.args@[2].expr, to_arg(p, 2), c, host);
                    }
                },
                _ => {},
            }
        },
        CallKind::Not | CallKind::Negate | CallKind::NotStrictlyFalse => {
            law_answers_keep(call.args@[0].expr, to_arg(p, 0), c, host);
        },
        CallKind::Logic(decided) => {
            let l = eval_expr(call.args@[0].expr, to_arg(p, 0), c);
            if !waits(l) {
                law_answers_keep(call.args@[0].expr, to_arg(p, 0), c, host);
            }
            if !(l == Ok::<Val, Fault>(Val::Bool(decided))) {
                law_answers_keep(call.args@[1].expr, to_arg(p, 1), c, host);
            }
        },
        CallKind::General => {
            lemma_general_keeps(call, p, c, host);
        },
        _ => {
            let l = eval_expr(call.args@[0].expr, to_arg(p, 0), c);
            law_answers_keep(call.args@[0].expr, to_arg(p, 0), c, host);
            if l is Ok {
                let r = eval_expr(call.args@[1].expr, to_arg(p, 1), c);
                law_answers_keep(call.args@[1].expr, to_arg(p, 1), c, host);
                match (kind, r) {
                    (CallKind::Binary(op), Ok(x)) => {
                        lemma_binary_stable(op, l->Ok_0, x, c.host, host);
                    },
                    _ => {},
                }
            }
        },
    }
}

proof fn lemma_general_keeps(call: CallExpr, p: Seq<usize>, c: Scope, host: Seq<(Req, Outcome)>)
    requires
        more_answers(c.host, host),
        call_kind(ast::operator_of(call.func_name@), call.args@.len()) == CallKind::General,
        !waits(eval_expr(Expr::Call(call), p, c)),
    ensures
        eval_expr(Expr::Call(call), p, answered(c, host)) == eval_expr(Expr::Call(call), p, c),
    decreases call, 0int,
{
    let name = call.func_name@;
    let args = eval_args(call.args@, p, c);
    if !args_wait(args) {
        lemma_args_keep(call.args@, p, c, host);
    }
    match call.target {
        None => {
            match args {
                Ok(a) => {
                    match call.resolved_op {
                        Some(op) => {
                            lemma_call_stable(op, a, c.host, host, context::site(c, p));
                        },
                        None => {
                            lemma_find_stable(c, p, name, None, false, a, a, host);
                        },
                    }
                },
                Err(_) => {},
            }
        },
        Some(t) => {
            let target = eval_expr(t.expr, to_target(p), c);
            if !waits(target) {
                law_answers_keep(t.expr, to_target(p), c, host);
            }
            match (target, args) {
                (Ok(x), Ok(a)) => {
                    lemma_find_stable(c, p, name, Some(x), true, seq![x] + a, a, host);
                    match call.resolved_op {
                        Some(op) => {
                            if t.expr is Ident {
                                lemma_call_stable(
                                    op,
                                    seq![x] + a,
                                    c.host,
                                    host,
                                    context::site(c, p),
                                );
                            }
                        },
                        None => {},
                    }
                },
                _ => {},
            }
            match (t.expr, args) {
                (Expr::Ident(prefix), Ok(a)) => {
                    let full = qualified(prefix@, name);
                    lemma_find_stable(c, p, full, None, false, a, a, host);
                },
                _ => {},
            }
        },
    }
}

proof fn lemma_args_keep(s: Seq<IdedExpr>, p: Seq<usize>, c: Scope, host: Seq<(Req, Outcome)>)
    requires
        more_answers(c.host, host),
        !args_wait(eval_args(s, p, c)),
    ensures
        eval_args(s, p, answered(c, host)) == eval_args(s, p, c),
    decreases s, 0int,
{
    if s.len() > 0 {
        lemma_args_keep(s.drop_last(), p, c, host);
        if eval_args(s.drop_last(), p, c) is Ok {
            law_answers_keep(s.last().expr, to_arg(p, s.len() - 1), c, host);
        }
    }
}

proof fn lemma_elements_keep(
    s: Seq<IdedExpr>,
    p: Seq<usize>,
    optional: Seq<usize>,
    c: Scope,
    host: Seq<(Req, Outcome)>,
)
    requires
        more_answers(c.host, host),
        !args_wait(eval_elements(s, p, optional, c)),
    ensures
        eval_elements(s, p, optional, answered(c, host)) == eval_elements(s, p, optional, c),
    decreases s, 0int,
{
    if s.len() > 0 {
        lemma_elements_keep(s.drop_last(), p, optional, c, host);
        if eval_elements(s.drop_last(), p, optional, c) is Ok {
            law_answers_keep(s.last().expr, to_arg(p, s.len() - 1), c, host);
        }
    }
}

proof fn lemma_entries_keep(
    s: Seq<IdedEntryExpr>,
    p: Seq<usize>,
    c: Scope,
    host: Seq<(Req, Outcome)>,
)
    requires
        more_answers(c.host, host),
        !args_wait(eval_entries(s, p, c)),
    ensures
        eval_entries(s, p, answered(c, host)) == eval_entries(s, p, c),
    decreases s, 0int,
{
    if s.len() > 0 {
        lemma_entries_keep(s.drop_last(), p, c, host);
        match s.last().expr {
            EntryExpr::MapEntry(m) => {
                if eval_entries(s.drop_last(), p, c) is Ok {
                    law_answers_keep(m.key.expr, to_arg(p, s.len() - 1).push(0), c, host);
                    if eval_expr(m.key.expr, to_arg(p, s.len() - 1).push(0), c) is Ok {
                        law_answers_keep(m.value.expr, to_arg(p, s.len() - 1).push(1), c, host);
                    }
                }
            },
            EntryExpr::StructField(_) => {},
        }
    }
}

proof fn lemma_fields_keep(
    s: Seq<IdedEntryExpr>,
    p: Seq<usize>,
    c: Scope,
    host: Seq<(Req, Outcome)>,
)
    requires
        more_answers(c.host, host),
        !args_wait(eval_fields(s, p, c)),
    ensures
        eval_fields(s, p, answered(c, host)) == eval_fields(s, p, c),
    decreases s, 0int,
{
    if s.len() > 0 {
        lemma_fields_keep(s.drop_last(), p, c, host);
        match s.last().expr {
            EntryExpr::StructField(f) => {
                if eval_fields(s.drop_last(), p, c) is Ok {
                    law_answers_keep(f.value.expr, to_arg(p, s.len() - 1), c, host);
                }
            },
            EntryExpr::MapEntry(_) => {},
        }
    }
}

proof fn lemma_loop_keeps(
    comp: ComprehensionExpr,
    p: Seq<usize>,
    c: Scope,
    items: Seq<Val>,
    is_map: bool,
    i: int,
    accu: Val,
    host: Seq<(Req, Outcome)>,
)
    requires
        more_answers(c.host, host),
        !waits(eval_loop(comp, p, c, items, is_map, i, accu)),
    ensures
        eval_loop(comp, p, answered(c, host), items, is_map, i, accu) == eval_loop(
            comp,
            p,
            c,
            items,
            is_map,
            i,
            accu,
        ),
    decreases comp, items.len() - i,
{
    if 0 <= i < items.len() {
        let d = answered(c, host);
        let v2 = opt_name(comp.iter_var2);
        let inner = context::bind(
            bind_item(context::in_round(c, i as usize), comp.iter_var@, v2, is_map, items[i]),
            comp.accu_var@,
            accu,
        );
        assert(answered(inner, host) == context::bind(
            bind_item(context::in_round(d, i as usize), comp.iter_var@, v2, is_map, items[i]),
            comp.accu_var@,
            accu,
        ));
        law_answers_keep(comp.loop_cond.expr, p.push(2), inner, host);
        if eval_expr(comp.loop_cond.expr, p.push(2), inner) == Ok::<Val, Fault>(Val::Bool(true)) {
            law_answers_keep(comp.loop_step.expr, p.push(3), inner, host);
            match eval_expr(comp.loop_step.expr, p.push(3), inner) {
                Ok(next) => {
                    lemma_loop_keeps(comp, p, c, items, is_map, i + 1, next, host);
                },
                Err(_) => {},
            }
        }
    }
}

/// A conjunction is false exactly where an operand is, and true exactly where both are; a
/// disjunction is true exactly where an operand is, and false exactly where both are. In
/// every other case there is no value, whatever the operands come to.
pub proof fn law_logic_call(call: CallExpr, p: Seq<usize>, c: Scope, decided: bool)
    requires
        call_kind(ast::operator_of(call.func_name@), call.args@.len()) == CallKind::Logic(decided),
    ensures
        ({
            let l = eval_expr(call.args@[0].expr, to_arg(p, 0), c);
            let r = eval_expr(call.args@[1].expr, to_arg(p, 1), c);
            let o = eval_expr(Expr::Call(call), p, c);
            let yes = Ok::<Val, Fault>(Val::Bool(decided));
            let no = Ok::<Val, Fault>(Val::Bool(!decided));
            &&& o == yes <==> (l == yes || r == yes)
            &&& o == no <==> (l == no && r == no)
            &&& o == yes || o == no || o is Err
        }),
{
    ops::law_logic_decides(
        decided,
        eval_expr(call.args@[0].expr, to_arg(p, 0), c),
        eval_expr(call.args@[1].expr, to_arg(p, 1), c),
    );
}

} // verus!
