//! The compiler from expressions to closures.
//!
//! An expression is walked once, and all its logic captured: operators are told apart,
//! literals made into values, and names of functions joined. The closure is then called in
//! many contexts.

use crate::common::ast;
use crate::common::ast::{
    CallExpr, ComprehensionExpr, EntryExpr, Expr, Expression, IdedExpr, ListExpr, LiteralValue,
    MapExpr, SelectExpr, StructExpr,
};
use crate::common::functions;
use crate::common::functions::Function;
use crate::context;
use crate::context::{Context, Scope};
use crate::env;
use crate::error;
use crate::error::{CallSite, ExecutionError, Fault, HostRequest, Outcome};
use crate::objects;
use crate::objects::{KeyVal, Val, Value, ValueMap};
use crate::ops;
use crate::semantics;
use crate::semantics::{CallKind, to_arg, to_target};
use std::sync::Arc;
use vstd::prelude::*;
use vstd::string::*;

verus! {

/// A compiled expression.
#[derive(Debug)]
pub enum ValueClosure {
    Const(Value),
    Ident(String),
    Select(Box<ValueClosure>, String, bool),
    Conditional(Box<ValueClosure>, Box<ValueClosure>, Box<ValueClosure>),
    Unary(CallKind, Box<ValueClosure>),
    Logic(bool, Box<ValueClosure>, Box<ValueClosure>),
    Strict(CallKind, Box<ValueClosure>, Box<ValueClosure>),
    /// An overload that was resolved ahead, with its arguments. Every call has, at the end,
    /// the way to it from the root of the expression.
    Resolved(Function, Vec<ValueClosure>, Vec<usize>),
    /// An overload that was resolved ahead, with its target and its arguments.
    ResolvedMember(Function, Box<ValueClosure>, Vec<ValueClosure>, Vec<usize>),
    Free(String, Vec<ValueClosure>, Vec<usize>),
    /// The qualified name, the name, the target, and the arguments.
    Qualified(String, String, Box<ValueClosure>, Vec<ValueClosure>, Vec<usize>),
    Member(String, Box<ValueClosure>, Vec<ValueClosure>, Vec<usize>),
    List(Vec<ValueClosure>, Vec<usize>),
    Dict(Vec<EntryClosure>),
    Struct(String, Vec<FieldClosure>),
    Loop(Box<LoopClosure>),
}

/// A compiled entry of a map.
#[derive(Debug)]
pub struct EntryClosure {
    pub key: ValueClosure,
    pub value: ValueClosure,
    pub optional: bool,
}

/// A compiled field of a struct.
#[derive(Debug)]
pub struct FieldClosure {
    pub field: String,
    pub value: ValueClosure,
    pub optional: bool,
}

/// A compiled loop.
#[derive(Debug)]
pub struct LoopClosure {
    pub iter_range: ValueClosure,
    pub iter_var: String,
    pub iter_var2: Option<String>,
    pub accu_var: String,
    pub accu_init: ValueClosure,
    pub loop_cond: ValueClosure,
    pub loop_step: ValueClosure,
    pub result: ValueClosure,
}

/// What a closure gives in a scope.
pub open spec fn run(f: ValueClosure, c: Scope) -> Outcome
    decreases f, 0int,
{
    match f {
        ValueClosure::Const(v) => Ok(v@),
        ValueClosure::Ident(name) => semantics::ident_result(c, name@),
        ValueClosure::Select(operand, field, test) => semantics::select_result(
            run(*operand, c),
            field@,
            test,
        ),
        ValueClosure::Conditional(a, b, d) => semantics::conditional_result(
            run(*a, c),
            run(*b, c),
            run(*d, c),
        ),
        ValueClosure::Unary(kind, a) => semantics::unary_result(kind, run(*a, c)),
        ValueClosure::Logic(decided, a, b) => ops::logic_result(decided, run(*a, c), run(*b, c)),
        ValueClosure::Strict(kind, a, b) => semantics::strict_result(
            kind,
            run(*a, c),
            run(*b, c),
            c.host,
        ),
        ValueClosure::Resolved(op, args, path) => semantics::resolved_result(
            op,
            run_args(args@, c),
            c.host,
            context::site(c, path@),
        ),
        ValueClosure::ResolvedMember(op, t, args, path) => semantics::resolved_result(
            op,
            semantics::target_first(run(*t, c), run_args(args@, c)),
            c.host,
            context::site(c, path@),
        ),
        ValueClosure::Free(name, args, path) => semantics::free_result(
            c,
            path@,
            name@,
            run_args(args@, c),
        ),
        ValueClosure::Qualified(full, name, t, args, path) => semantics::qualified_result(
            c,
            path@,
            full@,
            name@,
            run(*t, c),
            run_args(args@, c),
        ),
        ValueClosure::Member(name, t, args, path) => semantics::member_result(
            c,
            path@,
            name@,
            run(*t, c),
            run_args(args@, c),
        ),
        ValueClosure::List(elements, optional) => match run_elements(elements@, optional@, c) {
            Ok(s) => Ok(Val::List(s)),
            Err(e) => Err(e),
        },
        ValueClosure::Dict(entries) => match run_entries(entries@, c) {
            Ok(s) => Ok(Val::Dict(s)),
            Err(e) => Err(e),
        },
        ValueClosure::Struct(name, fields) => semantics::struct_result(
            c,
            name@,
            run_fields(fields@, c),
        ),
        ValueClosure::Loop(l) => match run(l.accu_init, c) {
            Err(e) => Err(e),
            Ok(init) => match run(l.iter_range, c) {
                Err(e) => Err(e),
                Ok(range) => match semantics::loop_items(range) {
                    None => Err(Fault::NoSuchOverload),
                    Some(items) => match run_loop(*l, c, items, range is Dict, 0, init) {
                        Err(e) => Err(e),
                        Ok(accu) => run(l.result, context::bind(c, l.accu_var@, accu)),
                    },
                },
            },
        },
    }
}

/// What a run of closures gives.
pub open spec fn run_args(s: Seq<ValueClosure>, c: Scope) -> Result<Seq<Val>, Fault>
    decreases s, 0int,
{
    if s.len() == 0 {
        Ok(Seq::empty())
    } else {
        semantics::then_value(run_args(s.drop_last(), c), run(s.last(), c))
    }
}

/// What the elements of a list give.
pub open spec fn run_elements(s: Seq<ValueClosure>, optional: Seq<usize>, c: Scope) -> Result<
    Seq<Val>,
    Fault,
>
    decreases s, 0int,
{
    if s.len() == 0 {
        Ok(Seq::empty())
    } else {
        semantics::then_element(
            run_elements(s.drop_last(), optional, c),
            run(s.last(), c),
            optional.contains((s.len() - 1) as usize),
        )
    }
}

/// What the entries of a map give.
pub open spec fn run_entries(s: Seq<EntryClosure>, c: Scope) -> Result<Seq<(KeyVal, Val)>, Fault>
    decreases s, 0int,
{
    if s.len() == 0 {
        Ok(Seq::empty())
    } else {
        semantics::then_entry(
            run_entries(s.drop_last(), c),
            run(s.last().key, c),
            run(s.last().value, c),
            s.last().optional,
        )
    }
}

/// What the fields of a struct give.
pub open spec fn run_fields(s: Seq<FieldClosure>, c: Scope) -> Result<
    Seq<(Seq<char>, Val)>,
    Fault,
>
    decreases s, 0int,
{
    if s.len() == 0 {
        Ok(Seq::empty())
    } else {
        semantics::then_field(
            run_fields(s.drop_last(), c),
            s.last().field@,
            run(s.last().value, c),
            s.last().optional,
        )
    }
}

/// What a loop gives from round `i` on.
pub open spec fn run_loop(
    l: LoopClosure,
    c: Scope,
    items: Seq<Val>,
    is_map: bool,
    i: int,
    accu: Val,
) -> Outcome
    decreases l, items.len() - i,
{
    if i < 0 || i >= items.len() {
        Ok(accu)
    } else {
        let inner = context::bind(
            semantics::bind_item(
                context::in_round(c, i as usize),
                l.iter_var@,
                semantics::opt_name(l.iter_var2),
                is_map,
                items[i],
            ),
            l.accu_var@,
            accu,
        );
        match run(l.loop_cond, inner) {
            Err(e) => Err(e),
            Ok(Val::Bool(true)) => match run(l.loop_step, inner) {
                Err(e) => Err(e),
                Ok(next) => run_loop(l, c, items, is_map, i + 1, next),
            },
            Ok(_) => Ok(accu),
        }
    }
}

/// What the result of a run of evaluations stands for.
pub open spec fn list_outcome(r: Result<Vec<Value>, ExecutionError>) -> Result<Seq<Val>, Fault> {
    match r {
        Ok(v) => Ok(objects::values_view(v@)),
        Err(e) => Err(e@),
    }
}

proof fn lemma_args_fail(s: Seq<ValueClosure>, c: Scope, n: int)
    requires
        0 <= n <= s.len(),
        run_args(s.subrange(0, n), c) is Err,
    ensures
        run_args(s, c) == run_args(s.subrange(0, n), c),
    decreases s.len() - n,
{
    if n < s.len() {
        let next = s.subrange(0, n + 1);
        assert(next.drop_last() =~= s.subrange(0, n));
        lemma_args_fail(s, c, n + 1);
    } else {
        assert(s.subrange(0, n) =~= s);
    }
}

proof fn lemma_elements_fail(s: Seq<ValueClosure>, optional: Seq<usize>, c: Scope, n: int)
    requires
        0 <= n <= s.len(),
        run_elements(s.subrange(0, n), optional, c) is Err,
    ensures
        run_elements(s, optional, c) == run_elements(s.subrange(0, n), optional, c),
    decreases s.len() - n,
{
    if n < s.len() {
        let next = s.subrange(0, n + 1);
        assert(next.drop_last() =~= s.subrange(0, n));
        lemma_elements_fail(s, optional, c, n + 1);
    } else {
        assert(s.subrange(0, n) =~= s);
    }
}

proof fn lemma_entries_fail(s: Seq<EntryClosure>, c: Scope, n: int)
    requires
        0 <= n <= s.len(),
        run_entries(s.subrange(0, n), c) is Err,
    ensures
        run_entries(s, c) == run_entries(s.subrange(0, n), c),
    decreases s.len() - n,
{
    if n < s.len() {
        let next = s.subrange(0, n + 1);
        assert(next.drop_last() =~= s.subrange(0, n));
        lemma_entries_fail(s, c, n + 1);
    } else {
        assert(s.subrange(0, n) =~= s);
    }
}

proof fn lemma_fields_fail(s: Seq<FieldClosure>, c: Scope, n: int)
    requires
        0 <= n <= s.len(),
        run_fields(s.subrange(0, n), c) is Err,
    ensures
        run_fields(s, c) == run_fields(s.subrange(0, n), c),
    decreases s.len() - n,
{
    if n < s.len() {
        let next = s.subrange(0, n + 1);
        assert(next.drop_last() =~= s.subrange(0, n));
        lemma_fields_fail(s, c, n + 1);
    } else {
        assert(s.subrange(0, n) =~= s);
    }
}

fn index_among(s: &Vec<usize>, i: usize) -> (r: bool)
    ensures
        r == s@.contains(i),
{
    let mut k: usize = 0;
    while k < s.len()
        invariant
            k <= s@.len(),
            forall|j: int| 0 <= j < k ==> s@[j] != i,
        decreases s@.len() - k,
    {
        if s[k] == i {
            assert(s@[k as int] == i);
            return true;
        }
        k += 1;
    }
    false
}

/// The target in front of the arguments.
fn prepend(target: Value, args: &Vec<Value>) -> (r: Vec<Value>)
    ensures
        objects::values_view(r@) == seq![target@] + objects::values_view(args@),
{
    let mut all = objects::clone_values(args.as_slice());
    let ghost before = objects::values_view(all@);
    all.insert(0, target);
    assert(objects::values_view(all@) =~= seq![target@] + before);
    all
}

/// Calls a function that stands at the end of a way.
fn call_function(ctx: &Context, path: &Vec<usize>, op: Function, args: Vec<Value>) -> (r: Result<
    Value,
    ExecutionError,
>)
    ensures
        error::outcome(r) == functions::call_result(
            op,
            objects::values_view(args@),
            ctx@.host,
            context::site(ctx@, path@),
        ),
{
    match op {
        Function::Host(_) => op.call(args, ctx.host(), ctx.site(path)),
        _ => op.call(args, ctx.host(), CallSite::root()),
    }
}

/// A function that the context knows by name, called by the host.
fn call_host(
    ctx: &Context,
    path: &Vec<usize>,
    name: &str,
    target: Option<Value>,
    args: Vec<Value>,
) -> (r: Result<Value, ExecutionError>)
    ensures
        error::outcome(r) == semantics::host_result(
            ctx@,
            path@,
            name@,
            error::opt_view(target),
            objects::values_view(args@),
        ),
{
    if ctx.has_function(name) {
        ctx.host().ask(HostRequest::Call(ctx.site(path), name.to_owned(), target, args))
    } else {
        Err(ExecutionError::undeclared_reference(name))
    }
}

fn call_free(ctx: &Context, path: &Vec<usize>, name: &str, args: Vec<Value>) -> (r: Result<
    Value,
    ExecutionError,
>)
    ensures
        error::outcome(r) == semantics::free_result(
            ctx@,
            path@,
            name@,
            Ok(objects::values_view(args@)),
        ),
{
    match ctx.env().find_overload(name, args.as_slice()) {
        Some(op) => call_function(ctx, path, op, args),
        None => call_host(ctx, path, name, None, args),
    }
}

fn call_member(
    ctx: &Context,
    path: &Vec<usize>,
    name: &str,
    target: Value,
    args: Vec<Value>,
) -> (r: Result<Value, ExecutionError>)
    ensures
        error::outcome(r) == semantics::member_result(
            ctx@,
            path@,
            name@,
            Ok(target@),
            Ok(objects::values_view(args@)),
        ),
{
    let all = prepend(target.clone(), &args);
    match ctx.env().find_member_overload(name, all.as_slice()) {
        Some(op) => call_function(ctx, path, op, all),
        None => call_host(ctx, path, name, Some(target), args),
    }
}

/// The pairs of key and value that a loop over a map runs over.
fn entry_pairs(m: &ValueMap) -> (r: Vec<Value>)
    ensures
        Some(objects::values_view(r@)) == semantics::loop_items(Val::Dict(m@)),
{
    broadcast use objects::group_value_views;

    let ghost f = |e: (KeyVal, Val)| Val::List(seq![objects::key_value(e.0), e.1]);
    let mut out: Vec<Value> = Vec::new();
    let mut i: usize = 0;
    while i < m.entries.len()
        invariant
            i <= m.entries@.len(),
            out@.len() == i,
            forall|e: (KeyVal, Val)| #[trigger]
                f(e) == Val::List(seq![objects::key_value(e.0), e.1]),
            forall|j: int| 0 <= j < i ==> (#[trigger] out@[j])@ == f(m@[j]),
        decreases m.entries@.len() - i,
    {
        let e = &m.entries[i];
        let mut pair: Vec<Value> = Vec::new();
        pair.push(objects::key_as_value(&e.0));
        pair.push(e.1.clone());
        assert(objects::values_view(pair@) =~= seq![objects::key_value(e.0@), e.1@]);
        proof {
            objects::lemma_list_view(pair);
        }
        let item = Value::List(pair);
        assert(m@[i as int] == (e.0@, e.1@));
        assert(item@ == f(m@[i as int]));
        out.push(item);
        i += 1;
    }
    assert(objects::values_view(out@) =~= m@.map_values(f));
    out
}

/// Binds the variables of one round of a loop.
fn bind_round(ctx: &mut Context, var: &str, var2: &Option<String>, is_map: bool, item: &Value)
    ensures
        final(ctx)@ == semantics::bind_item(
            old(ctx)@,
            var@,
            semantics::opt_name(*var2),
            is_map,
            item@,
        ),
{
    broadcast use objects::group_value_views;

    match var2 {
        Some(v2) => match item {
            Value::List(p) => if p.len() >= 2 {
                ctx.add_variable(var, p[0].clone());
                ctx.add_variable(v2.as_str(), p[1].clone());
            } else {
                ctx.add_variable(var, item.clone());
                ctx.add_variable(v2.as_str(), Value::Null);
            },
            _ => {
                ctx.add_variable(var, item.clone());
                ctx.add_variable(v2.as_str(), Value::Null);
            },
        },
        None => match item {
            Value::List(p) => if is_map && p.len() >= 2 {
                ctx.add_variable(var, p[0].clone());
            } else {
                ctx.add_variable(var, item.clone());
            },
            _ => {
                ctx.add_variable(var, item.clone());
            },
        },
    }
}

impl ValueClosure {
    fn call_args(args: &Vec<ValueClosure>, ctx: &Context) -> (r: Result<Vec<Value>, ExecutionError>)
        ensures
            list_outcome(r) == run_args(args@, ctx@),
        decreases args,
    {
        let mut out: Vec<Value> = Vec::new();
        let mut i: usize = 0;
        assert(objects::values_view(out@) =~= Seq::<Val>::empty());
        while i < args.len()
            invariant
                i <= args@.len(),
                run_args(args@.subrange(0, i as int), ctx@) == Ok::<Seq<Val>, Fault>(
                    objects::values_view(out@),
                ),
            decreases args@.len() - i,
        {
            let ghost before = objects::values_view(out@);
            let ghost next = args@.subrange(0, i + 1);
            assert(next.drop_last() =~= args@.subrange(0, i as int));
            assert(next.last() == args@[i as int]);
            match args[i].call(ctx) {
                Ok(v) => {
                    out.push(v);
                    assert(objects::values_view(out@) =~= before.push(v@));
                },
                Err(e) => {
                    proof {
                        lemma_args_fail(args@, ctx@, i + 1);
                    }
                    return Err(e);
                },
            }
            i += 1;
        }
        assert(args@.subrange(0, i as int) =~= args@);
        Ok(out)
    }

    fn call_elements(elements: &Vec<ValueClosure>, optional: &Vec<usize>, ctx: &Context) -> (r:
        Result<Vec<Value>, ExecutionError>)
        ensures
            list_outcome(r) == run_elements(elements@, optional@, ctx@),
        decreases elements,
    {
        let mut out: Vec<Value> = Vec::new();
        let mut i: usize = 0;
        assert(objects::values_view(out@) =~= Seq::<Val>::empty());
        while i < elements.len()
            invariant
                i <= elements@.len(),
                run_elements(elements@.subrange(0, i as int), optional@, ctx@) == Ok::<
                    Seq<Val>,
                    Fault,
                >(objects::values_view(out@)),
            decreases elements@.len() - i,
        {
            let ghost before = objects::values_view(out@);
            let ghost next = elements@.subrange(0, i + 1);
            assert(next.drop_last() =~= elements@.subrange(0, i as int));
            assert(next.last() == elements@[i as int]);
            match elements[i].call(ctx) {
                Ok(v) => {
                    let opt = index_among(optional, i);
                    match v {
                        Value::Optional(o) => {
                            if opt {
                                match o {
                                    Some(x) => {
                                        out.push(*x);
                                        assert(objects::values_view(out@) =~= before.push(x@));
                                    },
                                    None => {},
                                }
                            } else {
                                let w = Value::Optional(o);
                                out.push(w);
                                assert(objects::values_view(out@) =~= before.push(w@));
                            }
                        },
                        w => {
                            out.push(w);
                            assert(objects::values_view(out@) =~= before.push(w@));
                        },
                    }
                },
                Err(e) => {
                    proof {
                        lemma_elements_fail(elements@, optional@, ctx@, i + 1);
                    }
                    return Err(e);
                },
            }
            i += 1;
        }
        assert(elements@.subrange(0, i as int) =~= elements@);
        Ok(out)
    }

    fn call_entries(entries: &Vec<EntryClosure>, ctx: &Context) -> (r: Result<
        ValueMap,
        ExecutionError,
    >)
        ensures
            (match r {
                Ok(m) => Ok::<Seq<(KeyVal, Val)>, Fault>(m@),
                Err(e) => Err::<Seq<(KeyVal, Val)>, Fault>(e@),
            }) == run_entries(entries@, ctx@),
        decreases entries,
    {
        let mut out = ValueMap::new();
        let mut i: usize = 0;
        while i < entries.len()
            invariant
                i <= entries@.len(),
                run_entries(entries@.subrange(0, i as int), ctx@) == Ok::<
                    Seq<(KeyVal, Val)>,
                    Fault,
                >(out@),
            decreases entries@.len() - i,
        {
            let ghost next = entries@.subrange(0, i + 1);
            assert(next.drop_last() =~= entries@.subrange(0, i as int));
            assert(next.last() == entries@[i as int]);
            let entry = &entries[i];
            let k = match entry.key.call(ctx) {
                Ok(k) => k,
                Err(e) => {
                    proof {
                        lemma_entries_fail(entries@, ctx@, i + 1);
                    }
                    return Err(e);
                },
            };
            let v = match entry.value.call(ctx) {
                Ok(v) => v,
                Err(e) => {
                    proof {
                        lemma_entries_fail(entries@, ctx@, i + 1);
                    }
                    return Err(e);
                },
            };
            match objects::value_as_key(&k) {
                None => {
                    proof {
                        lemma_entries_fail(entries@, ctx@, i + 1);
                    }
                    return Err(ExecutionError::UnsupportedKeyType(k));
                },
                Some(key) => match v {
                    Value::Optional(o) => {
                        if entry.optional {
                            match o {
                                Some(x) => {
                                    out.insert(key, *x);
                                },
                                None => {},
                            }
                        } else {
                            out.insert(key, Value::Optional(o));
                        }
                    },
                    w => {
                        out.insert(key, w);
                    },
                },
            }
            i += 1;
        }
        assert(entries@.subrange(0, i as int) =~= entries@);
        Ok(out)
    }

    fn call_fields(fields: &Vec<FieldClosure>, ctx: &Context) -> (r: Result<
        Vec<(String, Value)>,
        ExecutionError,
    >)
        ensures
            (match r {
                Ok(s) => Ok::<Seq<(Seq<char>, Val)>, Fault>(objects::fields_view(s@)),
                Err(e) => Err::<Seq<(Seq<char>, Val)>, Fault>(e@),
            }) == run_fields(fields@, ctx@),
        decreases fields,
    {
        let mut out: Vec<(String, Value)> = Vec::new();
        let mut i: usize = 0;
        assert(objects::fields_view(out@) =~= Seq::<(Seq<char>, Val)>::empty());
        while i < fields.len()
            invariant
                i <= fields@.len(),
                run_fields(fields@.subrange(0, i as int), ctx@) == Ok::<
                    Seq<(Seq<char>, Val)>,
                    Fault,
                >(objects::fields_view(out@)),
            decreases fields@.len() - i,
        {
            let ghost next = fields@.subrange(0, i + 1);
            assert(next.drop_last() =~= fields@.subrange(0, i as int));
            assert(next.last() == fields@[i as int]);
            let f = &fields[i];
            match f.value.call(ctx) {
                Ok(v) => {
                    let skip = f.optional && (match v {
                        Value::Null => true,
                        _ => false,
                    });
                    if !skip {
                        env::put_field(&mut out, f.field.clone(), v);
                    }
                },
                Err(e) => {
                    proof {
                        lemma_fields_fail(fields@, ctx@, i + 1);
                    }
                    return Err(e);
                },
            }
            i += 1;
        }
        assert(fields@.subrange(0, i as int) =~= fields@);
        Ok(out)
    }

    fn call_loop(l: &LoopClosure, ctx: &Context, items: &Vec<Value>, is_map: bool, init: Value) -> (r:
        Result<Value, ExecutionError>)
        ensures
            error::outcome(r) == run_loop(
                *l,
                ctx@,
                objects::values_view(items@),
                is_map,
                0,
                init@,
            ),
        decreases l,
    {
        let ghost vs = objects::values_view(items@);
        let mut accu = init;
        let mut i: usize = 0;
        while i < items.len()
            invariant
                i <= items@.len(),
                vs == objects::values_view(items@),
                run_loop(*l, ctx@, vs, is_map, 0, init@) == run_loop(
                    *l,
                    ctx@,
                    vs,
                    is_map,
                    i as int,
                    accu@,
                ),
            decreases items@.len() - i,
        {
            assert(vs[i as int] == items@[i as int]@);
            let mut inner = ctx.new_round(i);
            bind_round(&mut inner, l.iter_var.as_str(), &l.iter_var2, is_map, &items[i]);
            inner.add_variable(l.accu_var.as_str(), accu.clone());
            match l.loop_cond.call(&inner) {
                Err(e) => {
                    return Err(e);
                },
                Ok(Value::Bool(true)) => match l.loop_step.call(&inner) {
                    Err(e) => {
                        return Err(e);
                    },
                    Ok(next) => {
                        accu = next;
                    },
                },
                Ok(_) => {
                    return Ok(accu);
                },
            }
            i += 1;
        }
        Ok(accu)
    }

    /// Evaluates the expression in a context.
    pub fn call(&self, ctx: &Context) -> (r: Result<Value, ExecutionError>)
        ensures
            error::outcome(r) == run(*self, ctx@),
        decreases self,
    {
        match self {
            ValueClosure::Const(v) => Ok(v.clone()),
            ValueClosure::Ident(name) => match ctx.get_variable(name.as_str()) {
                Some(v) => Ok(v.clone()),
                None => Err(ExecutionError::undeclared_reference(name.as_str())),
            },
            ValueClosure::Select(operand, field, test) => match operand.call(ctx) {
                Err(e) => Err(e),
                Ok(v) => {
                    let found = ops::get_field(&v, field.as_str());
                    if *test {
                        Ok(Value::Bool(found.is_ok()))
                    } else {
                        found
                    }
                },
            },
            ValueClosure::Conditional(cond, t, f) => match cond.call(ctx) {
                Err(e) => Err(e),
                Ok(Value::Bool(b)) => if b {
                    t.call(ctx)
                } else {
                    f.call(ctx)
                },
                Ok(_) => Err(ExecutionError::NoSuchOverload),
            },
            ValueClosure::Unary(kind, a) => match a.call(ctx) {
                Err(e) => Err(e),
                Ok(v) => match kind {
                    CallKind::Not => ops::not_value(v),
                    CallKind::Negate => ops::negate_value(v),
                    _ => Ok(ops::keep_going(&v)),
                },
            },
            ValueClosure::Logic(decided, a, b) => {
                let l = a.call(ctx);
                match l {
                    Err(ExecutionError::HostNeeded(q)) => match b.call(ctx) {
                        Ok(Value::Bool(y)) => if y == *decided {
                            Ok(Value::Bool(*decided))
                        } else {
                            Err(ExecutionError::HostNeeded(q))
                        },
                        _ => Err(ExecutionError::HostNeeded(q)),
                    },
                    Ok(Value::Bool(x)) => {
                        if x == *decided {
                            return Ok(Value::Bool(*decided));
                        }
                        match b.call(ctx) {
                            Ok(Value::Bool(y)) => Ok(Value::Bool(y)),
                            Ok(_) => Err(ExecutionError::NoSuchOverload),
                            Err(e) => Err(e),
                        }
                    },
                    _ => match b.call(ctx) {
                        Ok(Value::Bool(y)) => if y == *decided {
                            Ok(Value::Bool(*decided))
                        } else {
                            match l {
                                Err(e) => Err(e),
                                Ok(_) => Err(ExecutionError::NoSuchOverload),
                            }
                        },
                        Ok(_) => Err(ExecutionError::NoSuchOverload),
                        Err(e) => Err(e),
                    },
                }
            },
            ValueClosure::Strict(kind, a, b) => {
                let l = match a.call(ctx) {
                    Ok(l) => l,
                    Err(e) => {
                        return Err(e);
                    },
                };
                let r = match b.call(ctx) {
                    Ok(r) => r,
                    Err(e) => {
                        return Err(e);
                    },
                };
                match kind {
                    CallKind::Binary(op) => op.apply(&l, &r, ctx.host()),
                    CallKind::Index(optional) => ops::index_values(*optional, &l, &r),
                    _ => ops::opt_select_values(&l, &r),
                }
            },
            ValueClosure::Resolved(op, args, path) => match Self::call_args(args, ctx) {
                Err(e) => Err(e),
                Ok(a) => call_function(ctx, path, *op, a),
            },
            ValueClosure::ResolvedMember(op, target, args, path) => match target.call(ctx) {
                Err(e) => Err(e),
                Ok(t) => match Self::call_args(args, ctx) {
                    Err(e) => Err(e),
                    Ok(a) => call_function(ctx, path, *op, prepend(t, &a)),
                },
            },
            ValueClosure::Free(name, args, path) => match Self::call_args(args, ctx) {
                Err(e) => Err(e),
                Ok(a) => call_free(ctx, path, name.as_str(), a),
            },
            ValueClosure::Qualified(full, name, target, args, path) => {
                match Self::call_args(args, ctx) {
                    Err(e) => Err(e),
                    Ok(a) => match ctx.env().find_overload(full.as_str(), a.as_slice()) {
                        Some(op) => call_function(ctx, path, op, a),
                        None => if ctx.has_function(full.as_str()) {
                            ctx.host().ask(
                                HostRequest::Call(ctx.site(path), full.clone(), None, a),
                            )
                        } else {
                            match target.call(ctx) {
                                Err(e) => Err(e),
                                Ok(t) => call_member(ctx, path, name.as_str(), t, a),
                            }
                        },
                    },
                }
            },
            ValueClosure::Member(name, target, args, path) => match target.call(ctx) {
                Err(e) => Err(e),
                Ok(t) => match Self::call_args(args, ctx) {
                    Err(e) => Err(e),
                    Ok(a) => call_member(ctx, path, name.as_str(), t, a),
                },
            },
            ValueClosure::List(elements, optional) => match Self::call_elements(
                elements,
                optional,
                ctx,
            ) {
                Err(e) => Err(e),
                Ok(s) => {
                    proof {
                        objects::lemma_list_view(s);
                    }
                    Ok(Value::List(s))
                },
            },
            ValueClosure::Dict(entries) => match Self::call_entries(entries, ctx) {
                Err(e) => Err(e),
                Ok(m) => {
                    proof {
                        objects::lemma_dict_view(m);
                    }
                    Ok(Value::Dict(m))
                },
            },
            ValueClosure::Struct(name, fields) => match ctx.env().find_struct(name.as_str()) {
                None => Err(
                    ExecutionError::UnexpectedType {
                        got: name.clone(),
                        want: "known struct".to_owned(),
                    },
                ),
                Some(def) => match Self::call_fields(fields, ctx) {
                    Err(e) => Err(e),
                    Ok(given) => match def.new_struct(&given) {
                        Err(e) => Err(e),
                        Ok(s) => {
                            proof {
                                objects::lemma_struct_view(s);
                            }
                            Ok(Value::Struct(s))
                        },
                    },
                },
            },
            ValueClosure::Loop(l) => {
                let init = match l.accu_init.call(ctx) {
                    Ok(v) => v,
                    Err(e) => {
                        return Err(e);
                    },
                };
                let range = match l.iter_range.call(ctx) {
                    Ok(v) => v,
                    Err(e) => {
                        return Err(e);
                    },
                };
                let looped = match &range {
                    Value::List(items) => {
                        proof {
                            objects::lemma_list_view(*items);
                        }
                        Self::call_loop(&**l, ctx, items, false, init)
                    },
                    Value::Dict(m) => {
                        proof {
                            objects::lemma_dict_view(*m);
                        }
                        let pairs = entry_pairs(m);
                        Self::call_loop(&**l, ctx, &pairs, true, init)
                    },
                    _ => {
                        return Err(ExecutionError::NoSuchOverload);
                    },
                };
                match looped {
                    Err(e) => Err(e),
                    Ok(accu) => {
                        let mut inner = ctx.new_inner_scope();
                        inner.add_variable(l.accu_var.as_str(), accu);
                        l.result.call(&inner)
                    },
                }
            },
        }
    }
}

/// A closure means what an expression means that stands at the end of a way, in every scope.
pub open spec fn means(f: ValueClosure, e: Expr, p: Seq<usize>) -> bool {
    forall|c: Scope| #[trigger] run(f, c) == semantics::eval_expr(e, p, c)
}

/// Compiles a parsed expression.
///
/// `reserved_names` are names that the caller binds itself. They need no treatment: every
/// name is looked up in the context.
pub fn compile_expression(expr: &Expression, reserved_names: &[&str]) -> (r: ValueClosure)
    ensures
        means(r, expr.expr, Seq::empty()),
{
    compile_expr(&expr.expr, &Vec::new())
}

/// Compiles an expression that stands at the end of a way.
pub fn compile_expr(expr: &Expr, path: &Vec<usize>) -> (r: ValueClosure)
    ensures
        means(r, *expr, path@),
    decreases expr, 1nat,
{
    match expr {
        Expr::Literal(lit) => {
            let r = compile_literal(lit);
            assert(*expr == Expr::Literal(*lit));
            r
        },
        Expr::Ident(name) => ValueClosure::Ident(name.clone()),
        Expr::Select(sel) => {
            let r = compile_select(sel, path);
            assert(*expr == Expr::Select(*sel));
            r
        },
        Expr::Call(call) => {
            let r = compile_call(call, path);
            assert(*expr == Expr::Call(*call));
            r
        },
        Expr::List(list) => {
            let r = compile_list(list, path);
            assert(*expr == Expr::List(*list));
            r
        },
        Expr::Dict(map) => {
            let r = compile_map(map, path);
            assert(*expr == Expr::Dict(*map));
            r
        },
        Expr::Comprehension(comp) => {
            let r = compile_comprehension(&**comp, path);
            assert(*expr == Expr::Comprehension(*comp));
            r
        },
        Expr::Struct(strct) => {
            let r = compile_struct(strct, path);
            assert(*expr == Expr::Struct(*strct));
            r
        },
        Expr::Unspecified => ValueClosure::Const(Value::Null),
    }
}

/// Compiles the access to a field.
pub fn compile_select(sel: &SelectExpr, path: &Vec<usize>) -> (r: ValueClosure)
    ensures
        means(r, Expr::Select(*sel), path@),
    decreases sel, 0nat,
{
    let operand = compile_expr(&sel.operand.expr, &error::step(path, 0));
    let r = ValueClosure::Select(Box::new(operand), sel.field.clone(), sel.test);
    assert forall|c: Scope| #[trigger]
        run(r, c) == semantics::eval_expr(Expr::Select(*sel), path@, c) by {
        assert(run(operand, c) == semantics::eval_expr(
            sel.operand.expr,
            to_target(path@),
            c,
        ));
    }
    r
}

/// Compiles a constant.
pub fn compile_literal(lit: &LiteralValue) -> (r: ValueClosure)
    ensures
        forall|p: Seq<usize>| #[trigger] means(r, Expr::Literal(*lit), p),
{
    ValueClosure::Const(
        match lit {
            LiteralValue::Int(i) => Value::Int(*i),
            LiteralValue::UInt(u) => Value::UInt(*u),
            LiteralValue::Double(f) => Value::Float(*f),
            LiteralValue::String(s) => Value::String(Arc::new(s.clone())),
            LiteralValue::Bytes(b) => Value::Bytes(objects::clone_bytes(b)),
            LiteralValue::Boolean(b) => Value::Bool(*b),
            LiteralValue::Null => Value::Null,
        },
    )
}

/// Closures mean what a run of expressions means that stand below a way, one by one.
pub open spec fn all_mean(fs: Seq<ValueClosure>, es: Seq<IdedExpr>, p: Seq<usize>) -> bool {
    fs.len() == es.len() && forall|i: int|
        0 <= i < fs.len() ==> means(#[trigger] fs[i], es[i].expr, to_arg(p, i))
}

proof fn lemma_args_mean(
    fs: Seq<ValueClosure>,
    es: Seq<IdedExpr>,
    p: Seq<usize>,
    c: Scope,
)
    requires
        all_mean(fs, es, p),
    ensures
        run_args(fs, c) == semantics::eval_args(es, p, c),
    decreases fs.len(),
{
    if fs.len() > 0 {
        assert forall|i: int| 0 <= i < fs.drop_last().len() implies means(
            #[trigger] fs.drop_last()[i],
            es.drop_last()[i].expr,
            to_arg(p, i),
        ) by {
            assert(fs.drop_last()[i] == fs[i]);
        }
        lemma_args_mean(fs.drop_last(), es.drop_last(), p, c);
        let at = to_arg(p, fs.len() - 1);
        assert(means(fs[fs.len() - 1], es[fs.len() - 1].expr, at));
        assert(run(fs.last(), c) == semantics::eval_expr(es.last().expr, at, c));
    }
}

proof fn lemma_elements_mean(
    fs: Seq<ValueClosure>,
    es: Seq<IdedExpr>,
    p: Seq<usize>,
    optional: Seq<usize>,
    c: Scope,
)
    requires
        all_mean(fs, es, p),
    ensures
        run_elements(fs, optional, c) == semantics::eval_elements(es, p, optional, c),
    decreases fs.len(),
{
    if fs.len() > 0 {
        assert forall|i: int| 0 <= i < fs.drop_last().len() implies means(
            #[trigger] fs.drop_last()[i],
            es.drop_last()[i].expr,
            to_arg(p, i),
        ) by {
            assert(fs.drop_last()[i] == fs[i]);
        }
        lemma_elements_mean(fs.drop_last(), es.drop_last(), p, optional, c);
        let at = to_arg(p, fs.len() - 1);
        assert(means(fs[fs.len() - 1], es[fs.len() - 1].expr, at));
        assert(run(fs.last(), c) == semantics::eval_expr(es.last().expr, at, c));
    }
}

/// Compiles a run of arguments.
pub fn compile_arg_list(args: &Vec<IdedExpr>, path: &Vec<usize>) -> (r: Vec<ValueClosure>)
    ensures
        all_mean(r@, args@, path@),
    decreases args, 0nat,
{
    let mut out: Vec<ValueClosure> = Vec::new();
    let mut i: usize = 0;
    while i < args.len()
        invariant
            i <= args@.len(),
            out@.len() == i,
            forall|j: int|
                0 <= j < i ==> means(
                    #[trigger] out@[j],
                    args@[j].expr,
                    to_arg(path@, j),
                ),
        decreases args@.len() - i,
    {
        out.push(compile_expr(&args[i].expr, &error::step(path, i + 1)));
        i += 1;
    }
    out
}

/// Compiles a call: an operator by its kind, any other function by name.
pub fn compile_call(call: &CallExpr, path: &Vec<usize>) -> (r: ValueClosure)
    ensures
        means(r, Expr::Call(*call), path@),
    decreases call, 1nat,
{
    let kind = semantics::kind_of_call(
        ast::operator_named(call.func_name.as_str()),
        call.args.len(),
    );
    let ghost e = Expr::Call(*call);
    match kind {
        CallKind::Conditional => {
            let cond = compile_expr(&call.args[0].expr, &error::step(path, 1));
            let t = compile_expr(&call.args[1].expr, &error::step(path, 2));
            let f = compile_expr(&call.args[2].expr, &error::step(path, 3));
            let r = ValueClosure::Conditional(Box::new(cond), Box::new(t), Box::new(f));
            assert forall|c: Scope| #[trigger] run(r, c) == semantics::eval_expr(e, path@, c) by {
                assert(run(cond, c) == semantics::eval_expr(
                    call.args@[0].expr,
                    to_arg(path@, 0),
                    c,
                ));
                assert(run(t, c) == semantics::eval_expr(
                    call.args@[1].expr,
                    to_arg(path@, 1),
                    c,
                ));
                assert(run(f, c) == semantics::eval_expr(
                    call.args@[2].expr,
                    to_arg(path@, 2),
                    c,
                ));
            }
            r
        },
        CallKind::Not | CallKind::Negate | CallKind::NotStrictlyFalse => {
            let inner = compile_expr(&call.args[0].expr, &error::step(path, 1));
            let r = ValueClosure::Unary(kind, Box::new(inner));
            assert forall|c: Scope| #[trigger] run(r, c) == semantics::eval_expr(e, path@, c) by {
                assert(run(inner, c) == semantics::eval_expr(
                    call.args@[0].expr,
                    to_arg(path@, 0),
                    c,
                ));
            }
            r
        },
        CallKind::Logic(decided) => {
            let left = compile_expr(&call.args[0].expr, &error::step(path, 1));
            let right = compile_expr(&call.args[1].expr, &error::step(path, 2));
            let r = ValueClosure::Logic(decided, Box::new(left), Box::new(right));
            assert forall|c: Scope| #[trigger] run(r, c) == semantics::eval_expr(e, path@, c) by {
                assert(run(left, c) == semantics::eval_expr(
                    call.args@[0].expr,
                    to_arg(path@, 0),
                    c,
                ));
                assert(run(right, c) == semantics::eval_expr(
                    call.args@[1].expr,
                    to_arg(path@, 1),
                    c,
                ));
            }
            r
        },
        CallKind::Binary(_) | CallKind::Index(_) | CallKind::OptSelect => {
            let left = compile_expr(&call.args[0].expr, &error::step(path, 1));
            let right = compile_expr(&call.args[1].expr, &error::step(path, 2));
            let r = ValueClosure::Strict(kind, Box::new(left), Box::new(right));
            assert forall|c: Scope| #[trigger] run(r, c) == semantics::eval_expr(e, path@, c) by {
                assert(run(left, c) == semantics::eval_expr(
                    call.args@[0].expr,
                    to_arg(path@, 0),
                    c,
                ));
                assert(run(right, c) == semantics::eval_expr(
                    call.args@[1].expr,
                    to_arg(path@, 1),
                    c,
                ));
            }
            r
        },
        CallKind::General => compile_dispatch(call, path),
    }
}

/// Compiles a call of a function by name.
fn compile_dispatch(call: &CallExpr, path: &Vec<usize>) -> (r: ValueClosure)
    requires
        semantics::call_kind(ast::operator_of(call.func_name@), call.args@.len())
            == CallKind::General,
    ensures
        means(r, Expr::Call(*call), path@),
    decreases call, 0nat,
{
    let args = compile_arg_list(&call.args, path);
    let way = error::clone_indices(path);
    let ghost fs = args@;
    let name = call.func_name.clone();
    let ghost e = Expr::Call(*call);
    match &call.target {
        None => {
            let r = match call.resolved_op {
                Some(op) => ValueClosure::Resolved(op, args, way),
                None => ValueClosure::Free(name, args, way),
            };
            assert forall|c: Scope| #[trigger] run(r, c) == semantics::eval_expr(e, path@, c) by {
                lemma_args_mean(fs, call.args@, path@, c);
            }
            r
        },
        Some(target) => {
            let t = compile_expr(&target.expr, &error::step(path, 0));
            let ghost tf = t;
            let r = match &target.expr {
                Expr::Ident(prefix) => match call.resolved_op {
                    Some(op) => ValueClosure::ResolvedMember(op, Box::new(t), args, way),
                    None => {
                        let mut full = prefix.clone();
                        full.append(".");
                        full.append(name.as_str());
                        ValueClosure::Qualified(full, name, Box::new(t), args, way)
                    },
                },
                _ => ValueClosure::Member(name, Box::new(t), args, way),
            };
            assert forall|c: Scope| #[trigger] run(r, c) == semantics::eval_expr(e, path@, c) by {
                lemma_args_mean(fs, call.args@, path@, c);
                assert(run(tf, c) == semantics::eval_expr(
                    target.expr,
                    to_target(path@),
                    c,
                ));
            }
            r
        },
    }
}

/// Compiles a list.
pub fn compile_list(list: &ListExpr, path: &Vec<usize>) -> (r: ValueClosure)
    ensures
        means(r, Expr::List(*list), path@),
    decreases list, 0nat,
{
    let elements = compile_arg_list(&list.elements, path);
    let ghost fs = elements@;
    let mut optional: Vec<usize> = Vec::new();
    let mut i: usize = 0;
    while i < list.optional_indices.len()
        invariant
            i <= list.optional_indices@.len(),
            optional@ == list.optional_indices@.subrange(0, i as int),
        decreases list.optional_indices@.len() - i,
    {
        optional.push(list.optional_indices[i]);
        i += 1;
        assert(optional@ =~= list.optional_indices@.subrange(0, i as int));
    }
    assert(optional@ =~= list.optional_indices@);
    let r = ValueClosure::List(elements, optional);
    assert forall|c: Scope| #[trigger]
        run(r, c) == semantics::eval_expr(Expr::List(*list), path@, c) by {
        lemma_elements_mean(fs, list.elements@, path@, list.optional_indices@, c);
    }
    r
}

/// Compiles a map; the fields that only a struct can have are skipped.
pub fn compile_map(map: &MapExpr, path: &Vec<usize>) -> (r: ValueClosure)
    ensures
        means(r, Expr::Dict(*map), path@),
    decreases map, 0nat,
{
    let mut out: Vec<EntryClosure> = Vec::new();
    let mut i: usize = 0;
    while i < map.entries.len()
        invariant
            i <= map.entries@.len(),
            forall|c: Scope| #[trigger]
                run_entries(out@, c) == semantics::eval_entries(
                    map.entries@.subrange(0, i as int),
                    path@,
                    c,
                ),
        decreases map.entries@.len() - i,
    {
        let ghost before = out@;
        let ghost next = map.entries@.subrange(0, i + 1);
        assert(next.drop_last() =~= map.entries@.subrange(0, i as int));
        assert(next.last() == map.entries@[i as int]);
        match &map.entries[i].expr {
            EntryExpr::MapEntry(m) => {
                let at = error::step(path, i + 1);
                let key = compile_expr(&m.key.expr, &error::step(&at, 0));
                let value = compile_expr(&m.value.expr, &error::step(&at, 1));
                out.push(EntryClosure { key, value, optional: m.optional });
                assert(out@.drop_last() =~= before);
                assert forall|c: Scope| #[trigger]
                    run_entries(out@, c) == semantics::eval_entries(next, path@, c) by {
                    assert(run_entries(before, c) == semantics::eval_entries(
                        map.entries@.subrange(0, i as int),
                        path@,
                        c,
                    ));
                    assert(run(key, c) == semantics::eval_expr(m.key.expr, at@.push(0), c));
                    assert(run(value, c) == semantics::eval_expr(m.value.expr, at@.push(1), c));
                }
            },
            EntryExpr::StructField(_) => {},
        }
        i += 1;
    }
    assert(map.entries@.subrange(0, i as int) =~= map.entries@);
    let r = ValueClosure::Dict(out);
    assert forall|c: Scope| #[trigger]
        run(r, c) == semantics::eval_expr(Expr::Dict(*map), path@, c) by {
        assert(run_entries(out@, c) == semantics::eval_entries(map.entries@, path@, c));
    }
    r
}

/// Compiles a struct; the entries that only a map can have are skipped.
pub fn compile_struct(strct: &StructExpr, path: &Vec<usize>) -> (r: ValueClosure)
    ensures
        means(r, Expr::Struct(*strct), path@),
    decreases strct, 0nat,
{
    let mut out: Vec<FieldClosure> = Vec::new();
    let mut i: usize = 0;
    while i < strct.entries.len()
        invariant
            i <= strct.entries@.len(),
            forall|c: Scope| #[trigger]
                run_fields(out@, c) == semantics::eval_fields(
                    strct.entries@.subrange(0, i as int),
                    path@,
                    c,
                ),
        decreases strct.entries@.len() - i,
    {
        let ghost before = out@;
        let ghost next = strct.entries@.subrange(0, i + 1);
        assert(next.drop_last() =~= strct.entries@.subrange(0, i as int));
        assert(next.last() == strct.entries@[i as int]);
        match &strct.entries[i].expr {
            EntryExpr::StructField(f) => {
                let value = compile_expr(&f.value.expr, &error::step(path, i + 1));
                out.push(
                    FieldClosure { field: f.field.clone(), value, optional: f.optional },
                );
                assert(out@.drop_last() =~= before);
                assert forall|c: Scope| #[trigger]
                    run_fields(out@, c) == semantics::eval_fields(next, path@, c) by {
                    assert(run_fields(before, c) == semantics::eval_fields(
                        strct.entries@.subrange(0, i as int),
                        path@,
                        c,
                    ));
                    let at = to_arg(path@, i as int);
                    assert(run(value, c) == semantics::eval_expr(f.value.expr, at, c));
                }
            },
            EntryExpr::MapEntry(_) => {},
        }
        i += 1;
    }
    assert(strct.entries@.subrange(0, i as int) =~= strct.entries@);
    let r = ValueClosure::Struct(strct.name.clone(), out);
    assert forall|c: Scope| #[trigger]
        run(r, c) == semantics::eval_expr(Expr::Struct(*strct), path@, c) by {
        assert(run_fields(out@, c) == semantics::eval_fields(strct.entries@, path@, c));
    }
    r
}

proof fn lemma_loop_means(
    l: LoopClosure,
    comp: ComprehensionExpr,
    p: Seq<usize>,
    c: Scope,
    items: Seq<Val>,
    is_map: bool,
    i: int,
    accu: Val,
)
    requires
        means(l.loop_cond, comp.loop_cond.expr, p.push(2)),
        means(l.loop_step, comp.loop_step.expr, p.push(3)),
        l.iter_var@ == comp.iter_var@,
        semantics::opt_name(l.iter_var2) == semantics::opt_name(comp.iter_var2),
        l.accu_var@ == comp.accu_var@,
        0 <= i,
    ensures
        run_loop(l, c, items, is_map, i, accu) == semantics::eval_loop(
            comp,
            p,
            c,
            items,
            is_map,
            i,
            accu,
        ),
    decreases items.len() - i,
{
    if i < items.len() {
        let inner = context::bind(
            semantics::bind_item(
                context::in_round(c, i as usize),
                l.iter_var@,
                semantics::opt_name(l.iter_var2),
                is_map,
                items[i],
            ),
            l.accu_var@,
            accu,
        );
        assert(run(l.loop_cond, inner) == semantics::eval_expr(
            comp.loop_cond.expr,
            p.push(2),
            inner,
        ));
        assert(run(l.loop_step, inner) == semantics::eval_expr(
            comp.loop_step.expr,
            p.push(3),
            inner,
        ));
        if run(l.loop_step, inner) is Ok {
            lemma_loop_means(l, comp, p, c, items, is_map, i + 1, run(l.loop_step, inner)->Ok_0);
        }
    }
}

/// Compiles a loop.
pub fn compile_comprehension(comp: &ComprehensionExpr, path: &Vec<usize>) -> (r: ValueClosure)
    ensures
        means(r, Expr::Comprehension(Box::new(*comp)), path@),
    decreases comp, 0nat,
{
    let iter_var2 = match &comp.iter_var2 {
        Some(v) => Some(v.clone()),
        None => None,
    };
    let l = LoopClosure {
        iter_range: compile_expr(&comp.iter_range.expr, &error::step(path, 0)),
        iter_var: comp.iter_var.clone(),
        iter_var2,
        accu_var: comp.accu_var.clone(),
        accu_init: compile_expr(&comp.accu_init.expr, &error::step(path, 1)),
        loop_cond: compile_expr(&comp.loop_cond.expr, &error::step(path, 2)),
        loop_step: compile_expr(&comp.loop_step.expr, &error::step(path, 3)),
        result: compile_expr(&comp.result.expr, &error::step(path, 4)),
    };
    let ghost e = Expr::Comprehension(Box::new(*comp));
    let r = ValueClosure::Loop(Box::new(l));
    assert forall|c: Scope| #[trigger] run(r, c) == semantics::eval_expr(e, path@, c) by {
        assert(run(l.accu_init, c) == semantics::eval_expr(comp.accu_init.expr, path@.push(1), c));
        assert(run(l.iter_range, c) == semantics::eval_expr(
            comp.iter_range.expr,
            path@.push(0),
            c,
        ));
        if run(l.accu_init, c) is Ok && run(l.iter_range, c) is Ok {
            let init = run(l.accu_init, c)->Ok_0;
            let range = run(l.iter_range, c)->Ok_0;
            if semantics::loop_items(range) is Some {
                let items = semantics::loop_items(range)->0;
                lemma_loop_means(l, *comp, path@, c, items, range is Dict, 0, init);
                let looped = run_loop(l, c, items, range is Dict, 0, init);
                if looped is Ok {
                    let inner = context::bind(c, l.accu_var@, looped->Ok_0);
                    assert(run(l.result, inner) == semantics::eval_expr(
                        comp.result.expr,
                        path@.push(4),
                        inner,
                    ));
                }
            }
        }
    }
    r
}

} // verus!
