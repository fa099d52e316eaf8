//! Laws of names: of variables, functions and their overloads, types, fields and the host.

use crate::assoc;
use crate::common::ast;
use crate::common::ast::{CallExpr, Expr};
use crate::common::decls;
use crate::common::decls::Overload;
use crate::common::functions;
use crate::common::functions::Function;
use crate::common::types;
use crate::common::types::Kind;
use crate::context;
use crate::context::{Context, Scope};
use crate::env;
use crate::env::EnvModel;
use crate::error;
use crate::error::{Fault, Outcome, Req, Site};
use crate::fast;
use crate::fast::{FieldType, Fields};
use crate::function_handle;
use crate::function_handle::TypeHint;
use crate::laws::arithmetic::called;
use crate::laws::library::target_of;
use crate::objects::{Val, Value};
use crate::semantics;
use crate::semantics::{to_arg, to_target, CallKind};
use crate::strings;
use crate::vm::filter_tree_compiler;
use crate::vm::range_set;
use vstd::prelude::*;
use vstd::string::*;

verus! {

/// Of the bindings of a name the last one counts; a name without one is what it was outside.
pub proof fn law_bindings(
    base: Map<Seq<char>, Val>,
    s: Seq<(String, Value)>,
    name: Seq<char>,
    i: int,
)
    ensures
        ({
            let m = context::with_vars(base, s);
            &&& 0 <= i < s.len() && s[i].0@ == name && (forall|j: int|
                i < j < s.len() ==> (#[trigger] s[j]).0@ != name) ==> m.dom().contains(name)
                && m[name] == s[i].1@
            &&& (forall|j: int| 0 <= j < s.len() ==> (#[trigger] s[j]).0@ != name)
                ==> m.dom().contains(name) == base.dom().contains(name) && m[name] == base[name]
        }),
    decreases s.len(),
{
    if s.len() > 0 {
        let t = s.drop_last();
        law_bindings(base, t, name, i);
        assert(forall|j: int| 0 <= j < t.len() ==> #[trigger] t[j] == s[j]);
        assert(s.last() == s[s.len() - 1]);
    }
}

/// A scope inside another has its variables on top of the other's, and all else from it; a round
/// of a loop is one more in the rounds.
pub proof fn law_inner_scope(c: Context, name: Seq<char>)
    ensures
        c matches Context::Child { parent, variables, round } ==> {
            let inner = context::scope_of(c);
            let outer = context::scope_of(*parent);
            &&& inner.functions == outer.functions
            &&& inner.env == outer.env
            &&& inner.host == outer.host
            &&& inner.vars == context::with_vars(outer.vars, variables@)
            &&& inner.rounds == (match round {
                Some(i) => outer.rounds.push(i),
                None => outer.rounds,
            })
        },
        ({
            let s = context::scope_of(c);
            context::variable(s, name) == (if s.vars.dom().contains(name) {
                Some(s.vars[name])
            } else {
                None
            })
        }),
{
}

/// An overload fits a call: it is called in the same way, with or without a target, takes as
/// many arguments, and each argument is of its type, unless any type serves.
pub open spec fn fits_call(o: Overload, member: bool, args: Seq<Val>) -> bool {
    &&& o.member_function == member
    &&& o.arg_types.len() == args.len()
    &&& forall|i: int|
        0 <= i < args.len() ==> (#[trigger] o.arg_types[i]).kind == Kind::Dyn || o.arg_types[i]
            == types::type_of(args[i])
}

proof fn lemma_fits(o: Overload, member: bool, args: Seq<Val>)
    ensures
        fits_call(o, member, args) == decls::accepts(o, member, args),
{
    if decls::accepts(o, member, args) {
        assert forall|i: int| 0 <= i < args.len() implies (#[trigger] o.arg_types[i]).kind
            == Kind::Dyn || o.arg_types[i] == types::type_of(args[i]) by {
            assert(types::assignable(o.arg_types[i], args[i]));
        }
    }
    if fits_call(o, member, args) {
        assert forall|i: int| 0 <= i < args.len() implies types::assignable(
            #[trigger] o.arg_types[i],
            args[i],
        ) by {
            assert(o.arg_types[i].kind == Kind::Dyn || o.arg_types[i] == types::type_of(args[i]));
        }
    }
}

/// An overload fits a call, and none before it does.
pub open spec fn fits_first(s: Seq<Overload>, member: bool, args: Seq<Val>, k: int) -> bool {
    &&& 0 <= k < s.len()
    &&& fits_call(s[k], member, args)
    &&& forall|j: int| 0 <= j < k ==> !fits_call(#[trigger] s[j], member, args)
}

/// A call finds the first overload that fits it, and none where none fits.
pub proof fn law_overloads(s: Seq<Overload>, member: bool, args: Seq<Val>)
    ensures
        match decls::overload_for(s, member, args) {
            Some(op) => exists|k: int| #[trigger] fits_first(s, member, args, k) && s[k].op == op,
            None => forall|k: int|
                0 <= k < s.len() ==> !fits_call(#[trigger] s[k], member, args),
        },
{
    lemma_first_fit(s, member, args, 0);
    match decls::first_accepting(s, member, args, 0) {
        Some(k) => {
            assert(fits_first(s, member, args, k));
        },
        None => {},
    }
}

proof fn lemma_first_fit(s: Seq<Overload>, member: bool, args: Seq<Val>, from: int)
    requires
        0 <= from,
    ensures
        match decls::first_accepting(s, member, args, from) {
            Some(k) => from <= k < s.len() && fits_call(s[k], member, args) && forall|j: int|
                from <= j < k ==> !fits_call(#[trigger] s[j], member, args),
            None => forall|j: int|
                from <= j < s.len() ==> !fits_call(#[trigger] s[j], member, args),
        },
    decreases s.len() - from,
{
    if from < s.len() {
        lemma_fits(s[from], member, args);
        if !decls::accepts(s[from], member, args) {
            lemma_first_fit(s, member, args, from + 1);
        }
    }
}

/// A call finds an overload among those declared under its name.
pub proof fn law_functions_found(
    e: EnvModel,
    name: Seq<char>,
    member: bool,
    args: Seq<Val>,
    i: int,
)
    requires
        assoc::rising(env::keys(e.functions)),
    ensures
        0 <= i < e.functions.len() && e.functions[i].0 == name ==> env::find(e, name, member, args)
            == decls::overload_for(e.functions[i].1, member, args),
        (forall|j: int| 0 <= j < e.functions.len() ==> (#[trigger] e.functions[j]).0 != name)
            ==> env::find(e, name, member, args) is None,
{
    let names = env::keys(e.functions);
    assoc::lemma_position(names, name);
    if 0 <= i < e.functions.len() && e.functions[i].0 == name {
        assert(names[i] == name);
    }
    if env::find(e, name, member, args) is Some {
        assoc::lemma_lower_bound(names, name, 0);
        let j = assoc::position(names, name)->0;
        assert(names[j] == e.functions[j].0);
    }
}

/// A declaration is refused where one of the name has the same id, or is called in the same way
/// on the same types; and only there.
pub proof fn law_clashes(s: Seq<Overload>, o: Overload)
    ensures
        decls::clashes(s, o) <==> !(forall|i: int|
            0 <= i < s.len() ==> (#[trigger] s[i]).id != o.id && (s[i].member_function
                != o.member_function || s[i].arg_types != o.arg_types)),
{
}

/// Values of different kinds have different types, and those of one kind the same, but for
/// structs, whose type is that of their name.
pub proof fn law_types(a: Val, b: Val)
    ensures
        (a is Null) != (b is Null) || (a is Bool) != (b is Bool) || (a is Int) != (b is Int) || (
        a is UInt) != (b is UInt) || (a is Float) != (b is Float) || (a is String) != (b is String)
            || (a is Bytes) != (b is Bytes) || (a is List) != (b is List) || (a is Dict) != (
        b is Dict) || (a is Duration) != (b is Duration) || (a is Timestamp) != (b is Timestamp)
            || (a is Struct) != (b is Struct) || (a is Optional) != (b is Optional)
            ==> types::type_of(a) != types::type_of(b),
        a is Null && b is Null || a is Bool && b is Bool || a is Int && b is Int || a is UInt
            && b is UInt || a is Float && b is Float || a is String && b is String || a is Bytes
            && b is Bytes || a is List && b is List || a is Dict && b is Dict || a is Duration
            && b is Duration || a is Timestamp && b is Timestamp || a is Optional && b is Optional
            ==> types::type_of(a) == types::type_of(b),
        a matches Val::Struct(m, _) ==> (b matches Val::Struct(n, _) ==> (types::type_of(a)
            == types::type_of(b) <==> m == n)),
{
}

/// What is known of an expression's type ahead of evaluation is true of its value.
pub proof fn law_hints(e: Expr, p: Seq<usize>, c: Scope, v: Val)
    requires
        semantics::eval_expr(e, p, c) == Ok::<Val, Fault>(v),
    ensures
        match function_handle::hint_of(e) {
            TypeHint::String => v is String,
            TypeHint::Int => v is Int,
            TypeHint::UInt => v is UInt,
            TypeHint::Float => v is Float,
            TypeHint::Bool => v is Bool,
            TypeHint::Bytes => v is Bytes,
            TypeHint::List => v is List,
            TypeHint::Dict => v is Dict,
            TypeHint::Null => v is Null,
            TypeHint::Unknown => !(e is Literal || e is List || e is Dict),
        },
        ({
            let h = function_handle::hint_of(e);
            h != TypeHint::Unknown ==> function_handle::hint_fits(h, types::type_of(v))
        }),
{
}

/// A hint fits the type of its kind and no other; where nothing is known every type fits.
pub proof fn law_hint_fits(h: TypeHint, v: Val)
    ensures
        function_handle::hint_fits(h, types::type_of(v)) <==> match h {
            TypeHint::String => v is String,
            TypeHint::Int => v is Int,
            TypeHint::UInt => v is UInt,
            TypeHint::Float => v is Float,
            TypeHint::Bool => v is Bool,
            TypeHint::Bytes => v is Bytes,
            TypeHint::List => v is List,
            TypeHint::Dict => v is Dict,
            TypeHint::Null => v is Null,
            TypeHint::Unknown => true,
        },
{
}

/// Hints fit an overload: as many as it has arguments, and each the type of its argument.
pub open spec fn hinted_at(o: Overload, member: bool, hints: Seq<TypeHint>) -> bool {
    &&& o.member_function == member
    &&& o.arg_types.len() == hints.len()
    &&& forall|i: int|
        0 <= i < hints.len() ==> function_handle::hint_fits(hints[i], #[trigger] o.arg_types[i])
}

/// Hints lead to the first overload of a name that they fit.
pub proof fn law_hinted(s: Seq<Overload>, member: bool, hints: Seq<TypeHint>, from: int)
    requires
        0 <= from,
    ensures
        match function_handle::first_hinted(s, member, hints, from) {
            Some(k) => from <= k < s.len() && hinted_at(s[k], member, hints) && forall|j: int|
                from <= j < k ==> !hinted_at(#[trigger] s[j], member, hints),
            None => forall|j: int|
                from <= j < s.len() ==> !hinted_at(#[trigger] s[j], member, hints),
        },
    decreases s.len() - from,
{
    if from < s.len() {
        assert(function_handle::hints_accept(s[from], member, hints) == hinted_at(
            s[from],
            member,
            hints,
        ));
        if !function_handle::hints_accept(s[from], member, hints) {
            law_hinted(s, member, hints, from + 1);
        }
    }
}

/// The parts of an expression stand at different places, each below the whole.
pub proof fn law_places(p: Seq<usize>, i: int, j: int)
    requires
        0 <= i < usize::MAX,
        0 <= j < usize::MAX,
        i != j,
    ensures
        to_arg(p, i) != to_arg(p, j),
        to_arg(p, i) != to_target(p),
        to_arg(p, i).len() == p.len() + 1 && to_arg(p, i).subrange(0, p.len() as int) == p,
        to_target(p).len() == p.len() + 1 && to_target(p).subrange(0, p.len() as int) == p,
{
    assert(to_arg(p, i)[p.len() as int] == i + 1);
    assert(to_arg(p, j)[p.len() as int] == j + 1);
    assert(to_target(p)[p.len() as int] == 0);
    assert(to_arg(p, i).subrange(0, p.len() as int) =~= p);
    assert(to_target(p).subrange(0, p.len() as int) =~= p);
}

/// A call in a round of a loop stands where no call in another round, and none outside, stands.
pub proof fn law_rounds_apart(c: Scope, i: usize, j: usize, p: Seq<usize>, q: Seq<usize>)
    requires
        i != j,
    ensures
        context::site(context::in_round(c, i), p) != context::site(context::in_round(c, j), q),
        context::site(context::in_round(c, i), p) != context::site(c, q),
        context::site(c, p).path == p && context::site(c, p).rounds == c.rounds,
{
    let a = context::in_round(c, i).rounds;
    let b = context::in_round(c, j).rounds;
    assert(a[c.rounds.len() as int] == i && b[c.rounds.len() as int] == j);
    assert(a.len() != c.rounds.len());
}

/// A call of a name that no overload fits and that the program registered asks the host, with
/// where it stands, its name, its target, if any, and its arguments; one that is not registered
/// is not there.
pub proof fn law_registered_calls(
    call: CallExpr,
    p: Seq<usize>,
    c: Scope,
    args: Seq<Val>,
    t: Val,
)
    requires
        ast::operator_of(call.func_name@) is None,
        call.resolved_op is None,
        semantics::eval_args(call.args@, p, c) == Ok::<Seq<Val>, Fault>(args),
    ensures
        ({
            let name = call.func_name@;
            let here = Site { path: p, rounds: c.rounds };
            let o = called(call, p, c);
            &&& call.target is None && env::find(c.env, name, false, args) is None ==> {
                &&& c.functions.contains(name) ==> o == error::ask(
                    c.host,
                    Req::Call(here, name, None, args),
                )
                &&& !c.functions.contains(name) ==> o == Err::<Val, Fault>(
                    Fault::UndeclaredReference(name),
                )
            }
            &&& (call.target matches Some(x) && !(x.expr is Ident)) && target_of(call, p, c)
                == Ok::<Val, Fault>(t) && env::find(c.env, name, true, seq![t] + args) is None ==> {
                &&& c.functions.contains(name) ==> o == error::ask(
                    c.host,
                    Req::Call(here, name, Some(t), args),
                )
                &&& !c.functions.contains(name) ==> o == Err::<Val, Fault>(
                    Fault::UndeclaredReference(name),
                )
            }
        }),
{
    assert(semantics::call_kind(ast::operator_of(call.func_name@), call.args@.len())
        == CallKind::General);
}

/// A call that finds an overload is that function on the arguments; on a target that is the first
/// argument. A call on a name calls a function of that namespace first.
pub proof fn law_found_calls(
    call: CallExpr,
    p: Seq<usize>,
    c: Scope,
    args: Seq<Val>,
    t: Val,
    g: Function,
)
    requires
        ast::operator_of(call.func_name@) is None,
        call.resolved_op is None,
        semantics::eval_args(call.args@, p, c) == Ok::<Seq<Val>, Fault>(args),
    ensures
        ({
            let name = call.func_name@;
            let here = Site { path: p, rounds: c.rounds };
            let o = called(call, p, c);
            &&& call.target is None && env::find(c.env, name, false, args) == Some(g) ==> o
                == functions::call_result(g, args, c.host, here)
            &&& (call.target matches Some(x) && !(x.expr is Ident)) && target_of(call, p, c)
                == Ok::<Val, Fault>(t) && env::find(c.env, name, true, seq![t] + args) == Some(g)
                ==> o == functions::call_result(g, seq![t] + args, c.host, here)
            &&& call.target matches Some(x) ==> match x.expr {
                Expr::Ident(prefix) => {
                    let full = prefix@ + "."@ + name;
                    &&& env::find(c.env, full, false, args) == Some(g) ==> o
                        == functions::call_result(g, args, c.host, here)
                    &&& env::find(c.env, full, false, args) is None && c.functions.contains(full)
                        ==> o == error::ask(c.host, Req::Call(here, full, None, args))
                    &&& env::find(c.env, full, false, args) is None && !c.functions.contains(full)
                        && target_of(call, p, c) == Ok::<Val, Fault>(t) && env::find(
                        c.env,
                        name,
                        true,
                        seq![t] + args,
                    ) == Some(g) ==> o == functions::call_result(g, seq![t] + args, c.host, here)
                },
                _ => true,
            }
        }),
{
    assert(semantics::call_kind(ast::operator_of(call.func_name@), call.args@.len())
        == CallKind::General);
}

/// A fault of an argument is the fault of the call, and so is that of its target.
pub proof fn law_call_faults(call: CallExpr, p: Seq<usize>, c: Scope, f: Fault)
    requires
        ast::operator_of(call.func_name@) is None,
    ensures
        call.target is None && semantics::eval_args(call.args@, p, c) == Err::<Seq<Val>, Fault>(f)
            ==> called(call, p, c) == Err::<Val, Fault>(f),
        (call.target matches Some(x) && !(x.expr is Ident)) && target_of(call, p, c) == Err::<
            Val,
            Fault,
        >(f) ==> called(call, p, c) == Err::<Val, Fault>(f),
        (call.target matches Some(x) && !(x.expr is Ident)) && target_of(call, p, c) is Ok
            && semantics::eval_args(call.args@, p, c) == Err::<Seq<Val>, Fault>(f) ==> called(
            call,
            p,
            c,
        ) == Err::<Val, Fault>(f),
{
    assert(semantics::call_kind(ast::operator_of(call.func_name@), call.args@.len())
        == CallKind::General);
}

/// The functions take the arguments that they are for: one or two, of the right types. A
/// registered overload asks the host, with its number.
pub proof fn law_function_arguments(
    g: Function,
    args: Seq<Val>,
    host: Seq<(Req, Outcome)>,
    site: Site,
)
    ensures
        ({
            let o = functions::call_result(g, args, host, site);
            &&& g matches Function::Host(n) ==> o == error::ask(host, Req::Overload(site, n, args))
            &&& g == Function::Noop && args.len() == 1 ==> o == Ok::<Val, Fault>(args[0])
            &&& (g == Function::Noop || g == Function::Size || g == Function::ParseTimestamp
                || g is Field) && args.len() != 1 ==> o == Err::<Val, Fault>(
                Fault::InvalidArgumentCount(1, args.len()),
            )
            &&& (g == Function::Contains || g == Function::StartsWith || g == Function::EndsWith || g
                == Function::Matches) && args.len() != 2 ==> o == Err::<Val, Fault>(
                Fault::InvalidArgumentCount(2, args.len()),
            )
            &&& (g == Function::Contains || g == Function::StartsWith || g == Function::EndsWith || g
                == Function::Matches) && args.len() == 2 && !(args[0] is String
                && args[1] is String) ==> (o matches Err(Fault::UnexpectedType(_, _)))
            &&& g is Field && args.len() == 1 && !(args[0] is Timestamp) ==> (o matches Err(
                Fault::UnexpectedType(_, _),
            ))
            &&& g == Function::ParseTimestamp && args.len() == 1 && !(args[0] is String) ==> (
            o matches Err(Fault::UnexpectedType(_, _)))
        }),
{
}

/// The answer to a request is the first that was given to it; without one the request is made.
pub proof fn law_first_answer(t: Seq<(Req, Outcome)>, q: Req, i: int)
    ensures
        0 <= i < t.len() && t[i].0 == q && (forall|j: int| 0 <= j < i ==> (#[trigger] t[j]).0 != q)
            ==> error::ask(t, q) == t[i].1,
        (forall|j: int| 0 <= j < t.len() ==> (#[trigger] t[j]).0 != q) ==> error::ask(t, q) == Err::<
            Val,
            Fault,
        >(Fault::HostNeeded(q)),
{
    lemma_answer(t, q, 0);
}

proof fn lemma_answer(t: Seq<(Req, Outcome)>, q: Req, from: int)
    requires
        0 <= from,
    ensures
        match error::answer_from(t, q, from) {
            Some(o) => exists|k: int|
                from <= k < t.len() && (#[trigger] t[k]) == (q, o) && forall|j: int|
                    from <= j < k ==> (#[trigger] t[j]).0 != q,
            None => forall|j: int| from <= j < t.len() ==> (#[trigger] t[j]).0 != q,
        },
    decreases t.len() - from,
{
    if from < t.len() {
        if t[from].0 == q {
            assert(t[from] == (q, t[from].1));
        } else {
            lemma_answer(t, q, from + 1);
            match error::answer_from(t, q, from + 1) {
                Some(o) => {
                    let k = choose|k: int|
                        from + 1 <= k < t.len() && (#[trigger] t[k]) == (q, o) && forall|j: int|
                            from + 1 <= j < k ==> (#[trigger] t[j]).0 != q;
                    assert(t[k] == (q, o));
                },
                None => {},
            }
        }
    }
}

/// The index of a name is that of its last occurrence; a name that does not occur has none.
pub proof fn law_last_index(names: Seq<Seq<char>>, name: Seq<char>, i: int)
    ensures
        0 <= i < names.len() && names[i] == name && (forall|j: int|
            i < j < names.len() ==> #[trigger] names[j] != name)
            ==> filter_tree_compiler::name_index(names, name) == Some(i),
        (forall|j: int| 0 <= j < names.len() ==> #[trigger] names[j] != name)
            ==> filter_tree_compiler::name_index(names, name) is None,
    decreases names.len(),
{
    if names.len() > 0 {
        let t = names.drop_last();
        law_last_index(t, name, i);
        assert(forall|j: int| 0 <= j < t.len() ==> #[trigger] t[j] == names[j]);
        assert(names.last() == names[names.len() - 1]);
    }
}

/// A field of a schema is found by its name; of several the last.
pub proof fn law_schema(s: Seq<(Seq<char>, FieldType)>, name: Seq<char>, i: int)
    ensures
        0 <= i < s.len() && s[i].0 == name && (forall|j: int|
            i < j < s.len() ==> (#[trigger] s[j]).0 != name) ==> fast::field_index(s, name) == Some(
            i,
        ) && fast::index_or_zero(s, name) == i,
        (forall|j: int| 0 <= j < s.len() ==> (#[trigger] s[j]).0 != name) ==> fast::field_index(
            s,
            name,
        ) is None && fast::index_or_zero(s, name) == 0,
{
    let n = fast::names_of(s);
    assert(forall|j: int| 0 <= j < s.len() ==> #[trigger] n[j] == s[j].0);
    law_last_index(n, name, i);
}

/// The boolean fields of a schema are those declared as booleans.
pub proof fn law_boolean_fields(s: Seq<(Seq<char>, FieldType)>, name: Seq<char>)
    ensures
        fast::bool_names(s).contains(name) <==> exists|i: int|
            0 <= i < s.len() && (#[trigger] s[i]).0 == name && s[i].1 == FieldType::Bool,
    decreases s.len(),
{
    if s.len() > 0 {
        let t = s.drop_last();
        law_boolean_fields(t, name);
        let b = fast::bool_names(t);
        if fast::bool_names(t).contains(name) {
            let i = choose|i: int|
                0 <= i < t.len() && (#[trigger] t[i]).0 == name && t[i].1 == FieldType::Bool;
            assert(s[i] == t[i]);
            if s.last().1 == FieldType::Bool {
                let k = choose|k: int| 0 <= k < b.len() && b[k] == name;
                assert(b.push(s.last().0)[k] == name);
            }
        }
        if s.last().1 == FieldType::Bool {
            assert(b.push(s.last().0)[b.len() as int] == s.last().0);
            if s.last().0 == name {
                assert(s[s.len() - 1].0 == name);
            }
            if fast::bool_names(s).contains(name) && s.last().0 != name {
                let k = choose|k: int|
                    0 <= k < fast::bool_names(s).len() && fast::bool_names(s)[k] == name;
                assert(b[k] == name);
            }
        }
        if exists|i: int|
            0 <= i < s.len() && (#[trigger] s[i]).0 == name && s[i].1 == FieldType::Bool {
            let i = choose|i: int|
                0 <= i < s.len() && (#[trigger] s[i]).0 == name && s[i].1 == FieldType::Bool;
            if i < t.len() {
                assert(t[i] == s[i]);
            }
        }
    }
}

/// Setting a field sets it in every form in which it is kept, and no other field in any.
pub proof fn law_fields_set(c: Fields, at: int, i: i64, s: Seq<char>, v: Val, other: int)
    requires
        0 <= at < c.values.len(),
        0 <= other < c.values.len(),
        c.ints.len() == c.values.len(),
        c.strings.len() == c.values.len(),
        other != at,
    ensures
        ({
            let x = fast::with_int(c, at, i);
            let y = fast::with_string(c, at, s);
            let z = fast::with_value(c, at, v);
            &&& x.values[at] == Val::Int(i) && x.ints[at] == i
            &&& y.values[at] == Val::String(s) && y.strings[at] == s
            &&& z.values[at] == v
            &&& x.values[other] == c.values[other] && x.ints[other] == c.ints[other] && x.strings
                == c.strings
            &&& y.values[other] == c.values[other] && y.strings[other] == c.strings[other]
                && y.ints == c.ints
            &&& z.values[other] == c.values[other] && z.ints == c.ints && z.strings == c.strings
            &&& x.host == c.host && y.host == c.host && z.host == c.host
        }),
{
}

/// Clearing leaves every field null, with zero and the empty text as its other forms, and as many
/// fields as before; a new context is like that.
pub proof fn law_fields_cleared(c: Fields, n: nat, at: int)
    requires
        0 <= at < c.values.len(),
        n == c.values.len(),
    ensures
        ({
            let x = fast::cleared(c);
            let y = fast::unset(n);
            &&& x.values.len() == n && y.values.len() == n
            &&& x.values[at] == Val::Null && y.values[at] == Val::Null
            &&& x.ints[at] == 0 && y.ints[at] == 0
            &&& x.strings[at].len() == 0 && y.strings[at].len() == 0
            &&& x.host == c.host
            &&& y.host.len() == 0 && y.cache.len() == 0
        }),
{
}

/// A filter says yes where its expression is true, and no where it has another value.
pub proof fn law_verdict(o: Outcome)
    ensures
        fast::verdict(o) == Ok::<bool, Fault>(true) <==> o == Ok::<Val, Fault>(Val::Bool(true)),
        o is Ok <==> fast::verdict(o) is Ok,
        o matches Err(f) ==> fast::verdict(o) == Err::<bool, Fault>(f),
{
}

/// A range holds its ends and what is between them, and nothing before its first end or after its
/// last.
pub proof fn law_ranges<T: Ord>(r: (T, T), v: T)
    requires
        range_set::ordered::<T>(),
    ensures
        range_set::before(v, r.0) ==> !range_set::lies_in(v, r),
        range_set::before(r.1, v) ==> !range_set::lies_in(v, r),
        !range_set::before(v, r.0) && !range_set::before(r.1, v) ==> range_set::lies_in(v, r),
        !range_set::before(r.1, r.0) ==> range_set::lies_in(r.0, r) && range_set::lies_in(r.1, r),
{
    range_set::lemma_order(r.0, r.0, r.0);
    range_set::lemma_order(r.1, r.1, r.1);
}

/// A value is in a set of ranges where one of them holds it.
pub proof fn law_covered<T: Ord>(s: Seq<(T, T)>, r: (T, T), v: T)
    ensures
        range_set::covered(s.push(r), v) <==> range_set::covered(s, v) || range_set::lies_in(v, r),
        !range_set::covered(Seq::<(T, T)>::empty(), v),
{
    let t = s.push(r);
    if range_set::covered(s, v) {
        let i = choose|i: int| 0 <= i < s.len() && range_set::lies_in(v, #[trigger] s[i]);
        assert(t[i] == s[i]);
    }
    if range_set::lies_in(v, r) {
        assert(t[s.len() as int] == r);
    }
    if range_set::covered(t, v) && !range_set::lies_in(v, r) {
        let i = choose|i: int| 0 <= i < t.len() && range_set::lies_in(v, #[trigger] t[i]);
        assert(t[i] == s[i]);
    }
}

} // verus!
