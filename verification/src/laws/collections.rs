//! Laws of membership, indices and fields, of what lists, maps and structs are made of, and of
//! names.

use crate::assoc;
use crate::common::ast::{CallExpr, Expr, IdedExpr, ListExpr, LiteralValue, SelectExpr};
use crate::context::Scope;
use crate::env;
use crate::error::{Fault, Outcome};
use crate::laws::arithmetic::{called, lemma_operators, on_two, operands};
use crate::objects;
use crate::objects::{KeyVal, Val};
use crate::semantics;
use crate::semantics::{to_arg, to_target};
use crate::strings;
use vstd::prelude::*;
use vstd::string::*;

verus! {

/// A value is the value of a key: an integer, signed or not, a boolean or a text.
pub open spec fn makes_key(v: Val, k: KeyVal) -> bool {
    match (v, k) {
        (Val::Int(a), KeyVal::Int(b)) => a == b,
        (Val::UInt(a), KeyVal::Uint(b)) => a == b,
        (Val::Bool(a), KeyVal::Bool(b)) => a == b,
        (Val::String(a), KeyVal::String(b)) => a == b,
        _ => false,
    }
}

/// A map has an entry with the key that a value makes.
pub open spec fn has_key(m: Seq<(KeyVal, Val)>, v: Val) -> bool {
    exists|i: int| 0 <= i < m.len() && makes_key(v, (#[trigger] m[i]).0)
}

/// The value of a map's first entry with the key that a value makes.
pub open spec fn is_entry(m: Seq<(KeyVal, Val)>, v: Val, x: Val) -> bool {
    exists|i: int|
        0 <= i < m.len() && makes_key(v, (#[trigger] m[i]).0) && x == m[i].1 && forall|j: int|
            0 <= j < i ==> !makes_key(v, (#[trigger] m[j]).0)
}

/// A value that can be a key.
pub open spec fn can_be_key(v: Val) -> bool {
    v is Int || v is UInt || v is Bool || v is String
}

pub proof fn lemma_entry(m: Seq<(KeyVal, Val)>, v: Val)
    ensures
        can_be_key(v) <==> objects::key_of(v) is Some,
        can_be_key(v) ==> (has_key(m, v) <==> objects::dict_get(m, objects::key_of(v)->0) is Some),
        can_be_key(v) && has_key(m, v) ==> is_entry(
            m,
            v,
            objects::dict_get(m, objects::key_of(v)->0)->0,
        ),
        forall|x: Val, y: Val|
            #![trigger is_entry(m, v, x), is_entry(m, v, y)]
            is_entry(m, v, x) && is_entry(m, v, y) ==> x == y,
{
    if can_be_key(v) {
        let k = objects::key_of(v)->0;
        assert forall|j: KeyVal| makes_key(v, j) == (j == k) by {}
        objects::lemma_entry_index(m, k, 0);
        match objects::entry_index(m, k, 0) {
            Some(i) => {
                assert(makes_key(v, m[i].0));
            },
            None => {},
        }
    }
    assert forall|x: Val, y: Val|
        #![trigger is_entry(m, v, x), is_entry(m, v, y)]
        is_entry(m, v, x) && is_entry(m, v, y) implies x == y by {
        let i = choose|i: int|
            0 <= i < m.len() && makes_key(v, (#[trigger] m[i]).0) && x == m[i].1 && forall|j: int|
                0 <= j < i ==> !makes_key(v, (#[trigger] m[j]).0);
        let k = choose|i: int|
            0 <= i < m.len() && makes_key(v, (#[trigger] m[i]).0) && y == m[i].1 && forall|j: int|
                0 <= j < i ==> !makes_key(v, (#[trigger] m[j]).0);
        if i < k {
            assert(makes_key(v, m[i].0));
        }
        if k < i {
            assert(makes_key(v, m[k].0));
        }
    }
}

/// `v in m` is true of a map exactly where it has an entry with that key: exactly where `m[v]`
/// has a value, which is that entry's. What cannot be a key is refused.
pub proof fn law_maps_hold(
    within: CallExpr,
    index: CallExpr,
    p: Seq<usize>,
    c: Scope,
    v: Val,
    m: Seq<(KeyVal, Val)>,
)
    requires
        on_two(within, "@in"@),
        on_two(index, "_[_]"@),
        operands(within, p, c, v, Val::Dict(m)),
        operands(index, p, c, Val::Dict(m), v),
    ensures
        can_be_key(v) ==> called(within, p, c) == Ok::<Val, Fault>(Val::Bool(has_key(m, v))),
        can_be_key(v) ==> (called(index, p, c) is Ok <==> has_key(m, v)),
        called(index, p, c) matches Ok(x) ==> is_entry(m, v, x),
        can_be_key(v) && !has_key(m, v) ==> (called(index, p, c) matches Err(
            Fault::NoSuchKey(_),
        )),
        !can_be_key(v) ==> called(within, p, c) == Err::<Val, Fault>(
            Fault::UnsupportedMapIndex(v),
        ) && called(index, p, c) == Err::<Val, Fault>(Fault::UnsupportedMapIndex(v)),
        m.len() == 0 && can_be_key(v) ==> called(within, p, c) == Ok::<Val, Fault>(
            Val::Bool(false),
        ),
{
    lemma_operators();
    lemma_entry(m, v);
}

/// `v in l` is true of a list exactly where some item is equal to `v`.
pub proof fn law_lists_hold(call: CallExpr, p: Seq<usize>, c: Scope, v: Val, l: Seq<Val>)
    requires
        on_two(call, "@in"@),
        operands(call, p, c, v, Val::List(l)),
    ensures
        called(call, p, c) == Ok::<Val, Fault>(
            Val::Bool(exists|i: int| 0 <= i < l.len() && objects::val_eq(#[trigger] l[i], v)),
        ),
{
    lemma_operators();
}

/// Nothing is in what is neither a list nor a map.
pub proof fn law_others_hold_nothing(call: CallExpr, p: Seq<usize>, c: Scope, v: Val, w: Val)
    requires
        on_two(call, "@in"@),
        operands(call, p, c, v, w),
        !(w is List || w is Dict),
    ensures
        called(call, p, c) == Err::<Val, Fault>(Fault::NoSuchOverload),
{
    lemma_operators();
}

/// `l[i]` is the item at position `i`, counted from zero; a negative index counts from the
/// end, where `-1` is the last. Outside there is nothing.
pub proof fn law_list_items(
    call: CallExpr,
    p: Seq<usize>,
    c: Scope,
    l: Seq<Val>,
    i: i64,
    u: u64,
)
    requires
        on_two(call, "_[_]"@),
    ensures
        operands(call, p, c, Val::List(l), Val::Int(i)) ==> {
            let o = called(call, p, c);
            &&& 0 <= i < l.len() ==> o == Ok::<Val, Fault>(l[i as int])
            &&& -l.len() <= i < 0 ==> o == Ok::<Val, Fault>(l[l.len() + i])
            &&& i >= l.len() || i < -l.len() ==> o == Err::<Val, Fault>(
                Fault::IndexOutOfBounds(Val::Int(i)),
            )
        },
        operands(call, p, c, Val::List(l), Val::UInt(u)) ==> {
            let o = called(call, p, c);
            &&& u < l.len() ==> o == Ok::<Val, Fault>(l[u as int])
            &&& u >= l.len() ==> o == Err::<Val, Fault>(Fault::IndexOutOfBounds(Val::UInt(u)))
        },
{
    lemma_operators();
}

/// A list has no items but at integers; what is no list, map, struct or optional has no items.
pub proof fn law_no_items(call: CallExpr, p: Seq<usize>, c: Scope, w: Val, v: Val)
    requires
        on_two(call, "_[_]"@),
        operands(call, p, c, w, v),
    ensures
        w is List && !(v is Int || v is UInt) ==> called(call, p, c) == Err::<Val, Fault>(
            Fault::UnsupportedListIndex(v),
        ),
        !(w is List || w is Dict || w is Struct || w is Optional) ==> called(call, p, c) == Err::<
            Val,
            Fault,
        >(Fault::NoSuchOverload),
        w is Struct && !(v is String) ==> called(call, p, c) == Err::<Val, Fault>(
            Fault::NoSuchOverload,
        ),
{
    lemma_operators();
}

/// `x[?i]` is what `x[i]` is, in an optional: empty where there is nothing, never a fault. In
/// an optional, both forms look into what it holds, and give an optional.
pub proof fn law_optional_items(
    maybe: CallExpr,
    plain: CallExpr,
    inside: CallExpr,
    p: Seq<usize>,
    c: Scope,
    w: Val,
    v: Val,
)
    requires
        on_two(maybe, "_[?_]"@),
        on_two(plain, "_[_]"@),
        on_two(inside, "_[_]"@),
        operands(maybe, p, c, w, v),
        operands(plain, p, c, w, v),
        w matches Val::Optional(Some(x)) ==> operands(inside, p, c, *x, v) && !(*x is Optional),
    ensures
        !(w is Optional) ==> called(maybe, p, c) == Ok::<Val, Fault>(
            Val::Optional(
                match called(plain, p, c) {
                    Ok(x) => Some(Box::new(x)),
                    Err(_) => None,
                },
            ),
        ),
        w matches Val::Optional(None) ==> called(maybe, p, c) == Ok::<Val, Fault>(w) && called(
            plain,
            p,
            c,
        ) == Ok::<Val, Fault>(w),
        w matches Val::Optional(Some(_)) ==> called(maybe, p, c) == called(plain, p, c) && called(
            plain,
            p,
            c,
        ) == Ok::<Val, Fault>(
            Val::Optional(
                match called(inside, p, c) {
                    Ok(x) => Some(Box::new(x)),
                    Err(_) => None,
                },
            ),
        ),
{
    lemma_operators();
}

/// What a selection comes to.
pub open spec fn selected(sel: SelectExpr, p: Seq<usize>, c: Scope) -> Outcome {
    semantics::eval_expr(Expr::Select(sel), p, c)
}

/// `m.f` is the value of the entry with the text `f` as its key; `has(m.f)` says whether there
/// is one. A list has no fields, and neither have other values but structs.
pub proof fn law_map_fields(
    plain: SelectExpr,
    test: SelectExpr,
    p: Seq<usize>,
    c: Scope,
    w: Val,
)
    requires
        !plain.test,
        test.test,
        test.field@ == plain.field@,
        semantics::eval_expr(plain.operand.expr, to_target(p), c) == Ok::<Val, Fault>(w),
        semantics::eval_expr(test.operand.expr, to_target(p), c) == Ok::<Val, Fault>(w),
    ensures
        ({
            let f = Val::String(plain.field@);
            &&& w matches Val::Dict(m) ==> {
                &&& selected(plain, p, c) is Ok <==> has_key(m, f)
                &&& selected(plain, p, c) matches Ok(x) ==> is_entry(m, f, x)
                &&& !has_key(m, f) ==> selected(plain, p, c) == Err::<Val, Fault>(
                    Fault::NoSuchKey(plain.field@),
                )
            }
            &&& selected(test, p, c) == Ok::<Val, Fault>(Val::Bool(selected(plain, p, c) is Ok))
            &&& w is List ==> selected(plain, p, c) == Err::<Val, Fault>(
                Fault::UnsupportedListIndex(f),
            )
            &&& !(w is Dict || w is Struct || w is List) ==> selected(plain, p, c) == Err::<
                Val,
                Fault,
            >(Fault::NoSuchOverload)
        }),
{
    match w {
        Val::Dict(m) => {
            lemma_entry(m, Val::String(plain.field@));
        },
        _ => {},
    }
}

/// A selection from what has a fault has that fault, tested for or not.
pub proof fn law_no_selection(sel: SelectExpr, p: Seq<usize>, c: Scope, f: Fault)
    requires
        semantics::eval_expr(sel.operand.expr, to_target(p), c) == Err::<Val, Fault>(f),
    ensures
        selected(sel, p, c) == Err::<Val, Fault>(f),
{
}

/// Names that rise, as a struct's do.
pub open spec fn rising_names<V>(s: Seq<(Seq<char>, V)>) -> bool {
    forall|i: int, j: int|
        0 <= i < j < s.len() ==> strings::text_lt((#[trigger] s[i]).0, (#[trigger] s[j]).0)
}

pub proof fn lemma_lookup<V>(s: Seq<(Seq<char>, V)>, k: Seq<char>)
    requires
        rising_names(s),
    ensures
        env::lookup(s, k) is None ==> forall|i: int| 0 <= i < s.len() ==> (#[trigger] s[i]).0 != k,
        forall|i: int|
            0 <= i < s.len() && (#[trigger] s[i]).0 == k ==> env::lookup(s, k) == Some(s[i].1),
{
    let names = env::keys(s);
    assert(assoc::rising(names)) by {
        assert forall|i: int, j: int| 0 <= i < j < names.len() implies strings::text_lt(
            names[i],
            names[j],
        ) by {
            assert(names[i] == s[i].0 && names[j] == s[j].0);
        }
    }
    assoc::lemma_position(names, k);
    assert forall|i: int| 0 <= i < s.len() && (#[trigger] s[i]).0 == k implies env::lookup(s, k)
        == Some(s[i].1) by {
        assert(names[i] == k);
    }
}

/// A field of a struct is the value under its name, by selection and by index; `has` says
/// whether it is there.
pub proof fn law_struct_fields(
    sel: SelectExpr,
    index: CallExpr,
    p: Seq<usize>,
    c: Scope,
    name: Seq<char>,
    s: Seq<(Seq<char>, Val)>,
    i: int,
)
    requires
        rising_names(s),
        !sel.test,
        semantics::eval_expr(sel.operand.expr, to_target(p), c) == Ok::<Val, Fault>(
            Val::Struct(name, s),
        ),
        on_two(index, "_[_]"@),
        operands(index, p, c, Val::Struct(name, s), Val::String(sel.field@)),
    ensures
        0 <= i < s.len() && s[i].0 == sel.field@ ==> selected(sel, p, c) == Ok::<Val, Fault>(
            s[i].1,
        ),
        (forall|j: int| 0 <= j < s.len() ==> (#[trigger] s[j]).0 != sel.field@) ==> selected(
            sel,
            p,
            c,
        ) == Err::<Val, Fault>(Fault::NoSuchKey(sel.field@)),
        called(index, p, c) == selected(sel, p, c),
{
    lemma_operators();
    lemma_lookup(s, sel.field@);
    if env::lookup(s, sel.field@) is Some {
        let names = env::keys(s);
        assoc::lemma_lower_bound(names, sel.field@, 0);
        let k = assoc::position(names, sel.field@)->0;
        assert(names[k] == s[k].0);
    }
}

/// `x.?f` is `x.f` in an optional; in an optional it looks into what that holds.
pub proof fn law_optional_fields(
    call: CallExpr,
    sel: SelectExpr,
    p: Seq<usize>,
    c: Scope,
    w: Val,
    v: Val,
)
    requires
        on_two(call, "_?._"@),
        operands(call, p, c, w, v),
        !sel.test,
        v == Val::String(sel.field@),
        semantics::eval_expr(sel.operand.expr, to_target(p), c) == Ok::<Val, Fault>(
            match w {
                Val::Optional(Some(x)) => *x,
                _ => w,
            },
        ),
    ensures
        w matches Val::Optional(None) ==> called(call, p, c) == Ok::<Val, Fault>(w),
        w matches Val::Optional(Some(_)) ==> called(call, p, c) == Ok::<Val, Fault>(
            Val::Optional(
                match selected(sel, p, c) {
                    Ok(x) => Some(Box::new(x)),
                    Err(_) => None,
                },
            ),
        ),
        !(w is Optional) ==> match selected(sel, p, c) {
            Ok(x) => called(call, p, c) == Ok::<Val, Fault>(Val::Optional(Some(Box::new(x)))),
            Err(f) => called(call, p, c) == Err::<Val, Fault>(f),
        },
{
    lemma_operators();
}

/// A name has the value of its variable, and no value where there is none. A constant has its
/// own.
pub proof fn law_names_and_constants(name: String, lit: LiteralValue, p: Seq<usize>, c: Scope)
    ensures
        ({
            let o = semantics::eval_expr(Expr::Ident(name), p, c);
            if c.vars.dom().contains(name@) {
                o == Ok::<Val, Fault>(c.vars[name@])
            } else {
                o == Err::<Val, Fault>(Fault::UndeclaredReference(name@))
            }
        }),
        ({
            let o = semantics::eval_expr(Expr::Literal(lit), p, c);
            match lit {
                LiteralValue::Boolean(b) => o == Ok::<Val, Fault>(Val::Bool(b)),
                LiteralValue::Bytes(b) => o == Ok::<Val, Fault>(Val::Bytes(b@)),
                LiteralValue::Double(x) => o == Ok::<Val, Fault>(Val::Float(x)),
                LiteralValue::Int(i) => o == Ok::<Val, Fault>(Val::Int(i)),
                LiteralValue::Null => o == Ok::<Val, Fault>(Val::Null),
                LiteralValue::String(s) => o == Ok::<Val, Fault>(Val::String(s@)),
                LiteralValue::UInt(u) => o == Ok::<Val, Fault>(Val::UInt(u)),
            }
        }),
{
}

/// The arguments of a call are evaluated from left to right: there are values for all of them,
/// each in its place, or the fault is that of the first that has one.
pub proof fn law_arguments(s: Seq<IdedExpr>, p: Seq<usize>, c: Scope)
    ensures
        match semantics::eval_args(s, p, c) {
            Ok(v) => v.len() == s.len() && forall|i: int|
                0 <= i < s.len() ==> semantics::eval_expr(
                    (#[trigger] s[i]).expr,
                    to_arg(p, i),
                    c,
                ) == Ok::<Val, Fault>(v[i]),
            Err(f) => exists|i: int| #[trigger] fails_first(s, p, c, i, f),
        },
    decreases s.len(),
{
    if s.len() > 0 {
        let before = s.drop_last();
        law_arguments(before, p, c);
        match semantics::eval_args(before, p, c) {
            Ok(v) => {
                match semantics::eval_args(s, p, c) {
                    Ok(w) => {
                        assert forall|i: int| 0 <= i < s.len() implies semantics::eval_expr(
                            (#[trigger] s[i]).expr,
                            to_arg(p, i),
                            c,
                        ) == Ok::<Val, Fault>(w[i]) by {
                            if i < before.len() {
                                assert(before[i] == s[i]);
                            }
                        }
                    },
                    Err(f) => {
                        assert forall|j: int| 0 <= j < s.len() - 1 implies semantics::eval_expr(
                            (#[trigger] s[j]).expr,
                            to_arg(p, j),
                            c,
                        ) is Ok by {
                            assert(before[j] == s[j]);
                        }
                        assert(fails_first(s, p, c, s.len() - 1, f));
                    },
                }
            },
            Err(f) => {
                let i = choose|i: int| #[trigger] fails_first(before, p, c, i, f);
                assert forall|j: int| 0 <= j < i implies semantics::eval_expr(
                    (#[trigger] s[j]).expr,
                    to_arg(p, j),
                    c,
                ) is Ok by {
                    assert(before[j] == s[j]);
                }
                assert(before[i] == s[i]);
                assert(fails_first(s, p, c, i, f));
            },
        }
    }
}

/// A part of an expression has a fault, and the parts before it have values.
pub open spec fn fails_first(s: Seq<IdedExpr>, p: Seq<usize>, c: Scope, i: int, f: Fault) -> bool {
    &&& 0 <= i < s.len()
    &&& semantics::eval_expr(s[i].expr, to_arg(p, i), c) == Err::<Val, Fault>(f)
    &&& forall|j: int|
        0 <= j < i ==> semantics::eval_expr((#[trigger] s[j]).expr, to_arg(p, j), c) is Ok
}

/// What an element gives to its list: itself, or, where it is optional and an optional, what
/// that holds, if anything.
pub open spec fn given(v: Val, optional: bool) -> Seq<Val> {
    match v {
        Val::Optional(Some(x)) => seq![if optional {
            *x
        } else {
            v
        }],
        Val::Optional(None) => if optional {
            Seq::empty()
        } else {
            seq![v]
        },
        _ => seq![v],
    }
}

/// A list is made of what its elements give to it, one behind the other; without optional
/// elements that is their values, each in its place. Its fault is that of the first element
/// that has one.
pub proof fn law_list_elements(
    s: Seq<IdedExpr>,
    p: Seq<usize>,
    optional: Seq<usize>,
    c: Scope,
)
    requires
        s.len() <= usize::MAX,
    ensures
        match semantics::eval_elements(s, p, optional, c) {
            Ok(v) => {
                &&& forall|i: int|
                    0 <= i < s.len() ==> semantics::eval_expr(
                        (#[trigger] s[i]).expr,
                        to_arg(p, i),
                        c,
                    ) is Ok
                &&& optional.len() == 0 ==> v.len() == s.len() && forall|i: int|
                    0 <= i < s.len() ==> semantics::eval_expr(
                        (#[trigger] s[i]).expr,
                        to_arg(p, i),
                        c,
                    ) == Ok::<Val, Fault>(v[i])
                &&& v == Seq::new(
                    s.len(),
                    |i: int|
                        given(
                            semantics::eval_expr(s[i].expr, to_arg(p, i), c)->Ok_0,
                            exists|k: int| 0 <= k < optional.len() && optional[k] == i,
                        ),
                ).flatten()
            },
            Err(f) => exists|i: int| #[trigger] fails_first(s, p, c, i, f),
        },
    decreases s.len(),
{
    let parts = Seq::new(
        s.len(),
        |i: int|
            given(
                semantics::eval_expr(s[i].expr, to_arg(p, i), c)->Ok_0,
                exists|k: int| 0 <= k < optional.len() && optional[k] == i,
            ),
    );
    if s.len() > 0 {
        let before = s.drop_last();
        let last = s.len() - 1;
        law_list_elements(before, p, optional, c);
        let less = Seq::new(
            before.len(),
            |i: int|
                given(
                    semantics::eval_expr(before[i].expr, to_arg(p, i), c)->Ok_0,
                    exists|k: int| 0 <= k < optional.len() && optional[k] == i,
                ),
        );
        assert(parts.drop_last() =~= less) by {
            assert forall|i: int| 0 <= i < less.len() implies parts[i] == less[i] by {
                assert(before[i] == s[i]);
            }
        }
        assert(optional.contains(last as usize) == (exists|k: int|
            0 <= k < optional.len() && optional[k] == last)) by {
            if optional.contains(last as usize) {
                let k = choose|k: int| 0 <= k < optional.len() && optional[k] == last as usize;
                assert(optional[k] == last);
            }
            if exists|k: int| 0 <= k < optional.len() && optional[k] == last {
                let k = choose|k: int| 0 <= k < optional.len() && optional[k] == last;
                assert(optional[k] == last as usize);
            }
        }
        match semantics::eval_elements(before, p, optional, c) {
            Ok(v) => {
                assert forall|j: int| 0 <= j < s.len() - 1 implies semantics::eval_expr(
                    (#[trigger] s[j]).expr,
                    to_arg(p, j),
                    c,
                ) is Ok by {
                    assert(before[j] == s[j]);
                }
                match semantics::eval_elements(s, p, optional, c) {
                    Ok(w) => {
                        let x = semantics::eval_expr(s[last].expr, to_arg(p, last), c)->Ok_0;
                        assert(w =~= v + parts[last]);
                        parts.lemma_flatten_and_flatten_alt_are_equivalent();
                        less.lemma_flatten_and_flatten_alt_are_equivalent();
                        assert(parts.last() == parts[last]);
                        if optional.len() == 0 {
                            assert forall|i: int| 0 <= i < s.len() implies semantics::eval_expr(
                                (#[trigger] s[i]).expr,
                                to_arg(p, i),
                                c,
                            ) == Ok::<Val, Fault>(w[i]) by {
                                if i < last {
                                    assert(before[i] == s[i]);
                                    assert(w[i] == v[i]);
                                }
                            }
                        }
                    },
                    Err(f) => {
                        assert(fails_first(s, p, c, last, f));
                    },
                }
            },
            Err(f) => {
                let i = choose|i: int| #[trigger] fails_first(before, p, c, i, f);
                assert forall|j: int| 0 <= j < i implies semantics::eval_expr(
                    (#[trigger] s[j]).expr,
                    to_arg(p, j),
                    c,
                ) is Ok by {
                    assert(before[j] == s[j]);
                }
                assert(before[i] == s[i]);
                assert(fails_first(s, p, c, i, f));
            },
        }
    } else {
        assert(parts =~= Seq::empty());
        assert(Seq::<Seq<Val>>::empty().flatten() =~= Seq::<Val>::empty());
    }
}

/// A list expression is the list of its elements.
pub proof fn law_list_expression(l: ListExpr, p: Seq<usize>, c: Scope)
    ensures
        match semantics::eval_elements(l.elements@, p, l.optional_indices@, c) {
            Ok(v) => semantics::eval_expr(Expr::List(l), p, c) == Ok::<Val, Fault>(Val::List(v)),
            Err(f) => semantics::eval_expr(Expr::List(l), p, c) == Err::<Val, Fault>(f),
        },
{
}

} // verus!
