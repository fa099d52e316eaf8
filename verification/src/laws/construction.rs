//! Laws of what makes maps and structs, and of loops.

use crate::assoc;
use crate::common::ast::{ComprehensionExpr, Expr, IdedEntryExpr, MapExpr, StructExpr};
use crate::common::types;
use crate::context;
use crate::context::Scope;
use crate::env;
use crate::env::StructModel;
use crate::error::{Fault, Outcome};
use crate::laws::collections::{can_be_key, is_entry, lemma_lookup, makes_key, rising_names};
use crate::laws::stack::lemma_is_entry;
use crate::objects;
use crate::objects::{KeyVal, Val};
use crate::semantics;
use crate::semantics::to_arg;
use crate::strings;
use vstd::prelude::*;

verus! {

/// What the key of an entry comes to.
pub open spec fn key_at(s: Seq<IdedEntryExpr>, i: int, p: Seq<usize>, c: Scope) -> Outcome {
    semantics::eval_expr(s[i].expr->MapEntry_0.key.expr, to_arg(p, i).push(0), c)
}

/// What the value of an entry comes to.
pub open spec fn value_at(s: Seq<IdedEntryExpr>, i: int, p: Seq<usize>, c: Scope) -> Outcome {
    semantics::eval_expr(s[i].expr->MapEntry_0.value.expr, to_arg(p, i).push(1), c)
}

/// The value that an entry gives to its map: its own, or, where it is optional and an optional,
/// what that holds, if anything.
pub open spec fn entry_given(s: Seq<IdedEntryExpr>, i: int, p: Seq<usize>, c: Scope) -> Option<Val> {
    match value_at(s, i, p, c)->Ok_0 {
        Val::Optional(Some(x)) => if s[i].expr->MapEntry_0.optional {
            Some(*x)
        } else {
            Some(Val::Optional(Some(x)))
        },
        Val::Optional(None) => if s[i].expr->MapEntry_0.optional {
            None
        } else {
            Some(Val::Optional(None))
        },
        v => Some(v),
    }
}

/// All the entries of a map have a key that can be one, and a value.
pub open spec fn entries_valued(s: Seq<IdedEntryExpr>, p: Seq<usize>, c: Scope) -> bool {
    forall|i: int|
        0 <= i < s.len() ==> (#[trigger] s[i]).expr is MapEntry && (key_at(s, i, p, c) matches Ok(k)
            && can_be_key(k)) && value_at(s, i, p, c) is Ok
}

/// An entry gives a value, and no later one gives another to its key.
pub open spec fn gives_last(s: Seq<IdedEntryExpr>, p: Seq<usize>, c: Scope, i: int) -> bool {
    &&& 0 <= i < s.len()
    &&& entry_given(s, i, p, c) is Some
    &&& forall|j: int|
        #![trigger s[j]]
        i < j < s.len() && entry_given(s, j, p, c) is Some ==> key_at(s, j, p, c) != key_at(
            s,
            i,
            p,
            c,
        )
}

/// Some entry gives a value to a key.
pub open spec fn gives_to(s: Seq<IdedEntryExpr>, p: Seq<usize>, c: Scope, k: KeyVal) -> bool {
    exists|i: int|
        #![trigger s[i]]
        0 <= i < s.len() && entry_given(s, i, p, c) is Some && makes_key(
            key_at(s, i, p, c)->Ok_0,
            k,
        )
}

/// A map holds what entries give to it, and nothing else: of a key that is given more than once
/// the last value.
pub open spec fn holds_given(
    d: Seq<(KeyVal, Val)>,
    s: Seq<IdedEntryExpr>,
    p: Seq<usize>,
    c: Scope,
) -> bool {
    &&& objects::distinct_keys(d)
    &&& forall|i: int| #[trigger]
        gives_last(s, p, c, i) ==> is_entry(
            d,
            key_at(s, i, p, c)->Ok_0,
            entry_given(s, i, p, c)->0,
        )
    &&& forall|e: int| 0 <= e < d.len() ==> gives_to(s, p, c, (#[trigger] d[e]).0)
}

/// A map is made of what its entries give to it.
pub proof fn law_map_entries(s: Seq<IdedEntryExpr>, p: Seq<usize>, c: Scope)
    requires
        entries_valued(s, p, c),
    ensures
        semantics::eval_entries(s, p, c) matches Ok(d) && holds_given(d, s, p, c),
    decreases s.len(),
{
    if s.len() > 0 {
        let t = s.drop_last();
        let last = s.len() - 1;
        assert forall|i: int| 0 <= i < t.len() implies (#[trigger] t[i]).expr is MapEntry && (
        key_at(t, i, p, c) matches Ok(k) && can_be_key(k)) && value_at(t, i, p, c) is Ok by {
            assert(t[i] == s[i]);
        }
        law_map_entries(t, p, c);
        let d = semantics::eval_entries(t, p, c)->Ok_0;
        assert(s[last].expr is MapEntry);
        let k = key_at(s, last, p, c)->Ok_0;
        assert(can_be_key(k));
        let key = objects::key_of(k)->0;
        match entry_given(s, last, p, c) {
            None => {
                assert(semantics::eval_entries(s, p, c) == Ok::<Seq<(KeyVal, Val)>, Fault>(d));
                lemma_given_skipped(d, s, p, c);
            },
            Some(x) => {
                let next = objects::dict_insert(d, key, x);
                assert(semantics::eval_entries(s, p, c) == Ok::<Seq<(KeyVal, Val)>, Fault>(next));
                lemma_given_added(d, s, p, c, x);
            },
        }
    } else {
        assert(semantics::eval_entries(s, p, c) == Ok::<Seq<(KeyVal, Val)>, Fault>(Seq::empty()));
    }
}

proof fn lemma_shorter(s: Seq<IdedEntryExpr>, p: Seq<usize>, c: Scope, i: int)
    requires
        0 <= i < s.len() - 1,
    ensures
        s.drop_last()[i] == s[i],
        key_at(s.drop_last(), i, p, c) == key_at(s, i, p, c),
        entry_given(s.drop_last(), i, p, c) == entry_given(s, i, p, c),
        gives_last(s, p, c, i) ==> gives_last(s.drop_last(), p, c, i),
{
    let t = s.drop_last();
    assert(t[i] == s[i]);
    if gives_last(s, p, c, i) {
        assert forall|j: int|
            #![trigger t[j]]
            i < j < t.len() && entry_given(t, j, p, c) is Some implies key_at(t, j, p, c) != key_at(
            t,
            i,
            p,
            c,
        ) by {
            assert(t[j] == s[j]);
        }
    }
}

proof fn lemma_gives_to_longer(s: Seq<IdedEntryExpr>, p: Seq<usize>, c: Scope, k: KeyVal)
    requires
        s.len() > 0,
        gives_to(s.drop_last(), p, c, k),
    ensures
        gives_to(s, p, c, k),
{
    let t = s.drop_last();
    let i = choose|i: int|
        #![trigger t[i]]
        0 <= i < t.len() && entry_given(t, i, p, c) is Some && makes_key(
            key_at(t, i, p, c)->Ok_0,
            k,
        );
    lemma_shorter(s, p, c, i);
    assert(s[i] == t[i]);
}

proof fn lemma_given_skipped(
    d: Seq<(KeyVal, Val)>,
    s: Seq<IdedEntryExpr>,
    p: Seq<usize>,
    c: Scope,
)
    requires
        s.len() > 0,
        holds_given(d, s.drop_last(), p, c),
        entry_given(s, s.len() - 1, p, c) is None,
    ensures
        holds_given(d, s, p, c),
{
    assert forall|i: int| #[trigger] gives_last(s, p, c, i) implies is_entry(
        d,
        key_at(s, i, p, c)->Ok_0,
        entry_given(s, i, p, c)->0,
    ) by {
        lemma_shorter(s, p, c, i);
    }
    assert forall|e: int| 0 <= e < d.len() implies gives_to(s, p, c, (#[trigger] d[e]).0) by {
        lemma_gives_to_longer(s, p, c, d[e].0);
    }
}

proof fn lemma_given_added(
    d: Seq<(KeyVal, Val)>,
    s: Seq<IdedEntryExpr>,
    p: Seq<usize>,
    c: Scope,
    x: Val,
)
    requires
        s.len() > 0,
        entries_valued(s, p, c),
        holds_given(d, s.drop_last(), p, c),
        entry_given(s, s.len() - 1, p, c) == Some(x),
    ensures
        holds_given(
            objects::dict_insert(d, objects::key_of(key_at(s, s.len() - 1, p, c)->Ok_0)->0, x),
            s,
            p,
            c,
        ),
{
    let last = s.len() - 1;
    let k = key_at(s, last, p, c)->Ok_0;
    assert(s[last].expr is MapEntry);
    assert(can_be_key(k));
    let key = objects::key_of(k)->0;
    let next = objects::dict_insert(d, key, x);
    objects::law_dict_insert(d, key, x, key);
    assert forall|i: int| #[trigger] gives_last(s, p, c, i) implies is_entry(
        next,
        key_at(s, i, p, c)->Ok_0,
        entry_given(s, i, p, c)->0,
    ) by {
        assert(s[i].expr is MapEntry);
        let v = key_at(s, i, p, c)->Ok_0;
        let y = entry_given(s, i, p, c)->0;
        lemma_is_entry(next, v, y);
        if i < last {
            assert(s[last].expr is MapEntry);
            assert(key_at(s, last, p, c) != key_at(s, i, p, c));
            let other = objects::key_of(v)->0;
            assert(other != key);
            objects::law_dict_insert(d, key, x, other);
            lemma_shorter(s, p, c, i);
            lemma_is_entry(d, v, y);
        }
    }
    objects::lemma_entry_index(d, key, 0);
    assert forall|e: int| 0 <= e < next.len() implies gives_to(s, p, c, (#[trigger] next[e]).0) by {
        if next[e].0 == key {
            assert(makes_key(key_at(s, last, p, c)->Ok_0, next[e].0));
            assert(s[last] == s[last]);
        } else {
            assert(next[e] == d[e]);
            lemma_gives_to_longer(s, p, c, d[e].0);
        }
    }
}

/// A map expression is the map of its entries; an entry whose key has a fault, or cannot be a
/// key, or whose value has a fault, leaves it without a value.
pub proof fn law_map_expression(m: MapExpr, p: Seq<usize>, c: Scope)
    ensures
        match semantics::eval_entries(m.entries@, p, c) {
            Ok(d) => semantics::eval_expr(Expr::Dict(m), p, c) == Ok::<Val, Fault>(Val::Dict(d)),
            Err(f) => semantics::eval_expr(Expr::Dict(m), p, c) == Err::<Val, Fault>(f),
        },
        (exists|i: int|
            0 <= i < m.entries@.len() && (#[trigger] m.entries@[i]).expr is MapEntry && !(key_at(
                m.entries@,
                i,
                p,
                c,
            ) matches Ok(k) && can_be_key(k) && value_at(m.entries@, i, p, c) is Ok))
            ==> semantics::eval_expr(Expr::Dict(m), p, c) is Err,
{
    let s = m.entries@;
    if exists|i: int|
        0 <= i < s.len() && (#[trigger] s[i]).expr is MapEntry && !(key_at(s, i, p, c) matches Ok(k)
            && can_be_key(k) && value_at(s, i, p, c) is Ok) {
        let i = choose|i: int|
            0 <= i < s.len() && (#[trigger] s[i]).expr is MapEntry && !(key_at(s, i, p, c) matches Ok(
                k,
            ) && can_be_key(k) && value_at(s, i, p, c) is Ok);
        lemma_bad_entry(s, p, c, i);
    }
}

proof fn lemma_bad_entry(s: Seq<IdedEntryExpr>, p: Seq<usize>, c: Scope, i: int)
    requires
        0 <= i < s.len(),
        s[i].expr is MapEntry,
        !(key_at(s, i, p, c) matches Ok(k) && can_be_key(k) && value_at(s, i, p, c) is Ok),
    ensures
        semantics::eval_entries(s, p, c) is Err,
    decreases s.len(),
{
    if i < s.len() - 1 {
        assert(s.drop_last()[i] == s[i]);
        lemma_bad_entry(s.drop_last(), p, c, i);
    }
}

/// Putting into names that rise keeps them rising, gives the name its value, and changes no
/// other.
proof fn lemma_put<V>(s: Seq<(Seq<char>, V)>, k: Seq<char>, v: V, other: Seq<char>)
    requires
        rising_names(s),
    ensures
        rising_names(env::put(s, k, v)),
        env::lookup(env::put(s, k, v), other) == (if other == k {
            Some(v)
        } else {
            env::lookup(s, other)
        }),
{
    let names = env::keys(s);
    assert(assoc::rising(names)) by {
        assert forall|i: int, j: int| 0 <= i < j < names.len() implies strings::text_lt(
            names[i],
            names[j],
        ) by {
            assert(names[i] == s[i].0 && names[j] == s[j].0);
        }
    }
    env::law_put_lookup(s, k, v, other);
    let t = env::put(s, k, v);
    assert forall|i: int, j: int| 0 <= i < j < t.len() implies strings::text_lt(
        (#[trigger] t[i]).0,
        (#[trigger] t[j]).0,
    ) by {
        assert(env::keys(t)[i] == t[i].0 && env::keys(t)[j] == t[j].0);
    }
}

proof fn lemma_filled(
    defaults: Seq<(Seq<char>, Val)>,
    given: Seq<(Seq<char>, Val)>,
    n: int,
    k: Seq<char>,
)
    requires
        rising_names(defaults),
        0 <= n <= defaults.len(),
    ensures
        rising_names(env::filled(defaults, given, n)),
        env::lookup(env::filled(defaults, given, n), k) == (if exists|i: int|
            0 <= i < n && (#[trigger] defaults[i]).0 == k {
            match env::lookup(given, k) {
                Some(v) => Some(v),
                None => env::lookup(defaults, k),
            }
        } else {
            None
        }),
    decreases n,
{
    if n > 0 {
        lemma_filled(defaults, given, n - 1, k);
        lemma_lookup(defaults, k);
        let d = defaults[n - 1];
        let v = match env::lookup(given, d.0) {
            Some(v) => v,
            None => d.1,
        };
        lemma_put(env::filled(defaults, given, n - 1), d.0, v, k);
        if exists|i: int| 0 <= i < n - 1 && (#[trigger] defaults[i]).0 == k {
            let i = choose|i: int| 0 <= i < n - 1 && (#[trigger] defaults[i]).0 == k;
            assert(defaults[i].0 == k);
        }
        if exists|i: int| 0 <= i < n && (#[trigger] defaults[i]).0 == k {
            let i = choose|i: int| 0 <= i < n && (#[trigger] defaults[i]).0 == k;
            if i < n - 1 {
                assert(defaults[i].0 == k);
            }
        }
    } else {
        assert(env::lookup(Seq::<(Seq<char>, Val)>::empty(), k) is None) by {
            let e = Seq::<(Seq<char>, Val)>::empty();
            assert(env::keys(e).len() == 0);
        }
    }
}

/// A field of a new struct: as given, or by default; there is none where it is neither.
pub open spec fn field_of(
    def: StructModel,
    given: Seq<(Seq<char>, Val)>,
    k: Seq<char>,
) -> Option<Val> {
    match env::lookup(given, k) {
        Some(v) => Some(v),
        None => env::lookup(def.defaults, k),
    }
}

/// A struct type whose fields and defaults are ordered by name.
pub open spec fn orderly_type(def: StructModel) -> bool {
    rising_names(def.fields) && rising_names(def.defaults)
}

/// A given field can be one of a struct: the type has a default for it, or has it with the type
/// of the value.
pub open spec fn acceptable(def: StructModel, k: Seq<char>, v: Val) -> bool {
    env::lookup(def.defaults, k) is Some || env::lookup(def.fields, k) == Some(types::type_of(v))
}

proof fn lemma_assembled(def: StructModel, given: Seq<(Seq<char>, Val)>, n: int, k: Seq<char>)
    requires
        orderly_type(def),
        rising_names(given),
        0 <= n <= given.len(),
    ensures
        env::assembled(def, given, n) is Ok <==> forall|i: int|
            0 <= i < n ==> acceptable(def, (#[trigger] given[i]).0, given[i].1),
        env::assembled(def, given, n) matches Ok(acc) ==> {
            &&& rising_names(acc)
            &&& env::lookup(acc, k) == (if env::lookup(def.defaults, k) is Some {
                field_of(def, given, k)
            } else if exists|i: int| 0 <= i < n && (#[trigger] given[i]).0 == k {
                env::lookup(given, k)
            } else {
                None
            })
        },
    decreases n,
{
    lemma_lookup(def.defaults, k);
    lemma_lookup(given, k);
    if n > 0 {
        lemma_assembled(def, given, n - 1, k);
        let g = given[n - 1];
        match env::assembled(def, given, n - 1) {
            Ok(acc) => {
                if env::lookup(def.defaults, g.0) is Some {
                    assert(acceptable(def, g.0, g.1));
                } else {
                    lemma_put(acc, g.0, g.1, k);
                }
                assert(env::assembled(def, given, n) is Ok <==> acceptable(def, g.0, g.1));
                if env::assembled(def, given, n) is Ok {
                    assert forall|i: int| 0 <= i < n implies acceptable(
                        def,
                        (#[trigger] given[i]).0,
                        given[i].1,
                    ) by {
                        if i == n - 1 {
                            assert(given[i] == g);
                        }
                    }
                }
                if exists|i: int| 0 <= i < n - 1 && (#[trigger] given[i]).0 == k {
                    let i = choose|i: int| 0 <= i < n - 1 && (#[trigger] given[i]).0 == k;
                    assert(given[i].0 == k);
                }
                if exists|i: int| 0 <= i < n && (#[trigger] given[i]).0 == k {
                    let i = choose|i: int| 0 <= i < n && (#[trigger] given[i]).0 == k;
                    if i < n - 1 {
                        assert(given[i].0 == k);
                    }
                }
            },
            Err(_) => {
                let i = choose|i: int|
                    0 <= i < n - 1 && !acceptable(def, (#[trigger] given[i]).0, given[i].1);
                assert(!acceptable(def, given[i].0, given[i].1));
            },
        }
    } else {
        lemma_filled(def.defaults, given, def.defaults.len() as int, k);
        if env::lookup(def.defaults, k) is Some {
            let names = env::keys(def.defaults);
            assoc::lemma_lower_bound(names, k, 0);
            let i = assoc::position(names, k)->0;
            assert(names[i] == def.defaults[i].0);
            assert(def.defaults[i].0 == k);
        }
    }
}

/// A new struct has the name of its type; its fields are those given and those with defaults, and
/// no others: a field has the value given to it, or its default. It is refused where a given
/// field is not one of the type, or not of the field's type.
pub proof fn law_new_struct(def: StructModel, given: Seq<(Seq<char>, Val)>, k: Seq<char>)
    requires
        orderly_type(def),
        rising_names(given),
    ensures
        env::struct_made(def, given) is Ok <==> forall|i: int|
            0 <= i < given.len() ==> acceptable(def, (#[trigger] given[i]).0, given[i].1),
        env::struct_made(def, given) matches Ok(v) ==> (v matches Val::Struct(name, fields) && name
            == def.name && rising_names(fields) && env::lookup(fields, k) == field_of(
            def,
            given,
            k,
        )),
{
    lemma_assembled(def, given, given.len() as int, k);
    lemma_lookup(given, k);
    if env::lookup(given, k) is Some {
        let names = env::keys(given);
        assoc::lemma_lower_bound(names, k, 0);
        let i = assoc::position(names, k)->0;
        assert(names[i] == given[i].0);
        assert(given[i].0 == k);
    }
}

/// What a table holds for a name is the entry under it, and nothing where there is none.
pub proof fn law_lookup<V>(s: Seq<(Seq<char>, V)>, k: Seq<char>)
    requires
        rising_names(s),
    ensures
        env::lookup(s, k) is None <==> forall|i: int|
            0 <= i < s.len() ==> (#[trigger] s[i]).0 != k,
        forall|i: int|
            0 <= i < s.len() && (#[trigger] s[i]).0 == k ==> env::lookup(s, k) == Some(s[i].1),
{
    lemma_lookup(s, k);
    if env::lookup(s, k) is Some {
        let names = env::keys(s);
        assoc::lemma_lower_bound(names, k, 0);
        let i = assoc::position(names, k)->0;
        assert(names[i] == s[i].0);
        assert(s[i].0 == k);
    }
}

/// A struct of a type that is not there has no value; else a struct expression is a new struct of
/// that type with the fields that it gives.
pub proof fn law_struct_expression(s: StructExpr, p: Seq<usize>, c: Scope)
    ensures
        ({
            let o = semantics::eval_expr(Expr::Struct(s), p, c);
            match env::lookup(c.env.structs, s.name@) {
                None => o is Err,
                Some(def) => match semantics::eval_fields(s.entries@, p, c) {
                    Ok(given) => o == env::struct_made(def, given),
                    Err(f) => o == Err::<Val, Fault>(f),
                },
            }
        }),
{
}

/// What the value of a field comes to.
pub open spec fn field_at(s: Seq<IdedEntryExpr>, i: int, p: Seq<usize>, c: Scope) -> Outcome {
    semantics::eval_expr(s[i].expr->StructField_0.value.expr, to_arg(p, i), c)
}

/// A field is left out where it is optional and null.
pub open spec fn left_out(s: Seq<IdedEntryExpr>, i: int, p: Seq<usize>, c: Scope) -> bool {
    s[i].expr->StructField_0.optional && field_at(s, i, p, c) == Ok::<Val, Fault>(Val::Null)
}

/// A field gives the last value to a name.
pub open spec fn names_last(
    s: Seq<IdedEntryExpr>,
    p: Seq<usize>,
    c: Scope,
    k: Seq<char>,
    i: int,
) -> bool {
    &&& 0 <= i < s.len()
    &&& s[i].expr->StructField_0.field@ == k
    &&& !left_out(s, i, p, c)
    &&& forall|j: int|
        i < j < s.len() && (#[trigger] s[j]).expr->StructField_0.field@ == k ==> left_out(s, j, p, c)
}

/// No field gives a value to a name.
pub open spec fn names_never(s: Seq<IdedEntryExpr>, p: Seq<usize>, c: Scope, k: Seq<char>) -> bool {
    forall|i: int|
        0 <= i < s.len() && (#[trigger] s[i]).expr->StructField_0.field@ == k ==> left_out(s, i, p, c)
}

proof fn lemma_fewer_fields(s: Seq<IdedEntryExpr>, p: Seq<usize>, c: Scope, k: Seq<char>, i: int)
    requires
        s.len() > 0,
    ensures
        0 <= i < s.len() - 1 ==> field_at(s.drop_last(), i, p, c) == field_at(s, i, p, c),
        0 <= i < s.len() - 1 && names_last(s, p, c, k, i) ==> names_last(
            s.drop_last(),
            p,
            c,
            k,
            i,
        ),
        names_never(s, p, c, k) ==> names_never(s.drop_last(), p, c, k),
{
    let t = s.drop_last();
    assert forall|j: int| 0 <= j < t.len() implies (#[trigger] t[j]) == s[j] && left_out(t, j, p, c)
        == left_out(s, j, p, c) by {}
    if 0 <= i < t.len() {
        assert(t[i] == s[i]);
    }
}

/// The fields that a struct expression gives: each one that is not left out, with its last
/// value; they rise by name.
pub proof fn law_given_fields(
    s: Seq<IdedEntryExpr>,
    p: Seq<usize>,
    c: Scope,
    k: Seq<char>,
    i: int,
)
    requires
        forall|j: int|
            0 <= j < s.len() ==> (#[trigger] s[j]).expr is StructField && field_at(s, j, p, c) is Ok,
    ensures
        semantics::eval_fields(s, p, c) matches Ok(given) && rising_names(given) && (names_last(
            s,
            p,
            c,
            k,
            i,
        ) ==> env::lookup(given, k) == Some(field_at(s, i, p, c)->Ok_0)) && (names_never(s, p, c, k)
            ==> env::lookup(given, k) is None),
    decreases s.len(),
{
    if s.len() > 0 {
        let t = s.drop_last();
        let last = s.len() - 1;
        assert forall|j: int| 0 <= j < t.len() implies (#[trigger] t[j]).expr is StructField
            && field_at(t, j, p, c) is Ok by {
            assert(t[j] == s[j]);
        }
        law_given_fields(t, p, c, k, i);
        lemma_fewer_fields(s, p, c, k, i);
        assert(s[last].expr is StructField);
        let before = semantics::eval_fields(t, p, c)->Ok_0;
        let f = s[last].expr->StructField_0.field@;
        let v = field_at(s, last, p, c)->Ok_0;
        if !left_out(s, last, p, c) {
            lemma_put(before, f, v, k);
        }
    } else {
        let e = Seq::<(Seq<char>, Val)>::empty();
        assert(env::keys(e).len() == 0);
        assert(env::lookup(e, k) is None);
    }
}

/// How many rounds a loop over a value can have: as many as a list has items, or a map entries.
pub open spec fn rounds(range: Val) -> int {
    match range {
        Val::List(l) => l.len() as int,
        Val::Dict(m) => m.len() as int,
        _ => 0,
    }
}

/// The value of a map's key.
pub open spec fn value_of_key(k: KeyVal) -> Val {
    match k {
        KeyVal::Int(i) => Val::Int(i),
        KeyVal::Uint(u) => Val::UInt(u),
        KeyVal::Bool(b) => Val::Bool(b),
        KeyVal::String(s) => Val::String(s),
    }
}

/// The scope of a round. The variable of the loop is the item of a list, or the key of a map's
/// entry; a second one is that entry's value, or, over a list, the second of an item that is a
/// pair, whose first the variable then is. The accumulator has its value of that round.
pub open spec fn round_scope(comp: ComprehensionExpr, c: Scope, range: Val, i: int, accu: Val) -> Scope {
    let r = context::in_round(c, i as usize);
    let one = |a: Val| context::bind(r, comp.iter_var@, a);
    let inner = match (range, comp.iter_var2) {
        (Val::Dict(m), None) => one(value_of_key(m[i].0)),
        (Val::Dict(m), Some(second)) => context::bind(one(value_of_key(m[i].0)), second@, m[i].1),
        (Val::List(l), None) => one(l[i]),
        (Val::List(l), Some(second)) => match l[i] {
            Val::List(pair) => if pair.len() >= 2 {
                context::bind(one(pair[0]), second@, pair[1])
            } else {
                context::bind(one(l[i]), second@, Val::Null)
            },
            _ => context::bind(one(l[i]), second@, Val::Null),
        },
        _ => r,
    };
    context::bind(inner, comp.accu_var@, accu)
}

/// What the condition of a loop says in a round.
pub open spec fn goes_on(
    comp: ComprehensionExpr,
    p: Seq<usize>,
    c: Scope,
    range: Val,
    i: int,
    accu: Val,
) -> Outcome {
    semantics::eval_expr(comp.loop_cond.expr, p.push(2), round_scope(comp, c, range, i, accu))
}

/// What the step of a loop comes to in a round.
pub open spec fn step_of(
    comp: ComprehensionExpr,
    p: Seq<usize>,
    c: Scope,
    range: Val,
    i: int,
    accu: Val,
) -> Outcome {
    semantics::eval_expr(comp.loop_step.expr, p.push(3), round_scope(comp, c, range, i, accu))
}

/// A loop goes through rounds from one on: in each the condition is true, and the step gives the
/// accumulator of the next.
pub open spec fn goes_through(
    comp: ComprehensionExpr,
    p: Seq<usize>,
    c: Scope,
    range: Val,
    accus: Seq<Val>,
    from: int,
) -> bool {
    forall|i: int|
        from <= i < accus.len() - 1 ==> goes_on(comp, p, c, range, i, #[trigger] accus[i]) == Ok::<
            Val,
            Fault,
        >(Val::Bool(true)) && step_of(comp, p, c, range, i, accus[i]) == Ok::<Val, Fault>(
            accus[i + 1],
        )
}

proof fn lemma_loop_from(
    comp: ComprehensionExpr,
    p: Seq<usize>,
    c: Scope,
    range: Val,
    accus: Seq<Val>,
    from: int,
)
    requires
        range is List || range is Dict,
        0 <= from < accus.len(),
        accus.len() - 1 <= rounds(range),
        goes_through(comp, p, c, range, accus, from),
    ensures
        ({
            let items = semantics::loop_items(range)->0;
            let n = accus.len() - 1;
            semantics::eval_loop(comp, p, c, items, range is Dict, from, accus[from])
                == semantics::eval_loop(comp, p, c, items, range is Dict, n, accus[n])
        }),
    decreases accus.len() - from,
{
    if from < accus.len() - 1 {
        lemma_loop_from(comp, p, c, range, accus, from + 1);
        lemma_round_scope(comp, c, range, from, accus[from]);
        assert(goes_on(comp, p, c, range, from, accus[from]) == Ok::<Val, Fault>(Val::Bool(true)));
    }
}

proof fn lemma_round_scope(comp: ComprehensionExpr, c: Scope, range: Val, i: int, accu: Val)
    requires
        range is List || range is Dict,
        0 <= i < rounds(range),
    ensures
        ({
            let items = semantics::loop_items(range)->0;
            &&& items.len() == rounds(range)
            &&& round_scope(comp, c, range, i, accu) == context::bind(
                semantics::bind_item(
                    context::in_round(c, i as usize),
                    comp.iter_var@,
                    semantics::opt_name(comp.iter_var2),
                    range is Dict,
                    items[i],
                ),
                comp.accu_var@,
                accu,
            )
        }),
{
    match range {
        Val::Dict(m) => {
            let items = semantics::loop_items(range)->0;
            let pair = seq![objects::key_value(m[i].0), m[i].1];
            assert(items[i] == Val::List(pair));
            assert(pair.len() == 2 && pair[0] == objects::key_value(m[i].0) && pair[1] == m[i].1);
            assert(objects::key_value(m[i].0) == value_of_key(m[i].0));
        },
        _ => {},
    }
}

/// A loop begins with the accumulator's first value, goes through its rounds in order for as long
/// as the condition is true and there are items, and ends with its result, which sees the last
/// value of the accumulator.
pub proof fn law_loops(
    comp: ComprehensionExpr,
    p: Seq<usize>,
    c: Scope,
    range: Val,
    accus: Seq<Val>,
)
    requires
        range is List || range is Dict,
        accus.len() > 0,
        accus.len() - 1 <= rounds(range),
        semantics::eval_expr(comp.accu_init.expr, p.push(1), c) == Ok::<Val, Fault>(accus[0]),
        semantics::eval_expr(comp.iter_range.expr, p.push(0), c) == Ok::<Val, Fault>(range),
        goes_through(comp, p, c, range, accus, 0),
    ensures
        ({
            let n = accus.len() - 1;
            let o = semantics::eval_expr(Expr::Comprehension(Box::new(comp)), p, c);
            let cond = goes_on(comp, p, c, range, n, accus[n]);
            let result = semantics::eval_expr(
                comp.result.expr,
                p.push(4),
                context::bind(c, comp.accu_var@, accus[n]),
            );
            &&& n == rounds(range) ==> o == result
            &&& n < rounds(range) && (cond matches Ok(v) && v != Val::Bool(true)) ==> o == result
            &&& n < rounds(range) ==> (cond matches Err(f) ==> o == Err::<Val, Fault>(f))
            &&& n < rounds(range) && cond == Ok::<Val, Fault>(Val::Bool(true)) ==> (step_of(
                comp,
                p,
                c,
                range,
                n,
                accus[n],
            ) matches Err(f) ==> o == Err::<Val, Fault>(f))
        }),
{
    lemma_loop_from(comp, p, c, range, accus, 0);
    let n = accus.len() - 1;
    if n < rounds(range) {
        lemma_round_scope(comp, c, range, n, accus[n]);
    } else if n > 0 {
        lemma_round_scope(comp, c, range, 0, accus[0]);
    }
}

/// A loop whose accumulator or range has a fault has that fault, the accumulator's first; one
/// over what is neither a list nor a map is refused.
pub proof fn law_no_loop(comp: ComprehensionExpr, p: Seq<usize>, c: Scope)
    ensures
        ({
            let o = semantics::eval_expr(Expr::Comprehension(Box::new(comp)), p, c);
            let init = semantics::eval_expr(comp.accu_init.expr, p.push(1), c);
            let range = semantics::eval_expr(comp.iter_range.expr, p.push(0), c);
            &&& init matches Err(f) ==> o == Err::<Val, Fault>(f)
            &&& init is Ok ==> (range matches Err(f) ==> o == Err::<Val, Fault>(f))
            &&& init is Ok ==> (range matches Ok(v) ==> !(v is List || v is Dict) ==> o == Err::<
                Val,
                Fault,
            >(Fault::NoSuchOverload))
        }),
{
}

/// The variables of a round: the loop's own hide those outside, and the others stay.
pub proof fn law_round_variables(
    comp: ComprehensionExpr,
    c: Scope,
    l: Seq<Val>,
    i: int,
    accu: Val,
    name: Seq<char>,
)
    requires
        0 <= i < l.len(),
        comp.iter_var2 is None,
        comp.iter_var@ != comp.accu_var@,
    ensures
        ({
            let r = round_scope(comp, c, Val::List(l), i, accu);
            &&& context::variable(r, comp.iter_var@) == Some(l[i])
            &&& context::variable(r, comp.accu_var@) == Some(accu)
            &&& name != comp.iter_var@ && name != comp.accu_var@ ==> context::variable(r, name)
                == context::variable(c, name)
        }),
{
}

} // verus!
