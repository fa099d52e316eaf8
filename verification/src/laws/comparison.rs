//! Laws of equality and order in the language.

use crate::context::Scope;
use crate::common::ast::CallExpr;
use crate::error::Fault;
use crate::float;
use crate::laws::arithmetic::{called, lemma_operators, operands};
use crate::objects;
use crate::objects::{Duration, KeyVal, Timestamp, Val};
use crate::ops;
use crate::strings;
use vstd::arithmetic::power2::*;
use vstd::prelude::*;
use vstd::string::*;

verus! {

/// A comparison says of two operands what follows from whether the first comes before the
/// second and whether they are the same.
pub open spec fn compares_as(
    call: CallExpr,
    p: Seq<usize>,
    c: Scope,
    before: bool,
    same: bool,
) -> bool {
    let n = call.func_name@;
    let o = called(call, p, c);
    &&& n == "_<_"@ ==> o == Ok::<Val, Fault>(Val::Bool(before))
    &&& n == "_<=_"@ ==> o == Ok::<Val, Fault>(Val::Bool(before || same))
    &&& n == "_>_"@ ==> o == Ok::<Val, Fault>(Val::Bool(!before && !same))
    &&& n == "_>=_"@ ==> o == Ok::<Val, Fault>(Val::Bool(!before))
    &&& equals_as(call, p, c, same)
}

/// The two tests of equality say of two operands whether they are the same.
pub open spec fn equals_as(call: CallExpr, p: Seq<usize>, c: Scope, same: bool) -> bool {
    let n = call.func_name@;
    let o = called(call, p, c);
    &&& n == "_==_"@ ==> o == Ok::<Val, Fault>(Val::Bool(same))
    &&& n == "_!=_"@ ==> o == Ok::<Val, Fault>(Val::Bool(!same))
}

proof fn lemma_compares(
    call: CallExpr,
    p: Seq<usize>,
    c: Scope,
    a: Val,
    b: Val,
    before: bool,
    same: bool,
)
    requires
        operands(call, p, c, a, b),
        objects::val_eq(a, b) == same,
        ops::order_of(a, b) == Ok::<ops::Order, Fault>(
            if before {
                ops::Order::Before
            } else if same {
                ops::Order::Same
            } else {
                ops::Order::After
            },
        ),
        !(before && same),
    ensures
        compares_as(call, p, c, before, same),
{
    lemma_operators();
}

proof fn lemma_equals(call: CallExpr, p: Seq<usize>, c: Scope, a: Val, b: Val)
    requires
        operands(call, p, c, a, b),
    ensures
        equals_as(call, p, c, objects::val_eq(a, b)),
{
    lemma_operators();
}

/// Signed integers compare as the integers that they are; so do unsigned ones, durations by
/// their length, and `false` comes before `true`.
pub proof fn law_numbers_compare(
    call: CallExpr,
    p: Seq<usize>,
    c: Scope,
    i: i64,
    j: i64,
    u: u64,
    v: u64,
    d: Duration,
    e: Duration,
    x: bool,
    y: bool,
)
    ensures
        operands(call, p, c, Val::Int(i), Val::Int(j)) ==> compares_as(call, p, c, i < j, i == j),
        operands(call, p, c, Val::UInt(u), Val::UInt(v)) ==> compares_as(
            call,
            p,
            c,
            u < v,
            u == v,
        ),
        operands(call, p, c, Val::Duration(d), Val::Duration(e)) ==> compares_as(
            call,
            p,
            c,
            d.nanos < e.nanos,
            d.nanos == e.nanos,
        ),
        operands(call, p, c, Val::Bool(x), Val::Bool(y)) ==> compares_as(
            call,
            p,
            c,
            !x && y,
            x == y,
        ),
{
    if operands(call, p, c, Val::Int(i), Val::Int(j)) {
        lemma_compares(call, p, c, Val::Int(i), Val::Int(j), i < j, i == j);
    }
    if operands(call, p, c, Val::UInt(u), Val::UInt(v)) {
        lemma_compares(call, p, c, Val::UInt(u), Val::UInt(v), u < v, u == v);
    }
    if operands(call, p, c, Val::Duration(d), Val::Duration(e)) {
        lemma_compares(
            call,
            p,
            c,
            Val::Duration(d),
            Val::Duration(e),
            d.nanos < e.nanos,
            d.nanos == e.nanos,
        );
    }
    if operands(call, p, c, Val::Bool(x), Val::Bool(y)) {
        lemma_compares(call, p, c, Val::Bool(x), Val::Bool(y), !x && y, x == y);
    }
}

/// One text comes before another: it is a beginning of it, or has the smaller character where
/// they first differ.
pub open spec fn earlier_text(s: Seq<char>, t: Seq<char>) -> bool {
    exists|k: int| #[trigger] differ_from(s, t, k)
}

/// Up to a position two texts are the same; there the first ends, or has the smaller character.
pub open spec fn differ_from(s: Seq<char>, t: Seq<char>, k: int) -> bool {
    &&& 0 <= k <= s.len()
    &&& k < t.len()
    &&& forall|j: int| 0 <= j < k ==> s[j] == t[j]
    &&& k == s.len() || (s[k] as int) < (t[k] as int)
}

proof fn lemma_earlier_text(s: Seq<char>, t: Seq<char>)
    ensures
        strings::text_lt(s, t) == earlier_text(s, t),
    decreases s.len(),
{
    if t.len() == 0 {
        assert(!earlier_text(s, t));
    } else if s.len() == 0 {
        assert(differ_from(s, t, 0));
    } else if s[0] == t[0] {
        let a = s.drop_first();
        let b = t.drop_first();
        lemma_earlier_text(a, b);
        if earlier_text(a, b) {
            let k = choose|k: int| #[trigger] differ_from(a, b, k);
            assert forall|j: int| 0 <= j < k + 1 implies s[j] == t[j] by {
                if j > 0 {
                    assert(a[j - 1] == b[j - 1]);
                }
            }
            assert(differ_from(s, t, k + 1));
        }
        if earlier_text(s, t) {
            let k = choose|k: int| #[trigger] differ_from(s, t, k);
            assert(k > 0);
            assert forall|j: int| 0 <= j < k - 1 implies a[j] == b[j] by {
                assert(s[j + 1] == t[j + 1]);
            }
            assert(differ_from(a, b, k - 1));
        }
    } else {
        if (s[0] as int) < (t[0] as int) {
            assert(differ_from(s, t, 0));
        }
        if earlier_text(s, t) {
            let k = choose|k: int| #[trigger] differ_from(s, t, k);
            if k > 0 {
                assert(s[0] == t[0]);
            }
        }
    }
}

/// Texts compare as in a dictionary, by code points.
pub proof fn law_texts_compare(
    call: CallExpr,
    p: Seq<usize>,
    c: Scope,
    s: Seq<char>,
    t: Seq<char>,
)
    requires
        operands(call, p, c, Val::String(s), Val::String(t)),
    ensures
        compares_as(call, p, c, earlier_text(s, t), s == t),
        !(earlier_text(s, t) && earlier_text(t, s)),
        s == t || earlier_text(s, t) || earlier_text(t, s),
{
    lemma_earlier_text(s, t);
    lemma_earlier_text(t, s);
    strings::lemma_text_lt_irreflexive(s);
    strings::lemma_text_lt_total(s, t);
    if strings::text_lt(s, t) && strings::text_lt(t, s) {
        strings::lemma_text_lt_transitive(s, t, s);
    }
    lemma_compares(
        call,
        p,
        c,
        Val::String(s),
        Val::String(t),
        strings::text_lt(s, t),
        s == t,
    );
}

/// Doubles compare as numbers, by the order of their bits. One that is no number is equal to
/// nothing, and is not ordered.
pub proof fn law_doubles_compare(call: CallExpr, p: Seq<usize>, c: Scope, x: u64, y: u64)
    requires
        operands(call, p, c, Val::Float(x), Val::Float(y)),
    ensures
        !float::nan(x) && !float::nan(y) ==> compares_as(
            call,
            p,
            c,
            float::scaled(x) < float::scaled(y),
            float::scaled(x) == float::scaled(y),
        ),
        float::nan(x) || float::nan(y) ==> {
            let n = call.func_name@;
            &&& equals_as(call, p, c, false)
            &&& n == "_<_"@ || n == "_<=_"@ || n == "_>_"@ || n == "_>=_"@ ==> called(call, p, c)
                == Err::<Val, Fault>(Fault::ValuesNotComparable(Val::Float(x), Val::Float(y)))
        },
{
    let a = Val::Float(x);
    let b = Val::Float(y);
    if float::nan(x) || float::nan(y) {
        lemma_operators();
        lemma_equals(call, p, c, a, b);
    } else {
        lemma_compares(
            call,
            p,
            c,
            a,
            b,
            float::scaled(x) < float::scaled(y),
            float::scaled(x) == float::scaled(y),
        );
    }
}

/// Instants compare by when they are, wherever they are told; a leap second comes after the
/// second that it is told as, and before the next.
pub proof fn law_instants_compare(
    call: CallExpr,
    p: Seq<usize>,
    c: Scope,
    t: Timestamp,
    u: Timestamp,
)
    requires
        operands(call, p, c, Val::Timestamp(t), Val::Timestamp(u)),
    ensures
        t.leap == u.leap ==> compares_as(call, p, c, t.nanos < u.nanos, t.nanos == u.nanos),
        !t.leap && u.leap ==> {
            let end = (u.nanos as int / 1_000_000_000 + 1) * 1_000_000_000;
            compares_as(call, p, c, t.nanos < end, false)
        },
        t.leap && !u.leap ==> {
            let end = (t.nanos as int / 1_000_000_000 + 1) * 1_000_000_000;
            compares_as(call, p, c, u.nanos >= end, false)
        },
{
    let a = Val::Timestamp(t);
    let b = Val::Timestamp(u);
    if t.leap == u.leap {
        lemma_compares(call, p, c, a, b, t.nanos < u.nanos, t.nanos == u.nanos);
    } else if u.leap {
        let end = (u.nanos as int / 1_000_000_000 + 1) * 1_000_000_000;
        lemma_compares(call, p, c, a, b, t.nanos < end, false);
    } else {
        let end = (t.nanos as int / 1_000_000_000 + 1) * 1_000_000_000;
        lemma_compares(call, p, c, a, b, u.nanos >= end, false);
    }
}

/// A signed and an unsigned integer are equal where they are the same integer. A whole number
/// and a double are equal where the double is that number.
pub proof fn law_mixed_numbers_equal(
    call: CallExpr,
    p: Seq<usize>,
    c: Scope,
    i: i64,
    u: u64,
    x: u64,
)
    ensures
        operands(call, p, c, Val::Int(i), Val::UInt(u)) || operands(
            call,
            p,
            c,
            Val::UInt(u),
            Val::Int(i),
        ) ==> equals_as(call, p, c, i as int == u as int),
        -0x20_0000_0000_0000 < i < 0x20_0000_0000_0000 && (operands(
            call,
            p,
            c,
            Val::Int(i),
            Val::Float(x),
        ) || operands(call, p, c, Val::Float(x), Val::Int(i))) ==> equals_as(
            call,
            p,
            c,
            !float::nan(x) && float::scaled(x) == i * pow2(1074),
        ),
        operands(call, p, c, Val::UInt(u), Val::Float(x)) || operands(
            call,
            p,
            c,
            Val::Float(x),
            Val::UInt(u),
        ) ==> equals_as(call, p, c, false),
{
    if operands(call, p, c, Val::Int(i), Val::UInt(u)) {
        lemma_equals(call, p, c, Val::Int(i), Val::UInt(u));
    }
    if operands(call, p, c, Val::UInt(u), Val::Int(i)) {
        lemma_equals(call, p, c, Val::UInt(u), Val::Int(i));
    }
    if -0x20_0000_0000_0000 < i < 0x20_0000_0000_0000 {
        float::law_whole_numbers(i as int);
        if operands(call, p, c, Val::Int(i), Val::Float(x)) {
            lemma_equals(call, p, c, Val::Int(i), Val::Float(x));
        }
        if operands(call, p, c, Val::Float(x), Val::Int(i)) {
            lemma_equals(call, p, c, Val::Float(x), Val::Int(i));
        }
    }
    if operands(call, p, c, Val::UInt(u), Val::Float(x)) {
        lemma_equals(call, p, c, Val::UInt(u), Val::Float(x));
    }
    if operands(call, p, c, Val::Float(x), Val::UInt(u)) {
        lemma_equals(call, p, c, Val::Float(x), Val::UInt(u));
    }
}

/// What kind of value a value is; all numbers are of one kind.
pub open spec fn sort_of(v: Val) -> int {
    match v {
        Val::Null => 0,
        Val::Bool(_) => 1,
        Val::Int(_) => 2,
        Val::UInt(_) => 2,
        Val::Float(_) => 2,
        Val::String(_) => 3,
        Val::Bytes(_) => 4,
        Val::List(_) => 5,
        Val::Dict(_) => 6,
        Val::Duration(_) => 7,
        Val::Timestamp(_) => 8,
        Val::Struct(_, _) => 9,
        Val::Optional(_) => 10,
    }
}

/// Values of different kinds are different, and not ordered; nor are numbers of different types
/// ordered, nor nulls, bytes, lists, maps, structs and optionals.
pub proof fn law_kinds_apart(call: CallExpr, p: Seq<usize>, c: Scope, a: Val, b: Val)
    requires
        operands(call, p, c, a, b),
    ensures
        sort_of(a) != sort_of(b) ==> equals_as(call, p, c, false),
        ({
            let n = call.func_name@;
            let orders = n == "_<_"@ || n == "_<=_"@ || n == "_>_"@ || n == "_>=_"@;
            let alike = a is Int && b is Int || a is UInt && b is UInt || a is Float && b is Float
                || a is String && b is String || a is Bool && b is Bool || a is Timestamp
                && b is Timestamp || a is Duration && b is Duration;
            orders && !alike ==> called(call, p, c) == Err::<Val, Fault>(Fault::NoSuchOverload)
        }),
{
    lemma_operators();
    lemma_equals(call, p, c, a, b);
}

/// Nulls are equal. Bytes are equal where they are the same, and optionals where both are empty
/// or hold equal values.
pub proof fn law_small_values_equal(
    call: CallExpr,
    p: Seq<usize>,
    c: Scope,
    x: Seq<u8>,
    y: Seq<u8>,
    a: Box<Val>,
    b: Box<Val>,
)
    ensures
        operands(call, p, c, Val::Null, Val::Null) ==> equals_as(call, p, c, true),
        operands(call, p, c, Val::Bytes(x), Val::Bytes(y)) ==> equals_as(call, p, c, x == y),
        operands(call, p, c, Val::Optional(None), Val::Optional(None)) ==> equals_as(
            call,
            p,
            c,
            true,
        ),
        operands(call, p, c, Val::Optional(Some(a)), Val::Optional(None)) ==> equals_as(
            call,
            p,
            c,
            false,
        ),
        operands(call, p, c, Val::Optional(None), Val::Optional(Some(b))) ==> equals_as(
            call,
            p,
            c,
            false,
        ),
        operands(call, p, c, Val::Optional(Some(a)), Val::Optional(Some(b))) ==> equals_as(
            call,
            p,
            c,
            objects::val_eq(*a, *b),
        ),
{
    if operands(call, p, c, Val::Null, Val::Null) {
        lemma_equals(call, p, c, Val::Null, Val::Null);
    }
    if operands(call, p, c, Val::Bytes(x), Val::Bytes(y)) {
        lemma_equals(call, p, c, Val::Bytes(x), Val::Bytes(y));
    }
    let none = Val::Optional(None);
    let l = Val::Optional(Some(a));
    let r = Val::Optional(Some(b));
    if operands(call, p, c, none, none) {
        lemma_equals(call, p, c, none, none);
    }
    if operands(call, p, c, l, none) {
        lemma_equals(call, p, c, l, none);
    }
    if operands(call, p, c, none, r) {
        lemma_equals(call, p, c, none, r);
    }
    if operands(call, p, c, l, r) {
        lemma_equals(call, p, c, l, r);
    }
}

/// What `==` says of two values is what the equality of values says, so that it can be asked of
/// the parts of a value as well.
pub proof fn law_equality(call: CallExpr, p: Seq<usize>, c: Scope, a: Val, b: Val)
    requires
        operands(call, p, c, a, b),
    ensures
        equals_as(call, p, c, objects::val_eq(a, b)),
{
    lemma_equals(call, p, c, a, b);
}

/// Lists are equal where they are equally long and equal item by item.
pub proof fn law_lists_equal(x: Seq<Val>, y: Seq<Val>)
    ensures
        x.len() != y.len() ==> !objects::val_eq(Val::List(x), Val::List(y)),
        x.len() == y.len() && (forall|i: int|
            0 <= i < x.len() ==> objects::val_eq(#[trigger] x[i], y[i])) ==> objects::val_eq(
            Val::List(x),
            Val::List(y),
        ),
        forall|i: int|
            0 <= i < x.len() && x.len() == y.len() && !objects::val_eq(#[trigger] x[i], y[i])
                ==> !objects::val_eq(Val::List(x), Val::List(y)),
{
}

/// A map holds for a key a value that is equal to another.
pub open spec fn holds_equal(y: Seq<(KeyVal, Val)>, k: KeyVal, v: Val) -> bool {
    exists|j: int| 0 <= j < y.len() && (#[trigger] y[j]).0 == k && objects::val_eq(v, y[j].1)
}

/// Maps are equal where they have as many entries and each entry of the one is in the other,
/// with an equal value, whatever the order.
pub proof fn law_maps_equal(x: Seq<(KeyVal, Val)>, y: Seq<(KeyVal, Val)>)
    requires
        objects::distinct_keys(y),
    ensures
        objects::val_eq(Val::Dict(x), Val::Dict(y)) <==> x.len() == y.len() && (forall|i: int|
            0 <= i < x.len() ==> holds_equal(y, (#[trigger] x[i]).0, x[i].1)),
{
    assert forall|i: int| 0 <= i < x.len() implies holds_equal(y, (#[trigger] x[i]).0, x[i].1) == (
    match objects::dict_get(y, x[i].0) {
        Some(v) => objects::val_eq(x[i].1, v),
        None => false,
    }) by {
        objects::lemma_entry_index(y, x[i].0, 0);
        match objects::entry_index(y, x[i].0, 0) {
            Some(k) => {
                assert(y[k].0 == x[i].0);
                if holds_equal(y, x[i].0, x[i].1) {
                    let j = choose|j: int|
                        0 <= j < y.len() && (#[trigger] y[j]).0 == x[i].0 && objects::val_eq(
                            x[i].1,
                            y[j].1,
                        );
                    assert(j == k);
                }
            },
            None => {},
        }
    }
}

/// Structs are equal where they are of one type and have equal fields.
pub proof fn law_structs_equal(
    m: Seq<char>,
    x: Seq<(Seq<char>, Val)>,
    n: Seq<char>,
    y: Seq<(Seq<char>, Val)>,
)
    ensures
        objects::val_eq(Val::Struct(m, x), Val::Struct(n, y)) ==> m == n && x.len() == y.len()
            && forall|i: int|
            0 <= i < x.len() ==> (#[trigger] x[i]).0 == y[i].0 && objects::val_eq(
                x[i].1,
                y[i].1,
            ),
        m == n && x.len() == y.len() && (forall|i: int|
            0 <= i < x.len() ==> (#[trigger] x[i]).0 == y[i].0 && objects::val_eq(
                x[i].1,
                y[i].1,
            )) ==> objects::val_eq(Val::Struct(m, x), Val::Struct(n, y)),
{
}

/// A value without doubles that are no numbers, and without maps in which a key occurs twice.
pub open spec fn regular(v: Val) -> bool
    decreases v,
{
    match v {
        Val::Float(x) => !float::nan(x),
        Val::List(l) => forall|i: int| 0 <= i < l.len() ==> regular(#[trigger] l[i]),
        Val::Dict(m) => objects::distinct_keys(m) && forall|i: int|
            0 <= i < m.len() ==> regular((#[trigger] m[i]).1),
        Val::Struct(_, s) => forall|i: int| 0 <= i < s.len() ==> regular((#[trigger] s[i]).1),
        Val::Optional(o) => match o {
            Some(b) => regular(*b),
            None => true,
        },
        _ => true,
    }
}

/// A regular value is equal to itself.
pub proof fn law_equal_to_itself(v: Val)
    requires
        regular(v),
    ensures
        objects::val_eq(v, v),
    decreases v,
{
    match v {
        Val::List(l) => {
            assert forall|i: int| 0 <= i < l.len() implies objects::val_eq(
                #[trigger] l[i],
                l[i],
            ) by {
                law_equal_to_itself(l[i]);
            }
        },
        Val::Dict(m) => {
            assert forall|i: int| 0 <= i < m.len() implies (match objects::dict_get(
                m,
                (#[trigger] m[i]).0,
            ) {
                Some(w) => objects::val_eq(m[i].1, w),
                None => false,
            }) by {
                objects::lemma_entry_index(m, m[i].0, 0);
                assert(objects::entry_index(m, m[i].0, 0) == Some(i));
                law_equal_to_itself(m[i].1);
            }
        },
        Val::Struct(_, s) => {
            assert forall|i: int| 0 <= i < s.len() implies objects::val_eq(
                (#[trigger] s[i]).1,
                s[i].1,
            ) by {
                law_equal_to_itself(s[i].1);
            }
        },
        Val::Optional(o) => {
            match o {
                Some(b) => {
                    law_equal_to_itself(*b);
                },
                None => {},
            }
        },
        _ => {},
    }
}

} // verus!
