//! Laws of numbers read from texts and written as texts, of the names of types, and of what
//! cannot be computed.

use crate::common::ast::{CallExpr, Expr};
use crate::common::types;
use crate::common::types::timestamp;
use crate::context::Scope;
use crate::error::{Fault, Outcome};
use crate::function_handle;
use crate::function_handle::TypeHint;
use crate::laws::arithmetic::{called, lemma_operators, on_two, operands};
use crate::objects::{Timestamp, Val};
use crate::strings;
use crate::vm::vm;
use vstd::prelude::*;

verus! {

/// What the machines read from a text as a signed integer.
pub open spec fn read(s: Seq<char>) -> Outcome {
    vm::builtin_result(1, seq![Val::String(s)], Seq::empty())
}

/// What they read from it as an unsigned integer.
pub open spec fn read_unsigned(s: Seq<char>) -> Outcome {
    vm::builtin_result(3, seq![Val::String(s)], Seq::empty())
}

/// A digit.
pub open spec fn is_digit(c: char) -> bool {
    '0' <= c && c <= '9'
}

proof fn lemma_digits(s: Seq<char>)
    ensures
        strings::digits_value(s) is Some <==> forall|i: int|
            0 <= i < s.len() ==> is_digit(#[trigger] s[i]),
    decreases s.len(),
{
    if s.len() > 0 {
        let r = s.drop_last();
        lemma_digits(r);
        if forall|i: int| 0 <= i < s.len() ==> is_digit(#[trigger] s[i]) {
            assert forall|i: int| 0 <= i < r.len() implies is_digit(#[trigger] r[i]) by {
                assert(r[i] == s[i]);
            }
            assert(is_digit(s[s.len() - 1]));
        }
        if strings::digits_value(s) is Some {
            assert forall|i: int| 0 <= i < s.len() implies is_digit(#[trigger] s[i]) by {
                if i < r.len() {
                    assert(r[i] == s[i]);
                }
            }
        }
    }
}

/// A text is an integer only if it has a digit, and nothing but digits after a sign. An unsigned
/// integer has no minus.
pub proof fn law_only_digits(s: Seq<char>)
    ensures
        ({
            let signed = s.len() > 0 && (s[0] == '-' || s[0] == '+');
            let wrong = s.len() == 0 || (signed && s.len() == 1) || exists|i: int|
                0 <= i < s.len() && !is_digit(#[trigger] s[i]) && !(i == 0 && signed);
            &&& wrong ==> (read(s) matches Err(Fault::FunctionError(f, _)) && f == "int"@)
            &&& wrong || s[0] == '-' ==> (read_unsigned(s) matches Err(Fault::FunctionError(f, _))
                && f == "uint"@)
        }),
{
    let signed = s.len() > 0 && (s[0] == '-' || s[0] == '+');
    let digits = s.drop_first();
    lemma_digits(s);
    if s.len() > 0 {
        lemma_digits(digits);
        if exists|i: int| 0 <= i < s.len() && !is_digit(#[trigger] s[i]) && !(i == 0 && signed) {
            let i = choose|i: int|
                0 <= i < s.len() && !is_digit(#[trigger] s[i]) && !(i == 0 && signed);
            if signed {
                assert(digits[i - 1] == s[i]);
            }
        }
    }
}

/// A digit alone is its number.
pub proof fn law_one_digit(c: char)
    requires
        is_digit(c),
    ensures
        read(seq![c]) == Ok::<Val, Fault>(Val::Int((c as u32 - 48) as i64)),
        read_unsigned(seq![c]) == Ok::<Val, Fault>(Val::UInt((c as u32 - 48) as u64)),
{
    reveal_with_fuel(strings::digits_value, 2);
    assert(seq![c].drop_last() =~= Seq::empty());
}

/// A digit more makes an integer ten times as large and adds the digit, away from zero, and a
/// number that does not fit in 64 bits is refused.
pub proof fn law_digit_more(s: Seq<char>, c: char)
    requires
        is_digit(c),
    ensures
        ({
            let d = c as u32 - 48;
            &&& read(s) matches Ok(v) ==> {
                let n = v->Int_0 as int;
                let m = if s[0] == '-' {
                    10 * n - d
                } else {
                    10 * n + d
                };
                &&& v is Int
                &&& -0x8000_0000_0000_0000 <= m <= 0x7fff_ffff_ffff_ffff ==> read(s.push(c)) == Ok::<
                    Val,
                    Fault,
                >(Val::Int(m as i64))
                &&& !(-0x8000_0000_0000_0000 <= m <= 0x7fff_ffff_ffff_ffff) ==> read(s.push(c)) is Err
            }
            &&& read_unsigned(s) matches Ok(v) ==> {
                let m = 10 * v->UInt_0 + d;
                &&& v is UInt
                &&& m <= 0xffff_ffff_ffff_ffff ==> read_unsigned(s.push(c)) == Ok::<Val, Fault>(
                    Val::UInt(m as u64),
                )
                &&& m > 0xffff_ffff_ffff_ffff ==> read_unsigned(s.push(c)) is Err
            }
        }),
{
    let t = s.push(c);
    if s.len() > 0 {
        assert(t[0] == s[0]);
        assert(t.drop_last() =~= s);
        assert(t.drop_first().drop_last() =~= s.drop_first());
        if s.len() == 1 {
            assert(s.drop_first() =~= Seq::empty());
        }
    }
}

/// A plus changes nothing, and a minus gives the opposite.
pub proof fn law_signs(s: Seq<char>)
    requires
        s.len() > 0,
        is_digit(s[0]),
    ensures
        ({
            let plus = seq!['+'] + s;
            let minus = seq!['-'] + s;
            &&& read(s) is Ok ==> read(plus) == read(s)
            &&& read_unsigned(s) is Ok ==> read_unsigned(plus) == read_unsigned(s)
            &&& read(s) matches Ok(v) ==> read(minus) == Ok::<Val, Fault>(
                Val::Int((-(v->Int_0 as int)) as i64),
            )
        }),
{
    assert((seq!['+'] + s).drop_first() =~= s);
    assert((seq!['-'] + s).drop_first() =~= s);
}

/// A number is written digit by digit, and a negative one behind a minus.
pub proof fn law_written(n: nat, i: int)
    ensures
        ({
            let s = strings::decimal(n);
            let d = (n % 10) as int;
            &&& s.len() > 0
            &&& is_digit(s.last())
            &&& s.last() as u32 == 48 + d
            &&& n < 10 ==> s.len() == 1
            &&& n >= 10 ==> s.drop_last() == strings::decimal(n / 10)
        }),
        i >= 0 ==> strings::signed_decimal(i) == strings::decimal(i as nat),
        i < 0 ==> strings::signed_decimal(i) == seq!['-'] + strings::decimal((-i) as nat),
{
    reveal_strlit("-");
    assert("-"@ =~= seq!['-']);
    if n >= 10 {
        assert(strings::decimal(n).drop_last() =~= strings::decimal(n / 10));
    }
}

/// The names of the types.
pub proof fn law_type_names(v: Val)
    ensures
        ({
            let n = types::type_of(v).name;
            match v {
                Val::Null => n == "null_type"@,
                Val::Bool(_) => n == "bool"@,
                Val::Int(_) => n == "int"@,
                Val::UInt(_) => n == "uint"@,
                Val::Float(_) => n == "double"@,
                Val::String(_) => n == "string"@,
                Val::Bytes(_) => n == "bytes"@,
                Val::List(_) => n == "list"@,
                Val::Dict(_) => n == "map"@,
                Val::Duration(_) => n == "google.protobuf.Duration"@,
                Val::Timestamp(_) => n == "google.protobuf.Timestamp"@,
                Val::Struct(name, _) => n == name,
                Val::Optional(_) => n == "optional_type"@,
            }
        }),
{
}

/// The type of a literal, a list and a map is known ahead of evaluation, and that of nothing
/// else.
pub proof fn law_known_types(e: Expr)
    ensures
        (function_handle::hint_of(e) == TypeHint::Unknown) == !(e is Literal || e is List
            || e is Dict),
{
}

/// A sum or a difference of instants and durations that cannot be told is an overflow.
pub proof fn law_instant_faults(call: CallExpr, p: Seq<usize>, c: Scope, a: Val, b: Val)
    requires
        operands(call, p, c, a, b),
        a is Timestamp || a is Duration,
        b is Timestamp || b is Duration,
    ensures
        ({
            let o = called(call, p, c);
            &&& on_two(call, "_+_"@) && !(a is Timestamp && b is Timestamp) ==> o is Ok || o == Err::<
                Val,
                Fault,
            >(Fault::Overflow("add"@, a, b))
            &&& on_two(call, "_+_"@) && a is Timestamp && b is Timestamp ==> o == Err::<Val, Fault>(
                Fault::UnsupportedBinaryOperator("add"@, a, b),
            )
            &&& on_two(call, "_-_"@) && !(a is Duration && b is Timestamp) ==> o is Ok || o == Err::<
                Val,
                Fault,
            >(Fault::Overflow("sub"@, a, b))
            &&& on_two(call, "_-_"@) && a is Duration && b is Timestamp ==> o == Err::<Val, Fault>(
                Fault::UnsupportedBinaryOperator("sub"@, a, b),
            )
        }),
{
    lemma_operators();
}

/// Operands of types that an operator does not take are told with the operator.
pub proof fn law_unsupported(call: CallExpr, p: Seq<usize>, c: Scope, a: Val, b: Val)
    requires
        operands(call, p, c, a, b),
    ensures
        ({
            let o = called(call, p, c);
            let numbers = a is Int && b is Int || a is UInt && b is UInt || a is Float && b is Float;
            let times = (a is Timestamp || a is Duration) && (b is Timestamp || b is Duration);
            let says = |n: Seq<char>|
                o == Err::<Val, Fault>(Fault::UnsupportedBinaryOperator(n, a, b));
            &&& on_two(call, "_+_"@) && !numbers && !times && !(a is String && b is String) && !(
            a is List && b is List) ==> says("add"@)
            &&& on_two(call, "_-_"@) && !numbers && !times ==> says("sub"@)
            &&& on_two(call, "_*_"@) && !numbers ==> says("mul"@)
            &&& on_two(call, "_/_"@) && !numbers ==> says("div"@)
            &&& on_two(call, "_%_"@) && (!numbers || a is Float) ==> says("rem"@)
        }),
{
    lemma_operators();
}

/// Between instants of leap seconds the time counts the second that one is ahead of its number,
/// and by the time of day the leap second that lies between them or does not.
pub proof fn law_leap_differences(call: CallExpr, p: Seq<usize>, c: Scope, t: Timestamp, u: Timestamp)
    requires
        on_two(call, "_-_"@),
        operands(call, p, c, Val::Timestamp(t), Val::Timestamp(u)),
        timestamp::ordinary(t),
        timestamp::ordinary(u),
    ensures
        ({
            let a = t.nanos as int / 1_000_000_000 % 86_400;
            let b = u.nanos as int / 1_000_000_000 % 86_400;
            let plain = t.nanos - u.nanos;
            let second = 1_000_000_000int;
            let n = if t.leap && !u.leap {
                if a < b {
                    plain
                } else {
                    plain + second
                }
            } else if u.leap && !t.leap {
                if a > b {
                    plain
                } else {
                    plain - second
                }
            } else if t.leap && u.leap {
                if a > b {
                    plain + second
                } else if a < b {
                    plain - second
                } else {
                    plain
                }
            } else {
                plain
            };
            called(call, p, c) matches Ok(Val::Duration(d)) && d.nanos == n
        }),
{
    lemma_operators();
    timestamp::law_language_told(timestamp::TimeField::Hours, t);
    timestamp::law_language_told(timestamp::TimeField::Hours, u);
    timestamp::law_differences_are_durations(t, u);
}

/// The leap second of the last second of the language is outside of it: an instant does not move
/// within it.
pub proof fn law_last_leap_second(t: Timestamp, by: int)
    requires
        timestamp::ordinary(t),
        t.leap,
        t.nanos >= 253_402_300_799_000_000_000,
        253_402_300_799_000_000_000 <= t.nanos + by <= 253_402_300_799_999_999_999,
    ensures
        timestamp::moved(t, by) is None,
{
}

} // verus!
