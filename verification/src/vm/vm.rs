//! The stack machine.

use crate::common::functions;
use crate::context;
use crate::context::{Context, Scope};
use crate::error;
use crate::error::{ExecutionError, Fault, FloatOp, HostRequest, HostTable, Outcome, Req};
use crate::float;
use crate::objects;
use crate::objects::{Key, KeyVal, Val, Value, ValueMap};
use crate::ops;
use crate::patterns;
use crate::strings;
use crate::vm::bytecode::{Code, Instr, Program, IDX_ACCU, IDX_ITER_ELEM};
use std::sync::Arc;
use vstd::prelude::*;
use vstd::string::*;

verus! {

/// The boolean that a value has to be.
pub open spec fn bool_of(v: Val) -> Result<bool, Fault> {
    match v {
        Val::Bool(b) => Ok(b),
        _ => Err(Fault::NoSuchOverload),
    }
}

/// What the result of a test stands for.
pub open spec fn bool_outcome(r: Result<bool, ExecutionError>) -> Result<bool, Fault> {
    match r {
        Ok(b) => Ok(b),
        Err(e) => Err(e@),
    }
}

/// A test as a value.
pub open spec fn as_value(r: Result<bool, Fault>) -> Outcome {
    match r {
        Ok(b) => Ok(Val::Bool(b)),
        Err(e) => Err(e),
    }
}

pub fn try_bool(v: Value) -> (r: Result<bool, ExecutionError>)
    ensures
        bool_outcome(r) == bool_of(v@),
{
    match v {
        Value::Bool(b) => Ok(b),
        _ => Err(ExecutionError::NoSuchOverload),
    }
}

pub fn try_bool_ref(v: &Value) -> (r: Result<bool, ExecutionError>)
    ensures
        bool_outcome(r) == bool_of(v@),
{
    match v {
        Value::Bool(b) => Ok(*b),
        _ => Err(ExecutionError::NoSuchOverload),
    }
}

/// The sum of the machine, which wraps.
pub open spec fn machine_add(a: Val, b: Val, host: Seq<(Req, Outcome)>) -> Outcome {
    match (a, b) {
        (Val::Int(x), Val::Int(y)) => Ok(Val::Int(x.wrapping_add(y))),
        (Val::UInt(x), Val::UInt(y)) => Ok(Val::UInt(x.wrapping_add(y))),
        (Val::Float(x), Val::Float(y)) => ops::float_result(host, FloatOp::Add, x, y),
        (Val::String(x), Val::String(y)) => Ok(Val::String(x + y)),
        (Val::List(x), Val::List(y)) => Ok(Val::List(x + y)),
        _ => Err(Fault::NoSuchOverload),
    }
}

pub fn vm_add(a: Value, b: Value, host: &HostTable) -> (r: Result<Value, ExecutionError>)
    ensures
        error::outcome(r) == machine_add(a@, b@, host@),
{
    broadcast use objects::group_value_views;

    match (&a, &b) {
        (Value::Int(x), Value::Int(y)) => Ok(Value::Int(x.wrapping_add(*y))),
        (Value::UInt(x), Value::UInt(y)) => Ok(Value::UInt(x.wrapping_add(*y))),
        (Value::Float(x), Value::Float(y)) => host.ask(
            HostRequest::Arithmetic(FloatOp::Add, *x, *y),
        ),
        (Value::String(x), Value::String(y)) => {
            let mut s = x.as_str().to_owned();
            s.append(y.as_str());
            Ok(Value::String(Arc::new(s)))
        },
        (Value::List(x), Value::List(y)) => Ok(Value::List(ops::joined_list(x, y))),
        _ => Err(ExecutionError::NoSuchOverload),
    }
}

/// The difference of the machine, which wraps.
pub open spec fn machine_sub(a: Val, b: Val, host: Seq<(Req, Outcome)>) -> Outcome {
    match (a, b) {
        (Val::Int(x), Val::Int(y)) => Ok(Val::Int(x.wrapping_sub(y))),
        (Val::UInt(x), Val::UInt(y)) => Ok(Val::UInt(x.wrapping_sub(y))),
        (Val::Float(x), Val::Float(y)) => ops::float_result(host, FloatOp::Sub, x, y),
        _ => Err(Fault::NoSuchOverload),
    }
}

pub fn vm_sub(a: Value, b: Value, host: &HostTable) -> (r: Result<Value, ExecutionError>)
    ensures
        error::outcome(r) == machine_sub(a@, b@, host@),
{
    match (&a, &b) {
        (Value::Int(x), Value::Int(y)) => Ok(Value::Int(x.wrapping_sub(*y))),
        (Value::UInt(x), Value::UInt(y)) => Ok(Value::UInt(x.wrapping_sub(*y))),
        (Value::Float(x), Value::Float(y)) => host.ask(
            HostRequest::Arithmetic(FloatOp::Sub, *x, *y),
        ),
        _ => Err(ExecutionError::NoSuchOverload),
    }
}

/// The product of the machine, which wraps.
pub open spec fn machine_mul(a: Val, b: Val, host: Seq<(Req, Outcome)>) -> Outcome {
    match (a, b) {
        (Val::Int(x), Val::Int(y)) => Ok(Val::Int(x.wrapping_mul(y))),
        (Val::UInt(x), Val::UInt(y)) => Ok(Val::UInt(x.wrapping_mul(y))),
        (Val::Float(x), Val::Float(y)) => ops::float_result(host, FloatOp::Mul, x, y),
        _ => Err(Fault::NoSuchOverload),
    }
}

pub fn vm_mul(a: Value, b: Value, host: &HostTable) -> (r: Result<Value, ExecutionError>)
    ensures
        error::outcome(r) == machine_mul(a@, b@, host@),
{
    match (&a, &b) {
        (Value::Int(x), Value::Int(y)) => Ok(Value::Int(x.wrapping_mul(*y))),
        (Value::UInt(x), Value::UInt(y)) => Ok(Value::UInt(x.wrapping_mul(*y))),
        (Value::Float(x), Value::Float(y)) => host.ask(
            HostRequest::Arithmetic(FloatOp::Mul, *x, *y),
        ),
        _ => Err(ExecutionError::NoSuchOverload),
    }
}

/// The quotient does not fit.
pub open spec fn quotient_overflows(a: Val, b: Val) -> bool {
    a == Val::Int(i64::MIN) && b == Val::Int(-1i64)
}

/// The quotient of the machine, which truncates.
pub open spec fn machine_div(a: Val, b: Val, host: Seq<(Req, Outcome)>) -> Outcome {
    match (a, b) {
        (Val::Int(x), Val::Int(y)) => match x.checked_div(y) {
            Some(q) => Ok(Val::Int(q)),
            None => Err(Fault::DivisionByZero(a)),
        },
        (Val::UInt(x), Val::UInt(y)) => if y == 0 {
            Err(Fault::DivisionByZero(a))
        } else {
            Ok(Val::UInt(x / y))
        },
        (Val::Float(x), Val::Float(y)) => ops::float_result(host, FloatOp::Div, x, y),
        _ => Err(Fault::NoSuchOverload),
    }
}

pub fn vm_div(a: Value, b: Value, host: &HostTable) -> (r: Result<Value, ExecutionError>)
    requires
        !quotient_overflows(a@, b@),
    ensures
        error::outcome(r) == machine_div(a@, b@, host@),
{
    match (&a, &b) {
        (Value::Int(x), Value::Int(y)) => match x.checked_div(*y) {
            Some(q) => Ok(Value::Int(q)),
            None => Err(ExecutionError::DivisionByZero(Value::Int(*x))),
        },
        (Value::UInt(x), Value::UInt(y)) => if *y == 0 {
            Err(ExecutionError::DivisionByZero(Value::UInt(*x)))
        } else {
            Ok(Value::UInt(*x / *y))
        },
        (Value::Float(x), Value::Float(y)) => host.ask(
            HostRequest::Arithmetic(FloatOp::Div, *x, *y),
        ),
        _ => Err(ExecutionError::NoSuchOverload),
    }
}

/// The remainder of the machine, with the sign of the dividend.
pub open spec fn machine_mod(a: Val, b: Val) -> Outcome {
    match (a, b) {
        (Val::Int(x), Val::Int(y)) => match x.checked_rem(y) {
            Some(q) => Ok(Val::Int(q)),
            None => Err(Fault::RemainderByZero(a)),
        },
        (Val::UInt(x), Val::UInt(y)) => if y == 0 {
            Err(Fault::RemainderByZero(a))
        } else {
            Ok(Val::UInt(x % y))
        },
        _ => Err(Fault::NoSuchOverload),
    }
}

pub fn vm_mod(a: Value, b: Value) -> (r: Result<Value, ExecutionError>)
    requires
        !quotient_overflows(a@, b@),
    ensures
        error::outcome(r) == machine_mod(a@, b@),
{
    match (&a, &b) {
        (Value::Int(x), Value::Int(y)) => match x.checked_rem(*y) {
            Some(q) => Ok(Value::Int(q)),
            None => Err(ExecutionError::RemainderByZero(Value::Int(*x))),
        },
        (Value::UInt(x), Value::UInt(y)) => if *y == 0 {
            Err(ExecutionError::RemainderByZero(Value::UInt(*x)))
        } else {
            Ok(Value::UInt(*x % *y))
        },
        _ => Err(ExecutionError::NoSuchOverload),
    }
}

pub fn vm_neg(a: Value) -> (r: Result<Value, ExecutionError>)
    ensures
        error::outcome(r) == ops::negate_result(a@),
{
    ops::negate_value(a)
}

/// The equality of the machine: instants, durations, structs and optionals are equal to
/// nothing; the rest as in the language.
pub open spec fn machine_eq(a: Val, b: Val) -> bool {
    match a {
        Val::Duration(_) => false,
        Val::Timestamp(_) => false,
        Val::Struct(_, _) => false,
        Val::Optional(_) => false,
        _ => objects::val_eq(a, b),
    }
}

pub fn vm_eq(a: &Value, b: &Value) -> (r: bool)
    ensures
        r == machine_eq(a@, b@),
{
    match a {
        Value::Duration(_) | Value::Timestamp(_) | Value::Struct(_) | Value::Optional(_) => false,
        _ => objects::values_equal(a, b),
    }
}

/// `a < b` on the machine, where an integer and a double can be compared.
pub open spec fn machine_lt(a: Val, b: Val) -> Result<bool, Fault> {
    match (a, b) {
        (Val::Int(x), Val::Int(y)) => Ok(x < y),
        (Val::UInt(x), Val::UInt(y)) => Ok(x < y),
        (Val::Float(x), Val::Float(y)) => Ok(float::float_lt(x, y)),
        (Val::String(x), Val::String(y)) => Ok(strings::text_lt(x, y)),
        (Val::Bool(x), Val::Bool(y)) => Ok(!x && y),
        (Val::Int(x), Val::Float(y)) => Ok(float::float_lt(float::float_of_int(x as int), y)),
        (Val::Float(x), Val::Int(y)) => Ok(float::float_lt(x, float::float_of_int(y as int))),
        _ => Err(Fault::ValuesNotComparable(a, b)),
    }
}

pub fn vm_lt(a: &Value, b: &Value) -> (r: Result<bool, ExecutionError>)
    ensures
        bool_outcome(r) == machine_lt(a@, b@),
{
    match (a, b) {
        (Value::Int(x), Value::Int(y)) => Ok(*x < *y),
        (Value::UInt(x), Value::UInt(y)) => Ok(*x < *y),
        (Value::Float(x), Value::Float(y)) => Ok(float::float_less(*x, *y)),
        (Value::String(x), Value::String(y)) => Ok(strings::str_lt(x.as_str(), y.as_str())),
        (Value::Bool(x), Value::Bool(y)) => Ok(!*x && *y),
        (Value::Int(x), Value::Float(y)) => Ok(float::float_less(float::float_from_i64(*x), *y)),
        (Value::Float(x), Value::Int(y)) => Ok(float::float_less(*x, float::float_from_i64(*y))),
        _ => Err(ExecutionError::ValuesNotComparable(a.clone(), b.clone())),
    }
}

/// `a <= b` on the machine.
pub open spec fn machine_le(a: Val, b: Val) -> Result<bool, Fault> {
    match (a, b) {
        (Val::Int(x), Val::Int(y)) => Ok(x <= y),
        (Val::UInt(x), Val::UInt(y)) => Ok(x <= y),
        (Val::Float(x), Val::Float(y)) => Ok(float::float_le(x, y)),
        (Val::String(x), Val::String(y)) => Ok(!strings::text_lt(y, x)),
        (Val::Bool(x), Val::Bool(y)) => Ok(!x || y),
        (Val::Int(x), Val::Float(y)) => Ok(float::float_le(float::float_of_int(x as int), y)),
        (Val::Float(x), Val::Int(y)) => Ok(float::float_le(x, float::float_of_int(y as int))),
        _ => Err(Fault::ValuesNotComparable(a, b)),
    }
}

pub fn vm_le(a: &Value, b: &Value) -> (r: Result<bool, ExecutionError>)
    ensures
        bool_outcome(r) == machine_le(a@, b@),
{
    match (a, b) {
        (Value::Int(x), Value::Int(y)) => Ok(*x <= *y),
        (Value::UInt(x), Value::UInt(y)) => Ok(*x <= *y),
        (Value::Float(x), Value::Float(y)) => Ok(float::float_less_equal(*x, *y)),
        (Value::String(x), Value::String(y)) => Ok(!strings::str_lt(y.as_str(), x.as_str())),
        (Value::Bool(x), Value::Bool(y)) => Ok(!*x || *y),
        (Value::Int(x), Value::Float(y)) => Ok(
            float::float_less_equal(float::float_from_i64(*x), *y),
        ),
        (Value::Float(x), Value::Int(y)) => Ok(
            float::float_less_equal(*x, float::float_from_i64(*y)),
        ),
        _ => Err(ExecutionError::ValuesNotComparable(a.clone(), b.clone())),
    }
}

/// `a < b` excludes `b <= a`, and one of the two holds of values that are no NaN.
pub proof fn law_lt_le(a: Val, b: Val)
    requires
        machine_lt(a, b) is Ok,
        !(a matches Val::Float(x) && float::nan(x)),
        !(b matches Val::Float(y) && float::nan(y)),
    ensures
        machine_le(b, a) is Ok,
        machine_lt(a, b)->Ok_0 == !machine_le(b, a)->Ok_0,
{
    match (a, b) {
        (Val::Int(x), Val::Float(_)) => {
            float::lemma_float_of_int_not_nan(x);
        },
        (Val::Float(_), Val::Int(y)) => {
            float::lemma_float_of_int_not_nan(y);
        },
        _ => {},
    }
}

/// Some item is equal to a value on the machine.
pub open spec fn some_equal(items: Seq<Val>, v: Val) -> bool {
    exists|i: int| 0 <= i < items.len() && machine_eq(#[trigger] items[i], v)
}

/// `val in container` on the machine.
pub open spec fn machine_in(val: Val, container: Val) -> Outcome {
    match container {
        Val::List(items) => Ok(Val::Bool(some_equal(items, val))),
        Val::Dict(m) => match objects::key_of(val) {
            Some(k) => Ok(Val::Bool(objects::dict_get(m, k) is Some)),
            None => Err(Fault::UnsupportedKeyType(val)),
        },
        _ => Err(Fault::NoSuchOverload),
    }
}

pub fn vm_in(val: Value, container: Value) -> (r: Result<Value, ExecutionError>)
    ensures
        error::outcome(r) == machine_in(val@, container@),
{
    broadcast use objects::group_value_views;

    match &container {
        Value::List(items) => {
            let ghost vs = objects::values_view(items@);
            let mut i: usize = 0;
            while i < items.len()
                invariant
                    i <= items@.len(),
                    vs == objects::values_view(items@),
                    container@ == Val::List(vs),
                    forall|j: int| 0 <= j < i ==> !machine_eq(#[trigger] vs[j], val@),
                decreases items@.len() - i,
            {
                assert(vs[i as int] == items@[i as int]@);
                if vm_eq(&items[i], &val) {
                    return Ok(Value::Bool(true));
                }
                i += 1;
            }
            Ok(Value::Bool(false))
        },
        Value::Dict(m) => match value_to_key(val) {
            Ok(k) => Ok(Value::Bool(m.contains_key(&k))),
            Err(e) => Err(e),
        },
        _ => Err(ExecutionError::NoSuchOverload),
    }
}

/// The conjunction of two values that are there: a false one decides, and of a true one and
/// another the other counts.
pub open spec fn machine_and(l: Val, r: Val) -> Val {
    if l == Val::Bool(false) || r == Val::Bool(false) {
        Val::Bool(false)
    } else if l == Val::Bool(true) {
        r
    } else {
        l
    }
}

pub fn vm_logical_and(lhs: Value, rhs: Value) -> (r: Value)
    ensures
        r@ == machine_and(lhs@, rhs@),
{
    match (lhs, rhs) {
        (Value::Bool(false), _) => Value::Bool(false),
        (_, Value::Bool(false)) => Value::Bool(false),
        (Value::Bool(true), other) => other,
        (a, _) => a,
    }
}

/// The disjunction of two values that are there: a true one decides, and of a false one and
/// another the other counts.
pub open spec fn machine_or(l: Val, r: Val) -> Val {
    if l == Val::Bool(true) || r == Val::Bool(true) {
        Val::Bool(true)
    } else if l == Val::Bool(false) {
        r
    } else {
        l
    }
}

pub fn vm_logical_or(lhs: Value, rhs: Value) -> (r: Value)
    ensures
        r@ == machine_or(lhs@, rhs@),
{
    match (lhs, rhs) {
        (Value::Bool(true), _) => Value::Bool(true),
        (_, Value::Bool(true)) => Value::Bool(true),
        (Value::Bool(false), other) => other,
        (a, _) => a,
    }
}

/// The position that an index names on the machine, which counts from the start only, and
/// the integer by which a miss is told.
pub open spec fn machine_position(idx: Val) -> Option<(int, i64)> {
    match idx {
        Val::Int(i) => Some((i as int, i)),
        Val::UInt(u) => Some((u as int, u as i64)),
        _ => None,
    }
}

/// `obj[idx]` on the machine.
pub open spec fn machine_index(obj: Val, idx: Val) -> Outcome {
    match obj {
        Val::List(items) => match machine_position(idx) {
            Some((p, told)) => if 0 <= p < items.len() {
                Ok(items[p])
            } else {
                Err(Fault::IndexOutOfBounds(Val::Int(told)))
            },
            None => Err(Fault::UnsupportedListIndex(idx)),
        },
        Val::Dict(m) => match objects::key_of(idx) {
            Some(k) => match objects::dict_get(m, k) {
                Some(v) => Ok(v),
                None => Err(Fault::NoSuchKey("?"@)),
            },
            None => Err(Fault::UnsupportedKeyType(idx)),
        },
        Val::String(s) => match machine_position(idx) {
            Some((p, told)) => if 0 <= p < s.len() {
                Ok(Val::String(seq![s[p]]))
            } else {
                Err(Fault::IndexOutOfBounds(Val::Int(told)))
            },
            None => Err(Fault::UnsupportedListIndex(idx)),
        },
        _ => Err(Fault::NoSuchOverload),
    }
}

/// The position that an index names in a sequence of a length, or the integer by which a
/// miss is told.
fn position_in(idx: &Value, len: usize) -> (r: Option<Result<usize, i64>>)
    ensures
        match machine_position(idx@) {
            Some((p, told)) => if 0 <= p < len {
                r matches Some(Ok(i)) && i == p
            } else {
                r == Some(Err::<usize, i64>(told))
            },
            None => r is None,
        },
{
    match idx {
        Value::Int(i) => {
            if *i >= 0 && (*i as u128) < len as u128 {
                Some(Ok(*i as usize))
            } else {
                Some(Err(*i))
            }
        },
        Value::UInt(u) => {
            if (*u as u128) < len as u128 {
                Some(Ok(*u as usize))
            } else {
                Some(Err(*u as i64))
            }
        },
        _ => None,
    }
}

pub fn vm_index(obj: Value, idx: Value) -> (r: Result<Value, ExecutionError>)
    ensures
        error::outcome(r) == machine_index(obj@, idx@),
{
    broadcast use objects::group_value_views;

    match &obj {
        Value::List(items) => match position_in(&idx, items.len()) {
            Some(Ok(i)) => Ok(items[i].clone()),
            Some(Err(told)) => Err(ExecutionError::IndexOutOfBounds(Value::Int(told))),
            None => Err(ExecutionError::UnsupportedListIndex(idx)),
        },
        Value::Dict(m) => match value_to_key(idx) {
            Ok(k) => match m.get(&k) {
                Some(v) => Ok(v.clone()),
                None => Err(ExecutionError::no_such_key("?")),
            },
            Err(e) => Err(e),
        },
        Value::String(s) => {
            let n = s.as_str().unicode_len();
            match position_in(&idx, n) {
                Some(Ok(i)) => {
                    let c = s.as_str().substring_char(i, i + 1);
                    assert(c@ =~= seq![s@[i as int]]);
                    Ok(Value::String(Arc::new(c.to_owned())))
                },
                Some(Err(told)) => Err(ExecutionError::IndexOutOfBounds(Value::Int(told))),
                None => Err(ExecutionError::UnsupportedListIndex(idx)),
            }
        },
        _ => Err(ExecutionError::NoSuchOverload),
    }
}

/// A field of a map.
pub open spec fn machine_select(obj: Val, field: Seq<char>) -> Outcome {
    match obj {
        Val::Dict(m) => match objects::dict_get(m, KeyVal::String(field)) {
            Some(v) => Ok(v),
            None => Err(Fault::NoSuchKey(field)),
        },
        _ => Err(Fault::NoSuchOverload),
    }
}

pub fn vm_select(obj: &Value, field: &str) -> (r: Result<Value, ExecutionError>)
    ensures
        error::outcome(r) == machine_select(obj@, field@),
{
    broadcast use objects::group_value_views;

    match obj {
        Value::Dict(m) => match m.get(&Key::String(field.to_owned())) {
            Some(v) => Ok(v.clone()),
            None => Err(ExecutionError::no_such_key(field)),
        },
        _ => Err(ExecutionError::NoSuchOverload),
    }
}

/// Whether a map has a field.
pub open spec fn machine_has(obj: Val, field: Seq<char>) -> bool {
    obj matches Val::Dict(m) && objects::dict_get(m, KeyVal::String(field)) is Some
}

pub fn vm_has_field(obj: &Value, field: &str) -> (r: bool)
    ensures
        r == machine_has(obj@, field@),
{
    broadcast use objects::group_value_views;

    match obj {
        Value::Dict(m) => m.contains_key(&Key::String(field.to_owned())),
        _ => false,
    }
}

/// A field is there exactly where it can be selected.
pub proof fn law_has_select(obj: Val, field: Seq<char>)
    ensures
        machine_has(obj, field) == (machine_select(obj, field) is Ok),
{
}

/// The size of a value on the machine.
pub open spec fn machine_size(v: Val) -> Outcome {
    match functions::size_of(v) {
        Some(n) => Ok(Val::Int(n as usize as i64)),
        None => Err(Fault::NoSuchOverload),
    }
}

pub fn vm_size(a: Value) -> (r: Result<Value, ExecutionError>)
    ensures
        error::outcome(r) == machine_size(a@),
{
    match functions::size_value(&a) {
        Some(n) => Ok(Value::Int(n as i64)),
        None => Err(ExecutionError::NoSuchOverload),
    }
}

/// The key that a value makes.
pub fn value_to_key(v: Value) -> (r: Result<Key, ExecutionError>)
    ensures
        match r {
            Ok(k) => objects::key_of(v@) == Some(k@),
            Err(e) => objects::key_of(v@) is None && e@ == Fault::UnsupportedKeyType(v@),
        },
{
    match objects::value_as_key(&v) {
        Some(k) => Ok(k),
        None => Err(ExecutionError::UnsupportedKeyType(v)),
    }
}

/// The value of a key.
pub fn key_to_value(k: Key) -> (r: Value)
    ensures
        r@ == objects::key_value(k@),
{
    objects::key_as_value(&k)
}

/// The largest of values, from position `i` on, of which the largest so far is `max`.
pub open spec fn machine_max(args: Seq<Val>, i: int, max: Val) -> Outcome
    decreases args.len() - i,
{
    if i < 0 || i >= args.len() {
        Ok(max)
    } else {
        match machine_lt(max, args[i]) {
            Err(e) => Err(e),
            Ok(b) => machine_max(
                args,
                i + 1,
                if b {
                    args[i]
                } else {
                    max
                },
            ),
        }
    }
}

/// The integer that a value converts to.
pub open spec fn to_int(v: Val) -> Outcome {
    match v {
        Val::Int(i) => Ok(Val::Int(i)),
        Val::UInt(u) => Ok(Val::Int(u as i64)),
        Val::Float(f) => Ok(Val::Int(float::int_of_float(f))),
        Val::String(s) => match strings::written_int(s, true) {
            Some(n) => if i64::MIN <= n <= i64::MAX {
                Ok(Val::Int(n as i64))
            } else {
                Err(Fault::FunctionError("int"@, strings::parse_i64_error(s)))
            },
            None => Err(Fault::FunctionError("int"@, strings::parse_i64_error(s))),
        },
        _ => Err(Fault::NoSuchOverload),
    }
}

/// The unsigned integer that a value converts to.
pub open spec fn to_uint(v: Val) -> Outcome {
    match v {
        Val::Int(i) => Ok(Val::UInt(i as u64)),
        Val::UInt(u) => Ok(Val::UInt(u)),
        Val::Float(f) => Ok(Val::UInt(float::uint_of_float(f))),
        Val::String(s) => match strings::written_int(s, false) {
            Some(n) => if n <= u64::MAX {
                Ok(Val::UInt(n as u64))
            } else {
                Err(Fault::FunctionError("uint"@, strings::parse_u64_error(s)))
            },
            None => Err(Fault::FunctionError("uint"@, strings::parse_u64_error(s))),
        },
        _ => Err(Fault::NoSuchOverload),
    }
}

/// The double that a value converts to; a text is read by the host.
pub open spec fn to_double(v: Val, host: Seq<(Req, Outcome)>) -> Outcome {
    match v {
        Val::Int(i) => Ok(Val::Float(float::float_of_int(i as int))),
        Val::UInt(u) => Ok(Val::Float(float::float_of_nat(u as nat))),
        Val::Float(f) => Ok(Val::Float(f)),
        Val::String(s) => error::ask(host, Req::ParseFloat(s)),
        _ => Err(Fault::NoSuchOverload),
    }
}

/// What a builtin function of one argument gives.
pub open spec fn builtin_one(id: u16, v: Val, host: Seq<(Req, Outcome)>) -> Outcome {
    if id == 0 {
        machine_size(v)
    } else if id == 1 {
        to_int(v)
    } else if id == 2 {
        to_double(v, host)
    } else if id == 3 {
        to_uint(v)
    } else if id == 4 {
        error::ask(host, Req::Show(v))
    } else {
        Ok(
            Val::Bool(
                match v {
                    Val::Bool(b) => b,
                    _ => true,
                },
            ),
        )
    }
}

/// What a builtin function gives: size, int, double, uint, string, max, or whether a value
/// is not false.
pub open spec fn builtin_result(id: u16, args: Seq<Val>, host: Seq<(Req, Outcome)>) -> Outcome {
    if id == 5 {
        if args.len() == 0 {
            Err(Fault::InvalidArgumentCount(1, 0))
        } else {
            machine_max(args, 1, args[0])
        }
    } else if id > 6 {
        Err(Fault::UndeclaredReference("unknown builtin"@))
    } else if args.len() != 1 {
        Err(Fault::InvalidArgumentCount(1, args.len()))
    } else {
        builtin_one(id, args[0], host)
    }
}

fn convert_int(v: &Value) -> (r: Result<Value, ExecutionError>)
    ensures
        error::outcome(r) == to_int(v@),
{
    match v {
        Value::Int(i) => Ok(Value::Int(*i)),
        Value::UInt(u) => Ok(Value::Int(*u as i64)),
        Value::Float(f) => Ok(Value::Int(float::float_to_i64(*f))),
        Value::String(s) => match strings::str_parse_i64(s.as_str()) {
            Ok(i) => Ok(Value::Int(i)),
            Err(m) => Err(ExecutionError::function_error("int", m.as_str())),
        },
        _ => Err(ExecutionError::NoSuchOverload),
    }
}

fn convert_uint(v: &Value) -> (r: Result<Value, ExecutionError>)
    ensures
        error::outcome(r) == to_uint(v@),
{
    match v {
        Value::Int(i) => Ok(Value::UInt(*i as u64)),
        Value::UInt(u) => Ok(Value::UInt(*u)),
        Value::Float(f) => Ok(Value::UInt(float::float_to_u64(*f))),
        Value::String(s) => match strings::str_parse_u64(s.as_str()) {
            Ok(i) => Ok(Value::UInt(i)),
            Err(m) => Err(ExecutionError::function_error("uint", m.as_str())),
        },
        _ => Err(ExecutionError::NoSuchOverload),
    }
}

fn convert_double(v: &Value, host: &HostTable) -> (r: Result<Value, ExecutionError>)
    ensures
        error::outcome(r) == to_double(v@, host@),
{
    match v {
        Value::Int(i) => Ok(Value::Float(float::float_from_i64(*i))),
        Value::UInt(u) => Ok(Value::Float(float::float_from_u64(*u))),
        Value::Float(f) => Ok(Value::Float(*f)),
        Value::String(s) => host.ask(HostRequest::ParseFloat(s.as_str().to_owned())),
        _ => Err(ExecutionError::NoSuchOverload),
    }
}

/// Calls a builtin function.
pub fn vm_call(builtin_id: u16, args: &[Value], host: &HostTable) -> (r: Result<
    Value,
    ExecutionError,
>)
    ensures
        error::outcome(r) == builtin_result(builtin_id, objects::values_view(args@), host@),
{
    let ghost vs = objects::values_view(args@);
    if builtin_id == 5 {
        if args.len() == 0 {
            return Err(ExecutionError::InvalidArgumentCount { expected: 1, actual: 0 });
        }
        let mut max = args[0].clone();
        let mut i: usize = 1;
        while i < args.len()
            invariant
                builtin_id == 5,
                1 <= i <= args@.len(),
                vs == objects::values_view(args@),
                machine_max(vs, 1, vs[0]) == machine_max(vs, i as int, max@),
            decreases args@.len() - i,
        {
            assert(vs[i as int] == args@[i as int]@);
            match vm_lt(&max, &args[i]) {
                Err(e) => {
                    return Err(e);
                },
                Ok(b) => {
                    if b {
                        max = args[i].clone();
                    }
                },
            }
            i += 1;
        }
        return Ok(max);
    }
    if builtin_id > 6 {
        return Err(ExecutionError::undeclared_reference("unknown builtin"));
    }
    if args.len() != 1 {
        return Err(ExecutionError::InvalidArgumentCount { expected: 1, actual: args.len() });
    }
    if builtin_id == 0 {
        vm_size(args[0].clone())
    } else if builtin_id == 1 {
        convert_int(&args[0])
    } else if builtin_id == 2 {
        convert_double(&args[0], host)
    } else if builtin_id == 3 {
        convert_uint(&args[0])
    } else if builtin_id == 4 {
        host.ask(HostRequest::Show(args[0].clone()))
    } else {
        match &args[0] {
            Value::Bool(b) => Ok(Value::Bool(*b)),
            _ => Ok(Value::Bool(true)),
        }
    }
}

/// A walk through items: the items, and how many were handed out.
#[derive(Debug)]
pub struct IterFrame {
    items: Vec<Value>,
    idx: usize,
}

impl View for IterFrame {
    type V = (Seq<Val>, int);

    closed spec fn view(&self) -> (Seq<Val>, int) {
        (objects::values_view(self.items@), self.idx as int)
    }
}

/// Where the machine stands: the next instruction, the stack, the walks, the accumulator
/// and the item of the current round.
pub struct Mach {
    pub pc: int,
    pub stack: Seq<Val>,
    pub iters: Seq<(Seq<Val>, int)>,
    pub accu: Val,
    pub elem: Val,
}

/// What one step of the machine comes to. It is stuck where the program is malformed: an
/// index or a jump leads outside, something is taken off an empty stack, or a quotient does
/// not fit.
pub enum Step {
    Next(Mach),
    Done(Outcome),
    Stuck,
}

/// The machine with an instruction's result on what is left of the stack.
pub open spec fn pushed(m: Mach, rest: Seq<Val>, o: Outcome) -> Step {
    match o {
        Ok(v) => Step::Next(
            Mach { pc: m.pc + 1, stack: rest.push(v), iters: m.iters, accu: m.accu, elem: m.elem },
        ),
        Err(e) => Step::Done(Err(e)),
    }
}

/// The machine after a jump from the next instruction.
pub open spec fn jumped(m: Mach, rest: Seq<Val>, offset: int) -> Step {
    Step::Next(
        Mach {
            pc: m.pc + 1 + offset,
            stack: rest,
            iters: m.iters,
            accu: m.accu,
            elem: m.elem,
        },
    )
}

/// A jump that is taken where the top of the stack is `on`, and drops it where `drops`.
pub open spec fn branched(m: Mach, on: bool, drops: bool, offset: i16) -> Step {
    if m.stack.len() == 0 {
        Step::Stuck
    } else {
        let rest = if drops {
            m.stack.drop_last()
        } else {
            m.stack
        };
        match bool_of(m.stack.last()) {
            Err(e) => Step::Done(Err(e)),
            Ok(b) => jumped(
                m,
                rest,
                if b == on {
                    offset as int
                } else {
                    0
                },
            ),
        }
    }
}

/// What an instruction on the two topmost values gives, where it is one and its result fits.
pub open spec fn binary_step(i: Instr, a: Val, b: Val, host: Seq<(Req, Outcome)>) -> Option<
    Outcome,
> {
    match i {
        Instr::Add => Some(machine_add(a, b, host)),
        Instr::Sub => Some(machine_sub(a, b, host)),
        Instr::Mul => Some(machine_mul(a, b, host)),
        Instr::Div => if quotient_overflows(a, b) {
            None
        } else {
            Some(machine_div(a, b, host))
        },
        Instr::Mod => if quotient_overflows(a, b) {
            None
        } else {
            Some(machine_mod(a, b))
        },
        Instr::Eq => Some(Ok(Val::Bool(machine_eq(a, b)))),
        Instr::Ne => Some(Ok(Val::Bool(!machine_eq(a, b)))),
        Instr::Lt => Some(as_value(machine_lt(a, b))),
        Instr::Le => Some(as_value(machine_le(a, b))),
        Instr::Gt => Some(as_value(machine_lt(b, a))),
        Instr::Ge => Some(as_value(machine_le(b, a))),
        Instr::In => Some(machine_in(a, b)),
        Instr::LogicalAnd => Some(Ok(machine_and(a, b))),
        Instr::LogicalOr => Some(Ok(machine_or(a, b))),
        Instr::Index => Some(machine_index(a, b)),
        _ => None,
    }
}

/// What an instruction on the topmost value gives, where it is one.
pub open spec fn unary_step(i: Instr, a: Val, code: Code) -> Option<Outcome> {
    match i {
        Instr::Neg => Some(ops::negate_result(a)),
        Instr::Not => Some(
            match bool_of(a) {
                Ok(b) => Ok(Val::Bool(!b)),
                Err(e) => Err(e),
            },
        ),
        Instr::Size => Some(machine_size(a)),
        Instr::Select(f) => if f < code.constants.len() {
            Some(
                match code.constants[f as int] {
                    Val::String(s) => machine_select(a, s),
                    _ => Err(Fault::InternalError("select non-string"@)),
                },
            )
        } else {
            None
        },
        Instr::HasField(f) => if f < code.constants.len() {
            Some(
                match code.constants[f as int] {
                    Val::String(s) => Ok(Val::Bool(machine_has(a, s))),
                    _ => Err(Fault::InternalError("has_field non-string"@)),
                },
            )
        } else {
            None
        },
        Instr::MatchesCompiled(r) => if r < code.regexes.len() {
            Some(
                match a {
                    Val::String(s) => Ok(
                        Val::Bool(patterns::regex_found(code.regexes[r as int], s)),
                    ),
                    _ => Err(Fault::NoSuchOverload),
                },
            )
        } else {
            None
        },
        _ => None,
    }
}

/// The value that an index names: the item, the accumulator or a variable.
pub open spec fn slot(m: Mach, vars: Seq<Val>, idx: u16) -> Option<Val> {
    if idx == IDX_ITER_ELEM {
        Some(m.elem)
    } else if idx == IDX_ACCU {
        Some(m.accu)
    } else if idx < vars.len() {
        Some(vars[idx as int])
    } else {
        None
    }
}

/// A variable and a constant, by their indices.
pub open spec fn pair(vars: Seq<Val>, code: Code, v: u16, c: u16) -> Option<(Val, Val)> {
    if v < vars.len() && c < code.constants.len() {
        Some((vars[v as int], code.constants[c as int]))
    } else {
        None
    }
}

/// The comparison of a variable with a constant that an instruction makes, whether it
/// ends the program, and its operands' indices.
pub open spec fn fused(i: Instr) -> Option<(Instr, bool, u16, u16)> {
    match i {
        Instr::LoadVarEqConst(v, c) => Some((Instr::Eq, false, v, c)),
        Instr::LoadVarNeConst(v, c) => Some((Instr::Ne, false, v, c)),
        Instr::LoadVarLtConst(v, c) => Some((Instr::Lt, false, v, c)),
        Instr::LoadVarLeConst(v, c) => Some((Instr::Le, false, v, c)),
        Instr::LoadVarGtConst(v, c) => Some((Instr::Gt, false, v, c)),
        Instr::LoadVarGeConst(v, c) => Some((Instr::Ge, false, v, c)),
        Instr::ReturnEqConst(v, c) => Some((Instr::Eq, true, v, c)),
        Instr::ReturnNeConst(v, c) => Some((Instr::Ne, true, v, c)),
        Instr::ReturnLtConst(v, c) => Some((Instr::Lt, true, v, c)),
        Instr::ReturnLeConst(v, c) => Some((Instr::Le, true, v, c)),
        Instr::ReturnGtConst(v, c) => Some((Instr::Gt, true, v, c)),
        Instr::ReturnGeConst(v, c) => Some((Instr::Ge, true, v, c)),
        _ => None,
    }
}

/// The map of the entries on top of the stack, the topmost entry first, on top of the
/// entries that are there; an entry is a key with its value above it.
pub open spec fn map_from(stack: Seq<Val>, n: nat, entries: Seq<(KeyVal, Val)>) -> Option<
    Result<Seq<(KeyVal, Val)>, Fault>,
>
    decreases n,
{
    if n == 0 {
        Some(Ok(entries))
    } else if stack.len() < 2 {
        None
    } else {
        let v = stack[stack.len() - 1];
        let k = stack[stack.len() - 2];
        match objects::key_of(k) {
            None => Some(Err(Fault::UnsupportedKeyType(k))),
            Some(key) => map_from(
                stack.subrange(0, stack.len() - 2),
                (n - 1) as nat,
                objects::dict_insert(entries, key, v),
            ),
        }
    }
}

/// The values that a walk hands out: a list's items, or a map's keys.
pub open spec fn walked(v: Val) -> Option<Seq<Val>> {
    match v {
        Val::List(items) => Some(items),
        Val::Dict(m) => Some(m.map_values(|e: (KeyVal, Val)| objects::key_value(e.0))),
        _ => None,
    }
}

/// One step of an instruction that works on the topmost values or on a variable and a
/// constant.
pub open spec fn value_step(
    i: Instr,
    m: Mach,
    code: Code,
    vars: Seq<Val>,
    host: Seq<(Req, Outcome)>,
) -> Step {
    let n = m.stack.len();
    match i {
        Instr::Add | Instr::Sub | Instr::Mul | Instr::Div | Instr::Mod | Instr::Eq | Instr::Ne
        | Instr::Lt | Instr::Le | Instr::Gt | Instr::Ge | Instr::In | Instr::LogicalAnd
        | Instr::LogicalOr | Instr::Index => if n < 2 {
            Step::Stuck
        } else {
            match binary_step(i, m.stack[n - 2], m.stack[n - 1], host) {
                Some(o) => pushed(m, m.stack.subrange(0, n - 2), o),
                None => Step::Stuck,
            }
        },
        Instr::Neg | Instr::Not | Instr::Size | Instr::Select(_) | Instr::HasField(_)
        | Instr::MatchesCompiled(_) => if n < 1 {
            Step::Stuck
        } else {
            match unary_step(i, m.stack.last(), code) {
                Some(o) => pushed(m, m.stack.drop_last(), o),
                None => Step::Stuck,
            }
        },
        Instr::LoadVarSelect(v, f) => match slot(m, vars, v) {
            Some(a) => match unary_step(Instr::Select(f), a, code) {
                Some(o) => pushed(m, m.stack, o),
                None => Step::Stuck,
            },
            None => Step::Stuck,
        },
        Instr::LoadVarHasField(v, f) => match slot(m, vars, v) {
            Some(a) => match unary_step(Instr::HasField(f), a, code) {
                Some(o) => pushed(m, m.stack, o),
                None => Step::Stuck,
            },
            None => Step::Stuck,
        },
        _ => match fused(i) {
            Some((j, ends, v, c)) => match pair(vars, code, v, c) {
                Some((a, b)) => match binary_step(j, a, b, host) {
                    Some(o) => if ends {
                        Step::Done(o)
                    } else {
                        pushed(m, m.stack, o)
                    },
                    None => Step::Stuck,
                },
                None => Step::Stuck,
            },
            None => Step::Stuck,
        },
    }
}

/// One step of an instruction of the machine.
pub open spec fn instr_step(
    i: Instr,
    m: Mach,
    code: Code,
    vars: Seq<Val>,
    host: Seq<(Req, Outcome)>,
) -> Step {
    let n = m.stack.len();
    match i {
        Instr::Halt | Instr::Return => if n == 0 {
            Step::Done(Err(Fault::InternalError("empty stack at return"@)))
        } else {
            Step::Done(Ok(m.stack.last()))
        },
        Instr::PushConst(c) => if c < code.constants.len() {
            pushed(m, m.stack, Ok(code.constants[c as int]))
        } else {
            Step::Stuck
        },
        Instr::LoadVar(v) => match slot(m, vars, v) {
            Some(a) => pushed(m, m.stack, Ok(a)),
            None => Step::Stuck,
        },
        Instr::Pop => jumped(
            m,
            if n == 0 {
                m.stack
            } else {
                m.stack.drop_last()
            },
            0,
        ),
        Instr::Jump(offset) => jumped(m, m.stack, offset as int),
        Instr::JumpIfFalse(offset) => branched(m, false, true, offset),
        Instr::JumpIfTrue(offset) => branched(m, true, true, offset),
        Instr::JumpIfFalseKeep(offset) => branched(m, false, false, offset),
        Instr::JumpIfTrueKeep(offset) => branched(m, true, false, offset),
        Instr::BuildList(k) => if n < k {
            Step::Stuck
        } else {
            pushed(
                m,
                m.stack.subrange(0, n - k),
                Ok(Val::List(m.stack.subrange(n - k, n as int))),
            )
        },
        Instr::BuildMap(k) => match map_from(m.stack, k as nat, Seq::empty()) {
            Some(Ok(entries)) => pushed(m, m.stack.subrange(0, n - 2 * k), Ok(Val::Dict(entries))),
            Some(Err(e)) => Step::Done(Err(e)),
            None => Step::Stuck,
        },
        Instr::Call(id, argc) => if n < argc {
            Step::Stuck
        } else {
            pushed(
                m,
                m.stack.subrange(0, n - argc),
                builtin_result(id, m.stack.subrange(n - argc, n as int), host),
            )
        },
        Instr::IterInit => if n == 0 {
            Step::Stuck
        } else {
            match walked(m.stack.last()) {
                Some(items) => Step::Next(
                    Mach {
                        pc: m.pc + 1,
                        stack: m.stack.drop_last(),
                        iters: m.iters.push((items, 0)),
                        accu: m.accu,
                        elem: m.elem,
                    },
                ),
                None => Step::Done(Err(Fault::NoSuchOverload)),
            }
        },
        Instr::IterNext(offset) => if m.iters.len() == 0 {
            Step::Stuck
        } else {
            let (items, at) = m.iters.last();
            if at >= items.len() {
                jumped(m, m.stack, offset as int)
            } else {
                Step::Next(
                    Mach {
                        pc: m.pc + 1,
                        stack: m.stack,
                        iters: m.iters.drop_last().push((items, at + 1)),
                        accu: m.accu,
                        elem: items[at],
                    },
                )
            }
        },
        Instr::IterPop => Step::Next(
            Mach {
                pc: m.pc + 1,
                stack: m.stack,
                iters: if m.iters.len() == 0 {
                    m.iters
                } else {
                    m.iters.drop_last()
                },
                accu: m.accu,
                elem: m.elem,
            },
        ),
        Instr::AccuPush(c) => if c != 0xFFFF {
            if c < code.constants.len() {
                Step::Next(
                    Mach {
                        pc: m.pc + 1,
                        stack: m.stack,
                        iters: m.iters,
                        accu: code.constants[c as int],
                        elem: m.elem,
                    },
                )
            } else {
                Step::Stuck
            }
        } else {
            accu_step(m)
        },
        Instr::AccuSet => accu_step(m),
        _ => value_step(i, m, code, vars, host),
    }
}

/// The top of the stack becomes the accumulator.
pub open spec fn accu_step(m: Mach) -> Step {
    if m.stack.len() == 0 {
        Step::Stuck
    } else {
        Step::Next(
            Mach {
                pc: m.pc + 1,
                stack: m.stack.drop_last(),
                iters: m.iters,
                accu: m.stack.last(),
                elem: m.elem,
            },
        )
    }
}

/// One step of the machine.
pub open spec fn step(m: Mach, code: Code, vars: Seq<Val>, host: Seq<(Req, Outcome)>) -> Step {
    if 0 <= m.pc < code.instructions.len() {
        instr_step(code.instructions[m.pc], m, code, vars, host)
    } else {
        Step::Stuck
    }
}

/// What the machine ends with in at most `n` steps.
pub open spec fn run_for(
    m: Mach,
    code: Code,
    vars: Seq<Val>,
    host: Seq<(Req, Outcome)>,
    n: nat,
) -> Option<Outcome>
    decreases n,
{
    if n == 0 {
        None
    } else {
        match step(m, code, vars, host) {
            Step::Done(o) => Some(o),
            Step::Next(next) => run_for(next, code, vars, host, (n - 1) as nat),
            Step::Stuck => None,
        }
    }
}

/// Where every program starts.
pub open spec fn started() -> Mach {
    Mach { pc: 0, stack: Seq::empty(), iters: Seq::empty(), accu: Val::Null, elem: Val::Null }
}

/// The variables of a program, from a scope; one that is not there is null.
pub open spec fn bound_vars(names: Seq<Seq<char>>, scope: Scope) -> Seq<Val> {
    names.map_values(
        |n: Seq<char>|
            match context::variable(scope, n) {
                Some(v) => v,
                None => Val::Null,
            },
    )
}

/// A run that ends ends in the same way however many more steps are allowed.
pub proof fn law_run_stable(
    m: Mach,
    code: Code,
    vars: Seq<Val>,
    host: Seq<(Req, Outcome)>,
    n: nat,
    more: nat,
)
    requires
        run_for(m, code, vars, host, n) is Some,
        n <= more,
    ensures
        run_for(m, code, vars, host, more) == run_for(m, code, vars, host, n),
    decreases n,
{
    match step(m, code, vars, host) {
        Step::Next(next) => {
            law_run_stable(next, code, vars, host, (n - 1) as nat, (more - 1) as nat);
        },
        _ => {},
    }
}

/// Where the machine stands.
#[derive(Debug)]
pub struct Machine {
    pc: i128,
    stack: Vec<Value>,
    iters: Vec<IterFrame>,
    accu: Value,
    elem: Value,
}

impl View for Machine {
    type V = Mach;

    closed spec fn view(&self) -> Mach {
        Mach {
            pc: self.pc as int,
            stack: objects::values_view(self.stack@),
            iters: self.iters@.map_values(|f: IterFrame| f@),
            accu: self.accu@,
            elem: self.elem@,
        }
    }
}

/// What one step of the machine came to.
#[derive(Debug)]
pub enum Flow {
    Next,
    Done(Result<Value, ExecutionError>),
    Stuck,
}

/// That a step went as the machine's rules say.
pub open spec fn flowed(s: Step, r: Flow, after: Mach) -> bool {
    match r {
        Flow::Next => s == Step::Next(after),
        Flow::Done(o) => s == Step::Done(error::outcome(o)),
        Flow::Stuck => s == Step::Stuck,
    }
}

fn bool_value(r: Result<bool, ExecutionError>) -> (o: Result<Value, ExecutionError>)
    ensures
        error::outcome(o) == as_value(bool_outcome(r)),
{
    match r {
        Ok(b) => Ok(Value::Bool(b)),
        Err(e) => Err(e),
    }
}

fn overflows(a: &Value, b: &Value) -> (r: bool)
    ensures
        r == quotient_overflows(a@, b@),
{
    match (a, b) {
        (Value::Int(x), Value::Int(y)) => *x == i64::MIN && *y == -1,
        _ => false,
    }
}

/// A comparison of two values.
pub fn compared(i: Instr, a: &Value, b: &Value) -> (r: Option<Result<Value, ExecutionError>>)
    ensures
        match r {
            Some(o) => forall|host: Seq<(Req, Outcome)>|
                #[trigger] binary_step(i, a@, b@, host) == Some(error::outcome(o)),
            None => !(i is Eq || i is Ne || i is Lt || i is Le || i is Gt || i is Ge),
        },
{
    match i {
        Instr::Eq => Some(Ok(Value::Bool(vm_eq(a, b)))),
        Instr::Ne => Some(Ok(Value::Bool(!vm_eq(a, b)))),
        Instr::Lt => Some(bool_value(vm_lt(a, b))),
        Instr::Le => Some(bool_value(vm_le(a, b))),
        Instr::Gt => Some(bool_value(vm_lt(b, a))),
        Instr::Ge => Some(bool_value(vm_le(b, a))),
        _ => None,
    }
}

/// An operation on two values.
pub fn binary(i: Instr, a: Value, b: Value, host: &HostTable) -> (r: Option<
    Result<Value, ExecutionError>,
>)
    ensures
        match r {
            Some(o) => binary_step(i, a@, b@, host@) == Some(error::outcome(o)),
            None => binary_step(i, a@, b@, host@) is None,
        },
{
    match i {
        Instr::Add => Some(vm_add(a, b, host)),
        Instr::Sub => Some(vm_sub(a, b, host)),
        Instr::Mul => Some(vm_mul(a, b, host)),
        Instr::Div => if overflows(&a, &b) {
            None
        } else {
            Some(vm_div(a, b, host))
        },
        Instr::Mod => if overflows(&a, &b) {
            None
        } else {
            Some(vm_mod(a, b))
        },
        Instr::In => Some(vm_in(a, b)),
        Instr::LogicalAnd => Some(Ok(vm_logical_and(a, b))),
        Instr::LogicalOr => Some(Ok(vm_logical_or(a, b))),
        Instr::Index => Some(vm_index(a, b)),
        _ => compared(i, &a, &b),
    }
}

fn unary(i: Instr, a: &Value, program: &Program) -> (r: Option<Result<Value, ExecutionError>>)
    ensures
        match r {
            Some(o) => unary_step(i, a@, program@) == Some(error::outcome(o)),
            None => unary_step(i, a@, program@) is None,
        },
{
    match i {
        Instr::Neg => Some(vm_neg(a.clone())),
        Instr::Not => Some(
            match try_bool_ref(a) {
                Ok(b) => Ok(Value::Bool(!b)),
                Err(e) => Err(e),
            },
        ),
        Instr::Size => Some(vm_size(a.clone())),
        Instr::Select(f) => {
            if (f as usize) < program.constants.len() {
                match &program.constants[f as usize] {
                    Value::String(s) => Some(vm_select(a, s.as_str())),
                    _ => Some(Err(ExecutionError::internal("select non-string"))),
                }
            } else {
                None
            }
        },
        Instr::HasField(f) => {
            if (f as usize) < program.constants.len() {
                match &program.constants[f as usize] {
                    Value::String(s) => Some(Ok(Value::Bool(vm_has_field(a, s.as_str())))),
                    _ => Some(Err(ExecutionError::internal("has_field non-string"))),
                }
            } else {
                None
            }
        },
        Instr::MatchesCompiled(r) => {
            if (r as usize) < program.regex_pool.len() {
                match a {
                    Value::String(s) => Some(
                        Ok(Value::Bool(program.regex_pool[r as usize].is_match(s.as_str()))),
                    ),
                    _ => Some(Err(ExecutionError::NoSuchOverload)),
                }
            } else {
                None
            }
        },
        _ => None,
    }
}

fn fused_parts(i: Instr) -> (r: Option<(Instr, bool, u16, u16)>)
    ensures
        r == fused(i),
{
    match i {
        Instr::LoadVarEqConst(v, c) => Some((Instr::Eq, false, v, c)),
        Instr::LoadVarNeConst(v, c) => Some((Instr::Ne, false, v, c)),
        Instr::LoadVarLtConst(v, c) => Some((Instr::Lt, false, v, c)),
        Instr::LoadVarLeConst(v, c) => Some((Instr::Le, false, v, c)),
        Instr::LoadVarGtConst(v, c) => Some((Instr::Gt, false, v, c)),
        Instr::LoadVarGeConst(v, c) => Some((Instr::Ge, false, v, c)),
        Instr::ReturnEqConst(v, c) => Some((Instr::Eq, true, v, c)),
        Instr::ReturnNeConst(v, c) => Some((Instr::Ne, true, v, c)),
        Instr::ReturnLtConst(v, c) => Some((Instr::Lt, true, v, c)),
        Instr::ReturnLeConst(v, c) => Some((Instr::Le, true, v, c)),
        Instr::ReturnGtConst(v, c) => Some((Instr::Gt, true, v, c)),
        Instr::ReturnGeConst(v, c) => Some((Instr::Ge, true, v, c)),
        _ => None,
    }
}

/// The items of a walk through a value.
fn walk(v: Value) -> (r: Option<Vec<Value>>)
    ensures
        match r {
            Some(items) => walked(v@) == Some(objects::values_view(items@)),
            None => walked(v@) is None,
        },
{
    broadcast use objects::group_value_views;

    match v {
        Value::List(items) => Some(items),
        Value::Dict(m) => {
            let ghost keys = m@.map_values(|e: (KeyVal, Val)| objects::key_value(e.0));
            let mut items: Vec<Value> = Vec::new();
            let mut i: usize = 0;
            while i < m.entries.len()
                invariant
                    i <= m.entries@.len(),
                    items@.len() == i,
                    keys == m@.map_values(|e: (KeyVal, Val)| objects::key_value(e.0)),
                    forall|j: int| 0 <= j < i ==> (#[trigger] items@[j])@ == keys[j],
                decreases m.entries@.len() - i,
            {
                items.push(objects::key_as_value(&m.entries[i].0));
                i += 1;
            }
            assert(objects::values_view(items@) =~= keys);
            Some(items)
        },
        _ => None,
    }
}

impl Machine {
    /// The machine before the first instruction.
    pub fn new() -> (r: Machine)
        ensures
            r@ == started(),
    {
        let r = Machine {
            pc: 0,
            stack: Vec::new(),
            iters: Vec::new(),
            accu: Value::Null,
            elem: Value::Null,
        };
        assert(r@.stack =~= Seq::empty());
        assert(r@.iters =~= Seq::empty());
        r
    }

    fn push(&mut self, v: Value)
        ensures
            final(self)@.pc == old(self)@.pc,
            final(self)@.stack == old(self)@.stack.push(v@),
            final(self)@.iters == old(self)@.iters,
            final(self)@.accu == old(self)@.accu,
            final(self)@.elem == old(self)@.elem,
    {
        self.stack.push(v);
        assert(self@.stack =~= old(self)@.stack.push(v@));
    }

    fn pop(&mut self) -> (r: Option<Value>)
        ensures
            final(self)@.pc == old(self)@.pc,
            match r {
                Some(v) => old(self)@.stack.len() > 0 && v@ == old(self)@.stack.last()
                    && final(self)@.stack == old(self)@.stack.drop_last(),
                None => old(self)@.stack.len() == 0 && final(self)@.stack == old(self)@.stack,
            },
            final(self)@.iters == old(self)@.iters,
            final(self)@.accu == old(self)@.accu,
            final(self)@.elem == old(self)@.elem,
    {
        let r = self.stack.pop();
        if r.is_some() {
            assert(self@.stack =~= old(self)@.stack.drop_last());
        } else {
            assert(self@.stack =~= old(self)@.stack);
        }
        r
    }

    /// Goes on to the next instruction and from there by an offset.
    fn go(&mut self, offset: i16)
        requires
            0 <= old(self)@.pc <= usize::MAX,
        ensures
            final(self)@ == (Mach { pc: old(self)@.pc + 1 + offset, ..old(self)@ }),
    {
        self.pc = self.pc + 1 + offset as i128;
    }

    /// Puts a result on the stack and goes on, or ends with an error.
    fn finish(&mut self, o: Result<Value, ExecutionError>) -> (r: Flow)
        requires
            0 <= old(self)@.pc <= usize::MAX,
        ensures
            flowed(pushed(old(self)@, old(self)@.stack, error::outcome(o)), r, final(self)@),
    {
        match o {
            Ok(v) => {
                self.push(v);
                self.go(0);
                Flow::Next
            },
            Err(e) => Flow::Done(Err(e)),
        }
    }

    fn branch(&mut self, on: bool, drops: bool, offset: i16) -> (r: Flow)
        requires
            0 <= old(self)@.pc <= usize::MAX,
        ensures
            flowed(branched(old(self)@, on, drops, offset), r, final(self)@),
    {
        let n = self.stack.len();
        if n == 0 {
            return Flow::Stuck;
        }
        assert(self@.stack.last() == self.stack@[n - 1]@);
        match try_bool_ref(&self.stack[n - 1]) {
            Err(e) => Flow::Done(Err(e)),
            Ok(b) => {
                if drops {
                    let _ = self.pop();
                }
                if b == on {
                    self.go(offset);
                } else {
                    self.go(0);
                }
                Flow::Next
            },
        }
    }

    /// The value that an index names.
    fn slot<'m>(&'m self, vars: &'m Vec<Value>, idx: u16) -> (r: Option<&'m Value>)
        ensures
            match r {
                Some(v) => slot(self@, objects::values_view(vars@), idx) == Some(v@),
                None => slot(self@, objects::values_view(vars@), idx) is None,
            },
    {
        if idx == IDX_ITER_ELEM {
            Some(&self.elem)
        } else if idx == IDX_ACCU {
            Some(&self.accu)
        } else if (idx as usize) < vars.len() {
            Some(&vars[idx as usize])
        } else {
            None
        }
    }

    /// Takes the topmost values off the stack.
    fn take_top(&mut self, k: usize) -> (r: Vec<Value>)
        requires
            k <= old(self)@.stack.len(),
        ensures
            final(self)@.pc == old(self)@.pc,
            final(self)@.stack == old(self)@.stack.subrange(0, old(self)@.stack.len() - k),
            objects::values_view(r@) == old(self)@.stack.subrange(
                old(self)@.stack.len() - k,
                old(self)@.stack.len() as int,
            ),
            final(self)@.iters == old(self)@.iters,
            final(self)@.accu == old(self)@.accu,
            final(self)@.elem == old(self)@.elem,
    {
        let at = self.stack.len() - k;
        let r = self.stack.split_off(at);
        assert(self@.stack =~= old(self)@.stack.subrange(0, old(self)@.stack.len() - k));
        assert(objects::values_view(r@) =~= old(self)@.stack.subrange(
            old(self)@.stack.len() - k,
            old(self)@.stack.len() as int,
        ));
        r
    }

    fn step_value(&mut self, i: Instr, program: &Program, vars: &Vec<Value>, host: &HostTable) -> (r:
        Flow)
        requires
            0 <= old(self)@.pc <= usize::MAX,
        ensures
            flowed(
                value_step(i, old(self)@, program@, objects::values_view(vars@), host@),
                r,
                final(self)@,
            ),
    {
        match i {
            Instr::Add | Instr::Sub | Instr::Mul | Instr::Div | Instr::Mod | Instr::Eq | Instr::Ne
            | Instr::Lt | Instr::Le | Instr::Gt | Instr::Ge | Instr::In | Instr::LogicalAnd
            | Instr::LogicalOr | Instr::Index => {
                let ghost m = self@;
                let b = match self.pop() {
                    Some(b) => b,
                    None => {
                        return Flow::Stuck;
                    },
                };
                let a = match self.pop() {
                    Some(a) => a,
                    None => {
                        return Flow::Stuck;
                    },
                };
                assert(self@.stack =~= m.stack.subrange(0, m.stack.len() - 2));
                match binary(i, a, b, host) {
                    Some(o) => self.finish(o),
                    None => Flow::Stuck,
                }
            },
            Instr::Neg | Instr::Not | Instr::Size | Instr::Select(_) | Instr::HasField(_)
            | Instr::MatchesCompiled(_) => {
                let a = match self.pop() {
                    Some(a) => a,
                    None => {
                        return Flow::Stuck;
                    },
                };
                match unary(i, &a, program) {
                    Some(o) => self.finish(o),
                    None => Flow::Stuck,
                }
            },
            Instr::LoadVarSelect(v, f) => {
                let o = match self.slot(vars, v) {
                    Some(a) => unary(Instr::Select(f), a, program),
                    None => {
                        return Flow::Stuck;
                    },
                };
                match o {
                    Some(o) => self.finish(o),
                    None => Flow::Stuck,
                }
            },
            Instr::LoadVarHasField(v, f) => {
                let o = match self.slot(vars, v) {
                    Some(a) => unary(Instr::HasField(f), a, program),
                    None => {
                        return Flow::Stuck;
                    },
                };
                match o {
                    Some(o) => self.finish(o),
                    None => Flow::Stuck,
                }
            },
            _ => match fused_parts(i) {
                Some((j, ends, v, c)) => {
                    if (v as usize) < vars.len() && (c as usize) < program.constants.len() {
                        match compared(j, &vars[v as usize], &program.constants[c as usize]) {
                            Some(o) => {
                                assert(binary_step(
                                    j,
                                    vars@[v as int]@,
                                    program@.constants[c as int],
                                    host@,
                                ) == Some(error::outcome(o)));
                                if ends {
                                    Flow::Done(o)
                                } else {
                                    self.finish(o)
                                }
                            },
                            None => Flow::Stuck,
                        }
                    } else {
                        Flow::Stuck
                    }
                },
                None => Flow::Stuck,
            },
        }
    }

    /// The map of the topmost entries, taken off the stack.
    fn take_map(&mut self, k: u16) -> (r: Option<Result<ValueMap, ExecutionError>>)
        ensures
            final(self)@.pc == old(self)@.pc,
            match r {
                Some(Ok(m)) => {
                    &&& map_from(old(self)@.stack, k as nat, Seq::empty()) == Some(
                        Ok::<_, Fault>(m@),
                    )
                    &&& final(self)@.stack == old(self)@.stack.subrange(
                        0,
                        old(self)@.stack.len() - 2 * k,
                    )
                },
                Some(Err(e)) => map_from(old(self)@.stack, k as nat, Seq::empty()) == Some(
                    Err::<Seq<(KeyVal, Val)>, _>(e@),
                ),
                None => map_from(old(self)@.stack, k as nat, Seq::empty()) is None,
            },
            final(self)@.iters == old(self)@.iters,
            final(self)@.accu == old(self)@.accu,
            final(self)@.elem == old(self)@.elem,
    {
        let ghost s0 = self@.stack;
        let mut map = ValueMap::new();
        let mut left: u16 = k;
        assert(s0.subrange(0, s0.len() as int) =~= s0);
        while left > 0
            invariant
                left <= k,
                s0 == old(self)@.stack,
                2 * (k - left) <= s0.len(),
                self@.stack == s0.subrange(0, s0.len() - 2 * (k - left)),
                map_from(s0, k as nat, Seq::empty()) == map_from(self@.stack, left as nat, map@),
                self@.pc == old(self)@.pc,
                self@.iters == old(self)@.iters,
                self@.accu == old(self)@.accu,
                self@.elem == old(self)@.elem,
            decreases left,
        {
            let ghost s = self@.stack;
            let v = match self.pop() {
                Some(v) => v,
                None => {
                    return None;
                },
            };
            let key = match self.pop() {
                Some(key) => key,
                None => {
                    return None;
                },
            };
            assert(self@.stack =~= s.subrange(0, s.len() - 2));
            match value_to_key(key) {
                Ok(key) => {
                    map.insert(key, v);
                },
                Err(e) => {
                    return Some(Err(e));
                },
            }
            left -= 1;
            assert(self@.stack =~= s0.subrange(0, s0.len() - 2 * (k - left)));
        }
        Some(Ok(map))
    }

    fn set_accu(&mut self) -> (r: Flow)
        requires
            0 <= old(self)@.pc <= usize::MAX,
        ensures
            flowed(accu_step(old(self)@), r, final(self)@),
    {
        match self.pop() {
            Some(v) => {
                self.accu = v;
                self.go(0);
                Flow::Next
            },
            None => Flow::Stuck,
        }
    }

    fn next_item(&mut self, offset: i16) -> (r: Flow)
        requires
            0 <= old(self)@.pc <= usize::MAX,
        ensures
            forall|code: Code, vars: Seq<Val>, host: Seq<(Req, Outcome)>| #[trigger]
                flowed(
                    instr_step(Instr::IterNext(offset), old(self)@, code, vars, host),
                    r,
                    final(self)@,
                ),
    {
        let n = self.iters.len();
        if n == 0 {
            return Flow::Stuck;
        }
        assert(self@.iters.last() == self.iters@[n - 1]@);
        let at = self.iters[n - 1].idx;
        if at >= self.iters[n - 1].items.len() {
            self.go(offset);
            return Flow::Next;
        }
        match self.iters.pop() {
            Some(frame) => {
                let mut frame = frame;
                let ghost f0 = frame@;
                self.elem = frame.items[at].clone();
                frame.idx = at + 1;
                self.iters.push(frame);
                assert(self@.iters =~= old(self)@.iters.drop_last().push((f0.0, f0.1 + 1)));
                self.go(0);
            },
            None => {},
        }
        Flow::Next
    }

    /// One step.
    #[verifier::rlimit(50)]
    pub fn step(&mut self, program: &Program, vars: &Vec<Value>, host: &HostTable) -> (r: Flow)
        ensures
            flowed(
                step(old(self)@, program@, objects::values_view(vars@), host@),
                r,
                final(self)@,
            ),
    {
        broadcast use objects::group_value_views;

        if self.pc < 0 || self.pc >= program.instructions.len() as i128 {
            return Flow::Stuck;
        }
        let i = program.instructions[self.pc as usize];
        let ghost m = self@;
        match i {
            Instr::Halt | Instr::Return => match self.pop() {
                Some(v) => Flow::Done(Ok(v)),
                None => Flow::Done(Err(ExecutionError::internal("empty stack at return"))),
            },
            Instr::PushConst(c) => {
                if (c as usize) < program.constants.len() {
                    self.finish(Ok(program.constants[c as usize].clone()))
                } else {
                    Flow::Stuck
                }
            },
            Instr::LoadVar(v) => {
                let a = match self.slot(vars, v) {
                    Some(a) => a.clone(),
                    None => {
                        return Flow::Stuck;
                    },
                };
                self.finish(Ok(a))
            },
            Instr::Pop => {
                let _ = self.pop();
                self.go(0);
                Flow::Next
            },
            Instr::Jump(offset) => {
                self.go(offset);
                Flow::Next
            },
            Instr::JumpIfFalse(offset) => self.branch(false, true, offset),
            Instr::JumpIfTrue(offset) => self.branch(true, true, offset),
            Instr::JumpIfFalseKeep(offset) => self.branch(false, false, offset),
            Instr::JumpIfTrueKeep(offset) => self.branch(true, false, offset),
            Instr::BuildList(k) => {
                if self.stack.len() < k as usize {
                    return Flow::Stuck;
                }
                let items = self.take_top(k as usize);
                self.finish(Ok(Value::List(items)))
            },
            Instr::BuildMap(k) => match self.take_map(k) {
                Some(Ok(map)) => self.finish(Ok(Value::Dict(map))),
                Some(Err(e)) => Flow::Done(Err(e)),
                None => Flow::Stuck,
            },
            Instr::Call(id, argc) => {
                if self.stack.len() < argc as usize {
                    return Flow::Stuck;
                }
                let args = self.take_top(argc as usize);
                let o = vm_call(id, args.as_slice(), host);
                self.finish(o)
            },
            Instr::IterInit => match self.pop() {
                Some(v) => match walk(v) {
                    Some(items) => {
                        let ghost before = self@.iters;
                        let frame = IterFrame { items, idx: 0 };
                        let ghost f0 = frame@;
                        self.iters.push(frame);
                        assert(self@.iters =~= before.push(f0));
                        self.go(0);
                        Flow::Next
                    },
                    None => Flow::Done(Err(ExecutionError::NoSuchOverload)),
                },
                None => Flow::Stuck,
            },
            Instr::IterNext(offset) => self.next_item(offset),
            Instr::IterPop => {
                let _ = self.iters.pop();
                proof {
                    if m.iters.len() == 0 {
                        assert(self@.iters =~= m.iters);
                    } else {
                        assert(self@.iters =~= m.iters.drop_last());
                    }
                }
                self.go(0);
                Flow::Next
            },
            Instr::AccuPush(c) => {
                if c != 0xFFFF {
                    if (c as usize) < program.constants.len() {
                        self.accu = program.constants[c as usize].clone();
                        self.go(0);
                        Flow::Next
                    } else {
                        Flow::Stuck
                    }
                } else {
                    self.set_accu()
                }
            },
            Instr::AccuSet => self.set_accu(),
            _ => self.step_value(i, program, vars, host),
        }
    }
}

/// What lives from one evaluation of a program to the next: the program's variables, which
/// are read from the scope once, and the room for the stack and the walks, which hold nothing
/// between evaluations.
#[derive(Debug)]
pub struct EvalState {
    pub stack: Vec<Value>,
    pub iter_stack: Vec<IterFrame>,
    pub vars: Vec<Value>,
    needs_bind: bool,
}

/// What an [`EvalState`] stands for: the variables, where they were read.
impl View for EvalState {
    type V = Option<Seq<Val>>;

    closed spec fn view(&self) -> Option<Seq<Val>> {
        if self.needs_bind {
            None
        } else {
            Some(objects::values_view(self.vars@))
        }
    }
}

/// The variables that an evaluation works with: those of the state where their number fits,
/// else those of the scope.
pub open spec fn vars_for(state: Option<Seq<Val>>, code: Code, scope: Scope) -> Seq<Val> {
    match state {
        Some(vars) => if vars.len() == code.var_names.len() {
            vars
        } else {
            bound_vars(code.var_names, scope)
        },
        None => bound_vars(code.var_names, scope),
    }
}

impl EvalState {
    /// The stacks hold nothing.
    pub closed spec fn idle(&self) -> bool {
        self.stack@.len() == 0 && self.iter_stack@.len() == 0
    }

    /// A state that has read nothing.
    pub fn new() -> (r: EvalState)
        ensures
            r@ is None,
            r.idle(),
    {
        EvalState {
            stack: Vec::new(),
            iter_stack: Vec::new(),
            vars: Vec::new(),
            needs_bind: true,
        }
    }

    /// Forgets what is on the stacks, and variables that are not as many as the program's.
    fn reset(&mut self, program: &Program)
        ensures
            final(self).idle(),
            final(self)@ == (match old(self)@ {
                Some(vars) => if vars.len() == program@.var_names.len() {
                    Some(vars)
                } else {
                    None
                },
                None => None,
            }),
    {
        self.stack.clear();
        self.iter_stack.clear();
        if self.vars.len() != program.var_names.len() {
            self.needs_bind = true;
        }
    }

    /// A machine at the start, which has the room of the stacks.
    fn start(&mut self) -> (r: Machine)
        requires
            old(self).idle(),
        ensures
            r@ == started(),
            final(self)@ == old(self)@,
            final(self).vars == old(self).vars,
    {
        let mut machine = Machine::new();
        std::mem::swap(&mut machine.stack, &mut self.stack);
        std::mem::swap(&mut machine.iters, &mut self.iter_stack);
        assert(machine@.stack =~= started().stack);
        assert(machine@.iters =~= started().iters);
        machine
    }

    /// Takes the room of the stacks back.
    fn stop(&mut self, machine: Machine)
        ensures
            final(self)@ == old(self)@,
            final(self).vars == old(self).vars,
            final(self).idle(),
    {
        self.stack = machine.stack;
        self.iter_stack = machine.iters;
        self.stack.clear();
        self.iter_stack.clear();
    }

    /// Reads the program's variables, unless they were read.
    fn bind_vars(&mut self, program: &Program, ctx: &Context)
        ensures
            final(self)@ == Some(
                match old(self)@ {
                    Some(vars) => vars,
                    None => bound_vars(program@.var_names, ctx@),
                },
            ),
            final(self).stack == old(self).stack,
            final(self).iter_stack == old(self).iter_stack,
    {
        if !self.needs_bind {
            return;
        }
        let ghost want = bound_vars(program@.var_names, ctx@);
        let mut vars: Vec<Value> = Vec::new();
        let mut i: usize = 0;
        while i < program.var_names.len()
            invariant
                i <= program.var_names@.len(),
                vars@.len() == i,
                want == bound_vars(program@.var_names, ctx@),
                forall|j: int| 0 <= j < i ==> (#[trigger] vars@[j])@ == want[j],
            decreases program.var_names@.len() - i,
        {
            let v = match ctx.get_variable(program.var_names[i].as_str()) {
                Some(v) => v.clone(),
                None => Value::Null,
            };
            vars.push(v);
            i += 1;
        }
        assert(objects::values_view(vars@) =~= want);
        self.vars = vars;
        self.needs_bind = false;
    }
}

impl Default for EvalState {
    fn default() -> (r: EvalState)
        ensures
            r@ is None,
            r.idle(),
    {
        EvalState::new()
    }
}

/// The program ends without getting stuck.
pub open spec fn halts(code: Code, vars: Seq<Val>, host: Seq<(Req, Outcome)>) -> bool {
    exists|n: nat| #[trigger] run_for(started(), code, vars, host, n) is Some
}

/// What a program that ends gives.
pub open spec fn result_of(code: Code, vars: Seq<Val>, host: Seq<(Req, Outcome)>) -> Outcome {
    let n = choose|n: nat| #[trigger] run_for(started(), code, vars, host, n) is Some;
    run_for(started(), code, vars, host, n)->Some_0
}

/// However many steps are allowed, a program that ends gives its one result.
pub proof fn law_result_unique(
    code: Code,
    vars: Seq<Val>,
    host: Seq<(Req, Outcome)>,
    n: nat,
)
    requires
        run_for(started(), code, vars, host, n) is Some,
    ensures
        halts(code, vars, host),
        run_for(started(), code, vars, host, n) == Some(result_of(code, vars, host)),
{
    let k = choose|k: nat| #[trigger] run_for(started(), code, vars, host, k) is Some;
    if n <= k {
        law_run_stable(started(), code, vars, host, n, k);
    } else {
        law_run_stable(started(), code, vars, host, k, n);
    }
}

/// Evaluates a program that ends.
pub fn eval(program: &Program, ctx: &Context, state: &mut EvalState) -> (r: Result<
    Value,
    ExecutionError,
>)
    requires
        halts(program@, vars_for(old(state)@, program@, ctx@), ctx@.host),
    ensures
        error::outcome(r) == result_of(
            program@,
            vars_for(old(state)@, program@, ctx@),
            ctx@.host,
        ),
        final(state)@ == Some(vars_for(old(state)@, program@, ctx@)),
        final(state).idle(),
{
    let ghost code = program@;
    let ghost vars = vars_for(state@, program@, ctx@);
    let ghost host = ctx@.host;
    state.reset(program);
    state.bind_vars(program, ctx);
    let table = ctx.host();
    let mut machine = state.start();
    let ghost mut n: nat = choose|n: nat| #[trigger] run_for(started(), code, vars, host, n) is Some;
    let ghost total = n;
    loop
        invariant
            code == program@,
            vars == objects::values_view(state.vars@),
            host == table@,
            run_for(machine@, code, vars, host, n) is Some,
            run_for(machine@, code, vars, host, n) == run_for(started(), code, vars, host, total),
            run_for(started(), code, vars, host, total) == Some(result_of(code, vars, host)),
            vars == vars_for(old(state)@, program@, ctx@),
            host == ctx@.host,
            state@ == Some(vars),
        decreases n,
    {
        match machine.step(program, &state.vars, table) {
            Flow::Next => {
                proof {
                    n = (n - 1) as nat;
                }
            },
            Flow::Done(o) => {
                state.stop(machine);
                return o;
            },
            Flow::Stuck => {},
        }
    }
}

/// Evaluates a program for at most a number of steps; there is no result where it has not
/// ended by then or got stuck.
pub fn eval_within(program: &Program, ctx: &Context, state: &mut EvalState, steps: u64) -> (r:
    Option<Result<Value, ExecutionError>>)
    ensures
        match r {
            Some(o) => run_for(
                started(),
                program@,
                vars_for(old(state)@, program@, ctx@),
                ctx@.host,
                steps as nat,
            ) == Some(error::outcome(o)),
            None => run_for(
                started(),
                program@,
                vars_for(old(state)@, program@, ctx@),
                ctx@.host,
                steps as nat,
            ) is None,
        },
        final(state)@ == Some(vars_for(old(state)@, program@, ctx@)),
        final(state).idle(),
{
    let ghost code = program@;
    let ghost vars = vars_for(state@, program@, ctx@);
    let ghost host = ctx@.host;
    state.reset(program);
    state.bind_vars(program, ctx);
    let table = ctx.host();
    let mut machine = state.start();
    let mut left: u64 = steps;
    while left > 0
        invariant
            left <= steps,
            code == program@,
            vars == objects::values_view(state.vars@),
            host == table@,
            run_for(machine@, code, vars, host, left as nat) == run_for(
                started(),
                code,
                vars,
                host,
                steps as nat,
            ),
            vars == vars_for(old(state)@, program@, ctx@),
            host == ctx@.host,
            state@ == Some(vars),
        decreases left,
    {
        match machine.step(program, &state.vars, table) {
            Flow::Next => {
                left -= 1;
            },
            Flow::Done(o) => {
                state.stop(machine);
                return Some(o);
            },
            Flow::Stuck => {
                state.stop(machine);
                return None;
            },
        }
    }
    state.stop(machine);
    None
}

} // verus!
