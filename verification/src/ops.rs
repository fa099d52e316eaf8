//! The operators of the language on values.

use crate::common::types::timestamp;
use crate::env;
use crate::error;
use crate::error::{ExecutionError, Fault, FloatOp, HostRequest, HostTable, Outcome, Req};
use crate::float;
use crate::objects;
use crate::objects::{Key, KeyVal, Val, Value};
use crate::strings;
use std::sync::Arc;
use vstd::prelude::*;
use vstd::string::*;

verus! {

/// The operators on two values that are both evaluated first.
#[derive(Clone, Copy, Debug, PartialEq, Eq, Structural)]
pub enum BinOp {
    Equals,
    NotEquals,
    Less,
    LessEquals,
    Greater,
    GreaterEquals,
    Add,
    Sub,
    Mul,
    Div,
    Rem,
    In,
}

/// Which of two values comes first.
#[derive(Clone, Copy, Debug, PartialEq, Eq, Structural)]
pub enum Order {
    Before,
    Same,
    After,
}

pub open spec fn int_order(a: int, b: int) -> Order {
    if a < b {
        Order::Before
    } else if a == b {
        Order::Same
    } else {
        Order::After
    }
}

pub open spec fn text_order(a: Seq<char>, b: Seq<char>) -> Order {
    if strings::text_lt(a, b) {
        Order::Before
    } else if strings::text_lt(b, a) {
        Order::After
    } else {
        Order::Same
    }
}

pub open spec fn bool_order(a: bool, b: bool) -> Order {
    if a == b {
        Order::Same
    } else if b {
        Order::Before
    } else {
        Order::After
    }
}

/// How two values are ordered. Values of different types are not, nor is a NaN.
pub open spec fn order_of(l: Val, r: Val) -> Result<Order, Fault> {
    match (l, r) {
        (Val::Int(a), Val::Int(b)) => Ok(int_order(a as int, b as int)),
        (Val::UInt(a), Val::UInt(b)) => Ok(int_order(a as int, b as int)),
        (Val::Float(a), Val::Float(b)) => if float::nan(a) || float::nan(b) {
            Err(Fault::ValuesNotComparable(l, r))
        } else {
            Ok(int_order(float::scaled(a), float::scaled(b)))
        },
        (Val::String(a), Val::String(b)) => Ok(text_order(a, b)),
        (Val::Bool(a), Val::Bool(b)) => Ok(bool_order(a, b)),
        (Val::Timestamp(a), Val::Timestamp(b)) => Ok(timestamp::instant_order(a, b)),
        (Val::Duration(a), Val::Duration(b)) => Ok(int_order(a.nanos as int, b.nanos as int)),
        _ => Err(Fault::NoSuchOverload),
    }
}

/// What an ordering operator says of an order.
pub open spec fn order_holds(op: BinOp, o: Order) -> bool {
    match op {
        BinOp::Less => o == Order::Before,
        BinOp::LessEquals => o != Order::After,
        BinOp::Greater => o == Order::After,
        _ => o != Order::Before,
    }
}

fn order_ints(a: i128, b: i128) -> (r: Order)
    ensures
        r == int_order(a as int, b as int),
{
    if a < b {
        Order::Before
    } else if a == b {
        Order::Same
    } else {
        Order::After
    }
}

/// How two values are ordered.
pub fn order_values(l: &Value, r: &Value) -> (o: Result<Order, ExecutionError>)
    ensures
        match o {
            Ok(x) => order_of(l@, r@) == Ok::<Order, Fault>(x),
            Err(e) => order_of(l@, r@) == Err::<Order, Fault>(e@),
        },
{
    match (l, r) {
        (Value::Int(a), Value::Int(b)) => Ok(order_ints(*a as i128, *b as i128)),
        (Value::UInt(a), Value::UInt(b)) => Ok(order_ints(*a as i128, *b as i128)),
        (Value::Float(a), Value::Float(b)) => {
            if float::float_is_nan(*a) || float::float_is_nan(*b) {
                return Err(ExecutionError::ValuesNotComparable(l.clone(), r.clone()));
            }
            if float::float_less(*a, *b) {
                Ok(Order::Before)
            } else if float::float_less(*b, *a) {
                Ok(Order::After)
            } else {
                Ok(Order::Same)
            }
        },
        (Value::String(a), Value::String(b)) => {
            if strings::str_lt(a.as_str(), b.as_str()) {
                Ok(Order::Before)
            } else if strings::str_lt(b.as_str(), a.as_str()) {
                Ok(Order::After)
            } else {
                Ok(Order::Same)
            }
        },
        (Value::Bool(a), Value::Bool(b)) => if *a == *b {
            Ok(Order::Same)
        } else if *b {
            Ok(Order::Before)
        } else {
            Ok(Order::After)
        },
        (Value::Timestamp(a), Value::Timestamp(b)) => Ok(timestamp::order_instants(*a, *b)),
        (Value::Duration(a), Value::Duration(b)) => Ok(order_ints(a.nanos, b.nanos)),
        _ => Err(ExecutionError::NoSuchOverload),
    }
}

/// The order of two values is the opposite of the order of the two exchanged.
pub proof fn law_order_antisymmetric(l: Val, r: Val, o: Order)
    requires
        order_of(l, r) == Ok::<Order, Fault>(o),
    ensures
        order_of(r, l) == Ok::<Order, Fault>(
            match o {
                Order::Before => Order::After,
                Order::Same => Order::Same,
                Order::After => Order::Before,
            },
        ),
{
    match (l, r) {
        (Val::String(a), Val::String(b)) => {
            if strings::text_lt(a, b) && strings::text_lt(b, a) {
                strings::lemma_text_lt_transitive(a, b, a);
                strings::lemma_text_lt_irreflexive(a);
            }
        },
        _ => {},
    }
}

/// The result of arithmetic on doubles, which the host computes.
pub open spec fn float_result(host: Seq<(Req, Outcome)>, op: FloatOp, a: u64, b: u64) -> Outcome {
    error::ask(host, Req::Arithmetic(op, a, b))
}

fn float_arith(host: &HostTable, op: FloatOp, a: u64, b: u64) -> (r: Result<Value, ExecutionError>)
    ensures
        error::outcome(r) == float_result(host@, op, a, b),
{
    host.ask(HostRequest::Arithmetic(op, a, b))
}

/// `l + r`.
pub open spec fn add_result(l: Val, r: Val, host: Seq<(Req, Outcome)>) -> Outcome {
    match (l, r) {
        (Val::Int(a), Val::Int(b)) => if i64::MIN <= a + b <= i64::MAX {
            Ok(Val::Int((a + b) as i64))
        } else {
            Err(Fault::Overflow("add"@, l, r))
        },
        (Val::UInt(a), Val::UInt(b)) => if a + b <= u64::MAX {
            Ok(Val::UInt((a + b) as u64))
        } else {
            Err(Fault::Overflow("add"@, l, r))
        },
        (Val::Float(a), Val::Float(b)) => float_result(host, FloatOp::Add, a, b),
        (Val::String(a), Val::String(b)) => Ok(Val::String(a + b)),
        (Val::List(a), Val::List(b)) => Ok(Val::List(a + b)),
        (Val::Duration(a), Val::Duration(b)) => match timestamp::duration_of(a.nanos + b.nanos) {
            Some(d) => Ok(Val::Duration(d)),
            None => Err(Fault::Overflow("add"@, l, r)),
        },
        (Val::Timestamp(t), Val::Duration(d)) => match timestamp::moved(t, d.nanos as int) {
            Some(u) => Ok(Val::Timestamp(u)),
            None => Err(Fault::Overflow("add"@, l, r)),
        },
        (Val::Duration(d), Val::Timestamp(t)) => match timestamp::moved(t, d.nanos as int) {
            Some(u) => Ok(Val::Timestamp(u)),
            None => Err(Fault::Overflow("add"@, l, r)),
        },
        _ => Err(Fault::UnsupportedBinaryOperator("add"@, l, r)),
    }
}

/// `l - r`.
pub open spec fn sub_result(l: Val, r: Val, host: Seq<(Req, Outcome)>) -> Outcome {
    match (l, r) {
        (Val::Int(a), Val::Int(b)) => if i64::MIN <= a - b <= i64::MAX {
            Ok(Val::Int((a - b) as i64))
        } else {
            Err(Fault::Overflow("sub"@, l, r))
        },
        (Val::UInt(a), Val::UInt(b)) => if a >= b {
            Ok(Val::UInt((a - b) as u64))
        } else {
            Err(Fault::Overflow("sub"@, l, r))
        },
        (Val::Float(a), Val::Float(b)) => float_result(host, FloatOp::Sub, a, b),
        (Val::Timestamp(t), _) => timestamp::sub_result(t, r),
        (Val::Duration(a), Val::Duration(b)) => match timestamp::duration_of(a.nanos - b.nanos) {
            Some(d) => Ok(Val::Duration(d)),
            None => Err(Fault::Overflow("sub"@, l, r)),
        },
        _ => Err(Fault::UnsupportedBinaryOperator("sub"@, l, r)),
    }
}

/// `l * r`.
pub open spec fn mul_result(l: Val, r: Val, host: Seq<(Req, Outcome)>) -> Outcome {
    match (l, r) {
        (Val::Int(a), Val::Int(b)) => if i64::MIN <= a * b <= i64::MAX {
            Ok(Val::Int((a * b) as i64))
        } else {
            Err(Fault::Overflow("mul"@, l, r))
        },
        (Val::UInt(a), Val::UInt(b)) => if a * b <= u64::MAX {
            Ok(Val::UInt((a * b) as u64))
        } else {
            Err(Fault::Overflow("mul"@, l, r))
        },
        (Val::Float(a), Val::Float(b)) => float_result(host, FloatOp::Mul, a, b),
        _ => Err(Fault::UnsupportedBinaryOperator("mul"@, l, r)),
    }
}

/// `l / r`, truncating.
pub open spec fn div_result(l: Val, r: Val, host: Seq<(Req, Outcome)>) -> Outcome {
    match (l, r) {
        (Val::Int(a), Val::Int(b)) => if b == 0 {
            Err(Fault::DivisionByZero(l))
        } else {
            match a.checked_div(b) {
                Some(q) => Ok(Val::Int(q)),
                None => Err(Fault::Overflow("div"@, l, r)),
            }
        },
        (Val::UInt(a), Val::UInt(b)) => if b == 0 {
            Err(Fault::DivisionByZero(l))
        } else {
            Ok(Val::UInt(a / b))
        },
        (Val::Float(a), Val::Float(b)) => float_result(host, FloatOp::Div, a, b),
        _ => Err(Fault::UnsupportedBinaryOperator("div"@, l, r)),
    }
}

/// `l % r`, with the sign of `l`.
pub open spec fn rem_result(l: Val, r: Val) -> Outcome {
    match (l, r) {
        (Val::Int(a), Val::Int(b)) => if b == 0 {
            Err(Fault::RemainderByZero(l))
        } else {
            match a.checked_rem(b) {
                Some(q) => Ok(Val::Int(q)),
                None => Err(Fault::Overflow("rem"@, l, r)),
            }
        },
        (Val::UInt(a), Val::UInt(b)) => if b == 0 {
            Err(Fault::RemainderByZero(l))
        } else {
            Ok(Val::UInt(a % b))
        },
        _ => Err(Fault::UnsupportedBinaryOperator("rem"@, l, r)),
    }
}

/// Some item of a list equals a value.
pub open spec fn list_has(items: Seq<Val>, v: Val) -> bool {
    exists|i: int| 0 <= i < items.len() && objects::val_eq(#[trigger] items[i], v)
}

/// `l in r`.
pub open spec fn in_result(l: Val, r: Val) -> Outcome {
    match r {
        Val::List(items) => Ok(Val::Bool(list_has(items, l))),
        Val::Dict(m) => match objects::key_of(l) {
            Some(k) => Ok(Val::Bool(objects::dict_get(m, k) is Some)),
            None => Err(Fault::UnsupportedMapIndex(l)),
        },
        _ => Err(Fault::NoSuchOverload),
    }
}

/// What an operator gives for two values.
pub open spec fn binary_result(op: BinOp, l: Val, r: Val, host: Seq<(Req, Outcome)>) -> Outcome {
    match op {
        BinOp::Equals => Ok(Val::Bool(objects::val_eq(l, r))),
        BinOp::NotEquals => Ok(Val::Bool(!objects::val_eq(l, r))),
        BinOp::Add => add_result(l, r, host),
        BinOp::Sub => sub_result(l, r, host),
        BinOp::Mul => mul_result(l, r, host),
        BinOp::Div => div_result(l, r, host),
        BinOp::Rem => rem_result(l, r),
        BinOp::In => in_result(l, r),
        _ => match order_of(l, r) {
            Ok(o) => Ok(Val::Bool(order_holds(op, o))),
            Err(e) => Err(e),
        },
    }
}

/// One list after the other.
pub(crate) fn joined_list(a: &Vec<Value>, b: &Vec<Value>) -> (r: Vec<Value>)
    ensures
        objects::values_view(r@) == objects::values_view(a@) + objects::values_view(b@),
{
    let mut out = objects::clone_values(a.as_slice());
    let mut i: usize = 0;
    assert(objects::values_view(a@) + objects::values_view(b@).subrange(0, 0)
        =~= objects::values_view(a@));
    while i < b.len()
        invariant
            i <= b@.len(),
            objects::values_view(out@) == objects::values_view(a@) + objects::values_view(
                b@,
            ).subrange(0, i as int),
        decreases b@.len() - i,
    {
        let ghost before = objects::values_view(out@);
        out.push(b[i].clone());
        assert(objects::values_view(out@) =~= before.push(b@[i as int]@));
        assert(objects::values_view(b@).subrange(0, i + 1) =~= objects::values_view(b@).subrange(
            0,
            i as int,
        ).push(b@[i as int]@));
        i += 1;
        assert(objects::values_view(out@) =~= objects::values_view(a@) + objects::values_view(
            b@,
        ).subrange(0, i as int));
    }
    assert(objects::values_view(b@).subrange(0, i as int) =~= objects::values_view(b@));
    out
}

fn overflow(op: &'static str, l: &Value, r: &Value) -> (e: ExecutionError)
    ensures
        e@ == Fault::Overflow(op@, l@, r@),
{
    ExecutionError::Overflow(op, l.clone(), r.clone())
}

fn unsupported(op: &'static str, l: &Value, r: &Value) -> (e: ExecutionError)
    ensures
        e@ == Fault::UnsupportedBinaryOperator(op@, l@, r@),
{
    ExecutionError::UnsupportedBinaryOperator(op, l.clone(), r.clone())
}

/// `l + r`.
pub fn add_values(l: &Value, r: &Value, host: &HostTable) -> (o: Result<Value, ExecutionError>)
    ensures
        error::outcome(o) == add_result(l@, r@, host@),
{
    broadcast use objects::group_value_views;

    match (l, r) {
        (Value::Int(a), Value::Int(b)) => match a.checked_add(*b) {
            Some(v) => Ok(Value::Int(v)),
            None => Err(overflow("add", l, r)),
        },
        (Value::UInt(a), Value::UInt(b)) => match a.checked_add(*b) {
            Some(v) => Ok(Value::UInt(v)),
            None => Err(overflow("add", l, r)),
        },
        (Value::Float(a), Value::Float(b)) => float_arith(host, FloatOp::Add, *a, *b),
        (Value::String(a), Value::String(b)) => {
            let mut s = a.as_str().to_owned();
            s.append(b.as_str());
            Ok(Value::String(Arc::new(s)))
        },
        (Value::List(a), Value::List(b)) => Ok(Value::List(joined_list(a, b))),
        (Value::Duration(a), Value::Duration(b)) => match timestamp::add_lengths(
            a.nanos,
            b.nanos,
        ) {
            Some(d) => Ok(Value::Duration(d)),
            None => Err(overflow("add", l, r)),
        },
        (Value::Timestamp(t), Value::Duration(d)) => match timestamp::move_by(*t, d.nanos) {
            Some(u) => Ok(Value::Timestamp(u)),
            None => Err(overflow("add", l, r)),
        },
        (Value::Duration(d), Value::Timestamp(t)) => match timestamp::move_by(*t, d.nanos) {
            Some(u) => Ok(Value::Timestamp(u)),
            None => Err(overflow("add", l, r)),
        },
        _ => Err(unsupported("add", l, r)),
    }
}

/// `l - r`.
pub fn sub_values(l: &Value, r: &Value, host: &HostTable) -> (o: Result<Value, ExecutionError>)
    ensures
        error::outcome(o) == sub_result(l@, r@, host@),
{
    match (l, r) {
        (Value::Int(a), Value::Int(b)) => match a.checked_sub(*b) {
            Some(v) => Ok(Value::Int(v)),
            None => Err(overflow("sub", l, r)),
        },
        (Value::UInt(a), Value::UInt(b)) => match a.checked_sub(*b) {
            Some(v) => Ok(Value::UInt(v)),
            None => Err(overflow("sub", l, r)),
        },
        (Value::Float(a), Value::Float(b)) => float_arith(host, FloatOp::Sub, *a, *b),
        (Value::Timestamp(t), _) => t.minus(r),
        (Value::Duration(a), Value::Duration(b)) => match timestamp::sub_lengths(
            a.nanos,
            b.nanos,
        ) {
            Some(d) => Ok(Value::Duration(d)),
            None => Err(overflow("sub", l, r)),
        },
        _ => Err(unsupported("sub", l, r)),
    }
}

/// `l * r`.
pub fn mul_values(l: &Value, r: &Value, host: &HostTable) -> (o: Result<Value, ExecutionError>)
    ensures
        error::outcome(o) == mul_result(l@, r@, host@),
{
    match (l, r) {
        (Value::Int(a), Value::Int(b)) => match a.checked_mul(*b) {
            Some(v) => Ok(Value::Int(v)),
            None => Err(overflow("mul", l, r)),
        },
        (Value::UInt(a), Value::UInt(b)) => match a.checked_mul(*b) {
            Some(v) => Ok(Value::UInt(v)),
            None => Err(overflow("mul", l, r)),
        },
        (Value::Float(a), Value::Float(b)) => float_arith(host, FloatOp::Mul, *a, *b),
        _ => Err(unsupported("mul", l, r)),
    }
}

/// `l / r`.
pub fn div_values(l: &Value, r: &Value, host: &HostTable) -> (o: Result<Value, ExecutionError>)
    ensures
        error::outcome(o) == div_result(l@, r@, host@),
{
    match (l, r) {
        (Value::Int(a), Value::Int(b)) => if *b == 0 {
            Err(ExecutionError::DivisionByZero(l.clone()))
        } else {
            match a.checked_div(*b) {
                Some(v) => Ok(Value::Int(v)),
                None => Err(overflow("div", l, r)),
            }
        },
        (Value::UInt(a), Value::UInt(b)) => if *b == 0 {
            Err(ExecutionError::DivisionByZero(l.clone()))
        } else {
            Ok(Value::UInt(*a / *b))
        },
        (Value::Float(a), Value::Float(b)) => float_arith(host, FloatOp::Div, *a, *b),
        _ => Err(unsupported("div", l, r)),
    }
}

/// `l % r`.
pub fn rem_values(l: &Value, r: &Value) -> (o: Result<Value, ExecutionError>)
    ensures
        error::outcome(o) == rem_result(l@, r@),
{
    match (l, r) {
        (Value::Int(a), Value::Int(b)) => if *b == 0 {
            Err(ExecutionError::RemainderByZero(l.clone()))
        } else {
            match a.checked_rem(*b) {
                Some(v) => Ok(Value::Int(v)),
                None => Err(overflow("rem", l, r)),
            }
        },
        (Value::UInt(a), Value::UInt(b)) => if *b == 0 {
            Err(ExecutionError::RemainderByZero(l.clone()))
        } else {
            Ok(Value::UInt(*a % *b))
        },
        _ => Err(unsupported("rem", l, r)),
    }
}

/// Whether some item of a list equals a value.
pub(crate) fn list_contains(items: &Vec<Value>, v: &Value) -> (r: bool)
    ensures
        r == list_has(objects::values_view(items@), v@),
{
    let ghost vs = objects::values_view(items@);
    let mut i: usize = 0;
    while i < items.len()
        invariant
            i <= items@.len(),
            vs == objects::values_view(items@),
            forall|j: int| 0 <= j < i ==> !objects::val_eq(#[trigger] vs[j], v@),
        decreases items@.len() - i,
    {
        assert(vs[i as int] == items@[i as int]@);
        if objects::values_equal(&items[i], v) {
            return true;
        }
        i += 1;
    }
    false
}

/// `l in r`.
pub fn in_values(l: &Value, r: &Value) -> (o: Result<Value, ExecutionError>)
    ensures
        error::outcome(o) == in_result(l@, r@),
{
    broadcast use objects::group_value_views;

    match r {
        Value::List(items) => Ok(Value::Bool(list_contains(items, l))),
        Value::Dict(m) => match objects::value_as_key(l) {
            Some(k) => Ok(Value::Bool(m.contains_key(&k))),
            None => Err(ExecutionError::UnsupportedMapIndex(l.clone())),
        },
        _ => Err(ExecutionError::NoSuchOverload),
    }
}

impl BinOp {
    /// Applies the operator to two values.
    pub fn apply(&self, l: &Value, r: &Value, host: &HostTable) -> (o: Result<
        Value,
        ExecutionError,
    >)
        ensures
            error::outcome(o) == binary_result(*self, l@, r@, host@),
    {
        match self {
            BinOp::Equals => Ok(Value::Bool(objects::values_equal(l, r))),
            BinOp::NotEquals => Ok(Value::Bool(!objects::values_equal(l, r))),
            BinOp::Add => add_values(l, r, host),
            BinOp::Sub => sub_values(l, r, host),
            BinOp::Mul => mul_values(l, r, host),
            BinOp::Div => div_values(l, r, host),
            BinOp::Rem => rem_values(l, r),
            BinOp::In => in_values(l, r),
            _ => match order_values(l, r) {
                Ok(o) => {
                    let b = match self {
                        BinOp::Less => o == Order::Before,
                        BinOp::LessEquals => o != Order::After,
                        BinOp::Greater => o == Order::After,
                        _ => o != Order::Before,
                    };
                    Ok(Value::Bool(b))
                },
                Err(e) => Err(e),
            },
        }
    }
}

/// How a key is shown.
pub open spec fn key_text(k: KeyVal) -> Seq<char> {
    match k {
        KeyVal::Int(i) => "Int("@ + strings::signed_decimal(i as int) + ")"@,
        KeyVal::Uint(u) => "Uint("@ + strings::decimal(u as nat) + ")"@,
        KeyVal::Bool(b) => if b {
            "Bool(true)"@
        } else {
            "Bool(false)"@
        },
        KeyVal::String(s) => "String("@ + strings::quoted(s) + ")"@,
    }
}

/// Shows a key.
pub fn show_key(k: &Key) -> (r: String)
    ensures
        r@ == key_text(k@),
{
    match k {
        Key::Int(i) => {
            let mut s = String::from_str("Int(");
            s.append(strings::signed_decimal_text(*i).as_str());
            s.append(")");
            s
        },
        Key::Uint(u) => {
            let mut s = String::from_str("Uint(");
            s.append(strings::decimal_text(*u).as_str());
            s.append(")");
            s
        },
        Key::Bool(b) => if *b {
            String::from_str("Bool(true)")
        } else {
            String::from_str("Bool(false)")
        },
        Key::String(s) => {
            let mut r = String::from_str("String(");
            r.append(strings::str_quoted(s.as_str()).as_str());
            r.append(")");
            r
        },
    }
}

/// The position that an index names in a list of a length; a negative one counts from the
/// end.
pub open spec fn list_position(len: nat, i: int) -> Option<int> {
    let p = if i < 0 {
        len + i
    } else {
        i
    };
    if 0 <= p < len {
        Some(p)
    } else {
        None
    }
}

/// A field of a map or of a struct.
pub open spec fn field_result(v: Val, field: Seq<char>) -> Outcome {
    match v {
        Val::Dict(m) => match objects::dict_get(m, KeyVal::String(field)) {
            Some(x) => Ok(x),
            None => Err(Fault::NoSuchKey(field)),
        },
        Val::Struct(_, s) => match env::lookup(s, field) {
            Some(x) => Ok(x),
            None => Err(Fault::NoSuchKey(field)),
        },
        Val::List(_) => Err(Fault::UnsupportedListIndex(Val::String(field))),
        _ => Err(Fault::NoSuchOverload),
    }
}

/// `container[index]` for a container that is no optional.
pub open spec fn item_result(container: Val, index: Val) -> Outcome {
    match container {
        Val::List(items) => match index {
            Val::Int(i) => match list_position(items.len(), i as int) {
                Some(p) => Ok(items[p]),
                None => Err(Fault::IndexOutOfBounds(index)),
            },
            Val::UInt(u) => match list_position(items.len(), u as int) {
                Some(p) => Ok(items[p]),
                None => Err(Fault::IndexOutOfBounds(index)),
            },
            _ => Err(Fault::UnsupportedListIndex(index)),
        },
        Val::Dict(m) => match objects::key_of(index) {
            Some(k) => match objects::dict_get(m, k) {
                Some(x) => Ok(x),
                None => Err(Fault::NoSuchKey(key_text(k))),
            },
            None => Err(Fault::UnsupportedMapIndex(index)),
        },
        Val::Struct(_, _) => match index {
            Val::String(s) => field_result(container, s),
            _ => Err(Fault::NoSuchOverload),
        },
        _ => Err(Fault::NoSuchOverload),
    }
}

/// An outcome as an optional: a value is there, or not.
pub open spec fn as_optional(o: Outcome) -> Outcome {
    match o {
        Ok(v) => Ok(Val::Optional(Some(Box::new(v)))),
        Err(_) => Ok(Val::Optional(None)),
    }
}

/// `container[index]`, or `container[?index]` where the result is an optional. An index
/// into an optional gives an optional.
pub open spec fn index_result(optional: bool, container: Val, index: Val) -> Outcome {
    match container {
        Val::Optional(None) => Ok(Val::Optional(None)),
        Val::Optional(Some(x)) => as_optional(item_result(*x, index)),
        _ => if optional {
            as_optional(item_result(container, index))
        } else {
            item_result(container, index)
        },
    }
}

/// `operand.?field`.
pub open spec fn opt_select_result(operand: Val, field: Val) -> Outcome {
    match field {
        Val::String(f) => match operand {
            Val::Optional(None) => Ok(Val::Optional(None)),
            Val::Optional(Some(x)) => as_optional(field_result(*x, f)),
            _ => match field_result(operand, f) {
                Ok(v) => Ok(Val::Optional(Some(Box::new(v)))),
                Err(e) => Err(e),
            },
        },
        _ => Err(Fault::FunctionError("_?._"@, "field must be string"@)),
    }
}

/// A field of a map or of a struct.
pub fn get_field(v: &Value, field: &str) -> (r: Result<Value, ExecutionError>)
    ensures
        error::outcome(r) == field_result(v@, field@),
{
    broadcast use objects::group_value_views;

    match v {
        Value::Dict(m) => match m.get(&Key::String(field.to_owned())) {
            Some(x) => Ok(x.clone()),
            None => Err(ExecutionError::no_such_key(field)),
        },
        Value::Struct(s) => {
            assert(crate::assoc::names(s.fields@) =~= env::keys(objects::fields_view(s.fields@)));
            match crate::assoc::find(&s.fields, field) {
                Some(i) => Ok(s.fields[i].1.clone()),
                None => Err(ExecutionError::no_such_key(field)),
            }
        },
        Value::List(_) => Err(
            ExecutionError::UnsupportedListIndex(Value::String(Arc::new(field.to_owned()))),
        ),
        _ => Err(ExecutionError::NoSuchOverload),
    }
}

fn get_item(container: &Value, index: &Value) -> (r: Result<Value, ExecutionError>)
    ensures
        error::outcome(r) == item_result(container@, index@),
{
    broadcast use objects::group_value_views;

    match container {
        Value::List(items) => match index {
            Value::Int(i) => {
                let n: i128 = items.len() as i128;
                let p: i128 = if *i < 0 {
                    n + *i as i128
                } else {
                    *i as i128
                };
                if 0 <= p && p < n {
                    Ok(items[p as usize].clone())
                } else {
                    Err(ExecutionError::IndexOutOfBounds(index.clone()))
                }
            },
            Value::UInt(u) => if (*u as u128) < items.len() as u128 {
                Ok(items[*u as usize].clone())
            } else {
                Err(ExecutionError::IndexOutOfBounds(index.clone()))
            },
            _ => Err(ExecutionError::UnsupportedListIndex(index.clone())),
        },
        Value::Dict(m) => match objects::value_as_key(index) {
            Some(k) => match m.get(&k) {
                Some(x) => Ok(x.clone()),
                None => Err(ExecutionError::NoSuchKey(show_key(&k))),
            },
            None => Err(ExecutionError::UnsupportedMapIndex(index.clone())),
        },
        Value::Struct(_) => match index {
            Value::String(s) => get_field(container, s.as_str()),
            _ => Err(ExecutionError::NoSuchOverload),
        },
        _ => Err(ExecutionError::NoSuchOverload),
    }
}

fn optional_of(r: Result<Value, ExecutionError>) -> (o: Result<Value, ExecutionError>)
    ensures
        error::outcome(o) == as_optional(error::outcome(r)),
{
    match r {
        Ok(v) => Ok(Value::Optional(Some(Box::new(v)))),
        Err(_) => Ok(Value::Optional(None)),
    }
}

/// `container[index]`, or `container[?index]`.
pub fn index_values(optional: bool, container: &Value, index: &Value) -> (r: Result<
    Value,
    ExecutionError,
>)
    ensures
        error::outcome(r) == index_result(optional, container@, index@),
{
    match container {
        Value::Optional(o) => match o {
            Some(x) => optional_of(get_item(&**x, index)),
            None => Ok(Value::Optional(None)),
        },
        _ => if optional {
            optional_of(get_item(container, index))
        } else {
            get_item(container, index)
        },
    }
}

/// `operand.?field`.
pub fn opt_select_values(operand: &Value, field: &Value) -> (r: Result<Value, ExecutionError>)
    ensures
        error::outcome(r) == opt_select_result(operand@, field@),
{
    match field {
        Value::String(f) => match operand {
            Value::Optional(o) => match o {
                Some(x) => optional_of(get_field(&**x, f.as_str())),
                None => Ok(Value::Optional(None)),
            },
            _ => match get_field(operand, f.as_str()) {
                Ok(v) => Ok(Value::Optional(Some(Box::new(v)))),
                Err(e) => Err(e),
            },
        },
        _ => Err(ExecutionError::function_error("_?._", "field must be string")),
    }
}

/// `!v`.
pub open spec fn not_result(v: Val) -> Outcome {
    match v {
        Val::Bool(b) => Ok(Val::Bool(!b)),
        _ => Err(Fault::UnsupportedUnaryOperator("!"@, v)),
    }
}

/// `-v`; the integer that has no opposite is its own.
pub open spec fn negate_result(v: Val) -> Outcome {
    match v {
        Val::Int(i) => Ok(Val::Int(0i64.wrapping_sub(i))),
        Val::Float(f) => Ok(Val::Float(float::float_neg(f))),
        _ => Err(Fault::NoSuchOverload),
    }
}

/// Everything but `false` and `null` counts as true in the condition of a loop.
pub open spec fn not_strictly_false(v: Val) -> Val {
    Val::Bool(!(v == Val::Bool(false) || v == Val::Null))
}

/// `!v`.
pub fn not_value(v: Value) -> (r: Result<Value, ExecutionError>)
    ensures
        error::outcome(r) == not_result(v@),
{
    match v {
        Value::Bool(b) => Ok(Value::Bool(!b)),
        _ => Err(ExecutionError::UnsupportedUnaryOperator("!", v)),
    }
}

/// `-v`.
pub fn negate_value(v: Value) -> (r: Result<Value, ExecutionError>)
    ensures
        error::outcome(r) == negate_result(v@),
{
    match v {
        Value::Int(i) => Ok(Value::Int(0i64.wrapping_sub(i))),
        Value::Float(f) => Ok(Value::Float(float::float_negate(f))),
        _ => Err(ExecutionError::NoSuchOverload),
    }
}

/// Whether a value counts as true in the condition of a loop.
pub fn keep_going(v: &Value) -> (r: Value)
    ensures
        r@ == not_strictly_false(v@),
{
    match v {
        Value::Bool(b) => Value::Bool(*b),
        Value::Null => Value::Bool(false),
        _ => Value::Bool(true),
    }
}

/// What a boolean operand that was not decided by the other has to be.
pub open spec fn must_be_bool(o: Outcome) -> Outcome {
    match o {
        Ok(Val::Bool(b)) => Ok(Val::Bool(b)),
        Ok(_) => Err(Fault::NoSuchOverload),
        Err(e) => Err(e),
    }
}

/// `l && r` (`decided` is false) or `l || r` (`decided` is true): the value `decided` on
/// either side decides, even where the other side has a fault, is no boolean or waits for
/// the host. Otherwise a left operand that waits for the host makes the whole wait.
pub open spec fn logic_result(decided: bool, l: Outcome, r: Outcome) -> Outcome {
    match l {
        Err(Fault::HostNeeded(q)) => if r == Ok::<Val, Fault>(Val::Bool(decided)) {
            r
        } else {
            Err(Fault::HostNeeded(q))
        },
        Ok(Val::Bool(b)) => if b == decided {
            Ok(Val::Bool(decided))
        } else {
            must_be_bool(r)
        },
        _ => match must_be_bool(r) {
            Ok(Val::Bool(b)) => if b == decided {
                Ok(Val::Bool(decided))
            } else {
                match l {
                    Err(e) => Err(e),
                    Ok(_) => Err(Fault::NoSuchOverload),
                }
            },
            o => o,
        },
    }
}

/// The deciding value comes out exactly where it is on either side, the other one exactly
/// where it is on both; in every other case there is no value.
pub proof fn law_logic_decides(decided: bool, l: Outcome, r: Outcome)
    ensures
        logic_result(decided, l, r) == Ok::<Val, Fault>(Val::Bool(decided)) <==> (l == Ok::<
            Val,
            Fault,
        >(Val::Bool(decided)) || r == Ok::<Val, Fault>(Val::Bool(decided))),
        logic_result(decided, l, r) == Ok::<Val, Fault>(Val::Bool(!decided)) <==> (l == Ok::<
            Val,
            Fault,
        >(Val::Bool(!decided)) && r == Ok::<Val, Fault>(Val::Bool(!decided))),
        logic_result(decided, l, r) matches Ok(v) ==> v is Bool,
{
}

} // verus!
