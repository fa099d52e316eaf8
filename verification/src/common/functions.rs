//! The functions that a declaration can name.

use crate::common::types;
use crate::common::types::timestamp;
use crate::common::types::timestamp::TimeField;
use crate::common::types::{Kind, Type};
use crate::error;
use crate::error::{
    CallSite, ExecutionError, Fault, HostRequest, HostTable, Outcome, Req, Site,
};
use crate::objects;
use crate::objects::{Val, Value};
use crate::patterns;
use crate::patterns::CompiledRegex;
use crate::strings;
use vstd::prelude::*;
use vstd::string::*;

verus! {

/// A function of the standard library, or one that the host computes.
#[derive(Clone, Copy, Debug, PartialEq, Eq, Structural)]
pub enum Function {
    /// Gives its argument back.
    Noop,
    /// Reads an instant from a text.
    ParseTimestamp,
    /// A field of an instant.
    Field(TimeField),
    Contains,
    StartsWith,
    EndsWith,
    Matches,
    Size,
    /// An overload that the host computes, by its number.
    Host(u64),
}

/// The fault of a call with a wrong number of arguments.
pub open spec fn wrong_count(expected: nat, args: Seq<Val>) -> Fault {
    Fault::InvalidArgumentCount(expected, args.len())
}

/// The fault of an argument of a wrong type.
pub open spec fn wrong_type(v: Val, want: Kind) -> Fault {
    Fault::UnexpectedType(types::type_of(v).name, types::kind_name(want))
}

/// What a test of two texts gives.
pub open spec fn text_test(f: Function, s: Seq<char>, t: Seq<char>) -> Outcome {
    match f {
        Function::Contains => Ok(Val::Bool(strings::occurs_in(t, s))),
        Function::StartsWith => Ok(Val::Bool(t.is_prefix_of(s))),
        Function::EndsWith => Ok(Val::Bool(t.is_suffix_of(s))),
        _ => match_result(t, s, patterns::regex_valid(t), patterns::regex_found(t, s)),
    }
}

/// What `matches` gives, by whether the expression is valid and whether it is found.
pub open spec fn match_result(t: Seq<char>, s: Seq<char>, valid: bool, found: bool) -> Outcome {
    if valid {
        Ok(Val::Bool(found))
    } else {
        Err(Fault::FunctionError("matches"@, "not a valid regex: "@ + t))
    }
}

/// The number of characters, items, entries or bytes.
pub open spec fn size_of(v: Val) -> Option<nat> {
    match v {
        Val::String(s) => Some(s.len()),
        Val::List(l) => Some(l.len()),
        Val::Dict(m) => Some(m.len()),
        Val::Bytes(b) => Some(b.len()),
        _ => None,
    }
}

/// What a call gives at a place.
pub open spec fn call_result(
    f: Function,
    args: Seq<Val>,
    host: Seq<(Req, Outcome)>,
    site: Site,
) -> Outcome {
    match f {
        Function::Noop => if args.len() == 1 {
            Ok(args[0])
        } else {
            Err(wrong_count(1, args))
        },
        Function::ParseTimestamp => if args.len() != 1 {
            Err(wrong_count(1, args))
        } else {
            match args[0] {
                Val::String(s) => timestamp::parse_result(s),
                v => Err(wrong_type(v, Kind::String)),
            }
        },
        Function::Field(t) => if args.len() != 1 {
            Err(wrong_count(1, args))
        } else {
            match args[0] {
                Val::Timestamp(ts) => timestamp::field_result(t, ts),
                v => Err(wrong_type(v, Kind::Timestamp)),
            }
        },
        Function::Size => if args.len() != 1 {
            Err(wrong_count(1, args))
        } else {
            match size_of(args[0]) {
                Some(n) => Ok(Val::Int(n as usize as i64)),
                None => Err(Fault::NoSuchOverload),
            }
        },
        Function::Host(n) => error::ask(host, Req::Overload(site, n, args)),
        _ => if args.len() != 2 {
            Err(wrong_count(2, args))
        } else {
            match (args[0], args[1]) {
                (Val::String(s), Val::String(t)) => text_test(f, s, t),
                (Val::String(_), v) => Err(wrong_type(v, Kind::String)),
                (v, _) => Err(wrong_type(v, Kind::String)),
            }
        },
    }
}

fn count_error(expected: usize, actual: usize) -> (r: ExecutionError)
    ensures
        r@ == Fault::InvalidArgumentCount(expected as nat, actual as nat),
{
    ExecutionError::InvalidArgumentCount { expected, actual }
}

fn type_error(v: &Value, want: Kind) -> (r: ExecutionError)
    ensures
        r@ == wrong_type(v@, want),
{
    let got = Type::of_value(v);
    ExecutionError::UnexpectedType {
        got: got.name().to_owned(),
        want: Type::of_kind(want).name().to_owned(),
    }
}

/// The number of characters, items, entries or bytes.
pub(crate) fn size_value(v: &Value) -> (r: Option<usize>)
    ensures
        match r {
            Some(n) => size_of(v@) == Some(n as nat),
            None => size_of(v@) is None,
        },
{
    broadcast use objects::group_value_views;

    match v {
        Value::String(s) => Some(s.as_str().unicode_len()),
        Value::List(l) => Some(l.len()),
        Value::Dict(m) => Some(m.entries.len()),
        Value::Bytes(b) => Some(b.len()),
        _ => None,
    }
}

/// Whether a regular expression matches somewhere in a text.
pub(crate) fn matches_text(text: &str, pattern: &str) -> (r: Result<Value, ExecutionError>)
    ensures
        error::outcome(r) == match_result(
            pattern@,
            text@,
            patterns::regex_valid(pattern@),
            patterns::regex_found(pattern@, text@),
        ),
{
    let compiled = CompiledRegex::new(pattern);
    match compiled {
        Some(re) => match_outcome(pattern, Some(re.is_match(text)), text),
        None => match_outcome(pattern, None, text),
    }
}

/// What `matches` gives, once the expression was refused or searched for.
pub fn match_outcome(pattern: &str, found: Option<bool>, text: &str) -> (r: Result<
    Value,
    ExecutionError,
>)
    ensures
        error::outcome(r) == match_result(pattern@, text@, found is Some, found == Some(true)),
{
    match found {
        Some(b) => Ok(Value::Bool(b)),
        None => {
            let mut m = String::from_str("not a valid regex: ");
            m.append(pattern);
            Err(ExecutionError::function_error("matches", m.as_str()))
        },
    }
}

impl Function {
    /// Calls the function, at a place.
    pub fn call(&self, args: Vec<Value>, host: &HostTable, site: CallSite) -> (r: Result<
        Value,
        ExecutionError,
    >)
        ensures
            error::outcome(r) == call_result(*self, objects::values_view(args@), host@, site@),
    {
        match self {
            Function::Noop => if args.len() == 1 {
                Ok(args[0].clone())
            } else {
                Err(count_error(1, args.len()))
            },
            Function::ParseTimestamp => {
                if args.len() != 1 {
                    return Err(count_error(1, args.len()));
                }
                match &args[0] {
                    Value::String(s) => timestamp::timestamp(s.as_str()),
                    v => Err(type_error(v, Kind::String)),
                }
            },
            Function::Field(f) => {
                if args.len() != 1 {
                    return Err(count_error(1, args.len()));
                }
                match &args[0] {
                    Value::Timestamp(t) => t.field(*f),
                    v => Err(type_error(v, Kind::Timestamp)),
                }
            },
            Function::Size => {
                if args.len() != 1 {
                    return Err(count_error(1, args.len()));
                }
                match size_value(&args[0]) {
                    Some(n) => Ok(Value::Int(n as i64)),
                    None => Err(ExecutionError::NoSuchOverload),
                }
            },
            Function::Host(n) => host.ask(HostRequest::Overload(site, *n, args)),
            _ => {
                if args.len() != 2 {
                    return Err(count_error(2, args.len()));
                }
                match (&args[0], &args[1]) {
                    (Value::String(s), Value::String(t)) => match self {
                        Function::Contains => Ok(
                            Value::Bool(strings::str_contains(s.as_str(), t.as_str())),
                        ),
                        Function::StartsWith => Ok(
                            Value::Bool(strings::str_starts_with(s.as_str(), t.as_str())),
                        ),
                        Function::EndsWith => Ok(
                            Value::Bool(strings::str_ends_with(s.as_str(), t.as_str())),
                        ),
                        _ => matches_text(s.as_str(), t.as_str()),
                    },
                    (Value::String(_), v) => Err(type_error(v, Kind::String)),
                    (v, _) => Err(type_error(v, Kind::String)),
                }
            },
        }
    }
}

} // verus!
