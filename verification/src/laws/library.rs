//! Laws of the standard library: which function a name calls.

use crate::assoc;
use crate::common::decls;
use crate::common::decls::Overload;
use crate::common::ast;
use crate::common::ast::{CallExpr, Expr};
use crate::common::functions;
use crate::common::functions::Function;
use crate::common::types;
use crate::common::types::timestamp;
use crate::common::types::timestamp::TimeField;
use crate::common::types::Kind;
use crate::env;
use crate::context::Scope;
use crate::env::EnvModel;
use crate::error::{Fault, Outcome};
use crate::laws::arithmetic::called;
use crate::laws::rules::{begins_with, ends_with, goes_with, lemma_text_tests};
use crate::objects::{Timestamp, Val};
use crate::patterns;
use crate::semantics;
use crate::semantics::{to_arg, to_target};
use vstd::prelude::*;
use vstd::string::*;

verus! {

/// The overloads of a name after a declaration.
spec fn joined(s: Seq<Overload>, name: Seq<char>, declared: Seq<char>, o: Overload) -> Seq<Overload> {
    if name == declared && !decls::clashes(s, o) {
        s.push(o)
    } else {
        s
    }
}

proof fn lemma_declared(e: EnvModel, declared: Seq<char>, o: Overload, name: Seq<char>)
    requires
        assoc::rising(env::keys(e.functions)),
    ensures
        assoc::rising(env::keys(env::declare(e, declared, o).functions)),
        env::overloads_of(env::declare(e, declared, o), name) == joined(
            env::overloads_of(e, name),
            name,
            declared,
            o,
        ),
{
    env::law_declare(e, declared, o, name);
}

/// The overloads of a name in the standard library.
spec fn declared_as(name: Seq<char>) -> Seq<Overload> {
    let two = seq![types::kind_type(Kind::String), types::kind_type(Kind::String)];
    let any = seq![types::kind_type(Kind::Dyn)];
    let text = seq![types::kind_type(Kind::String)];
    let instant = seq![types::kind_type(Kind::Timestamp)];
    let s = Seq::<Overload>::empty();
    let s = joined(
        s,
        name,
        "contains"@,
        env::member_overload("contains_string"@, two, Function::Contains),
    );
    let s = joined(
        s,
        name,
        "startsWith"@,
        env::member_overload("starts_with_string"@, two, Function::StartsWith),
    );
    let s = joined(
        s,
        name,
        "endsWith"@,
        env::member_overload("ends_with_string"@, two, Function::EndsWith),
    );
    let s = joined(
        s,
        name,
        "matches"@,
        env::member_overload("matches_string"@, two, Function::Matches),
    );
    let s = joined(
        s,
        name,
        "size"@,
        env::free_overload("size_of"@, any, Function::Size),
    );
    let s = joined(
        s,
        name,
        "size"@,
        env::member_overload("size_of_member"@, any, Function::Size),
    );
    let s = joined(
        s,
        name,
        "timestamp"@,
        env::free_overload("string_to_timestamp"@, text, Function::ParseTimestamp),
    );
    let s = joined(
        s,
        name,
        "timestamp"@,
        env::free_overload("timestamp_to_timestamp"@, instant, Function::Noop),
    );
    let s = joined(
        s,
        name,
        "getFullYear"@,
        env::member_overload("timestamp_to_year"@, instant, Function::Field(TimeField::FullYear)),
    );
    let s = joined(
        s,
        name,
        "getMonth"@,
        env::member_overload("timestamp_to_month"@, instant, Function::Field(TimeField::Month)),
    );
    let s = joined(
        s,
        name,
        "getDayOfYear"@,
        env::member_overload("timestamp_to_day_of_year"@, instant, Function::Field(TimeField::DayOfYear)),
    );
    let s = joined(
        s,
        name,
        "getDayOfMonth"@,
        env::member_overload("timestamp_to_day_of_month"@, instant, Function::Field(TimeField::DayOfMonth)),
    );
    let s = joined(
        s,
        name,
        "getDate"@,
        env::member_overload("timestamp_to_day_of_month_1_based"@, instant, Function::Field(TimeField::Date)),
    );
    let s = joined(
        s,
        name,
        "getDayOfWeek"@,
        env::member_overload("timestamp_to_day_of_week"@, instant, Function::Field(TimeField::DayOfWeek)),
    );
    let s = joined(
        s,
        name,
        "getHours"@,
        env::member_overload("timestamp_to_hours"@, instant, Function::Field(TimeField::Hours)),
    );
    let s = joined(
        s,
        name,
        "getMinutes"@,
        env::member_overload("timestamp_to_minutes"@, instant, Function::Field(TimeField::Minutes)),
    );
    let s = joined(
        s,
        name,
        "getSeconds"@,
        env::member_overload("timestamp_to_seconds"@, instant, Function::Field(TimeField::Seconds)),
    );
    joined(
        s,
        name,
        "getMilliseconds"@,
        env::member_overload("timestamp_to_millis"@, instant, Function::Field(TimeField::Millis)),
    )
}

proof fn lemma_declared_as(name: Seq<char>)
    ensures
        assoc::rising(env::keys(env::stdlib_env().functions)),
        env::overloads_of(env::stdlib_env(), name) == declared_as(name),
{
    let two = seq![types::kind_type(Kind::String), types::kind_type(Kind::String)];
    let any = seq![types::kind_type(Kind::Dyn)];
    let text = seq![types::kind_type(Kind::String)];
    let instant = seq![types::kind_type(Kind::Timestamp)];
    let e = env::empty_env();
    env::law_declare(e, name, env::member_overload(name, any, Function::Size), name);
    assert(env::overloads_of(e, name) =~= Seq::<Overload>::empty());
    let o = env::member_overload("contains_string"@, two, Function::Contains);
    lemma_declared(e, "contains"@, o, name);
    let e = env::declare(e, "contains"@, o);
    let o = env::member_overload("starts_with_string"@, two, Function::StartsWith);
    lemma_declared(e, "startsWith"@, o, name);
    let e = env::declare(e, "startsWith"@, o);
    let o = env::member_overload("ends_with_string"@, two, Function::EndsWith);
    lemma_declared(e, "endsWith"@, o, name);
    let e = env::declare(e, "endsWith"@, o);
    let o = env::member_overload("matches_string"@, two, Function::Matches);
    lemma_declared(e, "matches"@, o, name);
    let e = env::declare(e, "matches"@, o);
    let o = env::free_overload("size_of"@, any, Function::Size);
    lemma_declared(e, "size"@, o, name);
    let e = env::declare(e, "size"@, o);
    let o = env::member_overload("size_of_member"@, any, Function::Size);
    lemma_declared(e, "size"@, o, name);
    let e = env::declare(e, "size"@, o);
    let o = env::free_overload("string_to_timestamp"@, text, Function::ParseTimestamp);
    lemma_declared(e, "timestamp"@, o, name);
    let e = env::declare(e, "timestamp"@, o);
    let o = env::free_overload("timestamp_to_timestamp"@, instant, Function::Noop);
    lemma_declared(e, "timestamp"@, o, name);
    let e = env::declare(e, "timestamp"@, o);
    let o = env::member_overload("timestamp_to_year"@, instant, Function::Field(TimeField::FullYear));
    lemma_declared(e, "getFullYear"@, o, name);
    let e = env::declare(e, "getFullYear"@, o);
    let o = env::member_overload("timestamp_to_month"@, instant, Function::Field(TimeField::Month));
    lemma_declared(e, "getMonth"@, o, name);
    let e = env::declare(e, "getMonth"@, o);
    let o = env::member_overload("timestamp_to_day_of_year"@, instant, Function::Field(TimeField::DayOfYear));
    lemma_declared(e, "getDayOfYear"@, o, name);
    let e = env::declare(e, "getDayOfYear"@, o);
    let o = env::member_overload("timestamp_to_day_of_month"@, instant, Function::Field(TimeField::DayOfMonth));
    lemma_declared(e, "getDayOfMonth"@, o, name);
    let e = env::declare(e, "getDayOfMonth"@, o);
    let o = env::member_overload("timestamp_to_day_of_month_1_based"@, instant, Function::Field(TimeField::Date));
    lemma_declared(e, "getDate"@, o, name);
    let e = env::declare(e, "getDate"@, o);
    let o = env::member_overload("timestamp_to_day_of_week"@, instant, Function::Field(TimeField::DayOfWeek));
    lemma_declared(e, "getDayOfWeek"@, o, name);
    let e = env::declare(e, "getDayOfWeek"@, o);
    let o = env::member_overload("timestamp_to_hours"@, instant, Function::Field(TimeField::Hours));
    lemma_declared(e, "getHours"@, o, name);
    let e = env::declare(e, "getHours"@, o);
    let o = env::member_overload("timestamp_to_minutes"@, instant, Function::Field(TimeField::Minutes));
    lemma_declared(e, "getMinutes"@, o, name);
    let e = env::declare(e, "getMinutes"@, o);
    let o = env::member_overload("timestamp_to_seconds"@, instant, Function::Field(TimeField::Seconds));
    lemma_declared(e, "getSeconds"@, o, name);
    let e = env::declare(e, "getSeconds"@, o);
    let o = env::member_overload("timestamp_to_millis"@, instant, Function::Field(TimeField::Millis));
    lemma_declared(e, "getMilliseconds"@, o, name);
    let e = env::declare(e, "getMilliseconds"@, o);
    assert(e == env::stdlib_env());
}

/// No two names of the standard library are the same.
proof fn lemma_names_apart()
    ensures
        "contains"@ != "startsWith"@,
        "contains"@ != "endsWith"@,
        "contains"@ != "matches"@,
        "contains"@ != "size"@,
        "contains"@ != "timestamp"@,
        "contains"@ != "getFullYear"@,
        "contains"@ != "getMonth"@,
        "contains"@ != "getDayOfYear"@,
        "contains"@ != "getDayOfMonth"@,
        "contains"@ != "getDate"@,
        "contains"@ != "getDayOfWeek"@,
        "contains"@ != "getHours"@,
        "contains"@ != "getMinutes"@,
        "contains"@ != "getSeconds"@,
        "contains"@ != "getMilliseconds"@,
        "startsWith"@ != "endsWith"@,
        "startsWith"@ != "matches"@,
        "startsWith"@ != "size"@,
        "startsWith"@ != "timestamp"@,
        "startsWith"@ != "getFullYear"@,
        "startsWith"@ != "getMonth"@,
        "startsWith"@ != "getDayOfYear"@,
        "startsWith"@ != "getDayOfMonth"@,
        "startsWith"@ != "getDate"@,
        "startsWith"@ != "getDayOfWeek"@,
        "startsWith"@ != "getHours"@,
        "startsWith"@ != "getMinutes"@,
        "startsWith"@ != "getSeconds"@,
        "startsWith"@ != "getMilliseconds"@,
        "endsWith"@ != "matches"@,
        "endsWith"@ != "size"@,
        "endsWith"@ != "timestamp"@,
        "endsWith"@ != "getFullYear"@,
        "endsWith"@ != "getMonth"@,
        "endsWith"@ != "getDayOfYear"@,
        "endsWith"@ != "getDayOfMonth"@,
        "endsWith"@ != "getDate"@,
        "endsWith"@ != "getDayOfWeek"@,
        "endsWith"@ != "getHours"@,
        "endsWith"@ != "getMinutes"@,
        "endsWith"@ != "getSeconds"@,
        "endsWith"@ != "getMilliseconds"@,
        "matches"@ != "size"@,
        "matches"@ != "timestamp"@,
        "matches"@ != "getFullYear"@,
        "matches"@ != "getMonth"@,
        "matches"@ != "getDayOfYear"@,
        "matches"@ != "getDayOfMonth"@,
        "matches"@ != "getDate"@,
        "matches"@ != "getDayOfWeek"@,
        "matches"@ != "getHours"@,
        "matches"@ != "getMinutes"@,
        "matches"@ != "getSeconds"@,
        "matches"@ != "getMilliseconds"@,
        "size"@ != "timestamp"@,
        "size"@ != "getFullYear"@,
        "size"@ != "getMonth"@,
        "size"@ != "getDayOfYear"@,
        "size"@ != "getDayOfMonth"@,
        "size"@ != "getDate"@,
        "size"@ != "getDayOfWeek"@,
        "size"@ != "getHours"@,
        "size"@ != "getMinutes"@,
        "size"@ != "getSeconds"@,
        "size"@ != "getMilliseconds"@,
        "timestamp"@ != "getFullYear"@,
        "timestamp"@ != "getMonth"@,
        "timestamp"@ != "getDayOfYear"@,
        "timestamp"@ != "getDayOfMonth"@,
        "timestamp"@ != "getDate"@,
        "timestamp"@ != "getDayOfWeek"@,
        "timestamp"@ != "getHours"@,
        "timestamp"@ != "getMinutes"@,
        "timestamp"@ != "getSeconds"@,
        "timestamp"@ != "getMilliseconds"@,
        "getFullYear"@ != "getMonth"@,
        "getFullYear"@ != "getDayOfYear"@,
        "getFullYear"@ != "getDayOfMonth"@,
        "getFullYear"@ != "getDate"@,
        "getFullYear"@ != "getDayOfWeek"@,
        "getFullYear"@ != "getHours"@,
        "getFullYear"@ != "getMinutes"@,
        "getFullYear"@ != "getSeconds"@,
        "getFullYear"@ != "getMilliseconds"@,
        "getMonth"@ != "getDayOfYear"@,
        "getMonth"@ != "getDayOfMonth"@,
        "getMonth"@ != "getDate"@,
        "getMonth"@ != "getDayOfWeek"@,
        "getMonth"@ != "getHours"@,
        "getMonth"@ != "getMinutes"@,
        "getMonth"@ != "getSeconds"@,
        "getMonth"@ != "getMilliseconds"@,
        "getDayOfYear"@ != "getDayOfMonth"@,
        "getDayOfYear"@ != "getDate"@,
        "getDayOfYear"@ != "getDayOfWeek"@,
        "getDayOfYear"@ != "getHours"@,
        "getDayOfYear"@ != "getMinutes"@,
        "getDayOfYear"@ != "getSeconds"@,
        "getDayOfYear"@ != "getMilliseconds"@,
        "getDayOfMonth"@ != "getDate"@,
        "getDayOfMonth"@ != "getDayOfWeek"@,
        "getDayOfMonth"@ != "getHours"@,
        "getDayOfMonth"@ != "getMinutes"@,
        "getDayOfMonth"@ != "getSeconds"@,
        "getDayOfMonth"@ != "getMilliseconds"@,
        "getDate"@ != "getDayOfWeek"@,
        "getDate"@ != "getHours"@,
        "getDate"@ != "getMinutes"@,
        "getDate"@ != "getSeconds"@,
        "getDate"@ != "getMilliseconds"@,
        "getDayOfWeek"@ != "getHours"@,
        "getDayOfWeek"@ != "getMinutes"@,
        "getDayOfWeek"@ != "getSeconds"@,
        "getDayOfWeek"@ != "getMilliseconds"@,
        "getHours"@ != "getMinutes"@,
        "getHours"@ != "getSeconds"@,
        "getHours"@ != "getMilliseconds"@,
        "getMinutes"@ != "getSeconds"@,
        "getMinutes"@ != "getMilliseconds"@,
        "getSeconds"@ != "getMilliseconds"@,
{
    reveal_strlit("contains");
    reveal_strlit("startsWith");
    reveal_strlit("endsWith");
    reveal_strlit("matches");
    reveal_strlit("size");
    reveal_strlit("timestamp");
    reveal_strlit("getFullYear");
    reveal_strlit("getMonth");
    reveal_strlit("getDayOfYear");
    reveal_strlit("getDayOfMonth");
    reveal_strlit("getDate");
    reveal_strlit("getDayOfWeek");
    reveal_strlit("getHours");
    reveal_strlit("getMinutes");
    reveal_strlit("getSeconds");
    reveal_strlit("getMilliseconds");
    assert("contains"@.len() == 8 && "contains"@[0] == 'c' && "contains"@[3] == 't' && "contains"@[7] == 's');
    assert("startsWith"@.len() == 10 && "startsWith"@[0] == 's' && "startsWith"@[3] == 'r' && "startsWith"@[9] == 'h');
    assert("endsWith"@.len() == 8 && "endsWith"@[0] == 'e' && "endsWith"@[3] == 's' && "endsWith"@[7] == 'h');
    assert("matches"@.len() == 7 && "matches"@[0] == 'm' && "matches"@[3] == 'c' && "matches"@[6] == 's');
    assert("size"@.len() == 4 && "size"@[0] == 's' && "size"@[3] == 'e' && "size"@[3] == 'e');
    assert("timestamp"@.len() == 9 && "timestamp"@[0] == 't' && "timestamp"@[3] == 'e' && "timestamp"@[8] == 'p');
    assert("getFullYear"@.len() == 11 && "getFullYear"@[0] == 'g' && "getFullYear"@[3] == 'F' && "getFullYear"@[10] == 'r');
    assert("getMonth"@.len() == 8 && "getMonth"@[0] == 'g' && "getMonth"@[3] == 'M' && "getMonth"@[7] == 'h');
    assert("getDayOfYear"@.len() == 12 && "getDayOfYear"@[0] == 'g' && "getDayOfYear"@[3] == 'D' && "getDayOfYear"@[11] == 'r');
    assert("getDayOfMonth"@.len() == 13 && "getDayOfMonth"@[0] == 'g' && "getDayOfMonth"@[3] == 'D' && "getDayOfMonth"@[12] == 'h');
    assert("getDate"@.len() == 7 && "getDate"@[0] == 'g' && "getDate"@[3] == 'D' && "getDate"@[6] == 'e');
    assert("getDayOfWeek"@.len() == 12 && "getDayOfWeek"@[0] == 'g' && "getDayOfWeek"@[3] == 'D' && "getDayOfWeek"@[11] == 'k');
    assert("getHours"@.len() == 8 && "getHours"@[0] == 'g' && "getHours"@[3] == 'H' && "getHours"@[7] == 's');
    assert("getMinutes"@.len() == 10 && "getMinutes"@[0] == 'g' && "getMinutes"@[3] == 'M' && "getMinutes"@[9] == 's');
    assert("getSeconds"@.len() == 10 && "getSeconds"@[0] == 'g' && "getSeconds"@[3] == 'S' && "getSeconds"@[9] == 's');
    assert("getMilliseconds"@.len() == 15 && "getMilliseconds"@[0] == 'g' && "getMilliseconds"@[3] == 'M' && "getMilliseconds"@[14] == 's');
}

/// A name with one overload finds it by arguments that fit it, and by no others.
proof fn lemma_one_overload(name: Seq<char>, o: Overload, member: bool, args: Seq<Val>)
    requires
        env::overloads_of(env::stdlib_env(), name) == seq![o],
    ensures
        env::find(env::stdlib_env(), name, member, args) == (if decls::accepts(o, member, args) {
            Some(o.op)
        } else {
            None
        }),
{
    let s = seq![o];
    assert(decls::first_accepting(s, member, args, 1) is None);
    assert(decls::first_accepting(s, member, args, 0) == (if decls::accepts(o, member, args) {
        Some(0int)
    } else {
        None
    }));
    assert(env::lookup(env::stdlib_env().functions, name) == Some(s)) by {
        assert(s.len() == 1);
    }
}

/// The accessors of an instant each find their own field: in the standard environment, called
/// on an instant and without other arguments.
pub proof fn law_accessors(t: Timestamp)
    ensures
        ({
            let e = env::stdlib_env();
            let on = seq![Val::Timestamp(t)];
            &&& env::find(e, "getFullYear"@, true, on) == Some(Function::Field(TimeField::FullYear))
            &&& env::find(e, "getMonth"@, true, on) == Some(Function::Field(TimeField::Month))
            &&& env::find(e, "getDayOfYear"@, true, on) == Some(Function::Field(TimeField::DayOfYear))
            &&& env::find(e, "getDayOfMonth"@, true, on) == Some(Function::Field(TimeField::DayOfMonth))
            &&& env::find(e, "getDate"@, true, on) == Some(Function::Field(TimeField::Date))
            &&& env::find(e, "getDayOfWeek"@, true, on) == Some(Function::Field(TimeField::DayOfWeek))
            &&& env::find(e, "getHours"@, true, on) == Some(Function::Field(TimeField::Hours))
            &&& env::find(e, "getMinutes"@, true, on) == Some(Function::Field(TimeField::Minutes))
            &&& env::find(e, "getSeconds"@, true, on) == Some(Function::Field(TimeField::Seconds))
            &&& env::find(e, "getMilliseconds"@, true, on) == Some(Function::Field(TimeField::Millis))
        }),
{
    lemma_names_apart();
    let on = seq![Val::Timestamp(t)];
    let two = seq![types::kind_type(Kind::String), types::kind_type(Kind::String)];
    let any = seq![types::kind_type(Kind::Dyn)];
    let text = seq![types::kind_type(Kind::String)];
    let instant = seq![types::kind_type(Kind::Timestamp)];
    let o = env::member_overload("timestamp_to_year"@, instant, Function::Field(TimeField::FullYear));
    lemma_declared_as("getFullYear"@);
    assert(declared_as("getFullYear"@) =~= seq![o]);
    assert(decls::accepts(o, true, on));
    lemma_one_overload("getFullYear"@, o, true, on);
    let o = env::member_overload("timestamp_to_month"@, instant, Function::Field(TimeField::Month));
    lemma_declared_as("getMonth"@);
    assert(declared_as("getMonth"@) =~= seq![o]);
    assert(decls::accepts(o, true, on));
    lemma_one_overload("getMonth"@, o, true, on);
    let o = env::member_overload("timestamp_to_day_of_year"@, instant, Function::Field(TimeField::DayOfYear));
    lemma_declared_as("getDayOfYear"@);
    assert(declared_as("getDayOfYear"@) =~= seq![o]);
    assert(decls::accepts(o, true, on));
    lemma_one_overload("getDayOfYear"@, o, true, on);
    let o = env::member_overload("timestamp_to_day_of_month"@, instant, Function::Field(TimeField::DayOfMonth));
    lemma_declared_as("getDayOfMonth"@);
    assert(declared_as("getDayOfMonth"@) =~= seq![o]);
    assert(decls::accepts(o, true, on));
    lemma_one_overload("getDayOfMonth"@, o, true, on);
    let o = env::member_overload("timestamp_to_day_of_month_1_based"@, instant, Function::Field(TimeField::Date));
    lemma_declared_as("getDate"@);
    assert(declared_as("getDate"@) =~= seq![o]);
    assert(decls::accepts(o, true, on));
    lemma_one_overload("getDate"@, o, true, on);
    let o = env::member_overload("timestamp_to_day_of_week"@, instant, Function::Field(TimeField::DayOfWeek));
    lemma_declared_as("getDayOfWeek"@);
    assert(declared_as("getDayOfWeek"@) =~= seq![o]);
    assert(decls::accepts(o, true, on));
    lemma_one_overload("getDayOfWeek"@, o, true, on);
    let o = env::member_overload("timestamp_to_hours"@, instant, Function::Field(TimeField::Hours));
    lemma_declared_as("getHours"@);
    assert(declared_as("getHours"@) =~= seq![o]);
    assert(decls::accepts(o, true, on));
    lemma_one_overload("getHours"@, o, true, on);
    let o = env::member_overload("timestamp_to_minutes"@, instant, Function::Field(TimeField::Minutes));
    lemma_declared_as("getMinutes"@);
    assert(declared_as("getMinutes"@) =~= seq![o]);
    assert(decls::accepts(o, true, on));
    lemma_one_overload("getMinutes"@, o, true, on);
    let o = env::member_overload("timestamp_to_seconds"@, instant, Function::Field(TimeField::Seconds));
    lemma_declared_as("getSeconds"@);
    assert(declared_as("getSeconds"@) =~= seq![o]);
    assert(decls::accepts(o, true, on));
    lemma_one_overload("getSeconds"@, o, true, on);
    let o = env::member_overload("timestamp_to_millis"@, instant, Function::Field(TimeField::Millis));
    lemma_declared_as("getMilliseconds"@);
    assert(declared_as("getMilliseconds"@) =~= seq![o]);
    assert(decls::accepts(o, true, on));
    lemma_one_overload("getMilliseconds"@, o, true, on);
}

/// Called on anything but an instant alone, an accessor is not found; nor is it without a
/// target.
pub proof fn law_accessors_refuse(args: Seq<Val>)
    ensures
        ({
            let e = env::stdlib_env();
            let fits = args.len() == 1 && args[0] is Timestamp;
            &&& env::find(e, "getFullYear"@, false, args) is None
            &&& !fits ==> env::find(e, "getFullYear"@, true, args) is None
            &&& env::find(e, "getMonth"@, false, args) is None
            &&& !fits ==> env::find(e, "getMonth"@, true, args) is None
            &&& env::find(e, "getDayOfYear"@, false, args) is None
            &&& !fits ==> env::find(e, "getDayOfYear"@, true, args) is None
            &&& env::find(e, "getDayOfMonth"@, false, args) is None
            &&& !fits ==> env::find(e, "getDayOfMonth"@, true, args) is None
            &&& env::find(e, "getDate"@, false, args) is None
            &&& !fits ==> env::find(e, "getDate"@, true, args) is None
            &&& env::find(e, "getDayOfWeek"@, false, args) is None
            &&& !fits ==> env::find(e, "getDayOfWeek"@, true, args) is None
            &&& env::find(e, "getHours"@, false, args) is None
            &&& !fits ==> env::find(e, "getHours"@, true, args) is None
            &&& env::find(e, "getMinutes"@, false, args) is None
            &&& !fits ==> env::find(e, "getMinutes"@, true, args) is None
            &&& env::find(e, "getSeconds"@, false, args) is None
            &&& !fits ==> env::find(e, "getSeconds"@, true, args) is None
            &&& env::find(e, "getMilliseconds"@, false, args) is None
            &&& !fits ==> env::find(e, "getMilliseconds"@, true, args) is None
        }),
{
    lemma_names_apart();
    let two = seq![types::kind_type(Kind::String), types::kind_type(Kind::String)];
    let any = seq![types::kind_type(Kind::Dyn)];
    let text = seq![types::kind_type(Kind::String)];
    let instant = seq![types::kind_type(Kind::Timestamp)];
    let o = env::member_overload("timestamp_to_year"@, instant, Function::Field(TimeField::FullYear));
    lemma_declared_as("getFullYear"@);
    assert(declared_as("getFullYear"@) =~= seq![o]);
    lemma_one_overload("getFullYear"@, o, true, args);
    lemma_one_overload("getFullYear"@, o, false, args);
    let o = env::member_overload("timestamp_to_month"@, instant, Function::Field(TimeField::Month));
    lemma_declared_as("getMonth"@);
    assert(declared_as("getMonth"@) =~= seq![o]);
    lemma_one_overload("getMonth"@, o, true, args);
    lemma_one_overload("getMonth"@, o, false, args);
    let o = env::member_overload("timestamp_to_day_of_year"@, instant, Function::Field(TimeField::DayOfYear));
    lemma_declared_as("getDayOfYear"@);
    assert(declared_as("getDayOfYear"@) =~= seq![o]);
    lemma_one_overload("getDayOfYear"@, o, true, args);
    lemma_one_overload("getDayOfYear"@, o, false, args);
    let o = env::member_overload("timestamp_to_day_of_month"@, instant, Function::Field(TimeField::DayOfMonth));
    lemma_declared_as("getDayOfMonth"@);
    assert(declared_as("getDayOfMonth"@) =~= seq![o]);
    lemma_one_overload("getDayOfMonth"@, o, true, args);
    lemma_one_overload("getDayOfMonth"@, o, false, args);
    let o = env::member_overload("timestamp_to_day_of_month_1_based"@, instant, Function::Field(TimeField::Date));
    lemma_declared_as("getDate"@);
    assert(declared_as("getDate"@) =~= seq![o]);
    lemma_one_overload("getDate"@, o, true, args);
    lemma_one_overload("getDate"@, o, false, args);
    let o = env::member_overload("timestamp_to_day_of_week"@, instant, Function::Field(TimeField::DayOfWeek));
    lemma_declared_as("getDayOfWeek"@);
    assert(declared_as("getDayOfWeek"@) =~= seq![o]);
    lemma_one_overload("getDayOfWeek"@, o, true, args);
    lemma_one_overload("getDayOfWeek"@, o, false, args);
    let o = env::member_overload("timestamp_to_hours"@, instant, Function::Field(TimeField::Hours));
    lemma_declared_as("getHours"@);
    assert(declared_as("getHours"@) =~= seq![o]);
    lemma_one_overload("getHours"@, o, true, args);
    lemma_one_overload("getHours"@, o, false, args);
    let o = env::member_overload("timestamp_to_minutes"@, instant, Function::Field(TimeField::Minutes));
    lemma_declared_as("getMinutes"@);
    assert(declared_as("getMinutes"@) =~= seq![o]);
    lemma_one_overload("getMinutes"@, o, true, args);
    lemma_one_overload("getMinutes"@, o, false, args);
    let o = env::member_overload("timestamp_to_seconds"@, instant, Function::Field(TimeField::Seconds));
    lemma_declared_as("getSeconds"@);
    assert(declared_as("getSeconds"@) =~= seq![o]);
    lemma_one_overload("getSeconds"@, o, true, args);
    lemma_one_overload("getSeconds"@, o, false, args);
    let o = env::member_overload("timestamp_to_millis"@, instant, Function::Field(TimeField::Millis));
    lemma_declared_as("getMilliseconds"@);
    assert(declared_as("getMilliseconds"@) =~= seq![o]);
    lemma_one_overload("getMilliseconds"@, o, true, args);
    lemma_one_overload("getMilliseconds"@, o, false, args);
    if args.len() == 1 && !(args[0] is Timestamp) {
        assert(types::type_of(args[0]).kind != Kind::Timestamp);
        assert(!types::assignable(instant[0], args[0]));
    }
}

/// The functions on strings are found on two strings, of which the first is the target, and
/// on nothing else.
pub proof fn law_text_functions(args: Seq<Val>)
    ensures
        ({
            let e = env::stdlib_env();
            let fits = args.len() == 2 && args[0] is String && args[1] is String;
            &&& env::find(e, "contains"@, false, args) is None
            &&& env::find(e, "contains"@, true, args) == (if fits {
                Some(Function::Contains)
            } else {
                None
            })
            &&& env::find(e, "startsWith"@, false, args) is None
            &&& env::find(e, "startsWith"@, true, args) == (if fits {
                Some(Function::StartsWith)
            } else {
                None
            })
            &&& env::find(e, "endsWith"@, false, args) is None
            &&& env::find(e, "endsWith"@, true, args) == (if fits {
                Some(Function::EndsWith)
            } else {
                None
            })
            &&& env::find(e, "matches"@, false, args) is None
            &&& env::find(e, "matches"@, true, args) == (if fits {
                Some(Function::Matches)
            } else {
                None
            })
        }),
{
    lemma_names_apart();
    let two = seq![types::kind_type(Kind::String), types::kind_type(Kind::String)];
    let any = seq![types::kind_type(Kind::Dyn)];
    let text = seq![types::kind_type(Kind::String)];
    let instant = seq![types::kind_type(Kind::Timestamp)];
    if args.len() == 2 {
        if !(args[0] is String) {
            assert(types::type_of(args[0]).kind != Kind::String);
            assert(!types::assignable(two[0], args[0]));
        }
        if !(args[1] is String) {
            assert(types::type_of(args[1]).kind != Kind::String);
            assert(!types::assignable(two[1], args[1]));
        }
    }
    let o = env::member_overload("contains_string"@, two, Function::Contains);
    lemma_declared_as("contains"@);
    assert(declared_as("contains"@) =~= seq![o]);
    lemma_one_overload("contains"@, o, true, args);
    lemma_one_overload("contains"@, o, false, args);
    let o = env::member_overload("starts_with_string"@, two, Function::StartsWith);
    lemma_declared_as("startsWith"@);
    assert(declared_as("startsWith"@) =~= seq![o]);
    lemma_one_overload("startsWith"@, o, true, args);
    lemma_one_overload("startsWith"@, o, false, args);
    let o = env::member_overload("ends_with_string"@, two, Function::EndsWith);
    lemma_declared_as("endsWith"@);
    assert(declared_as("endsWith"@) =~= seq![o]);
    lemma_one_overload("endsWith"@, o, true, args);
    lemma_one_overload("endsWith"@, o, false, args);
    let o = env::member_overload("matches_string"@, two, Function::Matches);
    lemma_declared_as("matches"@);
    assert(declared_as("matches"@) =~= seq![o]);
    lemma_one_overload("matches"@, o, true, args);
    lemma_one_overload("matches"@, o, false, args);
}

/// A name with two overloads finds the first that arguments fit.
proof fn lemma_two_overloads(
    name: Seq<char>,
    o: Overload,
    q: Overload,
    member: bool,
    args: Seq<Val>,
)
    requires
        env::overloads_of(env::stdlib_env(), name) == seq![o, q],
    ensures
        env::find(env::stdlib_env(), name, member, args) == (if decls::accepts(o, member, args) {
            Some(o.op)
        } else if decls::accepts(q, member, args) {
            Some(q.op)
        } else {
            None
        }),
{
    let s = seq![o, q];
    assert(decls::first_accepting(s, member, args, 2) is None);
    assert(s[1] == q);
    assert(decls::first_accepting(s, member, args, 1) == (if decls::accepts(q, member, args) {
        Some(1int)
    } else {
        None
    }));
    assert(env::lookup(env::stdlib_env().functions, name) == Some(s)) by {
        assert(s.len() == 2);
    }
}

/// `size` is found on one value of any kind, as a function and on a target. `timestamp` reads
/// a text and keeps an instant.
pub proof fn law_sizes_and_instants(v: Val, args: Seq<Val>)
    ensures
        ({
            let e = env::stdlib_env();
            &&& env::find(e, "size"@, false, seq![v]) == Some(Function::Size)
            &&& env::find(e, "size"@, true, seq![v]) == Some(Function::Size)
            &&& args.len() != 1 ==> env::find(e, "size"@, false, args) is None
            &&& args.len() != 1 ==> env::find(e, "size"@, true, args) is None
            &&& env::find(e, "timestamp"@, false, seq![v]) == (match v {
                Val::String(_) => Some(Function::ParseTimestamp),
                Val::Timestamp(_) => Some(Function::Noop),
                _ => None,
            })
            &&& args.len() != 1 ==> env::find(e, "timestamp"@, false, args) is None
            &&& env::find(e, "timestamp"@, true, args) is None
        }),
{
    lemma_names_apart();
    reveal_strlit("size_of");
    reveal_strlit("size_of_member");
    reveal_strlit("string_to_timestamp");
    reveal_strlit("timestamp_to_timestamp");
    let one = seq![v];
    let two = seq![types::kind_type(Kind::String), types::kind_type(Kind::String)];
    let any = seq![types::kind_type(Kind::Dyn)];
    let text = seq![types::kind_type(Kind::String)];
    let instant = seq![types::kind_type(Kind::Timestamp)];
    let o = env::free_overload("size_of"@, any, Function::Size);
    let q = env::member_overload("size_of_member"@, any, Function::Size);
    lemma_declared_as("size"@);
    assert("size_of"@.len() == 7 && "size_of_member"@.len() == 14);
    assert(!decls::clashes(Seq::<Overload>::empty().push(o), q));
    assert(declared_as("size"@) =~= seq![o, q]);
    assert(decls::accepts(o, false, one));
    assert(decls::accepts(q, true, one));
    lemma_two_overloads("size"@, o, q, false, one);
    lemma_two_overloads("size"@, o, q, true, one);
    lemma_two_overloads("size"@, o, q, false, args);
    lemma_two_overloads("size"@, o, q, true, args);
    let o = env::free_overload("string_to_timestamp"@, text, Function::ParseTimestamp);
    let q = env::free_overload("timestamp_to_timestamp"@, instant, Function::Noop);
    lemma_declared_as("timestamp"@);
    assert("string_to_timestamp"@.len() == 19 && "timestamp_to_timestamp"@.len() == 22);
    assert(text[0].kind != instant[0].kind);
    assert(text != instant);
    assert(!decls::clashes(Seq::<Overload>::empty().push(o), q));
    assert(declared_as("timestamp"@) =~= seq![o, q]);
    lemma_two_overloads("timestamp"@, o, q, false, one);
    lemma_two_overloads("timestamp"@, o, q, false, args);
    lemma_two_overloads("timestamp"@, o, q, true, args);
    assert(types::assignable(text[0], v) == v is String);
    assert(types::assignable(instant[0], v) == v is Timestamp);
    assert(decls::accepts(o, false, one) == types::assignable(text[0], v)) by {
        assert(one[0] == v);
        if decls::accepts(o, false, one) {
            assert(types::assignable(o.arg_types[0], one[0]));
        }
    }
    assert(decls::accepts(q, false, one) == types::assignable(instant[0], v)) by {
        assert(one[0] == v);
        if decls::accepts(q, false, one) {
            assert(types::assignable(q.arg_types[0], one[0]));
        }
    }
}

/// A name of the standard library.
pub open spec fn known_name(name: Seq<char>) -> bool {
    ||| name == "contains"@
    ||| name == "startsWith"@
    ||| name == "endsWith"@
    ||| name == "matches"@
    ||| name == "size"@
    ||| name == "timestamp"@
    ||| name == "getFullYear"@
    ||| name == "getMonth"@
    ||| name == "getDayOfYear"@
    ||| name == "getDayOfMonth"@
    ||| name == "getDate"@
    ||| name == "getDayOfWeek"@
    ||| name == "getHours"@
    ||| name == "getMinutes"@
    ||| name == "getSeconds"@
    ||| name == "getMilliseconds"@
}

/// Other names are not found: what the program does not declare is not there.
pub proof fn law_no_other_functions(name: Seq<char>, member: bool, args: Seq<Val>)
    requires
        !known_name(name),
    ensures
        env::find(env::stdlib_env(), name, member, args) is None,
{
    lemma_declared_as(name);
    assert(declared_as(name) =~= Seq::<Overload>::empty());
    assert(decls::first_accepting(Seq::<Overload>::empty(), member, args, 0) is None);
    match env::lookup(env::stdlib_env().functions, name) {
        Some(s) => {
            assert(s =~= Seq::<Overload>::empty());
        },
        None => {},
    }
}

/// No name of the standard library is in a namespace.
proof fn lemma_no_dots(prefix: Seq<char>, name: Seq<char>)
    ensures
        !known_name(semantics::qualified(prefix, name)),
{
    let full = semantics::qualified(prefix, name);
    reveal_strlit(".");
    assert(full[prefix.len() as int] == '.');
    assert(!"contains"@.contains('.')) by {
        reveal_strlit("contains");
    }
    assert(!"startsWith"@.contains('.')) by {
        reveal_strlit("startsWith");
    }
    assert(!"endsWith"@.contains('.')) by {
        reveal_strlit("endsWith");
    }
    assert(!"matches"@.contains('.')) by {
        reveal_strlit("matches");
    }
    assert(!"size"@.contains('.')) by {
        reveal_strlit("size");
    }
    assert(!"timestamp"@.contains('.')) by {
        reveal_strlit("timestamp");
    }
    assert(!"getFullYear"@.contains('.')) by {
        reveal_strlit("getFullYear");
    }
    assert(!"getMonth"@.contains('.')) by {
        reveal_strlit("getMonth");
    }
    assert(!"getDayOfYear"@.contains('.')) by {
        reveal_strlit("getDayOfYear");
    }
    assert(!"getDayOfMonth"@.contains('.')) by {
        reveal_strlit("getDayOfMonth");
    }
    assert(!"getDate"@.contains('.')) by {
        reveal_strlit("getDate");
    }
    assert(!"getDayOfWeek"@.contains('.')) by {
        reveal_strlit("getDayOfWeek");
    }
    assert(!"getHours"@.contains('.')) by {
        reveal_strlit("getHours");
    }
    assert(!"getMinutes"@.contains('.')) by {
        reveal_strlit("getMinutes");
    }
    assert(!"getSeconds"@.contains('.')) by {
        reveal_strlit("getSeconds");
    }
    assert(!"getMilliseconds"@.contains('.')) by {
        reveal_strlit("getMilliseconds");
    }
    assert(full.contains('.'));
}

/// No name of the standard library is that of an operator.
pub proof fn lemma_no_operators(name: Seq<char>)
    requires
        known_name(name),
    ensures
        ast::operator_of(name) is None,
{
    assert(name.len() > 0 && name[0] != '_' && name[0] != '!' && name[0] != '-' && name[0] != '@')
        by {
        reveal_strlit("contains");
        reveal_strlit("startsWith");
        reveal_strlit("endsWith");
        reveal_strlit("matches");
        reveal_strlit("size");
        reveal_strlit("timestamp");
        reveal_strlit("getFullYear");
        reveal_strlit("getMonth");
        reveal_strlit("getDayOfYear");
        reveal_strlit("getDayOfMonth");
        reveal_strlit("getDate");
        reveal_strlit("getDayOfWeek");
        reveal_strlit("getHours");
        reveal_strlit("getMinutes");
        reveal_strlit("getSeconds");
        reveal_strlit("getMilliseconds");
    }
    reveal_strlit("_?_:_");
    reveal_strlit("_&&_");
    reveal_strlit("_||_");
    reveal_strlit("!_");
    reveal_strlit("_==_");
    reveal_strlit("_!=_");
    reveal_strlit("_<_");
    reveal_strlit("_<=_");
    reveal_strlit("_>_");
    reveal_strlit("_>=_");
    reveal_strlit("_+_");
    reveal_strlit("_-_");
    reveal_strlit("_*_");
    reveal_strlit("_/_");
    reveal_strlit("_%_");
    reveal_strlit("-_");
    reveal_strlit("_[_]");
    reveal_strlit("_[?_]");
    reveal_strlit("_?._");
    reveal_strlit("@in");
    reveal_strlit("@not_strictly_false");
}

/// A scope with the standard library and no registered functions.
pub open spec fn standard_scope(c: Scope) -> bool {
    c.env == env::stdlib_env() && c.functions.len() == 0
}

/// What the target of a call comes to.
pub open spec fn target_of(call: CallExpr, p: Seq<usize>, c: Scope) -> Outcome {
    semantics::eval_expr(call.target->0.expr, to_target(p), c)
}

/// A call on a target with a value, of a function of the standard library.
proof fn lemma_member_call(call: CallExpr, p: Seq<usize>, c: Scope, t: Val, a: Seq<Val>)
    requires
        standard_scope(c),
        known_name(call.func_name@),
        call.resolved_op is None,
        call.target is Some,
        target_of(call, p, c) == Ok::<Val, Fault>(t),
        semantics::eval_args(call.args@, p, c) == Ok::<Seq<Val>, Fault>(a),
    ensures
        called(call, p, c) == semantics::member_result(
            c,
            p,
            call.func_name@,
            Ok(t),
            Ok(a),
        ),
{
    lemma_no_operators(call.func_name@);
    assert(semantics::call_kind(ast::operator_of(call.func_name@), call.args@.len())
        == semantics::CallKind::General);
    match call.target->0.expr {
        Expr::Ident(prefix) => {
            let full = semantics::qualified(prefix@, call.func_name@);
            lemma_no_dots(prefix@, call.func_name@);
            law_no_other_functions(full, false, a);
            assert(!c.functions.contains(full));
        },
        _ => {},
    }
}

proof fn lemma_no_args(call: CallExpr, p: Seq<usize>, c: Scope)
    requires
        call.args@.len() == 0,
    ensures
        semantics::eval_args(call.args@, p, c) == Ok::<Seq<Val>, Fault>(Seq::empty()),
{
}

proof fn lemma_one_arg(call: CallExpr, p: Seq<usize>, c: Scope, v: Val)
    requires
        call.args@.len() == 1,
        semantics::eval_expr(call.args@[0].expr, to_arg(p, 0), c) == Ok::<Val, Fault>(v),
    ensures
        semantics::eval_args(call.args@, p, c) == Ok::<Seq<Val>, Fault>(seq![v]),
{
    let s = call.args@;
    assert(s.drop_last() =~= Seq::empty());
    assert(semantics::eval_args(s.drop_last(), p, c) == Ok::<Seq<Val>, Fault>(Seq::empty()));
    assert(Seq::<Val>::empty().push(v) =~= seq![v]);
}

/// An accessor called on an instant gives the field of its name. What a field is, the laws of
/// the clock and of the calendar say.
pub proof fn law_accessor_calls(call: CallExpr, p: Seq<usize>, c: Scope, t: Timestamp)
    requires
        standard_scope(c),
        call.resolved_op is None,
        call.target is Some,
        call.args@.len() == 0,
        target_of(call, p, c) == Ok::<Val, Fault>(Val::Timestamp(t)),
    ensures
        ({
            let n = call.func_name@;
            let o = called(call, p, c);
            &&& n == "getFullYear"@ ==> o == timestamp::field_result(TimeField::FullYear, t)
            &&& n == "getMonth"@ ==> o == timestamp::field_result(TimeField::Month, t)
            &&& n == "getDayOfYear"@ ==> o == timestamp::field_result(TimeField::DayOfYear, t)
            &&& n == "getDayOfMonth"@ ==> o == timestamp::field_result(TimeField::DayOfMonth, t)
            &&& n == "getDate"@ ==> o == timestamp::field_result(TimeField::Date, t)
            &&& n == "getDayOfWeek"@ ==> o == timestamp::field_result(TimeField::DayOfWeek, t)
            &&& n == "getHours"@ ==> o == timestamp::field_result(TimeField::Hours, t)
            &&& n == "getMinutes"@ ==> o == timestamp::field_result(TimeField::Minutes, t)
            &&& n == "getSeconds"@ ==> o == timestamp::field_result(TimeField::Seconds, t)
            &&& n == "getMilliseconds"@ ==> o == timestamp::field_result(TimeField::Millis, t)
        }),
{
    if known_name(call.func_name@) {
        lemma_no_args(call, p, c);
        lemma_member_call(call, p, c, Val::Timestamp(t), Seq::empty());
        law_accessors(t);
        assert(seq![Val::Timestamp(t)] + Seq::<Val>::empty() =~= seq![Val::Timestamp(t)]);
    }
}

/// A call of a function on two texts is its test of them.
proof fn lemma_text_call(
    call: CallExpr,
    p: Seq<usize>,
    c: Scope,
    s: Seq<char>,
    t: Seq<char>,
    f: Function,
)
    requires
        standard_scope(c),
        known_name(call.func_name@),
        call.resolved_op is None,
        call.target is Some,
        call.args@.len() == 1,
        target_of(call, p, c) == Ok::<Val, Fault>(Val::String(s)),
        semantics::eval_expr(call.args@[0].expr, to_arg(p, 0), c) == Ok::<Val, Fault>(
            Val::String(t),
        ),
        env::find(
            env::stdlib_env(),
            call.func_name@,
            true,
            seq![Val::String(s), Val::String(t)],
        ) == Some(f),
        f == Function::Contains || f == Function::StartsWith || f == Function::EndsWith || f
            == Function::Matches,
    ensures
        called(call, p, c) == functions::text_test(f, s, t),
{
    lemma_one_arg(call, p, c, Val::String(t));
    lemma_member_call(call, p, c, Val::String(s), seq![Val::String(t)]);
    let both = seq![Val::String(s), Val::String(t)];
    assert(seq![Val::String(s)] + seq![Val::String(t)] =~= both);
    assert(both[0] == Val::String(s) && both[1] == Val::String(t));
}

/// The functions on strings say of the target and the argument: that the one holds the other
/// somewhere, begins with it, or ends with it; and whether a regular expression, if it is one,
/// is found.
pub proof fn law_text_calls(
    call: CallExpr,
    p: Seq<usize>,
    c: Scope,
    s: Seq<char>,
    t: Seq<char>,
)
    requires
        standard_scope(c),
        call.resolved_op is None,
        call.target is Some,
        call.args@.len() == 1,
        target_of(call, p, c) == Ok::<Val, Fault>(Val::String(s)),
        semantics::eval_expr(call.args@[0].expr, to_arg(p, 0), c) == Ok::<Val, Fault>(
            Val::String(t),
        ),
    ensures
        ({
            let n = call.func_name@;
            let o = called(call, p, c);
            &&& n == "contains"@ ==> o == Ok::<Val, Fault>(Val::Bool(goes_with(s, t)))
            &&& n == "startsWith"@ ==> o == Ok::<Val, Fault>(Val::Bool(begins_with(s, t)))
            &&& n == "endsWith"@ ==> o == Ok::<Val, Fault>(Val::Bool(ends_with(s, t)))
            &&& n == "matches"@ && patterns::regex_valid(t) ==> o == Ok::<Val, Fault>(
                Val::Bool(patterns::regex_found(t, s)),
            )
            &&& n == "matches"@ && !patterns::regex_valid(t) ==> o is Err
        }),
{
    let both = seq![Val::String(s), Val::String(t)];
    law_text_functions(both);
    lemma_text_tests(s, t);
    let n = call.func_name@;
    if n == "contains"@ {
        lemma_text_call(call, p, c, s, t, Function::Contains);
    }
    if n == "startsWith"@ {
        lemma_text_call(call, p, c, s, t, Function::StartsWith);
    }
    if n == "endsWith"@ {
        lemma_text_call(call, p, c, s, t, Function::EndsWith);
    }
    if n == "matches"@ {
        lemma_text_call(call, p, c, s, t, Function::Matches);
    }
}

/// `size(v)` is how many characters, items, entries or bytes there are; nothing else has a
/// size.
pub proof fn law_size_calls(call: CallExpr, p: Seq<usize>, c: Scope, v: Val)
    requires
        standard_scope(c),
        call.func_name@ == "size"@,
        call.resolved_op is None,
        ({
            ||| call.target is None && call.args@.len() == 1 && semantics::eval_expr(
                call.args@[0].expr,
                to_arg(p, 0),
                c,
            ) == Ok::<Val, Fault>(v)
            ||| call.target is Some && call.args@.len() == 0 && target_of(call, p, c) == Ok::<
                Val,
                Fault,
            >(v)
        }),
    ensures
        match v {
            Val::String(s) => s.len() <= i64::MAX && s.len() <= usize::MAX ==> (called(
                call,
                p,
                c,
            ) matches Ok(Val::Int(n)) && n == s.len()),
            Val::List(s) => s.len() <= i64::MAX && s.len() <= usize::MAX ==> (called(
                call,
                p,
                c,
            ) matches Ok(Val::Int(n)) && n == s.len()),
            Val::Dict(s) => s.len() <= i64::MAX && s.len() <= usize::MAX ==> (called(
                call,
                p,
                c,
            ) matches Ok(Val::Int(n)) && n == s.len()),
            Val::Bytes(s) => s.len() <= i64::MAX && s.len() <= usize::MAX ==> (called(
                call,
                p,
                c,
            ) matches Ok(Val::Int(n)) && n == s.len()),
            _ => called(call, p, c) == Err::<Val, Fault>(Fault::NoSuchOverload),
        },
{
    law_sizes_and_instants(v, seq![v]);
    lemma_no_operators("size"@);
    assert(semantics::call_kind(ast::operator_of("size"@), call.args@.len())
        == semantics::CallKind::General);
    if call.target is None {
        lemma_one_arg(call, p, c, v);
    } else {
        lemma_no_args(call, p, c);
        lemma_member_call(call, p, c, v, Seq::empty());
        assert(seq![v] + Seq::<Val>::empty() =~= seq![v]);
    }
    assert(seq![v][0] == v);
}

/// `timestamp(v)` keeps an instant, and reads a text as the calendar's notation has it.
pub proof fn law_timestamp_calls(call: CallExpr, p: Seq<usize>, c: Scope, v: Val)
    requires
        standard_scope(c),
        call.func_name@ == "timestamp"@,
        call.resolved_op is None,
        call.target is None,
        call.args@.len() == 1,
        semantics::eval_expr(call.args@[0].expr, to_arg(p, 0), c) == Ok::<Val, Fault>(v),
    ensures
        v is Timestamp ==> called(call, p, c) == Ok::<Val, Fault>(v),
        v matches Val::String(s) ==> (match timestamp::rfc3339(s) {
            Ok((secs, nanos, offset)) => called(call, p, c) matches Ok(Val::Timestamp(t))
                && t.offset == offset && (nanos < 1_000_000_000 ==> !t.leap && t.nanos == secs
                * 1_000_000_000 + nanos) && (nanos >= 1_000_000_000 ==> t.leap && t.nanos == (secs
                - 1) * 1_000_000_000 + nanos),
            Err(m) => called(call, p, c) == Err::<Val, Fault>(
                Fault::FunctionError("timestamp"@, m),
            ),
        }),
        !(v is Timestamp || v is String) ==> called(call, p, c) is Err,
{
    law_sizes_and_instants(v, seq![v]);
    lemma_no_operators("timestamp"@);
    assert(semantics::call_kind(ast::operator_of("timestamp"@), call.args@.len())
        == semantics::CallKind::General);
    lemma_one_arg(call, p, c, v);
    assert(seq![v][0] == v);
    assert(!c.functions.contains("timestamp"@));
}

} // verus!
