//! The environment: the functions and the struct types that expressions can name.

use crate::assoc;
use crate::common::decls;
use crate::common::decls::{FunctionDecl, Overload};
use crate::common::functions::Function;
use crate::common::types;
use crate::common::types::timestamp::TimeField;
use crate::common::types::{Kind, Type, TypeModel};
use crate::error;
use crate::error::{ExecutionError, Fault};
use crate::objects;
use crate::objects::{StructValue, Val, Value};
use vstd::prelude::*;
use vstd::string::*;

verus! {

/// The functions and struct types, each in the order of their names.
#[derive(Debug)]
pub struct Env {
    functions: Vec<(String, FunctionDecl)>,
    structs: Vec<(String, StructDef)>,
}

/// What an [`Env`] stands for.
pub struct EnvModel {
    pub functions: Seq<(Seq<char>, Seq<Overload>)>,
    pub structs: Seq<(Seq<char>, StructModel)>,
}

/// A struct type: its fields with their types, and the values of those that have a default.
#[derive(Debug)]
pub struct StructDef {
    name: String,
    fields: Vec<(String, Type)>,
    defaults: Vec<(String, Value)>,
}

/// What a [`StructDef`] stands for.
pub struct StructModel {
    pub name: Seq<char>,
    pub fields: Seq<(Seq<char>, TypeModel)>,
    pub defaults: Seq<(Seq<char>, Val)>,
}

impl View for StructDef {
    type V = StructModel;

    closed spec fn view(&self) -> StructModel {
        StructModel {
            name: self.name@,
            fields: self.fields@.map_values(|e: (String, Type)| (e.0@, e.1@)),
            defaults: objects::fields_view(self.defaults@),
        }
    }
}

impl View for Env {
    type V = EnvModel;

    closed spec fn view(&self) -> EnvModel {
        EnvModel {
            functions: self.functions@.map_values(|e: (String, FunctionDecl)| (e.0@, e.1@)),
            structs: self.structs@.map_values(|e: (String, StructDef)| (e.0@, e.1@)),
        }
    }
}

/// The names of a table.
pub open spec fn keys<V>(s: Seq<(Seq<char>, V)>) -> Seq<Seq<char>> {
    s.map_values(|e: (Seq<char>, V)| e.0)
}

/// What a table holds for a name.
pub open spec fn lookup<V>(s: Seq<(Seq<char>, V)>, k: Seq<char>) -> Option<V> {
    match assoc::position(keys(s), k) {
        Some(i) => Some(s[i].1),
        None => None,
    }
}

/// A table in which a name was given an entry.
pub open spec fn put<V>(s: Seq<(Seq<char>, V)>, k: Seq<char>, v: V) -> Seq<(Seq<char>, V)> {
    assoc::put_entry(s, keys(s), k, (k, v))
}

/// A table whose names rise keeps them rising when an entry is put; the name then has that
/// entry, and every other name what it had.
pub proof fn law_put_lookup<V>(s: Seq<(Seq<char>, V)>, k: Seq<char>, v: V, other: Seq<char>)
    requires
        assoc::rising(keys(s)),
    ensures
        assoc::rising(keys(put(s, k, v))),
        lookup(put(s, k, v), k) == Some(v),
        other != k ==> lookup(put(s, k, v), other) == lookup(s, other),
{
    let t = put(s, k, v);
    let b = assoc::lower_bound(keys(s), k, 0);
    assoc::law_put(keys(s), k, other);
    assoc::lemma_lower_bound(keys(s), k, 0);
    assert(keys(t) =~= assoc::put_entry(keys(s), keys(s), k, k));
    assoc::lemma_position(keys(s), k);
    assoc::lemma_position(keys(s), other);
    assoc::lemma_position(keys(t), k);
    assoc::lemma_position(keys(t), other);
    let at = match assoc::position(keys(s), k) {
        Some(i) => i,
        None => b,
    };
    assert(t[at] == (k, v));
    assert(keys(t)[at] == k);
    if other != k {
        match assoc::position(keys(s), other) {
            Some(i) => {
                let j = if assoc::position(keys(s), k) is Some || i < b {
                    i
                } else {
                    i + 1
                };
                assert(t[j] == s[i]);
                assert(keys(t)[j] == other);
            },
            None => {},
        }
    }
}

/// The overload that a call finds.
pub open spec fn find(env: EnvModel, name: Seq<char>, member: bool, args: Seq<Val>) -> Option<
    Function,
> {
    match lookup(env.functions, name) {
        Some(s) => decls::overload_for(s, member, args),
        None => None,
    }
}

/// The overloads of a name; none where it is not declared.
pub open spec fn overloads_of(env: EnvModel, name: Seq<char>) -> Seq<Overload> {
    match lookup(env.functions, name) {
        Some(s) => s,
        None => Seq::empty(),
    }
}

/// The environment after an overload was declared; one that clashes is left out.
pub open spec fn declare(env: EnvModel, name: Seq<char>, o: Overload) -> EnvModel {
    let s = overloads_of(env, name);
    if decls::clashes(s, o) {
        env
    } else {
        EnvModel { functions: put(env.functions, name, s.push(o)), structs: env.structs }
    }
}

/// The functions of an environment stand in the order of their names, each name once: it is
/// so where nothing is declared, and a declaration keeps it so. The declared name then has
/// one overload more, if it did not clash, and every other name has those that it had.
pub proof fn law_declare(env: EnvModel, name: Seq<char>, o: Overload, other: Seq<char>)
    requires
        assoc::rising(keys(env.functions)),
    ensures
        assoc::rising(keys(empty_env().functions)),
        assoc::rising(keys(declare(env, name, o).functions)),
        overloads_of(declare(env, name, o), name) == (if decls::clashes(
            overloads_of(env, name),
            o,
        ) {
            overloads_of(env, name)
        } else {
            overloads_of(env, name).push(o)
        }),
        other != name ==> overloads_of(declare(env, name, o), other) == overloads_of(env, other),
        declare(env, name, o).structs == env.structs,
{
    law_put_lookup(env.functions, name, overloads_of(env, name).push(o), other);
}

/// An environment as declarations leave it: the functions and the struct types each in the
/// order of their names, every name once; a function has an overload, and its overloads have
/// different ids and are called differently; a struct type stands under its own name.
pub open spec fn orderly(env: EnvModel) -> bool {
    &&& assoc::rising(keys(env.functions))
    &&& assoc::rising(keys(env.structs))
    &&& forall|i: int|
        0 <= i < env.functions.len() ==> (#[trigger] env.functions[i]).1.len() > 0
            && decls::distinct(env.functions[i].1)
    &&& forall|i: int|
        0 <= i < env.structs.len() ==> (#[trigger] env.structs[i]).1.name == env.structs[i].0
}

/// A declaration keeps an environment orderly.
pub proof fn law_declare_orderly(env: EnvModel, name: Seq<char>, o: Overload)
    requires
        orderly(env),
    ensures
        orderly(declare(env, name, o)),
{
    let s = overloads_of(env, name);
    let e = declare(env, name, o);
    law_declare(env, name, o, name);
    assoc::lemma_lower_bound(keys(env.functions), name, 0);
    assert forall|i: int| 0 <= i < e.functions.len() implies (#[trigger] e.functions[i]).1.len()
        > 0 && decls::distinct(e.functions[i].1) by {
        if !decls::clashes(s, o) {
            let b = assoc::lower_bound(keys(env.functions), name, 0);
            let t = s.push(o);
            match assoc::position(keys(env.functions), name) {
                Some(p) => {
                    assert(decls::distinct(env.functions[p].1));
                    if i != p {
                        assert(e.functions[i] == env.functions[i]);
                    }
                },
                None => {
                    if i < b {
                        assert(e.functions[i] == env.functions[i]);
                    } else if i > b {
                        assert(e.functions[i] == env.functions[i - 1]);
                    }
                },
            }
            assert(decls::distinct(t)) by {
                assert forall|j: int, k: int|
                    #![trigger t[j], t[k]]
                    0 <= j < k < t.len() implies t[j].id != t[k].id && !(t[j].member_function
                    == t[k].member_function && t[j].arg_types == t[k].arg_types) by {
                    assert(t[j] == s[j]);
                    if k < s.len() {
                        assert(t[k] == s[k]);
                    }
                }
            }
        } else {
            assert(e.functions[i] == env.functions[i]);
        }
    }
}

/// A struct type that is put under its own name keeps an environment orderly.
pub proof fn law_struct_orderly(env: EnvModel, def: StructModel)
    requires
        orderly(env),
    ensures
        orderly(
            (EnvModel { functions: env.functions, structs: put(env.structs, def.name, def) }),
        ),
{
    let t = put(env.structs, def.name, def);
    law_put_lookup(env.structs, def.name, def, def.name);
    assoc::lemma_lower_bound(keys(env.structs), def.name, 0);
    let b = assoc::lower_bound(keys(env.structs), def.name, 0);
    assert forall|i: int| 0 <= i < t.len() implies (#[trigger] t[i]).1.name == t[i].0 by {
        match assoc::position(keys(env.structs), def.name) {
            Some(p) => {
                if i != p {
                    assert(t[i] == env.structs[i]);
                }
            },
            None => {
                if i < b {
                    assert(t[i] == env.structs[i]);
                } else if i > b {
                    assert(t[i] == env.structs[i - 1]);
                }
            },
        }
    }
}

/// An environment in which nothing is declared.
pub open spec fn empty_env() -> EnvModel {
    EnvModel { functions: Seq::empty(), structs: Seq::empty() }
}

impl Default for Env {
    fn default() -> (r: Env)
        ensures
            r@ == empty_env(),
    {
        let r = Env { functions: Vec::new(), structs: Vec::new() };
        assert(r@.functions =~= empty_env().functions);
        assert(r@.structs =~= empty_env().structs);
        r
    }
}

/// An overload of one argument that is called as a member.
pub open spec fn member_overload(id: Seq<char>, arg_types: Seq<TypeModel>, op: Function) -> Overload {
    Overload { id, arg_types, member_function: true, op }
}

pub open spec fn free_overload(id: Seq<char>, arg_types: Seq<TypeModel>, op: Function) -> Overload {
    Overload { id, arg_types, member_function: false, op }
}

/// A declaration of a function on instants.
pub open spec fn declare_field(
    env: EnvModel,
    name: Seq<char>,
    id: Seq<char>,
    f: TimeField,
) -> EnvModel {
    declare(
        env,
        name,
        member_overload(id, seq![types::kind_type(Kind::Timestamp)], Function::Field(f)),
    )
}

/// A declaration of a function on two strings, the first of them the target.
pub open spec fn declare_text(
    env: EnvModel,
    name: Seq<char>,
    id: Seq<char>,
    op: Function,
) -> EnvModel {
    declare(
        env,
        name,
        member_overload(
            id,
            seq![types::kind_type(Kind::String), types::kind_type(Kind::String)],
            op,
        ),
    )
}

/// The declarations on instants, added to an environment.
pub open spec fn with_timestamps(env: EnvModel) -> EnvModel {
    let e = declare(
        env,
        "timestamp"@,
        free_overload(
            "string_to_timestamp"@,
            seq![types::kind_type(Kind::String)],
            Function::ParseTimestamp,
        ),
    );
    let e = declare(
        e,
        "timestamp"@,
        free_overload(
            "timestamp_to_timestamp"@,
            seq![types::kind_type(Kind::Timestamp)],
            Function::Noop,
        ),
    );
    let e = declare_field(e, "getFullYear"@, "timestamp_to_year"@, TimeField::FullYear);
    let e = declare_field(e, "getMonth"@, "timestamp_to_month"@, TimeField::Month);
    let e = declare_field(e, "getDayOfYear"@, "timestamp_to_day_of_year"@, TimeField::DayOfYear);
    let e = declare_field(
        e,
        "getDayOfMonth"@,
        "timestamp_to_day_of_month"@,
        TimeField::DayOfMonth,
    );
    let e = declare_field(
        e,
        "getDate"@,
        "timestamp_to_day_of_month_1_based"@,
        TimeField::Date,
    );
    let e = declare_field(e, "getDayOfWeek"@, "timestamp_to_day_of_week"@, TimeField::DayOfWeek);
    let e = declare_field(e, "getHours"@, "timestamp_to_hours"@, TimeField::Hours);
    let e = declare_field(e, "getMinutes"@, "timestamp_to_minutes"@, TimeField::Minutes);
    let e = declare_field(e, "getSeconds"@, "timestamp_to_seconds"@, TimeField::Seconds);
    declare_field(e, "getMilliseconds"@, "timestamp_to_millis"@, TimeField::Millis)
}

/// The declarations on strings, and of sizes, added to an environment.
pub open spec fn with_strings(env: EnvModel) -> EnvModel {
    let e = declare_text(env, "contains"@, "contains_string"@, Function::Contains);
    let e = declare_text(e, "startsWith"@, "starts_with_string"@, Function::StartsWith);
    let e = declare_text(e, "endsWith"@, "ends_with_string"@, Function::EndsWith);
    let e = declare_text(e, "matches"@, "matches_string"@, Function::Matches);
    let e = declare(
        e,
        "size"@,
        free_overload("size_of"@, seq![types::kind_type(Kind::Dyn)], Function::Size),
    );
    declare(
        e,
        "size"@,
        member_overload("size_of_member"@, seq![types::kind_type(Kind::Dyn)], Function::Size),
    )
}

/// The standard environment.
pub open spec fn stdlib_env() -> EnvModel {
    with_timestamps(with_strings(empty_env()))
}

impl Env {
    /// The environment is orderly, and each declaration bears the name that it stands under.
    #[verifier::type_invariant]
    closed spec fn well_formed(&self) -> bool {
        &&& orderly(self@)
        &&& forall|i: int|
            0 <= i < self.functions@.len() ==> (#[trigger] self.functions@[i]).1.name@
                == self.functions@[i].0@
    }

    proof fn lemma_names(&self)
        ensures
            assoc::names(self.functions@) == keys(self@.functions),
            assoc::names(self.structs@) == keys(self@.structs),
    {
        assert(assoc::names(self.functions@) =~= keys(self@.functions));
        assert(assoc::names(self.structs@) =~= keys(self@.structs));
    }

    /// The functions, in the order of their names, each under its own name and with
    /// overloads that differ.
    pub fn functions(&self) -> (r: &Vec<(String, FunctionDecl)>)
        ensures
            r@.map_values(|e: (String, FunctionDecl)| (e.0@, e.1@)) == self@.functions,
            forall|i: int| 0 <= i < r@.len() ==> (#[trigger] r@[i]).1.name@ == r@[i].0@,
            orderly(self@),
    {
        proof {
            use_type_invariant(self);
        }
        &self.functions
    }

    fn declare(
        &mut self,
        name: &str,
        id: &str,
        member: bool,
        args: Vec<Type>,
        op: Function,
    ) -> (r: Result<(), ()>)
        ensures
            ({
                let o = Overload {
                    id: id@,
                    arg_types: types::types_view(args@),
                    member_function: member,
                    op,
                };
                &&& final(self)@ == declare(old(self)@, name@, o)
                &&& r is Err <==> decls::clashes(overloads_of(old(self)@, name@), o)
            }),
    {
        proof {
            use_type_invariant(&*self);
            self.lemma_names();
        }
        let ghost o = Overload {
            id: id@,
            arg_types: types::types_view(args@),
            member_function: member,
            op,
        };
        proof {
            law_declare_orderly(self@, name@, o);
        }
        let mut table: Vec<(String, FunctionDecl)> = Vec::new();
        std::mem::swap(&mut table, &mut self.functions);
        let ghost before = table@;
        let r = match assoc::find(&table, name) {
            Some(i) => {
                let (key, mut decl) = table.remove(i);
                let r = decl.add_overload(id.to_owned(), member, args, op);
                table.insert(i, (key, decl));
                proof {
                    assert(before[i as int].1@ == overloads_of(old(self)@, name@));
                    assert(table@ =~= before.update(i as int, (key, decl)));
                }
                r
            },
            None => {
                let mut decl = FunctionDecl::new(name);
                let r = decl.add_overload(id.to_owned(), member, args, op);
                assert(!decls::clashes(Seq::<Overload>::empty(), o));
                assoc::put(&mut table, name.to_owned(), decl);
                proof {
                    assoc::lemma_lower_bound(assoc::names(before), name@, 0);
                }
                r
            },
        };
        proof {
            let rows = table@.map_values(|e: (String, FunctionDecl)| (e.0@, e.1@));
            assert(rows =~= declare(old(self)@, name@, o).functions);
        }
        self.functions = table;
        assert(self@ == declare(old(self)@, name@, o));
        r
    }

    /// Declares an overload; fails where one is there that it clashes with.
    pub fn add_overload(&mut self, name: &str, id: &str, args: Vec<Type>, op: Function) -> (r:
        Result<(), ()>)
        ensures
            ({
                let o = free_overload(id@, types::types_view(args@), op);
                &&& final(self)@ == declare(old(self)@, name@, o)
                &&& r is Err <==> decls::clashes(overloads_of(old(self)@, name@), o)
            }),
    {
        self.declare(name, id, false, args, op)
    }

    /// The function that a call finds.
    pub fn find_overload(&self, name: &str, args: &[Value]) -> (r: Option<Function>)
        ensures
            r == find(self@, name@, false, objects::values_view(args@)),
    {
        proof {
            self.lemma_names();
        }
        match assoc::find(&self.functions, name) {
            None => None,
            Some(i) => {
                assert(self@.functions[i as int].1 == self.functions@[i as int].1@);
                self.functions[i].1.find_overload(false, args)
            },
        }
    }

    /// Declares an overload that is called on a target, which is its first argument; fails
    /// where one is there that it clashes with.
    pub fn add_member_overload(
        &mut self,
        name: &str,
        id: &str,
        target: Type,
        args: Vec<Type>,
        op: Function,
    ) -> (r: Result<(), ()>)
        ensures
            ({
                let o = member_overload(
                    id@,
                    seq![target@] + types::types_view(args@),
                    op,
                );
                &&& final(self)@ == declare(old(self)@, name@, o)
                &&& r is Err <==> decls::clashes(overloads_of(old(self)@, name@), o)
            }),
    {
        let ghost tail = types::types_view(args@);
        let mut all = args;
        all.insert(0, target);
        assert(types::types_view(all@) =~= seq![target@] + tail);
        self.declare(name, id, true, all, op)
    }

    /// The function that a call on a target finds; the target is the first argument.
    pub fn find_member_overload(&self, name: &str, args: &[Value]) -> (r: Option<Function>)
        ensures
            r == find(self@, name@, true, objects::values_view(args@)),
    {
        proof {
            self.lemma_names();
        }
        match assoc::find(&self.functions, name) {
            None => None,
            Some(i) => {
                assert(self@.functions[i as int].1 == self.functions@[i as int].1@);
                self.functions[i].1.find_overload(true, args)
            },
        }
    }

    /// Declares a struct type, in place of one of the same name.
    pub fn add_struct(&mut self, def: StructDef)
        ensures
            final(self)@ == (EnvModel {
                functions: old(self)@.functions,
                structs: put(old(self)@.structs, def@.name, def@),
            }),
    {
        proof {
            use_type_invariant(&*self);
            self.lemma_names();
            assoc::lemma_lower_bound(assoc::names(self.structs@), def.name@, 0);
            law_struct_orderly(self@, def@);
        }
        let key = def.name.clone();
        let mut table: Vec<(String, StructDef)> = Vec::new();
        std::mem::swap(&mut table, &mut self.structs);
        assoc::put(&mut table, key, def);
        proof {
            let rows = table@.map_values(|e: (String, StructDef)| (e.0@, e.1@));
            assert(rows =~= put(old(self)@.structs, def@.name, def@));
        }
        self.structs = table;
    }

    /// The struct type of a name.
    pub fn find_struct(&self, name: &str) -> (r: Option<&StructDef>)
        ensures
            match r {
                Some(d) => lookup(self@.structs, name@) == Some(d@),
                None => lookup(self@.structs, name@) is None,
            },
    {
        proof {
            self.lemma_names();
        }
        match assoc::find(&self.structs, name) {
            None => None,
            Some(i) => {
                assert(self@.structs[i as int].1 == self.structs@[i as int].1@);
                Some(&self.structs[i].1)
            },
        }
    }

    fn declare_field(&mut self, name: &str, id: &str, f: TimeField)
        ensures
            final(self)@ == declare_field(old(self)@, name@, id@, f),
    {
        let _ = self.add_member_overload(
            name,
            id,
            Type::of_kind(Kind::Timestamp),
            Vec::new(),
            Function::Field(f),
        );
        assert(seq![types::kind_type(Kind::Timestamp)] + types::types_view(Seq::empty())
            =~= seq![types::kind_type(Kind::Timestamp)]);
    }

    fn declare_text(&mut self, name: &str, id: &str, op: Function)
        ensures
            final(self)@ == declare_text(old(self)@, name@, id@, op),
    {
        let mut args: Vec<Type> = Vec::new();
        args.push(Type::of_kind(Kind::String));
        assert(seq![types::kind_type(Kind::String)] + types::types_view(args@)
            =~= seq![types::kind_type(Kind::String), types::kind_type(Kind::String)]);
        let _ = self.add_member_overload(name, id, Type::of_kind(Kind::String), args, op);
    }

    /// Declares the functions on instants.
    pub fn add_timestamps(&mut self)
        ensures
            final(self)@ == with_timestamps(old(self)@),
    {
        let mut args: Vec<Type> = Vec::new();
        args.push(Type::of_kind(Kind::String));
        assert(types::types_view(args@) =~= seq![types::kind_type(Kind::String)]);
        let _ = self.add_overload(
            "timestamp",
            "string_to_timestamp",
            args,
            Function::ParseTimestamp,
        );
        let mut args: Vec<Type> = Vec::new();
        args.push(Type::of_kind(Kind::Timestamp));
        assert(types::types_view(args@) =~= seq![types::kind_type(Kind::Timestamp)]);
        let _ = self.add_overload("timestamp", "timestamp_to_timestamp", args, Function::Noop);
        self.declare_field("getFullYear", "timestamp_to_year", TimeField::FullYear);
        self.declare_field("getMonth", "timestamp_to_month", TimeField::Month);
        self.declare_field("getDayOfYear", "timestamp_to_day_of_year", TimeField::DayOfYear);
        self.declare_field("getDayOfMonth", "timestamp_to_day_of_month", TimeField::DayOfMonth);
        self.declare_field("getDate", "timestamp_to_day_of_month_1_based", TimeField::Date);
        self.declare_field("getDayOfWeek", "timestamp_to_day_of_week", TimeField::DayOfWeek);
        self.declare_field("getHours", "timestamp_to_hours", TimeField::Hours);
        self.declare_field("getMinutes", "timestamp_to_minutes", TimeField::Minutes);
        self.declare_field("getSeconds", "timestamp_to_seconds", TimeField::Seconds);
        self.declare_field("getMilliseconds", "timestamp_to_millis", TimeField::Millis);
    }

    /// Declares the functions on strings, and those that give sizes.
    pub fn add_strings(&mut self)
        ensures
            final(self)@ == with_strings(old(self)@),
    {
        self.declare_text("contains", "contains_string", Function::Contains);
        self.declare_text("startsWith", "starts_with_string", Function::StartsWith);
        self.declare_text("endsWith", "ends_with_string", Function::EndsWith);
        self.declare_text("matches", "matches_string", Function::Matches);
        let mut args: Vec<Type> = Vec::new();
        args.push(Type::of_kind(Kind::Dyn));
        assert(types::types_view(args@) =~= seq![types::kind_type(Kind::Dyn)]);
        let _ = self.add_overload("size", "size_of", args, Function::Size);
        let _ = self.add_member_overload(
            "size",
            "size_of_member",
            Type::of_kind(Kind::Dyn),
            Vec::new(),
            Function::Size,
        );
        assert(seq![types::kind_type(Kind::Dyn)] + types::types_view(Seq::empty())
            =~= seq![types::kind_type(Kind::Dyn)]);
    }

    /// The standard environment.
    pub fn stdlib() -> (r: Env)
        ensures
            r@ == stdlib_env(),
    {
        let mut env = Env::default();
        env.add_strings();
        env.add_timestamps();
        env
    }
}

/// The fields of a new struct that have a default: the given value, or the default.
pub open spec fn filled(
    defaults: Seq<(Seq<char>, Val)>,
    given: Seq<(Seq<char>, Val)>,
    n: int,
) -> Seq<(Seq<char>, Val)>
    decreases n,
{
    if n <= 0 {
        Seq::empty()
    } else {
        let (k, d) = defaults[n - 1];
        put(
            filled(defaults, given, n - 1),
            k,
            match lookup(given, k) {
                Some(v) => v,
                None => d,
            },
        )
    }
}

/// What a given field that has no default makes of a new struct: an entry, if the type has
/// such a field of the value's type.
pub open spec fn field_added(
    def: StructModel,
    acc: Seq<(Seq<char>, Val)>,
    k: Seq<char>,
    v: Val,
) -> Result<Seq<(Seq<char>, Val)>, Fault> {
    match lookup(def.fields, k) {
        Some(t) => if t != types::type_of(v) {
            Err(
                Fault::UnexpectedType(
                    types::type_of(v).name,
                    t.name + " for field "@ + k + " in "@ + def.name,
                ),
            )
        } else {
            Ok(put(acc, k, v))
        },
        None => Err(
            Fault::NoSuchKey("field `"@ + k + "` on struct `"@ + def.name + "`"@),
        ),
    }
}

/// The fields of a new struct after the first `n` given fields.
pub open spec fn assembled(def: StructModel, given: Seq<(Seq<char>, Val)>, n: int) -> Result<
    Seq<(Seq<char>, Val)>,
    Fault,
>
    decreases n,
{
    if n <= 0 {
        Ok(filled(def.defaults, given, def.defaults.len() as int))
    } else {
        match assembled(def, given, n - 1) {
            Err(e) => Err(e),
            Ok(acc) => if lookup(def.defaults, given[n - 1].0) is Some {
                Ok(acc)
            } else {
                field_added(def, acc, given[n - 1].0, given[n - 1].1)
            },
        }
    }
}

/// A new struct with given fields, which come in the order of their names.
pub open spec fn struct_made(def: StructModel, given: Seq<(Seq<char>, Val)>) -> Result<
    Val,
    Fault,
> {
    match assembled(def, given, given.len() as int) {
        Ok(fields) => Ok(Val::Struct(def.name, fields)),
        Err(e) => Err(e),
    }
}

/// Gives a field of a struct a value.
pub(crate) fn put_field(s: &mut Vec<(String, Value)>, k: String, v: Value)
    ensures
        objects::fields_view(final(s)@) == put(objects::fields_view(old(s)@), k@, v@),
{
    proof {
        assert(assoc::names(s@) =~= keys(objects::fields_view(s@)));
        assoc::lemma_lower_bound(assoc::names(s@), k@, 0);
    }
    assoc::put(s, k, v);
    assert(objects::fields_view(s@) =~= put(objects::fields_view(old(s)@), k@, v@));
}

fn field_position(s: &Vec<(String, Value)>, k: &str) -> (r: Option<usize>)
    ensures
        match r {
            Some(i) => i < s@.len() && lookup(objects::fields_view(s@), k@) == Some(
                s@[i as int].1@,
            ),
            None => lookup(objects::fields_view(s@), k@) is None,
        },
{
    assert(assoc::names(s@) =~= keys(objects::fields_view(s@)));
    assoc::find(s, k)
}

impl StructDef {
    /// A struct type without fields.
    pub fn new(name: String) -> (r: StructDef)
        ensures
            r@ == (StructModel { name: name@, fields: Seq::empty(), defaults: Seq::empty() }),
    {
        let r = StructDef { name, fields: Vec::new(), defaults: Vec::new() };
        assert(r@.fields =~= Seq::<(Seq<char>, TypeModel)>::empty());
        assert(r@.defaults =~= Seq::<(Seq<char>, Val)>::empty());
        r
    }

    /// The type with one more field.
    pub fn add_field(self, field: String, t: Type) -> (r: StructDef)
        ensures
            r@ == (StructModel {
                name: self@.name,
                fields: put(self@.fields, field@, t@),
                defaults: self@.defaults,
            }),
    {
        self.insert_field(field, t, None)
    }

    /// The type with one more field, which has a default and the default's type.
    pub fn add_field_with_default(self, field: String, default: Value) -> (r: StructDef)
        ensures
            r@ == (StructModel {
                name: self@.name,
                fields: put(self@.fields, field@, types::type_of(default@)),
                defaults: put(self@.defaults, field@, default@),
            }),
    {
        let t = Type::of_value(&default);
        self.insert_field(field, t, Some(default))
    }

    fn insert_field(self, field: String, t: Type, default: Option<Value>) -> (r: StructDef)
        ensures
            r@ == (StructModel {
                name: self@.name,
                fields: put(self@.fields, field@, t@),
                defaults: match default {
                    Some(d) => put(self@.defaults, field@, d@),
                    None => self@.defaults,
                },
            }),
    {
        let mut fields = self.fields;
        let mut defaults = self.defaults;
        proof {
            assert(assoc::names(fields@) =~= keys(self@.fields));
            assoc::lemma_lower_bound(assoc::names(fields@), field@, 0);
        }
        assoc::put(&mut fields, field.clone(), t);
        match default {
            Some(d) => {
                put_field(&mut defaults, field, d);
            },
            None => {},
        }
        let r = StructDef { name: self.name, fields, defaults };
        assert(r@.fields =~= put(self@.fields, field@, t@));
        r
    }

    fn field_type(&self, k: &str) -> (r: Option<&Type>)
        ensures
            match r {
                Some(t) => lookup(self@.fields, k@) == Some(t@),
                None => lookup(self@.fields, k@) is None,
            },
    {
        assert(assoc::names(self.fields@) =~= keys(self@.fields));
        match assoc::find(&self.fields, k) {
            Some(i) => {
                assert(self@.fields[i as int].1 == self.fields@[i as int].1@);
                Some(&self.fields[i].1)
            },
            None => None,
        }
    }

    fn add_given(&self, acc: &mut Vec<(String, Value)>, k: &String, v: &Value) -> (r: Result<
        (),
        ExecutionError,
    >)
        ensures
            match r {
                Ok(_) => field_added(self@, objects::fields_view(old(acc)@), k@, v@) == Ok::<
                    Seq<(Seq<char>, Val)>,
                    Fault,
                >(objects::fields_view(final(acc)@)),
                Err(e) => field_added(self@, objects::fields_view(old(acc)@), k@, v@) == Err::<
                    Seq<(Seq<char>, Val)>,
                    Fault,
                >(e@),
            },
    {
        match self.field_type(k.as_str()) {
            Some(t) => {
                let got = Type::of_value(v);
                if !t.same(&got) {
                    let mut want = t.name().to_owned();
                    want.append(" for field ");
                    want.append(k.as_str());
                    want.append(" in ");
                    want.append(self.name.as_str());
                    return Err(
                        ExecutionError::UnexpectedType { got: got.name().to_owned(), want },
                    );
                }
                put_field(acc, k.clone(), v.clone());
                Ok(())
            },
            None => {
                let mut m = String::from_str("field `");
                m.append(k.as_str());
                m.append("` on struct `");
                m.append(self.name.as_str());
                m.append("`");
                Err(ExecutionError::NoSuchKey(m))
            },
        }
    }

    /// A new struct with given fields, which come in the order of their names.
    pub fn new_struct(&self, given: &Vec<(String, Value)>) -> (r: Result<
        StructValue,
        ExecutionError,
    >)
        ensures
            (match r {
                Ok(s) => Ok::<Val, Fault>(
                    Val::Struct(s.name@, objects::fields_view(s.fields@)),
                ),
                Err(e) => Err::<Val, Fault>(e@),
            }) == struct_made(self@, objects::fields_view(given@)),
    {
        let ghost gv = objects::fields_view(given@);
        let ghost dv = objects::fields_view(self.defaults@);
        let mut acc: Vec<(String, Value)> = Vec::new();
        assert(objects::fields_view(acc@) =~= filled(dv, gv, 0));
        let mut i: usize = 0;
        while i < self.defaults.len()
            invariant
                i <= self.defaults@.len(),
                gv == objects::fields_view(given@),
                dv == objects::fields_view(self.defaults@),
                objects::fields_view(acc@) == filled(dv, gv, i as int),
            decreases self.defaults@.len() - i,
        {
            let e = &self.defaults[i];
            assert(dv[i as int] == (e.0@, e.1@));
            match field_position(given, e.0.as_str()) {
                Some(p) => {
                    put_field(&mut acc, e.0.clone(), given[p].1.clone());
                },
                None => {
                    put_field(&mut acc, e.0.clone(), e.1.clone());
                },
            }
            i += 1;
        }
        let mut j: usize = 0;
        while j < given.len()
            invariant
                j <= given@.len(),
                gv == objects::fields_view(given@),
                dv == objects::fields_view(self.defaults@),
                dv == self@.defaults,
                assembled(self@, gv, j as int) == Ok::<Seq<(Seq<char>, Val)>, Fault>(
                    objects::fields_view(acc@),
                ),
            decreases given@.len() - j,
        {
            let e = &given[j];
            assert(gv[j as int] == (e.0@, e.1@));
            if field_position(&self.defaults, e.0.as_str()).is_none() {
                match self.add_given(&mut acc, &e.0, &e.1) {
                    Ok(_) => {},
                    Err(err) => {
                        proof {
                            lemma_assembled_fails(self@, gv, j + 1, gv.len() as int);
                        }
                        return Err(err);
                    },
                }
            }
            j += 1;
        }
        Ok(StructValue { name: self.name.clone(), fields: acc })
    }
}

proof fn lemma_assembled_fails(def: StructModel, given: Seq<(Seq<char>, Val)>, n: int, m: int)
    requires
        0 <= n <= m,
        assembled(def, given, n) is Err,
    ensures
        assembled(def, given, m) == assembled(def, given, n),
    decreases m - n,
{
    if n < m {
        lemma_assembled_fails(def, given, n, m - 1);
    }
}

} // verus!
