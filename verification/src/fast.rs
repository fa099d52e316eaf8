//! Evaluation of filters over the fields of a schema.
//!
//! A [`Schema`] gives each field a handle, an [`EvalContext`] holds the values of the fields
//! by their handles, and a [`Filter`] is an expression compiled against a schema.

use crate::common::ast::{EntryExpr, Expr, Expression, IdedEntryExpr, IdedExpr};
use crate::context;
use crate::context::{Context, Scope};
use crate::env;
use crate::env::Env;
use crate::error;
use crate::error::{ExecutionError, Fault, HostRequest, HostTable, Outcome, Req};
use crate::objects;
use crate::objects::{Val, Value};
use crate::semantics;
use crate::strings;
use crate::vm::compiler;
use crate::vm::compiler::ValueClosure;
use crate::vm::filter_meaning;
use crate::vm::filter_meaning::Setting;
use crate::vm::filter_tree;
use crate::vm::filter_tree_compiler;
use crate::vm::filter_tree_compiler::{CompiledFilterTree, Known};
use std::sync::Arc;
use vstd::prelude::*;
use vstd::string::*;

verus! {

/// How many fields a handle can tell apart.
pub const FIELDS: usize = 0x1_0000;

/// The type that a field is declared with.
#[derive(Copy, Clone, Debug, PartialEq, Eq, Structural)]
pub enum FieldType {
    Int,
    Uint,
    Double,
    Bool,
    String,
    Bytes,
    Null,
    Any,
}

/// A handle of a field.
#[derive(Copy, Clone, Debug, PartialEq, Eq, Structural, Hash)]
pub struct Field(u16);

impl View for Field {
    type V = int;

    /// The field's index.
    closed spec fn view(&self) -> int {
        self.0 as int
    }
}

/// The index of a field is one that a handle can tell apart.
pub proof fn law_field_range(field: Field)
    ensures
        0 <= field@ < FIELDS,
{
}

impl Field {
    /// The field's index.
    pub fn index(&self) -> (r: usize)
        ensures
            r == self@,
            r < FIELDS,
    {
        self.0 as usize
    }
}

/// The fields that expressions can name.
#[derive(Debug)]
pub struct Schema {
    fields: Vec<(String, FieldType)>,
}

/// What a [`Schema`] stands for: the names and types of the fields, by their indices.
impl View for Schema {
    type V = Seq<(Seq<char>, FieldType)>;

    closed spec fn view(&self) -> Seq<(Seq<char>, FieldType)> {
        self.fields@.map_values(|f: (String, FieldType)| (f.0@, f.1))
    }
}

/// The names of the fields.
pub open spec fn names_of(s: Seq<(Seq<char>, FieldType)>) -> Seq<Seq<char>> {
    s.map_values(|f: (Seq<char>, FieldType)| f.0)
}

/// The names of the boolean fields.
pub open spec fn bool_names(s: Seq<(Seq<char>, FieldType)>) -> Seq<Seq<char>>
    decreases s.len(),
{
    if s.len() == 0 {
        Seq::empty()
    } else if s.last().1 == FieldType::Bool {
        bool_names(s.drop_last()).push(s.last().0)
    } else {
        bool_names(s.drop_last())
    }
}

/// The index of a field; of several with one name, the last.
pub open spec fn field_index(s: Seq<(Seq<char>, FieldType)>, name: Seq<char>) -> Option<int> {
    filter_tree_compiler::name_index(names_of(s), name)
}

impl Schema {
    /// A schema without fields.
    pub fn new() -> (r: Schema)
        ensures
            r@ == Seq::<(Seq<char>, FieldType)>::empty(),
    {
        let r = Schema { fields: Vec::new() };
        assert(r@ =~= Seq::<(Seq<char>, FieldType)>::empty());
        r
    }

    /// Declares a field and gives its handle.
    pub fn add_field(&mut self, name: &str, ty: FieldType) -> (r: Field)
        requires
            old(self)@.len() < FIELDS,
        ensures
            final(self)@ == old(self)@.push((name@, ty)),
            r@ == old(self)@.len(),
    {
        let idx = self.fields.len() as u16;
        let ghost before = self@;
        self.fields.push((name.to_owned(), ty));
        assert(self@ =~= before.push((name@, ty)));
        Field(idx)
    }

    /// The handle of the field of a name.
    pub fn get_field(&self, name: &str) -> (r: Option<Field>)
        requires
            self@.len() <= FIELDS,
        ensures
            match r {
                Some(f) => field_index(self@, name@) == Some(f@),
                None => field_index(self@, name@) is None,
            },
    {
        let ghost names = names_of(self@);
        let mut i: usize = self.fields.len();
        assert(names.subrange(0, i as int) =~= names);
        while i > 0
            invariant
                i <= self.fields@.len(),
                self.fields@.len() <= FIELDS,
                names == names_of(self@),
                names.len() == self.fields@.len(),
                filter_tree_compiler::name_index(names, name@)
                    == filter_tree_compiler::name_index(names.subrange(0, i as int), name@),
            decreases i,
        {
            let ghost pre = names.subrange(0, i as int);
            assert(pre.last() == self.fields@[i - 1].0@);
            assert(pre.drop_last() =~= names.subrange(0, i - 1));
            if strings::str_eq(self.fields[i - 1].0.as_str(), name) {
                return Some(Field((i - 1) as u16));
            }
            i -= 1;
        }
        None
    }

    /// How many fields there are.
    pub fn field_count(&self) -> (r: usize)
        ensures
            r == self@.len(),
    {
        self.fields.len()
    }

    /// The names and types of the fields, by their indices.
    pub fn fields(&self) -> (r: &Vec<(String, FieldType)>)
        ensures
            r@.map_values(|f: (String, FieldType)| (f.0@, f.1)) == self@,
    {
        &self.fields
    }

    /// The names of the fields, by their indices.
    pub fn field_names(&self) -> (r: Vec<String>)
        ensures
            objects::texts(r@) == names_of(self@),
    {
        let mut out: Vec<String> = Vec::new();
        let mut i: usize = 0;
        while i < self.fields.len()
            invariant
                i <= self.fields@.len(),
                out@.len() == i,
                forall|k: int| 0 <= k < i ==> (#[trigger] out@[k])@ == self.fields@[k].0@,
            decreases self.fields@.len() - i,
        {
            out.push(self.fields[i].0.clone());
            i += 1;
        }
        assert(objects::texts(out@) =~= names_of(self@));
        out
    }

    /// The names of the boolean fields.
    pub fn bool_field_names(&self) -> (r: Vec<String>)
        ensures
            objects::texts(r@) == bool_names(self@),
    {
        let mut out: Vec<String> = Vec::new();
        let mut i: usize = 0;
        let ghost s = self@;
        assert(objects::texts(out@) =~= bool_names(s.subrange(0, 0)));
        while i < self.fields.len()
            invariant
                i <= self.fields@.len(),
                s == self@,
                objects::texts(out@) == bool_names(s.subrange(0, i as int)),
            decreases self.fields@.len() - i,
        {
            let ghost before = out@;
            assert(s.subrange(0, i + 1).drop_last() =~= s.subrange(0, i as int));
            assert(s.subrange(0, i + 1).last() == s[i as int]);
            if self.fields[i].1 == FieldType::Bool {
                let name = self.fields[i].0.clone();
                out.push(name);
                assert(objects::texts(out@) =~= objects::texts(before).push(name@));
            }
            i += 1;
        }
        assert(s.subrange(0, i as int) =~= s);
        out
    }
}

impl Default for Schema {
    fn default() -> (r: Schema)
        ensures
            r@ == Seq::<(Seq<char>, FieldType)>::empty(),
    {
        Schema::new()
    }
}

/// A field that was declared is found under its name, and the other names lead to where they
/// led before.
pub proof fn law_add_field(
    s: Seq<(Seq<char>, FieldType)>,
    name: Seq<char>,
    ty: FieldType,
    other: Seq<char>,
)
    ensures
        field_index(s.push((name, ty)), name) == Some(s.len() as int),
        other != name ==> field_index(s.push((name, ty)), other) == field_index(s, other),
{
    let t = names_of(s.push((name, ty)));
    assert(t.drop_last() =~= names_of(s));
    assert(t.last() == name);
}

/// The values of the fields of a schema.
///
/// Integers and strings are kept a second time in arrays of their own. Strings that were set
/// are remembered, also when the values are cleared, and a string that is set again is the
/// one that is remembered: it is not copied.
#[derive(Debug)]
pub struct EvalContext {
    values: Vec<Value>,
    ints: Vec<i64>,
    strings: Vec<Arc<String>>,
    string_cache: Vec<Arc<String>>,
    host: HostTable,
}

/// The texts of shared strings.
pub open spec fn shared_texts(s: Seq<Arc<String>>) -> Seq<Seq<char>> {
    s.map_values(|t: Arc<String>| t@)
}

/// What an [`EvalContext`] stands for.
#[verifier::ext_equal]
pub struct Fields {
    pub values: Seq<Val>,
    pub ints: Seq<i64>,
    pub strings: Seq<Seq<char>>,
    pub cache: Seq<Seq<char>>,
    pub host: Seq<(Req, Outcome)>,
}

impl View for EvalContext {
    type V = Fields;

    closed spec fn view(&self) -> Fields {
        Fields {
            values: objects::values_view(self.values@),
            ints: self.ints@,
            strings: shared_texts(self.strings@),
            cache: shared_texts(self.string_cache@),
            host: self.host@,
        }
    }
}

/// The strings that are remembered after one was set.
pub open spec fn interned(cache: Seq<Seq<char>>, s: Seq<char>) -> Seq<Seq<char>> {
    if cache.contains(s) {
        cache
    } else {
        cache.push(s)
    }
}

/// The fields before anything was set.
pub open spec fn unset(n: nat) -> Fields {
    Fields {
        values: Seq::new(n, |k: int| Val::Null),
        ints: Seq::new(n, |k: int| 0i64),
        strings: Seq::new(n, |k: int| Seq::<char>::empty()),
        cache: Seq::empty(),
        host: Seq::empty(),
    }
}

/// The fields after one was given a value.
pub open spec fn with_value(c: Fields, at: int, v: Val) -> Fields {
    Fields { values: c.values.update(at, v), ..c }
}

/// The fields after one was given an integer.
pub open spec fn with_int(c: Fields, at: int, i: i64) -> Fields {
    Fields { values: c.values.update(at, Val::Int(i)), ints: c.ints.update(at, i), ..c }
}

/// The fields after one was given a string.
pub open spec fn with_string(c: Fields, at: int, s: Seq<char>) -> Fields {
    Fields {
        values: c.values.update(at, Val::String(s)),
        strings: c.strings.update(at, s),
        cache: interned(c.cache, s),
        ..c
    }
}

/// The fields after all were cleared.
pub open spec fn cleared(c: Fields) -> Fields {
    Fields { cache: c.cache, host: c.host, ..unset(c.values.len()) }
}

impl EvalContext {
    /// As many values in each array, and no string remembered twice.
    pub open spec fn wf(&self) -> bool {
        &&& self@.ints.len() == self@.values.len()
        &&& self@.strings.len() == self@.values.len()
        &&& self@.cache.no_duplicates()
    }

    /// The values of a schema's fields, all null.
    pub fn new(schema: &Schema) -> (r: EvalContext)
        ensures
            r.wf(),
            r@ == unset(schema@.len()),
    {
        let mut values: Vec<Value> = Vec::new();
        let mut ints: Vec<i64> = Vec::new();
        let mut texts: Vec<Arc<String>> = Vec::new();
        let empty = Arc::new(String::new());
        let n = schema.field_count();
        let mut i: usize = 0;
        while i < n
            invariant
                i <= n,
                values@.len() == i,
                ints@.len() == i,
                texts@.len() == i,
                empty@ == Seq::<char>::empty(),
                forall|k: int| 0 <= k < i ==> (#[trigger] values@[k])@ == Val::Null,
                forall|k: int| 0 <= k < i ==> #[trigger] ints@[k] == 0,
                forall|k: int| 0 <= k < i ==> (#[trigger] texts@[k])@ == Seq::<char>::empty(),
            decreases n - i,
        {
            values.push(Value::Null);
            ints.push(0);
            texts.push(strings::share(&empty));
            i += 1;
        }
        let r = EvalContext {
            values,
            ints,
            strings: texts,
            string_cache: Vec::new(),
            host: HostTable::new(),
        };
        assert(r@.values =~= unset(schema@.len()).values);
        assert(r@.ints =~= unset(schema@.len()).ints);
        assert(r@.strings =~= unset(schema@.len()).strings);
        assert(r@.cache =~= Seq::empty());
        r
    }

    /// Gives a field a value of any type. The arrays of integers and strings are left as
    /// they are.
    pub fn set(&mut self, field: Field, value: Value)
        requires
            old(self).wf(),
            field@ < old(self)@.values.len(),
        ensures
            final(self).wf(),
            final(self)@ == with_value(old(self)@, field@, value@),
    {
        self.values.set(field.0 as usize, value);
        assert(self@.values =~= old(self)@.values.update(field@, value@));
    }

    /// Gives a field an integer.
    pub fn set_i64(&mut self, field: Field, val: i64)
        requires
            old(self).wf(),
            field@ < old(self)@.values.len(),
        ensures
            final(self).wf(),
            final(self)@ == with_int(old(self)@, field@, val),
    {
        let idx = field.0 as usize;
        self.values.set(idx, Value::Int(val));
        self.ints.set(idx, val);
        assert(self@.values =~= old(self)@.values.update(field@, Val::Int(val)));
    }

    /// Gives a field an unsigned integer.
    pub fn set_u64(&mut self, field: Field, val: u64)
        requires
            old(self).wf(),
            field@ < old(self)@.values.len(),
        ensures
            final(self).wf(),
            final(self)@ == with_value(old(self)@, field@, Val::UInt(val)),
    {
        self.set(field, Value::UInt(val));
    }

    /// Gives a field a double, by its 64 bits.
    pub fn set_f64(&mut self, field: Field, val: u64)
        requires
            old(self).wf(),
            field@ < old(self)@.values.len(),
        ensures
            final(self).wf(),
            final(self)@ == with_value(old(self)@, field@, Val::Float(val)),
    {
        self.set(field, Value::Float(val));
    }

    /// Gives a field a boolean.
    pub fn set_bool(&mut self, field: Field, val: bool)
        requires
            old(self).wf(),
            field@ < old(self)@.values.len(),
        ensures
            final(self).wf(),
            final(self)@ == with_value(old(self)@, field@, Val::Bool(val)),
    {
        self.set(field, Value::Bool(val));
    }

    /// Gives a field a string.
    pub fn set_str(&mut self, field: Field, val: &str)
        requires
            old(self).wf(),
            field@ < old(self)@.values.len(),
        ensures
            final(self).wf(),
            final(self)@ == with_string(old(self)@, field@, val@),
    {
        let idx = field.0 as usize;
        let s = self.intern(val);
        self.values.set(idx, Value::String(strings::share(&s)));
        self.strings.set(idx, s);
        assert(self@.values =~= old(self)@.values.update(field@, Val::String(val@)));
        assert(self@.strings =~= old(self)@.strings.update(field@, val@));
    }

    /// Gives a field a string.
    pub fn set_string(&mut self, field: Field, val: String)
        requires
            old(self).wf(),
            field@ < old(self)@.values.len(),
        ensures
            final(self).wf(),
            final(self)@ == with_string(old(self)@, field@, val@),
    {
        self.set_str(field, val.as_str());
    }

    /// Remembers a string, and gives what is remembered of it.
    fn intern(&mut self, s: &str) -> (r: Arc<String>)
        requires
            old(self).wf(),
        ensures
            final(self).wf(),
            r@ == s@,
            final(self)@ == (Fields { cache: interned(old(self)@.cache, s@), ..old(self)@ }),
            final(self).values == old(self).values,
            final(self).strings == old(self).strings,
    {
        let ghost cache = self@.cache;
        let mut i: usize = 0;
        while i < self.string_cache.len()
            invariant
                i <= self.string_cache@.len(),
                *self == *old(self),
                self.wf(),
                cache == self@.cache,
                forall|k: int| 0 <= k < i ==> #[trigger] cache[k] != s@,
            decreases self.string_cache@.len() - i,
        {
            assert(cache[i as int] == self.string_cache@[i as int]@);
            if strings::str_eq(self.string_cache[i].as_str(), s) {
                assert(cache.contains(s@));
                return strings::share(&self.string_cache[i]);
            }
            i += 1;
        }
        let r = Arc::new(s.to_owned());
        self.string_cache.push(strings::share(&r));
        assert(self@.cache =~= cache.push(s@));
        r
    }

    /// The value of a field.
    pub fn get(&self, field: Field) -> (r: &Value)
        requires
            field@ < self@.values.len(),
        ensures
            r@ == self@.values[field@],
    {
        &self.values[field.0 as usize]
    }

    /// The values, by the indices of the fields.
    pub fn as_slice(&self) -> (r: &[Value])
        ensures
            objects::values_view(r@) == self@.values,
    {
        self.values.as_slice()
    }

    /// The integer of a field.
    pub fn get_i64_fast(&self, idx: usize) -> (r: i64)
        requires
            idx < self@.ints.len(),
        ensures
            r == self@.ints[idx as int],
    {
        self.ints[idx]
    }

    /// The string of a field.
    pub fn get_str_fast(&self, idx: usize) -> (r: &str)
        requires
            idx < self@.strings.len(),
        ensures
            r@ == self@.strings[idx as int],
    {
        self.strings[idx].as_str()
    }

    /// Sets all values to null.
    pub fn clear(&mut self)
        requires
            old(self).wf(),
        ensures
            final(self).wf(),
            final(self)@ == cleared(old(self)@),
    {
        let empty = Arc::new(String::new());
        let n = self.values.len();
        let mut i: usize = 0;
        while i < n
            invariant
                i <= n,
                empty@ == Seq::<char>::empty(),
                self.values@.len() == n,
                self.ints@.len() == n,
                self.strings@.len() == n,
                self.string_cache == old(self).string_cache,
                self.host == old(self).host,
                forall|k: int| 0 <= k < i ==> (#[trigger] self.values@[k])@ == Val::Null,
                forall|k: int| 0 <= k < i ==> #[trigger] self.ints@[k] == 0,
                forall|k: int|
                    0 <= k < i ==> (#[trigger] self.strings@[k])@ == Seq::<char>::empty(),
            decreases n - i,
        {
            self.values.set(i, Value::Null);
            self.ints.set(i, 0);
            self.strings.set(i, strings::share(&empty));
            i += 1;
        }
        assert(self@.values =~= cleared(old(self)@).values);
        assert(self@.ints =~= cleared(old(self)@).ints);
        assert(self@.strings =~= cleared(old(self)@).strings);
    }

    /// How many fields there are.
    pub fn len(&self) -> (r: usize)
        ensures
            r == self@.values.len(),
    {
        self.values.len()
    }

    /// Adds an answer of the host.
    pub fn add_answer(&mut self, request: HostRequest, answer: Result<Value, ExecutionError>)
        requires
            old(self).wf(),
        ensures
            final(self).wf(),
            final(self)@ == (Fields {
                host: old(self)@.host.push((request@, error::outcome(answer))),
                ..old(self)@
            }),
    {
        self.host.add(request, answer);
    }
}

/// A value that was set is got back, and the other fields keep theirs.
pub proof fn law_set_get(c: Fields, at: int, v: Val, other: int)
    requires
        0 <= at < c.values.len(),
        0 <= other < c.values.len(),
    ensures
        with_value(c, at, v).values[at] == v,
        other != at ==> with_value(c, at, v).values[other] == c.values[other],
{
}

/// An integer or a string that was set is got back from both arrays that hold it.
pub proof fn law_set_typed(c: Fields, at: int, i: i64, s: Seq<char>)
    requires
        0 <= at < c.values.len(),
        c.ints.len() == c.values.len(),
        c.strings.len() == c.values.len(),
    ensures
        with_int(c, at, i).values[at] == Val::Int(i),
        with_int(c, at, i).ints[at] == i,
        with_string(c, at, s).values[at] == Val::String(s),
        with_string(c, at, s).strings[at] == s,
{
}

/// A string that was set once is remembered: setting it again remembers nothing more, and
/// clearing the values does not forget it.
pub proof fn law_interned(c: Fields, at: int, s: Seq<char>)
    ensures
        with_string(c, at, s).cache.contains(s),
        interned(interned(c.cache, s), s) == interned(c.cache, s),
        cleared(with_string(c, at, s)).cache == with_string(c, at, s).cache,
{
    assert(c.cache.push(s)[c.cache.len() as int] == s);
}

/// Cleared fields are null, whatever they held.
pub proof fn law_cleared(c: Fields, at: int)
    requires
        0 <= at < c.values.len(),
    ensures
        cleared(c).values.len() == c.values.len(),
        cleared(c).values[at] == Val::Null,
        cleared(cleared(c)) == cleared(c),
{
    assert(cleared(cleared(c)) =~= cleared(c));
}

/// A name with what the parser makes itself.
pub open spec fn made_up(name: Seq<char>) -> bool {
    name.len() > 0 && name[0] == '@'
}

/// The names that an expression refers to, behind those that are there, each once.
pub open spec fn references(e: Expr, names: Seq<Seq<char>>) -> Seq<Seq<char>>
    decreases e, 0nat,
{
    match e {
        Expr::Ident(n) => if made_up(n@) || names.contains(n@) {
            names
        } else {
            names.push(n@)
        },
        Expr::Call(c) => {
            let from = match c.target {
                Some(t) => references(t.expr, names),
                None => names,
            };
            all_references(c.args@, from)
        },
        Expr::Select(s) => references(s.operand.expr, names),
        Expr::List(l) => all_references(l.elements@, names),
        Expr::Dict(m) => entry_references(m.entries@, names),
        Expr::Struct(s) => entry_references(s.entries@, names),
        Expr::Comprehension(c) => {
            let a = references(c.iter_range.expr, names);
            let b = references(c.accu_init.expr, a);
            let d = references(c.loop_cond.expr, b);
            let f = references(c.loop_step.expr, d);
            references(c.result.expr, f)
        },
        _ => names,
    }
}

pub open spec fn all_references(s: Seq<IdedExpr>, names: Seq<Seq<char>>) -> Seq<Seq<char>>
    decreases s, 1nat,
{
    if s.len() == 0 {
        names
    } else {
        references(s.last().expr, all_references(s.drop_last(), names))
    }
}

pub open spec fn entry_references(s: Seq<IdedEntryExpr>, names: Seq<Seq<char>>) -> Seq<Seq<char>>
    decreases s, 1nat,
{
    if s.len() == 0 {
        names
    } else {
        let before = entry_references(s.drop_last(), names);
        match s.last().expr {
            EntryExpr::MapEntry(m) => references(
                m.value.expr,
                references(m.key.expr, before),
            ),
            EntryExpr::StructField(f) => references(f.value.expr, before),
        }
    }
}

fn refer(name: &str, names: &mut Vec<String>)
    ensures
        objects::texts(final(names)@) == (if made_up(name@) || objects::texts(
            old(names)@,
        ).contains(name@) {
            objects::texts(old(names)@)
        } else {
            objects::texts(old(names)@).push(name@)
        }),
{
    if name.unicode_len() > 0 && name.get_char(0) == '@' {
        return;
    }
    let ghost ts = objects::texts(names@);
    let mut i: usize = 0;
    while i < names.len()
        invariant
            i <= names@.len(),
            *names == *old(names),
            ts == objects::texts(names@),
            !made_up(name@),
            forall|k: int| 0 <= k < i ==> #[trigger] ts[k] != name@,
        decreases names@.len() - i,
    {
        assert(ts[i as int] == names@[i as int]@);
        if strings::str_eq(names[i].as_str(), name) {
            assert(ts.contains(name@));
            return;
        }
        i += 1;
    }
    names.push(name.to_owned());
    assert(objects::texts(names@) =~= ts.push(name@));
}

fn collect(e: &Expr, names: &mut Vec<String>)
    ensures
        objects::texts(final(names)@) == references(*e, objects::texts(old(names)@)),
    decreases e, 0nat,
{
    match e {
        Expr::Ident(n) => refer(n.as_str(), names),
        Expr::Call(c) => {
            match &c.target {
                Some(t) => collect(&t.expr, names),
                None => {},
            }
            collect_all(&c.args, names);
        },
        Expr::Select(s) => collect(&s.operand.expr, names),
        Expr::List(l) => collect_all(&l.elements, names),
        Expr::Dict(m) => collect_entries(&m.entries, names),
        Expr::Struct(s) => collect_entries(&s.entries, names),
        Expr::Comprehension(c) => {
            collect(&c.iter_range.expr, names);
            collect(&c.accu_init.expr, names);
            collect(&c.loop_cond.expr, names);
            collect(&c.loop_step.expr, names);
            collect(&c.result.expr, names);
        },
        _ => {},
    }
}

fn collect_all(s: &Vec<IdedExpr>, names: &mut Vec<String>)
    ensures
        objects::texts(final(names)@) == all_references(s@, objects::texts(old(names)@)),
    decreases s, 1nat,
{
    let mut i: usize = 0;
    while i < s.len()
        invariant
            i <= s@.len(),
            objects::texts(names@) == all_references(
                s@.subrange(0, i as int),
                objects::texts(old(names)@),
            ),
        decreases s@.len() - i,
    {
        assert(s@.subrange(0, i + 1).drop_last() =~= s@.subrange(0, i as int));
        assert(s@.subrange(0, i + 1).last() == s@[i as int]);
        collect(&s[i].expr, names);
        i += 1;
    }
    assert(s@.subrange(0, i as int) =~= s@);
}

fn collect_entries(s: &Vec<IdedEntryExpr>, names: &mut Vec<String>)
    ensures
        objects::texts(final(names)@) == entry_references(s@, objects::texts(old(names)@)),
    decreases s, 1nat,
{
    let mut i: usize = 0;
    while i < s.len()
        invariant
            i <= s@.len(),
            objects::texts(names@) == entry_references(
                s@.subrange(0, i as int),
                objects::texts(old(names)@),
            ),
        decreases s@.len() - i,
    {
        assert(s@.subrange(0, i + 1).drop_last() =~= s@.subrange(0, i as int));
        assert(s@.subrange(0, i + 1).last() == s@[i as int]);
        match &s[i].expr {
            EntryExpr::MapEntry(m) => {
                collect(&m.key.expr, names);
                collect(&m.value.expr, names);
            },
            EntryExpr::StructField(f) => {
                collect(&f.value.expr, names);
            },
        }
        i += 1;
    }
    assert(s@.subrange(0, i as int) =~= s@);
}

/// An expression compiled against a schema.
///
/// A boolean expression of the common forms becomes a tree that reads the fields by their
/// indices. Any other is evaluated in a scope in which the fields are variables.
#[derive(Debug)]
pub struct Filter {
    pub tree: Option<CompiledFilterTree>,
    pub var_names: Vec<String>,
    /// The index of the field of each name; zero where there is no such field.
    pub var_indices: Vec<usize>,
    pub fallback_closure: Option<ValueClosure>,
}

/// What the compiler knows of a schema's fields.
pub open spec fn known_fields(s: Seq<(Seq<char>, FieldType)>) -> Known {
    Known { bool_fields: Some(bool_names(s)), functions: None }
}

/// The index of a name's field; zero where there is no such field.
pub open spec fn index_or_zero(s: Seq<(Seq<char>, FieldType)>, name: Seq<char>) -> int {
    match field_index(s, name) {
        Some(i) => i,
        None => 0,
    }
}

/// That a filter is an expression compiled against a schema.
pub open spec fn is_filter(f: Filter, e: Expr, s: Seq<(Seq<char>, FieldType)>) -> bool {
    let (t, n) = filter_tree_compiler::filter_of(names_of(s), e, known_fields(s));
    match f.tree {
        Some(tree) => {
            &&& filter_tree_compiler::tree_of(Ok(tree), names_of(s), e, known_fields(s))
            &&& t is Ok
            &&& objects::texts(f.var_names@) == n
            &&& f.var_indices@ == Seq::new(n.len(), |k: int| k as usize)
            &&& f.fallback_closure is None
        },
        None => {
            &&& t is Err
            &&& objects::texts(f.var_names@) == references(e, Seq::empty())
            &&& f.var_indices@.len() == f.var_names@.len()
            &&& forall|k: int|
                0 <= k < f.var_names@.len() ==> #[trigger] f.var_indices@[k] == index_or_zero(
                    s,
                    f.var_names@[k]@,
                )
            &&& f.fallback_closure matches Some(c) && compiler::means(c, e, Seq::empty())
        },
    }
}

/// The standard scope with the host's answers and, for each name, the value at its index.
pub open spec fn field_scope(names: Seq<String>, indices: Seq<usize>, c: Fields) -> Scope
    decreases names.len(),
{
    if names.len() == 0 {
        Scope { host: c.host, ..context::default_scope() }
    } else {
        context::bind(
            field_scope(names.drop_last(), indices.drop_last(), c),
            names.last()@,
            c.values[indices.last() as int],
        )
    }
}

/// The verdict of an outcome: a value that is no boolean counts as false.
pub open spec fn verdict(o: Outcome) -> Result<bool, Fault> {
    match o {
        Ok(Val::Bool(b)) => Ok(b),
        Ok(_) => Ok(false),
        Err(e) => Err(e),
    }
}

/// What the result of a filter stands for.
pub open spec fn verdict_of(r: Result<bool, ExecutionError>) -> Result<bool, Fault> {
    match r {
        Ok(b) => Ok(b),
        Err(e) => Err(e@),
    }
}

impl Filter {
    /// Compiles what the parser made of a source text; where it failed, so does this.
    pub fn compile(parsed: Result<Expression, String>, schema: &Schema) -> (r: Result<
        Filter,
        String,
    >)
        requires
            schema@.len() <= FIELDS,
        ensures
            match (parsed, r) {
                (Ok(e), Ok(f)) => is_filter(f, e.expr, schema@),
                (Err(m), Err(n)) => n@ == m@,
                _ => false,
            },
    {
        match parsed {
            Ok(expression) => Self::from_expression(expression, schema),
            Err(m) => Err(m),
        }
    }

    /// Compiles an expression.
    pub fn from_expression(expression: Expression, schema: &Schema) -> (r: Result<Filter, String>)
        requires
            schema@.len() <= FIELDS,
        ensures
            r matches Ok(f) && is_filter(f, expression.expr, schema@),
    {
        let field_names = schema.field_names();
        let bool_fields = schema.bool_field_names();
        let tree = filter_tree_compiler::compile_filter_tree_with_schema(
            &expression,
            &field_names,
            &bool_fields,
            None,
        );
        match tree {
            Ok(t) => {
                let var_names = filter_tree_compiler::clone_texts(&t.var_names);
                let mut var_indices: Vec<usize> = Vec::new();
                let mut i: usize = 0;
                while i < t.var_names.len()
                    invariant
                        i <= t.var_names@.len(),
                        var_indices@ == Seq::new(i as nat, |k: int| k as usize),
                    decreases t.var_names@.len() - i,
                {
                    var_indices.push(i);
                    i += 1;
                    assert(var_indices@ =~= Seq::new(i as nat, |k: int| k as usize));
                }
                Ok(Filter { tree: Some(t), var_names, var_indices, fallback_closure: None })
            },
            Err(_) => {
                let mut var_names: Vec<String> = Vec::new();
                assert(objects::texts(var_names@) =~= Seq::<Seq<char>>::empty());
                collect(&expression.expr, &mut var_names);
                let mut var_indices: Vec<usize> = Vec::new();
                let mut i: usize = 0;
                while i < var_names.len()
                    invariant
                        i <= var_names@.len(),
                        schema@.len() <= FIELDS,
                        var_indices@.len() == i,
                        forall|k: int|
                            0 <= k < i ==> #[trigger] var_indices@[k] == index_or_zero(
                                schema@,
                                var_names@[k]@,
                            ),
                    decreases var_names@.len() - i,
                {
                    let idx = match schema.get_field(var_names[i].as_str()) {
                        Some(f) => f.index(),
                        None => 0,
                    };
                    var_indices.push(idx);
                    i += 1;
                }
                let closure = compiler::compile_expression(&expression, &[]);
                Ok(
                    Filter {
                        tree: None,
                        var_names,
                        var_indices,
                        fallback_closure: Some(closure),
                    },
                )
            },
        }
    }

    /// The fields that the filter reads are there, and lengths that it measures can be
    /// counted.
    pub open spec fn ready(&self, c: Fields) -> bool {
        match self.tree {
            Some(t) => filter_tree::in_range(*t.filter, c.values.len()) && filter_tree::fits(
                *t.filter,
                c.values,
            ),
            None => {
                &&& self.fallback_closure is Some
                &&& self.var_indices@.len() == self.var_names@.len()
                &&& forall|k: int|
                    0 <= k < self.var_indices@.len() ==> #[trigger] self.var_indices@[k]
                        < c.values.len()
            },
        }
    }

    /// Evaluates the filter on the values of the fields.
    pub fn eval(&self, ctx: &EvalContext) -> (r: Result<bool, ExecutionError>)
        requires
            self.ready(ctx@),
        ensures
            match self.tree {
                Some(t) => r == Ok::<bool, ExecutionError>(
                    filter_tree::holds(*t.filter, ctx@.values),
                ),
                None => verdict_of(r) == verdict(
                    compiler::run(
                        self.fallback_closure->Some_0,
                        field_scope(self.var_names@, self.var_indices@, ctx@),
                    ),
                ),
            },
    {
        if self.tree.is_some() {
            return Ok(self.eval_bool(ctx));
        }
        let mut scope = Context::Root {
            variables: Vec::new(),
            functions: Vec::new(),
            env: Env::stdlib(),
            host: ctx.host.duplicate(),
        };
        let values = ctx.as_slice();
        let mut i: usize = 0;
        proof {
            assert(scope@.functions =~= Seq::<Seq<char>>::empty());
        }
        while i < self.var_names.len()
            invariant
                i <= self.var_names@.len(),
                self.tree is None,
                self.ready(ctx@),
                objects::values_view(values@) == ctx@.values,
                scope@ == field_scope(
                    self.var_names@.subrange(0, i as int),
                    self.var_indices@.subrange(0, i as int),
                    ctx@,
                ),
            decreases self.var_names@.len() - i,
        {
            proof {
                let a = self.var_names@.subrange(0, i + 1);
                let b = self.var_indices@.subrange(0, i + 1);
                assert(a.drop_last() =~= self.var_names@.subrange(0, i as int));
                assert(b.drop_last() =~= self.var_indices@.subrange(0, i as int));
                assert(a.last() == self.var_names@[i as int]);
                assert(b.last() == self.var_indices@[i as int]);
                assert(self.var_indices@[i as int] < ctx@.values.len());
                assert(ctx@.values.len() == values@.len());
            }
            let idx = self.var_indices[i];
            scope.add_variable(self.var_names[i].as_str(), values[idx].clone());
            i += 1;
        }
        assert(self.var_names@.subrange(0, i as int) =~= self.var_names@);
        assert(self.var_indices@.subrange(0, i as int) =~= self.var_indices@);
        match &self.fallback_closure {
            Some(closure) => match closure.call(&scope) {
                Ok(Value::Bool(b)) => Ok(b),
                Ok(_) => Ok(false),
                Err(e) => Err(e),
            },
            None => Ok(false),
        }
    }

    /// Evaluates a filter that became a tree.
    pub fn eval_bool(&self, ctx: &EvalContext) -> (r: bool)
        requires
            self.tree is Some,
            self.ready(ctx@),
        ensures
            r == filter_tree::holds(*self.tree->Some_0.filter, ctx@.values),
    {
        let values = ctx.as_slice();
        assert(values@.len() == ctx@.values.len());
        match &self.tree {
            Some(t) => t.eval(values),
            None => false,
        }
    }

    /// The names of the variables, in the order of their indices.
    pub fn variables(&self) -> (r: &[String])
        ensures
            objects::texts(r@) == objects::texts(self.var_names@),
    {
        self.var_names.as_slice()
    }
}

/// A filter that did not become a tree gives the verdict of its expression in the scope of
/// the fields.
pub proof fn law_fallback(f: Filter, e: Expr, s: Seq<(Seq<char>, FieldType)>, c: Fields)
    requires
        is_filter(f, e, s),
        f.tree is None,
    ensures
        compiler::run(f.fallback_closure->Some_0, field_scope(f.var_names@, f.var_indices@, c))
            == semantics::eval_expr(
                e,
                Seq::empty(),
                field_scope(f.var_names@, f.var_indices@, c),
            ),
{
}

proof fn lemma_index_bound(names: Seq<Seq<char>>, name: Seq<char>)
    ensures
        filter_tree_compiler::name_index(names, name) matches Some(i) ==> 0 <= i < names.len()
            && names[i] == name,
    decreases names.len(),
{
    if names.len() > 0 && names.last() != name {
        lemma_index_bound(names.drop_last(), name);
    }
}

/// A filter that did not become a tree can be evaluated on the fields of its schema, if
/// there are any.
pub proof fn law_fallback_ready(f: Filter, e: Expr, s: Seq<(Seq<char>, FieldType)>, c: Fields)
    requires
        is_filter(f, e, s),
        f.tree is None,
        c.values.len() == s.len(),
        s.len() > 0,
    ensures
        f.ready(c),
{
    assert forall|k: int| 0 <= k < f.var_indices@.len() implies #[trigger] f.var_indices@[k]
        < c.values.len() by {
        assert(f.var_indices@[k] == index_or_zero(s, f.var_names@[k]@));
        lemma_index_bound(names_of(s), f.var_names@[k]@);
    }
}

/// In the scope of the fields each variable of a filter has the value of its field, whatever
/// the order in which the expression names them; of a name that is there more than once, the
/// last field counts.
pub proof fn law_field_scope(names: Seq<String>, indices: Seq<usize>, c: Fields, name: Seq<char>)
    requires
        names.len() == indices.len(),
    ensures
        filter_tree_compiler::name_index(objects::texts(names), name) matches Some(k)
            ==> context::variable(field_scope(names, indices, c), name) == Some(
            c.values[indices[k] as int],
        ),
    decreases names.len(),
{
    if names.len() > 0 {
        assert(objects::texts(names.drop_last()) =~= objects::texts(names).drop_last());
        assert(objects::texts(names).last() == names.last()@);
        lemma_index_bound(objects::texts(names), name);
        lemma_index_bound(objects::texts(names.drop_last()), name);
        law_field_scope(names.drop_last(), indices.drop_last(), c, name);
    }
}

/// What the tree of a filter is about: the fields of the schema, their values, and the scope
/// in which the filter's names have those values.
pub open spec fn field_setting(f: Filter, s: Seq<(Seq<char>, FieldType)>, c: Fields) -> Setting {
    Setting {
        names: names_of(s),
        last: objects::texts(f.var_names@),
        vars: c.values,
        scope: field_scope(f.var_names@, f.var_indices@, c),
        known: known_fields(s),
    }
}

proof fn lemma_field_scope_standard(names: Seq<String>, indices: Seq<usize>, c: Fields)
    ensures
        field_scope(names, indices, c).env == env::stdlib_env(),
        field_scope(names, indices, c).functions == context::default_scope().functions,
    decreases names.len(),
{
    if names.len() > 0 {
        lemma_field_scope_standard(names.drop_last(), indices.drop_last(), c);
    }
}

/// A filter that became a tree gives the verdict that its expression has in the scope of the
/// fields, where it has one: whether a filter becomes a tree or not does not show. The paths
/// of the expression have to stand for the fields of their names, and the tree has to read
/// the fields right; it reads a field that is not set right unless a test asks whether it
/// differs from a literal, or computes with it.
pub proof fn law_tree_verdict(f: Filter, e: Expr, s: Seq<(Seq<char>, FieldType)>, c: Fields)
    requires
        is_filter(f, e, s),
        f.tree is Some,
        filter_meaning::sound(e, field_setting(f, s, c)),
        filter_tree_compiler::filter_of(names_of(s), e, known_fields(s)).0 matches Ok(t)
            && filter_meaning::suits(t, c.values),
    ensures
        verdict(
            semantics::eval_expr(
                e,
                Seq::empty(),
                field_scope(f.var_names@, f.var_indices@, c),
            ),
        ) matches Ok(b)
            ==> b == filter_tree::holds(*f.tree->0.filter, c.values),
{
    let set = field_setting(f, s, c);
    lemma_field_scope_standard(f.var_names@, f.var_indices@, c);
    filter_meaning::law_default_standard(set.scope);
    assert(f.var_names.len() == f.var_names@.len());
    assert forall|name: Seq<char>|
        (#[trigger] filter_tree_compiler::name_index(set.last, name)) is Some implies context::variable(
        set.scope,
        name,
    ) == Some(set.vars[filter_tree_compiler::name_index(set.last, name)->0]) by {
        lemma_index_bound(set.last, name);
        law_field_scope(f.var_names@, f.var_indices@, c, name);
    }
    filter_meaning::law_tree_means(f.tree->0, e, set);
}

/// The names that an expression refers to are listed once each.
pub proof fn law_references_distinct(e: Expr, names: Seq<Seq<char>>)
    requires
        names.no_duplicates(),
    ensures
        references(e, names).no_duplicates(),
    decreases e, 0nat,
{
    match e {
        Expr::Ident(n) => {},
        Expr::Call(c) => {
            let from = match c.target {
                Some(t) => references(t.expr, names),
                None => names,
            };
            if let Some(t) = c.target {
                law_references_distinct(t.expr, names);
            }
            lemma_all_distinct(c.args@, from);
        },
        Expr::Select(s) => {
            law_references_distinct(s.operand.expr, names);
        },
        Expr::List(l) => {
            lemma_all_distinct(l.elements@, names);
        },
        Expr::Dict(m) => {
            lemma_entries_distinct(m.entries@, names);
        },
        Expr::Struct(s) => {
            lemma_entries_distinct(s.entries@, names);
        },
        Expr::Comprehension(c) => {
            law_references_distinct(c.iter_range.expr, names);
            let a = references(c.iter_range.expr, names);
            law_references_distinct(c.accu_init.expr, a);
            let b = references(c.accu_init.expr, a);
            law_references_distinct(c.loop_cond.expr, b);
            let d = references(c.loop_cond.expr, b);
            law_references_distinct(c.loop_step.expr, d);
            let f = references(c.loop_step.expr, d);
            law_references_distinct(c.result.expr, f);
        },
        _ => {},
    }
}

proof fn lemma_all_distinct(s: Seq<IdedExpr>, names: Seq<Seq<char>>)
    requires
        names.no_duplicates(),
    ensures
        all_references(s, names).no_duplicates(),
    decreases s, 1nat,
{
    if s.len() > 0 {
        lemma_all_distinct(s.drop_last(), names);
        law_references_distinct(s.last().expr, all_references(s.drop_last(), names));
    }
}

proof fn lemma_entries_distinct(s: Seq<IdedEntryExpr>, names: Seq<Seq<char>>)
    requires
        names.no_duplicates(),
    ensures
        entry_references(s, names).no_duplicates(),
    decreases s, 1nat,
{
    if s.len() > 0 {
        lemma_entries_distinct(s.drop_last(), names);
        let before = entry_references(s.drop_last(), names);
        match s.last().expr {
            EntryExpr::MapEntry(m) => {
                law_references_distinct(m.key.expr, before);
                law_references_distinct(m.value.expr, references(m.key.expr, before));
            },
            EntryExpr::StructField(f) => {
                law_references_distinct(f.value.expr, before);
            },
        }
    }
}

} // verus!
