//! The values that expressions work on, and what each of them stands for.
//!
//! Every type here has a view, in which text and collections are sequences. Contracts
//! speak of the views.

use crate::float;
use crate::strings;
use std::sync::Arc;
use vstd::prelude::*;

verus! {

/// A key of a map.
#[derive(Debug)]
pub enum Key {
    Int(i64),
    Uint(u64),
    Bool(bool),
    String(String),
}

/// What a [`Key`] stands for.
pub enum KeyVal {
    Int(i64),
    Uint(u64),
    Bool(bool),
    String(Seq<char>),
}

/// A map, as its entries in the order in which their keys came.
#[derive(Debug)]
pub struct ValueMap {
    pub entries: Vec<(Key, Value)>,
}

/// A length of time, in nanoseconds.
#[derive(Clone, Copy, Debug, PartialEq, Eq, Structural)]
pub struct Duration {
    pub nanos: i128,
}

/// An instant, in nanoseconds since the start of 1970 in UTC, and the offset from UTC, in
/// seconds, of the place where it is told. A leap second is told as the second before it
/// over again.
#[derive(Clone, Copy, Debug, PartialEq, Eq, Structural)]
pub struct Timestamp {
    pub nanos: i128,
    pub offset: i32,
    pub leap: bool,
}

/// A value of a struct type: its fields, ordered by name.
#[derive(Debug)]
pub struct StructValue {
    pub name: String,
    pub fields: Vec<(String, Value)>,
}

/// A value of an expression.
#[derive(Debug)]
pub enum Value {
    Null,
    Bool(bool),
    Int(i64),
    UInt(u64),
    /// A double, as its 64 bits.
    Float(u64),
    String(Arc<String>),
    Bytes(Vec<u8>),
    List(Vec<Value>),
    Dict(ValueMap),
    Duration(Duration),
    Timestamp(Timestamp),
    Struct(StructValue),
    Optional(Option<Box<Value>>),
}

/// What a [`Value`] stands for.
pub enum Val {
    Null,
    Bool(bool),
    Int(i64),
    UInt(u64),
    Float(u64),
    String(Seq<char>),
    Bytes(Seq<u8>),
    List(Seq<Val>),
    Dict(Seq<(KeyVal, Val)>),
    Duration(Duration),
    Timestamp(Timestamp),
    Struct(Seq<char>, Seq<(Seq<char>, Val)>),
    Optional(Option<Box<Val>>),
}

impl View for Key {
    type V = KeyVal;

    open spec fn view(&self) -> KeyVal {
        match *self {
            Key::Int(i) => KeyVal::Int(i),
            Key::Uint(u) => KeyVal::Uint(u),
            Key::Bool(b) => KeyVal::Bool(b),
            Key::String(s) => KeyVal::String(s@),
        }
    }
}

/// What a value stands for.
pub open spec fn value_view(v: Value) -> Val
    decreases v,
{
    match v {
        Value::Null => Val::Null,
        Value::Bool(b) => Val::Bool(b),
        Value::Int(i) => Val::Int(i),
        Value::UInt(u) => Val::UInt(u),
        Value::Float(f) => Val::Float(f),
        Value::String(s) => Val::String(s@),
        Value::Bytes(b) => Val::Bytes(b@),
        Value::List(l) => Val::List(
            Seq::new(
                l@.len(),
                |i: int|
                    if 0 <= i < l@.len() {
                        value_view(l@[i])
                    } else {
                        Val::Null
                    },
            ),
        ),
        Value::Dict(m) => Val::Dict(
            Seq::new(
                m.entries@.len(),
                |i: int|
                    if 0 <= i < m.entries@.len() {
                        (m.entries@[i].0@, value_view(m.entries@[i].1))
                    } else {
                        (KeyVal::Bool(false), Val::Null)
                    },
            ),
        ),
        Value::Duration(d) => Val::Duration(d),
        Value::Timestamp(t) => Val::Timestamp(t),
        Value::Struct(s) => Val::Struct(
            s.name@,
            Seq::new(
                s.fields@.len(),
                |i: int|
                    if 0 <= i < s.fields@.len() {
                        (s.fields@[i].0@, value_view(s.fields@[i].1))
                    } else {
                        (Seq::empty(), Val::Null)
                    },
            ),
        ),
        Value::Optional(o) => match o {
            Some(b) => Val::Optional(Some(Box::new(value_view(*b)))),
            None => Val::Optional(None),
        },
    }
}

impl View for Value {
    type V = Val;

    open spec fn view(&self) -> Val {
        value_view(*self)
    }
}

/// What the values of a sequence stand for.
pub open spec fn values_view(s: Seq<Value>) -> Seq<Val> {
    s.map_values(|v: Value| v@)
}

/// What the entries of a map stand for.
pub open spec fn entries_view(s: Seq<(Key, Value)>) -> Seq<(KeyVal, Val)> {
    s.map_values(|e: (Key, Value)| (e.0@, e.1@))
}

/// What the fields of a struct stand for.
pub open spec fn fields_view(s: Seq<(String, Value)>) -> Seq<(Seq<char>, Val)> {
    s.map_values(|e: (String, Value)| (e.0@, e.1@))
}

/// The texts of a sequence of strings.
pub open spec fn texts(s: Seq<String>) -> Seq<Seq<char>> {
    s.map_values(|t: String| t@)
}

impl View for ValueMap {
    type V = Seq<(KeyVal, Val)>;

    open spec fn view(&self) -> Seq<(KeyVal, Val)> {
        entries_view(self.entries@)
    }
}

/// The view of a list value is the list of its items' views.
pub broadcast proof fn lemma_list_view(l: Vec<Value>)
    ensures
        #[trigger] value_view(Value::List(l)) == Val::List(values_view(l@)),
{
    assert(value_view(Value::List(l))->List_0 =~= values_view(l@));
}

/// The view of a map value is the sequence of its entries' views.
pub broadcast proof fn lemma_dict_view(m: ValueMap)
    ensures
        #[trigger] value_view(Value::Dict(m)) == Val::Dict(m@),
{
    assert(value_view(Value::Dict(m))->Dict_0 =~= m@);
}

/// The view of a struct value is its name and the sequence of its fields' views.
pub broadcast proof fn lemma_struct_view(s: StructValue)
    ensures
        #[trigger] value_view(Value::Struct(s)) == Val::Struct(
            s.name@,
            fields_view(s.fields@),
        ),
{
    assert(value_view(Value::Struct(s))->Struct_1 =~= fields_view(s.fields@));
}

pub broadcast group group_value_views {
    lemma_list_view,
    lemma_dict_view,
    lemma_struct_view,
}

impl Clone for Key {
    fn clone(&self) -> (r: Self)
        ensures
            r@ == self@,
    {
        match self {
            Key::Int(i) => Key::Int(*i),
            Key::Uint(u) => Key::Uint(*u),
            Key::Bool(b) => Key::Bool(*b),
            Key::String(s) => Key::String(s.clone()),
        }
    }
}

/// Copies bytes.
pub(crate) fn clone_bytes(b: &Vec<u8>) -> (r: Vec<u8>)
    ensures
        r@ == b@,
{
    let mut out: Vec<u8> = Vec::new();
    let mut i: usize = 0;
    while i < b.len()
        invariant
            i <= b@.len(),
            out@ == b@.subrange(0, i as int),
        decreases b@.len() - i,
    {
        out.push(b[i]);
        i += 1;
        assert(out@ =~= b@.subrange(0, i as int));
    }
    assert(b@.subrange(0, i as int) =~= b@);
    out
}

impl Clone for Value {
    fn clone(&self) -> (r: Self)
        ensures
            r@ == self@,
        decreases self,
    {
        match self {
            Value::Null => Value::Null,
            Value::Bool(b) => Value::Bool(*b),
            Value::Int(i) => Value::Int(*i),
            Value::UInt(u) => Value::UInt(*u),
            Value::Float(f) => Value::Float(*f),
            Value::String(s) => Value::String(strings::share(s)),
            Value::Bytes(b) => Value::Bytes(clone_bytes(b)),
            Value::List(l) => {
                let mut out: Vec<Value> = Vec::new();
                let mut i: usize = 0;
                while i < l.len()
                    invariant
                        i <= l@.len(),
                        out@.len() == i,
                        self matches Value::List(l2) && l == l2,
                        forall|j: int|
                            0 <= j < i ==> value_view(#[trigger] out@[j]) == value_view(l@[j]),
                    decreases l@.len() - i,
                {
                    out.push(l[i].clone());
                    i += 1;
                }
                let r = Value::List(out);
                assert(r@->List_0 =~= self@->List_0);
                r
            },
            Value::Dict(m) => {
                let mut out: Vec<(Key, Value)> = Vec::new();
                let mut i: usize = 0;
                while i < m.entries.len()
                    invariant
                        i <= m.entries@.len(),
                        out@.len() == i,
                        self matches Value::Dict(m2) && m == m2,
                        forall|j: int|
                            0 <= j < i ==> (#[trigger] out@[j]).0@ == m.entries@[j].0@
                                && value_view(out@[j].1) == value_view(m.entries@[j].1),
                    decreases m.entries@.len() - i,
                {
                    out.push((m.entries[i].0.clone(), m.entries[i].1.clone()));
                    i += 1;
                }
                let r = Value::Dict(ValueMap { entries: out });
                assert(r@->Dict_0 =~= self@->Dict_0);
                r
            },
            Value::Duration(d) => Value::Duration(*d),
            Value::Timestamp(t) => Value::Timestamp(*t),
            Value::Struct(s) => {
                let mut out: Vec<(String, Value)> = Vec::new();
                let mut i: usize = 0;
                while i < s.fields.len()
                    invariant
                        i <= s.fields@.len(),
                        out@.len() == i,
                        self matches Value::Struct(s2) && s == s2,
                        forall|j: int|
                            0 <= j < i ==> (#[trigger] out@[j]).0@ == s.fields@[j].0@
                                && value_view(out@[j].1) == value_view(s.fields@[j].1),
                    decreases s.fields@.len() - i,
                {
                    out.push((s.fields[i].0.clone(), s.fields[i].1.clone()));
                    i += 1;
                }
                let r = Value::Struct(
                    StructValue { name: s.name.clone(), fields: out },
                );
                assert(r@->Struct_1 =~= self@->Struct_1);
                r
            },
            Value::Optional(o) => match o {
                Some(b) => Value::Optional(Some(Box::new((&**b).clone()))),
                None => Value::Optional(None),
            },
        }
    }
}

/// Copies a run of values.
pub(crate) fn clone_values(s: &[Value]) -> (r: Vec<Value>)
    ensures
        values_view(r@) == values_view(s@),
{
    let mut out: Vec<Value> = Vec::new();
    let mut i: usize = 0;
    while i < s.len()
        invariant
            i <= s@.len(),
            out@.len() == i,
            forall|j: int| 0 <= j < i ==> (#[trigger] out@[j])@ == s@[j]@,
        decreases s@.len() - i,
    {
        out.push(s[i].clone());
        i += 1;
    }
    assert(values_view(out@) =~= values_view(s@));
    out
}

/// The position, from `from` on, of the first entry with a key.
pub open spec fn entry_index(s: Seq<(KeyVal, Val)>, k: KeyVal, from: int) -> Option<int>
    decreases s.len() - from,
{
    if from < 0 || from >= s.len() {
        None
    } else if s[from].0 == k {
        Some(from)
    } else {
        entry_index(s, k, from + 1)
    }
}

/// The value that a map holds for a key.
pub open spec fn dict_get(s: Seq<(KeyVal, Val)>, k: KeyVal) -> Option<Val> {
    match entry_index(s, k, 0) {
        Some(i) => Some(s[i].1),
        None => None,
    }
}

/// The entries after a key has been given a value: in its place where it was there, else
/// at the end.
pub open spec fn dict_insert(s: Seq<(KeyVal, Val)>, k: KeyVal, v: Val) -> Seq<(KeyVal, Val)> {
    match entry_index(s, k, 0) {
        Some(i) => s.update(i, (k, v)),
        None => s.push((k, v)),
    }
}

/// No key occurs twice.
pub open spec fn distinct_keys(s: Seq<(KeyVal, Val)>) -> bool {
    forall|i: int, j: int| 0 <= i < j < s.len() ==> s[i].0 != s[j].0
}

pub proof fn lemma_entry_index(s: Seq<(KeyVal, Val)>, k: KeyVal, from: int)
    requires
        0 <= from,
    ensures
        match entry_index(s, k, from) {
            Some(i) => from <= i < s.len() && s[i].0 == k && forall|j: int|
                from <= j < i ==> s[j].0 != k,
            None => forall|j: int| from <= j < s.len() ==> s[j].0 != k,
        },
    decreases s.len() - from,
{
    if from < s.len() && s[from].0 != k {
        lemma_entry_index(s, k, from + 1);
    }
}

/// An insert keeps the keys distinct, gives its key the value, and leaves the others alone.
pub proof fn law_dict_insert(s: Seq<(KeyVal, Val)>, k: KeyVal, v: Val, other: KeyVal)
    requires
        distinct_keys(s),
    ensures
        distinct_keys(dict_insert(s, k, v)),
        dict_get(dict_insert(s, k, v), k) == Some(v),
        other != k ==> dict_get(dict_insert(s, k, v), other) == dict_get(s, other),
{
    let t = dict_insert(s, k, v);
    lemma_entry_index(s, k, 0);
    lemma_entry_index(t, k, 0);
    lemma_entry_index(s, other, 0);
    lemma_entry_index(t, other, 0);
    match entry_index(s, k, 0) {
        Some(i) => {
            assert(t[i] == (k, v));
        },
        None => {
            assert(t[s.len() as int] == (k, v));
        },
    }
    if other != k {
        match entry_index(s, other, 0) {
            Some(i) => {
                assert(t[i] == s[i]);
            },
            None => {
                if entry_index(t, other, 0) is Some {
                    let i = entry_index(t, other, 0)->0;
                    assert(t[i].0 == other);
                    if i < s.len() {
                        assert(s[i].0 != other);
                    }
                }
            },
        }
    }
}

impl Key {
    /// Whether two keys are the same.
    pub fn same(&self, other: &Key) -> (r: bool)
        ensures
            r == (self@ == other@),
    {
        match (self, other) {
            (Key::Int(a), Key::Int(b)) => *a == *b,
            (Key::Uint(a), Key::Uint(b)) => *a == *b,
            (Key::Bool(a), Key::Bool(b)) => *a == *b,
            (Key::String(a), Key::String(b)) => strings::str_eq(a.as_str(), b.as_str()),
            _ => false,
        }
    }
}

impl ValueMap {
    /// A map with no entries.
    pub fn new() -> (r: ValueMap)
        ensures
            r@ == Seq::<(KeyVal, Val)>::empty(),
    {
        let r = ValueMap { entries: Vec::new() };
        assert(r@ =~= Seq::<(KeyVal, Val)>::empty());
        r
    }

    fn position(&self, key: &Key) -> (r: Option<usize>)
        ensures
            match r {
                Some(i) => i < self.entries@.len() && entry_index(self@, key@, 0) == Some(i as int),
                None => entry_index(self@, key@, 0) is None,
            },
    {
        let mut i: usize = 0;
        while i < self.entries.len()
            invariant
                i <= self.entries@.len(),
                entry_index(self@, key@, 0) == entry_index(self@, key@, i as int),
            decreases self.entries@.len() - i,
        {
            if self.entries[i].0.same(key) {
                return Some(i);
            }
            i += 1;
        }
        None
    }

    /// The value of a key.
    pub fn get(&self, key: &Key) -> (r: Option<&Value>)
        ensures
            match r {
                Some(v) => dict_get(self@, key@) == Some(v@),
                None => dict_get(self@, key@) is None,
            },
    {
        match self.position(key) {
            Some(i) => Some(&self.entries[i].1),
            None => None,
        }
    }

    /// Whether a key is there.
    pub fn contains_key(&self, key: &Key) -> (r: bool)
        ensures
            r == (dict_get(self@, key@) is Some),
    {
        self.position(key).is_some()
    }

    /// Gives a key a value.
    pub fn insert(&mut self, key: Key, value: Value)
        ensures
            final(self)@ == dict_insert(old(self)@, key@, value@),
    {
        match self.position(&key) {
            Some(i) => {
                self.entries.set(i, (key, value));
            },
            None => {
                self.entries.push((key, value));
            },
        }
        assert(self@ =~= dict_insert(old(self)@, key@, value@));
    }
}

/// Whether two values are equal in the language: numbers of different types by their
/// number, maps by their entries whatever the order, instants by when they are.
pub open spec fn val_eq(a: Val, b: Val) -> bool
    decreases a,
{
    match (a, b) {
        (Val::Null, Val::Null) => true,
        (Val::Bool(x), Val::Bool(y)) => x == y,
        (Val::Int(x), Val::Int(y)) => x == y,
        (Val::UInt(x), Val::UInt(y)) => x == y,
        (Val::Float(x), Val::Float(y)) => float::float_eq(x, y),
        (Val::Int(x), Val::Float(y)) => float::float_eq(float::float_of_int(x as int), y),
        (Val::Float(x), Val::Int(y)) => float::float_eq(x, float::float_of_int(y as int)),
        (Val::Int(x), Val::UInt(y)) => x as int == y as int,
        (Val::UInt(x), Val::Int(y)) => x as int == y as int,
        (Val::String(x), Val::String(y)) => x == y,
        (Val::Bytes(x), Val::Bytes(y)) => x == y,
        (Val::List(x), Val::List(y)) => x.len() == y.len() && forall|i: int|
            0 <= i < x.len() ==> val_eq(#[trigger] x[i], y[i]),
        (Val::Dict(x), Val::Dict(y)) => x.len() == y.len() && forall|i: int|
            0 <= i < x.len() ==> match dict_get(y, (#[trigger] x[i]).0) {
                Some(v) => val_eq(x[i].1, v),
                None => false,
            },
        (Val::Duration(x), Val::Duration(y)) => x.nanos == y.nanos,
        (Val::Timestamp(x), Val::Timestamp(y)) => x.nanos == y.nanos && x.leap == y.leap,
        (Val::Struct(m, x), Val::Struct(n, y)) => m == n && x.len() == y.len() && forall|i: int|
            0 <= i < x.len() ==> (#[trigger] x[i]).0 == y[i].0 && val_eq(x[i].1, y[i].1),
        (Val::Optional(x), Val::Optional(y)) => match (x, y) {
            (Some(p), Some(q)) => val_eq(*p, *q),
            (None, None) => true,
            _ => false,
        },
        _ => false,
    }
}

fn bytes_equal(a: &Vec<u8>, b: &Vec<u8>) -> (r: bool)
    ensures
        r == (a@ == b@),
{
    if a.len() != b.len() {
        return false;
    }
    let mut i: usize = 0;
    while i < a.len()
        invariant
            i <= a@.len(),
            a@.len() == b@.len(),
            forall|j: int| 0 <= j < i ==> a@[j] == b@[j],
        decreases a@.len() - i,
    {
        if a[i] != b[i] {
            return false;
        }
        i += 1;
    }
    assert(a@ =~= b@);
    true
}

/// Whether two values are equal in the language.
pub fn values_equal(a: &Value, b: &Value) -> (r: bool)
    ensures
        r == val_eq(a@, b@),
    decreases a,
{
    broadcast use group_value_views;

    match (a, b) {
        (Value::Null, Value::Null) => true,
        (Value::Bool(x), Value::Bool(y)) => *x == *y,
        (Value::Int(x), Value::Int(y)) => *x == *y,
        (Value::UInt(x), Value::UInt(y)) => *x == *y,
        (Value::Float(x), Value::Float(y)) => float::float_equal(*x, *y),
        (Value::Int(x), Value::Float(y)) => float::float_equal(float::float_from_i64(*x), *y),
        (Value::Float(x), Value::Int(y)) => float::float_equal(*x, float::float_from_i64(*y)),
        (Value::Int(x), Value::UInt(y)) => *x >= 0 && *x as u64 == *y,
        (Value::UInt(x), Value::Int(y)) => *y >= 0 && *x == *y as u64,
        (Value::String(x), Value::String(y)) => strings::str_eq(x.as_str(), y.as_str()),
        (Value::Bytes(x), Value::Bytes(y)) => bytes_equal(x, y),
        (Value::List(x), Value::List(y)) => {
            if x.len() != y.len() {
                return false;
            }
            let mut i: usize = 0;
            while i < x.len()
                invariant
                    i <= x@.len(),
                    x@.len() == y@.len(),
                    a matches Value::List(l) && x == l,
                    a@ == Val::List(values_view(x@)),
                    b@ == Val::List(values_view(y@)),
                    forall|j: int|
                        0 <= j < i ==> val_eq(#[trigger] values_view(x@)[j], values_view(y@)[j]),
                decreases x@.len() - i,
            {
                if !values_equal(&x[i], &y[i]) {
                    assert(!val_eq(values_view(x@)[i as int], values_view(y@)[i as int]));
                    return false;
                }
                i += 1;
            }
            true
        },
        (Value::Dict(x), Value::Dict(y)) => {
            if x.entries.len() != y.entries.len() {
                return false;
            }
            let mut i: usize = 0;
            while i < x.entries.len()
                invariant
                    i <= x.entries@.len(),
                    x.entries@.len() == y.entries@.len(),
                    a matches Value::Dict(m) && x == m,
                    a@ == Val::Dict(x@),
                    b@ == Val::Dict(y@),
                    forall|j: int|
                        0 <= j < i ==> match dict_get(y@, (#[trigger] x@[j]).0) {
                            Some(v) => val_eq(x@[j].1, v),
                            None => false,
                        },
                decreases x.entries@.len() - i,
            {
                assert(x@[i as int] == (x.entries@[i as int].0@, x.entries@[i as int].1@));
                match y.get(&x.entries[i].0) {
                    Some(v) => {
                        if !values_equal(&x.entries[i].1, v) {
                            return false;
                        }
                    },
                    None => {
                        return false;
                    },
                }
                i += 1;
            }
            true
        },
        (Value::Duration(x), Value::Duration(y)) => x.nanos == y.nanos,
        (Value::Timestamp(x), Value::Timestamp(y)) => x.nanos == y.nanos && x.leap == y.leap,
        (Value::Struct(x), Value::Struct(y)) => {
            if !strings::str_eq(x.name.as_str(), y.name.as_str()) || x.fields.len()
                != y.fields.len() {
                return false;
            }
            let mut i: usize = 0;
            while i < x.fields.len()
                invariant
                    i <= x.fields@.len(),
                    x.fields@.len() == y.fields@.len(),
                    a matches Value::Struct(s) && x == s,
                    a@ == Val::Struct(x.name@, fields_view(x.fields@)),
                    b@ == Val::Struct(y.name@, fields_view(y.fields@)),
                    x.name@ == y.name@,
                    forall|j: int|
                        0 <= j < i ==> (#[trigger] fields_view(x.fields@)[j]).0 == fields_view(
                            y.fields@,
                        )[j].0 && val_eq(fields_view(x.fields@)[j].1, fields_view(y.fields@)[j].1),
                decreases x.fields@.len() - i,
            {
                assert(fields_view(x.fields@)[i as int] == (
                    x.fields@[i as int].0@,
                    x.fields@[i as int].1@,
                ));
                if !strings::str_eq(x.fields[i].0.as_str(), y.fields[i].0.as_str())
                    || !values_equal(&x.fields[i].1, &y.fields[i].1) {
                    return false;
                }
                i += 1;
            }
            true
        },
        (Value::Optional(x), Value::Optional(y)) => match (x, y) {
            (Some(p), Some(q)) => values_equal(&**p, &**q),
            (None, None) => true,
            _ => false,
        },
        _ => false,
    }
}

impl PartialEq for Value {
    fn eq(&self, other: &Value) -> (r: bool) {
        values_equal(self, other)
    }
}

impl vstd::std_specs::cmp::PartialEqSpecImpl for Value {
    open spec fn obeys_eq_spec() -> bool {
        true
    }

    open spec fn eq_spec(&self, other: &Value) -> bool {
        val_eq(self@, other@)
    }
}

/// Whether two values are the same: of one type, and alike in all that they hold.
pub fn values_same(a: &Value, b: &Value) -> (r: bool)
    ensures
        r == (a@ == b@),
    decreases a,
{
    broadcast use group_value_views;

    match (a, b) {
        (Value::Null, Value::Null) => true,
        (Value::Bool(x), Value::Bool(y)) => *x == *y,
        (Value::Int(x), Value::Int(y)) => *x == *y,
        (Value::UInt(x), Value::UInt(y)) => *x == *y,
        (Value::Float(x), Value::Float(y)) => *x == *y,
        (Value::String(x), Value::String(y)) => strings::str_eq(x.as_str(), y.as_str()),
        (Value::Bytes(x), Value::Bytes(y)) => bytes_equal(x, y),
        (Value::List(x), Value::List(y)) => {
            if x.len() != y.len() {
                assert(values_view(x@).len() != values_view(y@).len());
                return false;
            }
            let mut i: usize = 0;
            while i < x.len()
                invariant
                    i <= x@.len(),
                    x@.len() == y@.len(),
                    a matches Value::List(l) && x == l,
                    a@ == Val::List(values_view(x@)),
                    b@ == Val::List(values_view(y@)),
                    forall|j: int| 0 <= j < i ==> (#[trigger] x@[j])@ == y@[j]@,
                decreases x@.len() - i,
            {
                if !values_same(&x[i], &y[i]) {
                    assert(values_view(x@)[i as int] != values_view(y@)[i as int]);
                    return false;
                }
                i += 1;
            }
            assert(values_view(x@) =~= values_view(y@));
            true
        },
        (Value::Dict(x), Value::Dict(y)) => {
            if x.entries.len() != y.entries.len() {
                assert(x@.len() != y@.len());
                return false;
            }
            let mut i: usize = 0;
            while i < x.entries.len()
                invariant
                    i <= x.entries@.len(),
                    x.entries@.len() == y.entries@.len(),
                    a matches Value::Dict(m) && x == m,
                    a@ == Val::Dict(x@),
                    b@ == Val::Dict(y@),
                    forall|j: int| 0 <= j < i ==> #[trigger] x@[j] == y@[j],
                decreases x.entries@.len() - i,
            {
                assert(x@[i as int] == (x.entries@[i as int].0@, x.entries@[i as int].1@));
                assert(y@[i as int] == (y.entries@[i as int].0@, y.entries@[i as int].1@));
                if !x.entries[i].0.same(&y.entries[i].0) || !values_same(
                    &x.entries[i].1,
                    &y.entries[i].1,
                ) {
                    assert(x@[i as int] != y@[i as int]);
                    return false;
                }
                i += 1;
            }
            assert(x@ =~= y@);
            true
        },
        (Value::Duration(x), Value::Duration(y)) => x.nanos == y.nanos,
        (Value::Timestamp(x), Value::Timestamp(y)) => x.nanos == y.nanos && x.offset == y.offset
            && x.leap == y.leap,
        (Value::Struct(x), Value::Struct(y)) => {
            if !strings::str_eq(x.name.as_str(), y.name.as_str()) {
                return false;
            }
            if x.fields.len() != y.fields.len() {
                assert(fields_view(x.fields@).len() != fields_view(y.fields@).len());
                return false;
            }
            let mut i: usize = 0;
            while i < x.fields.len()
                invariant
                    i <= x.fields@.len(),
                    x.fields@.len() == y.fields@.len(),
                    a matches Value::Struct(s) && x == s,
                    a@ == Val::Struct(x.name@, fields_view(x.fields@)),
                    b@ == Val::Struct(y.name@, fields_view(y.fields@)),
                    x.name@ == y.name@,
                    forall|j: int|
                        0 <= j < i ==> #[trigger] fields_view(x.fields@)[j] == fields_view(
                            y.fields@,
                        )[j],
                decreases x.fields@.len() - i,
            {
                assert(fields_view(x.fields@)[i as int] == (
                    x.fields@[i as int].0@,
                    x.fields@[i as int].1@,
                ));
                assert(fields_view(y.fields@)[i as int] == (
                    y.fields@[i as int].0@,
                    y.fields@[i as int].1@,
                ));
                if !strings::str_eq(x.fields[i].0.as_str(), y.fields[i].0.as_str())
                    || !values_same(&x.fields[i].1, &y.fields[i].1) {
                    assert(fields_view(x.fields@)[i as int] != fields_view(y.fields@)[i as int]);
                    return false;
                }
                i += 1;
            }
            assert(fields_view(x.fields@) =~= fields_view(y.fields@));
            true
        },
        (Value::Optional(x), Value::Optional(y)) => match (x, y) {
            (Some(p), Some(q)) => values_same(&**p, &**q),
            (None, None) => true,
            _ => false,
        },
        _ => false,
    }
}

/// Whether two runs of values are the same, item by item.
pub(crate) fn value_lists_same(a: &[Value], b: &[Value]) -> (r: bool)
    ensures
        r == (values_view(a@) == values_view(b@)),
{
    if a.len() != b.len() {
        assert(values_view(a@).len() != values_view(b@).len());
        return false;
    }
    let mut i: usize = 0;
    while i < a.len()
        invariant
            i <= a@.len(),
            a@.len() == b@.len(),
            forall|j: int| 0 <= j < i ==> (#[trigger] a@[j])@ == b@[j]@,
        decreases a@.len() - i,
    {
        if !values_same(&a[i], &b[i]) {
            assert(values_view(a@)[i as int] != values_view(b@)[i as int]);
            return false;
        }
        i += 1;
    }
    assert(values_view(a@) =~= values_view(b@));
    true
}

/// The key that a value makes, if its type can be a key.
pub open spec fn key_of(v: Val) -> Option<KeyVal> {
    match v {
        Val::Int(i) => Some(KeyVal::Int(i)),
        Val::UInt(u) => Some(KeyVal::Uint(u)),
        Val::Bool(b) => Some(KeyVal::Bool(b)),
        Val::String(s) => Some(KeyVal::String(s)),
        _ => None,
    }
}

/// The value of a key.
pub open spec fn key_value(k: KeyVal) -> Val {
    match k {
        KeyVal::Int(i) => Val::Int(i),
        KeyVal::Uint(u) => Val::UInt(u),
        KeyVal::Bool(b) => Val::Bool(b),
        KeyVal::String(s) => Val::String(s),
    }
}

/// A key made into a value makes the key again.
pub proof fn law_key_round_trip(k: KeyVal)
    ensures
        key_of(key_value(k)) == Some(k),
{
}

/// The key that a value makes.
pub fn value_as_key(v: &Value) -> (r: Option<Key>)
    ensures
        match r {
            Some(k) => key_of(v@) == Some(k@),
            None => key_of(v@) is None,
        },
{
    match v {
        Value::Int(i) => Some(Key::Int(*i)),
        Value::UInt(u) => Some(Key::Uint(*u)),
        Value::Bool(b) => Some(Key::Bool(*b)),
        Value::String(s) => Some(Key::String(s.as_str().to_owned())),
        _ => None,
    }
}

/// The value of a key.
pub fn key_as_value(k: &Key) -> (r: Value)
    ensures
        r@ == key_value(k@),
{
    match k {
        Key::Int(i) => Value::Int(*i),
        Key::Uint(u) => Value::UInt(*u),
        Key::Bool(b) => Value::Bool(*b),
        Key::String(s) => Value::String(Arc::new(s.clone())),
    }
}

} // verus!
