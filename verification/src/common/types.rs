//! The types of values.

pub mod timestamp;

use crate::objects::{Val, Value};
use crate::strings;
use vstd::prelude::*;
use vstd::string::*;

verus! {

/// The kinds of types.
#[derive(Clone, Copy, Debug, PartialEq, Eq, Structural)]
pub enum Kind {
    Dyn,
    NullType,
    Boolean,
    Int,
    UInt,
    Double,
    String,
    Bytes,
    List,
    Dict,
    Duration,
    Timestamp,
    Struct,
    Opaque,
}

/// A type: its kind and its name.
#[derive(Debug)]
pub struct Type {
    pub kind: Kind,
    pub name: String,
}

/// What a [`Type`] stands for.
pub struct TypeModel {
    pub kind: Kind,
    pub name: Seq<char>,
}

impl View for Type {
    type V = TypeModel;

    open spec fn view(&self) -> TypeModel {
        TypeModel { kind: self.kind, name: self.name@ }
    }
}

/// The name of the type that each kind has one of.
pub open spec fn kind_name(k: Kind) -> Seq<char> {
    match k {
        Kind::Dyn => "dyn"@,
        Kind::NullType => "null_type"@,
        Kind::Boolean => "bool"@,
        Kind::Int => "int"@,
        Kind::UInt => "uint"@,
        Kind::Double => "double"@,
        Kind::String => "string"@,
        Kind::Bytes => "bytes"@,
        Kind::List => "list"@,
        Kind::Dict => "map"@,
        Kind::Duration => "google.protobuf.Duration"@,
        Kind::Timestamp => "google.protobuf.Timestamp"@,
        Kind::Struct => "struct"@,
        Kind::Opaque => "optional_type"@,
    }
}

/// The type of a kind.
pub open spec fn kind_type(k: Kind) -> TypeModel {
    TypeModel { kind: k, name: kind_name(k) }
}

/// The type of a value.
pub open spec fn type_of(v: Val) -> TypeModel {
    match v {
        Val::Null => kind_type(Kind::NullType),
        Val::Bool(_) => kind_type(Kind::Boolean),
        Val::Int(_) => kind_type(Kind::Int),
        Val::UInt(_) => kind_type(Kind::UInt),
        Val::Float(_) => kind_type(Kind::Double),
        Val::String(_) => kind_type(Kind::String),
        Val::Bytes(_) => kind_type(Kind::Bytes),
        Val::List(_) => kind_type(Kind::List),
        Val::Dict(_) => kind_type(Kind::Dict),
        Val::Duration(_) => kind_type(Kind::Duration),
        Val::Timestamp(_) => kind_type(Kind::Timestamp),
        Val::Struct(n, _) => TypeModel { kind: Kind::Struct, name: n },
        Val::Optional(_) => kind_type(Kind::Opaque),
    }
}

/// Whether a value can stand where a type is expected: it has the type, or any type serves.
pub open spec fn assignable(t: TypeModel, v: Val) -> bool {
    t.kind == Kind::Dyn || t == type_of(v)
}

fn kind_text(k: Kind) -> (r: &'static str)
    ensures
        r@ == kind_name(k),
{
    match k {
        Kind::Dyn => "dyn",
        Kind::NullType => "null_type",
        Kind::Boolean => "bool",
        Kind::Int => "int",
        Kind::UInt => "uint",
        Kind::Double => "double",
        Kind::String => "string",
        Kind::Bytes => "bytes",
        Kind::List => "list",
        Kind::Dict => "map",
        Kind::Duration => "google.protobuf.Duration",
        Kind::Timestamp => "google.protobuf.Timestamp",
        Kind::Struct => "struct",
        Kind::Opaque => "optional_type",
    }
}

impl Clone for Type {
    fn clone(&self) -> (r: Self)
        ensures
            r@ == self@,
    {
        Type { kind: self.kind, name: self.name.clone() }
    }
}

impl Type {
    /// The type of a kind.
    pub fn of_kind(kind: Kind) -> (r: Type)
        ensures
            r@ == kind_type(kind),
    {
        Type { kind, name: kind_text(kind).to_owned() }
    }

    /// The type of a struct.
    pub fn of_struct(name: &str) -> (r: Type)
        ensures
            r@ == (TypeModel { kind: Kind::Struct, name: name@ }),
    {
        Type { kind: Kind::Struct, name: name.to_owned() }
    }

    /// The type of a value.
    pub fn of_value(v: &Value) -> (r: Type)
        ensures
            r@ == type_of(v@),
    {
        match v {
            Value::Null => Type::of_kind(Kind::NullType),
            Value::Bool(_) => Type::of_kind(Kind::Boolean),
            Value::Int(_) => Type::of_kind(Kind::Int),
            Value::UInt(_) => Type::of_kind(Kind::UInt),
            Value::Float(_) => Type::of_kind(Kind::Double),
            Value::String(_) => Type::of_kind(Kind::String),
            Value::Bytes(_) => Type::of_kind(Kind::Bytes),
            Value::List(_) => Type::of_kind(Kind::List),
            Value::Dict(_) => Type::of_kind(Kind::Dict),
            Value::Duration(_) => Type::of_kind(Kind::Duration),
            Value::Timestamp(_) => Type::of_kind(Kind::Timestamp),
            Value::Struct(s) => Type::of_struct(s.name.as_str()),
            Value::Optional(_) => Type::of_kind(Kind::Opaque),
        }
    }

    pub fn kind(&self) -> (r: Kind)
        ensures
            r == self@.kind,
    {
        self.kind
    }

    pub fn name(&self) -> (r: &str)
        ensures
            r@ == self@.name,
    {
        self.name.as_str()
    }

    /// Whether two types are the same.
    pub fn same(&self, other: &Type) -> (r: bool)
        ensures
            r == (self@ == other@),
    {
        self.kind == other.kind && strings::str_eq(self.name.as_str(), other.name.as_str())
    }

    /// Whether a value can stand where the type is expected.
    pub fn is_assignable(&self, v: &Value) -> (r: bool)
        ensures
            r == assignable(self@, v@),
    {
        self.kind == Kind::Dyn || self.same(&Type::of_value(v))
    }
}

/// The types of a sequence.
pub open spec fn types_view(s: Seq<Type>) -> Seq<TypeModel> {
    s.map_values(|t: Type| t@)
}

/// Whether two runs of types are the same, one by one.
pub(crate) fn types_same(a: &[Type], b: &[Type]) -> (r: bool)
    ensures
        r == (types_view(a@) == types_view(b@)),
{
    if a.len() != b.len() {
        assert(types_view(a@).len() != types_view(b@).len());
        return false;
    }
    let mut i: usize = 0;
    while i < a.len()
        invariant
            i <= a@.len(),
            a@.len() == b@.len(),
            forall|j: int| 0 <= j < i ==> (#[trigger] a@[j])@ == b@[j]@,
        decreases a@.len() - i,
    {
        if !a[i].same(&b[i]) {
            assert(types_view(a@)[i as int] != types_view(b@)[i as int]);
            return false;
        }
        i += 1;
    }
    assert(types_view(a@) =~= types_view(b@));
    true
}

} // verus!
