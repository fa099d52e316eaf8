//! The syntax tree of expressions.

use crate::common::functions::Function;
use crate::strings;
use vstd::prelude::*;

verus! {

/// A constant in an expression.
#[derive(Debug)]
pub enum LiteralValue {
    Boolean(bool),
    Bytes(Vec<u8>),
    /// A double, as its 64 bits.
    Double(u64),
    Int(i64),
    Null,
    String(String),
    UInt(u64),
}

/// An expression with the number that the parser gave it.
#[derive(Debug)]
pub struct IdedExpr {
    pub id: u64,
    pub expr: Expr,
}

/// What the parser makes of a source text.
pub type Expression = IdedExpr;

/// An expression.
#[derive(Debug)]
pub enum Expr {
    Unspecified,
    Literal(LiteralValue),
    Ident(String),
    Select(SelectExpr),
    Call(CallExpr),
    List(ListExpr),
    Dict(MapExpr),
    Comprehension(Box<ComprehensionExpr>),
    Struct(StructExpr),
}

/// `operand.field`, or the test whether the field is there.
#[derive(Debug)]
pub struct SelectExpr {
    pub operand: Box<IdedExpr>,
    pub field: String,
    pub test: bool,
}

/// A call of a function or an operator.
#[derive(Debug)]
pub struct CallExpr {
    pub func_name: String,
    pub target: Option<Box<IdedExpr>>,
    pub args: Vec<IdedExpr>,
    /// The overload, where it was resolved ahead of evaluation.
    pub resolved_op: Option<Function>,
}

/// `[a, ?b]`.
#[derive(Debug)]
pub struct ListExpr {
    pub elements: Vec<IdedExpr>,
    /// The positions of the elements that are optional.
    pub optional_indices: Vec<usize>,
}

/// `{k: v, ?k: v}`.
#[derive(Debug)]
pub struct MapExpr {
    pub entries: Vec<IdedEntryExpr>,
}

/// `Name{field: v}`.
#[derive(Debug)]
pub struct StructExpr {
    pub name: String,
    pub entries: Vec<IdedEntryExpr>,
}

/// An entry with the number that the parser gave it.
#[derive(Debug)]
pub struct IdedEntryExpr {
    pub id: u64,
    pub expr: EntryExpr,
}

/// An entry of a map or of a struct.
#[derive(Debug)]
pub enum EntryExpr {
    StructField(StructFieldExpr),
    MapEntry(MapEntryExpr),
}

#[derive(Debug)]
pub struct StructFieldExpr {
    pub field: String,
    pub value: IdedExpr,
    pub optional: bool,
}

#[derive(Debug)]
pub struct MapEntryExpr {
    pub key: IdedExpr,
    pub value: IdedExpr,
    pub optional: bool,
}

/// The loop that the macros on lists and maps expand to.
#[derive(Debug)]
pub struct ComprehensionExpr {
    pub iter_range: IdedExpr,
    pub iter_var: String,
    pub iter_var2: Option<String>,
    pub accu_var: String,
    pub accu_init: IdedExpr,
    pub loop_cond: IdedExpr,
    pub loop_step: IdedExpr,
    pub result: IdedExpr,
}

/// The operators, which the parser writes as calls of functions with special names.
#[derive(Clone, Copy, Debug, PartialEq, Eq, Structural)]
pub enum Operator {
    Conditional,
    LogicalAnd,
    LogicalOr,
    LogicalNot,
    Equals,
    NotEquals,
    Less,
    LessEquals,
    Greater,
    GreaterEquals,
    Add,
    Substract,
    Multiply,
    Divide,
    Modulo,
    Negate,
    Index,
    OptIndex,
    OptSelect,
    In,
    NotStrictlyFalse,
}

/// The operator that a function name stands for.
pub open spec fn operator_of(name: Seq<char>) -> Option<Operator> {
    if name == "_?_:_"@ {
        Some(Operator::Conditional)
    } else if name == "_&&_"@ {
        Some(Operator::LogicalAnd)
    } else if name == "_||_"@ {
        Some(Operator::LogicalOr)
    } else if name == "!_"@ {
        Some(Operator::LogicalNot)
    } else if name == "_==_"@ {
        Some(Operator::Equals)
    } else if name == "_!=_"@ {
        Some(Operator::NotEquals)
    } else if name == "_<_"@ {
        Some(Operator::Less)
    } else if name == "_<=_"@ {
        Some(Operator::LessEquals)
    } else if name == "_>_"@ {
        Some(Operator::Greater)
    } else if name == "_>=_"@ {
        Some(Operator::GreaterEquals)
    } else if name == "_+_"@ {
        Some(Operator::Add)
    } else if name == "_-_"@ {
        Some(Operator::Substract)
    } else if name == "_*_"@ {
        Some(Operator::Multiply)
    } else if name == "_/_"@ {
        Some(Operator::Divide)
    } else if name == "_%_"@ {
        Some(Operator::Modulo)
    } else if name == "-_"@ {
        Some(Operator::Negate)
    } else if name == "_[_]"@ {
        Some(Operator::Index)
    } else if name == "_[?_]"@ {
        Some(Operator::OptIndex)
    } else if name == "_?._"@ {
        Some(Operator::OptSelect)
    } else if name == "@in"@ {
        Some(Operator::In)
    } else if name == "@not_strictly_false"@ {
        Some(Operator::NotStrictlyFalse)
    } else {
        None
    }
}

/// The operator that a function name stands for.
pub fn operator_named(name: &str) -> (r: Option<Operator>)
    ensures
        r == operator_of(name@),
{
    if strings::str_eq(name, "_?_:_") {
        Some(Operator::Conditional)
    } else if strings::str_eq(name, "_&&_") {
        Some(Operator::LogicalAnd)
    } else if strings::str_eq(name, "_||_") {
        Some(Operator::LogicalOr)
    } else if strings::str_eq(name, "!_") {
        Some(Operator::LogicalNot)
    } else if strings::str_eq(name, "_==_") {
        Some(Operator::Equals)
    } else if strings::str_eq(name, "_!=_") {
        Some(Operator::NotEquals)
    } else if strings::str_eq(name, "_<_") {
        Some(Operator::Less)
    } else if strings::str_eq(name, "_<=_") {
        Some(Operator::LessEquals)
    } else if strings::str_eq(name, "_>_") {
        Some(Operator::Greater)
    } else if strings::str_eq(name, "_>=_") {
        Some(Operator::GreaterEquals)
    } else if strings::str_eq(name, "_+_") {
        Some(Operator::Add)
    } else if strings::str_eq(name, "_-_") {
        Some(Operator::Substract)
    } else if strings::str_eq(name, "_*_") {
        Some(Operator::Multiply)
    } else if strings::str_eq(name, "_/_") {
        Some(Operator::Divide)
    } else if strings::str_eq(name, "_%_") {
        Some(Operator::Modulo)
    } else if strings::str_eq(name, "-_") {
        Some(Operator::Negate)
    } else if strings::str_eq(name, "_[_]") {
        Some(Operator::Index)
    } else if strings::str_eq(name, "_[?_]") {
        Some(Operator::OptIndex)
    } else if strings::str_eq(name, "_?._") {
        Some(Operator::OptSelect)
    } else if strings::str_eq(name, "@in") {
        Some(Operator::In)
    } else if strings::str_eq(name, "@not_strictly_false") {
        Some(Operator::NotStrictlyFalse)
    } else {
        None
    }
}

} // verus!
