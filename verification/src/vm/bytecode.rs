//! The instructions of the stack machine, and the programs made of them.

use crate::objects;
use crate::objects::{Val, Value};
use crate::patterns;
use crate::patterns::CompiledRegex;
use std::sync::Arc;
use vstd::prelude::*;

verus! {

/// An instruction. Operands that are indices are written behind it.
#[derive(Clone, Copy, Debug, PartialEq, Eq, Structural)]
pub enum Instr {
    Halt,
    PushConst(u16),
    LoadVar(u16),
    Pop,
    Return,
    Jump(i16),
    JumpIfFalse(i16),
    JumpIfTrue(i16),
    JumpIfFalseKeep(i16),
    JumpIfTrueKeep(i16),
    Add,
    Sub,
    Mul,
    Div,
    Mod,
    Neg,
    Eq,
    Ne,
    Lt,
    Le,
    Gt,
    Ge,
    Not,
    In,
    LogicalAnd,
    LogicalOr,
    Index,
    BuildList(u16),
    BuildMap(u16),
    /// The field's name is a constant.
    Select(u16),
    HasField(u16),
    /// Variable and field: a load and a select in one.
    LoadVarSelect(u16, u16),
    LoadVarHasField(u16, u16),
    /// Variable and constant: a load, a constant and a comparison in one.
    LoadVarEqConst(u16, u16),
    LoadVarNeConst(u16, u16),
    LoadVarLtConst(u16, u16),
    LoadVarLeConst(u16, u16),
    LoadVarGtConst(u16, u16),
    LoadVarGeConst(u16, u16),
    /// Variable and constant: the comparison is the program's result.
    ReturnEqConst(u16, u16),
    ReturnNeConst(u16, u16),
    ReturnLtConst(u16, u16),
    ReturnLeConst(u16, u16),
    ReturnGtConst(u16, u16),
    ReturnGeConst(u16, u16),
    /// A builtin function and the number of its arguments.
    Call(u16, u16),
    Size,
    /// A regular expression of the pool, matched against the top of the stack.
    MatchesCompiled(u16),
    IterInit,
    /// How far to jump when the items are used up.
    IterNext(i16),
    IterPop,
    /// A constant as the accumulator's first value, or the top of the stack.
    AccuPush(u16),
    AccuSet,
}

/// The index that stands for the item of the current round.
pub const IDX_ITER_ELEM: u16 = 0xFFFE;

/// The index that stands for the accumulator.
pub const IDX_ACCU: u16 = 0xFFFF;

/// A compiled program.
#[derive(Debug)]
pub struct Program {
    pub constants: Vec<Value>,
    pub var_names: Vec<String>,
    pub instructions: Vec<Instr>,
    pub regex_pool: Vec<Arc<CompiledRegex>>,
}

/// What a [`Program`] stands for.
pub struct Code {
    pub constants: Seq<Val>,
    pub var_names: Seq<Seq<char>>,
    pub instructions: Seq<Instr>,
    pub regexes: Seq<Seq<char>>,
}

impl View for Program {
    type V = Code;

    open spec fn view(&self) -> Code {
        Code {
            constants: objects::values_view(self.constants@),
            var_names: objects::texts(self.var_names@),
            instructions: self.instructions@,
            regexes: self.regex_pool@.map_values(|r: Arc<CompiledRegex>| r@),
        }
    }
}

impl Program {
    /// The names of the variables, in the order of their indices.
    pub fn var_names(&self) -> (r: &[String])
        ensures
            objects::texts(r@) == self@.var_names,
    {
        self.var_names.as_slice()
    }

    /// Compiles a regular expression into the pool, and gives its index; there is none where
    /// the pattern is not valid.
    pub fn add_regex(&mut self, pattern: &str) -> (r: Option<usize>)
        ensures
            r is Some == patterns::regex_valid(pattern@),
            match r {
                Some(i) => {
                    &&& i == old(self)@.regexes.len()
                    &&& final(self)@.regexes == old(self)@.regexes.push(pattern@)
                    &&& final(self)@ == (Code { regexes: final(self)@.regexes, ..old(self)@ })
                },
                None => *final(self) == *old(self),
            },
    {
        let ghost before = self@;
        match CompiledRegex::new(pattern) {
            Some(regex) => {
                let i = self.regex_pool.len();
                self.regex_pool.push(Arc::new(regex));
                assert(self@.regexes =~= before.regexes.push(pattern@));
                Some(i)
            },
            None => None,
        }
    }
}

} // verus!
