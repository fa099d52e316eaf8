//! The instructions of the register machines, and the programs made of them.

use crate::objects;
use crate::objects::{Val, Value};
use vstd::prelude::*;

verus! {

/// An instruction. The register that it writes comes first, where it writes one.
#[derive(Clone, Copy, Debug, PartialEq, Eq, Structural)]
pub enum RegInstr {
    /// The register that holds the result.
    Halt(u8),
    LoadVar(u8, u16),
    LoadConst(u8, u16),
    LoadConstInt(u8, i64),
    LoadConstBool(u8, bool),
    Move(u8, u8),
    Add(u8, u8, u8),
    Sub(u8, u8, u8),
    Mul(u8, u8, u8),
    Div(u8, u8, u8),
    Mod(u8, u8, u8),
    Neg(u8, u8),
    AddInt(u8, u8, u8),
    SubInt(u8, u8, u8),
    MulInt(u8, u8, u8),
    DivInt(u8, u8, u8),
    ModInt(u8, u8, u8),
    NegInt(u8, u8),
    Eq(u8, u8, u8),
    Ne(u8, u8, u8),
    Lt(u8, u8, u8),
    Le(u8, u8, u8),
    Gt(u8, u8, u8),
    Ge(u8, u8, u8),
    /// A comparison of a register with an integer.
    EqIntConst(u8, u8, i64),
    NeIntConst(u8, u8, i64),
    LtIntConst(u8, u8, i64),
    LeIntConst(u8, u8, i64),
    GtIntConst(u8, u8, i64),
    GeIntConst(u8, u8, i64),
    /// A comparison of a register with a constant that is a string.
    EqStrConst(u8, u8, u16),
    /// Whether a register is among the items of a constant.
    InIntSet(u8, u8, u16),
    InStrSet(u8, u8, u16),
    Not(u8, u8),
    LogicalAnd(u8, u8, u8),
    LogicalOr(u8, u8, u8),
    And(u8, u8, u8),
    Or(u8, u8, u8),
    Jump(i16),
    JumpIfFalse(u8, i16),
    JumpIfTrue(u8, i16),
    /// The object's register and the field's constant.
    Select(u8, u8, u16),
    HasField(u8, u8, u16),
    Index(u8, u8, u8),
    In(u8, u8, u8),
    /// A builtin function and the number of its arguments, which stand in the registers
    /// after the one that it writes.
    Call(u8, u16, u16),
    Size(u8, u8),
}

/// A compiled program.
#[derive(Debug)]
pub struct RegProgram {
    pub constants: Vec<Value>,
    pub var_names: Vec<String>,
    pub instructions: Vec<RegInstr>,
}

/// What a [`RegProgram`] stands for.
#[verifier::ext_equal]
pub struct RegCode {
    pub constants: Seq<Val>,
    pub var_names: Seq<Seq<char>>,
    pub instructions: Seq<RegInstr>,
}

impl View for RegProgram {
    type V = RegCode;

    open spec fn view(&self) -> RegCode {
        RegCode {
            constants: objects::values_view(self.constants@),
            var_names: objects::texts(self.var_names@),
            instructions: self.instructions@,
        }
    }
}

impl RegProgram {
    /// The names of the variables, in the order of their indices.
    pub fn var_names(&self) -> (r: &[String])
        ensures
            objects::texts(r@) == self@.var_names,
    {
        self.var_names.as_slice()
    }
}

impl Clone for RegProgram {
    fn clone(&self) -> (r: RegProgram)
        ensures
            r@ == self@,
    {
        let constants = objects::clone_values(self.constants.as_slice());
        let mut var_names: Vec<String> = Vec::new();
        let mut i: usize = 0;
        while i < self.var_names.len()
            invariant
                i <= self.var_names@.len(),
                var_names@.len() == i,
                forall|j: int| 0 <= j < i ==> (#[trigger] var_names@[j])@ == self.var_names@[j]@,
            decreases self.var_names@.len() - i,
        {
            var_names.push(self.var_names[i].clone());
            i += 1;
        }
        assert(objects::texts(var_names@) =~= objects::texts(self.var_names@));
        let mut instructions: Vec<RegInstr> = Vec::new();
        let mut j: usize = 0;
        while j < self.instructions.len()
            invariant
                j <= self.instructions@.len(),
                instructions@ == self.instructions@.subrange(0, j as int),
            decreases self.instructions@.len() - j,
        {
            instructions.push(self.instructions[j]);
            j += 1;
            assert(instructions@ =~= self.instructions@.subrange(0, j as int));
        }
        let r = RegProgram { constants, var_names, instructions };
        assert(r@ =~= self@);
        r
    }
}

} // verus!
