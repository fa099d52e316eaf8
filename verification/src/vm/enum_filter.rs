//! Register programs as filters in the shape of a tree.

use crate::error;
use crate::error::{ExecutionError, Fault, HostTable, Outcome, Req};
use crate::objects;
use crate::objects::{Val, Value};
use crate::strings;
use crate::vm::reg_bytecode::{RegCode, RegInstr, RegProgram};
use crate::vm::reg_compiler;
use crate::vm::reg_fast_vm;
use crate::vm::reg_fast_vm::{RegFastState, FAST_REGISTERS};
use vstd::prelude::*;

verus! {

/// A filter. Common small programs have forms of their own, which read one register.
#[allow(inconsistent_fields)]
#[derive(Debug)]
pub enum EnumFilter {
    EqIntConst { src: u8, val: i64 },
    NeIntConst { src: u8, val: i64 },
    LtIntConst { src: u8, val: i64 },
    LeIntConst { src: u8, val: i64 },
    GtIntConst { src: u8, val: i64 },
    GeIntConst { src: u8, val: i64 },
    EqStrConst { src: u8, expected: String },
    /// A string of at most eight bytes.
    InlineStrConst { src: u8, expected: String },
    /// A longer string.
    StringConstRaw { src: u8, expected: String },
    InIntSet { src: u8, values: Vec<i64> },
    InStrSet { src: u8, values: Vec<String> },
    /// A register lies between two integers.
    AndGeLeIntConst { src: u8, lo: i64, hi: i64 },
    AndBox(Box<EnumFilter>, Box<EnumFilter>),
    OrBox(Box<EnumFilter>, Box<EnumFilter>),
    /// Any other program.
    Generic(RegProgram),
}

/// How a register is compared with an integer.
#[derive(Clone, Copy, Debug, PartialEq, Eq, Structural)]
pub enum IntRel {
    Eq,
    Ne,
    Lt,
    Le,
    Gt,
    Ge,
}

pub open spec fn rel_holds(rel: IntRel, i: i64, k: i64) -> bool {
    match rel {
        IntRel::Eq => i == k,
        IntRel::Ne => i != k,
        IntRel::Lt => i < k,
        IntRel::Le => i <= k,
        IntRel::Gt => i > k,
        IntRel::Ge => i >= k,
    }
}

/// What an [`EnumFilter`] stands for.
pub enum EnumModel {
    IntConst(IntRel, u8, i64),
    StrConst(u8, Seq<char>),
    InIntSet(u8, Seq<i64>),
    InStrSet(u8, Seq<Seq<char>>),
    Between(u8, i64, i64),
    And(Box<EnumModel>, Box<EnumModel>),
    Or(Box<EnumModel>, Box<EnumModel>),
    Generic(RegCode),
}

pub open spec fn filter_view(f: EnumFilter) -> EnumModel
    decreases f,
{
    match f {
        EnumFilter::EqIntConst { src, val } => EnumModel::IntConst(IntRel::Eq, src, val),
        EnumFilter::NeIntConst { src, val } => EnumModel::IntConst(IntRel::Ne, src, val),
        EnumFilter::LtIntConst { src, val } => EnumModel::IntConst(IntRel::Lt, src, val),
        EnumFilter::LeIntConst { src, val } => EnumModel::IntConst(IntRel::Le, src, val),
        EnumFilter::GtIntConst { src, val } => EnumModel::IntConst(IntRel::Gt, src, val),
        EnumFilter::GeIntConst { src, val } => EnumModel::IntConst(IntRel::Ge, src, val),
        EnumFilter::EqStrConst { src, expected } => EnumModel::StrConst(src, expected@),
        EnumFilter::InlineStrConst { src, expected } => EnumModel::StrConst(src, expected@),
        EnumFilter::StringConstRaw { src, expected } => EnumModel::StrConst(src, expected@),
        EnumFilter::InIntSet { src, values } => EnumModel::InIntSet(src, values@),
        EnumFilter::InStrSet { src, values } => EnumModel::InStrSet(src, objects::texts(values@)),
        EnumFilter::AndGeLeIntConst { src, lo, hi } => EnumModel::Between(src, lo, hi),
        EnumFilter::AndBox(a, b) => EnumModel::And(
            Box::new(filter_view(*a)),
            Box::new(filter_view(*b)),
        ),
        EnumFilter::OrBox(a, b) => EnumModel::Or(
            Box::new(filter_view(*a)),
            Box::new(filter_view(*b)),
        ),
        EnumFilter::Generic(p) => EnumModel::Generic(p@),
    }
}

impl View for EnumFilter {
    type V = EnumModel;

    open spec fn view(&self) -> EnumModel {
        filter_view(*self)
    }
}

/// The comparison of an instruction with an integer.
pub open spec fn rel_parts(i: RegInstr) -> Option<(IntRel, u8, u8, i64)> {
    match i {
        RegInstr::EqIntConst(d, s, k) => Some((IntRel::Eq, d, s, k)),
        RegInstr::NeIntConst(d, s, k) => Some((IntRel::Ne, d, s, k)),
        RegInstr::LtIntConst(d, s, k) => Some((IntRel::Lt, d, s, k)),
        RegInstr::LeIntConst(d, s, k) => Some((IntRel::Le, d, s, k)),
        RegInstr::GtIntConst(d, s, k) => Some((IntRel::Gt, d, s, k)),
        RegInstr::GeIntConst(d, s, k) => Some((IntRel::Ge, d, s, k)),
        _ => None,
    }
}

/// The integers of a list that holds nothing else.
pub open spec fn all_ints(v: Val) -> Option<Seq<i64>> {
    match v {
        Val::List(items) => if forall|k: int|
            0 <= k < items.len() ==> (#[trigger] items[k]) is Int {
            Some(items.map_values(|x: Val| x->Int_0))
        } else {
            None
        },
        _ => None,
    }
}

/// The strings of a list that holds nothing else.
pub open spec fn all_texts(v: Val) -> Option<Seq<Seq<char>>> {
    match v {
        Val::List(items) => if forall|k: int|
            0 <= k < items.len() ==> (#[trigger] items[k]) is String {
            Some(items.map_values(|x: Val| x->String_0))
        } else {
            None
        },
        _ => None,
    }
}

/// The form of a program of one instruction and the end.
pub open spec fn pair_form(code: RegCode, i: RegInstr, halt: u8) -> Option<EnumModel> {
    match i {
        RegInstr::EqStrConst(d, s, c) => if d == halt {
            match code.constants[c as int] {
                Val::String(t) => Some(EnumModel::StrConst(s, t)),
                _ => Some(EnumModel::Generic(code)),
            }
        } else {
            None
        },
        RegInstr::InIntSet(d, s, c) => if d == halt {
            match all_ints(code.constants[c as int]) {
                Some(ints) => Some(EnumModel::InIntSet(s, ints)),
                None => Some(EnumModel::Generic(code)),
            }
        } else {
            None
        },
        RegInstr::InStrSet(d, s, c) => if d == halt {
            match all_texts(code.constants[c as int]) {
                Some(texts) => Some(EnumModel::InStrSet(s, texts)),
                None => Some(EnumModel::Generic(code)),
            }
        } else {
            None
        },
        _ => match rel_parts(i) {
            Some((rel, d, s, k)) => if d == halt {
                Some(EnumModel::IntConst(rel, s, k))
            } else {
                None
            },
            None => None,
        },
    }
}

/// The form of a program that tests whether a register lies between two integers.
pub open spec fn range_form(s: Seq<RegInstr>) -> Option<EnumModel> {
    if s.len() == 4 {
        match (s[0], s[1], s[2], s[3]) {
            (
                RegInstr::GeIntConst(r1, s1, lo),
                RegInstr::LeIntConst(r2, s2, hi),
                RegInstr::And(d, a, b),
                RegInstr::Halt(h),
            ) => if r1 == a && r2 == b && d == h && s1 == s2 {
                Some(EnumModel::Between(s1, lo, hi))
            } else {
                None
            },
            _ => None,
        }
    } else {
        None
    }
}

/// A program that ends with a conjunction.
pub open spec fn ends_with_and(s: Seq<RegInstr>) -> bool {
    &&& s.len() >= 2
    &&& s[s.len() - 2] matches RegInstr::And(d, _, _)
    &&& s[s.len() - 1] matches RegInstr::Halt(h)
    &&& d == h
}

/// The form of a run of a program's instructions. Both sides of a conjunction are formed
/// from what comes before it.
pub open spec fn form(code: RegCode, s: Seq<RegInstr>) -> EnumModel
    decreases s.len(),
{
    if s.len() == 2 && s[1] is Halt && pair_form(code, s[0], s[1]->Halt_0) is Some {
        pair_form(code, s[0], s[1]->Halt_0)->Some_0
    } else if range_form(s) is Some {
        range_form(s)->Some_0
    } else if ends_with_and(s) && s.len() >= 4 {
        let part = form(code, s.subrange(0, s.len() - 2));
        EnumModel::And(Box::new(part), Box::new(part))
    } else {
        EnumModel::Generic(code)
    }
}

/// The constants that the instructions name are there.
pub open spec fn constants_there(code: RegCode, s: Seq<RegInstr>) -> bool {
    forall|k: int|
        0 <= k < s.len() ==> match #[trigger] s[k] {
            RegInstr::EqStrConst(_, _, c) | RegInstr::InIntSet(_, _, c)
            | RegInstr::InStrSet(_, _, c) => c < code.constants.len(),
            _ => true,
        }
}

fn rel_of(i: RegInstr) -> (r: Option<(IntRel, u8, u8, i64)>)
    ensures
        r == rel_parts(i),
{
    match i {
        RegInstr::EqIntConst(d, s, k) => Some((IntRel::Eq, d, s, k)),
        RegInstr::NeIntConst(d, s, k) => Some((IntRel::Ne, d, s, k)),
        RegInstr::LtIntConst(d, s, k) => Some((IntRel::Lt, d, s, k)),
        RegInstr::LeIntConst(d, s, k) => Some((IntRel::Le, d, s, k)),
        RegInstr::GtIntConst(d, s, k) => Some((IntRel::Gt, d, s, k)),
        RegInstr::GeIntConst(d, s, k) => Some((IntRel::Ge, d, s, k)),
        _ => None,
    }
}

fn ints_of(v: &Value) -> (r: Option<Vec<i64>>)
    ensures
        match r {
            Some(ints) => all_ints(v@) == Some(ints@),
            None => all_ints(v@) is None,
        },
{
    broadcast use objects::group_value_views;

    match v {
        Value::List(items) => {
            let ghost vs = objects::values_view(items@);
            let mut out: Vec<i64> = Vec::new();
            let mut i: usize = 0;
            while i < items.len()
                invariant
                    i <= items@.len(),
                    vs == objects::values_view(items@),
                    v@ == Val::List(vs),
                    out@.len() == i,
                    forall|k: int| 0 <= k < i ==> #[trigger] vs[k] == Val::Int(out@[k]),
                decreases items@.len() - i,
            {
                assert(vs[i as int] == items@[i as int]@);
                match &items[i] {
                    Value::Int(n) => {
                        out.push(*n);
                    },
                    _ => {
                        assert(!(vs[i as int] is Int));
                        return None;
                    },
                }
                i += 1;
            }
            assert(out@ =~= vs.map_values(|x: Val| x->Int_0));
            Some(out)
        },
        _ => None,
    }
}

fn texts_of(v: &Value) -> (r: Option<Vec<String>>)
    ensures
        match r {
            Some(t) => all_texts(v@) == Some(objects::texts(t@)),
            None => all_texts(v@) is None,
        },
{
    broadcast use objects::group_value_views;

    match v {
        Value::List(items) => {
            let ghost vs = objects::values_view(items@);
            let mut out: Vec<String> = Vec::new();
            let mut i: usize = 0;
            while i < items.len()
                invariant
                    i <= items@.len(),
                    vs == objects::values_view(items@),
                    v@ == Val::List(vs),
                    out@.len() == i,
                    forall|k: int| 0 <= k < i ==> #[trigger] vs[k] == Val::String(out@[k]@),
                decreases items@.len() - i,
            {
                assert(vs[i as int] == items@[i as int]@);
                match &items[i] {
                    Value::String(n) => {
                        out.push(n.as_str().to_owned());
                    },
                    _ => {
                        assert(!(vs[i as int] is String));
                        return None;
                    },
                }
                i += 1;
            }
            assert(objects::texts(out@) =~= vs.map_values(|x: Val| x->String_0));
            Some(out)
        },
        _ => None,
    }
}

fn int_filter(rel: IntRel, src: u8, val: i64) -> (r: EnumFilter)
    ensures
        r@ == EnumModel::IntConst(rel, src, val),
{
    match rel {
        IntRel::Eq => EnumFilter::EqIntConst { src, val },
        IntRel::Ne => EnumFilter::NeIntConst { src, val },
        IntRel::Lt => EnumFilter::LtIntConst { src, val },
        IntRel::Le => EnumFilter::LeIntConst { src, val },
        IntRel::Gt => EnumFilter::GtIntConst { src, val },
        IntRel::Ge => EnumFilter::GeIntConst { src, val },
    }
}

fn pair_filter(program: &RegProgram, i: RegInstr, halt: u8) -> (r: Option<EnumFilter>)
    requires
        constants_there(program@, seq![i]),
    ensures
        match r {
            Some(f) => pair_form(program@, i, halt) == Some(f@),
            None => pair_form(program@, i, halt) is None,
        },
{
    assert(seq![i][0] == i);
    match i {
        RegInstr::EqStrConst(d, s, c) => {
            if d == halt {
                match &program.constants[c as usize] {
                    Value::String(t) => {
                        if strings::str_byte_len(t.as_str()) <= 8 {
                            Some(EnumFilter::InlineStrConst { src: s, expected: t.as_str().to_owned() })
                        } else {
                            Some(EnumFilter::StringConstRaw { src: s, expected: t.as_str().to_owned() })
                        }
                    },
                    _ => Some(EnumFilter::Generic(program.clone())),
                }
            } else {
                None
            }
        },
        RegInstr::InIntSet(d, s, c) => {
            if d == halt {
                match ints_of(&program.constants[c as usize]) {
                    Some(values) => Some(EnumFilter::InIntSet { src: s, values }),
                    None => Some(EnumFilter::Generic(program.clone())),
                }
            } else {
                None
            }
        },
        RegInstr::InStrSet(d, s, c) => {
            if d == halt {
                match texts_of(&program.constants[c as usize]) {
                    Some(values) => Some(EnumFilter::InStrSet { src: s, values }),
                    None => Some(EnumFilter::Generic(program.clone())),
                }
            } else {
                None
            }
        },
        _ => match rel_of(i) {
            Some((rel, d, s, k)) => if d == halt {
                Some(int_filter(rel, s, k))
            } else {
                None
            },
            None => None,
        },
    }
}

fn range_filter(s: &[RegInstr]) -> (r: Option<EnumFilter>)
    ensures
        match r {
            Some(f) => range_form(s@) == Some(f@),
            None => range_form(s@) is None,
        },
{
    if s.len() == 4 {
        match (s[0], s[1], s[2], s[3]) {
            (
                RegInstr::GeIntConst(r1, s1, lo),
                RegInstr::LeIntConst(r2, s2, hi),
                RegInstr::And(d, a, b),
                RegInstr::Halt(h),
            ) => if r1 == a && r2 == b && d == h && s1 == s2 {
                Some(EnumFilter::AndGeLeIntConst { src: s1, lo, hi })
            } else {
                None
            },
            _ => None,
        }
    } else {
        None
    }
}

fn ends_in_and(s: &[RegInstr]) -> (r: bool)
    ensures
        r == ends_with_and(s@),
{
    let n = s.len();
    if n < 2 {
        return false;
    }
    match (s[n - 2], s[n - 1]) {
        (RegInstr::And(d, _, _), RegInstr::Halt(h)) => d == h,
        _ => false,
    }
}

/// What evaluating a filter costs: a comparison one, a string or a range two, a set by its
/// size up to a bound, a conjunction the sum, anything else the most.
pub open spec fn cost_of(f: EnumModel) -> int
    decreases f,
{
    match f {
        EnumModel::IntConst(_, _, _) => 1,
        EnumModel::StrConst(_, _) => 2,
        EnumModel::Between(_, _, _) => 2,
        EnumModel::InIntSet(_, values) => if 2 + values.len() % 256 <= 10 {
            (2 + values.len() % 256) as int
        } else {
            10
        },
        EnumModel::InStrSet(_, values) => if 3 + values.len() % 256 <= 15 {
            (3 + values.len() % 256) as int
        } else {
            15
        },
        EnumModel::And(a, b) => if cost_of(*a) + cost_of(*b) <= 255 {
            cost_of(*a) + cost_of(*b)
        } else {
            255
        },
        EnumModel::Or(a, b) => if cost_of(*a) + cost_of(*b) <= 255 {
            cost_of(*a) + cost_of(*b)
        } else {
            255
        },
        EnumModel::Generic(_) => 255,
    }
}

/// How many programs a filter may run.
pub open spec fn programs(f: EnumModel) -> nat
    decreases f,
{
    match f {
        EnumModel::And(a, b) => programs(*a) + programs(*b),
        EnumModel::Or(a, b) => programs(*a) + programs(*b),
        EnumModel::Generic(_) => 1,
        _ => 0,
    }
}

/// What a filter gives on registers, and the registers then, where each of its programs
/// ends within a number of steps.
pub open spec fn filter_run(
    f: EnumModel,
    regs: Seq<Val>,
    host: Seq<(Req, Outcome)>,
    limit: nat,
) -> Option<(Outcome, Seq<Val>)>
    decreases f,
{
    match f {
        EnumModel::IntConst(rel, s, k) => if s < regs.len() {
            Some(
                (
                    Ok(Val::Bool(regs[s as int] matches Val::Int(i) && rel_holds(rel, i, k))),
                    regs,
                ),
            )
        } else {
            None
        },
        EnumModel::StrConst(s, t) => if s < regs.len() {
            Some((Ok(Val::Bool(regs[s as int] == Val::String(t))), regs))
        } else {
            None
        },
        EnumModel::InIntSet(s, ints) => if s < regs.len() {
            Some(
                (Ok(Val::Bool(regs[s as int] matches Val::Int(i) && ints.contains(i))), regs),
            )
        } else {
            None
        },
        EnumModel::InStrSet(s, texts) => if s < regs.len() {
            Some(
                (Ok(Val::Bool(regs[s as int] matches Val::String(t) && texts.contains(t))), regs),
            )
        } else {
            None
        },
        EnumModel::Between(s, lo, hi) => if s < regs.len() {
            Some((Ok(Val::Bool(regs[s as int] matches Val::Int(i) && lo <= i <= hi)), regs))
        } else {
            None
        },
        EnumModel::And(a, b) => match filter_run(*a, regs, host, limit) {
            Some((Ok(Val::Bool(true)), next)) => filter_run(*b, next, host, limit),
            o => o,
        },
        EnumModel::Or(a, b) => match filter_run(*a, regs, host, limit) {
            Some((Ok(v), next)) => if v == Val::Bool(true) {
                Some((Ok(v), next))
            } else {
                filter_run(*b, next, host, limit)
            },
            o => o,
        },
        EnumModel::Generic(code) => reg_fast_vm::run_fast(0, regs, code, host, limit),
    }
}

/// The number of steps that each program of a filter may take, where the filter has room.
pub open spec fn share(f: EnumModel, room: nat) -> nat {
    if programs(f) == 0 {
        0
    } else {
        room / programs(f)
    }
}

impl EnumFilter {
    /// The filter of a program.
    pub fn compile(program: &RegProgram) -> (r: EnumFilter)
        requires
            constants_there(program@, program@.instructions),
        ensures
            r@ == form(program@, program@.instructions),
    {
        Self::compile_inner(program, program.instructions.as_slice())
    }

    fn compile_inner(program: &RegProgram, code: &[RegInstr]) -> (r: EnumFilter)
        requires
            constants_there(program@, code@),
        ensures
            r@ == form(program@, code@),
        decreases code@.len(),
    {
        let n = code.len();
        if n == 2 {
            match code[1] {
                RegInstr::Halt(halt) => {
                    assert(code@[0] == code[0]);
                    match pair_filter(program, code[0], halt) {
                        Some(f) => {
                            return f;
                        },
                        None => {},
                    }
                },
                _ => {},
            }
        }
        match range_filter(code) {
            Some(f) => {
                return f;
            },
            None => {},
        }
        if ends_in_and(code) && n >= 4 {
            let part = vstd::slice::slice_subrange(code, 0, n - 2);
            assert(constants_there(program@, part@)) by {
                assert forall|k: int| 0 <= k < part@.len() implies match #[trigger] part@[k] {
                    RegInstr::EqStrConst(_, _, c) | RegInstr::InIntSet(_, _, c)
                    | RegInstr::InStrSet(_, _, c) => c < program@.constants.len(),
                    _ => true,
                } by {
                    assert(part@[k] == code@[k]);
                }
            }
            let left = Self::compile_inner(program, part);
            let right = Self::compile_inner(program, part);
            if left.cost() <= right.cost() {
                EnumFilter::AndBox(Box::new(left), Box::new(right))
            } else {
                EnumFilter::AndBox(Box::new(right), Box::new(left))
            }
        } else {
            EnumFilter::Generic(program.clone())
        }
    }

    fn cost(&self) -> (r: u8)
        ensures
            r == cost_of(self@),
        decreases self,
    {
        match self {
            EnumFilter::EqIntConst { .. } | EnumFilter::NeIntConst { .. }
            | EnumFilter::LtIntConst { .. } | EnumFilter::LeIntConst { .. }
            | EnumFilter::GtIntConst { .. } | EnumFilter::GeIntConst { .. } => 1,
            EnumFilter::InlineStrConst { .. } => 2,
            EnumFilter::EqStrConst { .. } | EnumFilter::StringConstRaw { .. } => 2,
            EnumFilter::AndGeLeIntConst { .. } => 2,
            EnumFilter::InIntSet { values, .. } => {
                let n = values.len() % 256;
                if n <= 8 {
                    2 + n as u8
                } else {
                    10
                }
            },
            EnumFilter::InStrSet { values, .. } => {
                let n = values.len() % 256;
                if n <= 12 {
                    3 + n as u8
                } else {
                    15
                }
            },
            EnumFilter::AndBox(l, r) => {
                let a = l.cost();
                let b = r.cost();
                if a <= 255 - b {
                    a + b
                } else {
                    255
                }
            },
            EnumFilter::OrBox(l, r) => {
                let a = l.cost();
                let b = r.cost();
                if a <= 255 - b {
                    a + b
                } else {
                    255
                }
            },
            EnumFilter::Generic(_) => 255,
        }
    }
}

fn rel_test(rel: IntRel, i: i64, k: i64) -> (r: bool)
    ensures
        r == rel_holds(rel, i, k),
{
    match rel {
        IntRel::Eq => i == k,
        IntRel::Ne => i != k,
        IntRel::Lt => i < k,
        IntRel::Le => i <= k,
        IntRel::Gt => i > k,
        IntRel::Ge => i >= k,
    }
}

fn int_at_is(state: &RegFastState, rel: IntRel, src: u8, k: i64) -> (r: bool)
    requires
        state.wf(),
        src < FAST_REGISTERS,
    ensures
        r == (state@[src as int] matches Val::Int(i) && rel_holds(rel, i, k)),
{
    match state.int_at(src) {
        Some(i) => rel_test(rel, i, k),
        None => false,
    }
}

fn int_at_among(state: &RegFastState, src: u8, values: &Vec<i64>) -> (r: bool)
    requires
        state.wf(),
        src < FAST_REGISTERS,
    ensures
        r == (state@[src as int] matches Val::Int(i) && values@.contains(i)),
{
    match state.int_at(src) {
        Some(n) => {
            let mut i: usize = 0;
            while i < values.len()
                invariant
                    i <= values@.len(),
                    state@[src as int] == Val::Int(n),
                    forall|k: int| 0 <= k < i ==> #[trigger] values@[k] != n,
                decreases values@.len() - i,
            {
                if values[i] == n {
                    assert(values@.contains(n));
                    return true;
                }
                i += 1;
            }
            false
        },
        None => false,
    }
}

fn str_at_among(state: &RegFastState, src: u8, values: &Vec<String>) -> (r: bool)
    requires
        state.wf(),
        src < FAST_REGISTERS,
    ensures
        r == (state@[src as int] matches Val::String(t) && objects::texts(values@).contains(t)),
{
    match state.value_at(src) {
        Value::String(t) => {
            let ghost ts = objects::texts(values@);
            let mut i: usize = 0;
            while i < values.len()
                invariant
                    i <= values@.len(),
                    ts == objects::texts(values@),
                    state@[src as int] == Val::String(t@),
                    forall|k: int| 0 <= k < i ==> #[trigger] ts[k] != t@,
                decreases values@.len() - i,
            {
                assert(ts[i as int] == values@[i as int]@);
                if strings::str_eq(values[i].as_str(), t.as_str()) {
                    assert(ts.contains(t@));
                    return true;
                }
                i += 1;
            }
            false
        },
        _ => false,
    }
}

impl EnumFilter {
    fn run(&self, state: &mut RegFastState, host: &HostTable, limit: Ghost<nat>) -> (r: Result<
        Value,
        ExecutionError,
    >)
        requires
            old(state).wf(),
            programs(self@) * limit@ <= old(state).room(),
            filter_run(self@, old(state)@, host@, limit@) is Some,
        ensures
            final(state).wf(),
            final(state).room() + programs(self@) * limit@ >= old(state).room(),
            filter_run(self@, old(state)@, host@, limit@) == Some(
                (error::outcome(r), final(state)@),
            ),
        decreases self,
    {
        proof {
            state.law_registers();
        }
        match self {
            EnumFilter::EqIntConst { src, val } => Ok(
                Value::Bool(int_at_is(state, IntRel::Eq, *src, *val)),
            ),
            EnumFilter::NeIntConst { src, val } => Ok(
                Value::Bool(int_at_is(state, IntRel::Ne, *src, *val)),
            ),
            EnumFilter::LtIntConst { src, val } => Ok(
                Value::Bool(int_at_is(state, IntRel::Lt, *src, *val)),
            ),
            EnumFilter::LeIntConst { src, val } => Ok(
                Value::Bool(int_at_is(state, IntRel::Le, *src, *val)),
            ),
            EnumFilter::GtIntConst { src, val } => Ok(
                Value::Bool(int_at_is(state, IntRel::Gt, *src, *val)),
            ),
            EnumFilter::GeIntConst { src, val } => Ok(
                Value::Bool(int_at_is(state, IntRel::Ge, *src, *val)),
            ),
            EnumFilter::EqStrConst { src, expected } | EnumFilter::InlineStrConst { src, expected }
            | EnumFilter::StringConstRaw { src, expected } => Ok(
                Value::Bool(state.is_str_at(*src, expected.as_str())),
            ),
            EnumFilter::InIntSet { src, values } => Ok(
                Value::Bool(int_at_among(state, *src, values)),
            ),
            EnumFilter::InStrSet { src, values } => Ok(
                Value::Bool(str_at_among(state, *src, values)),
            ),
            EnumFilter::AndGeLeIntConst { src, lo, hi } => Ok(
                Value::Bool(
                    match state.int_at(*src) {
                        Some(i) => i >= *lo && i <= *hi,
                        None => false,
                    },
                ),
            ),
            EnumFilter::AndBox(a, b) => {
                let ghost na = programs(a@);
                let ghost nb = programs(b@);
                assert((na + nb) * limit@ == na * limit@ + nb * limit@) by (nonlinear_arith);
                match a.run(state, host, limit) {
                    Ok(Value::Bool(true)) => b.run(state, host, limit),
                    o => o,
                }
            },
            EnumFilter::OrBox(a, b) => {
                let ghost na = programs(a@);
                let ghost nb = programs(b@);
                assert((na + nb) * limit@ == na * limit@ + nb * limit@) by (nonlinear_arith);
                match a.run(state, host, limit) {
                    Ok(Value::Bool(true)) => Ok(Value::Bool(true)),
                    Ok(_) => b.run(state, host, limit),
                    Err(e) => Err(e),
                }
            },
            EnumFilter::Generic(program) => {
                assert(programs(self@) * limit@ == limit@) by (nonlinear_arith)
                    requires
                        programs(self@) == 1,
                ;
                proof {
                    reg_fast_vm::law_run_stable(
                        0,
                        state@,
                        program@,
                        host@,
                        limit@,
                        state.room(),
                    );
                    assert(reg_fast_vm::halts_within(state@, program@, host@, limit@));
                }
                reg_fast_vm::eval_reg_fast(program, state, host)
            },
        }
    }

    /// Evaluates the filter on registers. Its programs share the room for values.
    pub fn eval(&self, state: &mut RegFastState, host: &HostTable) -> (r: Result<
        Value,
        ExecutionError,
    >)
        requires
            old(state).wf(),
            filter_run(self@, old(state)@, host@, share(self@, old(state).room())) is Some,
        ensures
            final(state).wf(),
            filter_run(self@, old(state)@, host@, share(self@, old(state).room())) == Some(
                (error::outcome(r), final(state)@),
            ),
    {
        let ghost limit = share(self@, state.room());
        proof {
            let p = programs(self@);
            let room = state.room();
            if p == 0 {
                assert(p * limit == 0) by (nonlinear_arith)
                    requires
                        p == 0,
                ;
            } else {
                assert(p * (room / p) <= room) by (nonlinear_arith)
                    requires
                        p > 0,
                ;
            }
        }
        self.run(state, host, Ghost(limit))
    }
}

/// The end comes last and nowhere else.
pub open spec fn ends_once(s: Seq<RegInstr>) -> bool {
    forall|k: int| 0 <= k < s.len() - 1 ==> !((#[trigger] s[k]) is Halt)
}

/// Where a program's only end is its last instruction, each side of its conjunction is the
/// program itself.
proof fn lemma_sides(code: RegCode, s: Seq<RegInstr>)
    requires
        ends_once(s),
        form(code, s) is And,
    ensures
        form(code, s) == EnumModel::And(
            Box::new(EnumModel::Generic(code)),
            Box::new(EnumModel::Generic(code)),
        ),
{
    let part = s.subrange(0, s.len() - 2);
    assert forall|k: int| 0 <= k < part.len() implies !((#[trigger] part[k]) is Halt) by {
        assert(part[k] == s[k]);
    }
    assert(form(code, part) == EnumModel::Generic(code));
}

/// A program's filter gives what the program gives, where the register that it reads holds a
/// value of the kind that it asks for. The filter of a conjunction runs the program a second
/// time where the first run gave true: it gives what the program gives where the second run
/// gives true as well.
pub proof fn law_filter_agrees(
    code: RegCode,
    regs: Seq<Val>,
    host: Seq<(Req, Outcome)>,
    limit: nat,
)
    requires
        regs.len() == FAST_REGISTERS,
        constants_there(code, code.instructions),
        limit >= 4,
        reg_fast_vm::halts_within(regs, code, host, limit),
        match form(code, code.instructions) {
            EnumModel::IntConst(_, s, _) => s < regs.len() && regs[s as int] is Int,
            EnumModel::Between(s, _, _) => s < regs.len() && regs[s as int] is Int && {
                // the two tests have registers of their own, and leave the one they read
                &&& code.instructions[0]->GeIntConst_0 != s
                &&& code.instructions[0]->GeIntConst_0 != code.instructions[1]->LeIntConst_0
            },
            EnumModel::InIntSet(s, _) => s < regs.len() && regs[s as int] is Int,
            EnumModel::InStrSet(s, _) => s < regs.len() && regs[s as int] is String,
            EnumModel::StrConst(s, _) => s < regs.len(),
            EnumModel::And(_, _) => ends_once(code.instructions) && {
                let first = reg_fast_vm::run_fast(0, regs, code, host, limit)->Some_0;
                first.0 == Ok::<Val, Fault>(Val::Bool(true)) ==> (reg_fast_vm::run_fast(
                    0,
                    first.1,
                    code,
                    host,
                    limit,
                ) matches Some((o, _)) && o == first.0)
            },
            EnumModel::Generic(_) => true,
            EnumModel::Or(_, _) => true,
        },
    ensures
        filter_run(form(code, code.instructions), regs, host, limit) matches Some((o, _)) && o
            == reg_fast_vm::result_within(regs, code, host, limit).0,
{
    let s = code.instructions;
    let f = form(code, s);
    match f {
        EnumModel::Generic(_) => {},
        EnumModel::Or(_, _) => {},
        EnumModel::And(_, _) => {
            let g = EnumModel::Generic(code);
            lemma_sides(code, s);
            let first = reg_fast_vm::run_fast(0, regs, code, host, limit)->Some_0;
            assert(filter_run(g, regs, host, limit) == Some(first));
            assert(filter_run(g, first.1, host, limit) == reg_fast_vm::run_fast(
                0,
                first.1,
                code,
                host,
                limit,
            ));
        },
        EnumModel::Between(r, lo, hi) => {
            let r1 = reg_fast_vm::fast_step(s[0], regs, code, host)->Next_1;
            let r2 = reg_fast_vm::fast_step(s[1], r1, code, host)->Next_1;
            let r3 = reg_fast_vm::fast_step(s[2], r2, code, host)->Next_1;
            assert(reg_fast_vm::fast_step(s[0], regs, code, host) is Next);
            assert(reg_fast_vm::run_fast(1, r1, code, host, (limit - 1) as nat) is Some);
            assert(reg_fast_vm::fast_step(s[1], r1, code, host) is Next);
            assert(reg_fast_vm::run_fast(2, r2, code, host, (limit - 2) as nat) is Some);
            assert(reg_fast_vm::fast_step(s[2], r2, code, host) is Next);
            assert(reg_fast_vm::run_fast(3, r3, code, host, (limit - 3) as nat) is Some);
        },
        _ => {
            assert(reg_fast_vm::fast_step(s[0], regs, code, host) is Next);
            let next = reg_fast_vm::fast_step(s[0], regs, code, host)->Next_1;
            assert(reg_fast_vm::run_fast(1, next, code, host, (limit - 1) as nat) is Some);
            assert(s.len() == 2);
            match s[0] {
                RegInstr::InIntSet(d, r, c) => {
                    let items = code.constants[c as int]->List_0;
                    let ints = items.map_values(|x: Val| x->Int_0);
                    let v = regs[r as int];
                    if items.contains(v) {
                        let k = choose|k: int| 0 <= k < items.len() && items[k] == v;
                        assert(ints[k] == v->Int_0);
                        assert(ints.contains(v->Int_0));
                    }
                    if ints.contains(v->Int_0) {
                        let k = choose|k: int| 0 <= k < ints.len() && ints[k] == v->Int_0;
                        assert(items[k] is Int);
                        assert(items[k] == v);
                        assert(items.contains(v));
                    }
                },
                RegInstr::InStrSet(d, r, c) => {
                    let items = code.constants[c as int]->List_0;
                    let texts = items.map_values(|x: Val| x->String_0);
                    let v = regs[r as int];
                    if items.contains(v) {
                        let k = choose|k: int| 0 <= k < items.len() && items[k] == v;
                        assert(texts[k] == v->String_0);
                        assert(texts.contains(v->String_0));
                    }
                    if texts.contains(v->String_0) {
                        let k = choose|k: int| 0 <= k < texts.len() && texts[k] == v->String_0;
                        assert(items[k] is String);
                        assert(items[k] == v);
                        assert(items.contains(v));
                    }
                },
                _ => {},
            }
        },
    }
}

/// Every program that the register compiler makes has a filter, and that filter runs the
/// program as it is.
pub proof fn law_compiled_filter(code: RegCode)
    requires
        reg_compiler::well_built(code),
    ensures
        constants_there(code, code.instructions),
        ends_once(code.instructions),
        form(code, code.instructions) == EnumModel::Generic(code),
{
    let s = code.instructions;
    assert forall|k: int| 0 <= k < s.len() implies match #[trigger] s[k] {
        RegInstr::EqStrConst(_, _, c) | RegInstr::InIntSet(_, _, c)
        | RegInstr::InStrSet(_, _, c) => c < code.constants.len(),
        _ => true,
    } by {
        reg_compiler::law_well_built(code, k);
    }
    assert forall|k: int| 0 <= k < s.len() - 1 implies !((#[trigger] s[k]) is Halt) by {
        reg_compiler::law_well_built(code, k);
    }
    reg_compiler::law_well_built(code, 0);
    if s.len() >= 2 {
        reg_compiler::law_well_built(code, s.len() - 2);
    }
}

} // verus!
