//! Boolean expressions compiled to a tree that is evaluated directly.

use crate::error;
use crate::error::{CallSite, ExecutionError, HostRequest, HostTable, Outcome, Req, Site};
use crate::objects;
use crate::objects::{Key, KeyVal, Val, Value};
use crate::patterns;
use crate::patterns::{CompiledRegex, WordSet};
use crate::strings;
use std::collections::HashSet;
use std::sync::Arc;
use vstd::prelude::*;
use vstd::string::*;

verus! {

/// A registered function: its name, and what is known of its results.
#[derive(Debug)]
pub struct FnCallPtr {
    pub name: String,
    pub host: HostTable,
}

/// What a call of a registered function gives.
pub open spec fn fn_result(f: FnCallPtr, args: Seq<Val>) -> Outcome {
    error::ask(f.host@, Req::Call(Site::root(), f.name@, None, args))
}

impl FnCallPtr {
    /// Calls the function.
    pub fn call(&self, args: &[Value]) -> (r: Result<Value, ExecutionError>)
        ensures
            error::outcome(r) == fn_result(*self, objects::values_view(args@)),
    {
        let args = objects::clone_values(args);
        self.host.ask(HostRequest::Call(CallSite::root(), self.name.clone(), None, args))
    }

    /// A copy of the function.
    pub fn duplicate(&self) -> (r: FnCallPtr)
        ensures
            r.name@ == self.name@,
            r.host@ == self.host@,
    {
        FnCallPtr { name: self.name.clone(), host: self.host.duplicate() }
    }
}

/// What a [`FnCallPtr`] stands for.
pub struct FnModel {
    pub name: Seq<char>,
    pub host: Seq<(Req, Outcome)>,
}

impl View for FnCallPtr {
    type V = FnModel;

    open spec fn view(&self) -> FnModel {
        FnModel { name: self.name@, host: self.host@ }
    }
}

/// The functions that a filter can call, by name.
#[derive(Debug)]
pub struct FnTable {
    pub functions: Vec<FnCallPtr>,
}

impl View for FnTable {
    type V = Seq<FnModel>;

    open spec fn view(&self) -> Seq<FnModel> {
        self.functions@.map_values(|f: FnCallPtr| f@)
    }
}

/// The first function of a name, from position `from` on.
pub open spec fn function_named(fns: Seq<FnModel>, name: Seq<char>, from: int) -> Option<FnModel>
    decreases fns.len() - from,
{
    if from < 0 || from >= fns.len() {
        None
    } else if fns[from].name == name {
        Some(fns[from])
    } else {
        function_named(fns, name, from + 1)
    }
}

impl FnTable {
    /// A table without functions.
    pub fn new() -> (r: FnTable)
        ensures
            r@ == Seq::<FnModel>::empty(),
    {
        let r = FnTable { functions: Vec::new() };
        assert(r@ =~= Seq::<FnModel>::empty());
        r
    }

    /// Adds a function; one of the same name that is there already hides it.
    pub fn add(&mut self, f: FnCallPtr)
        ensures
            final(self)@ == old(self)@.push(f@),
    {
        self.functions.push(f);
        assert(self@ =~= old(self)@.push(f@));
    }

    /// The function of a name.
    pub fn get(&self, name: &str) -> (r: Option<&FnCallPtr>)
        ensures
            match r {
                Some(f) => function_named(self@, name@, 0) == Some(f@),
                None => function_named(self@, name@, 0) is None,
            },
    {
        let mut i: usize = 0;
        while i < self.functions.len()
            invariant
                i <= self.functions@.len(),
                function_named(self@, name@, 0) == function_named(self@, name@, i as int),
            decreases self.functions@.len() - i,
        {
            assert(self@[i as int] == self.functions@[i as int]@);
            if strings::str_eq(self.functions[i].name.as_str(), name) {
                return Some(&self.functions[i]);
            }
            i += 1;
        }
        None
    }
}

/// Division of two's complement integers, truncating; the one quotient that does not fit
/// wraps to the dividend.
pub open spec fn wrapping_quotient(a: i64, b: i64) -> i64 {
    match a.checked_div(b) {
        Some(q) => q,
        None => a,
    }
}

/// The remainder of the division that truncates; zero where the quotient does not fit.
pub open spec fn wrapping_remainder(a: i64, b: i64) -> i64 {
    match a.checked_rem(b) {
        Some(r) => r,
        None => 0,
    }
}

pub(crate) fn wrapping_div(a: i64, b: i64) -> (r: i64)
    ensures
        r == wrapping_quotient(a, b),
{
    match a.checked_div(b) {
        Some(q) => q,
        None => a,
    }
}

pub(crate) fn wrapping_rem(a: i64, b: i64) -> (r: i64)
    ensures
        r == wrapping_remainder(a, b),
{
    match a.checked_rem(b) {
        Some(q) => q,
        None => 0,
    }
}

/// A typed integer expression that evaluates directly to `i64`.
/// Used as a sub-expression inside boolean filters (`port + 100 >= 1024`).
#[derive(Debug)]
pub enum I64Expr {
    Literal(i64),
    Var(usize),
    Add(Box<I64Expr>, Box<I64Expr>),
    Sub(Box<I64Expr>, Box<I64Expr>),
    Mul(Box<I64Expr>, Box<I64Expr>),
    Div(Box<I64Expr>, Box<I64Expr>),
    Mod(Box<I64Expr>, Box<I64Expr>),
    Neg(Box<I64Expr>),
    /// The length of a string, in bytes.
    StrLen(Box<StrExpr>),
    /// The length of a list.
    ListLen(Box<ListExpr>),
}

/// A typed string expression.
#[derive(Debug)]
pub enum StrExpr {
    Literal(String),
    Var(usize),
    Concat(Box<StrExpr>, Box<StrExpr>),
}

/// A typed list expression.
#[derive(Debug)]
pub enum ListExpr {
    Var(usize),
}

/// The string at an index, and the empty one where another type is there.
pub open spec fn string_at(vars: Seq<Val>, idx: usize) -> Seq<char> {
    match vars[idx as int] {
        Val::String(s) => s,
        _ => Seq::empty(),
    }
}

/// The integer at an index, and zero where another type is there.
pub open spec fn int_at(vars: Seq<Val>, idx: usize) -> i64 {
    match vars[idx as int] {
        Val::Int(i) => i,
        _ => 0,
    }
}

/// What a string expression evaluates to.
pub open spec fn str_value(e: StrExpr, vars: Seq<Val>) -> Seq<char>
    decreases e,
{
    match e {
        StrExpr::Literal(s) => s@,
        StrExpr::Var(idx) => string_at(vars, idx),
        StrExpr::Concat(a, b) => str_value(*a, vars) + str_value(*b, vars),
    }
}

/// The number of bytes of a string expression's value.
pub open spec fn str_len(e: StrExpr, vars: Seq<Val>) -> nat
    decreases e,
{
    match e {
        StrExpr::Literal(s) => strings::byte_len(s@),
        StrExpr::Var(idx) => strings::byte_len(string_at(vars, idx)),
        StrExpr::Concat(a, b) => str_len(*a, vars) + str_len(*b, vars),
    }
}

/// The same over the strings of a typed array.
pub open spec fn str_len_typed(e: StrExpr, strings: Seq<Seq<char>>) -> nat
    decreases e,
{
    match e {
        StrExpr::Literal(s) => strings::byte_len(s@),
        StrExpr::Var(idx) => strings::byte_len(strings[idx as int]),
        StrExpr::Concat(a, b) => str_len_typed(*a, strings) + str_len_typed(*b, strings),
    }
}

/// Every index of the expression is below `n`.
pub open spec fn str_in_range(e: StrExpr, n: nat) -> bool
    decreases e,
{
    match e {
        StrExpr::Literal(_) => true,
        StrExpr::Var(idx) => idx < n,
        StrExpr::Concat(a, b) => str_in_range(*a, n) && str_in_range(*b, n),
    }
}

/// The number of items of a list expression's value.
pub open spec fn list_len(e: ListExpr, vars: Seq<Val>) -> nat {
    match e {
        ListExpr::Var(idx) => match vars[idx as int] {
            Val::List(l) => l.len(),
            _ => 0,
        },
    }
}

pub open spec fn list_in_range(e: ListExpr, n: nat) -> bool {
    match e {
        ListExpr::Var(idx) => idx < n,
    }
}

/// What an integer expression evaluates to.
pub open spec fn int_value(e: I64Expr, vars: Seq<Val>) -> i64
    decreases e,
{
    match e {
        I64Expr::Literal(v) => v,
        I64Expr::Var(idx) => int_at(vars, idx),
        I64Expr::Add(a, b) => int_value(*a, vars).wrapping_add(int_value(*b, vars)),
        I64Expr::Sub(a, b) => int_value(*a, vars).wrapping_sub(int_value(*b, vars)),
        I64Expr::Mul(a, b) => int_value(*a, vars).wrapping_mul(int_value(*b, vars)),
        I64Expr::Div(a, b) => if int_value(*b, vars) == 0 {
            0
        } else {
            wrapping_quotient(int_value(*a, vars), int_value(*b, vars))
        },
        I64Expr::Mod(a, b) => if int_value(*b, vars) == 0 {
            0
        } else {
            wrapping_remainder(int_value(*a, vars), int_value(*b, vars))
        },
        I64Expr::Neg(a) => 0i64.wrapping_sub(int_value(*a, vars)),
        I64Expr::StrLen(s) => str_len(*s, vars) as usize as i64,
        I64Expr::ListLen(l) => list_len(*l, vars) as usize as i64,
    }
}

/// The same over typed arrays, in which lists have no length.
pub open spec fn int_value_typed(e: I64Expr, ints: Seq<i64>, strings: Seq<Seq<char>>) -> i64
    decreases e,
{
    match e {
        I64Expr::Literal(v) => v,
        I64Expr::Var(idx) => ints[idx as int],
        I64Expr::Add(a, b) => int_value_typed(*a, ints, strings).wrapping_add(
            int_value_typed(*b, ints, strings),
        ),
        I64Expr::Sub(a, b) => int_value_typed(*a, ints, strings).wrapping_sub(
            int_value_typed(*b, ints, strings),
        ),
        I64Expr::Mul(a, b) => int_value_typed(*a, ints, strings).wrapping_mul(
            int_value_typed(*b, ints, strings),
        ),
        I64Expr::Div(a, b) => if int_value_typed(*b, ints, strings) == 0 {
            0
        } else {
            wrapping_quotient(
                int_value_typed(*a, ints, strings),
                int_value_typed(*b, ints, strings),
            )
        },
        I64Expr::Mod(a, b) => if int_value_typed(*b, ints, strings) == 0 {
            0
        } else {
            wrapping_remainder(
                int_value_typed(*a, ints, strings),
                int_value_typed(*b, ints, strings),
            )
        },
        I64Expr::Neg(a) => 0i64.wrapping_sub(int_value_typed(*a, ints, strings)),
        I64Expr::StrLen(s) => str_len_typed(*s, strings) as usize as i64,
        I64Expr::ListLen(_) => 0,
    }
}

/// Every index of the expression is below `n`.
pub open spec fn int_in_range(e: I64Expr, n: nat) -> bool
    decreases e,
{
    match e {
        I64Expr::Literal(_) => true,
        I64Expr::Var(idx) => idx < n,
        I64Expr::Add(a, b) => int_in_range(*a, n) && int_in_range(*b, n),
        I64Expr::Sub(a, b) => int_in_range(*a, n) && int_in_range(*b, n),
        I64Expr::Mul(a, b) => int_in_range(*a, n) && int_in_range(*b, n),
        I64Expr::Div(a, b) => int_in_range(*a, n) && int_in_range(*b, n),
        I64Expr::Mod(a, b) => int_in_range(*a, n) && int_in_range(*b, n),
        I64Expr::Neg(a) => int_in_range(*a, n),
        I64Expr::StrLen(s) => str_in_range(*s, n),
        I64Expr::ListLen(l) => list_in_range(*l, n),
    }
}

/// The lengths of the strings that the expression measures can be counted.
pub open spec fn int_fits(e: I64Expr, vars: Seq<Val>) -> bool
    decreases e,
{
    match e {
        I64Expr::Literal(_) => true,
        I64Expr::Var(_) => true,
        I64Expr::Add(a, b) => int_fits(*a, vars) && int_fits(*b, vars),
        I64Expr::Sub(a, b) => int_fits(*a, vars) && int_fits(*b, vars),
        I64Expr::Mul(a, b) => int_fits(*a, vars) && int_fits(*b, vars),
        I64Expr::Div(a, b) => int_fits(*a, vars) && int_fits(*b, vars),
        I64Expr::Mod(a, b) => int_fits(*a, vars) && int_fits(*b, vars),
        I64Expr::Neg(a) => int_fits(*a, vars),
        I64Expr::StrLen(s) => str_len(*s, vars) <= usize::MAX,
        I64Expr::ListLen(_) => true,
    }
}

/// The lengths of the strings that the expression measures in a typed array can be counted.
pub open spec fn int_fits_typed(e: I64Expr, strings: Seq<Seq<char>>) -> bool
    decreases e,
{
    match e {
        I64Expr::Literal(_) => true,
        I64Expr::Var(_) => true,
        I64Expr::Add(a, b) => int_fits_typed(*a, strings) && int_fits_typed(*b, strings),
        I64Expr::Sub(a, b) => int_fits_typed(*a, strings) && int_fits_typed(*b, strings),
        I64Expr::Mul(a, b) => int_fits_typed(*a, strings) && int_fits_typed(*b, strings),
        I64Expr::Div(a, b) => int_fits_typed(*a, strings) && int_fits_typed(*b, strings),
        I64Expr::Mod(a, b) => int_fits_typed(*a, strings) && int_fits_typed(*b, strings),
        I64Expr::Neg(a) => int_fits_typed(*a, strings),
        I64Expr::StrLen(s) => str_len_typed(*s, strings) <= usize::MAX,
        I64Expr::ListLen(_) => true,
    }
}

impl I64Expr {
    /// Evaluates the expression; a variable of another type counts as zero.
    pub fn eval(&self, vars: &[Value]) -> (r: i64)
        requires
            int_in_range(*self, vars@.len()),
            int_fits(*self, objects::values_view(vars@)),
        ensures
            r == int_value(*self, objects::values_view(vars@)),
        decreases self,
    {
        match self {
            I64Expr::Literal(v) => *v,
            I64Expr::Var(idx) => match &vars[*idx] {
                Value::Int(i) => *i,
                _ => 0,
            },
            I64Expr::Add(a, b) => a.eval(vars).wrapping_add(b.eval(vars)),
            I64Expr::Sub(a, b) => a.eval(vars).wrapping_sub(b.eval(vars)),
            I64Expr::Mul(a, b) => a.eval(vars).wrapping_mul(b.eval(vars)),
            I64Expr::Div(a, b) => {
                let bv = b.eval(vars);
                if bv == 0 {
                    0
                } else {
                    wrapping_div(a.eval(vars), bv)
                }
            },
            I64Expr::Mod(a, b) => {
                let bv = b.eval(vars);
                if bv == 0 {
                    0
                } else {
                    wrapping_rem(a.eval(vars), bv)
                }
            },
            I64Expr::Neg(a) => 0i64.wrapping_sub(a.eval(vars)),
            I64Expr::StrLen(s) => s.len(vars) as i64,
            I64Expr::ListLen(l) => l.len(vars) as i64,
        }
    }

    /// Evaluates the expression over variables of the types that it expects.
    pub fn eval_fast(&self, vars: &[Value]) -> (r: i64)
        requires
            int_in_range(*self, vars@.len()),
            int_fits(*self, objects::values_view(vars@)),
        ensures
            r == int_value(*self, objects::values_view(vars@)),
    {
        self.eval(vars)
    }

    /// Evaluates the expression over typed arrays.
    pub fn eval_fast_typed(&self, ints: &[i64], strings: &[String]) -> (r: i64)
        requires
            int_in_range(*self, ints@.len()),
            int_in_range(*self, strings@.len()),
            int_fits_typed(*self, objects::texts(strings@)),
        ensures
            r == int_value_typed(*self, ints@, objects::texts(strings@)),
        decreases self,
    {
        match self {
            I64Expr::Literal(v) => *v,
            I64Expr::Var(idx) => ints[*idx],
            I64Expr::Add(a, b) => a.eval_fast_typed(ints, strings).wrapping_add(
                b.eval_fast_typed(ints, strings),
            ),
            I64Expr::Sub(a, b) => a.eval_fast_typed(ints, strings).wrapping_sub(
                b.eval_fast_typed(ints, strings),
            ),
            I64Expr::Mul(a, b) => a.eval_fast_typed(ints, strings).wrapping_mul(
                b.eval_fast_typed(ints, strings),
            ),
            I64Expr::Div(a, b) => {
                let bv = b.eval_fast_typed(ints, strings);
                if bv == 0 {
                    0
                } else {
                    wrapping_div(a.eval_fast_typed(ints, strings), bv)
                }
            },
            I64Expr::Mod(a, b) => {
                let bv = b.eval_fast_typed(ints, strings);
                if bv == 0 {
                    0
                } else {
                    wrapping_rem(a.eval_fast_typed(ints, strings), bv)
                }
            },
            I64Expr::Neg(a) => 0i64.wrapping_sub(a.eval_fast_typed(ints, strings)),
            I64Expr::StrLen(s) => s.len_typed(strings) as i64,
            I64Expr::ListLen(_) => 0,
        }
    }
}

impl StrExpr {
    /// The value of a variable or a literal without a copy; `None` for a concatenation,
    /// which has to be built.
    pub fn eval_borrow<'a>(&'a self, vars: &'a [Value]) -> (r: Option<&'a str>)
        requires
            str_in_range(*self, vars@.len()),
        ensures
            r is None <==> self is Concat,
            r matches Some(s) ==> s@ == str_value(*self, objects::values_view(vars@)),
    {
        match self {
            StrExpr::Literal(s) => Some(s.as_str()),
            StrExpr::Var(idx) => match &vars[*idx] {
                Value::String(s) => Some(s.as_str()),
                _ => {
                    proof {
                        reveal_strlit("");
                    }
                    assert(""@ =~= Seq::<char>::empty());
                    Some("")
                },
            },
            StrExpr::Concat(_, _) => None,
        }
    }

    /// The value as a string of its own.
    pub fn eval_owned(&self, vars: &[Value]) -> (r: String)
        requires
            str_in_range(*self, vars@.len()),
        ensures
            r@ == str_value(*self, objects::values_view(vars@)),
        decreases self,
    {
        match self {
            StrExpr::Literal(s) => s.clone(),
            StrExpr::Var(idx) => match &vars[*idx] {
                Value::String(s) => s.as_str().to_owned(),
                _ => String::new(),
            },
            StrExpr::Concat(a, b) => {
                let mut result = a.eval_owned(vars);
                let tail = b.eval_owned(vars);
                result.append(tail.as_str());
                result
            },
        }
    }

    /// The length of the value in bytes.
    pub fn len(&self, vars: &[Value]) -> (r: usize)
        requires
            str_in_range(*self, vars@.len()),
            str_len(*self, objects::values_view(vars@)) <= usize::MAX,
        ensures
            r == str_len(*self, objects::values_view(vars@)),
        decreases self,
    {
        match self {
            StrExpr::Literal(s) => strings::str_byte_len(s.as_str()),
            StrExpr::Var(idx) => match &vars[*idx] {
                Value::String(s) => strings::str_byte_len(s.as_str()),
                _ => 0,
            },
            StrExpr::Concat(a, b) => a.len(vars) + b.len(vars),
        }
    }

    /// The length of the value in bytes, over variables of the types that it expects.
    pub fn len_unchecked(&self, vars: &[Value]) -> (r: usize)
        requires
            str_in_range(*self, vars@.len()),
            str_len(*self, objects::values_view(vars@)) <= usize::MAX,
        ensures
            r == str_len(*self, objects::values_view(vars@)),
    {
        self.len(vars)
    }

    /// The length of the value in bytes, over the strings of a typed array.
    pub fn len_typed(&self, strings: &[String]) -> (r: usize)
        requires
            str_in_range(*self, strings@.len()),
            str_len_typed(*self, objects::texts(strings@)) <= usize::MAX,
        ensures
            r == str_len_typed(*self, objects::texts(strings@)),
        decreases self,
    {
        match self {
            StrExpr::Literal(s) => strings::str_byte_len(s.as_str()),
            StrExpr::Var(idx) => strings::str_byte_len(strings[*idx].as_str()),
            StrExpr::Concat(a, b) => a.len_typed(strings) + b.len_typed(strings),
        }
    }
}

impl ListExpr {
    /// The list, where one is there.
    pub fn eval<'a>(&'a self, vars: &'a [Value]) -> (r: Option<&'a Vec<Value>>)
        requires
            list_in_range(*self, vars@.len()),
        ensures
            match r {
                Some(l) => exists|idx: usize|
                    *self == ListExpr::Var(idx) && vars@[idx as int] == Value::List(*l),
                None => match *self {
                    ListExpr::Var(idx) => !(vars@[idx as int] is List),
                },
            },
    {
        match self {
            ListExpr::Var(idx) => match &vars[*idx] {
                Value::List(list) => {
                    assert(*self == ListExpr::Var(*idx) && vars@[*idx as int] == Value::List(
                        *list,
                    ));
                    Some(list)
                },
                _ => None,
            },
        }
    }

    /// The number of items; zero where no list is there.
    pub fn len(&self, vars: &[Value]) -> (r: usize)
        requires
            list_in_range(*self, vars@.len()),
        ensures
            r == list_len(*self, objects::values_view(vars@)),
    {
        broadcast use objects::group_value_views;

        match self.eval(vars) {
            Some(l) => l.len(),
            None => {
                match self {
                    ListExpr::Var(idx) => {
                        let ghost v = vars@[*idx as int];
                        assert(objects::values_view(vars@)[*idx as int] == v@);
                    },
                }
                0
            },
        }
    }

    /// The number of items, over variables of the types that it expects.
    pub fn len_unchecked(&self, vars: &[Value]) -> (r: usize)
        requires
            list_in_range(*self, vars@.len()),
        ensures
            r == list_len(*self, objects::values_view(vars@)),
    {
        self.len(vars)
    }
}

/// Integer comparison operator for `exists` and similar nodes.
#[derive(Clone, Copy, Debug, PartialEq, Eq, Structural)]
pub enum IntCmp {
    Eq,
    Ne,
    Lt,
    Le,
    Gt,
    Ge,
}

/// What a comparison operator says of two integers.
pub open spec fn compares(op: IntCmp, a: i64, b: i64) -> bool {
    match op {
        IntCmp::Eq => a == b,
        IntCmp::Ne => a != b,
        IntCmp::Lt => a < b,
        IntCmp::Le => a <= b,
        IntCmp::Gt => a > b,
        IntCmp::Ge => a >= b,
    }
}

impl IntCmp {
    /// Compares two integers.
    pub fn eval(&self, a: i64, b: i64) -> (r: bool)
        ensures
            r == compares(*self, a, b),
    {
        match self {
            IntCmp::Eq => a == b,
            IntCmp::Ne => a != b,
            IntCmp::Lt => a < b,
            IntCmp::Le => a <= b,
            IntCmp::Gt => a > b,
            IntCmp::Ge => a >= b,
        }
    }
}

/// What is done to an integer before it is compared.
#[derive(Clone, Copy, Debug, PartialEq, Eq, Structural)]
pub enum Arith {
    Keep,
    Add,
    Sub,
    Mul,
}

/// A test of one integer: `var`, `var + operand`, `var - operand` or `var * operand`
/// compared with a constant.
#[derive(Clone, Copy, Debug, PartialEq, Eq, Structural)]
pub struct IntTest {
    pub idx: usize,
    pub arith: Arith,
    pub operand: i64,
    pub cmp: IntCmp,
    pub val: i64,
}

/// The integer after the arithmetic, which wraps.
pub open spec fn arith_value(op: Arith, a: i64, b: i64) -> i64 {
    match op {
        Arith::Keep => a,
        Arith::Add => a.wrapping_add(b),
        Arith::Sub => a.wrapping_sub(b),
        Arith::Mul => a.wrapping_mul(b),
    }
}

/// What a test says of an integer.
pub open spec fn int_test_holds(t: IntTest, i: i64) -> bool {
    compares(t.cmp, arith_value(t.arith, i, t.operand), t.val)
}

impl IntTest {
    /// Applies the test.
    pub fn eval(&self, i: i64) -> (r: bool)
        ensures
            r == int_test_holds(*self, i),
    {
        let v: i64 = match self.arith {
            Arith::Keep => i,
            Arith::Add => i.wrapping_add(self.operand),
            Arith::Sub => i.wrapping_sub(self.operand),
            Arith::Mul => i.wrapping_mul(self.operand),
        };
        self.cmp.eval(v, self.val)
    }
}

/// A compiled boolean expression evaluating directly to `bool`.
///
/// Every variant is specialized for one pattern; evaluation is a single match.
#[derive(Debug)]
#[allow(inconsistent_fields)]
pub enum FilterNode {
    EqInt { idx: usize, val: i64 },
    NeInt { idx: usize, val: i64 },
    LtInt { idx: usize, val: i64 },
    LeInt { idx: usize, val: i64 },
    GtInt { idx: usize, val: i64 },
    GeInt { idx: usize, val: i64 },
    AddEq { idx: usize, arith: i64, cmp: i64 },
    AddNe { idx: usize, arith: i64, cmp: i64 },
    AddLt { idx: usize, arith: i64, cmp: i64 },
    AddLe { idx: usize, arith: i64, cmp: i64 },
    AddGt { idx: usize, arith: i64, cmp: i64 },
    AddGe { idx: usize, arith: i64, cmp: i64 },
    SubEq { idx: usize, arith: i64, cmp: i64 },
    SubNe { idx: usize, arith: i64, cmp: i64 },
    SubLt { idx: usize, arith: i64, cmp: i64 },
    SubLe { idx: usize, arith: i64, cmp: i64 },
    SubGt { idx: usize, arith: i64, cmp: i64 },
    SubGe { idx: usize, arith: i64, cmp: i64 },
    MulEq { idx: usize, arith: i64, cmp: i64 },
    MulNe { idx: usize, arith: i64, cmp: i64 },
    MulLt { idx: usize, arith: i64, cmp: i64 },
    MulLe { idx: usize, arith: i64, cmp: i64 },
    MulGt { idx: usize, arith: i64, cmp: i64 },
    MulGe { idx: usize, arith: i64, cmp: i64 },
    EqStr { idx: usize, val: String },
    NeStr { idx: usize, val: String },
    /// Membership in a short list of integers.
    InIntLinear { idx: usize, vals: Vec<i64> },
    /// Membership in a set of integers.
    InIntHash { idx: usize, set: Arc<HashSet<i64>> },
    /// Membership in a short list of strings.
    InStrLinear { idx: usize, vals: Vec<String> },
    /// Membership in a set of strings.
    InStrHash { idx: usize, set: Vec<String> },
    StartsWith { idx: usize, prefix: String },
    EndsWith { idx: usize, suffix: String },
    Contains { idx: usize, substring: String },
    /// A regular expression, compiled with the filter.
    Matches { idx: usize, regex: Arc<CompiledRegex> },
    ContainsAny { idx: usize, needles: Vec<String> },
    /// At least `min` of a set of words.
    AhoContains { idx: usize, ac: Arc<WordSet>, min: usize },
    GeExpr { left: I64Expr, right: I64Expr },
    GtExpr { left: I64Expr, right: I64Expr },
    LeExpr { left: I64Expr, right: I64Expr },
    LtExpr { left: I64Expr, right: I64Expr },
    EqExpr { left: I64Expr, right: I64Expr },
    NeExpr { left: I64Expr, right: I64Expr },
    /// A variable read as a boolean (`is_admin`).
    BoolVar { idx: usize },
    BoolLiteral { val: bool },
    /// `list.exists(x, x > 5)` over a list of integers.
    ExistsIntList { collection_idx: usize, cmp_val: i64, cmp: IntCmp },
    /// `list.exists(x, x == "val")` over a list of strings.
    ExistsStrEq { collection_idx: usize, cmp_val: String },
    /// `list.exists(x, x in [1, 2, 3])` over a list of integers.
    ExistsIntSet { collection_idx: usize, vals: Vec<i64> },
    /// `map.exists(k, v, v > 5)` over the values of a map.
    ExistsMapInt { collection_idx: usize, cmp_val: i64, cmp: IntCmp },
    /// `map["key"].exists(it, it == "str")`.
    MapIndexStrEq { map_idx: usize, key: String, cmp_val: String },
    /// `map["key"].exists(it, it > val)`.
    MapIndexIntList { map_idx: usize, key: String, cmp_val: i64, cmp: IntCmp },
    /// `func(arg_idxs...) cmp literal`: a registered function is called, and its integer
    /// result compared.
    FnCmpResult { func: FnCallPtr, arg_idxs: Vec<usize>, cmp: IntCmp, literal: i64 },
    And(Box<FilterNode>, Box<FilterNode>),
    Or(Box<FilterNode>, Box<FilterNode>),
    Not(Box<FilterNode>),
}

/// The test that a node makes of one integer, where it makes one.
pub open spec fn int_test_of(n: FilterNode) -> Option<IntTest> {
    match n {
        FilterNode::EqInt { idx, val } => Some(
            IntTest { idx: idx, arith: Arith::Keep, operand: 0, cmp: IntCmp::Eq, val: val },
        ),
        FilterNode::NeInt { idx, val } => Some(
            IntTest { idx: idx, arith: Arith::Keep, operand: 0, cmp: IntCmp::Ne, val: val },
        ),
        FilterNode::LtInt { idx, val } => Some(
            IntTest { idx: idx, arith: Arith::Keep, operand: 0, cmp: IntCmp::Lt, val: val },
        ),
        FilterNode::LeInt { idx, val } => Some(
            IntTest { idx: idx, arith: Arith::Keep, operand: 0, cmp: IntCmp::Le, val: val },
        ),
        FilterNode::GtInt { idx, val } => Some(
            IntTest { idx: idx, arith: Arith::Keep, operand: 0, cmp: IntCmp::Gt, val: val },
        ),
        FilterNode::GeInt { idx, val } => Some(
            IntTest { idx: idx, arith: Arith::Keep, operand: 0, cmp: IntCmp::Ge, val: val },
        ),
        FilterNode::AddEq { idx, arith, cmp } => Some(
            IntTest { idx: idx, arith: Arith::Add, operand: arith, cmp: IntCmp::Eq, val: cmp },
        ),
        FilterNode::AddNe { idx, arith, cmp } => Some(
            IntTest { idx: idx, arith: Arith::Add, operand: arith, cmp: IntCmp::Ne, val: cmp },
        ),
        FilterNode::AddLt { idx, arith, cmp } => Some(
            IntTest { idx: idx, arith: Arith::Add, operand: arith, cmp: IntCmp::Lt, val: cmp },
        ),
        FilterNode::AddLe { idx, arith, cmp } => Some(
            IntTest { idx: idx, arith: Arith::Add, operand: arith, cmp: IntCmp::Le, val: cmp },
        ),
        FilterNode::AddGt { idx, arith, cmp } => Some(
            IntTest { idx: idx, arith: Arith::Add, operand: arith, cmp: IntCmp::Gt, val: cmp },
        ),
        FilterNode::AddGe { idx, arith, cmp } => Some(
            IntTest { idx: idx, arith: Arith::Add, operand: arith, cmp: IntCmp::Ge, val: cmp },
        ),
        FilterNode::SubEq { idx, arith, cmp } => Some(
            IntTest { idx: idx, arith: Arith::Sub, operand: arith, cmp: IntCmp::Eq, val: cmp },
        ),
        FilterNode::SubNe { idx, arith, cmp } => Some(
            IntTest { idx: idx, arith: Arith::Sub, operand: arith, cmp: IntCmp::Ne, val: cmp },
        ),
        FilterNode::SubLt { idx, arith, cmp } => Some(
            IntTest { idx: idx, arith: Arith::Sub, operand: arith, cmp: IntCmp::Lt, val: cmp },
        ),
        FilterNode::SubLe { idx, arith, cmp } => Some(
            IntTest { idx: idx, arith: Arith::Sub, operand: arith, cmp: IntCmp::Le, val: cmp },
        ),
        FilterNode::SubGt { idx, arith, cmp } => Some(
            IntTest { idx: idx, arith: Arith::Sub, operand: arith, cmp: IntCmp::Gt, val: cmp },
        ),
        FilterNode::SubGe { idx, arith, cmp } => Some(
            IntTest { idx: idx, arith: Arith::Sub, operand: arith, cmp: IntCmp::Ge, val: cmp },
        ),
        FilterNode::MulEq { idx, arith, cmp } => Some(
            IntTest { idx: idx, arith: Arith::Mul, operand: arith, cmp: IntCmp::Eq, val: cmp },
        ),
        FilterNode::MulNe { idx, arith, cmp } => Some(
            IntTest { idx: idx, arith: Arith::Mul, operand: arith, cmp: IntCmp::Ne, val: cmp },
        ),
        FilterNode::MulLt { idx, arith, cmp } => Some(
            IntTest { idx: idx, arith: Arith::Mul, operand: arith, cmp: IntCmp::Lt, val: cmp },
        ),
        FilterNode::MulLe { idx, arith, cmp } => Some(
            IntTest { idx: idx, arith: Arith::Mul, operand: arith, cmp: IntCmp::Le, val: cmp },
        ),
        FilterNode::MulGt { idx, arith, cmp } => Some(
            IntTest { idx: idx, arith: Arith::Mul, operand: arith, cmp: IntCmp::Gt, val: cmp },
        ),
        FilterNode::MulGe { idx, arith, cmp } => Some(
            IntTest { idx: idx, arith: Arith::Mul, operand: arith, cmp: IntCmp::Ge, val: cmp },
        ),
        _ => None,
    }
}

/// The index of the string that a node tests, where it tests one.
pub open spec fn str_index_of(n: FilterNode) -> Option<usize> {
    match n {
        FilterNode::EqStr { idx, .. } => Some(idx),
        FilterNode::NeStr { idx, .. } => Some(idx),
        FilterNode::InStrLinear { idx, .. } => Some(idx),
        FilterNode::InStrHash { idx, .. } => Some(idx),
        FilterNode::StartsWith { idx, .. } => Some(idx),
        FilterNode::EndsWith { idx, .. } => Some(idx),
        FilterNode::Contains { idx, .. } => Some(idx),
        FilterNode::Matches { idx, .. } => Some(idx),
        FilterNode::ContainsAny { idx, .. } => Some(idx),
        FilterNode::AhoContains { idx, .. } => Some(idx),
        _ => None,
    }
}

/// Whether at least `min` of the words occur in a text, and at least one.
pub open spec fn words_found(words: Seq<Seq<char>>, text: Seq<char>, min: usize) -> bool {
    if min <= 1 {
        patterns::some_occurs(words, text)
    } else {
        patterns::occurring(words, text) >= min
    }
}

/// What a node that tests a string says of it.
pub open spec fn str_test_holds(n: FilterNode, text: Seq<char>) -> bool {
    match n {
        FilterNode::EqStr { val, .. } => text == val@,
        FilterNode::NeStr { val, .. } => text != val@,
        FilterNode::InStrLinear { vals, .. } => objects::texts(vals@).contains(text),
        FilterNode::InStrHash { set, .. } => objects::texts(set@).contains(text),
        FilterNode::StartsWith { prefix, .. } => prefix@.is_prefix_of(text),
        FilterNode::EndsWith { suffix, .. } => suffix@.is_suffix_of(text),
        FilterNode::Contains { substring, .. } => strings::occurs_in(substring@, text),
        FilterNode::Matches { regex, .. } => patterns::regex_found(regex@, text),
        FilterNode::ContainsAny { needles, .. } => patterns::some_occurs(
            objects::texts(needles@),
            text,
        ),
        FilterNode::AhoContains { ac, min, .. } => words_found(ac@, text, min),
        _ => false,
    }
}

/// The variable at an index.
pub open spec fn var_at(vars: Seq<Val>, idx: usize) -> Val {
    vars[idx as int]
}

/// Whether some item of a list is an integer that compares so.
pub open spec fn some_int_compares(items: Seq<Val>, op: IntCmp, b: i64) -> bool {
    exists|k: int|
        0 <= k < items.len() && (#[trigger] items[k] matches Val::Int(i) && compares(op, i, b))
}

/// Whether some entry of a map has an integer value that compares so.
pub open spec fn some_entry_compares(entries: Seq<(KeyVal, Val)>, op: IntCmp, b: i64) -> bool {
    exists|k: int|
        0 <= k < entries.len() && ((#[trigger] entries[k]).1 matches Val::Int(i) && compares(
            op,
            i,
            b,
        ))
}

/// Whether some item of a list is an integer of a set.
pub open spec fn some_int_among(items: Seq<Val>, set: Seq<i64>) -> bool {
    exists|k: int|
        0 <= k < items.len() && (#[trigger] items[k] matches Val::Int(i) && set.contains(i))
}

/// The arguments of a call, by the indices of the variables.
pub open spec fn call_args(arg_idxs: Seq<usize>, vars: Seq<Val>) -> Seq<Val> {
    arg_idxs.map_values(|idx: usize| var_at(vars, idx))
}

/// What a node says of the variables.
pub open spec fn holds(n: FilterNode, vars: Seq<Val>) -> bool
    decreases n,
{
    match n {
        FilterNode::And(a, b) => holds(*a, vars) && holds(*b, vars),
        FilterNode::Or(a, b) => holds(*a, vars) || holds(*b, vars),
        FilterNode::Not(a) => !holds(*a, vars),
        FilterNode::BoolLiteral { val } => val,
        FilterNode::BoolVar { idx } => var_at(vars, idx) == Val::Bool(true),
        FilterNode::GeExpr { left, right } => int_value(left, vars) >= int_value(right, vars),
        FilterNode::GtExpr { left, right } => int_value(left, vars) > int_value(right, vars),
        FilterNode::LeExpr { left, right } => int_value(left, vars) <= int_value(right, vars),
        FilterNode::LtExpr { left, right } => int_value(left, vars) < int_value(right, vars),
        FilterNode::EqExpr { left, right } => int_value(left, vars) == int_value(right, vars),
        FilterNode::NeExpr { left, right } => int_value(left, vars) != int_value(right, vars),
        FilterNode::InIntLinear { idx, vals } => var_at(vars, idx) matches Val::Int(i)
            && vals@.contains(i),
        FilterNode::InIntHash { idx, set } => var_at(vars, idx) matches Val::Int(i)
            && set@.contains(i),
        FilterNode::ExistsIntList { collection_idx, cmp_val, cmp } => var_at(
            vars,
            collection_idx,
        ) matches Val::List(l) && some_int_compares(l, cmp, cmp_val),
        FilterNode::ExistsStrEq { collection_idx, cmp_val } => var_at(
            vars,
            collection_idx,
        ) matches Val::List(l) && l.contains(Val::String(cmp_val@)),
        FilterNode::ExistsIntSet { collection_idx, vals } => var_at(
            vars,
            collection_idx,
        ) matches Val::List(l) && some_int_among(l, vals@),
        FilterNode::ExistsMapInt { collection_idx, cmp_val, cmp } => var_at(
            vars,
            collection_idx,
        ) matches Val::Dict(m) && some_entry_compares(m, cmp, cmp_val),
        FilterNode::MapIndexStrEq { map_idx, key, cmp_val } => match var_at(vars, map_idx) {
            Val::Dict(m) => match objects::dict_get(m, KeyVal::String(key@)) {
                Some(Val::String(s)) => s == cmp_val@,
                Some(Val::List(l)) => l.contains(Val::String(cmp_val@)),
                _ => false,
            },
            _ => false,
        },
        FilterNode::MapIndexIntList { map_idx, key, cmp_val, cmp } => match var_at(vars, map_idx) {
            Val::Dict(m) => match objects::dict_get(m, KeyVal::String(key@)) {
                Some(Val::Int(i)) => compares(cmp, i, cmp_val),
                Some(Val::List(l)) => some_int_compares(l, cmp, cmp_val),
                _ => false,
            },
            _ => false,
        },
        FilterNode::FnCmpResult { func, arg_idxs, cmp, literal } => fn_result(
            func,
            call_args(arg_idxs@, vars),
        ) matches Ok(Val::Int(i)) && compares(cmp, i, literal),
        _ => match int_test_of(n) {
            Some(t) => var_at(vars, t.idx) matches Val::Int(i) && int_test_holds(t, i),
            None => match str_index_of(n) {
                Some(idx) => var_at(vars, idx) matches Val::String(s) && str_test_holds(n, s),
                None => false,
            },
        },
    }
}

/// Every index of the node is below `len`, and a call has at most three arguments.
pub open spec fn in_range(n: FilterNode, len: nat) -> bool
    decreases n,
{
    match n {
        FilterNode::And(a, b) => in_range(*a, len) && in_range(*b, len),
        FilterNode::Or(a, b) => in_range(*a, len) && in_range(*b, len),
        FilterNode::Not(a) => in_range(*a, len),
        FilterNode::BoolLiteral { .. } => true,
        FilterNode::BoolVar { idx } => idx < len,
        FilterNode::GeExpr { left, right } => int_in_range(left, len) && int_in_range(right, len),
        FilterNode::GtExpr { left, right } => int_in_range(left, len) && int_in_range(right, len),
        FilterNode::LeExpr { left, right } => int_in_range(left, len) && int_in_range(right, len),
        FilterNode::LtExpr { left, right } => int_in_range(left, len) && int_in_range(right, len),
        FilterNode::EqExpr { left, right } => int_in_range(left, len) && int_in_range(right, len),
        FilterNode::NeExpr { left, right } => int_in_range(left, len) && int_in_range(right, len),
        FilterNode::InIntLinear { idx, .. } => idx < len,
        FilterNode::InIntHash { idx, .. } => idx < len,
        FilterNode::ExistsIntList { collection_idx, .. } => collection_idx < len,
        FilterNode::ExistsStrEq { collection_idx, .. } => collection_idx < len,
        FilterNode::ExistsIntSet { collection_idx, .. } => collection_idx < len,
        FilterNode::ExistsMapInt { collection_idx, .. } => collection_idx < len,
        FilterNode::MapIndexStrEq { map_idx, .. } => map_idx < len,
        FilterNode::MapIndexIntList { map_idx, .. } => map_idx < len,
        FilterNode::FnCmpResult { arg_idxs, .. } => arg_idxs@.len() <= 3 && forall|k: int|
            0 <= k < arg_idxs@.len() ==> #[trigger] arg_idxs@[k] < len,
        _ => match int_test_of(n) {
            Some(t) => t.idx < len,
            None => match str_index_of(n) {
                Some(idx) => idx < len,
                None => true,
            },
        },
    }
}

/// The lengths of the strings that the node measures can be counted.
pub open spec fn fits(n: FilterNode, vars: Seq<Val>) -> bool
    decreases n,
{
    match n {
        FilterNode::And(a, b) => fits(*a, vars) && fits(*b, vars),
        FilterNode::Or(a, b) => fits(*a, vars) && fits(*b, vars),
        FilterNode::Not(a) => fits(*a, vars),
        FilterNode::GeExpr { left, right } => int_fits(left, vars) && int_fits(right, vars),
        FilterNode::GtExpr { left, right } => int_fits(left, vars) && int_fits(right, vars),
        FilterNode::LeExpr { left, right } => int_fits(left, vars) && int_fits(right, vars),
        FilterNode::LtExpr { left, right } => int_fits(left, vars) && int_fits(right, vars),
        FilterNode::EqExpr { left, right } => int_fits(left, vars) && int_fits(right, vars),
        FilterNode::NeExpr { left, right } => int_fits(left, vars) && int_fits(right, vars),
        _ => true,
    }
}

pub(crate) fn int_among(vals: &Vec<i64>, i: i64) -> (r: bool)
    ensures
        r == vals@.contains(i),
{
    let mut k: usize = 0;
    while k < vals.len()
        invariant
            k <= vals@.len(),
            forall|j: int| 0 <= j < k ==> vals@[j] != i,
        decreases vals@.len() - k,
    {
        if vals[k] == i {
            assert(vals@[k as int] == i);
            return true;
        }
        k += 1;
    }
    false
}

pub(crate) fn text_among(vals: &Vec<String>, s: &str) -> (r: bool)
    ensures
        r == objects::texts(vals@).contains(s@),
{
    let mut k: usize = 0;
    while k < vals.len()
        invariant
            k <= vals@.len(),
            forall|j: int| 0 <= j < k ==> objects::texts(vals@)[j] != s@,
        decreases vals@.len() - k,
    {
        if strings::str_eq(vals[k].as_str(), s) {
            assert(objects::texts(vals@)[k as int] == s@);
            return true;
        }
        k += 1;
    }
    false
}

pub(crate) fn any_needle(needles: &Vec<String>, text: &str) -> (r: bool)
    ensures
        r == patterns::some_occurs(objects::texts(needles@), text@),
{
    let mut k: usize = 0;
    while k < needles.len()
        invariant
            k <= needles@.len(),
            forall|j: int|
                0 <= j < k ==> !strings::occurs_in(
                    #[trigger] objects::texts(needles@)[j],
                    text@,
                ),
        decreases needles@.len() - k,
    {
        if strings::str_contains(text, needles[k].as_str()) {
            assert(objects::texts(needles@)[k as int] == needles@[k as int]@);
            return true;
        }
        k += 1;
    }
    false
}

/// Whether at least `min` of the words occur in a text, and at least one.
pub(crate) fn enough_words(ac: &WordSet, text: &str, min: usize) -> (r: bool)
    ensures
        r == words_found(ac@, text@, min),
{
    if min <= 1 {
        ac.is_match(text)
    } else {
        ac.count(text) >= min
    }
}

pub(crate) fn any_int_compares(items: &Vec<Value>, op: IntCmp, b: i64) -> (r: bool)
    ensures
        r == some_int_compares(objects::values_view(items@), op, b),
{
    let ghost vs = objects::values_view(items@);
    let mut k: usize = 0;
    while k < items.len()
        invariant
            k <= items@.len(),
            vs == objects::values_view(items@),
            forall|j: int|
                0 <= j < k ==> !(#[trigger] vs[j] matches Val::Int(i) && compares(op, i, b)),
        decreases items@.len() - k,
    {
        match &items[k] {
            Value::Int(i) => {
                assert(vs[k as int] == Val::Int(*i));
                if op.eval(*i, b) {
                    return true;
                }
            },
            _ => {
                assert(vs[k as int] == items@[k as int]@);
            },
        }
        k += 1;
    }
    false
}

pub(crate) fn any_entry_compares(entries: &Vec<(Key, Value)>, op: IntCmp, b: i64) -> (r: bool)
    ensures
        r == some_entry_compares(objects::entries_view(entries@), op, b),
{
    let ghost es = objects::entries_view(entries@);
    let mut k: usize = 0;
    while k < entries.len()
        invariant
            k <= entries@.len(),
            es == objects::entries_view(entries@),
            forall|j: int|
                0 <= j < k ==> !((#[trigger] es[j]).1 matches Val::Int(i) && compares(op, i, b)),
        decreases entries@.len() - k,
    {
        assert(es[k as int].1 == entries@[k as int].1@);
        match &entries[k].1 {
            Value::Int(i) => {
                if op.eval(*i, b) {
                    assert(es[k as int].1 == Val::Int(*i));
                    return true;
                }
            },
            _ => {},
        }
        k += 1;
    }
    false
}

pub(crate) fn any_int_among(items: &Vec<Value>, set: &Vec<i64>) -> (r: bool)
    ensures
        r == some_int_among(objects::values_view(items@), set@),
{
    let ghost vs = objects::values_view(items@);
    let mut k: usize = 0;
    while k < items.len()
        invariant
            k <= items@.len(),
            vs == objects::values_view(items@),
            forall|j: int|
                0 <= j < k ==> !(#[trigger] vs[j] matches Val::Int(i) && set@.contains(i)),
        decreases items@.len() - k,
    {
        assert(vs[k as int] == items@[k as int]@);
        match &items[k] {
            Value::Int(i) => {
                if int_among(set, *i) {
                    assert(vs[k as int] == Val::Int(*i));
                    return true;
                }
            },
            _ => {},
        }
        k += 1;
    }
    false
}

/// Whether a list has a string item with a text.
pub(crate) fn any_text_equal(items: &Vec<Value>, text: &str) -> (r: bool)
    ensures
        r == objects::values_view(items@).contains(Val::String(text@)),
{
    let ghost vs = objects::values_view(items@);
    let mut k: usize = 0;
    while k < items.len()
        invariant
            k <= items@.len(),
            vs == objects::values_view(items@),
            forall|j: int| 0 <= j < k ==> #[trigger] vs[j] != Val::String(text@),
        decreases items@.len() - k,
    {
        assert(vs[k as int] == items@[k as int]@);
        match &items[k] {
            Value::String(s) => {
                if strings::str_eq(s.as_str(), text) {
                    assert(vs[k as int] == Val::String(text@));
                    return true;
                }
            },
            _ => {},
        }
        k += 1;
    }
    false
}

/// The arguments of a call, by the indices of the variables.
fn gather_args(arg_idxs: &Vec<usize>, vars: &[Value]) -> (r: Vec<Value>)
    requires
        forall|k: int| 0 <= k < arg_idxs@.len() ==> #[trigger] arg_idxs@[k] < vars@.len(),
    ensures
        objects::values_view(r@) == call_args(arg_idxs@, objects::values_view(vars@)),
{
    let mut args: Vec<Value> = Vec::new();
    let mut k: usize = 0;
    while k < arg_idxs.len()
        invariant
            k <= arg_idxs@.len(),
            args@.len() == k,
            forall|k: int| 0 <= k < arg_idxs@.len() ==> #[trigger] arg_idxs@[k] < vars@.len(),
            forall|j: int| 0 <= j < k ==> (#[trigger] args@[j])@ == vars@[arg_idxs@[j] as int]@,
        decreases arg_idxs@.len() - k,
    {
        args.push(vars[arg_idxs[k]].clone());
        k += 1;
    }
    assert(objects::values_view(args@) =~= call_args(arg_idxs@, objects::values_view(vars@)));
    args
}

impl FilterNode {
    /// The test that the node makes of one integer, where it makes one.
    pub fn int_test(&self) -> (r: Option<IntTest>)
        ensures
            r == int_test_of(*self),
    {
        match self {
            FilterNode::EqInt { idx, val } => Some(
                IntTest { idx: *idx, arith: Arith::Keep, operand: 0, cmp: IntCmp::Eq, val: *val },
            ),
            FilterNode::NeInt { idx, val } => Some(
                IntTest { idx: *idx, arith: Arith::Keep, operand: 0, cmp: IntCmp::Ne, val: *val },
            ),
            FilterNode::LtInt { idx, val } => Some(
                IntTest { idx: *idx, arith: Arith::Keep, operand: 0, cmp: IntCmp::Lt, val: *val },
            ),
            FilterNode::LeInt { idx, val } => Some(
                IntTest { idx: *idx, arith: Arith::Keep, operand: 0, cmp: IntCmp::Le, val: *val },
            ),
            FilterNode::GtInt { idx, val } => Some(
                IntTest { idx: *idx, arith: Arith::Keep, operand: 0, cmp: IntCmp::Gt, val: *val },
            ),
            FilterNode::GeInt { idx, val } => Some(
                IntTest { idx: *idx, arith: Arith::Keep, operand: 0, cmp: IntCmp::Ge, val: *val },
            ),
            FilterNode::AddEq { idx, arith, cmp } => Some(
                IntTest { idx: *idx, arith: Arith::Add, operand: *arith, cmp: IntCmp::Eq, val: *cmp },
            ),
            FilterNode::AddNe { idx, arith, cmp } => Some(
                IntTest { idx: *idx, arith: Arith::Add, operand: *arith, cmp: IntCmp::Ne, val: *cmp },
            ),
            FilterNode::AddLt { idx, arith, cmp } => Some(
                IntTest { idx: *idx, arith: Arith::Add, operand: *arith, cmp: IntCmp::Lt, val: *cmp },
            ),
            FilterNode::AddLe { idx, arith, cmp } => Some(
                IntTest { idx: *idx, arith: Arith::Add, operand: *arith, cmp: IntCmp::Le, val: *cmp },
            ),
            FilterNode::AddGt { idx, arith, cmp } => Some(
                IntTest { idx: *idx, arith: Arith::Add, operand: *arith, cmp: IntCmp::Gt, val: *cmp },
            ),
            FilterNode::AddGe { idx, arith, cmp } => Some(
                IntTest { idx: *idx, arith: Arith::Add, operand: *arith, cmp: IntCmp::Ge, val: *cmp },
            ),
            FilterNode::SubEq { idx, arith, cmp } => Some(
                IntTest { idx: *idx, arith: Arith::Sub, operand: *arith, cmp: IntCmp::Eq, val: *cmp },
            ),
            FilterNode::SubNe { idx, arith, cmp } => Some(
                IntTest { idx: *idx, arith: Arith::Sub, operand: *arith, cmp: IntCmp::Ne, val: *cmp },
            ),
            FilterNode::SubLt { idx, arith, cmp } => Some(
                IntTest { idx: *idx, arith: Arith::Sub, operand: *arith, cmp: IntCmp::Lt, val: *cmp },
            ),
            FilterNode::SubLe { idx, arith, cmp } => Some(
                IntTest { idx: *idx, arith: Arith::Sub, operand: *arith, cmp: IntCmp::Le, val: *cmp },
            ),
            FilterNode::SubGt { idx, arith, cmp } => Some(
                IntTest { idx: *idx, arith: Arith::Sub, operand: *arith, cmp: IntCmp::Gt, val: *cmp },
            ),
            FilterNode::SubGe { idx, arith, cmp } => Some(
                IntTest { idx: *idx, arith: Arith::Sub, operand: *arith, cmp: IntCmp::Ge, val: *cmp },
            ),
            FilterNode::MulEq { idx, arith, cmp } => Some(
                IntTest { idx: *idx, arith: Arith::Mul, operand: *arith, cmp: IntCmp::Eq, val: *cmp },
            ),
            FilterNode::MulNe { idx, arith, cmp } => Some(
                IntTest { idx: *idx, arith: Arith::Mul, operand: *arith, cmp: IntCmp::Ne, val: *cmp },
            ),
            FilterNode::MulLt { idx, arith, cmp } => Some(
                IntTest { idx: *idx, arith: Arith::Mul, operand: *arith, cmp: IntCmp::Lt, val: *cmp },
            ),
            FilterNode::MulLe { idx, arith, cmp } => Some(
                IntTest { idx: *idx, arith: Arith::Mul, operand: *arith, cmp: IntCmp::Le, val: *cmp },
            ),
            FilterNode::MulGt { idx, arith, cmp } => Some(
                IntTest { idx: *idx, arith: Arith::Mul, operand: *arith, cmp: IntCmp::Gt, val: *cmp },
            ),
            FilterNode::MulGe { idx, arith, cmp } => Some(
                IntTest { idx: *idx, arith: Arith::Mul, operand: *arith, cmp: IntCmp::Ge, val: *cmp },
            ),
            _ => None,
        }
    }

    /// The index of the string that the node tests, where it tests one.
    pub fn str_index(&self) -> (r: Option<usize>)
        ensures
            r == str_index_of(*self),
    {
        match self {
            FilterNode::EqStr { idx, .. } => Some(*idx),
            FilterNode::NeStr { idx, .. } => Some(*idx),
            FilterNode::InStrLinear { idx, .. } => Some(*idx),
            FilterNode::InStrHash { idx, .. } => Some(*idx),
            FilterNode::StartsWith { idx, .. } => Some(*idx),
            FilterNode::EndsWith { idx, .. } => Some(*idx),
            FilterNode::Contains { idx, .. } => Some(*idx),
            FilterNode::Matches { idx, .. } => Some(*idx),
            FilterNode::ContainsAny { idx, .. } => Some(*idx),
            FilterNode::AhoContains { idx, .. } => Some(*idx),
            _ => None,
        }
    }

    /// What the node says of the string that it tests.
    pub fn str_test(&self, text: &str) -> (r: bool)
        ensures
            r == str_test_holds(*self, text@),
    {
        match self {
            FilterNode::EqStr { val, .. } => strings::str_eq(text, val.as_str()),
            FilterNode::NeStr { val, .. } => !strings::str_eq(text, val.as_str()),
            FilterNode::InStrLinear { vals, .. } => text_among(vals, text),
            FilterNode::InStrHash { set, .. } => text_among(set, text),
            FilterNode::StartsWith { prefix, .. } => strings::str_starts_with(
                text,
                prefix.as_str(),
            ),
            FilterNode::EndsWith { suffix, .. } => strings::str_ends_with(text, suffix.as_str()),
            FilterNode::Contains { substring, .. } => strings::str_contains(
                text,
                substring.as_str(),
            ),
            FilterNode::Matches { regex, .. } => regex.is_match(text),
            FilterNode::ContainsAny { needles, .. } => any_needle(needles, text),
            FilterNode::AhoContains { ac, min, .. } => enough_words(&**ac, text, *min),
            _ => false,
        }
    }

    /// Evaluates the expression against the variables. A variable of another type than the
    /// node expects makes it false.
    pub fn eval(&self, vars: &[Value]) -> (r: bool)
        requires
            in_range(*self, vars@.len()),
            fits(*self, objects::values_view(vars@)),
        ensures
            r == holds(*self, objects::values_view(vars@)),
        decreases self,
    {
        broadcast use objects::group_value_views;
        broadcast use vstd::std_specs::hash::group_hash_axioms;

        match self {
            FilterNode::And(a, b) => a.eval(vars) && b.eval(vars),
            FilterNode::Or(a, b) => a.eval(vars) || b.eval(vars),
            FilterNode::Not(inner) => !inner.eval(vars),
            FilterNode::BoolLiteral { val } => *val,
            FilterNode::BoolVar { idx } => match &vars[*idx] {
                Value::Bool(b) => *b,
                _ => false,
            },
            FilterNode::GeExpr { left, right } => left.eval(vars) >= right.eval(vars),
            FilterNode::GtExpr { left, right } => left.eval(vars) > right.eval(vars),
            FilterNode::LeExpr { left, right } => left.eval(vars) <= right.eval(vars),
            FilterNode::LtExpr { left, right } => left.eval(vars) < right.eval(vars),
            FilterNode::EqExpr { left, right } => left.eval(vars) == right.eval(vars),
            FilterNode::NeExpr { left, right } => left.eval(vars) != right.eval(vars),
            FilterNode::InIntLinear { idx, vals } => match &vars[*idx] {
                Value::Int(i) => int_among(vals, *i),
                _ => false,
            },
            FilterNode::InIntHash { idx, set } => match &vars[*idx] {
                Value::Int(i) => set.contains(i),
                _ => false,
            },
            FilterNode::ExistsIntList { collection_idx, cmp_val, cmp } => match &vars[
                *collection_idx
            ] {
                Value::List(list) => any_int_compares(list, *cmp, *cmp_val),
                _ => false,
            },
            FilterNode::ExistsStrEq { collection_idx, cmp_val } => match &vars[*collection_idx] {
                Value::List(list) => any_text_equal(list, cmp_val.as_str()),
                _ => false,
            },
            FilterNode::ExistsIntSet { collection_idx, vals } => match &vars[*collection_idx] {
                Value::List(list) => any_int_among(list, vals),
                _ => false,
            },
            FilterNode::ExistsMapInt { collection_idx, cmp_val, cmp } => match &vars[
                *collection_idx
            ] {
                Value::Dict(map) => any_entry_compares(&map.entries, *cmp, *cmp_val),
                _ => false,
            },
            FilterNode::MapIndexStrEq { map_idx, key, cmp_val } => match &vars[*map_idx] {
                Value::Dict(map) => match map.get(&Key::String(key.clone())) {
                    Some(Value::String(s)) => strings::str_eq(s.as_str(), cmp_val.as_str()),
                    Some(Value::List(list)) => any_text_equal(list, cmp_val.as_str()),
                    _ => false,
                },
                _ => false,
            },
            FilterNode::MapIndexIntList { map_idx, key, cmp_val, cmp } => match &vars[*map_idx] {
                Value::Dict(map) => match map.get(&Key::String(key.clone())) {
                    Some(Value::Int(i)) => cmp.eval(*i, *cmp_val),
                    Some(Value::List(list)) => any_int_compares(list, *cmp, *cmp_val),
                    _ => false,
                },
                _ => false,
            },
            FilterNode::FnCmpResult { func, arg_idxs, cmp, literal } => {
                let args = gather_args(arg_idxs, vars);
                match func.call(args.as_slice()) {
                    Ok(Value::Int(i)) => cmp.eval(i, *literal),
                    _ => false,
                }
            },
            _ => match self.int_test() {
                Some(t) => match &vars[t.idx] {
                    Value::Int(i) => t.eval(*i),
                    _ => false,
                },
                None => match self.str_index() {
                    Some(idx) => match &vars[idx] {
                        Value::String(s) => self.str_test(s.as_str()),
                        _ => false,
                    },
                    None => false,
                },
            },
        }
    }
}

/// Whether a node reads lists, maps or calls functions, which typed arrays do not hold.
pub open spec fn reads_values(n: FilterNode) -> bool
    decreases n,
{
    match n {
        FilterNode::ExistsIntList { .. } => true,
        FilterNode::ExistsStrEq { .. } => true,
        FilterNode::ExistsIntSet { .. } => true,
        FilterNode::ExistsMapInt { .. } => true,
        FilterNode::MapIndexStrEq { .. } => true,
        FilterNode::MapIndexIntList { .. } => true,
        FilterNode::FnCmpResult { .. } => true,
        FilterNode::And(a, b) => reads_values(*a) || reads_values(*b),
        FilterNode::Or(a, b) => reads_values(*a) || reads_values(*b),
        FilterNode::Not(a) => reads_values(*a),
        _ => false,
    }
}

/// The integer of a typed array at an index.
pub open spec fn typed_int(ints: Seq<i64>, idx: usize) -> i64 {
    ints[idx as int]
}

/// The string of a typed array at an index.
pub open spec fn typed_str(strings: Seq<Seq<char>>, idx: usize) -> Seq<char> {
    strings[idx as int]
}

/// What a node says over typed arrays, in which a boolean is an integer that is zero or not.
/// What only values can tell counts as false.
pub open spec fn typed_holds(n: FilterNode, ints: Seq<i64>, strings: Seq<Seq<char>>) -> bool
    decreases n,
{
    match n {
        FilterNode::And(a, b) => typed_holds(*a, ints, strings) && typed_holds(*b, ints, strings),
        FilterNode::Or(a, b) => typed_holds(*a, ints, strings) || typed_holds(*b, ints, strings),
        FilterNode::Not(a) => !typed_holds(*a, ints, strings),
        FilterNode::BoolLiteral { val } => val,
        FilterNode::BoolVar { idx } => typed_int(ints, idx) != 0,
        FilterNode::GeExpr { left, right } => int_value_typed(left, ints, strings)
            >= int_value_typed(right, ints, strings),
        FilterNode::GtExpr { left, right } => int_value_typed(left, ints, strings)
            > int_value_typed(right, ints, strings),
        FilterNode::LeExpr { left, right } => int_value_typed(left, ints, strings)
            <= int_value_typed(right, ints, strings),
        FilterNode::LtExpr { left, right } => int_value_typed(left, ints, strings)
            < int_value_typed(right, ints, strings),
        FilterNode::EqExpr { left, right } => int_value_typed(left, ints, strings)
            == int_value_typed(right, ints, strings),
        FilterNode::NeExpr { left, right } => int_value_typed(left, ints, strings)
            != int_value_typed(right, ints, strings),
        FilterNode::InIntLinear { idx, vals } => vals@.contains(typed_int(ints, idx)),
        FilterNode::InIntHash { idx, set } => set@.contains(typed_int(ints, idx)),
        _ => match int_test_of(n) {
            Some(t) => int_test_holds(t, typed_int(ints, t.idx)),
            None => match str_index_of(n) {
                Some(idx) => str_test_holds(n, typed_str(strings, idx)),
                None => false,
            },
        },
    }
}

/// The lengths of the strings that the node measures in a typed array can be counted.
pub open spec fn fits_typed(n: FilterNode, strings: Seq<Seq<char>>) -> bool
    decreases n,
{
    match n {
        FilterNode::And(a, b) => fits_typed(*a, strings) && fits_typed(*b, strings),
        FilterNode::Or(a, b) => fits_typed(*a, strings) && fits_typed(*b, strings),
        FilterNode::Not(a) => fits_typed(*a, strings),
        FilterNode::GeExpr { left, right } => int_fits_typed(left, strings) && int_fits_typed(
            right,
            strings,
        ),
        FilterNode::GtExpr { left, right } => int_fits_typed(left, strings) && int_fits_typed(
            right,
            strings,
        ),
        FilterNode::LeExpr { left, right } => int_fits_typed(left, strings) && int_fits_typed(
            right,
            strings,
        ),
        FilterNode::LtExpr { left, right } => int_fits_typed(left, strings) && int_fits_typed(
            right,
            strings,
        ),
        FilterNode::EqExpr { left, right } => int_fits_typed(left, strings) && int_fits_typed(
            right,
            strings,
        ),
        FilterNode::NeExpr { left, right } => int_fits_typed(left, strings) && int_fits_typed(
            right,
            strings,
        ),
        _ => true,
    }
}

/// The relative cost of evaluating a node; the costs of children add up to at most 255.
pub open spec fn cost_of(n: FilterNode) -> u8
    decreases n,
{
    match n {
        FilterNode::GeExpr { .. } => 2,
        FilterNode::GtExpr { .. } => 2,
        FilterNode::LeExpr { .. } => 2,
        FilterNode::LtExpr { .. } => 2,
        FilterNode::EqExpr { .. } => 2,
        FilterNode::NeExpr { .. } => 2,
        FilterNode::EqStr { .. } => 5,
        FilterNode::NeStr { .. } => 5,
        FilterNode::InIntLinear { .. } => 8,
        FilterNode::InIntHash { .. } => 4,
        FilterNode::InStrLinear { .. } => 15,
        FilterNode::InStrHash { .. } => 8,
        FilterNode::StartsWith { .. } => 8,
        FilterNode::EndsWith { .. } => 8,
        FilterNode::Contains { .. } => 15,
        FilterNode::Matches { .. } => 50,
        FilterNode::ContainsAny { .. } => 35,
        FilterNode::AhoContains { .. } => 40,
        FilterNode::ExistsIntList { .. } => 100,
        FilterNode::ExistsStrEq { .. } => 100,
        FilterNode::ExistsIntSet { .. } => 100,
        FilterNode::ExistsMapInt { .. } => 100,
        FilterNode::MapIndexStrEq { .. } => 100,
        FilterNode::MapIndexIntList { .. } => 100,
        FilterNode::FnCmpResult { .. } => 80,
        FilterNode::And(a, b) => capped_sum(cost_of(*a), cost_of(*b)),
        FilterNode::Or(a, b) => capped_sum(cost_of(*a), cost_of(*b)),
        FilterNode::Not(a) => cost_of(*a),
        _ => 1,
    }
}

/// A sum that stops at 255.
pub open spec fn capped_sum(a: u8, b: u8) -> u8 {
    if a + b > 255 {
        255
    } else {
        (a + b) as u8
    }
}

/// The node with the cheaper child of every conjunction and disjunction in front.
pub open spec fn reordered(n: FilterNode) -> FilterNode
    decreases n,
{
    match n {
        FilterNode::And(a, b) => {
            let x = reordered(*a);
            let y = reordered(*b);
            if cost_of(x) > cost_of(y) {
                FilterNode::And(Box::new(y), Box::new(x))
            } else {
                FilterNode::And(Box::new(x), Box::new(y))
            }
        },
        FilterNode::Or(a, b) => {
            let x = reordered(*a);
            let y = reordered(*b);
            if cost_of(x) > cost_of(y) {
                FilterNode::Or(Box::new(y), Box::new(x))
            } else {
                FilterNode::Or(Box::new(x), Box::new(y))
            }
        },
        FilterNode::Not(a) => FilterNode::Not(Box::new(reordered(*a))),
        _ => n,
    }
}

/// In every conjunction and disjunction the first child is not dearer than the second.
pub open spec fn cheap_first(n: FilterNode) -> bool
    decreases n,
{
    match n {
        FilterNode::And(a, b) => cost_of(*a) <= cost_of(*b) && cheap_first(*a) && cheap_first(*b),
        FilterNode::Or(a, b) => cost_of(*a) <= cost_of(*b) && cheap_first(*a) && cheap_first(*b),
        FilterNode::Not(a) => cheap_first(*a),
        _ => true,
    }
}

impl FilterNode {
    /// Evaluates the expression over variables of the types that it expects.
    pub fn eval_fast(&self, vars: &[Value]) -> (r: bool)
        requires
            in_range(*self, vars@.len()),
            fits(*self, objects::values_view(vars@)),
        ensures
            r == holds(*self, objects::values_view(vars@)),
    {
        self.eval(vars)
    }

    /// Evaluates the expression over typed arrays.
    pub fn eval_fast_typed(&self, ints: &[i64], strings: &[String]) -> (r: bool)
        requires
            !reads_values(*self),
            in_range(*self, ints@.len()),
            in_range(*self, strings@.len()),
            fits_typed(*self, objects::texts(strings@)),
        ensures
            r == typed_holds(*self, ints@, objects::texts(strings@)),
        decreases self,
    {
        broadcast use vstd::std_specs::hash::group_hash_axioms;

        match self {
            FilterNode::And(a, b) => a.eval_fast_typed(ints, strings) && b.eval_fast_typed(
                ints,
                strings,
            ),
            FilterNode::Or(a, b) => a.eval_fast_typed(ints, strings) || b.eval_fast_typed(
                ints,
                strings,
            ),
            FilterNode::Not(inner) => !inner.eval_fast_typed(ints, strings),
            FilterNode::BoolLiteral { val } => *val,
            FilterNode::BoolVar { idx } => ints[*idx] != 0,
            FilterNode::GeExpr { left, right } => left.eval_fast_typed(ints, strings)
                >= right.eval_fast_typed(ints, strings),
            FilterNode::GtExpr { left, right } => left.eval_fast_typed(ints, strings)
                > right.eval_fast_typed(ints, strings),
            FilterNode::LeExpr { left, right } => left.eval_fast_typed(ints, strings)
                <= right.eval_fast_typed(ints, strings),
            FilterNode::LtExpr { left, right } => left.eval_fast_typed(ints, strings)
                < right.eval_fast_typed(ints, strings),
            FilterNode::EqExpr { left, right } => left.eval_fast_typed(ints, strings)
                == right.eval_fast_typed(ints, strings),
            FilterNode::NeExpr { left, right } => left.eval_fast_typed(ints, strings)
                != right.eval_fast_typed(ints, strings),
            FilterNode::InIntLinear { idx, vals } => int_among(vals, ints[*idx]),
            FilterNode::InIntHash { idx, set } => set.contains(&ints[*idx]),
            _ => match self.int_test() {
                Some(t) => t.eval(ints[t.idx]),
                None => match self.str_index() {
                    Some(idx) => self.str_test(strings[idx].as_str()),
                    None => false,
                },
            },
        }
    }

    /// Estimates the relative cost of evaluating the node; higher is dearer.
    pub fn cost(&self) -> (r: u8)
        ensures
            r == cost_of(*self),
        decreases self,
    {
        match self {
            FilterNode::GeExpr { .. } | FilterNode::GtExpr { .. } => 2,
            FilterNode::LeExpr { .. } | FilterNode::LtExpr { .. } => 2,
            FilterNode::EqExpr { .. } | FilterNode::NeExpr { .. } => 2,
            FilterNode::EqStr { .. } | FilterNode::NeStr { .. } => 5,
            FilterNode::InIntLinear { .. } => 8,
            FilterNode::InIntHash { .. } => 4,
            FilterNode::InStrLinear { .. } => 15,
            FilterNode::InStrHash { .. } => 8,
            FilterNode::StartsWith { .. } | FilterNode::EndsWith { .. } => 8,
            FilterNode::Contains { .. } => 15,
            FilterNode::Matches { .. } => 50,
            FilterNode::ContainsAny { .. } => 35,
            FilterNode::AhoContains { .. } => 40,
            FilterNode::ExistsIntList { .. } | FilterNode::ExistsStrEq { .. } => 100,
            FilterNode::ExistsIntSet { .. } | FilterNode::ExistsMapInt { .. } => 100,
            FilterNode::MapIndexStrEq { .. } | FilterNode::MapIndexIntList { .. } => 100,
            FilterNode::FnCmpResult { .. } => 80,
            FilterNode::And(a, b) => add_capped(a.cost(), b.cost()),
            FilterNode::Or(a, b) => add_capped(a.cost(), b.cost()),
            FilterNode::Not(inner) => inner.cost(),
            _ => 1,
        }
    }

    /// Whether the node needs values (map lookups, list iteration, calls), so that typed
    /// arrays do not serve.
    pub fn needs_values(&self) -> (r: bool)
        ensures
            r == reads_values(*self),
        decreases self,
    {
        match self {
            FilterNode::ExistsIntList { .. } | FilterNode::ExistsStrEq { .. } => true,
            FilterNode::ExistsIntSet { .. } | FilterNode::ExistsMapInt { .. } => true,
            FilterNode::MapIndexStrEq { .. } | FilterNode::MapIndexIntList { .. } => true,
            FilterNode::FnCmpResult { .. } => true,
            FilterNode::And(a, b) => a.needs_values() || b.needs_values(),
            FilterNode::Or(a, b) => a.needs_values() || b.needs_values(),
            FilterNode::Not(inner) => inner.needs_values(),
            _ => false,
        }
    }

    /// Puts the cheaper child of every conjunction and disjunction in front, where it can
    /// spare the evaluation of the other.
    pub fn optimize_order(&mut self)
        ensures
            *final(self) == reordered(*old(self)),
        decreases *old(self),
    {
        match self {
            FilterNode::And(a, b) => {
                (&mut **a).optimize_order();
                (&mut **b).optimize_order();
                if a.cost() > b.cost() {
                    std::mem::swap(a, b);
                }
            },
            FilterNode::Or(a, b) => {
                (&mut **a).optimize_order();
                (&mut **b).optimize_order();
                if a.cost() > b.cost() {
                    std::mem::swap(a, b);
                }
            },
            FilterNode::Not(inner) => {
                (&mut **inner).optimize_order();
            },
            _ => {},
        }
    }
}

fn add_capped(a: u8, b: u8) -> (r: u8)
    ensures
        r == capped_sum(a, b),
{
    if a > 255 - b {
        255
    } else {
        a + b
    }
}

/// The request that a call makes in a node at the end of a way.
pub open spec fn call_request(f: FnCallPtr, p: Seq<usize>, args: Seq<Val>) -> Req {
    Req::Call(Site { path: p, rounds: Seq::empty() }, f.name@, None, args)
}

/// What a request is in the table of its node, which has no other calls.
pub open spec fn own_request(q: Req) -> Req {
    match q {
        Req::Call(_, name, target, args) => Req::Call(Site::root(), name, target, args),
        _ => q,
    }
}

/// A request is one of a function in a node at the end of a way.
pub open spec fn is_from(q: Req, p: Seq<usize>, f: FnCallPtr) -> bool {
    q matches Req::Call(site, name, _, _) && site.path == p && name == f.name@
}

/// The first request, in the order of evaluation, to which there is no answer: a call that
/// evaluation would reach. The node is at the end of a way.
pub open spec fn first_lacking(n: FilterNode, p: Seq<usize>, vars: Seq<Val>) -> Option<Req>
    decreases n,
{
    match n {
        FilterNode::And(a, b) => match first_lacking(*a, p.push(0), vars) {
            Some(q) => Some(q),
            None => if holds(*a, vars) {
                first_lacking(*b, p.push(1), vars)
            } else {
                None
            },
        },
        FilterNode::Or(a, b) => match first_lacking(*a, p.push(0), vars) {
            Some(q) => Some(q),
            None => if holds(*a, vars) {
                None
            } else {
                first_lacking(*b, p.push(1), vars)
            },
        },
        FilterNode::Not(a) => first_lacking(*a, p.push(0), vars),
        FilterNode::FnCmpResult { func, arg_idxs, .. } => {
            let q = call_request(func, p, call_args(arg_idxs@, vars));
            if error::answer_from(func.host@, own_request(q), 0) is Some {
                None
            } else {
                Some(q)
            }
        },
        _ => None,
    }
}

/// The evaluation of a tree asks for this.
pub open spec fn asks(n: FilterNode, vars: Seq<Val>, q: Req) -> bool {
    first_lacking(n, Seq::empty(), vars) == Some(q)
}

/// Every call that the evaluation of a tree reaches has its answer.
pub open spec fn all_answered(n: FilterNode, vars: Seq<Val>) -> bool {
    first_lacking(n, Seq::empty(), vars) is None
}

/// One node, at the end of a way, is another with one answer more: in the function that made
/// the request.
pub open spec fn answered(
    a: FilterNode,
    b: FilterNode,
    p: Seq<usize>,
    q: Req,
    o: Outcome,
) -> bool
    decreases a,
{
    match (a, b) {
        (FilterNode::And(x, y), FilterNode::And(u, v)) => {
            answered(*x, *u, p.push(0), q, o) && answered(*y, *v, p.push(1), q, o)
        },
        (FilterNode::Or(x, y), FilterNode::Or(u, v)) => {
            answered(*x, *u, p.push(0), q, o) && answered(*y, *v, p.push(1), q, o)
        },
        (FilterNode::Not(x), FilterNode::Not(u)) => answered(*x, *u, p.push(0), q, o),
        (
            FilterNode::FnCmpResult { func, arg_idxs, cmp, literal },
            FilterNode::FnCmpResult { func: g, arg_idxs: i, cmp: c, literal: l },
        ) => {
            &&& i == arg_idxs
            &&& c == cmp
            &&& l == literal
            &&& g.name == func.name
            &&& g.host@ == (if is_from(q, p, func) {
                func.host@.push((own_request(q), o))
            } else {
                func.host@
            })
        },
        (FilterNode::And(_, _), _) => false,
        (FilterNode::Or(_, _), _) => false,
        (FilterNode::Not(_), _) => false,
        (FilterNode::FnCmpResult { .. }, _) => false,
        _ => b == a,
    }
}

/// One node is another without any answers.
pub open spec fn unanswered(a: FilterNode, b: FilterNode) -> bool
    decreases a,
{
    match (a, b) {
        (FilterNode::And(x, y), FilterNode::And(u, v)) => unanswered(*x, *u) && unanswered(*y, *v),
        (FilterNode::Or(x, y), FilterNode::Or(u, v)) => unanswered(*x, *u) && unanswered(*y, *v),
        (FilterNode::Not(x), FilterNode::Not(u)) => unanswered(*x, *u),
        (
            FilterNode::FnCmpResult { func, arg_idxs, cmp, literal },
            FilterNode::FnCmpResult { func: g, arg_idxs: i, cmp: c, literal: l },
        ) => {
            &&& i == arg_idxs
            &&& c == cmp
            &&& l == literal
            &&& g.name == func.name
            &&& g.host@ == Seq::<(Req, Outcome)>::empty()
        },
        (FilterNode::And(_, _), _) => false,
        (FilterNode::Or(_, _), _) => false,
        (FilterNode::Not(_), _) => false,
        (FilterNode::FnCmpResult { .. }, _) => false,
        _ => b == a,
    }
}

/// Nodes that are the same apart from their answers.
pub open spec fn alike(a: FilterNode, b: FilterNode) -> bool
    decreases a,
{
    match (a, b) {
        (FilterNode::And(x, y), FilterNode::And(u, v)) => alike(*x, *u) && alike(*y, *v),
        (FilterNode::Or(x, y), FilterNode::Or(u, v)) => alike(*x, *u) && alike(*y, *v),
        (FilterNode::Not(x), FilterNode::Not(u)) => alike(*x, *u),
        (
            FilterNode::FnCmpResult { func, arg_idxs, cmp, literal },
            FilterNode::FnCmpResult { func: g, arg_idxs: i, cmp: c, literal: l },
        ) => i == arg_idxs && c == cmp && l == literal && g.name == func.name,
        (FilterNode::And(_, _), _) => false,
        (FilterNode::Or(_, _), _) => false,
        (FilterNode::Not(_), _) => false,
        (FilterNode::FnCmpResult { .. }, _) => false,
        _ => b == a,
    }
}

/// What a node is apart from its answers does not depend on them.
pub proof fn law_alike(
    a: FilterNode,
    b: FilterNode,
    vars: Seq<Val>,
    ints: Seq<i64>,
    strings: Seq<Seq<char>>,
    len: nat,
)
    requires
        alike(a, b),
    ensures
        cost_of(b) == cost_of(a),
        cheap_first(b) == cheap_first(a),
        reads_values(b) == reads_values(a),
        fits(b, vars) == fits(a, vars),
        in_range(b, len) == in_range(a, len),
        typed_holds(b, ints, strings) == typed_holds(a, ints, strings),
        fits_typed(b, strings) == fits_typed(a, strings),
    decreases a,
{
    match (a, b) {
        (FilterNode::And(x, y), FilterNode::And(u, v)) => {
            law_alike(*x, *u, vars, ints, strings, len);
            law_alike(*y, *v, vars, ints, strings, len);
        },
        (FilterNode::Or(x, y), FilterNode::Or(u, v)) => {
            law_alike(*x, *u, vars, ints, strings, len);
            law_alike(*y, *v, vars, ints, strings, len);
        },
        (FilterNode::Not(x), FilterNode::Not(u)) => {
            law_alike(*x, *u, vars, ints, strings, len);
        },
        _ => {},
    }
}

/// An answer that is added is asked for no longer. A tree that has its answers says the same
/// with one more.
pub proof fn law_answered(a: FilterNode, b: FilterNode, q: Req, o: Outcome, vars: Seq<Val>)
    requires
        answered(a, b, Seq::empty(), q, o),
    ensures
        alike(a, b),
        !asks(b, vars, q),
        all_answered(a, vars) ==> all_answered(b, vars) && holds(b, vars) == holds(a, vars),
{
    lemma_answered(a, b, Seq::empty(), q, o, vars);
}

proof fn lemma_answered(
    a: FilterNode,
    b: FilterNode,
    p: Seq<usize>,
    q: Req,
    o: Outcome,
    vars: Seq<Val>,
)
    requires
        answered(a, b, p, q, o),
    ensures
        alike(a, b),
        first_lacking(b, p, vars) != Some(q),
        first_lacking(a, p, vars) is None ==> first_lacking(b, p, vars) is None && holds(b, vars)
            == holds(a, vars),
    decreases a,
{
    match (a, b) {
        (FilterNode::And(x, y), FilterNode::And(u, v)) => {
            lemma_answered(*x, *u, p.push(0), q, o, vars);
            lemma_answered(*y, *v, p.push(1), q, o, vars);
        },
        (FilterNode::Or(x, y), FilterNode::Or(u, v)) => {
            lemma_answered(*x, *u, p.push(0), q, o, vars);
            lemma_answered(*y, *v, p.push(1), q, o, vars);
        },
        (FilterNode::Not(x), FilterNode::Not(u)) => {
            lemma_answered(*x, *u, p.push(0), q, o, vars);
        },
        (
            FilterNode::FnCmpResult { func, arg_idxs, .. },
            FilterNode::FnCmpResult { func: g, .. },
        ) => {
            let own = own_request(call_request(func, p, call_args(arg_idxs@, vars)));
            error::law_answer_stays(func.host@, own_request(q), o, own);
        },
        _ => {},
    }
}

/// An answer to one call is no answer to another: a request from one place of a tree is made
/// after the answers to all others as it was before.
pub proof fn law_answers_apart(
    a: FilterNode,
    b: FilterNode,
    q: Req,
    o: Outcome,
    vars: Seq<Val>,
    other: Req,
)
    requires
        answered(a, b, Seq::empty(), q, o),
        asks(a, vars, other),
        q is Call,
        other->Call_0.path != q->Call_0.path,
    ensures
        asks(b, vars, other),
{
    lemma_answers_apart(a, b, Seq::empty(), q, o, vars, other);
}

proof fn lemma_answers_apart(
    a: FilterNode,
    b: FilterNode,
    p: Seq<usize>,
    q: Req,
    o: Outcome,
    vars: Seq<Val>,
    other: Req,
)
    requires
        answered(a, b, p, q, o),
        first_lacking(a, p, vars) == Some(other),
        q is Call,
        other->Call_0.path != q->Call_0.path,
    ensures
        first_lacking(b, p, vars) == Some(other),
    decreases a,
{
    match (a, b) {
        (FilterNode::And(x, y), FilterNode::And(u, v)) => {
            if first_lacking(*x, p.push(0), vars) is Some {
                lemma_answers_apart(*x, *u, p.push(0), q, o, vars, other);
            } else {
                lemma_answered(*x, *u, p.push(0), q, o, vars);
                lemma_answers_apart(*y, *v, p.push(1), q, o, vars, other);
            }
        },
        (FilterNode::Or(x, y), FilterNode::Or(u, v)) => {
            if first_lacking(*x, p.push(0), vars) is Some {
                lemma_answers_apart(*x, *u, p.push(0), q, o, vars, other);
            } else {
                lemma_answered(*x, *u, p.push(0), q, o, vars);
                lemma_answers_apart(*y, *v, p.push(1), q, o, vars, other);
            }
        },
        (FilterNode::Not(x), FilterNode::Not(u)) => {
            lemma_answers_apart(*x, *u, p.push(0), q, o, vars, other);
        },
        _ => {},
    }
}

/// Without answers a node is what it is with them, apart from them.
pub proof fn law_unanswered(a: FilterNode, b: FilterNode)
    requires
        unanswered(a, b),
    ensures
        alike(a, b),
    decreases a,
{
    match (a, b) {
        (FilterNode::And(x, y), FilterNode::And(u, v)) => {
            law_unanswered(*x, *u);
            law_unanswered(*y, *v);
        },
        (FilterNode::Or(x, y), FilterNode::Or(u, v)) => {
            law_unanswered(*x, *u);
            law_unanswered(*y, *v);
        },
        (FilterNode::Not(x), FilterNode::Not(u)) => {
            law_unanswered(*x, *u);
        },
        _ => {},
    }
}

fn own_of(request: &HostRequest) -> (r: HostRequest)
    ensures
        r@ == own_request(request@),
{
    match request.clone() {
        HostRequest::Call(_, name, target, args) => {
            HostRequest::Call(CallSite::root(), name, target, args)
        },
        other => other,
    }
}

fn comes_from(request: &HostRequest, path: &Vec<usize>, f: &FnCallPtr) -> (r: bool)
    ensures
        r == is_from(request@, path@, *f),
{
    match request {
        HostRequest::Call(site, name, _, _) => error::indices_same(&site.path, path)
            && strings::str_eq(name.as_str(), f.name.as_str()),
        _ => false,
    }
}

impl FilterNode {
    /// The first request, in the order of evaluation, to which there is no answer. Until it
    /// is answered, [`FilterNode::eval`] takes the comparison that needs it for false. Every
    /// call in the tree makes a request of its own: it says where the call stands.
    pub fn lacking(&self, vars: &[Value]) -> (r: Option<HostRequest>)
        requires
            in_range(*self, vars@.len()),
            fits(*self, objects::values_view(vars@)),
        ensures
            match r {
                Some(q) => asks(*self, objects::values_view(vars@), q@),
                None => all_answered(*self, objects::values_view(vars@)),
            },
    {
        let root: Vec<usize> = Vec::new();
        assert(root@ =~= Seq::empty());
        self.lacking_at(&root, vars)
    }

    fn lacking_at(&self, path: &Vec<usize>, vars: &[Value]) -> (r: Option<HostRequest>)
        requires
            in_range(*self, vars@.len()),
            fits(*self, objects::values_view(vars@)),
        ensures
            match r {
                Some(q) => first_lacking(*self, path@, objects::values_view(vars@)) == Some(q@),
                None => first_lacking(*self, path@, objects::values_view(vars@)) is None,
            },
        decreases self,
    {
        broadcast use objects::group_value_views;

        match self {
            FilterNode::And(a, b) => match a.lacking_at(&error::step(path, 0), vars) {
                Some(q) => Some(q),
                None => if a.eval(vars) {
                    b.lacking_at(&error::step(path, 1), vars)
                } else {
                    None
                },
            },
            FilterNode::Or(a, b) => match a.lacking_at(&error::step(path, 0), vars) {
                Some(q) => Some(q),
                None => if a.eval(vars) {
                    None
                } else {
                    b.lacking_at(&error::step(path, 1), vars)
                },
            },
            FilterNode::Not(inner) => inner.lacking_at(&error::step(path, 0), vars),
            FilterNode::FnCmpResult { func, arg_idxs, .. } => {
                let args = gather_args(arg_idxs, vars);
                let rounds: Vec<usize> = Vec::new();
                assert(rounds@ =~= Seq::empty());
                let site = CallSite { path: error::clone_indices(path), rounds };
                let request = HostRequest::Call(site, func.name.clone(), None, args);
                if func.host.knows(&own_of(&request)) {
                    None
                } else {
                    Some(request)
                }
            },
            _ => None,
        }
    }

    /// Adds an answer to the function that asked for it.
    pub fn add_answer(&mut self, request: &HostRequest, answer: &Result<Value, ExecutionError>)
        ensures
            answered(
                *old(self),
                *final(self),
                Seq::empty(),
                request@,
                error::outcome(*answer),
            ),
    {
        let root: Vec<usize> = Vec::new();
        assert(root@ =~= Seq::empty());
        self.answer_at(&root, request, answer)
    }

    fn answer_at(
        &mut self,
        path: &Vec<usize>,
        request: &HostRequest,
        answer: &Result<Value, ExecutionError>,
    )
        ensures
            answered(*old(self), *final(self), path@, request@, error::outcome(*answer)),
        decreases *old(self),
    {
        match self {
            FilterNode::And(a, b) => {
                (&mut **a).answer_at(&error::step(path, 0), request, answer);
                (&mut **b).answer_at(&error::step(path, 1), request, answer);
            },
            FilterNode::Or(a, b) => {
                (&mut **a).answer_at(&error::step(path, 0), request, answer);
                (&mut **b).answer_at(&error::step(path, 1), request, answer);
            },
            FilterNode::Not(inner) => {
                (&mut **inner).answer_at(&error::step(path, 0), request, answer);
            },
            FilterNode::FnCmpResult { func, .. } => {
                if comes_from(request, path, &*func) {
                    func.host.add(own_of(request), error::clone_result(answer));
                }
            },
            _ => {},
        }
    }

    /// Forgets all answers, so that the next evaluation asks for its own.
    pub fn clear_answers(&mut self)
        ensures
            unanswered(*old(self), *final(self)),
        decreases *old(self),
    {
        match self {
            FilterNode::And(a, b) => {
                (&mut **a).clear_answers();
                (&mut **b).clear_answers();
            },
            FilterNode::Or(a, b) => {
                (&mut **a).clear_answers();
                (&mut **b).clear_answers();
            },
            FilterNode::Not(inner) => {
                (&mut **inner).clear_answers();
            },
            FilterNode::FnCmpResult { func, .. } => {
                func.host = HostTable::new();
            },
            _ => {},
        }
    }
}

/// Reordering changes neither what a node says, on values or on typed arrays, nor what it
/// needs and costs, and it puts the cheap children first.
pub proof fn law_reordering_preserves(
    n: FilterNode,
    vars: Seq<Val>,
    ints: Seq<i64>,
    strings: Seq<Seq<char>>,
    len: nat,
)
    ensures
        holds(reordered(n), vars) == holds(n, vars),
        typed_holds(reordered(n), ints, strings) == typed_holds(n, ints, strings),
        reads_values(reordered(n)) == reads_values(n),
        in_range(reordered(n), len) == in_range(n, len),
        fits(reordered(n), vars) == fits(n, vars),
        fits_typed(reordered(n), strings) == fits_typed(n, strings),
        cost_of(reordered(n)) == cost_of(n),
        cheap_first(reordered(n)),
    decreases n,
{
    match n {
        FilterNode::And(a, b) => {
            law_reordering_preserves(*a, vars, ints, strings, len);
            law_reordering_preserves(*b, vars, ints, strings, len);
        },
        FilterNode::Or(a, b) => {
            law_reordering_preserves(*a, vars, ints, strings, len);
            law_reordering_preserves(*b, vars, ints, strings, len);
        },
        FilterNode::Not(a) => {
            law_reordering_preserves(*a, vars, ints, strings, len);
        },
        _ => {},
    }
}

/// Reordering a second time changes nothing.
pub proof fn law_reordering_idempotent(n: FilterNode)
    ensures
        reordered(reordered(n)) == reordered(n),
{
    law_reordering_preserves(n, Seq::empty(), Seq::empty(), Seq::empty(), 0);
    lemma_cheap_first_fixed(reordered(n));
}

proof fn lemma_cheap_first_fixed(n: FilterNode)
    requires
        cheap_first(n),
    ensures
        reordered(n) == n,
    decreases n,
{
    match n {
        FilterNode::And(a, b) => {
            lemma_cheap_first_fixed(*a);
            lemma_cheap_first_fixed(*b);
        },
        FilterNode::Or(a, b) => {
            lemma_cheap_first_fixed(*a);
            lemma_cheap_first_fixed(*b);
        },
        FilterNode::Not(a) => {
            lemma_cheap_first_fixed(*a);
        },
        _ => {},
    }
}

/// The variables have the types that a string expression expects.
pub open spec fn str_typed(e: StrExpr, vars: Seq<Val>) -> bool
    decreases e,
{
    match e {
        StrExpr::Literal(_) => true,
        StrExpr::Var(idx) => vars[idx as int] is String,
        StrExpr::Concat(a, b) => str_typed(*a, vars) && str_typed(*b, vars),
    }
}

/// The variables have the types that an integer expression expects, and it measures no list.
pub open spec fn int_typed(e: I64Expr, vars: Seq<Val>) -> bool
    decreases e,
{
    match e {
        I64Expr::Literal(_) => true,
        I64Expr::Var(idx) => vars[idx as int] is Int,
        I64Expr::Add(a, b) => int_typed(*a, vars) && int_typed(*b, vars),
        I64Expr::Sub(a, b) => int_typed(*a, vars) && int_typed(*b, vars),
        I64Expr::Mul(a, b) => int_typed(*a, vars) && int_typed(*b, vars),
        I64Expr::Div(a, b) => int_typed(*a, vars) && int_typed(*b, vars),
        I64Expr::Mod(a, b) => int_typed(*a, vars) && int_typed(*b, vars),
        I64Expr::Neg(a) => int_typed(*a, vars),
        I64Expr::StrLen(s) => str_typed(*s, vars),
        I64Expr::ListLen(_) => false,
    }
}

/// The variables have the types that a node expects, and typed arrays can serve it.
pub open spec fn well_typed(n: FilterNode, vars: Seq<Val>) -> bool
    decreases n,
{
    match n {
        FilterNode::And(a, b) => well_typed(*a, vars) && well_typed(*b, vars),
        FilterNode::Or(a, b) => well_typed(*a, vars) && well_typed(*b, vars),
        FilterNode::Not(a) => well_typed(*a, vars),
        FilterNode::BoolLiteral { .. } => true,
        FilterNode::BoolVar { idx } => var_at(vars, idx) is Bool,
        FilterNode::GeExpr { left, right } => int_typed(left, vars) && int_typed(right, vars),
        FilterNode::GtExpr { left, right } => int_typed(left, vars) && int_typed(right, vars),
        FilterNode::LeExpr { left, right } => int_typed(left, vars) && int_typed(right, vars),
        FilterNode::LtExpr { left, right } => int_typed(left, vars) && int_typed(right, vars),
        FilterNode::EqExpr { left, right } => int_typed(left, vars) && int_typed(right, vars),
        FilterNode::NeExpr { left, right } => int_typed(left, vars) && int_typed(right, vars),
        FilterNode::InIntLinear { idx, .. } => var_at(vars, idx) is Int,
        FilterNode::InIntHash { idx, .. } => var_at(vars, idx) is Int,
        _ => match int_test_of(n) {
            Some(t) => var_at(vars, t.idx) is Int,
            None => match str_index_of(n) {
                Some(idx) => var_at(vars, idx) is String,
                None => false,
            },
        },
    }
}

/// Typed arrays hold what the variables hold: an integer, a boolean as zero or one, a string.
pub open spec fn arrays_of(vars: Seq<Val>, ints: Seq<i64>, strings: Seq<Seq<char>>) -> bool {
    &&& ints.len() == vars.len()
    &&& strings.len() == vars.len()
    &&& forall|k: int|
        0 <= k < vars.len() ==> match #[trigger] vars[k] {
            Val::Int(i) => ints[k] == i,
            Val::Bool(b) => ints[k] == (if b {
                1i64
            } else {
                0i64
            }),
            Val::String(s) => strings[k] == s,
            _ => true,
        }
}

proof fn lemma_str_typed_agrees(e: StrExpr, vars: Seq<Val>, ints: Seq<i64>, strings: Seq<Seq<char>>)
    requires
        arrays_of(vars, ints, strings),
        str_in_range(e, vars.len()),
        str_typed(e, vars),
    ensures
        str_len_typed(e, strings) == str_len(e, vars),
    decreases e,
{
    match e {
        StrExpr::Concat(a, b) => {
            lemma_str_typed_agrees(*a, vars, ints, strings);
            lemma_str_typed_agrees(*b, vars, ints, strings);
        },
        _ => {},
    }
}

proof fn lemma_int_typed_agrees(e: I64Expr, vars: Seq<Val>, ints: Seq<i64>, strings: Seq<Seq<char>>)
    requires
        arrays_of(vars, ints, strings),
        int_in_range(e, vars.len()),
        int_typed(e, vars),
    ensures
        int_value_typed(e, ints, strings) == int_value(e, vars),
        int_fits_typed(e, strings) == int_fits(e, vars),
    decreases e,
{
    match e {
        I64Expr::Add(a, b) => {
            lemma_int_typed_agrees(*a, vars, ints, strings);
            lemma_int_typed_agrees(*b, vars, ints, strings);
        },
        I64Expr::Sub(a, b) => {
            lemma_int_typed_agrees(*a, vars, ints, strings);
            lemma_int_typed_agrees(*b, vars, ints, strings);
        },
        I64Expr::Mul(a, b) => {
            lemma_int_typed_agrees(*a, vars, ints, strings);
            lemma_int_typed_agrees(*b, vars, ints, strings);
        },
        I64Expr::Div(a, b) => {
            lemma_int_typed_agrees(*a, vars, ints, strings);
            lemma_int_typed_agrees(*b, vars, ints, strings);
        },
        I64Expr::Mod(a, b) => {
            lemma_int_typed_agrees(*a, vars, ints, strings);
            lemma_int_typed_agrees(*b, vars, ints, strings);
        },
        I64Expr::Neg(a) => {
            lemma_int_typed_agrees(*a, vars, ints, strings);
        },
        I64Expr::StrLen(s) => {
            lemma_str_typed_agrees(*s, vars, ints, strings);
        },
        _ => {},
    }
}

/// Where the variables have the types that a node expects, evaluation over typed arrays
/// that hold the same says the same as evaluation over the values.
pub proof fn law_typed_agrees(
    n: FilterNode,
    vars: Seq<Val>,
    ints: Seq<i64>,
    strings: Seq<Seq<char>>,
)
    requires
        arrays_of(vars, ints, strings),
        in_range(n, vars.len()),
        well_typed(n, vars),
    ensures
        !reads_values(n),
        typed_holds(n, ints, strings) == holds(n, vars),
        fits_typed(n, strings) == fits(n, vars),
    decreases n,
{
    match n {
        FilterNode::And(a, b) => {
            law_typed_agrees(*a, vars, ints, strings);
            law_typed_agrees(*b, vars, ints, strings);
        },
        FilterNode::Or(a, b) => {
            law_typed_agrees(*a, vars, ints, strings);
            law_typed_agrees(*b, vars, ints, strings);
        },
        FilterNode::Not(a) => {
            law_typed_agrees(*a, vars, ints, strings);
        },
        FilterNode::GeExpr { left, right } => {
            lemma_int_typed_agrees(left, vars, ints, strings);
            lemma_int_typed_agrees(right, vars, ints, strings);
        },
        FilterNode::GtExpr { left, right } => {
            lemma_int_typed_agrees(left, vars, ints, strings);
            lemma_int_typed_agrees(right, vars, ints, strings);
        },
        FilterNode::LeExpr { left, right } => {
            lemma_int_typed_agrees(left, vars, ints, strings);
            lemma_int_typed_agrees(right, vars, ints, strings);
        },
        FilterNode::LtExpr { left, right } => {
            lemma_int_typed_agrees(left, vars, ints, strings);
            lemma_int_typed_agrees(right, vars, ints, strings);
        },
        FilterNode::EqExpr { left, right } => {
            lemma_int_typed_agrees(left, vars, ints, strings);
            lemma_int_typed_agrees(right, vars, ints, strings);
        },
        FilterNode::NeExpr { left, right } => {
            lemma_int_typed_agrees(left, vars, ints, strings);
            lemma_int_typed_agrees(right, vars, ints, strings);
        },
        _ => {},
    }
}

/// Evaluates several nodes against the same variables.
pub struct FilterBatch {
    pub filters: Vec<(Box<FilterNode>, String)>,
}

/// Every filter of a batch can be evaluated on the variables.
pub open spec fn batch_ready(filters: Seq<(Box<FilterNode>, String)>, vars: Seq<Val>) -> bool {
    forall|k: int|
        0 <= k < filters.len() ==> in_range(*(#[trigger] filters[k]).0, vars.len()) && fits(
            *filters[k].0,
            vars,
        )
}

/// A rule's name and what its filter says.
pub open spec fn verdict(f: (Box<FilterNode>, String), vars: Seq<Val>) -> (Seq<char>, bool) {
    (f.1@, holds(*f.0, vars))
}

/// What the names and verdicts of a result stand for.
pub open spec fn verdicts_view(r: Seq<(String, bool)>) -> Seq<(Seq<char>, bool)> {
    r.map_values(|x: (String, bool)| (x.0@, x.1))
}

/// The name of the first filter that holds.
pub open spec fn first_match(
    filters: Seq<(Box<FilterNode>, String)>,
    vars: Seq<Val>,
    from: int,
) -> Option<Seq<char>>
    decreases filters.len() - from,
{
    if from < 0 || from >= filters.len() {
        None
    } else if holds(*filters[from].0, vars) {
        Some(filters[from].1@)
    } else {
        first_match(filters, vars, from + 1)
    }
}

/// The text of an optional string.
pub open spec fn opt_text(o: Option<String>) -> Option<Seq<char>> {
    match o {
        Some(s) => Some(s@),
        None => None,
    }
}

impl FilterBatch {
    /// Evaluates every filter.
    pub fn eval_all(&self, vars: &[Value]) -> (r: Vec<(String, bool)>)
        requires
            batch_ready(self.filters@, objects::values_view(vars@)),
        ensures
            verdicts_view(r@) == self.filters@.map_values(
                |f: (Box<FilterNode>, String)| verdict(f, objects::values_view(vars@)),
            ),
    {
        let ghost vs = objects::values_view(vars@);
        let mut out: Vec<(String, bool)> = Vec::new();
        let mut k: usize = 0;
        while k < self.filters.len()
            invariant
                k <= self.filters@.len(),
                out@.len() == k,
                vs == objects::values_view(vars@),
                batch_ready(self.filters@, vs),
                forall|j: int|
                    0 <= j < k ==> ((#[trigger] out@[j]).0@, out@[j].1) == verdict(
                        self.filters@[j],
                        vs,
                    ),
            decreases self.filters@.len() - k,
        {
            let f = &self.filters[k];
            assert(vs.len() == vars@.len());
            out.push((f.1.clone(), f.0.eval(vars)));
            k += 1;
        }
        assert(verdicts_view(out@) =~= self.filters@.map_values(
            |f: (Box<FilterNode>, String)| verdict(f, vs),
        ));
        out
    }

    /// The name of the first filter that holds.
    pub fn eval_any(&self, vars: &[Value]) -> (r: Option<String>)
        requires
            batch_ready(self.filters@, objects::values_view(vars@)),
        ensures
            opt_text(r) == first_match(self.filters@, objects::values_view(vars@), 0),
    {
        let ghost vs = objects::values_view(vars@);
        let mut k: usize = 0;
        while k < self.filters.len()
            invariant
                k <= self.filters@.len(),
                vs == objects::values_view(vars@),
                batch_ready(self.filters@, vs),
                first_match(self.filters@, vs, 0) == first_match(self.filters@, vs, k as int),
            decreases self.filters@.len() - k,
        {
            let f = &self.filters[k];
            assert(vs.len() == vars@.len());
            if f.0.eval(vars) {
                return Some(f.1.clone());
            }
            k += 1;
        }
        None
    }

    /// Evaluates every filter into a slice that has room for the results.
    pub fn eval_into(&self, vars: &[Value], out: &mut [bool])
        requires
            batch_ready(self.filters@, objects::values_view(vars@)),
            self.filters@.len() <= old(out)@.len(),
        ensures
            final(out)@.len() == old(out)@.len(),
            forall|k: int|
                0 <= k < final(out)@.len() ==> #[trigger] final(out)@[k] == (if k
                    < self.filters@.len() {
                    holds(*self.filters@[k].0, objects::values_view(vars@))
                } else {
                    old(out)@[k]
                }),
    {
        let ghost vs = objects::values_view(vars@);
        let ghost before = out@;
        let mut k: usize = 0;
        while k < self.filters.len()
            invariant
                k <= self.filters@.len(),
                vs == objects::values_view(vars@),
                batch_ready(self.filters@, vs),
                self.filters@.len() <= before.len(),
                out@.len() == before.len(),
                forall|j: int|
                    0 <= j < before.len() ==> #[trigger] out@[j] == (if j < k {
                        holds(*self.filters@[j].0, vs)
                    } else {
                        before[j]
                    }),
            decreases self.filters@.len() - k,
        {
            let f = &self.filters[k];
            assert(vs.len() == vars@.len());
            let b = f.0.eval(vars);
            out[k] = b;
            k += 1;
        }
    }
}

/// A batch whose filters are ordered by estimated cost, so that the search for a match
/// tries the cheap ones first.
pub struct SmartBatch {
    filters: Vec<(Box<FilterNode>, String)>,
}

/// The filters of one cost, in order.
pub open spec fn of_cost(
    s: Seq<(Box<FilterNode>, String)>,
    c: u8,
) -> Seq<(Box<FilterNode>, String)> {
    s.filter(|f: (Box<FilterNode>, String)| cost_of(*f.0) == c)
}

/// The costs rise along the sequence.
pub open spec fn rising_cost(s: Seq<(Box<FilterNode>, String)>) -> bool {
    forall|i: int, j: int| 0 <= i < j < s.len() ==> cost_of(*s[i].0) <= cost_of(*s[j].0)
}

/// `sorted` is `s` ordered by cost, with filters of one cost in the order they had.
pub open spec fn is_stable_sort(
    sorted: Seq<(Box<FilterNode>, String)>,
    s: Seq<(Box<FilterNode>, String)>,
) -> bool {
    rising_cost(sorted) && forall|c: u8| #[trigger] of_cost(sorted, c) == of_cost(s, c)
}

proof fn lemma_of_cost_insert(
    s: Seq<(Box<FilterNode>, String)>,
    i: int,
    x: (Box<FilterNode>, String),
    c: u8,
)
    requires
        0 <= i <= s.len(),
        rising_cost(s),
        forall|j: int| 0 <= j < i ==> cost_of(*(#[trigger] s[j]).0) <= cost_of(*x.0),
        forall|j: int| i <= j < s.len() ==> cost_of(*(#[trigger] s[j]).0) > cost_of(*x.0),
    ensures
        of_cost(s.insert(i, x), c) == of_cost(s.push(x), c),
        rising_cost(s.insert(i, x)),
{
    let p = |f: (Box<FilterNode>, String)| cost_of(*f.0) == c;
    let l = s.subrange(0, i);
    let r = s.subrange(i, s.len() as int);
    let m = seq![x];
    assert(s.insert(i, x) =~= (l + m) + r);
    assert(s.push(x) =~= (l + r) + m);
    Seq::filter_distributes_over_add(l + m, r, p);
    Seq::filter_distributes_over_add(l, m, p);
    Seq::filter_distributes_over_add(l + r, m, p);
    Seq::filter_distributes_over_add(l, r, p);
    if c == cost_of(*x.0) {
        assert forall|j: int| 0 <= j < r.len() implies !p(#[trigger] r[j]) by {
            assert(r[j] == s[i + j]);
        }
        lemma_none_filtered(r, p);
    } else {
        lemma_none_filtered(m, p);
    }
    assert(((l.filter(p) + m.filter(p)) + r.filter(p)) =~= ((l.filter(p) + r.filter(p)) + m.filter(
        p,
    )));
    let t = s.insert(i, x);
    assert forall|a: int, b: int| 0 <= a < b < t.len() implies cost_of(*t[a].0) <= cost_of(
        *t[b].0,
    ) by {
        if a < i {
            assert(t[a] == s[a]);
        } else if a > i {
            assert(t[a] == s[a - 1]);
        }
        if b < i {
            assert(t[b] == s[b]);
        } else if b > i {
            assert(t[b] == s[b - 1]);
        }
    }
}

proof fn lemma_none_filtered<A>(s: Seq<A>, p: spec_fn(A) -> bool)
    requires
        forall|j: int| 0 <= j < s.len() ==> !p(#[trigger] s[j]),
    ensures
        s.filter(p) == Seq::<A>::empty(),
    decreases s.len(),
{
    reveal(Seq::filter);
    if s.len() > 0 {
        assert forall|j: int| 0 <= j < s.drop_last().len() implies !p(
            #[trigger] s.drop_last()[j],
        ) by {
            assert(s.drop_last()[j] == s[j]);
        }
        lemma_none_filtered(s.drop_last(), p);
    }
}

proof fn lemma_filtered_in<A>(s: Seq<A>, p: spec_fn(A) -> bool, x: A)
    requires
        s.filter(p).contains(x),
    ensures
        s.contains(x),
    decreases s.len(),
{
    reveal(Seq::filter);
    if s.len() > 0 {
        if p(s.last()) && x == s.last() {
            assert(s[s.len() - 1] == x);
        } else {
            let t = s.drop_last().filter(p);
            let k = choose|k: int| 0 <= k < s.filter(p).len() && s.filter(p)[k] == x;
            assert(t[k] == x);
            lemma_filtered_in(s.drop_last(), p, x);
            let j = choose|j: int| 0 <= j < s.drop_last().len() && s.drop_last()[j] == x;
            assert(s[j] == x);
        }
    }
}

proof fn lemma_sorted_has(
    sorted: Seq<(Box<FilterNode>, String)>,
    s: Seq<(Box<FilterNode>, String)>,
    i: int,
)
    requires
        forall|c: u8| #[trigger] of_cost(sorted, c) == of_cost(s, c),
        0 <= i < sorted.len(),
    ensures
        s.contains(sorted[i]),
{
    let c = cost_of(*sorted[i].0);
    let p = |f: (Box<FilterNode>, String)| cost_of(*f.0) == c;
    sorted.lemma_filter_contains(p, i);
    assert(of_cost(sorted, c) == of_cost(s, c));
    lemma_filtered_in(s, p, sorted[i]);
}

proof fn lemma_first_match(filters: Seq<(Box<FilterNode>, String)>, vars: Seq<Val>, from: int)
    requires
        0 <= from,
    ensures
        first_match(filters, vars, from) is Some <==> exists|k: int|
            from <= k < filters.len() && holds(*(#[trigger] filters[k]).0, vars),
    decreases filters.len() - from,
{
    if from < filters.len() && !holds(*filters[from].0, vars) {
        lemma_first_match(filters, vars, from + 1);
    }
}

/// A batch ordered by cost holds the same filters, can be evaluated where the plain one can,
/// and finds a filter that holds where the plain one finds one.
pub proof fn law_order_keeps_matches(
    sorted: Seq<(Box<FilterNode>, String)>,
    s: Seq<(Box<FilterNode>, String)>,
    vars: Seq<Val>,
)
    requires
        is_stable_sort(sorted, s),
    ensures
        forall|f: (Box<FilterNode>, String)| sorted.contains(f) <==> s.contains(f),
        batch_ready(sorted, vars) == batch_ready(s, vars),
        first_match(sorted, vars, 0) is Some == first_match(s, vars, 0) is Some,
{
    assert forall|i: int| 0 <= i < sorted.len() implies s.contains(#[trigger] sorted[i]) by {
        lemma_sorted_has(sorted, s, i);
    }
    assert forall|c: u8| #[trigger] of_cost(s, c) == of_cost(sorted, c) by {
        assert(of_cost(sorted, c) == of_cost(s, c));
    }
    assert forall|i: int| 0 <= i < s.len() implies sorted.contains(#[trigger] s[i]) by {
        lemma_sorted_has(s, sorted, i);
    }
    lemma_first_match(sorted, vars, 0);
    lemma_first_match(s, vars, 0);
    if batch_ready(s, vars) {
        assert forall|k: int| 0 <= k < sorted.len() implies in_range(
            *(#[trigger] sorted[k]).0,
            vars.len(),
        ) && fits(*sorted[k].0, vars) by {
            let j = choose|j: int| 0 <= j < s.len() && s[j] == sorted[k];
            assert(in_range(*s[j].0, vars.len()));
        }
    }
    if batch_ready(sorted, vars) {
        assert forall|k: int| 0 <= k < s.len() implies in_range(
            *(#[trigger] s[k]).0,
            vars.len(),
        ) && fits(*s[k].0, vars) by {
            let j = choose|j: int| 0 <= j < sorted.len() && sorted[j] == s[k];
            assert(in_range(*sorted[j].0, vars.len()));
        }
    }
    if first_match(s, vars, 0) is Some {
        let k = choose|k: int| 0 <= k < s.len() && holds(*(#[trigger] s[k]).0, vars);
        let j = choose|j: int| 0 <= j < sorted.len() && sorted[j] == s[k];
        assert(holds(*sorted[j].0, vars));
    }
    if first_match(sorted, vars, 0) is Some {
        let k = choose|k: int| 0 <= k < sorted.len() && holds(*(#[trigger] sorted[k]).0, vars);
        let j = choose|j: int| 0 <= j < s.len() && s[j] == sorted[k];
        assert(holds(*s[j].0, vars));
    }
}

impl SmartBatch {
    /// The filters in the order in which they are tried.
    pub closed spec fn order(&self) -> Seq<(Box<FilterNode>, String)> {
        self.filters@
    }

    /// Orders the filters by cost.
    pub fn new(filters: Vec<(Box<FilterNode>, String)>) -> (r: SmartBatch)
        ensures
            is_stable_sort(r.order(), filters@),
    {
        let ghost all = filters@;
        let mut rest = filters;
        let mut done: Vec<(Box<FilterNode>, String)> = Vec::new();
        assert(rest@ =~= all.subrange(0, all.len() as int));
        assert forall|c: u8| #[trigger] of_cost(done@, c) == of_cost(all.subrange(0, 0), c) by {
            assert(done@ =~= all.subrange(0, 0));
        }
        let ghost mut taken: int = 0;
        while rest.len() > 0
            invariant
                0 <= taken <= all.len(),
                rest@ == all.subrange(taken, all.len() as int),
                rising_cost(done@),
                forall|c: u8| #[trigger] of_cost(done@, c) == of_cost(all.subrange(0, taken), c),
            decreases rest@.len(),
        {
            let x = rest.remove(0);
            assert(x == all[taken]);
            assert(rest@ =~= all.subrange(taken + 1, all.len() as int));
            let cost = x.0.cost();
            let mut at: usize = done.len();
            while at > 0 && done[at - 1].0.cost() > cost
                invariant
                    at <= done@.len(),
                    cost == cost_of(*x.0),
                    forall|j: int|
                        at <= j < done@.len() ==> cost_of(*(#[trigger] done@[j]).0) > cost,
                decreases at,
            {
                at = at - 1;
            }
            proof {
                assert forall|j: int| 0 <= j < at implies cost_of(*(#[trigger] done@[j]).0)
                    <= cost_of(*x.0) by {
                    assert(cost_of(*done@[at - 1].0) <= cost);
                }
                assert forall|c: u8| #[trigger]
                    of_cost(done@.insert(at as int, x), c) == of_cost(
                        all.subrange(0, taken + 1),
                        c,
                    ) by {
                    lemma_of_cost_insert(done@, at as int, x, c);
                    let p = |f: (Box<FilterNode>, String)| cost_of(*f.0) == c;
                    let m = seq![x];
                    assert(done@.push(x) =~= done@ + m);
                    assert(all.subrange(0, taken + 1) =~= all.subrange(0, taken) + m);
                    Seq::filter_distributes_over_add(done@, m, p);
                    Seq::filter_distributes_over_add(all.subrange(0, taken), m, p);
                    assert(of_cost(done@, c) == of_cost(all.subrange(0, taken), c));
                }
                lemma_of_cost_insert(done@, at as int, x, cost);
            }
            done.insert(at, x);
            proof {
                taken = taken + 1;
            }
        }
        assert(all.subrange(0, taken) =~= all);
        SmartBatch { filters: done }
    }

    /// The name of the first filter that holds, in order of cost.
    pub fn eval_any(&self, vars: &[Value]) -> (r: Option<String>)
        requires
            batch_ready(self.order(), objects::values_view(vars@)),
        ensures
            opt_text(r) == first_match(self.order(), objects::values_view(vars@), 0),
    {
        let ghost vs = objects::values_view(vars@);
        let mut k: usize = 0;
        while k < self.filters.len()
            invariant
                k <= self.filters@.len(),
                vs == objects::values_view(vars@),
                batch_ready(self.filters@, vs),
                first_match(self.filters@, vs, 0) == first_match(self.filters@, vs, k as int),
            decreases self.filters@.len() - k,
        {
            let f = &self.filters[k];
            assert(vs.len() == vars@.len());
            if f.0.eval(vars) {
                return Some(f.1.clone());
            }
            k += 1;
        }
        None
    }

    /// Evaluates every filter, in order of cost.
    pub fn eval_all(&self, vars: &[Value]) -> (r: Vec<(String, bool)>)
        requires
            batch_ready(self.order(), objects::values_view(vars@)),
        ensures
            verdicts_view(r@) == self.order().map_values(
                |f: (Box<FilterNode>, String)| verdict(f, objects::values_view(vars@)),
            ),
    {
        let ghost vs = objects::values_view(vars@);
        let mut out: Vec<(String, bool)> = Vec::new();
        let mut k: usize = 0;
        while k < self.filters.len()
            invariant
                k <= self.filters@.len(),
                out@.len() == k,
                vs == objects::values_view(vars@),
                batch_ready(self.filters@, vs),
                forall|j: int|
                    0 <= j < k ==> ((#[trigger] out@[j]).0@, out@[j].1) == verdict(
                        self.filters@[j],
                        vs,
                    ),
            decreases self.filters@.len() - k,
        {
            let f = &self.filters[k];
            assert(vs.len() == vars@.len());
            out.push((f.1.clone(), f.0.eval(vars)));
            k += 1;
        }
        assert(verdicts_view(out@) =~= self.filters@.map_values(
            |f: (Box<FilterNode>, String)| verdict(f, vs),
        ));
        out
    }
}

} // verus!
